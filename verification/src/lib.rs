//! A local LLM worker: the decisions of an inference engine, the
//! chat-completions wire format, and the exchange that answers one request.

pub mod clock;
pub mod console;
pub mod engine;
pub mod ingress;
pub mod json;
pub mod protocol;
pub mod text;
pub mod worker;
