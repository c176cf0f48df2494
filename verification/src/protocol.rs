//! The OpenAI chat-completions wire format, in and out.
//!
//! This is the only place that knows what a client sends or expects. The
//! worker deals in requests and events on one side and opaque byte frames on
//! the other.

pub mod framing;
pub mod reading;
pub mod request;
pub mod response;

pub use request::{
    ChatMessage, ChatRequest, ChatTemplateKwargs, Content, ContentPart, RequestDefaults,
    RequestError, StreamOptions, DEFAULT_MODEL,
};
pub use response::{
    error_body, error_frame, finish_reason, ResponseWriter, Usage, JSON_CONTENT_TYPE,
    SENTINEL, SSE_CONTENT_TYPE,
};
