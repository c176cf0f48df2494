//! The inference engine, without the model.
//!
//! One shared context decodes every active request together, one token each
//! per step. What is here decides who gets a slot, what goes into a batch,
//! when a generation ends and what its caller is told. Tokenizing, decoding
//! and sampling happen elsewhere; their results come in as plain values.
//!
//! [`Engine`] keeps the books and [`Runtime`] is the loop over them.

pub mod books;
pub mod caller;
pub mod config;
pub mod event;
pub mod feeding;
pub mod laws;
pub mod pieces;
pub mod request;
pub mod runtime;
pub mod scheduler;
pub mod slot;
pub mod turns;

pub use books::{Admission, Admit, Arrival, Enqueue, Prefilled, Row, StepPlan, SubmitError};
pub use config::{ContextPlan, EngineConfig, ModelInfo, ModelSource};
pub use event::{Capacity, Event, Stop};
pub use pieces::PieceDecoder;
pub use request::{
    plan_prompt, Float32, GenerateRequest, Message, PrefillError, PromptRow, Sampling,
};
pub use runtime::{Report, Runtime, Task};
pub use scheduler::Engine;
pub use slot::{Flush, Sampled, SendOutcome, Slot};
