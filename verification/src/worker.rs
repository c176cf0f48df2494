//! The worker: one engine, serving whatever the ring hands it.
//!
//! A job is read, generated and answered. Reading from a lane and writing to
//! one happen elsewhere; what is written, in which order, and how a job ends
//! is decided here.

pub mod body;
pub mod config;
pub mod exchange;
pub mod ids;
pub mod job;
pub mod laws;
pub mod reply;

pub use body::{claim_body, claim_head, BodyRead, ReadError, RequestBody, SourceFrame};
pub use config::{worker_id, NothingToAttach, WorkerConfig};
pub use exchange::{refuse, reject, Exchange, Turn};
pub use ids::{completion_id, CompletionIds};
pub use job::{Job, JobTask};
pub use reply::{error_kind, error_reply, json_reply, Action, Head, Status};
