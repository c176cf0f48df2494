//! What a caller hears from the engine.

use vstd::prelude::*;

verus! {

/// Why generation stopped.
#[derive(Debug, Clone, Copy, PartialEq, Eq, Structural)]
pub enum Stop {
    /// The model emitted an end-of-generation token.
    EndOfGeneration,
    /// `max_tokens` was reached.
    Limit,
    /// The context window filled. Generation cannot continue without
    /// discarding history, which is a decision for the caller, not the engine.
    ContextFull,
    /// The caller cancelled, or went away.
    Cancelled,
}

#[derive(Debug, Clone)]
pub enum Event {
    /// A decoded piece of text. Never a partial UTF-8 sequence.
    Token(String),
    Done {
        stop: Stop,
        /// Tokens in the templated prompt, counted at prefill.
        prompt_tokens: u32,
        /// Tokens generated.
        tokens: u32,
        elapsed_ms: u64,
    },
    Failed(String),
}

/// An event with its text as characters.
pub enum EventView {
    Token(Seq<char>),
    Done { stop: Stop, prompt_tokens: u32, tokens: u32, elapsed_ms: u64 },
    Failed(Seq<char>),
}

impl View for Event {
    type V = EventView;

    open spec fn view(&self) -> EventView {
        match self {
            Event::Token(piece) => EventView::Token(piece@),
            Event::Done { stop, prompt_tokens, tokens, elapsed_ms } => EventView::Done {
                stop: *stop,
                prompt_tokens: *prompt_tokens,
                tokens: *tokens,
                elapsed_ms: *elapsed_ms,
            },
            Event::Failed(error) => EventView::Failed(error@),
        }
    }
}

impl EventView {
    /// Whether this event is the last one of its generation.
    pub open spec fn terminal(self) -> bool {
        !(self is Token)
    }
}

/// Slot occupancy, shaped for a scheduler's heartbeat.
#[derive(Debug, Clone, Copy, PartialEq, Eq, Structural)]
pub struct Capacity {
    /// Everything submitted and not yet finished, waiting or running.
    pub inflight: usize,
    pub max_inflight: usize,
    pub available_slots: usize,
    /// Generations that hold a slot right now.
    pub decoding: usize,
}

} // verus!
