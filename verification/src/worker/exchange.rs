//! One request, answered.

use std::time::SystemTime;

use vstd::prelude::*;

use crate::clock;
use crate::engine::event::EventView;
use crate::engine::{Event, SubmitError};
use crate::protocol::response;
use crate::protocol::response::{
    error_frame, ResponseWriter, Usage, WriterView, SSE_CONTENT_TYPE,
};
use crate::protocol::ChatRequest;
use crate::worker::body::ReadError;
use crate::worker::config::WorkerConfig;
use crate::worker::reply;
use crate::worker::reply::{error_reply, json_reply, sse_head, Action, ActionView, Status};

verus! {

/// Answer a request that could not be read.
pub fn reject(error: &ReadError) -> (actions: Vec<Action>)
    ensures
        reply::actions_view(actions@) == reply::spec_error_reply(
            Status::BadRequest,
            error.spec_message(),
        ),
{
    error_reply(Status::BadRequest, error.message().as_str())
}

/// Answer a request that the engine has no room for.
pub fn refuse(error: &SubmitError) -> (actions: Vec<Action>)
    ensures
        reply::actions_view(actions@) == reply::spec_error_reply(
            Status::ServiceUnavailable,
            error.spec_message(),
        ),
        *error == SubmitError::QueueFull ==> reply::actions_view(actions@)
            == reply::spec_error_reply(Status::ServiceUnavailable, "engine queue is full"@),
        *error == SubmitError::ShutDown ==> reply::actions_view(actions@)
            == reply::spec_error_reply(Status::ServiceUnavailable, "engine has shut down"@),
{
    error_reply(Status::ServiceUnavailable, error.message())
}

/// What the client is told when the engine vanishes in the middle of a
/// generation.
pub const VANISHED: &'static str = "engine closed the stream without finishing";

/// What an event calls for: writes, and how the job ends if it does.
#[derive(Debug)]
pub struct Turn {
    pub actions: Vec<Action>,
    pub outcome: Option<Result<(), String>>,
}

/// An exchange with its text as characters.
pub struct ExchangeView {
    pub writer: WriterView,
    pub stream: bool,
    pub include_usage: bool,
    /// The text so far, where it is collected.
    pub text: Seq<char>,
}

/// How an exchange ends.
pub enum OutcomeView {
    Served,
    Failed(Seq<char>),
}

/// The view of an outcome that may not be there yet.
pub open spec fn outcome_view(outcome: Option<Result<(), String>>) -> Option<OutcomeView> {
    match outcome {
        Some(Ok(())) => Some(OutcomeView::Served),
        Some(Err(error)) => Some(OutcomeView::Failed(error@)),
        None => None,
    }
}

/// What is taken in from the engine: an event, or that there will be no more,
/// which is a failure like any other.
pub open spec fn taken_in(event: Option<Event>) -> EventView {
    match event {
        Some(event) => event@,
        None => EventView::Failed(VANISHED@),
    }
}

/// The counts of a finished generation.
pub open spec fn usage_of(prompt_tokens: u32, tokens: u32) -> Usage {
    Usage {
        prompt_tokens,
        completion_tokens: tokens,
        total_tokens: (prompt_tokens + tokens) as u32,
    }
}

/// Whether a usage report is one that fits its counters.
pub open spec fn countable(event: EventView) -> bool {
    event matches EventView::Done { prompt_tokens, tokens, .. } ==> prompt_tokens + tokens
        <= u32::MAX
}

impl ExchangeView {
    /// What is written before the first event.
    pub open spec fn opening(self) -> Seq<ActionView> {
        if self.stream {
            seq![
                reply::start(Status::Success, SSE_CONTENT_TYPE@),
                ActionView::Body(self.writer.open_frame()),
            ]
        } else {
            Seq::empty()
        }
    }

    /// The exchange after `event`.
    pub open spec fn after(self, event: EventView) -> ExchangeView {
        match event {
            EventView::Token(piece) => if self.stream {
                self
            } else {
                ExchangeView { text: self.text + piece, ..self }
            },
            _ => self,
        }
    }

    /// What is written for `event`.
    pub open spec fn writes(self, event: EventView) -> Seq<ActionView> {
        match event {
            EventView::Token(piece) => if self.stream {
                seq![ActionView::Body(self.writer.token_frame(piece))]
            } else {
                Seq::empty()
            },
            EventView::Done { stop, prompt_tokens, tokens, elapsed_ms } => {
                let usage = usage_of(prompt_tokens, tokens);
                if self.stream {
                    seq![
                        ActionView::Body(
                            self.writer.close_frame(
                                stop,
                                if self.include_usage {
                                    Some(usage)
                                } else {
                                    None
                                },
                            ) + response::SENTINEL@,
                        ),
                        ActionView::Finish,
                    ]
                } else {
                    reply::spec_json_reply(
                        Status::Success,
                        self.writer.completion(self.text, stop, usage),
                    )
                }
            },
            EventView::Failed(error) => if self.stream {
                seq![ActionView::Body(response::spec_error_frame(error)), ActionView::Finish]
            } else {
                reply::spec_error_reply(Status::InternalServerError, error)
            },
        }
    }

    /// How the job ends on `event`, if it does.
    pub open spec fn ending(self, event: EventView) -> Option<OutcomeView> {
        match event {
            EventView::Token(_) => None,
            EventView::Done { .. } => Some(OutcomeView::Served),
            EventView::Failed(error) => Some(OutcomeView::Failed(error)),
        }
    }

    /// Everything written for `events`, up to the one that ends the job.
    pub open spec fn answer(self, events: Seq<EventView>) -> Seq<ActionView>
        decreases events.len(),
    {
        if events.len() == 0 {
            Seq::empty()
        } else if self.ending(events[0]) is Some {
            self.writes(events[0])
        } else {
            self.writes(events[0]) + self.after(events[0]).answer(events.drop_first())
        }
    }

    /// Everything written for a generation, from the head on.
    pub open spec fn transcript(self, events: Seq<EventView>) -> Seq<ActionView> {
        self.opening() + self.answer(events)
    }
}

/// A request that the engine has accepted, and the response to it.
pub struct Exchange {
    writer: ResponseWriter,
    stream: bool,
    include_usage: bool,
    text: String,
}

impl View for Exchange {
    type V = ExchangeView;

    closed spec fn view(&self) -> ExchangeView {
        ExchangeView {
            writer: self.writer@,
            stream: self.stream,
            include_usage: self.include_usage,
            text: self.text@,
        }
    }
}

impl Exchange {
    pub fn new(writer: ResponseWriter, stream: bool, include_usage: bool) -> (exchange: Exchange)
        ensures
            exchange@ == (ExchangeView {
                writer: writer@,
                stream,
                include_usage,
                text: Seq::empty(),
            }),
    {
        let exchange = Exchange { writer, stream, include_usage, text: String::new() };
        assert(exchange@.text =~= Seq::empty());
        exchange
    }

    /// The exchange that answers `request` under the name `id`, starting now.
    /// It names the model as the request does, or as the worker does where the
    /// request leaves it open.
    pub fn begin(id: &str, request: &ChatRequest, config: &WorkerConfig) -> (exchange: Exchange)
        ensures
            exchange@.writer.id == id@,
            exchange@.writer.model == request.spec_model_name_or(config.model_name@),
            exists|now: SystemTime|
                exchange@.writer.created == clock::whole_seconds(#[trigger] clock::reading(now)),
            exchange@.stream == request.stream,
            exchange@.include_usage == request.spec_include_usage(),
            exchange@.text == Seq::<char>::empty(),
    {
        Exchange::new(
            ResponseWriter::new(id, request.model_name_or(config.model_name.as_str())),
            request.stream,
            request.include_usage(),
        )
    }

    /// The name of the completion.
    pub fn id(&self) -> (id: &str)
        ensures
            id@ == self@.writer.id,
    {
        self.writer.id()
    }

    /// A streamed response opens before any text arrives; a buffered one opens
    /// when it is complete.
    pub fn open(&self) -> (actions: Vec<Action>)
        ensures
            reply::actions_view(actions@) == self@.opening(),
    {
        let mut actions: Vec<Action> = Vec::new();
        if self.stream {
            actions.push(sse_head());
            actions.push(Action::Body(self.writer.stream_open()));
        }
        assert(reply::actions_view(actions@) =~= self@.opening());
        actions
    }

    /// Answer one event. Every failure after the request is understood is
    /// reported to the client, and a stream that ends without a terminal event
    /// is one.
    pub fn turn(&mut self, event: Option<Event>) -> (turn: Turn)
        requires
            event matches Some(event) ==> countable(event@),
        ensures
            final(self)@ == old(self)@.after(taken_in(event)),
            reply::actions_view(turn.actions@) == old(self)@.writes(taken_in(event)),
            outcome_view(turn.outcome) == old(self)@.ending(taken_in(event)),
            event matches Some(Event::Token(_)) ==> turn.outcome is None,
            event matches Some(Event::Done { .. }) ==> turn.outcome == Some(Ok::<(), String>(())),
            event matches Some(Event::Failed(error)) ==> outcome_view(turn.outcome) == Some(
                OutcomeView::Failed(error@),
            ),
            event is None ==> outcome_view(turn.outcome) == Some(
                OutcomeView::Failed("engine closed the stream without finishing"@),
            ),
    {
        let mut actions: Vec<Action> = Vec::new();
        let event = match event {
            Some(event) => event,
            None => Event::Failed(VANISHED.to_owned()),
        };
        match event {
            Event::Token(piece) => {
                if self.stream {
                    actions.push(Action::Body(self.writer.stream_token(piece.as_str())));
                } else {
                    self.text.append(piece.as_str());
                }
                assert(reply::actions_view(actions@) =~= old(self)@.writes(event@));
                Turn { actions, outcome: None }
            },
            Event::Done { stop, prompt_tokens, tokens, elapsed_ms } => {
                let usage = Usage::new(prompt_tokens, tokens);
                if self.stream {
                    let reported = if self.include_usage {
                        Some(usage)
                    } else {
                        None
                    };
                    actions.push(Action::Body(self.writer.stream_close(stop, reported)));
                    actions.push(Action::Finish);
                    assert(reply::actions_view(actions@) =~= old(self)@.writes(event@));
                    Turn { actions, outcome: Some(Ok(())) }
                } else {
                    let body = self.writer.completion(self.text.clone(), stop, usage);
                    Turn { actions: json_reply(Status::Success, body), outcome: Some(Ok(())) }
                }
            },
            Event::Failed(error) => {
                if self.stream {
                    actions.push(Action::Body(error_frame(error.as_str())));
                    actions.push(Action::Finish);
                    assert(reply::actions_view(actions@) =~= old(self)@.writes(event@));
                    Turn { actions, outcome: Some(Err(error)) }
                } else {
                    let actions = error_reply(Status::InternalServerError, error.as_str());
                    Turn { actions, outcome: Some(Err(error)) }
                }
            },
        }
    }
}

} // verus!
