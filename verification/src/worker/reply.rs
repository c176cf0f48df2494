//! What goes down a response lane.

use vstd::prelude::*;

use crate::protocol::response;
use crate::protocol::response::{error_body, JSON_CONTENT_TYPE, SSE_CONTENT_TYPE};

verus! {

pub const NO_STORE: &'static str = "no-store";

/// The statuses a completion is answered with.
#[derive(Debug, Clone, Copy, PartialEq, Eq, Structural)]
pub enum Status {
    Success,
    BadRequest,
    InternalServerError,
    ServiceUnavailable,
}

impl Status {
    pub open spec fn spec_code(self) -> u16 {
        match self {
            Status::Success => 200,
            Status::BadRequest => 400,
            Status::InternalServerError => 500,
            Status::ServiceUnavailable => 503,
        }
    }

    pub fn code(self) -> (code: u16)
        ensures
            code == self.spec_code(),
            self == Status::Success <==> code == 200,
            self == Status::BadRequest <==> code == 400,
            self == Status::InternalServerError <==> code == 500,
            self == Status::ServiceUnavailable <==> code == 503,
    {
        match self {
            Status::Success => 200,
            Status::BadRequest => 400,
            Status::InternalServerError => 500,
            Status::ServiceUnavailable => 503,
        }
    }
}

/// The head of a response. No response may be cached.
#[derive(Debug, Clone, Copy)]
pub struct Head {
    pub status: Status,
    pub content_type: &'static str,
    pub cache_control: &'static str,
}

/// One write to a response lane. A response is a head, any number of body
/// frames, and an end.
#[derive(Debug)]
pub enum Action {
    Start(Head),
    Body(String),
    Finish,
}

/// A write with its text as characters.
pub enum ActionView {
    Start { status: Status, content_type: Seq<char>, cache_control: Seq<char> },
    Body(Seq<char>),
    Finish,
}

impl View for Action {
    type V = ActionView;

    open spec fn view(&self) -> ActionView {
        match self {
            Action::Start(head) => ActionView::Start {
                status: head.status,
                content_type: head.content_type@,
                cache_control: head.cache_control@,
            },
            Action::Body(body) => ActionView::Body(body@),
            Action::Finish => ActionView::Finish,
        }
    }
}

/// The view of a list of writes.
pub open spec fn actions_view(actions: Seq<Action>) -> Seq<ActionView> {
    actions.map_values(|action: Action| action@)
}

/// The head of an uncached response.
pub open spec fn start(status: Status, content_type: Seq<char>) -> ActionView {
    ActionView::Start { status, content_type, cache_control: NO_STORE@ }
}

/// The head of a JSON response.
pub fn json_head(status: Status) -> (action: Action)
    ensures
        action@ == start(status, JSON_CONTENT_TYPE@),
        action@ == (ActionView::Start {
            status,
            content_type: "application/json"@,
            cache_control: "no-store"@,
        }),
{
    Action::Start(Head { status, content_type: JSON_CONTENT_TYPE, cache_control: NO_STORE })
}

/// The head of a streamed response.
pub fn sse_head() -> (action: Action)
    ensures
        action@ == start(Status::Success, SSE_CONTENT_TYPE@),
        action@ == (ActionView::Start {
            status: Status::Success,
            content_type: "text/event-stream; charset=utf-8"@,
            cache_control: "no-store"@,
        }),
{
    Action::Start(
        Head { status: Status::Success, content_type: SSE_CONTENT_TYPE, cache_control: NO_STORE },
    )
}

/// A whole JSON response.
pub open spec fn spec_json_reply(status: Status, body: Seq<char>) -> Seq<ActionView> {
    seq![start(status, JSON_CONTENT_TYPE@), ActionView::Body(body), ActionView::Finish]
}

/// One JSON body, written as head, body, end. The three-step form is the same
/// one the streaming path uses.
pub fn json_reply(status: Status, body: String) -> (actions: Vec<Action>)
    ensures
        actions_view(actions@) == spec_json_reply(status, body@),
{
    let mut actions: Vec<Action> = Vec::new();
    actions.push(json_head(status));
    actions.push(Action::Body(body));
    actions.push(Action::Finish);
    assert(actions_view(actions@) =~= spec_json_reply(status, body@));
    actions
}

/// The text of [`error_kind`].
pub open spec fn spec_error_kind(status: Status) -> Seq<char> {
    match status {
        Status::BadRequest => "invalid_request_error"@,
        Status::ServiceUnavailable => "overloaded_error"@,
        _ => "server_error"@,
    }
}

/// What kind of error a status stands for.
pub fn error_kind(status: Status) -> (kind: &'static str)
    ensures
        kind@ == spec_error_kind(status),
        status == Status::BadRequest ==> kind@ == "invalid_request_error"@,
        status == Status::ServiceUnavailable ==> kind@ == "overloaded_error"@,
        status == Status::InternalServerError ==> kind@ == "server_error"@,
{
    match status {
        Status::BadRequest => "invalid_request_error",
        Status::ServiceUnavailable => "overloaded_error",
        _ => "server_error",
    }
}

/// A whole error response.
pub open spec fn spec_error_reply(status: Status, message: Seq<char>) -> Seq<ActionView> {
    spec_json_reply(status, response::spec_error_body(message, spec_error_kind(status)))
}

/// Every failure that comes before the first byte is answered: a caller
/// waiting on a response lane deserves an answer.
pub fn error_reply(status: Status, message: &str) -> (actions: Vec<Action>)
    ensures
        actions_view(actions@) == spec_error_reply(status, message@),
{
    json_reply(status, error_body(message, error_kind(status)))
}

/// Success is the only answer in the two hundreds, a request that is at fault is
/// told so in the four hundreds, and a worker that is, in the five hundreds; no
/// two of them share a code.
pub proof fn statuses_have_their_codes(status: Status)
    ensures
        200 <= status.spec_code() < 300 <==> status == Status::Success,
        400 <= status.spec_code() < 500 <==> status == Status::BadRequest,
        500 <= status.spec_code() < 600 <==> status == Status::InternalServerError || status
            == Status::ServiceUnavailable,
        status.spec_code() == 200 <==> status == Status::Success,
        status.spec_code() == 400 <==> status == Status::BadRequest,
        status.spec_code() == 500 <==> status == Status::InternalServerError,
        status.spec_code() == 503 <==> status == Status::ServiceUnavailable,
{
}

} // verus!
