//! One job, from the claim to the end of its response.
//!
//! A job is read, put to the engine and answered, in that order. What there is
//! to do next is [`Job::task`]; whoever does it says how it went, and writes
//! what comes back to the response lane.

use std::time::SystemTime;

use bytes::Bytes;
use vstd::prelude::*;

use crate::clock;
use crate::engine::caller;
use crate::engine::event::EventView;
use crate::engine::{Event, GenerateRequest, SubmitError};
use crate::protocol::{ChatRequest, RequestError};
use crate::text;
use crate::worker::body::{claim_body, claim_head, BodyRead, ReadError};
use crate::worker::config::WorkerConfig;
use crate::worker::exchange;
use crate::worker::exchange::{refuse, reject, Exchange, ExchangeView, OutcomeView};
use crate::worker::ids;
use crate::worker::ids::CompletionIds;
use crate::worker::laws;
use crate::worker::reply;
use crate::worker::reply::{Action, ActionView, Status};

verus! {

/// What there is to do for a job.
#[derive(Debug, Clone, Copy, PartialEq, Eq, Structural)]
pub enum JobTask {
    /// Look for the headers of the request.
    ReadHead,
    /// Read its body.
    ReadBody,
    /// Decode it.
    Decode,
    /// Put the request to the engine.
    Submit,
    /// Take the next event from the engine.
    Receive,
    /// Nothing: the job is over.
    Stop,
}

/// Where a job stands.
pub enum JobView {
    AwaitingHead,
    AwaitingBody,
    Decoding,
    /// The request is understood and goes to the engine.
    Submitting(ExchangeView),
    /// The engine has it, and the response is open.
    Answering(ExchangeView),
    Over(OutcomeView),
}

/// One thing that can happen to a job.
pub enum JobMove {
    /// Its headers are there.
    Claimed,
    /// Its body is there.
    Arrived,
    /// It could not be read, for the reason given.
    Rejected(Seq<char>),
    /// It is a request, and this is the exchange that will answer it.
    Understood(ExchangeView),
    /// The engine does not take it.
    Refused(SubmitError),
    /// The engine takes it.
    Accepted,
    /// The engine says something.
    Heard(EventView),
}

impl JobView {
    pub open spec fn task(self) -> JobTask {
        match self {
            JobView::AwaitingHead => JobTask::ReadHead,
            JobView::AwaitingBody => JobTask::ReadBody,
            JobView::Decoding => JobTask::Decode,
            JobView::Submitting(_) => JobTask::Submit,
            JobView::Answering(_) => JobTask::Receive,
            JobView::Over(_) => JobTask::Stop,
        }
    }

    /// Whether `m` can happen here.
    pub open spec fn allows(self, m: JobMove) -> bool {
        match m {
            JobMove::Claimed => self is AwaitingHead,
            JobMove::Arrived => self is AwaitingBody,
            JobMove::Rejected(_) => self is AwaitingHead || self is AwaitingBody
                || self is Decoding,
            JobMove::Understood(_) => self is Decoding,
            JobMove::Refused(_) => self is Submitting,
            JobMove::Accepted => self is Submitting,
            JobMove::Heard(_) => self is Answering,
        }
    }

    /// Where the job stands after `m`.
    pub open spec fn next(self, m: JobMove) -> JobView {
        match m {
            JobMove::Claimed => JobView::AwaitingBody,
            JobMove::Arrived => JobView::Decoding,
            JobMove::Rejected(_) => JobView::Over(OutcomeView::Served),
            JobMove::Understood(x) => JobView::Submitting(x),
            JobMove::Refused(_) => JobView::Over(OutcomeView::Served),
            JobMove::Accepted => JobView::Answering(self->Submitting_0),
            JobMove::Heard(event) => {
                let x = self->Answering_0;
                match x.ending(event) {
                    Some(outcome) => JobView::Over(outcome),
                    None => JobView::Answering(x.after(event)),
                }
            },
        }
    }

    /// What is written for `m`.
    pub open spec fn writes(self, m: JobMove) -> Seq<ActionView> {
        match m {
            JobMove::Rejected(error) => reply::spec_error_reply(Status::BadRequest, error),
            JobMove::Refused(error) => reply::spec_error_reply(
                Status::ServiceUnavailable,
                error.spec_message(),
            ),
            JobMove::Accepted => self->Submitting_0.opening(),
            JobMove::Heard(event) => self->Answering_0.writes(event),
            _ => Seq::empty(),
        }
    }

    /// Whether `moves` can happen one after the other.
    pub open spec fn allows_all(self, moves: Seq<JobMove>) -> bool
        decreases moves.len(),
    {
        moves.len() == 0 || (self.allows_all(moves.drop_last()) && self.after(
            moves.drop_last(),
        ).allows(moves.last()))
    }

    /// Where the job stands after `moves`.
    pub open spec fn after(self, moves: Seq<JobMove>) -> JobView
        decreases moves.len(),
    {
        if moves.len() == 0 {
            self
        } else {
            self.after(moves.drop_last()).next(moves.last())
        }
    }

    /// Everything written for `moves`.
    pub open spec fn written(self, moves: Seq<JobMove>) -> Seq<ActionView>
        decreases moves.len(),
    {
        if moves.len() == 0 {
            Seq::empty()
        } else {
            self.written(moves.drop_last()) + self.after(moves.drop_last()).writes(moves.last())
        }
    }

    /// The name of the completion, where it has one.
    pub open spec fn id(self) -> Option<Seq<char>> {
        match self {
            JobView::Submitting(x) => Some(x.writer.id),
            JobView::Answering(x) => Some(x.writer.id),
            _ => None,
        }
    }
}

/// What a search for the headers amounts to.
pub open spec fn head_move(found: Result<bool, String>) -> JobMove {
    match found {
        Ok(found) => if found {
            JobMove::Claimed
        } else {
            JobMove::Rejected(ReadError::HeadersMissing.spec_message())
        },
        Err(error) => JobMove::Rejected(error@),
    }
}

/// What reading the body amounts to.
pub open spec fn body_move(read: BodyRead, timeout_ms: u64) -> JobMove {
    match read {
        BodyRead::Complete(_) => JobMove::Arrived,
        BodyRead::TimedOut => JobMove::Rejected(
            (ReadError::TimedOut { timeout_ms }).spec_message(),
        ),
        BodyRead::Failed(error) => JobMove::Rejected(error@),
    }
}

/// Whether `decoded` is a request: if not, what its sender is told.
pub open spec fn objection(decoded: Result<ChatRequest, String>) -> Option<Seq<char>> {
    match decoded {
        Ok(request) => if request.messages@.len() == 0 {
            Some(RequestError::NoMessages.spec_message())
        } else {
            None
        },
        Err(error) => Some(error@),
    }
}

/// What submitting the request amounts to.
pub open spec fn submit_move(outcome: Result<(), SubmitError>) -> JobMove {
    match outcome {
        Ok(()) => JobMove::Accepted,
        Err(error) => JobMove::Refused(error),
    }
}

/// Whether `x` is the exchange that answers `request` under a name that follows
/// those given before.
pub open spec fn begins(
    x: ExchangeView,
    request: ChatRequest,
    config: WorkerConfig,
    given: Seq<Seq<char>>,
) -> bool {
    &&& ids::follows(given, x.writer.id)
    &&& x.writer.model == request.spec_model_name_or(config.model_name@)
    &&& exists|now: SystemTime|
        x.writer.created == clock::whole_seconds(#[trigger] clock::reading(now))
    &&& x.stream == request.stream
    &&& x.include_usage == request.spec_include_usage()
    &&& x.text == Seq::<char>::empty()
}

enum Phase {
    AwaitingHead,
    AwaitingBody,
    Decoding,
    Submitting(Exchange),
    Answering(Exchange),
    Over(Result<(), String>),
}

/// One job of a worker.
pub struct Job {
    phase: Phase,
}

impl View for Job {
    type V = JobView;

    closed spec fn view(&self) -> JobView {
        match self.phase {
            Phase::AwaitingHead => JobView::AwaitingHead,
            Phase::AwaitingBody => JobView::AwaitingBody,
            Phase::Decoding => JobView::Decoding,
            Phase::Submitting(exchange) => JobView::Submitting(exchange@),
            Phase::Answering(exchange) => JobView::Answering(exchange@),
            Phase::Over(Ok(())) => JobView::Over(OutcomeView::Served),
            Phase::Over(Err(error)) => JobView::Over(OutcomeView::Failed(error@)),
        }
    }
}

impl Job {
    pub fn new() -> (job: Job)
        ensures
            job@ == JobView::AwaitingHead,
    {
        Job { phase: Phase::AwaitingHead }
    }

    /// What there is to do.
    pub fn task(&self) -> (task: JobTask)
        ensures
            task == self@.task(),
            task == JobTask::ReadHead <==> self@ is AwaitingHead,
            task == JobTask::ReadBody <==> self@ is AwaitingBody,
            task == JobTask::Decode <==> self@ is Decoding,
            task == JobTask::Submit <==> self@ is Submitting,
            task == JobTask::Receive <==> self@ is Answering,
            task == JobTask::Stop <==> self@ is Over,
    {
        match &self.phase {
            Phase::AwaitingHead => JobTask::ReadHead,
            Phase::AwaitingBody => JobTask::ReadBody,
            Phase::Decoding => JobTask::Decode,
            Phase::Submitting(_) => JobTask::Submit,
            Phase::Answering(_) => JobTask::Receive,
            Phase::Over(_) => JobTask::Stop,
        }
    }

    /// The name of the completion, once the request is understood and until
    /// the job is over.
    pub fn id(&self) -> (id: Option<String>)
        ensures
            self@.id() == match id {
                Some(id) => Some(id@),
                None => None::<Seq<char>>,
            },
            self@ matches JobView::Submitting(x) ==> (id matches Some(id) && id@ == x.writer.id),
            self@ matches JobView::Answering(x) ==> (id matches Some(id) && id@ == x.writer.id),
            id is Some ==> self@ is Submitting || self@ is Answering,
    {
        match &self.phase {
            Phase::Submitting(exchange) => Some(exchange.id().to_owned()),
            Phase::Answering(exchange) => Some(exchange.id().to_owned()),
            _ => None,
        }
    }

    /// How the job has ended, if it has.
    pub fn outcome(&self) -> (outcome: Option<Result<(), String>>)
        ensures
            exchange::outcome_view(outcome) == match self@ {
                JobView::Over(outcome) => Some(outcome),
                _ => None,
            },
    {
        match &self.phase {
            Phase::Over(Ok(())) => Some(Ok(())),
            Phase::Over(Err(error)) => Some(Err(error.clone())),
            _ => None,
        }
    }

    /// The headers have been looked for.
    pub fn head(&mut self, found: Result<bool, String>) -> (actions: Vec<Action>)
        requires
            old(self)@ is AwaitingHead,
        ensures
            final(self)@ == old(self)@.next(head_move(found)),
            reply::actions_view(actions@) == old(self)@.writes(head_move(found)),
            (found matches Ok(there) && there) ==> final(self)@ is AwaitingBody && actions@.len()
                == 0,
            (found matches Ok(there) && !there) ==> final(self)@ == JobView::Over(
                OutcomeView::Served,
            ) && reply::actions_view(actions@) == reply::spec_error_reply(
                Status::BadRequest,
                "request headers were missing"@,
            ),
            found matches Err(error) ==> final(self)@ == JobView::Over(OutcomeView::Served)
                && reply::actions_view(actions@) == reply::spec_error_reply(
                Status::BadRequest,
                error@,
            ),
    {
        match claim_head(found) {
            Ok(()) => {
                self.phase = Phase::AwaitingBody;
                nothing()
            },
            Err(error) => {
                self.phase = Phase::Over(Ok(()));
                reject(&error)
            },
        }
    }

    /// The body has been read, within `timeout_ms`. Returns what is to be
    /// decoded, or the answer to a body that could not be read.
    pub fn body(&mut self, read: BodyRead, timeout_ms: u64) -> (body: Result<Bytes, Vec<Action>>)
        requires
            old(self)@ is AwaitingBody,
        ensures
            final(self)@ == old(self)@.next(body_move(read, timeout_ms)),
            match body {
                Ok(bytes) => read == BodyRead::Complete(bytes),
                Err(actions) => !(read is Complete) && reply::actions_view(actions@) == old(
                    self,
                )@.writes(body_move(read, timeout_ms)),
            },
            read is Complete ==> final(self)@ is Decoding && body is Ok,
            read is TimedOut ==> final(self)@ is Over && (body matches Err(actions)
                && reply::actions_view(actions@) == reply::spec_error_reply(
                Status::BadRequest,
                "request body did not finish within "@ + text::decimal(timeout_ms as nat) + "ms"@,
            )),
            read matches BodyRead::Failed(error) ==> final(self)@ is Over && (body matches Err(
                actions,
            ) && reply::actions_view(actions@) == reply::spec_error_reply(
                Status::BadRequest,
                error@,
            )),
    {
        match claim_body(read, timeout_ms) {
            Ok(bytes) => {
                self.phase = Phase::Decoding;
                Ok(bytes)
            },
            Err(error) => {
                self.phase = Phase::Over(Ok(()));
                Err(reject(&error))
            },
        }
    }

    /// The body has been decoded. Returns what to ask of the engine, or the
    /// answer to a body that is no request. Only a request gets a name.
    pub fn decoded(
        &mut self,
        decoded: Result<ChatRequest, String>,
        ids: &mut CompletionIds,
        config: &WorkerConfig,
    ) -> (request: Result<GenerateRequest, Vec<Action>>)
        requires
            old(self)@ is Decoding,
            old(ids).wf(),
            old(ids)@.len() < u64::MAX,
        ensures
            final(ids).wf(),
            match objection(decoded) {
                None => {
                    &&& final(self)@ matches JobView::Submitting(x) && begins(
                        x,
                        decoded->Ok_0,
                        *config,
                        old(ids)@,
                    ) && final(ids)@ == old(ids)@.push(x.writer.id)
                    &&& request matches Ok(request) && decoded->Ok_0.asks_for(
                        request,
                        config.defaults,
                    )
                },
                Some(error) => {
                    &&& final(self)@ == old(self)@.next(JobMove::Rejected(error))
                    &&& *final(ids) == *old(ids)
                    &&& request matches Err(actions) && reply::actions_view(actions@) == old(
                        self,
                    )@.writes(JobMove::Rejected(error))
                },
            },
            request is Ok <==> (decoded matches Ok(chat) && chat.messages@.len() > 0),
            request is Ok <==> final(self)@ is Submitting,
            request is Err <==> final(self)@ == JobView::Over(OutcomeView::Served),
            decoded matches Err(error) ==> (request matches Err(actions) && reply::actions_view(
                actions@,
            ) == reply::spec_error_reply(Status::BadRequest, error@)),
            (decoded matches Ok(chat) && chat.messages@.len() == 0) ==> (request matches Err(
                actions,
            ) && reply::actions_view(actions@) == reply::spec_error_reply(
                Status::BadRequest,
                "messages must not be empty"@,
            )),
    {
        match ChatRequest::parse(decoded) {
            Ok(request) => {
                let id = ids.next_completion_id();
                self.phase = Phase::Submitting(Exchange::begin(id.as_str(), &request, config));
                Ok(request.to_generate_request(config.defaults))
            },
            Err(error) => {
                self.phase = Phase::Over(Ok(()));
                Err(reject(&ReadError::Request(error)))
            },
        }
    }

    /// The request has been put to the engine. A streamed response opens here.
    pub fn submitted(&mut self, outcome: Result<(), SubmitError>) -> (actions: Vec<Action>)
        requires
            old(self)@ is Submitting,
        ensures
            final(self)@ == old(self)@.next(submit_move(outcome)),
            reply::actions_view(actions@) == old(self)@.writes(submit_move(outcome)),
            outcome is Ok ==> final(self)@ == JobView::Answering(old(self)@->Submitting_0)
                && reply::actions_view(actions@) == old(self)@->Submitting_0.opening(),
            outcome matches Err(error) ==> final(self)@ == JobView::Over(OutcomeView::Served)
                && reply::actions_view(actions@) == reply::spec_error_reply(
                Status::ServiceUnavailable,
                error.spec_message(),
            ),
    {
        let mut phase = Phase::Over(Ok(()));
        std::mem::swap(&mut phase, &mut self.phase);
        match (phase, outcome) {
            (Phase::Submitting(exchange), Ok(())) => {
                let actions = exchange.open();
                self.phase = Phase::Answering(exchange);
                actions
            },
            (_, Err(error)) => refuse(&error),
            _ => nothing(),
        }
    }

    /// The engine has said something, or has gone away.
    pub fn heard(&mut self, event: Option<Event>) -> (actions: Vec<Action>)
        requires
            old(self)@ is Answering,
            event matches Some(event) ==> exchange::countable(event@),
        ensures
            final(self)@ == old(self)@.next(JobMove::Heard(exchange::taken_in(event))),
            reply::actions_view(actions@) == old(self)@.writes(
                JobMove::Heard(exchange::taken_in(event)),
            ),
            event matches Some(Event::Token(_)) ==> final(self)@ is Answering,
            event matches Some(Event::Done { .. }) ==> final(self)@ == JobView::Over(
                OutcomeView::Served,
            ),
            event matches Some(Event::Failed(error)) ==> final(self)@ == JobView::Over(
                OutcomeView::Failed(error@),
            ),
            event is None ==> final(self)@ == JobView::Over(
                OutcomeView::Failed("engine closed the stream without finishing"@),
            ),
    {
        let mut phase = Phase::Over(Ok(()));
        std::mem::swap(&mut phase, &mut self.phase);
        match phase {
            Phase::Answering(mut exchange) => {
                let turn = exchange.turn(event);
                self.phase = match turn.outcome {
                    Some(outcome) => Phase::Over(outcome),
                    None => Phase::Answering(exchange),
                };
                turn.actions
            },
            _ => nothing(),
        }
    }
}

fn nothing() -> (actions: Vec<Action>)
    ensures
        reply::actions_view(actions@) == Seq::<ActionView>::empty(),
        actions@.len() == 0,
{
    let actions: Vec<Action> = Vec::new();
    assert(reply::actions_view(actions@) =~= Seq::<ActionView>::empty());
    actions
}

/// The exchange of a job whose request was understood.
pub open spec fn exchange_of(moves: Seq<JobMove>) -> ExchangeView {
    moves[2]->Understood_0
}

/// What the engine has said to a job that it has taken.
pub open spec fn events_of(moves: Seq<JobMove>) -> Seq<EventView> {
    Seq::new((moves.len() - 4) as nat, |i: int| moves[i + 4]->Heard_0)
}

/// A request that is understood has been claimed and has arrived before.
pub open spec fn understood(moves: Seq<JobMove>) -> bool {
    &&& moves.len() >= 3
    &&& moves[0] is Claimed
    &&& moves[1] is Arrived
    &&& moves[2] is Understood
}

/// The engine has taken a request that was understood, and since then there
/// has been nothing but what it said.
pub open spec fn taken(moves: Seq<JobMove>) -> bool {
    &&& understood(moves)
    &&& moves.len() >= 4
    &&& moves[3] is Accepted
    &&& forall|i: int| 4 <= i < moves.len() ==> #[trigger] moves[i] is Heard
}

/// A request that is rejected is rejected before it is understood.
pub open spec fn rejected(moves: Seq<JobMove>) -> bool {
    &&& 1 <= moves.len() <= 3
    &&& moves.last() is Rejected
    &&& moves.len() >= 2 ==> moves[0] is Claimed
    &&& moves.len() == 3 ==> moves[1] is Arrived
}

/// A request that is refused has been understood.
pub open spec fn refused(moves: Seq<JobMove>) -> bool {
    &&& understood(moves)
    &&& moves.len() == 4
    &&& moves[3] is Refused
}

/// The exchange `x` after `events`.
pub open spec fn through(x: ExchangeView, events: Seq<EventView>) -> ExchangeView
    decreases events.len(),
{
    if events.len() == 0 {
        x
    } else {
        through(x, events.drop_last()).after(events.last())
    }
}

/// Whether a job that `moves` have brought to `stand` and for which `written`
/// was written has gone one of the ways that jobs go: rejected with one reply;
/// refused with one reply; or taken by the engine, and answered with the
/// transcript of what the engine said, up to the event that ends it.
pub open spec fn in_course(
    moves: Seq<JobMove>,
    stand: JobView,
    written: Seq<ActionView>,
) -> bool {
    match stand {
        JobView::AwaitingHead => moves.len() == 0 && written.len() == 0,
        JobView::AwaitingBody => moves.len() == 1 && moves[0] is Claimed && written.len() == 0,
        JobView::Decoding => moves.len() == 2 && moves[0] is Claimed && moves[1] is Arrived
            && written.len() == 0,
        JobView::Submitting(x) => {
            &&& understood(moves)
            &&& moves.len() == 3
            &&& x == exchange_of(moves)
            &&& written.len() == 0
        },
        JobView::Answering(x) => {
            &&& taken(moves)
            &&& caller::all_tokens(events_of(moves))
            &&& x == through(exchange_of(moves), events_of(moves))
            &&& written == exchange_of(moves).transcript(events_of(moves))
        },
        JobView::Over(outcome) => if moves.last() is Rejected {
            &&& rejected(moves)
            &&& outcome == OutcomeView::Served
            &&& written == reply::spec_error_reply(
                Status::BadRequest,
                moves.last()->Rejected_0,
            )
        } else if moves.last() is Refused {
            &&& refused(moves)
            &&& outcome == OutcomeView::Served
            &&& written == reply::spec_error_reply(
                Status::ServiceUnavailable,
                moves.last()->Refused_0.spec_message(),
            )
        } else {
            &&& taken(moves)
            &&& caller::complete(events_of(moves))
            &&& exchange_of(moves).ending(events_of(moves).last()) == Some(outcome)
            &&& written == exchange_of(moves).transcript(events_of(moves))
        },
    }
}

proof fn lemma_through_front(x: ExchangeView, events: Seq<EventView>)
    requires
        events.len() > 0,
    ensures
        through(x, events) == through(x.after(events[0]), events.drop_first()),
    decreases events.len(),
{
    if events.len() == 1 {
        reveal_with_fuel(through, 2);
        assert(events.drop_last() =~= Seq::<EventView>::empty());
        assert(events.drop_first() =~= Seq::<EventView>::empty());
    } else {
        lemma_through_front(x, events.drop_last());
        assert(events.drop_last().drop_first() =~= events.drop_first().drop_last());
        assert(events.drop_first().last() == events.last());
    }
}

proof fn lemma_answer_push(x: ExchangeView, events: Seq<EventView>, event: EventView)
    requires
        caller::all_tokens(events),
    ensures
        x.answer(events.push(event)) == x.answer(events) + through(x, events).writes(event),
    decreases events.len(),
{
    let all = events.push(event);
    if events.len() == 0 {
        reveal_with_fuel(ExchangeView::answer, 2);
        assert(all.drop_first() =~= Seq::<EventView>::empty());
        assert(x.answer(all) =~= x.answer(events) + through(x, events).writes(event));
    } else {
        let rest = events.drop_first();
        let next = x.after(events[0]);
        assert forall|i: int| 0 <= i < rest.len() implies #[trigger] rest[i] is Token by {
            assert(events[i + 1] is Token);
        }
        lemma_answer_push(next, rest, event);
        lemma_through_front(x, events);
        assert(all.drop_first() =~= rest.push(event));
        assert(events[0] is Token);
        assert(x.answer(all) =~= x.answer(events) + through(x, events).writes(event));
    }
}

proof fn lemma_heard_in_course(
    moves: Seq<JobMove>,
    stand: JobView,
    written: Seq<ActionView>,
    event: EventView,
)
    requires
        stand is Answering,
        in_course(moves, stand, written),
    ensures
        in_course(
            moves.push(JobMove::Heard(event)),
            stand.next(JobMove::Heard(event)),
            written + stand.writes(JobMove::Heard(event)),
        ),
{
    let all = moves.push(JobMove::Heard(event));
    let x = exchange_of(moves);
    let events = events_of(moves);
    assert(events_of(all) =~= events.push(event));
    assert(exchange_of(all) == x);
    lemma_answer_push(x, events, event);
    assert(x.transcript(events_of(all)) =~= x.transcript(events) + through(x, events).writes(
        event,
    ));
    assert(events.push(event).drop_last() =~= events);
    if event is Token {
        assert forall|i: int| 0 <= i < events.push(event).len() implies #[trigger] events.push(
            event,
        )[i] is Token by {
            if i < events.len() {
                assert(events[i] is Token);
            }
        }
    }
}

/// Every job goes one of the ways that jobs go, and at every point of it what
/// has been written is what belongs there.
pub proof fn every_job_takes_its_course(moves: Seq<JobMove>)
    requires
        JobView::AwaitingHead.allows_all(moves),
    ensures
        in_course(
            moves,
            JobView::AwaitingHead.after(moves),
            JobView::AwaitingHead.written(moves),
        ),
    decreases moves.len(),
{
    if moves.len() > 0 {
        let start = JobView::AwaitingHead;
        let earlier = moves.drop_last();
        every_job_takes_its_course(earlier);
        let before = start.after(earlier);
        let written = start.written(earlier);
        assert(moves =~= earlier.push(moves.last()));
        match moves.last() {
            JobMove::Heard(event) => {
                lemma_heard_in_course(earlier, before, written, event);
            },
            JobMove::Accepted => {
                let x = exchange_of(moves);
                assert(events_of(moves) =~= Seq::<EventView>::empty());
                assert(start.written(moves) =~= x.transcript(events_of(moves)));
            },
            m => {
                assert(written =~= Seq::<ActionView>::empty());
                assert(start.written(moves) =~= before.writes(m));
            },
        }
    }
}

/// A request that is rejected is never submitted: nothing comes after the
/// rejection, and before it the request was not even understood.
pub proof fn a_rejected_request_is_never_submitted(moves: Seq<JobMove>, i: int)
    requires
        JobView::AwaitingHead.allows_all(moves),
        0 <= i < moves.len(),
        moves[i] is Rejected,
    ensures
        i == moves.len() - 1,
        forall|k: int|
            0 <= k < i ==> #[trigger] moves[k] is Claimed || moves[k] is Arrived,
{
    every_job_takes_its_course(moves);
}

/// A response is opened before it is added to: by the time the engine is first
/// heard, the request has been understood and taken, in that order, and the
/// response has been opened.
pub proof fn a_response_opens_before_the_first_event(moves: Seq<JobMove>, i: int)
    requires
        JobView::AwaitingHead.allows_all(moves),
        0 <= i < moves.len(),
        moves[i] is Heard,
    ensures
        i >= 4,
        moves[2] is Understood,
        moves[3] is Accepted,
        exchange_of(moves).opening().is_prefix_of(JobView::AwaitingHead.written(moves)),
{
    every_job_takes_its_course(moves);
}

/// Nothing follows the event that ends a job, nor any other end of it.
pub proof fn nothing_follows_the_end_of_a_job(moves: Seq<JobMove>, i: int)
    requires
        JobView::AwaitingHead.allows_all(moves),
        0 <= i < moves.len(),
        moves[i] is Rejected || moves[i] is Refused || (moves[i] matches JobMove::Heard(event)
            && event.terminal()),
    ensures
        i == moves.len() - 1,
        JobView::AwaitingHead.after(moves) is Over,
        forall|m: JobMove| !JobView::AwaitingHead.after(moves).allows(m),
{
    every_job_takes_its_course(moves);
    if let JobMove::Heard(event) = moves[i] {
        let events = events_of(moves);
        assert(events[i - 4] == event);
        if i < moves.len() - 1 {
            assert(events.drop_last()[i - 4] == event);
        }
    }
}

/// Whatever becomes of a job, its client gets one response: a head, body
/// frames, an end.
pub proof fn every_job_gets_one_response(moves: Seq<JobMove>)
    requires
        JobView::AwaitingHead.allows_all(moves),
        JobView::AwaitingHead.after(moves) is Over,
    ensures
        laws::well_formed(JobView::AwaitingHead.written(moves)),
{
    every_job_takes_its_course(moves);
    if !(moves.last() is Rejected) && !(moves.last() is Refused) {
        let events = events_of(moves);
        laws::lemma_complete_is_a_generation(events);
        laws::every_generation_gets_one_response(
            exchange_of(moves),
            laws::texts_of(events),
            events.last(),
        );
    }
}

/// A job goes on only where its step went well: headers that are there, a body
/// that is whole, a body that is a request with messages, an engine with room.
/// Whatever else comes of a step rejects or refuses it.
pub proof fn a_job_goes_on_only_where_its_step_went_well(
    found: Result<bool, String>,
    read: BodyRead,
    timeout_ms: u64,
    decoded: Result<ChatRequest, String>,
    outcome: Result<(), SubmitError>,
)
    ensures
        head_move(found) is Claimed <==> (found matches Ok(there) && there),
        !(head_move(found) is Claimed) ==> head_move(found) is Rejected,
        body_move(read, timeout_ms) is Arrived <==> read is Complete,
        !(body_move(read, timeout_ms) is Arrived) ==> body_move(read, timeout_ms) is Rejected,
        objection(decoded) is None <==> (decoded matches Ok(request) && request.messages@.len() > 0),
        submit_move(outcome) is Accepted <==> outcome is Ok,
        outcome matches Err(error) ==> submit_move(outcome) == JobMove::Refused(error),
{
}

/// What there is to do follows from where the job stands, and each place has its
/// own task.
pub proof fn every_stand_has_its_task(stand: JobView)
    ensures
        stand.task() == JobTask::ReadHead <==> stand is AwaitingHead,
        stand.task() == JobTask::ReadBody <==> stand is AwaitingBody,
        stand.task() == JobTask::Decode <==> stand is Decoding,
        stand.task() == JobTask::Submit <==> stand is Submitting,
        stand.task() == JobTask::Receive <==> stand is Answering,
        stand.task() == JobTask::Stop <==> stand is Over,
{
}

} // verus!
