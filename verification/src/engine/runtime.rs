//! The engine loop, one task at a time.
//!
//! Each turn delivers what is waiting, fills free slots from the queue, and
//! decodes one token for every slot that is ready. The loop says what comes
//! next; whoever runs it does that and reports what came of it.

use vstd::prelude::*;

use crate::engine::books;
use crate::engine::books::{
    Admission, Admit, Arrival, EngineView, Enqueue, Prefilled, Row, SubmitError,
};
use crate::engine::caller;
use crate::engine::caller::Caller;
use crate::engine::config::{EngineConfig, ModelInfo};
use crate::engine::event::EventView;
use crate::engine::laws;
use crate::engine::laws::Move;
use crate::engine::scheduler::Engine;
use crate::engine::slot::{Sampled, SendOutcome, SlotView};

verus! {

/// What the loop wants done.
#[derive(Debug, Clone, Copy, PartialEq, Eq, Structural)]
pub enum Task {
    /// Offer the outbox's event at `index` to its caller.
    Deliver { index: usize },
    /// Offer the slot's pending piece to its caller.
    Offer { index: usize },
    /// Take a request off the queue, if there is one.
    Poll,
    /// Wait for a request: there is nothing else to do.
    Wait,
    /// Ingest the prompt of the request that was just claimed.
    Prefill { seq_id: u32 },
    /// Look which callers have cancelled.
    Survey,
    /// Put a row into the batch.
    Feed { row: Row },
    /// Decode the batch.
    Decode,
    /// Sample the slot's next token from a row of the batch.
    Sample { index: usize, row: usize },
    /// Nothing could be decoded: every slot is waiting on its caller, or there
    /// is no work at all. Rest for a moment.
    Rest,
    /// Nothing is left to do and nothing is left to come.
    Stop,
}

/// What came of a task.
#[derive(Debug)]
pub enum Report {
    Delivered(SendOutcome),
    Offered { outcome: SendOutcome, now_ns: u64, now_us: i64 },
    Arrived(Arrival),
    Ingested { outcome: Result<Prefilled, String>, now_us: i64 },
    Surveyed { cancelled: Vec<bool>, now_us: i64 },
    Fed(Result<(), String>),
    Decoded(Result<(), String>),
    Sampled { sampled: Sampled, now_us: i64 },
    Rested,
}

/// Where in its turn the loop is.
enum Phase {
    Deliver { outcomes: Vec<SendOutcome> },
    Offer { index: usize },
    Admit,
    Prefill,
    Survey,
    Feed { rows: Vec<Row>, at: usize, fed: Vec<usize> },
    Decode { fed: Vec<usize> },
    Sample { fed: Vec<usize>, at: usize },
    Rest,
    Stop,
}

/// Where in its turn the loop is, with what it still has before it.
pub enum PhaseView {
    /// The first entries of the outbox have met `outcomes`; the next one is to
    /// be offered.
    Deliver { outcomes: Seq<SendOutcome> },
    /// The slot at `index` has a piece to offer.
    Offer { index: int },
    /// There is a free slot to fill.
    Admit,
    Prefill,
    Survey,
    /// The rows from `at` on are still to be fed; `fed` are the slots of those
    /// that went in.
    Feed { rows: Seq<Row>, at: int, fed: Seq<usize> },
    Decode { fed: Seq<usize> },
    /// The slots from `at` on are still to be sampled.
    Sample { fed: Seq<usize>, at: int },
    Rest,
    Stop,
}

/// The loop's state.
pub struct RuntimeView {
    pub engine: EngineView,
    pub phase: PhaseView,
}

/// Whether the slot at `i` is taken and waits on the model.
pub open spec fn ready(slots: Seq<Option<SlotView>>, i: int) -> bool {
    0 <= i < slots.len() && (slots[i] matches Some(slot) && slot.pending is None)
}

/// The slots of `fed` come in order, each once.
pub open spec fn ascending(fed: Seq<usize>) -> bool {
    forall|j: int, k: int| 0 <= j < k < fed.len() ==> #[trigger] fed[j] < #[trigger] fed[k]
}

/// The first slot from `from` on that has a piece to offer, or the number of
/// slots where none has.
pub open spec fn next_pending(slots: Seq<Option<SlotView>>, from: int) -> int
    decreases slots.len() - from,
{
    if from >= slots.len() {
        slots.len() as int
    } else if slots[from] matches Some(slot) && slot.pending is Some {
        from
    } else {
        next_pending(slots, from + 1)
    }
}

/// The rest of a turn once the slots are filled: a loop with nothing left
/// stops, any other surveys its callers for the next step.
pub open spec fn filled(engine: EngineView) -> PhaseView {
    if engine.finished() {
        PhaseView::Stop
    } else {
        PhaseView::Survey
    }
}

/// The rest of a turn from filling slots on.
pub open spec fn filling(engine: EngineView) -> PhaseView {
    if books::first_free(engine.slots) is Some {
        PhaseView::Admit
    } else {
        filled(engine)
    }
}

/// The rest of a turn from offering the pieces of slots from `from` on.
pub open spec fn offering(engine: EngineView, from: int) -> PhaseView {
    let index = next_pending(engine.slots, from);
    if index < engine.slots.len() {
        PhaseView::Offer { index }
    } else {
        filling(engine)
    }
}

/// Whether one of the entries for `job` has met a full channel.
pub open spec fn refused(
    outbox: Seq<(u64, EventView)>,
    outcomes: Seq<SendOutcome>,
    job: u64,
) -> bool {
    exists|i: int|
        0 <= i < outcomes.len() && (#[trigger] outbox[i]).0 == job && outcomes[i]
            == SendOutcome::Full
}

/// `outcomes`, and those of the entries after them that are not offered: an
/// entry behind one of the same caller's that met a full channel waits with it.
pub open spec fn settled(
    outbox: Seq<(u64, EventView)>,
    outcomes: Seq<SendOutcome>,
) -> Seq<SendOutcome>
    decreases outbox.len() - outcomes.len(),
{
    if outcomes.len() < outbox.len() && refused(
        outbox,
        outcomes,
        outbox[outcomes.len() as int].0,
    ) {
        settled(outbox, outcomes.push(SendOutcome::Full))
    } else {
        outcomes
    }
}

/// A turn from its start.
pub open spec fn turning(engine: EngineView) -> PhaseView {
    if engine.outbox.len() == 0 {
        offering(engine, 0)
    } else {
        PhaseView::Deliver { outcomes: Seq::empty() }
    }
}

/// The rest of a turn from feeding the rows from `at` on.
pub open spec fn feeding(rows: Seq<Row>, at: int, fed: Seq<usize>) -> PhaseView {
    if at < rows.len() {
        PhaseView::Feed { rows, at, fed }
    } else if fed.len() == 0 {
        PhaseView::Rest
    } else {
        PhaseView::Decode { fed }
    }
}

/// The rest of a turn from sampling the slots from `at` on.
pub open spec fn sampling(engine: EngineView, fed: Seq<usize>, at: int) -> PhaseView {
    if at < fed.len() {
        PhaseView::Sample { fed, at }
    } else {
        turning(engine)
    }
}

/// Whether the sequence `seq_id` was in use in `s` and is free in `r`.
pub open spec fn given_back(s: EngineView, r: EngineView, seq_id: u32) -> bool {
    &&& seq_id < s.slots.len()
    &&& s.slots[seq_id as int] is Some || (s.prefilling matches Some((_, index)) && index == seq_id)
    &&& r.slots[seq_id as int] is None
    &&& !(r.prefilling matches Some((_, index)) && index == seq_id)
}

impl RuntimeView {
    pub open spec fn wf(self) -> bool {
        &&& self.engine.wf()
        &&& self.engine.prefilling is Some <==> self.phase is Prefill
        &&& match self.phase {
            PhaseView::Deliver { outcomes } => {
                &&& outcomes.len() < self.engine.outbox.len()
                &&& books::in_order(self.engine.outbox, outcomes)
                &&& !refused(
                    self.engine.outbox,
                    outcomes,
                    self.engine.outbox[outcomes.len() as int].0,
                )
            },
            PhaseView::Offer { index } => 0 <= index < self.engine.slots.len(),
            PhaseView::Stop => self.engine.finished(),
            PhaseView::Admit => books::first_free(self.engine.slots) is Some,
            PhaseView::Feed { rows, at, fed } => {
                &&& 0 <= at < rows.len()
                &&& forall|k: int|
                    at <= k < rows.len() ==> ready(
                        self.engine.slots,
                        (#[trigger] rows[k]).index as int,
                    )
                &&& forall|j: int, k: int|
                    at <= j < k < rows.len() ==> (#[trigger] rows[j]).index < (
                    #[trigger] rows[k]).index
                &&& forall|k: int|
                    0 <= k < fed.len() ==> ready(self.engine.slots, #[trigger] fed[k] as int)
                        && fed[k] < rows[at].index
                &&& ascending(fed)
            },
            PhaseView::Decode { fed } => {
                &&& fed.len() > 0
                &&& forall|k: int|
                    0 <= k < fed.len() ==> ready(self.engine.slots, #[trigger] fed[k] as int)
                &&& ascending(fed)
            },
            PhaseView::Sample { fed, at } => {
                &&& 0 <= at < fed.len()
                &&& forall|k: int|
                    at <= k < fed.len() ==> ready(self.engine.slots, #[trigger] fed[k] as int)
                &&& ascending(fed)
            },
            _ => true,
        }
    }

    /// What the loop wants done in this state. Waiting is for when there is
    /// nothing else to do: with work in flight a request that has not arrived
    /// yet must not delay the ones that have.
    pub open spec fn task(self) -> Task {
        match self.phase {
            PhaseView::Deliver { outcomes } => Task::Deliver { index: outcomes.len() as usize },
            PhaseView::Offer { index } => Task::Offer { index: index as usize },
            PhaseView::Admit => if books::occupied(self.engine.slots) == 0
                && self.engine.outbox.len() == 0 {
                Task::Wait
            } else {
                Task::Poll
            },
            PhaseView::Prefill => Task::Prefill {
                seq_id: self.engine.prefilling.unwrap().1 as u32,
            },
            PhaseView::Survey => Task::Survey,
            PhaseView::Feed { rows, at, fed } => Task::Feed { row: rows[at] },
            PhaseView::Decode { .. } => Task::Decode,
            PhaseView::Sample { fed, at } => Task::Sample { index: fed[at], row: at as usize },
            PhaseView::Rest => Task::Rest,
            PhaseView::Stop => Task::Stop,
        }
    }

    /// Whether `report` answers the task of this state.
    pub open spec fn accepts(self, report: Report) -> bool {
        match (self.phase, report) {
            (PhaseView::Deliver { .. }, Report::Delivered(_)) => true,
            (PhaseView::Offer { .. }, Report::Offered { .. }) => true,
            (PhaseView::Admit, Report::Arrived(arrival)) => match arrival {
                Arrival::Job { .. } => self.engine.queued >= 1,
                Arrival::Empty => true,
                Arrival::Disconnected => self.engine.queued == 0,
            },
            (PhaseView::Prefill, Report::Ingested { outcome, .. }) => match outcome {
                Ok(prefilled) => prefilled.prompt_tokens < self.engine.n_ctx && sizable(
                    prefilled.first,
                ),
                Err(_) => true,
            },
            (PhaseView::Survey, Report::Surveyed { cancelled, .. }) => cancelled@.len()
                == self.engine.slots.len(),
            (PhaseView::Feed { .. }, Report::Fed(_)) => true,
            (PhaseView::Decode { .. }, Report::Decoded(_)) => true,
            (PhaseView::Sample { .. }, Report::Sampled { sampled, .. }) => sizable(sampled),
            (PhaseView::Rest, Report::Rested) => true,
            _ => false,
        }
    }

    /// The state after `report`.
    pub open spec fn reported(self, report: Report) -> RuntimeView {
        let s = self.engine;
        match (self.phase, report) {
            (PhaseView::Deliver { outcomes }, Report::Delivered(outcome)) => {
                let outcomes = settled(s.outbox, outcomes.push(outcome));
                if outcomes.len() < s.outbox.len() {
                    RuntimeView { engine: s, phase: PhaseView::Deliver { outcomes } }
                } else {
                    let engine = s.next(Move::Sweep(outcomes));
                    RuntimeView { engine, phase: offering(engine, 0) }
                }
            },
            (PhaseView::Offer { index }, Report::Offered { outcome, now_ns, now_us }) => {
                let engine = s.flushed(index, outcome, now_ns, now_us);
                RuntimeView { engine, phase: offering(engine, index + 1) }
            },
            (PhaseView::Admit, Report::Arrived(arrival)) => {
                let engine = s.after_arrival(arrival);
                let phase = match arrival {
                    Arrival::Job { cancelled, .. } => if cancelled {
                        filling(engine)
                    } else {
                        PhaseView::Prefill
                    },
                    _ => filled(engine),
                };
                RuntimeView { engine, phase }
            },
            (PhaseView::Prefill, Report::Ingested { outcome, now_us }) => {
                let engine = match outcome {
                    Ok(prefilled) => s.after_prefill(prefilled, now_us),
                    Err(error) => s.answered(EventView::Failed(error@)),
                };
                RuntimeView { engine, phase: filling(engine) }
            },
            (PhaseView::Survey, Report::Surveyed { cancelled, now_us }) => RuntimeView {
                engine: s.without_cancelled(cancelled@, now_us),
                phase: feeding(
                    books::ready_rows(s.slots, cancelled@, s.slots.len()),
                    0,
                    Seq::empty(),
                ),
            },
            (PhaseView::Feed { rows, at, fed }, Report::Fed(Ok(()))) => RuntimeView {
                engine: s,
                phase: feeding(rows, at + 1, fed.push(rows[at].index)),
            },
            (PhaseView::Feed { rows, at, fed }, Report::Fed(Err(error))) => RuntimeView {
                engine: s.failed(rows[at].index as int, error@),
                phase: feeding(rows, at + 1, fed),
            },
            (PhaseView::Decode { fed }, Report::Decoded(Ok(()))) => RuntimeView {
                engine: s,
                phase: sampling(s, fed, 0),
            },
            (PhaseView::Decode { fed }, Report::Decoded(Err(error))) => {
                let engine = s.all_failed(fed, error@);
                RuntimeView { engine, phase: turning(engine) }
            },
            (PhaseView::Sample { fed, at }, Report::Sampled { sampled, now_us }) => {
                let engine = s.after_sample(fed[at] as int, sampled, now_us);
                RuntimeView { engine, phase: sampling(engine, fed, at + 1) }
            },
            (PhaseView::Rest, Report::Rested) => RuntimeView { engine: s, phase: turning(s) },
            _ => self,
        }
    }

    /// The state after a request has been put to the queue.
    pub open spec fn submitted(self, outcome: Enqueue) -> RuntimeView {
        RuntimeView { engine: self.engine.next(Move::Submit(outcome)), ..self }
    }

    /// What `report` does to the books, as moves.
    pub open spec fn moves(self, report: Report) -> Seq<Move> {
        match (self.phase, report) {
            (PhaseView::Deliver { outcomes }, Report::Delivered(outcome)) => {
                let outcomes = settled(self.engine.outbox, outcomes.push(outcome));
                if outcomes.len() < self.engine.outbox.len() {
                    Seq::empty()
                } else {
                    seq![Move::Sweep(outcomes)]
                }
            },
            (PhaseView::Offer { index }, Report::Offered { outcome, now_ns, now_us }) => seq![
                Move::Flush { index, outcome, now_ns, now_us },
            ],
            (PhaseView::Admit, Report::Arrived(arrival)) => seq![Move::Arrive(arrival)],
            (PhaseView::Prefill, Report::Ingested { outcome, now_us }) => match outcome {
                Ok(prefilled) => seq![Move::Prefilled { prefilled, now_us }],
                Err(error) => seq![Move::PrefillFailed(error@)],
            },
            (PhaseView::Survey, Report::Surveyed { cancelled, now_us }) => seq![
                Move::Step { cancelled: cancelled@, now_us },
            ],
            (PhaseView::Feed { rows, at, fed }, Report::Fed(Err(error))) => seq![
                Move::Fail { index: rows[at].index as int, error: error@ },
            ],
            (PhaseView::Decode { fed }, Report::Decoded(Err(error))) => laws::failures(fed, error@),
            (PhaseView::Sample { fed, at }, Report::Sampled { sampled, now_us }) => seq![
                Move::Sampled { index: fed[at] as int, sampled, now_us },
            ],
            _ => Seq::empty(),
        }
    }
}

/// Whether the bytes of a token are few enough to decode.
pub open spec fn sizable(sampled: Sampled) -> bool {
    sampled matches Sampled::Token { token, bytes } ==> bytes@.len() <= usize::MAX / 8
}

proof fn lemma_next_pending(slots: Seq<Option<SlotView>>, from: int)
    requires
        0 <= from <= slots.len(),
    ensures
        from <= next_pending(slots, from) <= slots.len(),
        next_pending(slots, from) < slots.len() ==> (slots[next_pending(slots, from)] matches Some(
            slot,
        ) && slot.pending is Some),
    decreases slots.len() - from,
{
    if from < slots.len() && !(slots[from] matches Some(slot) && slot.pending is Some) {
        lemma_next_pending(slots, from + 1);
    }
}

proof fn lemma_settled(outbox: Seq<(u64, EventView)>, outcomes: Seq<SendOutcome>)
    requires
        outcomes.len() <= outbox.len(),
        books::in_order(outbox, outcomes),
    ensures
        ({
            let all = settled(outbox, outcomes);
            &&& outcomes.len() <= all.len() <= outbox.len()
            &&& books::in_order(outbox, all)
            &&& all.len() < outbox.len() ==> !refused(outbox, all, outbox[all.len() as int].0)
        }),
    decreases outbox.len() - outcomes.len(),
{
    if outcomes.len() < outbox.len() && refused(
        outbox,
        outcomes,
        outbox[outcomes.len() as int].0,
    ) {
        lemma_settled(outbox, outcomes.push(SendOutcome::Full));
    }
}

/// An entry that is offered may meet any outcome: none of the same caller's
/// before it met a full channel.
proof fn lemma_offered_in_order(
    outbox: Seq<(u64, EventView)>,
    outcomes: Seq<SendOutcome>,
    outcome: SendOutcome,
)
    requires
        outcomes.len() < outbox.len(),
        books::in_order(outbox, outcomes),
        !refused(outbox, outcomes, outbox[outcomes.len() as int].0),
    ensures
        books::in_order(outbox, outcomes.push(outcome)),
{
    let all = outcomes.push(outcome);
    assert forall|i: int, k: int|
        0 <= i < k < all.len() && (#[trigger] outbox[i]).0 == (#[trigger] outbox[k]).0 && all[i]
            == SendOutcome::Full implies all[k] == SendOutcome::Full by {
        if k < outcomes.len() {
            assert(outcomes[i] == SendOutcome::Full);
        }
    }
}

proof fn lemma_turning(engine: EngineView)
    requires
        engine.wf(),
        engine.prefilling is None,
    ensures
        (RuntimeView { engine, phase: turning(engine) }).wf(),
{
    lemma_next_pending(engine.slots, 0);
}

proof fn lemma_rows_are_ready(s: EngineView, cancelled: Seq<bool>, now_us: i64)
    requires
        s.wf(),
        cancelled.len() == s.slots.len(),
    ensures
        ({
            let rows = books::ready_rows(s.slots, cancelled, s.slots.len());
            &&& forall|k: int|
                0 <= k < rows.len() ==> ready(
                    s.without_cancelled(cancelled, now_us).slots,
                    (#[trigger] rows[k]).index as int,
                )
            &&& forall|j: int, k: int|
                0 <= j < k < rows.len() ==> (#[trigger] rows[j]).index < (#[trigger] rows[k]).index
        }),
{
    let rows = books::ready_rows(s.slots, cancelled, s.slots.len());
    laws::rows_are_in_slot_order(s.slots, cancelled, s.slots.len());
    assert forall|k: int| 0 <= k < rows.len() implies ready(
        s.without_cancelled(cancelled, now_us).slots,
        (#[trigger] rows[k]).index as int,
    ) by {
        laws::a_slow_reader_holds_up_nobody_else(
            s.slots,
            cancelled,
            s.slots.len(),
            rows[k].index as int,
        );
        assert(laws::has_row(rows, rows[k].index as int));
    }
}

proof fn lemma_all_free(slots: Seq<Option<SlotView>>)
    requires
        slots.len() >= 1,
        slots[0] is None,
    ensures
        books::first_free(slots) is Some,
    decreases slots.len(),
{
    if slots.len() > 1 {
        lemma_all_free(slots.drop_last());
    }
}

proof fn lemma_one_move(s: EngineView, m: Move)
    ensures
        s.after(seq![m]) == s.next(m),
        s.allows_all(seq![m]) == s.allows(m),
        s.renders_all(seq![m]) == s.renders(m),
{
    assert(seq![m].drop_last() =~= Seq::<Move>::empty());
    reveal_with_fuel(EngineView::after, 2);
    reveal_with_fuel(EngineView::allows_all, 2);
    reveal_with_fuel(EngineView::renders_all, 2);
}

/// The loop does nothing to the books but what is allowed: whatever is
/// reported, what becomes of them is a run of moves, and the loop is in order
/// afterwards. So what holds of every run holds of the loop.
pub proof fn the_loop_only_makes_moves(d: RuntimeView, report: Report)
    requires
        d.wf(),
        d.accepts(report),
    ensures
        d.reported(report).wf(),
        d.engine.allows_all(d.moves(report)),
        d.reported(report).engine == d.engine.after(d.moves(report)),
{
    let s = d.engine;
    let r = d.reported(report);
    match (d.phase, report) {
        (PhaseView::Deliver { outcomes }, Report::Delivered(outcome)) => {
            lemma_offered_in_order(s.outbox, outcomes, outcome);
            lemma_settled(s.outbox, outcomes.push(outcome));
            let all = settled(s.outbox, outcomes.push(outcome));
            if all.len() == s.outbox.len() {
                let m = Move::Sweep(all);
                lemma_one_move(s, m);
                laws::the_books_stay_in_order(s, m);
                lemma_next_pending(r.engine.slots, 0);
            }
        },
        (PhaseView::Offer { index }, Report::Offered { outcome, now_ns, now_us }) => {
            let m = Move::Flush { index, outcome, now_ns, now_us };
            lemma_one_move(s, m);
            laws::the_books_stay_in_order(s, m);
            lemma_next_pending(r.engine.slots, index + 1);
        },
        (PhaseView::Admit, Report::Arrived(arrival)) => {
            let m = Move::Arrive(arrival);
            lemma_one_move(s, m);
            laws::the_books_stay_in_order(s, m);
        },
        (PhaseView::Prefill, Report::Ingested { outcome, now_us }) => {
            let m = match outcome {
                Ok(prefilled) => Move::Prefilled { prefilled, now_us },
                Err(error) => Move::PrefillFailed(error@),
            };
            lemma_one_move(s, m);
            laws::the_books_stay_in_order(s, m);
        },
        (PhaseView::Survey, Report::Surveyed { cancelled, now_us }) => {
            let m = Move::Step { cancelled: cancelled@, now_us };
            lemma_one_move(s, m);
            laws::the_books_stay_in_order(s, m);
            lemma_rows_are_ready(s, cancelled@, now_us);
        },
        (PhaseView::Feed { rows, at, fed }, Report::Fed(outcome)) => {
            lemma_fed(d, outcome);
        },
        (PhaseView::Decode { fed }, Report::Decoded(Err(error))) => {
            let moves = laws::failures(fed, error@);
            assert forall|k: int| 0 <= k < fed.len() implies #[trigger] fed[k] < s.slots.len() by {
                assert(ready(s.slots, fed[k] as int));
            }
            laws::a_failed_decode_fails_its_rows(s, fed, error@);
            laws::the_books_stay_in_order_on_every_run(s, moves);
            lemma_turning(r.engine);
        },
        (PhaseView::Sample { fed, at }, Report::Sampled { sampled, now_us }) => {
            let m = Move::Sampled { index: fed[at] as int, sampled, now_us };
            assert(ready(s.slots, fed[at] as int));
            lemma_one_move(s, m);
            laws::the_books_stay_in_order(s, m);
            assert forall|k: int| at < k < fed.len() implies ready(
                r.engine.slots,
                #[trigger] fed[k] as int,
            ) by {
                assert(fed[at] < fed[k]);
                assert(ready(s.slots, fed[k] as int));
                assert(r.engine.slots[fed[k] as int] == s.slots[fed[k] as int]);
            }
            lemma_turning(r.engine);
        },
        (PhaseView::Rest, Report::Rested) => {
            lemma_turning(s);
        },
        _ => {},
    }
}

proof fn lemma_fed(d: RuntimeView, outcome: Result<(), String>)
    requires
        d.wf(),
        d.phase is Feed,
    ensures
        d.reported(Report::Fed(outcome)).wf(),
        d.engine.allows_all(d.moves(Report::Fed(outcome))),
        d.reported(Report::Fed(outcome)).engine == d.engine.after(d.moves(Report::Fed(outcome))),
{
    let s = d.engine;
    let r = d.reported(Report::Fed(outcome));
    if let PhaseView::Feed { rows, at, fed } = d.phase {
        let index = rows[at].index;
        assert(ready(s.slots, index as int));
        match outcome {
            Ok(()) => {
                let now = fed.push(index);
                assert forall|k: int| 0 <= k < now.len() implies ready(
                    s.slots,
                    #[trigger] now[k] as int,
                ) && now[k] <= index by {
                    if k < fed.len() {
                        assert(now[k] == fed[k]);
                    }
                }
                assert forall|j: int, k: int| 0 <= j < k < now.len() implies #[trigger] now[j]
                    < #[trigger] now[k] by {
                    assert(now[j] == fed[j]);
                    if k < fed.len() {
                        assert(now[k] == fed[k]);
                    }
                }
                if at + 1 < rows.len() {
                    assert(rows[at].index < rows[at + 1].index);
                }
            },
            Err(error) => {
                let m = Move::Fail { index: index as int, error: error@ };
                lemma_one_move(s, m);
                laws::the_books_stay_in_order(s, m);
                assert forall|k: int| at < k < rows.len() implies ready(
                    r.engine.slots,
                    (#[trigger] rows[k]).index as int,
                ) by {
                    assert(rows[at].index < rows[k].index);
                    assert(ready(s.slots, rows[k].index as int));
                }
                assert forall|k: int| 0 <= k < fed.len() implies ready(
                    r.engine.slots,
                    #[trigger] fed[k] as int,
                ) by {
                    assert(ready(s.slots, fed[k] as int) && fed[k] < rows[at].index);
                }
                if at + 1 < rows.len() {
                    assert(rows[at].index < rows[at + 1].index);
                }
            },
        }
    }
}

/// A move that generates nothing.
spec fn quiet(m: Move) -> bool {
    !(m is Prefilled) && !(m is Sampled)
}

proof fn lemma_quiet_moves_render(s: EngineView, moves: Seq<Move>)
    requires
        forall|k: int| 0 <= k < moves.len() ==> quiet(#[trigger] moves[k]),
    ensures
        s.renders_all(moves),
    decreases moves.len(),
{
    if moves.len() > 0 {
        let earlier = moves.drop_last();
        assert forall|k: int| 0 <= k < earlier.len() implies quiet(#[trigger] earlier[k]) by {
            assert(earlier[k] == moves[k]);
        }
        lemma_quiet_moves_render(s, earlier);
        assert(quiet(moves[moves.len() - 1]));
    }
}

proof fn lemma_quiet_reports_render(d: RuntimeView, report: Report)
    ensures
        !(report is Ingested) && !(report is Sampled) ==> d.engine.renders_all(d.moves(report)),
        report matches Report::Ingested { outcome, .. } && outcome is Err ==> d.engine.renders_all(
            d.moves(report),
        ),
{
    let moves = d.moves(report);
    if (!(report is Ingested) && !(report is Sampled)) || (report matches Report::Ingested {
        outcome,
        ..
    } && outcome is Err) {
        assert forall|k: int| 0 <= k < moves.len() implies quiet(#[trigger] moves[k]) by {}
        lemma_quiet_moves_render(d.engine, moves);
    }
}

/// A loop that has stopped owes nobody anything: no request waits, none runs,
/// and every last event has gone out.
pub proof fn a_stopped_loop_owes_nothing(d: RuntimeView)
    requires
        d.wf(),
        d.task() == Task::Stop,
    ensures
        d.engine.queued == 0,
        d.engine.inflight == 0,
        d.engine.outbox.len() == 0,
{
    laws::a_finished_engine_owes_nothing(d.engine);
}

/// Something that happens to the loop.
pub enum Happening {
    Submitted(Enqueue),
    Reported(Report),
}

impl RuntimeView {
    /// Whether `h` can happen in this state.
    pub open spec fn admits(self, h: Happening) -> bool {
        match h {
            Happening::Submitted(outcome) => outcome == Enqueue::Accepted ==> !self.engine.closed,
            Happening::Reported(report) => self.accepts(report),
        }
    }

    /// The state after `h`.
    pub open spec fn with(self, h: Happening) -> RuntimeView {
        match h {
            Happening::Submitted(outcome) => self.submitted(outcome),
            Happening::Reported(report) => self.reported(report),
        }
    }

    /// Whether `run` can happen from this state on.
    pub open spec fn admits_all(self, run: Seq<Happening>) -> bool
        decreases run.len(),
    {
        run.len() == 0 || (self.admits_all(run.drop_last()) && self.with_all(
            run.drop_last(),
        ).admits(run.last()))
    }

    /// The state after `run`.
    pub open spec fn with_all(self, run: Seq<Happening>) -> RuntimeView
        decreases run.len(),
    {
        if run.len() == 0 {
            self
        } else {
            self.with_all(run.drop_last()).with(run.last())
        }
    }

    /// What is decoded for callers all through `run` goes on where their text
    /// ended.
    pub open spec fn renders_all(self, run: Seq<Happening>) -> bool
        decreases run.len(),
    {
        run.len() == 0 || (self.renders_all(run.drop_last()) && match run.last() {
            Happening::Submitted(_) => true,
            Happening::Reported(report) => {
                let before = self.with_all(run.drop_last());
                before.engine.renders_all(before.moves(report))
            },
        })
    }

    /// What `run` does to the books, as moves.
    pub open spec fn all_moves(self, run: Seq<Happening>) -> Seq<Move>
        decreases run.len(),
    {
        if run.len() == 0 {
            Seq::empty()
        } else {
            self.all_moves(run.drop_last()) + match run.last() {
                Happening::Submitted(outcome) => seq![Move::Submit(outcome)],
                Happening::Reported(report) => self.with_all(run.drop_last()).moves(report),
            }
        }
    }
}

proof fn lemma_run_on(s: EngineView, first: Seq<Move>, second: Seq<Move>)
    requires
        s.allows_all(first),
        s.after(first).allows_all(second),
    ensures
        s.allows_all(first + second),
        s.after(first + second) == s.after(first).after(second),
        s.renders_all(first) && s.after(first).renders_all(second) ==> s.renders_all(
            first + second,
        ),
    decreases second.len(),
{
    let both = first + second;
    if second.len() == 0 {
        assert(both =~= first);
    } else {
        assert(both.drop_last() =~= first + second.drop_last());
        lemma_run_on(s, first, second.drop_last());
    }
}

/// The loop is in order after any run, however long and whoever submits in
/// between, and what it has done to the books by then is a run of moves. Where
/// each report was decoded as it should be, so was the run.
pub proof fn the_loop_only_makes_moves_on_every_run(d: RuntimeView, run: Seq<Happening>)
    requires
        d.wf(),
        d.admits_all(run),
    ensures
        d.with_all(run).wf(),
        d.engine.allows_all(d.all_moves(run)),
        d.with_all(run).engine == d.engine.after(d.all_moves(run)),
        d.renders_all(run) ==> d.engine.renders_all(d.all_moves(run)),
    decreases run.len(),
{
    if run.len() > 0 {
        let earlier = run.drop_last();
        the_loop_only_makes_moves_on_every_run(d, earlier);
        let middle = d.with_all(earlier);
        match run.last() {
            Happening::Submitted(outcome) => {
                lemma_one_move(middle.engine, Move::Submit(outcome));
                lemma_run_on(d.engine, d.all_moves(earlier), seq![Move::Submit(outcome)]);
            },
            Happening::Reported(report) => {
                the_loop_only_makes_moves(middle, report);
                lemma_run_on(d.engine, d.all_moves(earlier), middle.moves(report));
            },
        }
    }
}

proof fn lemma_nobody_held(slots: Seq<Option<SlotView>>, job: u64)
    requires
        books::occupied(slots) == 0,
    ensures
        caller::held(slots, job) == 0,
    decreases slots.len(),
{
    if slots.len() > 0 {
        lemma_nobody_held(slots.drop_last(), job);
    }
}

/// A loop that has stopped has answered every request that was accepted: as
/// many last events have left the outbox.
pub proof fn a_stopped_loop_has_answered_everyone(d: RuntimeView, run: Seq<Happening>)
    requires
        d.wf(),
        d.engine.inflight == 0,
        d.engine.outbox.len() == 0,
        d.admits_all(run),
        d.with_all(run).task() == Task::Stop,
    ensures
        laws::accepted(d.all_moves(run)) == laws::settled(d.engine, d.all_moves(run)),
{
    the_loop_only_makes_moves_on_every_run(d, run);
    a_stopped_loop_owes_nothing(d.with_all(run));
    laws::every_accepted_request_is_answered_once(d.engine, d.all_moves(run));
}

/// And a caller who listened has heard its whole generation by then: text, one
/// last event, and nothing after it. Unless the generation failed, there is a
/// piece for each token, no more of them than it asked for, and the text is
/// what their bytes spell.
pub proof fn a_stopped_loop_has_told_every_listener(
    d: RuntimeView,
    run: Seq<Happening>,
    job: u64,
)
    requires
        d.wf(),
        d.admits_all(run),
        d.renders_all(run),
        d.with_all(run).task() == Task::Stop,
        caller::accounted(d.engine, job, Caller::fresh()),
        caller::listening_all(d.engine, d.all_moves(run), job),
        Caller::fresh().after_all(d.engine, d.all_moves(run), job).arrivals == 1,
    ensures
        ({
            let caller = Caller::fresh().after_all(d.engine, d.all_moves(run), job);
            &&& caller::complete(caller.heard)
            &&& caller::faithful(caller.heard, caller, d.with_all(run).engine.n_ctx)
            &&& caller::spelled(caller)
        }),
{
    the_loop_only_makes_moves_on_every_run(d, run);
    let last = d.with_all(run);
    a_stopped_loop_owes_nothing(last);
    lemma_nobody_held(last.engine.slots, job);
    caller::a_listening_caller_hears_its_whole_generation(d.engine, d.all_moves(run), job);
    caller::a_listening_caller_hears_what_the_bytes_spell(d.engine, d.all_moves(run), job);
}

/// The engine and the loop that runs it.
pub struct Runtime {
    engine: Engine,
    phase: Phase,
}

spec fn phase_view(phase: Phase) -> PhaseView {
    match phase {
        Phase::Deliver { outcomes } => PhaseView::Deliver { outcomes: outcomes@ },
        Phase::Offer { index } => PhaseView::Offer { index: index as int },
        Phase::Admit => PhaseView::Admit,
        Phase::Prefill => PhaseView::Prefill,
        Phase::Survey => PhaseView::Survey,
        Phase::Feed { rows, at, fed } => PhaseView::Feed {
            rows: rows@,
            at: at as int,
            fed: fed@,
        },
        Phase::Decode { fed } => PhaseView::Decode { fed: fed@ },
        Phase::Sample { fed, at } => PhaseView::Sample { fed: fed@, at: at as int },
        Phase::Rest => PhaseView::Rest,
        Phase::Stop => PhaseView::Stop,
    }
}

impl View for Runtime {
    type V = RuntimeView;

    closed spec fn view(&self) -> RuntimeView {
        RuntimeView { engine: self.engine@, phase: phase_view(self.phase) }
    }
}

spec fn list_of(freed: Option<u32>) -> Seq<u32> {
    match freed {
        Some(seq_id) => seq![seq_id],
        None => Seq::empty(),
    }
}

fn listed(freed: Option<u32>) -> (list: Vec<u32>)
    ensures
        list@ == list_of(freed),
{
    let mut list: Vec<u32> = Vec::new();
    if let Some(seq_id) = freed {
        list.push(seq_id);
    }
    assert(list@ =~= list_of(freed));
    list
}

impl Runtime {
    /// A loop at the start of its first turn, over an engine with every slot
    /// free.
    pub fn new(config: &EngineConfig, info: ModelInfo) -> (runtime: Runtime)
        requires
            config.max_inflight <= u32::MAX,
            info.n_ctx == config.n_ctx,
        ensures
            runtime@.wf(),
            runtime@.phase == PhaseView::Admit,
            runtime@.engine.slots == Seq::new(config.spec_slots(), |i: int| None::<SlotView>),
            runtime@.engine.outbox.len() == 0,
            runtime@.engine.inflight == 0,
            runtime@.engine.queued == 0,
            !runtime@.engine.closed,
            runtime@.engine.n_ctx == config.n_ctx,
            runtime.spec_model_info() == info,
            runtime.spec_model_info().n_ctx == runtime@.engine.n_ctx,
    {
        let engine = Engine::new(config, info);
        proof {
            lemma_all_free(engine@.slots);
        }
        Runtime { engine, phase: Phase::Admit }
    }

    pub closed spec fn spec_model_info(&self) -> ModelInfo {
        self.engine.spec_model_info()
    }

    /// The engine as it stands.
    pub fn engine(&self) -> (engine: &Engine)
        ensures
            engine@ == self@.engine,
            engine.spec_model_info() == self.spec_model_info(),
    {
        &self.engine
    }

    /// Count a request in, if the queue took it. This can happen at any time,
    /// whatever the loop is doing.
    pub fn submit(&mut self, outcome: Enqueue) -> (result: Result<(), SubmitError>)
        requires
            old(self)@.wf(),
            old(self)@.engine.inflight < usize::MAX,
            outcome == Enqueue::Accepted ==> !old(self)@.engine.closed,
        ensures
            final(self)@.wf(),
            final(self)@ == old(self)@.submitted(outcome),
            final(self).spec_model_info() == old(self).spec_model_info(),
            result == match outcome {
                Enqueue::Accepted => Ok::<(), SubmitError>(()),
                Enqueue::Full => Err(SubmitError::QueueFull),
                Enqueue::Closed => Err(SubmitError::ShutDown),
            },
    {
        self.engine.submit(outcome)
    }

    /// What to do next.
    pub fn task(&self) -> (task: Task)
        requires
            self@.wf(),
        ensures
            task == self@.task(),
    {
        match &self.phase {
            Phase::Deliver { outcomes } => Task::Deliver { index: outcomes.len() },
            Phase::Offer { index } => Task::Offer { index: *index },
            Phase::Admit => match self.engine.admission() {
                Admission::Wait => Task::Wait,
                _ => Task::Poll,
            },
            Phase::Prefill => Task::Prefill { seq_id: self.engine.prefilling_seq() },
            Phase::Survey => Task::Survey,
            Phase::Feed { rows, at, fed } => Task::Feed { row: rows[*at] },
            Phase::Decode { fed } => Task::Decode,
            Phase::Sample { fed, at } => Task::Sample { index: fed[*at], row: *at },
            Phase::Rest => Task::Rest,
            Phase::Stop => Task::Stop,
        }
    }

    fn fill_on(&self) -> (phase: Phase)
        ensures
            phase_view(phase) == filling(self@.engine),
    {
        match self.engine.admission() {
            Admission::Full => self.step_on(),
            _ => Phase::Admit,
        }
    }

    fn step_on(&self) -> (phase: Phase)
        ensures
            phase_view(phase) == filled(self@.engine),
    {
        if self.engine.finished() {
            Phase::Stop
        } else {
            Phase::Survey
        }
    }

    fn offer_on(&self, from: usize) -> (phase: Phase)
        requires
            from <= self@.engine.slots.len() <= u32::MAX,
        ensures
            phase_view(phase) == offering(self@.engine, from as int),
    {
        let count = self.engine.slot_count();
        let mut index: usize = from;
        while index < count
            invariant
                from <= index <= count,
                count == self@.engine.slots.len(),
                next_pending(self@.engine.slots, from as int) == next_pending(
                    self@.engine.slots,
                    index as int,
                ),
            decreases count - index,
        {
            if self.engine.pending(index).is_some() {
                return Phase::Offer { index };
            }
            index = index + 1;
        }
        self.fill_on()
    }
}

impl Runtime {
    fn turn_on(&self) -> (phase: Phase)
        requires
            self@.engine.slots.len() <= u32::MAX,
        ensures
            phase_view(phase) == turning(self@.engine),
    {
        if self.engine.outbox_len() == 0 {
            self.offer_on(0)
        } else {
            let outcomes: Vec<SendOutcome> = Vec::new();
            assert(outcomes@ =~= Seq::<SendOutcome>::empty());
            Phase::Deliver { outcomes }
        }
    }

    fn sample_on(&self, fed: Vec<usize>, at: usize) -> (phase: Phase)
        requires
            self@.engine.slots.len() <= u32::MAX,
        ensures
            phase_view(phase) == sampling(self@.engine, fed@, at as int),
    {
        if at < fed.len() {
            Phase::Sample { fed, at }
        } else {
            self.turn_on()
        }
    }
}

fn feed_on(rows: Vec<Row>, at: usize, fed: Vec<usize>) -> (phase: Phase)
    ensures
        phase_view(phase) == feeding(rows@, at as int, fed@),
{
    if at < rows.len() {
        Phase::Feed { rows, at, fed }
    } else if fed.len() == 0 {
        Phase::Rest
    } else {
        Phase::Decode { fed }
    }
}


impl Runtime {
    /// Whether one of the entries for `job` has met a full channel.
    fn refuses(&self, outcomes: &Vec<SendOutcome>, job: u64) -> (found: bool)
        requires
            outcomes@.len() <= self@.engine.outbox.len(),
        ensures
            found == refused(self@.engine.outbox, outcomes@, job),
    {
        for i in 0..outcomes.len()
            invariant
                outcomes@.len() <= self@.engine.outbox.len(),
                forall|j: int|
                    0 <= j < i ==> !((#[trigger] self@.engine.outbox[j]).0 == job && outcomes@[j]
                        == SendOutcome::Full),
        {
            if outcomes[i] == SendOutcome::Full && self.engine.outbox_entry(i).0 == job {
                assert(self@.engine.outbox[i as int].0 == job);
                return true;
            }
        }
        false
    }

    fn delivered(&mut self, outcomes: Vec<SendOutcome>, outcome: SendOutcome)
        requires
            old(self)@.engine.wf(),
            outcomes@.len() < old(self)@.engine.outbox.len(),
            books::in_order(old(self)@.engine.outbox, outcomes@),
            !refused(
                old(self)@.engine.outbox,
                outcomes@,
                old(self)@.engine.outbox[outcomes@.len() as int].0,
            ),
        ensures
            ({
                let s = old(self)@.engine;
                let all = settled(s.outbox, outcomes@.push(outcome));
                if all.len() < s.outbox.len() {
                    final(self)@ == (RuntimeView {
                        engine: s,
                        phase: PhaseView::Deliver { outcomes: all },
                    })
                } else {
                    final(self)@.engine == s.next(Move::Sweep(all)) && final(self)@.phase
                        == offering(final(self)@.engine, 0)
                }
            }),
            final(self).spec_model_info() == old(self).spec_model_info(),
    {
        let ghost s = self@.engine;
        let ghost offered = outcomes@.push(outcome);
        proof {
            lemma_offered_in_order(s.outbox, outcomes@, outcome);
            lemma_settled(s.outbox, offered);
        }
        let mut outcomes = outcomes;
        outcomes.push(outcome);
        let count = self.engine.outbox_len();
        while outcomes.len() < count && self.refuses(
            &outcomes,
            self.engine.outbox_entry(outcomes.len()).0,
        )
            invariant
                s == self@.engine,
                self.spec_model_info() == old(self).spec_model_info(),
                count == s.outbox.len(),
                outcomes@.len() <= count,
                settled(s.outbox, outcomes@) == settled(s.outbox, offered),
            decreases count - outcomes.len(),
        {
            outcomes.push(SendOutcome::Full);
        }
        if outcomes.len() < count {
            self.phase = Phase::Deliver { outcomes };
        } else {
            self.engine.sweep(&outcomes);
            self.phase = self.offer_on(0);
        }
    }

    fn offered(&mut self, index: usize, outcome: SendOutcome, now_ns: u64, now_us: i64) -> (freed:
        Vec<u32>)
        requires
            old(self)@.engine.wf(),
            index < old(self)@.engine.slots.len(),
        ensures
            final(self)@.engine == old(self)@.engine.flushed(index as int, outcome, now_ns, now_us),
            final(self)@.phase == offering(final(self)@.engine, index + 1),
            final(self).spec_model_info() == old(self).spec_model_info(),
            forall|seq_id: u32| #[trigger]
                freed@.contains(seq_id) <==> given_back(
                    old(self)@.engine,
                    final(self)@.engine,
                    seq_id,
                ),
    {
        let freed = self.engine.flush(index, outcome, now_ns, now_us);
        self.phase = self.offer_on(index + 1);
        proof {
            lemma_listed(old(self)@.engine, self@.engine, index as int, freed);
        }
        listed(freed)
    }

    fn arrived(&mut self, arrival: Arrival)
        requires
            old(self)@.engine.wf(),
            old(self)@.engine.prefilling is None,
            books::first_free(old(self)@.engine.slots) is Some,
            arrival is Job ==> old(self)@.engine.queued >= 1,
            arrival is Disconnected ==> old(self)@.engine.queued == 0,
        ensures
            final(self)@.engine == old(self)@.engine.after_arrival(arrival),
            final(self)@.phase == match arrival {
                Arrival::Job { cancelled, .. } => if cancelled {
                    filling(final(self)@.engine)
                } else {
                    PhaseView::Prefill
                },
                _ => filled(final(self)@.engine),
            },
            final(self).spec_model_info() == old(self).spec_model_info(),
    {
        let next = self.engine.arrive(arrival);
        self.phase = match next {
            Admit::Prefill { seq_id } => Phase::Prefill,
            Admit::Next => self.fill_on(),
            Admit::Leave => self.step_on(),
        };
    }

    fn ingested(&mut self, outcome: Result<Prefilled, String>, now_us: i64) -> (freed: Vec<u32>)
        requires
            old(self)@.engine.wf(),
            old(self)@.engine.prefilling is Some,
            outcome matches Ok(prefilled) ==> prefilled.prompt_tokens < old(self)@.engine.n_ctx
                && sizable(prefilled.first),
        ensures
            final(self)@.engine == match outcome {
                Ok(prefilled) => old(self)@.engine.after_prefill(prefilled, now_us),
                Err(error) => old(self)@.engine.answered(EventView::Failed(error@)),
            },
            final(self)@.phase == filling(final(self)@.engine),
            outcome matches Ok(prefilled) ==> old(self)@.engine.renders(
                Move::Prefilled { prefilled, now_us },
            ),
            final(self).spec_model_info() == old(self).spec_model_info(),
            forall|seq_id: u32| #[trigger]
                freed@.contains(seq_id) <==> given_back(
                    old(self)@.engine,
                    final(self)@.engine,
                    seq_id,
                ),
    {
        let freed = self.engine.prefilled(outcome, now_us);
        self.phase = self.fill_on();
        proof {
            let s = old(self)@.engine;
            let index = s.prefilling.unwrap().1;
            assert(s.slots[index] is None);
            if self@.engine.slots[index] is None {
                assert(self@.engine.slots =~= s.slots);
            }
            lemma_listed(s, self@.engine, index, freed);
        }
        listed(freed)
    }

    fn surveyed(&mut self, cancelled: Vec<bool>, now_us: i64) -> (freed: Vec<u32>)
        requires
            old(self)@.engine.wf(),
            old(self)@.engine.prefilling is None,
            cancelled@.len() == old(self)@.engine.slots.len(),
        ensures
            final(self)@.engine == old(self)@.engine.without_cancelled(cancelled@, now_us),
            final(self)@.phase == feeding(
                books::ready_rows(
                    old(self)@.engine.slots,
                    cancelled@,
                    old(self)@.engine.slots.len(),
                ),
                0,
                Seq::empty(),
            ),
            final(self).spec_model_info() == old(self).spec_model_info(),
            forall|seq_id: u32| #[trigger]
                freed@.contains(seq_id) <==> given_back(
                    old(self)@.engine,
                    final(self)@.engine,
                    seq_id,
                ),
    {
        let plan = self.engine.begin_step(&cancelled, now_us);
        let fed: Vec<usize> = Vec::new();
        assert(fed@ =~= Seq::<usize>::empty());
        self.phase = feed_on(plan.rows, 0, fed);
        proof {
            lemma_cancelled_are_given_back(old(self)@.engine, cancelled@, now_us);
        }
        plan.freed
    }

    fn turned_away(&mut self, index: usize, error: String) -> (freed: Vec<u32>)
        requires
            old(self)@.engine.wf(),
            index < old(self)@.engine.slots.len(),
        ensures
            final(self)@.engine == old(self)@.engine.failed(index as int, error@),
            final(self).spec_model_info() == old(self).spec_model_info(),
            forall|seq_id: u32| #[trigger]
                freed@.contains(seq_id) <==> given_back(
                    old(self)@.engine,
                    final(self)@.engine,
                    seq_id,
                ),
    {
        let freed = self.engine.fail(index, error);
        proof {
            lemma_listed(old(self)@.engine, self@.engine, index as int, freed);
        }
        listed(freed)
    }

    fn broken(&mut self, fed: Vec<usize>, error: String) -> (freed: Vec<u32>)
        requires
            old(self)@.engine.wf(),
            old(self)@.engine.prefilling is None,
            forall|k: int| 0 <= k < fed@.len() ==> #[trigger] fed@[k] < old(self)@.engine.slots.len(),
        ensures
            final(self)@.engine == old(self)@.engine.all_failed(fed@, error@),
            final(self)@.phase == turning(final(self)@.engine),
            final(self).spec_model_info() == old(self).spec_model_info(),
            forall|seq_id: u32| #[trigger]
                freed@.contains(seq_id) <==> given_back(
                    old(self)@.engine,
                    final(self)@.engine,
                    seq_id,
                ),
    {
        let freed = self.engine.decode_failed(&fed, error.as_str());
        self.phase = self.turn_on();
        proof {
            let s = old(self)@.engine;
            laws::a_failed_decode_fails_its_rows(s, fed@, error@);
            assert forall|seq_id: u32| #[trigger]
                freed@.contains(seq_id) <==> given_back(s, self@.engine, seq_id) by {
                if given_back(s, self@.engine, seq_id) {
                    assert(s.slots[seq_id as int] matches Some(slot) && slot.seq_id == seq_id);
                }
            }
        }
        freed
    }

    fn sampled(&mut self, index: usize, sampled: Sampled, now_us: i64) -> (freed: Vec<u32>)
        requires
            old(self)@.engine.wf(),
            ready(old(self)@.engine.slots, index as int),
            sizable(sampled),
        ensures
            final(self)@.engine == old(self)@.engine.after_sample(index as int, sampled, now_us),
            old(self)@.engine.renders(Move::Sampled { index: index as int, sampled, now_us }),
            final(self).spec_model_info() == old(self).spec_model_info(),
            forall|seq_id: u32| #[trigger]
                freed@.contains(seq_id) <==> given_back(
                    old(self)@.engine,
                    final(self)@.engine,
                    seq_id,
                ),
    {
        let freed = self.engine.sampled(index, sampled, now_us);
        proof {
            lemma_listed(old(self)@.engine, self@.engine, index as int, freed);
        }
        listed(freed)
    }

    /// Take in what came of the task. Returns the sequences that were given
    /// back, for the model to forget.
    pub fn report(&mut self, report: Report) -> (freed: Vec<u32>)
        requires
            old(self)@.wf(),
            old(self)@.accepts(report),
        ensures
            final(self)@.wf(),
            final(self)@ == old(self)@.reported(report),
            old(self)@.engine.renders_all(old(self)@.moves(report)),
            final(self).spec_model_info() == old(self).spec_model_info(),
            forall|seq_id: u32| #[trigger]
                freed@.contains(seq_id) <==> given_back(
                    old(self)@.engine,
                    final(self)@.engine,
                    seq_id,
                ),
    {
        proof {
            the_loop_only_makes_moves(self@, report);
            lemma_quiet_reports_render(self@, report);
        }
        let mut phase = Phase::Rest;
        std::mem::swap(&mut phase, &mut self.phase);
        match (phase, report) {
            (Phase::Deliver { outcomes }, Report::Delivered(outcome)) => {
                self.delivered(outcomes, outcome);
                Vec::new()
            },
            (Phase::Offer { index }, Report::Offered { outcome, now_ns, now_us }) => self.offered(
                index,
                outcome,
                now_ns,
                now_us,
            ),
            (Phase::Admit, Report::Arrived(arrival)) => {
                self.arrived(arrival);
                Vec::new()
            },
            (Phase::Prefill, Report::Ingested { outcome, now_us }) => {
                proof {
                    lemma_one_move(
                        old(self)@.engine,
                        Move::Prefilled { prefilled: outcome->Ok_0, now_us },
                    );
                }
                self.ingested(outcome, now_us)
            },
            (Phase::Survey, Report::Surveyed { cancelled, now_us }) => self.surveyed(
                cancelled,
                now_us,
            ),
            (Phase::Feed { rows, at, fed }, Report::Fed(outcome)) => {
                let index: usize = rows[at].index;
                assert(at < rows.len());
                let mut fed = fed;
                let freed = match outcome {
                    Ok(()) => {
                        fed.push(index);
                        Vec::new()
                    },
                    Err(error) => self.turned_away(index, error),
                };
                self.phase = feed_on(rows, at + 1, fed);
                freed
            },
            (Phase::Decode { fed }, Report::Decoded(outcome)) => match outcome {
                Ok(()) => {
                    self.phase = self.sample_on(fed, 0);
                    Vec::new()
                },
                Err(error) => self.broken(fed, error),
            },
            (Phase::Sample { fed, at }, Report::Sampled { sampled, now_us }) => {
                let index: usize = fed[at];
                assert(at < fed.len());
                proof {
                    lemma_one_move(
                        old(self)@.engine,
                        Move::Sampled { index: index as int, sampled, now_us },
                    );
                }
                let freed = self.sampled(index, sampled, now_us);
                self.phase = self.sample_on(fed, at + 1);
                freed
            },
            (Phase::Rest, Report::Rested) => {
                self.phase = self.turn_on();
                Vec::new()
            },
            _ => Vec::new(),
        }
    }
}

/// Where one slot changes at most, the sequences given back are that slot's or
/// none.
proof fn lemma_listed(s: EngineView, r: EngineView, index: int, freed: Option<u32>)
    requires
        0 <= index < s.slots.len() <= u32::MAX,
        r.slots.len() == s.slots.len(),
        forall|i: int| 0 <= i < s.slots.len() && i != index ==> #[trigger] r.slots[i] == s.slots[i],
        r.prefilling == s.prefilling || (s.prefilling == Some((s.prefilling.unwrap().0, index))
            && r.prefilling is None),
        freed == if given_back(s, r, index as u32) {
            Some(index as u32)
        } else {
            None
        },
    ensures
        forall|seq_id: u32| #[trigger]
            list_of(freed).contains(seq_id) <==> given_back(s, r, seq_id),
{
    let list = list_of(freed);
    assert forall|seq_id: u32| #[trigger] list.contains(seq_id) <==> given_back(s, r, seq_id) by {
        if freed is Some {
            assert(list[0] == index as u32);
        }
        if seq_id != index as u32 && seq_id < s.slots.len() {
            assert(r.slots[seq_id as int] == s.slots[seq_id as int]);
        }
    }
}

proof fn lemma_cancelled_seqs(
    s: EngineView,
    cancelled: Seq<bool>,
    n: nat,
    seq_id: u32,
)
    requires
        s.wf(),
        cancelled.len() == s.slots.len(),
        n <= s.slots.len(),
    ensures
        books::cancelled_seqs(s.slots, cancelled, n).contains(seq_id) <==> seq_id < n
            && books::cancelled_at(s.slots, cancelled, seq_id as int),
    decreases n,
{
    let seqs = books::cancelled_seqs(s.slots, cancelled, n);
    if n > 0 {
        let earlier = books::cancelled_seqs(s.slots, cancelled, (n - 1) as nat);
        lemma_cancelled_seqs(s, cancelled, (n - 1) as nat, seq_id);
        assert(s.slots[n - 1] matches Some(slot) ==> slot.wf(n - 1, s.n_ctx));
        if earlier.contains(seq_id) {
            let k = choose|k: int| 0 <= k < earlier.len() && earlier[k] == seq_id;
            assert(seqs[k] == seq_id);
        }
        if books::cancelled_at(s.slots, cancelled, n - 1) {
            assert(seqs[seqs.len() - 1] == n - 1);
        }
        if seqs.contains(seq_id) {
            let k = choose|k: int| 0 <= k < seqs.len() && seqs[k] == seq_id;
            if k < earlier.len() {
                assert(earlier[k] == seq_id);
            }
        }
    }
}

proof fn lemma_cancelled_are_given_back(s: EngineView, cancelled: Seq<bool>, now_us: i64)
    requires
        s.wf(),
        cancelled.len() == s.slots.len(),
        s.prefilling is None,
    ensures
        forall|seq_id: u32| #[trigger]
            books::cancelled_seqs(s.slots, cancelled, s.slots.len()).contains(seq_id)
                <==> given_back(s, s.without_cancelled(cancelled, now_us), seq_id),
{
    assert forall|seq_id: u32| #[trigger]
        books::cancelled_seqs(s.slots, cancelled, s.slots.len()).contains(seq_id) <==> given_back(
            s,
            s.without_cancelled(cancelled, now_us),
            seq_id,
        ) by {
        lemma_cancelled_seqs(s, cancelled, s.slots.len(), seq_id);
    }
}

} // verus!
