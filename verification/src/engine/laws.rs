//! What holds of the engine in every state it can reach.

use vstd::prelude::*;

use crate::engine::books;
use crate::engine::books::{Arrival, EngineView, Enqueue, Prefilled, Row};
use crate::engine::event::{EventView, Stop};
use crate::engine::pieces;
use crate::engine::slot;
use crate::engine::slot::{Flush, Sampled, SendOutcome, SlotView};

verus! {

/// One thing that can happen to an engine.
pub enum Move {
    Submit(Enqueue),
    Sweep(Seq<SendOutcome>),
    Flush { index: int, outcome: SendOutcome, now_ns: u64, now_us: i64 },
    Arrive(Arrival),
    Prefilled { prefilled: Prefilled, now_us: i64 },
    PrefillFailed(Seq<char>),
    Step { cancelled: Seq<bool>, now_us: i64 },
    Sampled { index: int, sampled: Sampled, now_us: i64 },
    Fail { index: int, error: Seq<char> },
}

impl EngineView {
    /// Whether `m` can happen in this state.
    pub open spec fn allows(self, m: Move) -> bool {
        match m {
            Move::Submit(outcome) => outcome == Enqueue::Accepted ==> !self.closed,
            Move::Sweep(outcomes) => outcomes.len() == self.outbox.len() && books::in_order(
                self.outbox,
                outcomes,
            ),
            Move::Flush { index, .. } => 0 <= index < self.slots.len(),
            Move::Arrive(arrival) => {
                &&& self.prefilling is None
                &&& books::first_free(self.slots) is Some
                &&& arrival is Job ==> self.queued >= 1
                &&& arrival is Disconnected ==> self.queued == 0
            },
            Move::Prefilled { prefilled, .. } => self.prefilling is Some && prefilled.prompt_tokens
                < self.n_ctx,
            Move::PrefillFailed(_) => self.prefilling is Some,
            Move::Step { cancelled, .. } => cancelled.len() == self.slots.len(),
            Move::Sampled { index, .. } => 0 <= index < self.slots.len() && (self.slots[index] matches Some(
                slot,
            ) ==> slot.pending is None),
            Move::Fail { index, .. } => 0 <= index < self.slots.len(),
        }
    }

    /// The state after `m`.
    pub open spec fn next(self, m: Move) -> EngineView {
        match m {
            Move::Submit(Enqueue::Accepted) => EngineView {
                inflight: self.inflight + 1,
                queued: self.queued + 1,
                ..self
            },
            Move::Submit(_) => self,
            Move::Sweep(outcomes) => EngineView {
                outbox: books::undelivered(self.outbox, outcomes),
                ..self
            },
            Move::Flush { index, outcome, now_ns, now_us } => self.flushed(
                index,
                outcome,
                now_ns,
                now_us,
            ),
            Move::Arrive(arrival) => self.after_arrival(arrival),
            Move::Prefilled { prefilled, now_us } => self.after_prefill(prefilled, now_us),
            Move::PrefillFailed(error) => self.answered(EventView::Failed(error)),
            Move::Step { cancelled, now_us } => self.without_cancelled(cancelled, now_us),
            Move::Sampled { index, sampled, now_us } => self.after_sample(index, sampled, now_us),
            Move::Fail { index, error } => self.failed(index, error),
        }
    }

    /// What is decoded for a caller when `m` happens goes on where its text
    /// ended.
    pub open spec fn renders(self, m: Move) -> bool {
        match m {
            Move::Prefilled { prefilled, .. } => match prefilled.first {
                Sampled::Token { bytes, .. } => prefilled.max_tokens > 0 ==> pieces::begins(bytes@),
                _ => true,
            },
            Move::Sampled { index, sampled, .. } => match (self.slots[index], sampled) {
                (Some(slot), Sampled::Token { bytes, .. }) => pieces::decodes(slot.fed, bytes@),
                _ => true,
            },
            _ => true,
        }
    }

    /// So it does all through `moves`.
    pub open spec fn renders_all(self, moves: Seq<Move>) -> bool
        decreases moves.len(),
    {
        moves.len() == 0 || (self.renders_all(moves.drop_last()) && self.after(
            moves.drop_last(),
        ).renders(moves.last()))
    }

    /// Whether `moves` can happen one after the other.
    pub open spec fn allows_all(self, moves: Seq<Move>) -> bool
        decreases moves.len(),
    {
        moves.len() == 0 || (self.allows_all(moves.drop_last()) && self.after(
            moves.drop_last(),
        ).allows(moves.last()))
    }

    /// The state after `moves`.
    pub open spec fn after(self, moves: Seq<Move>) -> EngineView
        decreases moves.len(),
    {
        if moves.len() == 0 {
            self
        } else {
            self.after(moves.drop_last()).next(moves.last())
        }
    }
}

/// The state once the cancelled ones among the first `n` slots are given back.
pub open spec fn partly_cancelled(
    s: EngineView,
    cancelled: Seq<bool>,
    now_us: i64,
    n: nat,
) -> EngineView
    decreases n,
{
    if n == 0 {
        s
    } else {
        let earlier = partly_cancelled(s, cancelled, now_us, (n - 1) as nat);
        if cancelled[n - 1] {
            earlier.retired(n - 1, Stop::Cancelled, now_us)
        } else {
            earlier
        }
    }
}

/// Giving slots back one by one is the same as giving them back together.
pub proof fn lemma_partly_cancelled(s: EngineView, cancelled: Seq<bool>, now_us: i64, n: nat)
    requires
        s.wf(),
        cancelled.len() == s.slots.len(),
        n <= s.slots.len(),
    ensures
        ({
            let p = partly_cancelled(s, cancelled, now_us, n);
            &&& p.wf()
            &&& p.slots.len() == s.slots.len()
            &&& forall|i: int|
                0 <= i < s.slots.len() ==> #[trigger] p.slots[i] == if i < n && cancelled[i] {
                    None
                } else {
                    s.slots[i]
                }
            &&& p.inflight + books::cancelled_seqs(s.slots, cancelled, n).len() == s.inflight
            &&& p.outbox == s.outbox + books::cancellations(s.slots, cancelled, now_us, n)
            &&& p == (EngineView {
                slots: p.slots,
                inflight: p.inflight,
                outbox: p.outbox,
                ..s
            })
        }),
    decreases n,
{
    if n == 0 {
        assert(s.outbox + books::cancellations(s.slots, cancelled, now_us, 0) =~= s.outbox);
    } else {
        let before = (n - 1) as nat;
        lemma_partly_cancelled(s, cancelled, now_us, before);
        let earlier = partly_cancelled(s, cancelled, now_us, before);
        let p = partly_cancelled(s, cancelled, now_us, n);
        assert(earlier.slots[n - 1] == s.slots[n - 1]);
        if cancelled[n - 1] && s.slots[n - 1] is Some {
            books::lemma_retired_wf(earlier, n - 1, Stop::Cancelled, now_us);
            assert(p.outbox =~= s.outbox + books::cancellations(s.slots, cancelled, now_us, n));
        }
    }
}

/// A step gives back the slots of cancelled callers one after the other.
pub proof fn lemma_step_is_a_run_of_retirements(s: EngineView, cancelled: Seq<bool>, now_us: i64)
    requires
        s.wf(),
        cancelled.len() == s.slots.len(),
    ensures
        s.without_cancelled(cancelled, now_us) == partly_cancelled(
            s,
            cancelled,
            now_us,
            s.slots.len(),
        ),
        s.without_cancelled(cancelled, now_us).wf(),
{
    lemma_partly_cancelled(s, cancelled, now_us, s.slots.len());
    let p = partly_cancelled(s, cancelled, now_us, s.slots.len());
    assert(p.slots =~= s.without_cancelled(cancelled, now_us).slots);
}

proof fn lemma_first_free(slots: Seq<Option<SlotView>>)
    ensures
        books::first_free(slots) matches Some(index) ==> 0 <= index < slots.len()
            && slots[index] is None,
    decreases slots.len(),
{
    if slots.len() > 0 {
        lemma_first_free(slots.drop_last());
    }
}

/// Whatever happens, the books stay in order: every slot that is taken has a
/// budget and a place inside the context, and the count in flight is exactly
/// the requests that wait, those that run, and the one being ingested.
pub proof fn the_books_stay_in_order(s: EngineView, m: Move)
    requires
        s.wf(),
        s.allows(m),
    ensures
        s.next(m).wf(),
{
    match m {
        Move::Flush { index, outcome, now_ns, now_us } => {
            if let Some(slot) = s.slots[index] {
                let settled = slot.flushed(outcome, now_ns);
                books::lemma_replaced_wf(s, index, settled);
                let middle = EngineView { slots: s.slots.update(index, Some(settled)), ..s };
                if slot.flush_verdict(outcome, now_ns) == Flush::Abandoned {
                    books::lemma_retired_wf(middle, index, Stop::Cancelled, now_us);
                }
            }
        },
        Move::Arrive(_) => {
            lemma_first_free(s.slots);
        },
        Move::Prefilled { prefilled, now_us } => {
            let (job, index) = s.prefilling.unwrap();
            let room = (s.n_ctx - prefilled.prompt_tokens) as u32;
            if let Sampled::Token { token, bytes } = prefilled.first {
                if slot::budget_for(prefilled.max_tokens, room) > 1 {
                    let opened = slot::opened(
                        job,
                        index as u32,
                        prefilled.prompt_tokens,
                        prefilled.max_tokens,
                        s.n_ctx,
                        token,
                        bytes@,
                        now_us,
                    );
                    books::lemma_occupied_update(s.slots, index, Some(opened));
                }
            }
        },
        Move::Step { cancelled, now_us } => {
            lemma_step_is_a_run_of_retirements(s, cancelled, now_us);
        },
        Move::Sampled { index, sampled, now_us } => {
            if let Some(slot) = s.slots[index] {
                match sampled {
                    Sampled::EndOfGeneration => {
                        books::lemma_retired_wf(s, index, Stop::EndOfGeneration, now_us);
                    },
                    Sampled::Token { token, bytes } => {
                        let next = slot.extended(token, bytes@);
                        books::lemma_replaced_wf(s, index, next);
                        let middle = EngineView {
                            slots: s.slots.update(index, Some(next)),
                            ..s
                        };
                        if next.n_decoded >= next.budget {
                            books::lemma_retired_wf(middle, index, next.exhausted(), now_us);
                        }
                    },
                    Sampled::Unprintable { error } => {
                        lemma_failed_wf(s, index, error@);
                    },
                }
            }
        },
        Move::Fail { index, error } => {
            lemma_failed_wf(s, index, error);
        },
        _ => {},
    }
}

proof fn lemma_failed_wf(s: EngineView, index: int, error: Seq<char>)
    requires
        s.wf(),
        0 <= index < s.slots.len(),
    ensures
        s.failed(index, error).wf(),
{
    if s.slots[index] is Some {
        books::lemma_occupied_counts(s.slots, index);
        books::lemma_occupied_update(s.slots, index, None);
    }
}

/// The books are in order after any run, however long.
pub proof fn the_books_stay_in_order_on_every_run(s: EngineView, moves: Seq<Move>)
    requires
        s.wf(),
        s.allows_all(moves),
    ensures
        s.after(moves).wf(),
    decreases moves.len(),
{
    if moves.len() > 0 {
        the_books_stay_in_order_on_every_run(s, moves.drop_last());
        the_books_stay_in_order(s.after(moves.drop_last()), moves.last());
    }
}

/// A scheduler is never told of room that does not exist: what is reported as
/// available is no more than the free slots that no waiting request will take.
pub proof fn available_slots_exist(s: EngineView, available: nat)
    requires
        s.wf(),
        available == if s.inflight < s.slots.len() {
            (s.slots.len() - s.inflight) as nat
        } else {
            0
        },
        available > 0,
    ensures
        available + s.queued + books::occupied(s.slots) + s.claimed() == s.slots.len(),
{
}

/// An engine that has finished owes nobody anything.
pub proof fn a_finished_engine_owes_nothing(s: EngineView)
    requires
        s.wf(),
        s.finished(),
    ensures
        s.queued == 0,
        s.inflight == 0,
        s.outbox.len() == 0,
{
}

/// How many of `entries` end a generation.
pub open spec fn terminals(entries: Seq<(u64, EventView)>) -> nat
    decreases entries.len(),
{
    if entries.len() == 0 {
        0
    } else {
        terminals(entries.drop_last()) + if entries.last().1.terminal() {
            1nat
        } else {
            0nat
        }
    }
}

/// How many requests `moves` put into the queue.
pub open spec fn accepted(moves: Seq<Move>) -> nat
    decreases moves.len(),
{
    if moves.len() == 0 {
        0
    } else {
        accepted(moves.drop_last()) + if moves.last() == Move::Submit(Enqueue::Accepted) {
            1nat
        } else {
            0nat
        }
    }
}

/// How many terminal events leave the outbox when `m` happens in `s`.
pub open spec fn settled_by(s: EngineView, m: Move) -> int {
    match m {
        Move::Sweep(outcomes) => terminals(s.outbox) - terminals(
            books::undelivered(s.outbox, outcomes),
        ),
        _ => 0,
    }
}

/// How many terminal events leave the outbox during `moves`.
pub open spec fn settled(s: EngineView, moves: Seq<Move>) -> int
    decreases moves.len(),
{
    if moves.len() == 0 {
        0
    } else {
        settled(s, moves.drop_last()) + settled_by(s.after(moves.drop_last()), moves.last())
    }
}

proof fn lemma_terminals_concat(a: Seq<(u64, EventView)>, b: Seq<(u64, EventView)>)
    ensures
        terminals(a + b) == terminals(a) + terminals(b),
    decreases b.len(),
{
    if b.len() == 0 {
        assert(a + b =~= a);
    } else {
        assert((a + b).drop_last() =~= a + b.drop_last());
        lemma_terminals_concat(a, b.drop_last());
    }
}

proof fn lemma_terminals_push(a: Seq<(u64, EventView)>, entry: (u64, EventView))
    ensures
        terminals(a.push(entry)) == terminals(a) + if entry.1.terminal() {
            1nat
        } else {
            0nat
        },
{
    assert(a.push(entry).drop_last() =~= a);
}

proof fn lemma_retired_accounts(s: EngineView, index: int, stop: Stop, now_us: i64)
    requires
        0 <= index < s.slots.len(),
        s.slots[index] matches Some(slot) ==> s.inflight >= 1 && (slot.pending matches Some(event)
            ==> event is Token),
    ensures
        ({
            let r = s.retired(index, stop, now_us);
            r.inflight + terminals(r.outbox) == s.inflight + terminals(s.outbox)
        }),
{
    if let Some(slot) = s.slots[index] {
        let closing = slot.closing(stop, now_us);
        lemma_terminals_concat(s.outbox, closing);
        reveal_with_fuel(terminals, 3);
        match slot.pending {
            Some(event) => {
                assert(closing.drop_last() =~= seq![(slot.job, event)]);
                assert(closing.drop_last().drop_last() =~= Seq::<(u64, EventView)>::empty());
            },
            None => {
                assert(closing.drop_last() =~= Seq::<(u64, EventView)>::empty());
            },
        }
    }
}

proof fn lemma_step_accounts(s: EngineView, cancelled: Seq<bool>, now_us: i64, n: nat)
    requires
        s.wf(),
        cancelled.len() == s.slots.len(),
        n <= s.slots.len(),
    ensures
        ({
            let p = partly_cancelled(s, cancelled, now_us, n);
            p.inflight + terminals(p.outbox) == s.inflight + terminals(s.outbox)
        }),
    decreases n,
{
    if n > 0 {
        let before = (n - 1) as nat;
        lemma_step_accounts(s, cancelled, now_us, before);
        lemma_partly_cancelled(s, cancelled, now_us, before);
        let earlier = partly_cancelled(s, cancelled, now_us, before);
        if cancelled[n - 1] {
            if earlier.slots[n - 1] is Some {
                books::lemma_retired_wf(earlier, n - 1, Stop::Cancelled, now_us);
            }
            lemma_retired_accounts(earlier, n - 1, Stop::Cancelled, now_us);
        }
    }
}

/// A slot is released and its caller told in one and the same step: nothing
/// but a submission opens an account, and nothing but the delivery of a
/// terminal event closes one.
pub proof fn every_move_keeps_the_accounts(s: EngineView, m: Move)
    requires
        s.wf(),
        s.allows(m),
    ensures
        s.next(m).inflight + terminals(s.next(m).outbox) + settled_by(s, m) == s.inflight
            + terminals(s.outbox) + if m == Move::Submit(Enqueue::Accepted) {
            1nat
        } else {
            0nat
        },
{
    match m {
        Move::Flush { index, outcome, now_ns, now_us } => {
            if let Some(slot) = s.slots[index] {
                let kept = slot.flushed(outcome, now_ns);
                books::lemma_replaced_wf(s, index, kept);
                let middle = EngineView { slots: s.slots.update(index, Some(kept)), ..s };
                if slot.flush_verdict(outcome, now_ns) == Flush::Abandoned {
                    books::lemma_retired_wf(middle, index, Stop::Cancelled, now_us);
                    lemma_retired_accounts(middle, index, Stop::Cancelled, now_us);
                }
            }
        },
        Move::Arrive(Arrival::Job { job, cancelled }) => {
            if cancelled {
                lemma_terminals_push(
                    s.outbox,
                    (
                        job,
                        EventView::Done {
                            stop: Stop::Cancelled,
                            prompt_tokens: 0,
                            tokens: 0,
                            elapsed_ms: 0,
                        },
                    ),
                );
            }
        },
        Move::Prefilled { prefilled, now_us } => {
            let (job, index) = s.prefilling.unwrap();
            let after = s.next(m).outbox;
            if after.len() == s.outbox.len() + 1 {
                lemma_terminals_push(s.outbox, after.last());
                assert(after =~= s.outbox.push(after.last()));
            } else if after.len() > s.outbox.len() {
                let piece = after[s.outbox.len() as int];
                lemma_terminals_push(s.outbox, piece);
                lemma_terminals_push(s.outbox.push(piece), after.last());
                assert(after =~= s.outbox.push(piece).push(after.last()));
            }
        },
        Move::PrefillFailed(error) => {
            let (job, index) = s.prefilling.unwrap();
            lemma_terminals_push(s.outbox, (job, EventView::Failed(error)));
        },
        Move::Step { cancelled, now_us } => {
            lemma_step_is_a_run_of_retirements(s, cancelled, now_us);
            lemma_step_accounts(s, cancelled, now_us, s.slots.len());
        },
        Move::Sampled { index, sampled, now_us } => {
            if let Some(slot) = s.slots[index] {
                books::lemma_occupied_counts(s.slots, index);
                match sampled {
                    Sampled::EndOfGeneration => {
                        lemma_retired_accounts(s, index, Stop::EndOfGeneration, now_us);
                    },
                    Sampled::Token { token, bytes } => {
                        let next = slot.extended(token, bytes@);
                        let middle = EngineView {
                            slots: s.slots.update(index, Some(next)),
                            ..s
                        };
                        lemma_retired_accounts(middle, index, next.exhausted(), now_us);
                    },
                    Sampled::Unprintable { error } => {
                        lemma_terminals_push(s.outbox, (slot.job, EventView::Failed(error@)));
                    },
                }
            }
        },
        Move::Fail { index, error } => {
            if let Some(slot) = s.slots[index] {
                books::lemma_occupied_counts(s.slots, index);
                lemma_terminals_push(s.outbox, (slot.job, EventView::Failed(error)));
            }
        },
        _ => {},
    }
}

/// Every accepted request is answered once. At any time, the requests that
/// were accepted are those still in flight, those whose last event is waiting
/// in the outbox, and those whose last event has gone out.
pub proof fn every_accepted_request_is_answered_once(s: EngineView, moves: Seq<Move>)
    requires
        s.wf(),
        s.inflight == 0,
        s.outbox.len() == 0,
        s.allows_all(moves),
    ensures
        accepted(moves) == s.after(moves).inflight + terminals(s.after(moves).outbox) + settled(
            s,
            moves,
        ),
    decreases moves.len(),
{
    if moves.len() > 0 {
        let earlier = moves.drop_last();
        every_accepted_request_is_answered_once(s, earlier);
        the_books_stay_in_order_on_every_run(s, earlier);
        every_move_keeps_the_accounts(s.after(earlier), moves.last());
    }
}

/// A failure for each of `rows`, in order.
pub open spec fn failures(rows: Seq<usize>, error: Seq<char>) -> Seq<Move> {
    Seq::new(rows.len(), |k: int| Move::Fail { index: rows[k] as int, error })
}

/// A decode that fails, fails for each of its rows and for nobody else: it is
/// the same as one failure after the other.
pub proof fn a_failed_decode_fails_its_rows(s: EngineView, rows: Seq<usize>, error: Seq<char>)
    requires
        s.wf(),
        forall|k: int| 0 <= k < rows.len() ==> #[trigger] rows[k] < s.slots.len(),
    ensures
        s.allows_all(failures(rows, error)),
        s.after(failures(rows, error)) == s.all_failed(rows, error),
        s.all_failed(rows, error).slots.len() == s.slots.len(),
        s.all_failed(rows, error).prefilling == s.prefilling,
        forall|i: int|
            0 <= i < s.slots.len() ==> #[trigger] s.all_failed(rows, error).slots[i]
                == if rows.contains(i as usize) {
                None
            } else {
                s.slots[i]
            },
    decreases rows.len(),
{
    if rows.len() > 0 {
        let earlier = rows.drop_last();
        assert(failures(rows, error).drop_last() =~= failures(earlier, error));
        a_failed_decode_fails_its_rows(s, earlier, error);
        assert(rows == earlier.push(rows.last()));
        assert forall|i: int| 0 <= i < s.slots.len() implies #[trigger] s.all_failed(
            rows,
            error,
        ).slots[i] == if rows.contains(i as usize) {
            None
        } else {
            s.slots[i]
        } by {
            let before = s.all_failed(earlier, error);
            assert(before.slots[i] == if earlier.contains(i as usize) {
                None
            } else {
                s.slots[i]
            });
            if i == rows.last() {
                assert(rows[rows.len() - 1] == i as usize);
            } else if rows.contains(i as usize) {
                let k = choose|k: int| 0 <= k < rows.len() && rows[k] == i as usize;
                assert(earlier[k] == i as usize);
            } else if earlier.contains(i as usize) {
                let k = choose|k: int| 0 <= k < earlier.len() && earlier[k] == i as usize;
                assert(rows[k] == i as usize);
            }
        }
    }
}

/// Whether the slot at `i` takes part in a step.
pub open spec fn ready_at(slots: Seq<Option<SlotView>>, cancelled: Seq<bool>, i: int) -> bool {
    !cancelled[i] && (slots[i] matches Some(slot) && slot.pending is None)
}

/// Whether `rows` has a row for the slot at `i`.
pub open spec fn has_row(rows: Seq<Row>, i: int) -> bool {
    exists|k: int| 0 <= k < rows.len() && (#[trigger] rows[k]).index == i
}

/// Whether a slot takes part in a step is its own affair: one whose caller is
/// behind stays out, and holds up no other.
pub proof fn a_slow_reader_holds_up_nobody_else(
    slots: Seq<Option<SlotView>>,
    cancelled: Seq<bool>,
    n: nat,
    i: int,
)
    requires
        n <= slots.len() <= u32::MAX,
        cancelled.len() == slots.len(),
        0 <= i < n,
    ensures
        has_row(books::ready_rows(slots, cancelled, n), i) <==> ready_at(slots, cancelled, i),
    decreases n,
{
    let rows = books::ready_rows(slots, cancelled, n);
    let earlier = books::ready_rows(slots, cancelled, (n - 1) as nat);
    rows_are_in_slot_order(slots, cancelled, n);
    rows_are_in_slot_order(slots, cancelled, (n - 1) as nat);
    if i < n - 1 {
        a_slow_reader_holds_up_nobody_else(slots, cancelled, (n - 1) as nat, i);
        if has_row(earlier, i) {
            let k = choose|k: int| 0 <= k < earlier.len() && (#[trigger] earlier[k]).index == i;
            assert(rows[k].index == i);
        }
        if has_row(rows, i) {
            let k = choose|k: int| 0 <= k < rows.len() && (#[trigger] rows[k]).index == i;
            assert(earlier[k].index == i);
        }
    } else {
        if ready_at(slots, cancelled, i) {
            assert(rows[rows.len() - 1].index == i);
        }
    }
}

/// A step feeds no sequence twice: its rows are in the order of their slots,
/// and each of them is for another one.
pub proof fn rows_are_in_slot_order(slots: Seq<Option<SlotView>>, cancelled: Seq<bool>, n: nat)
    requires
        n <= slots.len() <= u32::MAX,
        cancelled.len() == slots.len(),
    ensures
        ({
            let rows = books::ready_rows(slots, cancelled, n);
            &&& forall|k: int| 0 <= k < rows.len() ==> (#[trigger] rows[k]).index < n
            &&& forall|j: int, k: int|
                0 <= j < k < rows.len() ==> (#[trigger] rows[j]).index < (#[trigger] rows[k]).index
        }),
    decreases n,
{
    if n > 0 {
        rows_are_in_slot_order(slots, cancelled, (n - 1) as nat);
        let rows = books::ready_rows(slots, cancelled, n);
        let earlier = books::ready_rows(slots, cancelled, (n - 1) as nat);
        assert forall|k: int| 0 <= k < rows.len() implies (#[trigger] rows[k]).index < n by {
            if k < earlier.len() {
                assert(rows[k] == earlier[k]);
            }
        }
        assert forall|j: int, k: int| 0 <= j < k < rows.len() implies (#[trigger] rows[j]).index < (
        #[trigger] rows[k]).index by {
            assert(rows[j] == earlier[j]);
            if k < earlier.len() {
                assert(rows[k] == earlier[k]);
            }
        }
    }
}

/// Cancellation lands at the next token boundary: the step that sees it gives
/// the slot back, tells the caller so behind the piece that was still pending,
/// and decodes nothing more for it.
pub proof fn cancellation_lands_at_the_next_step(
    s: EngineView,
    cancelled: Seq<bool>,
    now_us: i64,
    i: int,
)
    requires
        s.wf(),
        cancelled.len() == s.slots.len(),
        0 <= i < s.slots.len(),
        cancelled[i],
        s.slots[i] is Some,
    ensures
        ({
            let slot = s.slots[i].unwrap();
            let after = s.next(Move::Step { cancelled, now_us });
            &&& after.slots[i] is None
            &&& told(after.outbox, slot, now_us)
            &&& !has_row(books::ready_rows(s.slots, cancelled, s.slots.len()), i)
        }),
{
    let slot = s.slots[i].unwrap();
    a_slow_reader_holds_up_nobody_else(s.slots, cancelled, s.slots.len(), i);
    lemma_cancellations_hold(s.slots, cancelled, now_us, s.slots.len(), i);
    let added = books::cancellations(s.slots, cancelled, now_us, s.slots.len());
    let k = choose|k: int| #[trigger] told_at(added, slot, now_us, k);
    assert(told_at(s.outbox + added, slot, now_us, s.outbox.len() + k));
}

/// The caller of `slot` is told at `k` that its generation was cancelled, right
/// after the piece that was still pending.
pub open spec fn told_at(
    entries: Seq<(u64, EventView)>,
    slot: SlotView,
    now_us: i64,
    k: int,
) -> bool {
    &&& 0 <= k < entries.len()
    &&& entries[k] == (slot.job, slot.done(Stop::Cancelled, now_us))
    &&& slot.pending matches Some(piece) ==> k >= 1 && entries[k - 1] == (slot.job, piece)
}

/// The caller of `slot` is told that its generation was cancelled.
pub open spec fn told(entries: Seq<(u64, EventView)>, slot: SlotView, now_us: i64) -> bool {
    exists|k: int| #[trigger] told_at(entries, slot, now_us, k)
}

proof fn lemma_cancellations_hold(
    slots: Seq<Option<SlotView>>,
    cancelled: Seq<bool>,
    now_us: i64,
    n: nat,
    i: int,
)
    requires
        0 <= i < n <= slots.len(),
        cancelled.len() == slots.len(),
        cancelled[i],
        slots[i] is Some,
    ensures
        told(books::cancellations(slots, cancelled, now_us, n), slots[i].unwrap(), now_us),
    decreases n,
{
    let slot = slots[i].unwrap();
    let all = books::cancellations(slots, cancelled, now_us, n);
    let earlier = books::cancellations(slots, cancelled, now_us, (n - 1) as nat);
    if i == n - 1 {
        assert(told_at(all, slot, now_us, all.len() - 1));
    } else {
        lemma_cancellations_hold(slots, cancelled, now_us, (n - 1) as nat, i);
        let k = choose|k: int| #[trigger] told_at(earlier, slot, now_us, k);
        assert(told_at(all, slot, now_us, k));
    }
}

/// Whether a generation may go on in `slot`: it has said less than was asked
/// for, and there is room for more.
pub open spec fn within(slot: SlotView, max_tokens: i32, n_ctx: u32) -> bool {
    &&& slot.n_decoded < max_tokens
    &&& slot.prompt_tokens + slot.n_decoded < n_ctx
    &&& slot.budget == slot::budget_for(max_tokens, (n_ctx - slot.prompt_tokens) as u32)
    &&& slot.context_bound == (max_tokens > n_ctx - slot.prompt_tokens)
}

/// Whether `event` ends a generation that has said what it was asked for, or
/// filled its context, and says which of the two it was.
pub open spec fn spent(event: EventView, max_tokens: i32, n_ctx: u32) -> bool {
    event matches EventView::Done { stop, prompt_tokens, tokens, .. } && (if stop == Stop::Limit {
        tokens == max_tokens && prompt_tokens + tokens <= n_ctx
    } else {
        stop == Stop::ContextFull && tokens < max_tokens && prompt_tokens + tokens == n_ctx
    })
}

/// A generation starts within its budget: unless the model has nothing to say
/// or the token cannot be rendered, the first token either leaves something to
/// say, or ends the generation there. A request for no tokens gets none.
pub proof fn generations_start_within_their_budget(
    s: EngineView,
    prefilled: Prefilled,
    now_us: i64,
)
    requires
        s.wf(),
        s.prefilling is Some,
        prefilled.prompt_tokens < s.n_ctx,
        prefilled.first is Token,
    ensures
        ({
            let (job, index) = s.prefilling.unwrap();
            let after = s.after_prefill(prefilled, now_us);
            match after.slots[index] {
                Some(slot) => within(slot, prefilled.max_tokens, s.n_ctx),
                None => after.outbox.last().0 == job && (if prefilled.max_tokens <= 0 {
                    after.outbox.last().1 == EventView::Done {
                        stop: Stop::Limit,
                        prompt_tokens: prefilled.prompt_tokens,
                        tokens: 0,
                        elapsed_ms: prefilled.elapsed_ms,
                    }
                } else {
                    spent(after.outbox.last().1, prefilled.max_tokens, s.n_ctx)
                }),
            }
        }),
{
}

/// No generation says more than it was asked for, and none runs past its
/// context: with each token a slot either stays below both, or ends there and
/// says which of the two gave out first.
pub proof fn generations_stay_within_their_budget(
    s: EngineView,
    index: int,
    token: i32,
    bytes: Seq<u8>,
    now_us: i64,
    max_tokens: i32,
)
    requires
        s.wf(),
        0 <= index < s.slots.len(),
        s.slots[index] matches Some(slot) && within(slot, max_tokens, s.n_ctx),
    ensures
        ({
            let slot = s.slots[index].unwrap();
            let after = s.advanced(index, token, bytes, now_us);
            match after.slots[index] {
                Some(next) => within(next, max_tokens, s.n_ctx),
                None => after.outbox.last().0 == slot.job && spent(
                    after.outbox.last().1,
                    max_tokens,
                    s.n_ctx,
                ),
            }
        }),
{
}

/// Slots are counted one by one: a taken one counts, a free one does not, and the
/// count is nothing exactly where all of them are free.
pub proof fn taken_slots_are_counted(slots: Seq<Option<SlotView>>, slot: SlotView)
    ensures
        books::occupied(Seq::empty()) == 0,
        books::occupied(slots.push(Some(slot))) == books::occupied(slots) + 1,
        books::occupied(slots.push(None)) == books::occupied(slots),
        books::occupied(slots) <= slots.len(),
        books::occupied(slots) == 0 <==> forall|i: int|
            0 <= i < slots.len() ==> #[trigger] slots[i] is None,
        books::occupied(slots) == slots.len() <==> forall|i: int|
            0 <= i < slots.len() ==> #[trigger] slots[i] is Some,
    decreases slots.len(),
{
    assert(slots.push(Some(slot)).drop_last() =~= slots);
    assert(slots.push(None).drop_last() =~= slots);
    if slots.len() > 0 {
        let earlier = slots.drop_last();
        taken_slots_are_counted(earlier, slot);
        assert(slots[slots.len() - 1] == slots.last());
        if forall|i: int| 0 <= i < slots.len() ==> #[trigger] slots[i] is None {
            assert forall|i: int| 0 <= i < earlier.len() implies #[trigger] earlier[i] is None by {
                assert(slots[i] is None);
            }
        }
        if forall|i: int| 0 <= i < slots.len() ==> #[trigger] slots[i] is Some {
            assert forall|i: int| 0 <= i < earlier.len() implies #[trigger] earlier[i] is Some by {
                assert(slots[i] is Some);
            }
        }
        if books::occupied(slots) == 0 {
            assert forall|i: int| 0 <= i < slots.len() implies #[trigger] slots[i] is None by {
                if i < earlier.len() {
                    assert(earlier[i] is None);
                }
            }
        }
        if books::occupied(slots) == slots.len() {
            assert forall|i: int| 0 <= i < slots.len() implies #[trigger] slots[i] is Some by {
                if i < earlier.len() {
                    assert(earlier[i] is Some);
                }
            }
        }
    }
}

/// The first free slot is free, every one before it is taken, and there is none
/// only where all are taken.
pub proof fn the_first_free_slot_is_found(slots: Seq<Option<SlotView>>)
    ensures
        match books::first_free(slots) {
            Some(index) => {
                &&& 0 <= index < slots.len()
                &&& slots[index] is None
                &&& forall|j: int| 0 <= j < index ==> #[trigger] slots[j] is Some
            },
            None => forall|j: int| 0 <= j < slots.len() ==> #[trigger] slots[j] is Some,
        },
    decreases slots.len(),
{
    if slots.len() > 0 {
        let earlier = slots.drop_last();
        the_first_free_slot_is_found(earlier);
        assert(slots[slots.len() - 1] == slots.last());
        match books::first_free(slots) {
            Some(index) => {
                assert forall|j: int| 0 <= j < index implies #[trigger] slots[j] is Some by {
                    assert(earlier[j] is Some);
                }
            },
            None => {
                assert forall|j: int| 0 <= j < slots.len() implies #[trigger] slots[j] is Some by {
                    if j < earlier.len() {
                        assert(earlier[j] is Some);
                    }
                }
            },
        }
    }
}

/// Whether `at` are the places in `outcomes`, up to `n`, that are full, in order.
pub open spec fn full_places(outcomes: Seq<SendOutcome>, n: int, at: Seq<int>) -> bool {
    &&& forall|k: int|
        0 <= k < at.len() ==> 0 <= #[trigger] at[k] < n && outcomes[at[k]] == SendOutcome::Full
    &&& forall|j: int, k: int| 0 <= j < k < at.len() ==> #[trigger] at[j] < #[trigger] at[k]
    &&& forall|i: int|
        0 <= i < n && #[trigger] outcomes[i] == SendOutcome::Full ==> at.contains(i)
}

/// What stays in the outbox is what met a full channel, each entry as it was and
/// in the order it was in. What was taken, and what was meant for a caller who is
/// gone, does not stay.
pub proof fn only_what_met_a_full_channel_stays(
    outbox: Seq<(u64, EventView)>,
    outcomes: Seq<SendOutcome>,
) -> (at: Seq<int>)
    requires
        outbox.len() <= outcomes.len(),
    ensures
        full_places(outcomes, outbox.len() as int, at),
        books::undelivered(outbox, outcomes).len() == at.len(),
        forall|k: int|
            0 <= k < at.len() ==> #[trigger] books::undelivered(outbox, outcomes)[k]
                == outbox[at[k]],
    decreases outbox.len(),
{
    if outbox.len() == 0 {
        Seq::empty()
    } else {
        let n = outbox.len() - 1;
        let earlier = only_what_met_a_full_channel_stays(outbox.drop_last(), outcomes);
        let kept = books::undelivered(outbox.drop_last(), outcomes);
        if outcomes[n] == SendOutcome::Full {
            let at = earlier.push(n);
            assert forall|i: int|
                0 <= i < outbox.len() && #[trigger] outcomes[i]
                    == SendOutcome::Full implies at.contains(i) by {
                if i == n {
                    assert(at[at.len() - 1] == n);
                } else {
                    assert(earlier.contains(i));
                    let k = choose|k: int| 0 <= k < earlier.len() && earlier[k] == i;
                    assert(at[k] == i);
                }
            }
            assert forall|k: int| 0 <= k < at.len() implies #[trigger] books::undelivered(
                outbox,
                outcomes,
            )[k] == outbox[at[k]] by {
                if k < earlier.len() {
                    assert(kept[k] == outbox.drop_last()[earlier[k]]);
                }
            }
            at
        } else {
            assert forall|k: int| 0 <= k < earlier.len() implies #[trigger] books::undelivered(
                outbox,
                outcomes,
            )[k] == outbox[earlier[k]] by {
                assert(kept[k] == outbox.drop_last()[earlier[k]]);
            }
            earlier
        }
    }
}

/// The engine has finished exactly when nothing will come, nothing is in flight,
/// and nothing is on its way to a caller.
pub proof fn an_engine_finishes_when_nothing_is_left(s: EngineView)
    requires
        s.wf(),
    ensures
        s.finished() <==> s.closed && s.inflight == 0 && s.outbox.len() == 0,
{
}

/// The sequences that a step gives back are those of the taken slots whose caller
/// has cancelled, each once.
pub proof fn a_step_gives_back_what_was_cancelled(
    s: EngineView,
    cancelled: Seq<bool>,
    n: nat,
    seq_id: u32,
)
    requires
        s.wf(),
        cancelled.len() == s.slots.len(),
        n <= s.slots.len(),
    ensures
        ({
            let seqs = books::cancelled_seqs(s.slots, cancelled, n);
            &&& seqs.contains(seq_id) <==> seq_id < n && cancelled[seq_id as int]
                && s.slots[seq_id as int] is Some
            &&& forall|k: int| 0 <= k < seqs.len() ==> #[trigger] seqs[k] < n
            &&& forall|j: int, k: int|
                0 <= j < k < seqs.len() ==> #[trigger] seqs[j] < #[trigger] seqs[k]
        }),
    decreases n,
{
    let seqs = books::cancelled_seqs(s.slots, cancelled, n);
    if n > 0 {
        let earlier = books::cancelled_seqs(s.slots, cancelled, (n - 1) as nat);
        a_step_gives_back_what_was_cancelled(s, cancelled, (n - 1) as nat, seq_id);
        assert(s.slots[n - 1] matches Some(slot) ==> slot.wf(n - 1, s.n_ctx));
        if earlier.contains(seq_id) {
            let k = choose|k: int| 0 <= k < earlier.len() && earlier[k] == seq_id;
            assert(seqs[k] == seq_id);
        }
        if s.slots[n - 1] is Some && cancelled[n - 1] {
            assert(seqs[seqs.len() - 1] == n - 1);
        }
        if seqs.contains(seq_id) {
            let k = choose|k: int| 0 <= k < seqs.len() && seqs[k] == seq_id;
            if k < earlier.len() {
                assert(earlier[k] == seq_id);
            }
        }
        assert forall|j: int, k: int| 0 <= j < k < seqs.len() implies #[trigger] seqs[j]
            < #[trigger] seqs[k] by {
            assert(seqs[j] == earlier[j]);
            if k < earlier.len() {
                assert(seqs[k] == earlier[k]);
            }
        }
    }
}

/// The last entry that `job` is told, as an event that ends its generation.
pub open spec fn ends_with(
    entries: Seq<(u64, EventView)>,
    job: u64,
    stop: Stop,
    prompt_tokens: u32,
    tokens: u32,
    elapsed_ms: u64,
) -> bool {
    &&& entries.len() > 0
    &&& entries.last() == (job, EventView::Done { stop, prompt_tokens, tokens, elapsed_ms })
}

/// A prompt that comes to nothing more is answered at once, and no slot is taken.
/// A model with nothing to say ends there; so does a request that asks for
/// nothing; one with room for a single token gets that token, and is told what
/// ran out; a token that cannot be rendered fails the request. The answer counts
/// the tokens of the prompt and the time it took.
pub proof fn a_prompt_may_be_answered_at_once(
    s: EngineView,
    prefilled: Prefilled,
    now_us: i64,
)
    requires
        s.wf(),
        s.prefilling is Some,
        prefilled.prompt_tokens < s.n_ctx,
    ensures
        ({
            let (job, index) = s.prefilling.unwrap();
            let after = s.after_prefill(prefilled, now_us);
            let room = s.n_ctx - prefilled.prompt_tokens;
            let asked = prefilled.max_tokens;
            &&& after.prefilling is None
            &&& prefilled.first is EndOfGeneration ==> after.slots == s.slots && ends_with(
                after.outbox,
                job,
                Stop::EndOfGeneration,
                prefilled.prompt_tokens,
                0,
                prefilled.elapsed_ms,
            ) && after.outbox.len() == s.outbox.len() + 1
            &&& !(prefilled.first is EndOfGeneration) && asked <= 0 ==> after.slots == s.slots
                && ends_with(
                after.outbox,
                job,
                Stop::Limit,
                prefilled.prompt_tokens,
                0,
                prefilled.elapsed_ms,
            ) && after.outbox.len() == s.outbox.len() + 1
            &&& asked > 0 ==> (prefilled.first matches Sampled::Unprintable { error }
                ==> after.slots == s.slots && after.outbox == s.outbox.push(
                (job, EventView::Failed(error@)),
            ))
            &&& (prefilled.first matches Sampled::Token { bytes, .. } && asked > 0 && (asked == 1
                || room == 1)) ==> {
                &&& after.slots == s.slots
                &&& after.outbox.len() == s.outbox.len() + 2
                &&& after.outbox[s.outbox.len() as int].0 == job
                &&& after.outbox[s.outbox.len() as int].1 is Token
                &&& ends_with(
                    after.outbox,
                    job,
                    if asked == 1 {
                        Stop::Limit
                    } else {
                        Stop::ContextFull
                    },
                    prefilled.prompt_tokens,
                    1,
                    prefilled.elapsed_ms,
                )
            }
            &&& (prefilled.first matches Sampled::Token { token, bytes } && asked > 1 && room > 1)
                ==> after.slots[index] is Some && after.outbox == s.outbox
        }),
{
}

/// A prompt that takes a slot takes the one that was kept for it, for the request
/// that it came from, with its first token to be fed behind the prompt and on its
/// way to the caller.
pub proof fn a_prompt_takes_its_slot(s: EngineView, prefilled: Prefilled, now_us: i64)
    requires
        s.wf(),
        s.prefilling is Some,
        prefilled.prompt_tokens < s.n_ctx,
        prefilled.first is Token,
        prefilled.max_tokens > 1,
        s.n_ctx - prefilled.prompt_tokens > 1,
    ensures
        ({
            let (job, index) = s.prefilling.unwrap();
            let after = s.after_prefill(prefilled, now_us);
            &&& prefilled.first matches Sampled::Token { token, bytes } && after.slots[index] matches Some(
                slot,
            ) && {
                &&& slot.job == job
                &&& slot.seq_id == index
                &&& slot.prompt_tokens == prefilled.prompt_tokens
                &&& slot.n_cur == prefilled.prompt_tokens
                &&& slot.next_input == token
                &&& slot.n_decoded == 1
                &&& slot.fed == bytes@
                &&& slot.started_us == now_us
                &&& slot.pending == Some(
                    EventView::Token(pieces::piece_text(Seq::empty(), bytes@)),
                )
                &&& slot.budget <= prefilled.max_tokens
                &&& slot.budget <= s.n_ctx - prefilled.prompt_tokens
                &&& slot.budget == prefilled.max_tokens || slot.budget == s.n_ctx
                    - prefilled.prompt_tokens
            }
        }),
{
}

/// A request that was cancelled while it waited is told so, and nothing is
/// generated for it. Any other is kept the first slot that is free.
pub proof fn a_claimed_request_is_answered_or_kept_a_slot(
    s: EngineView,
    job: u64,
    cancelled: bool,
)
    requires
        s.wf(),
        s.allows(Move::Arrive(Arrival::Job { job, cancelled })),
    ensures
        ({
            let after = s.after_arrival(Arrival::Job { job, cancelled });
            &&& after.slots == s.slots
            &&& after.queued == s.queued - 1
            &&& cancelled ==> after.prefilling is None && after.inflight == s.inflight - 1
                && ends_with(after.outbox, job, Stop::Cancelled, 0, 0, 0) && after.outbox.len()
                == s.outbox.len() + 1
            &&& !cancelled ==> after.outbox == s.outbox && after.inflight == s.inflight
            &&& !cancelled ==> (after.prefilling matches Some((claimed, index)) && claimed == job
                && 0 <= index < s.slots.len() && s.slots[index] is None && (forall|j: int|
                0 <= j < index ==> #[trigger] s.slots[j] is Some))
        }),
{
    the_first_free_slot_is_found(s.slots);
}

/// Whether `m` concerns the slot at `j`.
pub open spec fn concerns(s: EngineView, m: Move, j: int) -> bool {
    match m {
        Move::Flush { index, .. } => index == j,
        Move::Sampled { index, .. } => index == j,
        Move::Fail { index, .. } => index == j,
        Move::Prefilled { .. } => s.prefilling matches Some((_, index)) && index == j,
        Move::Step { cancelled, .. } => cancelled[j],
        _ => false,
    }
}

/// What happens to one generation leaves the others as they are, what is on its
/// way to callers stays there until it is offered, and the context is what it was.
pub proof fn a_move_concerns_its_own_slot_only(s: EngineView, m: Move, j: int)
    requires
        s.wf(),
        s.allows(m),
        0 <= j < s.slots.len(),
        !concerns(s, m, j),
    ensures
        s.next(m).slots.len() == s.slots.len(),
        s.next(m).slots[j] == s.slots[j],
        s.next(m).n_ctx == s.n_ctx,
        !(m is Sweep) ==> s.outbox.is_prefix_of(s.next(m).outbox),
        s.next(m).closed == (s.closed || m == Move::Arrive(Arrival::Disconnected)),
{
    if let Move::Step { cancelled, now_us } = m {
        assert(s.next(m).slots[j] == s.slots[j]);
    }
}

/// A slot whose generation is over is free, and its caller is told: that the model
/// was done, or what went wrong.
pub proof fn an_ending_frees_its_slot(
    s: EngineView,
    index: int,
    error: Seq<char>,
    now_us: i64,
)
    requires
        s.wf(),
        0 <= index < s.slots.len(),
        s.slots[index] is Some,
    ensures
        ({
            let slot = s.slots[index].unwrap();
            let done = s.after_sample(index, Sampled::EndOfGeneration, now_us);
            let failed = s.failed(index, error);
            &&& done.slots[index] is None
            &&& done.inflight == s.inflight - 1
            &&& done.outbox.last().0 == slot.job
            &&& done.outbox.last().1 matches EventView::Done { stop, prompt_tokens, tokens, .. }
                && stop == Stop::EndOfGeneration && prompt_tokens == slot.prompt_tokens && tokens
                == slot.n_decoded
            &&& failed.slots[index] is None
            &&& failed.inflight == s.inflight - 1
            &&& failed.outbox == s.outbox.push((slot.job, EventView::Failed(error)))
        }),
{
    books::lemma_occupied_counts(s.slots, index);
}

} // verus!
