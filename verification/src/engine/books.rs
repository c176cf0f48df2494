//! The engine's state as plain values, and what each event does to it.

use vstd::prelude::*;

use crate::engine::event::{EventView, Stop};
use crate::engine::pieces;
use crate::engine::slot;
use crate::engine::slot::{Flush, Sampled, SendOutcome, SlotView};

verus! {

/// What became of a request that was put to the queue.
#[derive(Debug, Clone, Copy, PartialEq, Eq, Structural)]
pub enum Enqueue {
    Accepted,
    Full,
    Closed,
}

/// Why a request was refused.
#[derive(Debug, Clone, Copy, PartialEq, Eq, Structural)]
pub enum SubmitError {
    QueueFull,
    ShutDown,
}

impl SubmitError {
    /// The text of [`SubmitError::message`].
    pub open spec fn spec_message(self) -> Seq<char> {
        match self {
            SubmitError::QueueFull => "engine queue is full"@,
            SubmitError::ShutDown => "engine has shut down"@,
        }
    }

    /// What the caller is told.
    pub fn message(&self) -> (message: &'static str)
        ensures
            message@ == self.spec_message(),
            *self == SubmitError::QueueFull ==> message@ == "engine queue is full"@,
            *self == SubmitError::ShutDown ==> message@ == "engine has shut down"@,
    {
        match *self {
            SubmitError::QueueFull => "engine queue is full",
            SubmitError::ShutDown => "engine has shut down",
        }
    }
}

/// Whether there is a slot to fill, and how to wait for the work to fill it.
#[derive(Debug, Clone, Copy, PartialEq, Eq, Structural)]
pub enum Admission {
    /// Every slot is taken.
    Full,
    /// There is other work in hand: take a request only if one is waiting.
    Poll,
    /// There is nothing else to do: wait for a request.
    Wait,
}

/// What the queue gave.
#[derive(Debug, Clone, Copy, PartialEq, Eq, Structural)]
pub enum Arrival {
    Job { job: u64, cancelled: bool },
    Empty,
    Disconnected,
}

/// What to do about an arrival.
#[derive(Debug, Clone, Copy, PartialEq, Eq, Structural)]
pub enum Admit {
    /// Stop filling slots for now.
    Leave,
    /// Settled already. Look for the next one.
    Next,
    /// Ingest the prompt into this sequence.
    Prefill { seq_id: u32 },
}

/// A prompt that has been ingested, and the first token sampled from it.
#[derive(Debug)]
pub struct Prefilled {
    pub prompt_tokens: u32,
    /// What the request asked for.
    pub max_tokens: i32,
    pub first: Sampled,
    /// How long the prompt took.
    pub elapsed_ms: u64,
}

/// One sequence's share of a decode step.
#[derive(Debug, Clone, Copy, PartialEq, Eq, Structural)]
pub struct Row {
    pub index: usize,
    pub token: i32,
    pub position: u32,
    pub seq_id: u32,
}

/// What a decode step consists of.
pub struct StepPlan {
    /// The tokens to decode, one per ready slot.
    pub rows: Vec<Row>,
    /// Sequences given back before the step.
    pub freed: Vec<u32>,
}

/// How many slots are taken.
pub open spec fn occupied(slots: Seq<Option<SlotView>>) -> nat
    decreases slots.len(),
{
    if slots.len() == 0 {
        0
    } else {
        occupied(slots.drop_last()) + if slots.last() is Some {
            1nat
        } else {
            0nat
        }
    }
}

/// The first slot that is free.
pub open spec fn first_free(slots: Seq<Option<SlotView>>) -> Option<int>
    decreases slots.len(),
{
    if slots.len() == 0 {
        None
    } else {
        match first_free(slots.drop_last()) {
            Some(index) => Some(index),
            None => if slots.last() is None {
                Some(slots.len() - 1)
            } else {
                None
            },
        }
    }
}

/// The entries of `outbox` that are still undelivered after each was offered
/// and met its outcome: those whose caller had no room.
pub open spec fn undelivered(
    outbox: Seq<(u64, EventView)>,
    outcomes: Seq<SendOutcome>,
) -> Seq<(u64, EventView)>
    decreases outbox.len(),
{
    if outbox.len() == 0 {
        Seq::empty()
    } else {
        let earlier = undelivered(outbox.drop_last(), outcomes);
        if outcomes[outbox.len() - 1] == SendOutcome::Full {
            earlier.push(outbox.last())
        } else {
            earlier
        }
    }
}

/// Each caller is served in order: once one of its entries has met a full
/// channel, none of its later entries gets through.
pub open spec fn in_order(outbox: Seq<(u64, EventView)>, outcomes: Seq<SendOutcome>) -> bool {
    forall|i: int, k: int|
        0 <= i < k < outcomes.len() && (#[trigger] outbox[i]).0 == (#[trigger] outbox[k]).0
            && outcomes[i] == SendOutcome::Full ==> outcomes[k] == SendOutcome::Full
}

/// Whether the slot at `i` is taken and its caller has cancelled.
pub open spec fn cancelled_at(
    slots: Seq<Option<SlotView>>,
    cancelled: Seq<bool>,
    i: int,
) -> bool {
    slots[i] is Some && cancelled[i]
}

/// What the first `n` slots' cancelled callers are told.
pub open spec fn cancellations(
    slots: Seq<Option<SlotView>>,
    cancelled: Seq<bool>,
    now_us: i64,
    n: nat,
) -> Seq<(u64, EventView)>
    decreases n,
{
    if n == 0 {
        Seq::empty()
    } else {
        let earlier = cancellations(slots, cancelled, now_us, (n - 1) as nat);
        if cancelled_at(slots, cancelled, n - 1) {
            earlier + slots[n - 1].unwrap().closing(Stop::Cancelled, now_us)
        } else {
            earlier
        }
    }
}

/// The sequences of the cancelled ones among the first `n` slots.
pub open spec fn cancelled_seqs(
    slots: Seq<Option<SlotView>>,
    cancelled: Seq<bool>,
    n: nat,
) -> Seq<u32>
    decreases n,
{
    if n == 0 {
        Seq::empty()
    } else {
        let earlier = cancelled_seqs(slots, cancelled, (n - 1) as nat);
        if cancelled_at(slots, cancelled, n - 1) {
            earlier.push(slots[n - 1].unwrap().seq_id)
        } else {
            earlier
        }
    }
}

/// The rows of the first `n` slots: a slot takes part when it is running, its
/// caller has not cancelled, and its caller has taken the last piece.
pub open spec fn ready_rows(
    slots: Seq<Option<SlotView>>,
    cancelled: Seq<bool>,
    n: nat,
) -> Seq<Row>
    decreases n,
{
    if n == 0 {
        Seq::empty()
    } else {
        let earlier = ready_rows(slots, cancelled, (n - 1) as nat);
        match slots[n - 1] {
            Some(slot) => if !cancelled[n - 1] && slot.pending is None {
                earlier.push(
                    Row {
                        index: (n - 1) as usize,
                        token: slot.next_input,
                        position: slot.n_cur,
                        seq_id: slot.seq_id,
                    },
                )
            } else {
                earlier
            },
            None => earlier,
        }
    }
}

/// Everything the engine keeps track of.
pub struct EngineView {
    pub slots: Seq<Option<SlotView>>,
    /// Events on their way to callers whose slot has been given back.
    pub outbox: Seq<(u64, EventView)>,
    /// Requests submitted and not yet finished.
    pub inflight: nat,
    /// Requests submitted and not yet claimed.
    pub queued: nat,
    /// The request whose prompt is being ingested, and the slot it will take.
    pub prefilling: Option<(u64, int)>,
    /// No more requests will come.
    pub closed: bool,
    /// Context available to each slot.
    pub n_ctx: u32,
}

impl EngineView {
    pub open spec fn wf(self) -> bool {
        &&& 1 <= self.slots.len() <= u32::MAX
        &&& forall|i: int|
            0 <= i < self.slots.len() ==> (#[trigger] self.slots[i] matches Some(slot) ==> slot.wf(
                i,
                self.n_ctx,
            ))
        &&& self.prefilling matches Some((_, index)) ==> 0 <= index < self.slots.len()
            && self.slots[index] is None
        &&& self.inflight == self.queued + occupied(self.slots) + self.claimed()
        &&& self.closed ==> self.queued == 0 && self.prefilling is None
    }

    /// One while a prompt is being ingested, zero otherwise.
    pub open spec fn claimed(self) -> nat {
        if self.prefilling is Some {
            1
        } else {
            0
        }
    }

    /// The state after the slot at `index` has stopped for `stop`.
    pub open spec fn retired(self, index: int, stop: Stop, now_us: i64) -> EngineView {
        match self.slots[index] {
            Some(slot) => EngineView {
                slots: self.slots.update(index, None),
                inflight: (self.inflight - 1) as nat,
                outbox: self.outbox + slot.closing(stop, now_us),
                ..self
            },
            None => self,
        }
    }

    /// The state after the slot at `index` has failed with `error`.
    pub open spec fn failed(self, index: int, error: Seq<char>) -> EngineView {
        match self.slots[index] {
            Some(slot) => EngineView {
                slots: self.slots.update(index, None),
                inflight: (self.inflight - 1) as nat,
                outbox: self.outbox.push((slot.job, EventView::Failed(error))),
                ..self
            },
            None => self,
        }
    }

    /// The state after every slot in `rows` has failed with `error`.
    pub open spec fn all_failed(self, rows: Seq<usize>, error: Seq<char>) -> EngineView
        decreases rows.len(),
    {
        if rows.len() == 0 {
            self
        } else {
            self.all_failed(rows.drop_last(), error).failed(rows.last() as int, error)
        }
    }

    /// The state after the pending event of the slot at `index` met `outcome`.
    pub open spec fn flushed(
        self,
        index: int,
        outcome: SendOutcome,
        now_ns: u64,
        now_us: i64,
    ) -> EngineView {
        match self.slots[index] {
            Some(slot) => {
                let settled = EngineView {
                    slots: self.slots.update(index, Some(slot.flushed(outcome, now_ns))),
                    ..self
                };
                if slot.flush_verdict(outcome, now_ns) == Flush::Abandoned {
                    settled.retired(index, Stop::Cancelled, now_us)
                } else {
                    settled
                }
            },
            None => self,
        }
    }

    /// The state after one more token for the slot at `index`.
    pub open spec fn advanced(
        self,
        index: int,
        token: i32,
        bytes: Seq<u8>,
        now_us: i64,
    ) -> EngineView {
        match self.slots[index] {
            Some(slot) => {
                let next = slot.extended(token, bytes);
                let running = EngineView { slots: self.slots.update(index, Some(next)), ..self };
                if next.n_decoded >= next.budget {
                    running.retired(index, next.exhausted(), now_us)
                } else {
                    running
                }
            },
            None => self,
        }
    }

    /// The state after `sampled` was sampled for the slot at `index`.
    pub open spec fn after_sample(self, index: int, sampled: Sampled, now_us: i64) -> EngineView {
        match sampled {
            Sampled::EndOfGeneration => self.retired(index, Stop::EndOfGeneration, now_us),
            Sampled::Token { token, bytes } => self.advanced(index, token, bytes@, now_us),
            Sampled::Unprintable { error } => self.failed(index, error@),
        }
    }

    /// The state after the request whose prompt was being ingested has been
    /// answered with `event` instead of a slot.
    pub open spec fn answered(self, event: EventView) -> EngineView {
        EngineView {
            prefilling: None,
            inflight: (self.inflight - 1) as nat,
            outbox: self.outbox.push((self.prefilling.unwrap().0, event)),
            ..self
        }
    }

    /// The state after the request whose prompt was being ingested has been
    /// answered with `piece` and then `last` instead of a slot.
    pub open spec fn concluded(self, piece: EventView, last: EventView) -> EngineView {
        let job = self.prefilling.unwrap().0;
        EngineView {
            prefilling: None,
            inflight: (self.inflight - 1) as nat,
            outbox: self.outbox.push((job, piece)).push((job, last)),
            ..self
        }
    }

    /// The state after the prompt has been ingested and its first token
    /// sampled. A model with nothing to say and a request with no tokens to
    /// spend are answered at once, and so is a request with one token to
    /// spend, which has come; every other one takes its slot.
    pub open spec fn after_prefill(self, prefilled: Prefilled, now_us: i64) -> EngineView {
        let (job, index) = self.prefilling.unwrap();
        let room = (self.n_ctx - prefilled.prompt_tokens) as u32;
        let budget = slot::budget_for(prefilled.max_tokens, room);
        let done = |stop: Stop, tokens: u32|
            EventView::Done {
                stop,
                prompt_tokens: prefilled.prompt_tokens,
                tokens,
                elapsed_ms: prefilled.elapsed_ms,
            };
        match prefilled.first {
            Sampled::EndOfGeneration => self.answered(done(Stop::EndOfGeneration, 0)),
            Sampled::Token { token, bytes } => if budget == 0 {
                self.answered(done(Stop::Limit, 0))
            } else if budget == 1 {
                let stop = if prefilled.max_tokens > room {
                    Stop::ContextFull
                } else {
                    Stop::Limit
                };
                self.concluded(
                    EventView::Token(pieces::piece_text(Seq::empty(), bytes@)),
                    done(stop, 1),
                )
            } else {
                let slot = slot::opened(
                    job,
                    index as u32,
                    prefilled.prompt_tokens,
                    prefilled.max_tokens,
                    self.n_ctx,
                    token,
                    bytes@,
                    now_us,
                );
                EngineView {
                    slots: self.slots.update(index, Some(slot)),
                    prefilling: None,
                    ..self
                }
            },
            Sampled::Unprintable { error } => if budget == 0 {
                self.answered(done(Stop::Limit, 0))
            } else {
                self.answered(EventView::Failed(error@))
            },
        }
    }

    /// The state after an arrival has been dealt with.
    pub open spec fn after_arrival(self, arrival: Arrival) -> EngineView {
        match arrival {
            Arrival::Job { job, cancelled } => if cancelled {
                EngineView {
                    queued: (self.queued - 1) as nat,
                    inflight: (self.inflight - 1) as nat,
                    outbox: self.outbox.push(
                        (
                            job,
                            EventView::Done {
                                stop: Stop::Cancelled,
                                prompt_tokens: 0,
                                tokens: 0,
                                elapsed_ms: 0,
                            },
                        ),
                    ),
                    ..self
                }
            } else {
                EngineView {
                    queued: (self.queued - 1) as nat,
                    prefilling: Some((job, first_free(self.slots).unwrap())),
                    ..self
                }
            },
            Arrival::Empty => self,
            Arrival::Disconnected => EngineView { closed: true, ..self },
        }
    }

    /// The state once the slots of cancelled callers have been given back.
    pub open spec fn without_cancelled(self, cancelled: Seq<bool>, now_us: i64) -> EngineView {
        EngineView {
            slots: Seq::new(
                self.slots.len(),
                |i: int|
                    if cancelled[i] {
                        None
                    } else {
                        self.slots[i]
                    },
            ),
            inflight: (self.inflight - cancelled_seqs(
                self.slots,
                cancelled,
                self.slots.len(),
            ).len()) as nat,
            outbox: self.outbox + cancellations(self.slots, cancelled, now_us, self.slots.len()),
            ..self
        }
    }

    /// Whether the engine has nothing left to do and nothing to wait for.
    pub open spec fn finished(self) -> bool {
        self.closed && occupied(self.slots) == 0 && self.outbox.len() == 0
    }
}

/// Filling or freeing one slot changes the count by that slot.
pub proof fn lemma_occupied_update(slots: Seq<Option<SlotView>>, index: int, slot: Option<SlotView>)
    requires
        0 <= index < slots.len(),
    ensures
        occupied(slots.update(index, slot)) == occupied(slots) - (if slots[index] is Some {
            1int
        } else {
            0int
        }) + (if slot is Some {
            1int
        } else {
            0int
        }),
    decreases slots.len(),
{
    let updated = slots.update(index, slot);
    if index == slots.len() - 1 {
        assert(updated.drop_last() =~= slots.drop_last());
    } else {
        assert(updated.drop_last() =~= slots.drop_last().update(index, slot));
        lemma_occupied_update(slots.drop_last(), index, slot);
    }
}

/// A taken slot is counted.
pub proof fn lemma_occupied_counts(slots: Seq<Option<SlotView>>, index: int)
    requires
        0 <= index < slots.len(),
        slots[index] is Some,
    ensures
        occupied(slots) >= 1,
{
    lemma_occupied_update(slots, index, None);
}

/// A free slot found among the first `n` is the first of all.
pub proof fn lemma_first_free_is_stable(slots: Seq<Option<SlotView>>, n: int)
    requires
        0 <= n <= slots.len(),
        first_free(slots.take(n)) is Some,
    ensures
        first_free(slots) == first_free(slots.take(n)),
    decreases slots.len() - n,
{
    if n == slots.len() {
        assert(slots.take(n) =~= slots);
    } else {
        assert(slots.take(n + 1).drop_last() =~= slots.take(n));
        lemma_first_free_is_stable(slots, n + 1);
    }
}

/// `s` is well-formed but for what the slot at `index` holds.
pub open spec fn wf_around(s: EngineView, index: int) -> bool {
    &&& 1 <= s.slots.len() <= u32::MAX
    &&& 0 <= index < s.slots.len()
    &&& forall|i: int|
        0 <= i < s.slots.len() && i != index ==> (#[trigger] s.slots[i] matches Some(slot)
            ==> slot.wf(i, s.n_ctx))
    &&& s.prefilling matches Some((_, at)) ==> 0 <= at < s.slots.len() && s.slots[at] is None
    &&& s.inflight == s.queued + occupied(s.slots) + s.claimed()
    &&& s.closed ==> s.queued == 0 && s.prefilling is None
}

/// Retiring a slot puts the books in order, whatever the slot held.
pub proof fn lemma_retired_wf(s: EngineView, index: int, stop: Stop, now_us: i64)
    requires
        wf_around(s, index),
        s.slots[index] is Some,
    ensures
        s.inflight >= 1,
        s.retired(index, stop, now_us).wf(),
{
    lemma_occupied_counts(s.slots, index);
    lemma_occupied_update(s.slots, index, None);
}

/// Replacing what a taken slot holds leaves everything else in order.
pub proof fn lemma_replaced_wf(s: EngineView, index: int, slot: SlotView)
    requires
        wf_around(s, index),
        s.slots[index] is Some,
    ensures
        wf_around(EngineView { slots: s.slots.update(index, Some(slot)), ..s }, index),
        slot.wf(index, s.n_ctx) ==> (EngineView {
            slots: s.slots.update(index, Some(slot)),
            ..s
        }).wf(),
{
    lemma_occupied_update(s.slots, index, Some(slot));
}

} // verus!
