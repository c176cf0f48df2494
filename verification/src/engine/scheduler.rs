//! The engine loop's decisions: who gets a slot, what goes into a batch, when
//! a generation ends, and what its caller is told.

use vstd::prelude::*;

use crate::engine::books;
use crate::engine::books::{
    Admission, Admit, Arrival, EngineView, Enqueue, Prefilled, Row, StepPlan, SubmitError,
};
use crate::engine::config::{EngineConfig, ModelInfo};
use crate::engine::event::{Capacity, Event, EventView, Stop};
use crate::engine::feeding;
use crate::engine::laws;
use crate::engine::laws::Move;
use crate::engine::pieces::PieceDecoder;
use crate::engine::slot;
use crate::engine::slot::{Flush, Sampled, SendOutcome, Slot, SlotView};

verus! {

/// The engine's books. The model, the channels and the clock belong to the
/// caller, who brings what they say and carries out what is decided here.
pub struct Engine {
    slots: Vec<Option<Slot>>,
    outbox: Vec<(u64, Event)>,
    inflight: usize,
    queued: usize,
    prefilling: Option<(u64, usize)>,
    closed: bool,
    n_ctx: u32,
    info: ModelInfo,
}

/// The view of a slot that may be free.
pub open spec fn slot_view(slot: Option<Slot>) -> Option<SlotView> {
    match slot {
        Some(slot) => Some(slot@),
        None => None,
    }
}

/// The view of an addressed event.
pub open spec fn entry_view(entry: (u64, Event)) -> (u64, EventView) {
    (entry.0, entry.1@)
}

impl View for Engine {
    type V = EngineView;

    closed spec fn view(&self) -> EngineView {
        EngineView {
            slots: self.slots@.map_values(|slot: Option<Slot>| slot_view(slot)),
            outbox: self.outbox@.map_values(|entry: (u64, Event)| entry_view(entry)),
            inflight: self.inflight as nat,
            queued: self.queued as nat,
            prefilling: match self.prefilling {
                Some((job, index)) => Some((job, index as int)),
                None => None,
            },
            closed: self.closed,
            n_ctx: self.n_ctx,
        }
    }
}

impl Engine {
    /// An engine with every slot free.
    pub fn new(config: &EngineConfig, info: ModelInfo) -> (engine: Engine)
        requires
            config.max_inflight <= u32::MAX,
            info.n_ctx == config.n_ctx,
        ensures
            engine@.wf(),
            engine@.slots == Seq::new(config.spec_slots(), |i: int| None::<SlotView>),
            engine@.outbox.len() == 0,
            engine@.inflight == 0,
            engine@.queued == 0,
            engine@.prefilling is None,
            !engine@.closed,
            engine@.n_ctx == config.n_ctx,
            engine.spec_model_info() == info,
            engine.spec_model_info().n_ctx == engine@.n_ctx,
    {
        let count = config.slots();
        let mut slots: Vec<Option<Slot>> = Vec::new();
        for i in 0..count
            invariant
                slots@.len() == i,
                forall|j: int| 0 <= j < i ==> slots@[j] is None,
                books::occupied(slots@.map_values(|slot: Option<Slot>| slot_view(slot))) == 0,
        {
            let ghost before = slots@.map_values(|slot: Option<Slot>| slot_view(slot));
            slots.push(None);
            assert(slots@.map_values(|slot: Option<Slot>| slot_view(slot)).drop_last() =~= before);
        }
        let engine = Engine {
            slots,
            outbox: Vec::new(),
            inflight: 0,
            queued: 0,
            prefilling: None,
            closed: false,
            n_ctx: config.n_ctx,
            info,
        };
        assert(engine@.slots =~= Seq::new(config.spec_slots(), |i: int| None::<SlotView>));
        engine
    }

    pub closed spec fn spec_model_info(&self) -> ModelInfo {
        self.info
    }

    pub fn model_info(&self) -> (info: &ModelInfo)
        ensures
            *info == self.spec_model_info(),
    {
        &self.info
    }

    /// How many slots there are.
    pub fn slot_count(&self) -> (count: usize)
        ensures
            count == self@.slots.len(),
    {
        self.slots.len()
    }

    /// The sequence whose prompt is being ingested.
    pub fn prefilling_seq(&self) -> (seq_id: u32)
        requires
            self@.wf(),
            self@.prefilling is Some,
        ensures
            seq_id == self@.prefilling.unwrap().1,
    {
        self.prefilling.unwrap().1 as u32
    }

    /// How many slots are taken.
    pub fn active(&self) -> (active: usize)
        ensures
            active == books::occupied(self@.slots),
    {
        let mut active: usize = 0;
        for i in 0..self.slots.len()
            invariant
                active <= i,
                active == books::occupied(self@.slots.take(i as int)),
        {
            if self.slots[i].is_some() {
                active = active + 1;
            }
            assert(self@.slots.take(i + 1).drop_last() =~= self@.slots.take(i as int));
        }
        assert(self@.slots.take(self.slots@.len() as int) =~= self@.slots);
        active
    }

    /// Slot occupancy. `inflight` counts everything submitted and not yet
    /// finished, so a request waiting behind another shows up as occupancy
    /// rather than as free capacity.
    pub fn capacity(&self) -> (capacity: Capacity)
        ensures
            capacity.inflight == self@.inflight,
            capacity.max_inflight == self@.slots.len(),
            capacity.available_slots == if self@.inflight < self@.slots.len() {
                self@.slots.len() - self@.inflight
            } else {
                0
            },
            capacity.decoding == books::occupied(self@.slots),
    {
        let max_inflight = self.slot_count();
        Capacity {
            inflight: self.inflight,
            max_inflight,
            available_slots: max_inflight.saturating_sub(self.inflight),
            decoding: self.active(),
        }
    }

    /// Whether no more requests will come.
    pub fn is_closed(&self) -> (closed: bool)
        ensures
            closed == self@.closed,
    {
        self.closed
    }

    /// How many requests were submitted and not yet claimed.
    pub fn waiting(&self) -> (waiting: usize)
        ensures
            waiting == self@.queued,
    {
        self.queued
    }

    /// Count a request in, if the queue took it. One that is closed takes none.
    ///
    /// A full queue is the engine's own backpressure and is deliberately
    /// independent of any transport's.
    pub fn submit(&mut self, outcome: Enqueue) -> (result: Result<(), SubmitError>)
        requires
            old(self)@.wf(),
            old(self)@.inflight < usize::MAX,
            outcome == Enqueue::Accepted ==> !old(self)@.closed,
        ensures
            final(self)@.wf(),
            final(self).spec_model_info() == old(self).spec_model_info(),
            outcome == Enqueue::Accepted ==> result == Ok::<(), SubmitError>(()) && final(self)@ == (
            EngineView {
                inflight: old(self)@.inflight + 1,
                queued: old(self)@.queued + 1,
                ..old(self)@
            }),
            outcome == Enqueue::Full ==> result == Err::<(), SubmitError>(SubmitError::QueueFull)
                && final(self)@ == old(self)@,
            outcome == Enqueue::Closed ==> result == Err::<(), SubmitError>(SubmitError::ShutDown)
                && final(self)@ == old(self)@,
    {
        match outcome {
            Enqueue::Accepted => {
                self.inflight = self.inflight + 1;
                self.queued = self.queued + 1;
                Ok(())
            },
            Enqueue::Full => Err(SubmitError::QueueFull),
            Enqueue::Closed => Err(SubmitError::ShutDown),
        }
    }
}

impl Engine {
    /// Give back a slot's sequence and tell its caller why.
    ///
    /// The sequence and the count are released before the terminal event goes
    /// out, so a caller that reads the capacity on seeing it never sees a slot
    /// that is finished but still counted.
    fn retire(&mut self, index: usize, stop: Stop, now_us: i64) -> (freed: Option<u32>)
        requires
            old(self)@.slots[index as int] is Some ==> old(self)@.inflight >= 1,
            index < old(self)@.slots.len(),
        ensures
            final(self)@ == old(self)@.retired(index as int, stop, now_us),
            final(self).spec_model_info() == old(self).spec_model_info(),
            freed == match old(self)@.slots[index as int] {
                Some(slot) => Some(slot.seq_id),
                None => None,
            },
    {
        let taken = self.slots[index].take();
        match taken {
            Some(slot) => {
                assert(old(self)@.slots[index as int] == slot_view(Some(slot)));
                let elapsed_ms = slot.elapsed_ms(now_us);
                let job: u64 = slot.job;
                let seq_id: u32 = slot.seq_id;
                let done = Event::Done {
                    stop,
                    prompt_tokens: slot.prompt_tokens,
                    tokens: slot.n_decoded,
                    elapsed_ms,
                };
                self.inflight = self.inflight - 1;
                if let Some(pending) = slot.pending {
                    self.outbox.push((job, pending));
                }
                self.outbox.push((job, done));
                assert(self@.slots =~= old(self)@.slots.update(index as int, None));
                assert(self@.outbox =~= old(self)@.retired(index as int, stop, now_us).outbox);
                Some(seq_id)
            },
            None => {
                assert(self@.slots =~= old(self)@.slots);
                None
            },
        }
    }

    /// Give back the slot at `index` and report the failure to its caller.
    pub fn fail(&mut self, index: usize, error: String) -> (freed: Option<u32>)
        requires
            old(self)@.wf(),
            index < old(self)@.slots.len(),
        ensures
            final(self)@.wf(),
            final(self)@ == old(self)@.failed(index as int, error@),
            final(self).spec_model_info() == old(self).spec_model_info(),
            freed == match old(self)@.slots[index as int] {
                Some(slot) => Some(slot.seq_id),
                None => None,
            },
    {
        let taken = self.slots[index].take();
        match taken {
            Some(slot) => {
                proof {
                    assert(old(self)@.slots[index as int] == slot_view(Some(slot)));
                    books::lemma_occupied_counts(old(self)@.slots, index as int);
                    books::lemma_occupied_update(old(self)@.slots, index as int, None);
                }
                self.inflight = self.inflight - 1;
                self.outbox.push((slot.job, Event::Failed(error)));
                assert(self@.slots =~= old(self)@.slots.update(index as int, None));
                assert(self@.outbox =~= old(self)@.failed(index as int, error@).outbox);
                Some(slot.seq_id)
            },
            None => {
                assert(self@.slots =~= old(self)@.slots);
                None
            },
        }
    }
}

impl Engine {
    /// The event the slot at `index` wants delivered, and to whom.
    pub fn pending(&self, index: usize) -> (pending: Option<(u64, &Event)>)
        requires
            index < self@.slots.len(),
        ensures
            match self@.slots[index as int] {
                Some(slot) => match slot.pending {
                    Some(event) => pending matches Some((job, offered)) && job == slot.job
                        && offered@ == event,
                    None => pending is None,
                },
                None => pending is None,
            },
    {
        match &self.slots[index] {
            Some(slot) => match &slot.pending {
                Some(event) => Some((slot.job, event)),
                None => None,
            },
            None => None,
        }
    }

    /// The generation the slot at `index` works for.
    pub fn job_at(&self, index: usize) -> (job: Option<u64>)
        requires
            index < self@.slots.len(),
        ensures
            job == match self@.slots[index as int] {
                Some(slot) => Some(slot.job),
                None => None,
            },
    {
        match &self.slots[index] {
            Some(slot) => Some(slot.job),
            None => None,
        }
    }

    /// Settle the pending event of the slot at `index`, and give the slot back
    /// if its caller has stopped reading.
    pub fn flush(
        &mut self,
        index: usize,
        outcome: SendOutcome,
        now_ns: u64,
        now_us: i64,
    ) -> (freed: Option<u32>)
        requires
            old(self)@.wf(),
            index < old(self)@.slots.len(),
        ensures
            final(self)@.wf(),
            final(self)@ == old(self)@.flushed(index as int, outcome, now_ns, now_us),
            final(self).spec_model_info() == old(self).spec_model_info(),
            freed == match old(self)@.slots[index as int] {
                Some(slot) => if slot.flush_verdict(outcome, now_ns) == Flush::Abandoned {
                    Some(slot.seq_id)
                } else {
                    None
                },
                None => None,
            },
    {
        let taken = self.slots[index].take();
        match taken {
            Some(mut slot) => {
                let ghost before = slot@;
                assert(old(self)@.slots[index as int] == Some(before));
                let verdict = slot.flush(outcome, now_ns);
                self.slots[index] = Some(slot);
                assert(self@.slots =~= old(self)@.slots.update(
                    index as int,
                    Some(before.flushed(outcome, now_ns)),
                ));
                proof {
                    books::lemma_replaced_wf(old(self)@, index as int, before.flushed(outcome, now_ns));
                }
                if verdict == Flush::Abandoned {
                    proof {
                        books::lemma_retired_wf(self@, index as int, Stop::Cancelled, now_us);
                    }
                    self.retire(index, Stop::Cancelled, now_us)
                } else {
                    None
                }
            },
            None => {
                assert(self@.slots =~= old(self)@.slots);
                None
            },
        }
    }

    /// Take in the token sampled for the slot at `index`: its piece goes to
    /// the caller, and the slot is given back when the model is done, when the
    /// budget is used up, or when the token cannot be rendered.
    pub fn sampled(&mut self, index: usize, sampled: Sampled, now_us: i64) -> (freed: Option<u32>)
        requires
            old(self)@.wf(),
            index < old(self)@.slots.len(),
            old(self)@.slots[index as int] matches Some(slot) ==> slot.pending is None,
            sampled matches Sampled::Token { token, bytes } ==> bytes@.len() <= usize::MAX / 8,
        ensures
            final(self)@.wf(),
            final(self)@ == old(self)@.after_sample(index as int, sampled, now_us),
            old(self)@.renders(Move::Sampled { index: index as int, sampled, now_us }),
            final(self).spec_model_info() == old(self).spec_model_info(),
            freed == match (
                old(self)@.slots[index as int],
                final(self)@.slots[index as int],
            ) {
                (Some(slot), None) => Some(slot.seq_id),
                _ => None,
            },
    {
        match sampled {
            Sampled::EndOfGeneration => {
                proof {
                    if self@.slots[index as int] is Some {
                        books::lemma_retired_wf(self@, index as int, Stop::EndOfGeneration, now_us);
                    }
                }
                self.retire(index, Stop::EndOfGeneration, now_us)
            },
            Sampled::Unprintable { error } => self.fail(index, error),
            Sampled::Token { token, bytes } => {
                let taken = self.slots[index].take();
                match taken {
                    Some(mut slot) => {
                        let ghost before = slot@;
                        assert(old(self)@.slots[index as int] == Some(before));
                        slot.extend(token, &bytes);
                        let ghost next = slot@;
                        let spent = slot.n_decoded >= slot.budget;
                        let stop = if slot.context_bound {
                            Stop::ContextFull
                        } else {
                            Stop::Limit
                        };
                        self.slots[index] = Some(slot);
                        assert(self@.slots =~= old(self)@.slots.update(index as int, Some(next)));
                        proof {
                            books::lemma_replaced_wf(old(self)@, index as int, next);
                        }
                        if spent {
                            proof {
                                books::lemma_retired_wf(self@, index as int, stop, now_us);
                            }
                            self.retire(index, stop, now_us)
                        } else {
                            None
                        }
                    },
                    None => {
                        assert(self@.slots =~= old(self)@.slots);
                        None
                    },
                }
            },
        }
    }

    /// A decode that failed. The batch is shared, so the failure belongs to
    /// every slot in it: none of them can be trusted to continue.
    pub fn decode_failed(&mut self, rows: &Vec<usize>, error: &str) -> (freed: Vec<u32>)
        requires
            old(self)@.wf(),
            forall|i: int| 0 <= i < rows@.len() ==> #[trigger] rows@[i] < old(self)@.slots.len(),
        ensures
            final(self)@.wf(),
            final(self)@ == old(self)@.all_failed(rows@, error@),
            final(self).spec_model_info() == old(self).spec_model_info(),
            forall|seq_id: u32| #[trigger]
                freed@.contains(seq_id) <==> exists|i: int|
                    0 <= i < old(self)@.slots.len() && (#[trigger] old(self)@.slots[i] matches Some(
                        slot,
                    ) && slot.seq_id == seq_id) && final(self)@.slots[i] is None,
    {
        let mut freed: Vec<u32> = Vec::new();
        let ghost count = self@.slots.len();
        for i in 0..rows.len()
            invariant
                self@.wf(),
                self@.slots.len() == count == old(self)@.slots.len(),
                self@ == old(self)@.all_failed(rows@.take(i as int), error@),
                self.spec_model_info() == old(self).spec_model_info(),
                old(self)@.wf(),
                forall|i: int| 0 <= i < rows@.len() ==> #[trigger] rows@[i] < count,
                self@.n_ctx == old(self)@.n_ctx,
                forall|j: int|
                    0 <= j < count ==> #[trigger] self@.slots[j] is None || self@.slots[j]
                        == old(self)@.slots[j],
                forall|j: int|
                    0 <= j < count && old(self)@.slots[j] is Some && #[trigger] self@.slots[j] is None
                        ==> freed@.contains(j as u32),
                forall|k: int|
                    0 <= k < freed@.len() ==> #[trigger] freed@[k] < count
                        && old(self)@.slots[freed@[k] as int] is Some
                        && self@.slots[freed@[k] as int] is None,
        {
            let ghost earlier = self@;
            let ghost given = freed@;
            let row: usize = rows[i];
            assert(rows@.take(i + 1).drop_last() =~= rows@.take(i as int));
            match self.fail(row, error.to_owned()) {
                Some(seq_id) => {
                    freed.push(seq_id);
                    assert(freed@.last() == seq_id);
                    assert(seq_id == row);
                },
                None => {},
            }
            assert forall|j: int|
                0 <= j < count && old(self)@.slots[j] is Some && #[trigger] self@.slots[j] is None
                implies freed@.contains(j as u32) by {
                if earlier.slots[j] is None {
                    assert(given.contains(j as u32));
                    let k = choose|k: int| 0 <= k < given.len() && given[k] == j as u32;
                    assert(freed@[k] == j as u32);
                } else {
                    assert(j == row);
                }
            }
        }
        assert(rows@.take(rows@.len() as int) =~= rows@);
        assert forall|seq_id: u32| #[trigger]
            freed@.contains(seq_id) <==> exists|i: int|
                0 <= i < old(self)@.slots.len() && (#[trigger] old(self)@.slots[i] matches Some(
                    slot,
                ) && slot.seq_id == seq_id) && self@.slots[i] is None by {
            if freed@.contains(seq_id) {
                let k = choose|k: int| 0 <= k < freed@.len() && freed@[k] == seq_id;
                assert(old(self)@.slots[freed@[k] as int] is Some);
            }
        }
        freed
    }
}

impl Engine {
    /// Whether there is a free slot, and how to wait for work to fill it.
    ///
    /// Waiting is for when there is nothing else to do: with work in flight a
    /// request that has not arrived yet must not delay the ones that have.
    pub fn admission(&self) -> (admission: Admission)
        ensures
            admission == if books::first_free(self@.slots) is None {
                Admission::Full
            } else if books::occupied(self@.slots) == 0 && self@.outbox.len() == 0 {
                Admission::Wait
            } else {
                Admission::Poll
            },
            admission == Admission::Full <==> forall|i: int|
                0 <= i < self@.slots.len() ==> #[trigger] self@.slots[i] is Some,
            admission == Admission::Wait <==> self@.slots.len() > 0 && self@.outbox.len() == 0
                && forall|i: int| 0 <= i < self@.slots.len() ==> #[trigger] self@.slots[i] is None,
    {
        proof {
            laws::the_first_free_slot_is_found(self@.slots);
            laws::taken_slots_are_counted(self@.slots, arbitrary());
        }
        match self.free_slot() {
            None => Admission::Full,
            Some(_) => if self.active() == 0 && self.outbox.len() == 0 {
                Admission::Wait
            } else {
                Admission::Poll
            },
        }
    }

    /// The first slot that is free.
    fn free_slot(&self) -> (free: Option<usize>)
        ensures
            match free {
                Some(index) => books::first_free(self@.slots) == Some(index as int) && index
                    < self@.slots.len() && self@.slots[index as int] is None,
                None => books::first_free(self@.slots) is None,
            },
    {
        for i in 0..self.slots.len()
            invariant
                books::first_free(self@.slots.take(i as int)) is None,
        {
            assert(self@.slots.take(i + 1).drop_last() =~= self@.slots.take(i as int));
            if self.slots[i].is_none() {
                proof {
                    assert(books::first_free(self@.slots.take(i + 1)) == Some(i as int));
                    books::lemma_first_free_is_stable(self@.slots, i + 1);
                }
                return Some(i);
            }
        }
        assert(self@.slots.take(self.slots@.len() as int) =~= self@.slots);
        None
    }

    /// Deal with what the queue gave. A request cancelled while it was queued
    /// is answered here and never touches the model.
    pub fn arrive(&mut self, arrival: Arrival) -> (next: Admit)
        requires
            old(self)@.wf(),
            old(self)@.prefilling is None,
            books::first_free(old(self)@.slots) is Some,
            arrival is Job ==> old(self)@.queued >= 1,
            arrival is Disconnected ==> old(self)@.queued == 0,
        ensures
            final(self)@.wf(),
            final(self)@ == old(self)@.after_arrival(arrival),
            final(self).spec_model_info() == old(self).spec_model_info(),
            next == match arrival {
                Arrival::Job { job, cancelled } => if cancelled {
                    Admit::Next
                } else {
                    Admit::Prefill { seq_id: books::first_free(old(self)@.slots).unwrap() as u32 }
                },
                _ => Admit::Leave,
            },
            next matches Admit::Prefill { seq_id } ==> {
                &&& arrival matches Arrival::Job { cancelled, .. } && !cancelled
                &&& seq_id < old(self)@.slots.len()
                &&& old(self)@.slots[seq_id as int] is None
                &&& forall|j: int| 0 <= j < seq_id ==> #[trigger] old(self)@.slots[j] is Some
            },
    {
        proof {
            laws::the_first_free_slot_is_found(self@.slots);
        }
        match arrival {
            Arrival::Job { job, cancelled } => {
                if cancelled {
                    self.queued = self.queued - 1;
                    self.inflight = self.inflight - 1;
                    self.outbox.push(
                        (
                            job,
                            Event::Done {
                                stop: Stop::Cancelled,
                                prompt_tokens: 0,
                                tokens: 0,
                                elapsed_ms: 0,
                            },
                        ),
                    );
                    assert(self@.outbox =~= old(self)@.after_arrival(arrival).outbox);
                    Admit::Next
                } else {
                    match self.free_slot() {
                        Some(index) => {
                            self.queued = self.queued - 1;
                            self.prefilling = Some((job, index));
                            Admit::Prefill { seq_id: index as u32 }
                        },
                        None => Admit::Leave,
                    }
                }
            },
            Arrival::Empty => Admit::Leave,
            Arrival::Disconnected => {
                self.closed = true;
                Admit::Leave
            },
        }
    }

    /// Answer the request whose prompt was being ingested without giving it a
    /// slot.
    fn answer(&mut self, event: Event) -> (freed: u32)
        requires
            old(self)@.wf(),
            old(self)@.prefilling is Some,
        ensures
            final(self)@.wf(),
            final(self)@ == old(self)@.answered(event@),
            final(self).spec_model_info() == old(self).spec_model_info(),
            freed == old(self)@.prefilling.unwrap().1,
    {
        let (job, index) = self.prefilling.unwrap();
        self.prefilling = None;
        self.inflight = self.inflight - 1;
        self.outbox.push((job, event));
        assert(self@.outbox =~= old(self)@.answered(event@).outbox);
        index as u32
    }

    /// Answer the request whose prompt was being ingested with its only piece,
    /// without giving it a slot.
    fn conclude(&mut self, piece: Event, last: Event) -> (freed: u32)
        requires
            old(self)@.wf(),
            old(self)@.prefilling is Some,
        ensures
            final(self)@.wf(),
            final(self)@ == old(self)@.concluded(piece@, last@),
            final(self).spec_model_info() == old(self).spec_model_info(),
            freed == old(self)@.prefilling.unwrap().1,
    {
        let (job, index) = self.prefilling.unwrap();
        self.prefilling = None;
        self.inflight = self.inflight - 1;
        self.outbox.push((job, piece));
        self.outbox.push((job, last));
        assert(self@.outbox =~= old(self)@.concluded(piece@, last@).outbox);
        index as u32
    }

    /// Take in what ingesting a prompt produced: a running slot, an answer
    /// already, or a failure. The sequence comes back unless a slot took it.
    pub fn prefilled(&mut self, outcome: Result<Prefilled, String>, now_us: i64) -> (freed: Option<
        u32,
    >)
        requires
            old(self)@.wf(),
            old(self)@.prefilling is Some,
            outcome matches Ok(prefilled) ==> prefilled.prompt_tokens < old(self)@.n_ctx,
            outcome matches Ok(prefilled) ==> (prefilled.first matches Sampled::Token {
                token,
                bytes,
            } ==> bytes@.len() <= usize::MAX / 8),
        ensures
            final(self)@.wf(),
            final(self)@ == match outcome {
                Ok(prefilled) => old(self)@.after_prefill(prefilled, now_us),
                Err(error) => old(self)@.answered(EventView::Failed(error@)),
            },
            outcome matches Ok(prefilled) ==> old(self)@.renders(
                Move::Prefilled { prefilled, now_us },
            ),
            final(self).spec_model_info() == old(self).spec_model_info(),
            freed == if final(self)@.slots == old(self)@.slots {
                Some(old(self)@.prefilling.unwrap().1 as u32)
            } else {
                None
            },
    {
        match outcome {
            Err(error) => Some(self.answer(Event::Failed(error))),
            Ok(prefilled) => {
                let (job, index) = self.prefilling.unwrap();
                let room: u32 = self.n_ctx - prefilled.prompt_tokens;
                let prompt_tokens: u32 = prefilled.prompt_tokens;
                let max_tokens: i32 = prefilled.max_tokens;
                let elapsed_ms: u64 = prefilled.elapsed_ms;
                assert(slot::budget_for(max_tokens, room) == 0 <==> max_tokens <= 0);
                assert(slot::budget_for(max_tokens, room) == 1 <==> max_tokens == 1 || (room == 1
                    && max_tokens >= 1));
                match prefilled.first {
                    Sampled::EndOfGeneration => {
                        let done = Event::Done {
                            stop: Stop::EndOfGeneration,
                            prompt_tokens,
                            tokens: 0,
                            elapsed_ms,
                        };
                        Some(self.answer(done))
                    },
                    Sampled::Unprintable { error } => {
                        if max_tokens <= 0 {
                            let done = Event::Done {
                                stop: Stop::Limit,
                                prompt_tokens,
                                tokens: 0,
                                elapsed_ms,
                            };
                            Some(self.answer(done))
                        } else {
                            Some(self.answer(Event::Failed(error)))
                        }
                    },
                    Sampled::Token { token, bytes } => {
                        if max_tokens <= 0 {
                            let done = Event::Done {
                                stop: Stop::Limit,
                                prompt_tokens,
                                tokens: 0,
                                elapsed_ms,
                            };
                            return Some(self.answer(done));
                        }
                        if max_tokens == 1 || room == 1 {
                            let mut decoder = PieceDecoder::new();
                            let piece = decoder.push(bytes.as_slice());
                            let stop = if max_tokens == 1 {
                                Stop::Limit
                            } else {
                                Stop::ContextFull
                            };
                            let done = Event::Done { stop, prompt_tokens, tokens: 1, elapsed_ms };
                            return Some(self.conclude(Event::Token(piece), done));
                        }
                        let slot = Slot::open(
                            job,
                            index as u32,
                            prompt_tokens,
                            max_tokens,
                            self.n_ctx,
                            token,
                            &bytes,
                            now_us,
                        );
                        let ghost opened = slot@;
                        self.prefilling = None;
                        self.slots[index] = Some(slot);
                        proof {
                            assert(self@.slots =~= old(self)@.slots.update(
                                index as int,
                                Some(opened),
                            ));
                            books::lemma_occupied_update(old(self)@.slots, index as int, Some(opened));
                            assert(self@.slots[index as int] is Some);
                        }
                        None
                    },
                }
            },
        }
    }

    /// Whether the engine has nothing left to do and nothing to wait for.
    pub fn finished(&self) -> (finished: bool)
        ensures
            finished == self@.finished(),
    {
        self.closed && self.active() == 0 && self.outbox.len() == 0
    }

    /// How many events are waiting in the outbox.
    pub fn outbox_len(&self) -> (len: usize)
        ensures
            len == self@.outbox.len(),
    {
        self.outbox.len()
    }

    /// The event at `index` of the outbox, and to whom it goes.
    pub fn outbox_entry(&self, index: usize) -> (entry: (u64, &Event))
        requires
            index < self@.outbox.len(),
        ensures
            entry.0 == self@.outbox[index as int].0,
            entry.1@ == self@.outbox[index as int].1,
    {
        let entry = &self.outbox[index];
        (entry.0, &entry.1)
    }

    /// Settle the outbox, once its entries have been offered. Only what met a
    /// full channel stays, so a caller that stopped reading delays its own last
    /// message and nothing else. An entry behind one of the same caller's that
    /// stays has to stay as well.
    pub fn sweep(&mut self, outcomes: &Vec<SendOutcome>)
        requires
            old(self)@.wf(),
            outcomes@.len() == old(self)@.outbox.len(),
            books::in_order(old(self)@.outbox, outcomes@),
        ensures
            final(self)@.wf(),
            final(self).spec_model_info() == old(self).spec_model_info(),
            final(self)@ == (EngineView {
                outbox: books::undelivered(old(self)@.outbox, outcomes@),
                ..old(self)@
            }),
    {
        let count = self.outbox.len();
        let mut at: usize = 0;
        assert(self@.outbox =~= books::undelivered(old(self)@.outbox.take(0), outcomes@)
            + old(self)@.outbox.skip(0));
        for i in 0..count
            invariant
                count == outcomes@.len() == old(self)@.outbox.len(),
                at <= i,
                at == books::undelivered(old(self)@.outbox.take(i as int), outcomes@).len(),
                self@ == (EngineView {
                    outbox: books::undelivered(old(self)@.outbox.take(i as int), outcomes@)
                        + old(self)@.outbox.skip(i as int),
                    ..old(self)@
                }),
                self.spec_model_info() == old(self).spec_model_info(),
        {
            let ghost offered = old(self)@.outbox;
            let ghost kept = books::undelivered(offered.take(i as int), outcomes@);
            assert(offered.take(i + 1).drop_last() =~= offered.take(i as int));
            assert(self@.outbox[at as int] == offered[i as int]);
            if outcomes[i] == SendOutcome::Full {
                at = at + 1;
                assert(self@.outbox =~= kept.push(offered[i as int]) + offered.skip(i + 1));
            } else {
                let ghost before = self@.outbox;
                assert(self.outbox@.len() == before.len() == kept.len() + offered.len() - i);
                self.outbox.remove(at);
                assert(self@.outbox =~= before.remove(at as int));
                assert(self@.outbox =~= kept + offered.skip(i + 1));
            }
        }
        assert(old(self)@.outbox.take(count as int) =~= old(self)@.outbox);
        assert(self@.outbox =~= books::undelivered(old(self)@.outbox, outcomes@));
    }

    /// Begin a decode step: give back the slots of cancelled callers, and
    /// collect one row from every slot that is ready. A slot whose caller has
    /// not taken its last piece waits on the caller, not on the model, and
    /// stays out.
    pub fn begin_step(&mut self, cancelled: &Vec<bool>, now_us: i64) -> (plan: StepPlan)
        requires
            old(self)@.wf(),
            cancelled@.len() == old(self)@.slots.len(),
        ensures
            final(self)@.wf(),
            final(self)@ == old(self)@.without_cancelled(cancelled@, now_us),
            final(self).spec_model_info() == old(self).spec_model_info(),
            plan.rows@ == books::ready_rows(old(self)@.slots, cancelled@, old(self)@.slots.len()),
            plan.freed@ == books::cancelled_seqs(old(self)@.slots, cancelled@, old(self)@.slots.len()),
            forall|k: int|
                0 <= k < plan.rows@.len() ==> (#[trigger] plan.rows@[k]).position
                    < old(self)@.n_ctx && plan.rows@[k].index < old(self)@.slots.len(),
            forall|k: int|
                0 <= k < plan.rows@.len() ==> feeding::is_next(
                    old(self)@.slots,
                    #[trigger] plan.rows@[k],
                ),
            forall|i: int|
                0 <= i < old(self)@.slots.len() ==> (laws::has_row(plan.rows@, i) <==> !cancelled@[i]
                    && (#[trigger] old(self)@.slots[i] matches Some(slot) && slot.pending is None)),
    {
        let ghost s = self@;
        let count = self.slots.len();
        let mut rows: Vec<Row> = Vec::new();
        let mut freed: Vec<u32> = Vec::new();
        for i in 0..count
            invariant
                s == old(self)@,
                s.wf(),
                count == s.slots.len() == cancelled@.len(),
                self@.wf(),
                self@.slots.len() == count,
                self.spec_model_info() == old(self).spec_model_info(),
                self@ == (EngineView {
                    slots: self@.slots,
                    inflight: (s.inflight - freed@.len()) as nat,
                    outbox: s.outbox + books::cancellations(s.slots, cancelled@, now_us, i as nat),
                    ..s
                }),
                freed@.len() + self@.inflight == s.inflight,
                forall|j: int|
                    0 <= j < count ==> #[trigger] self@.slots[j] == if j < i && cancelled@[j] {
                        None
                    } else {
                        s.slots[j]
                    },
                rows@ == books::ready_rows(s.slots, cancelled@, i as nat),
                freed@ == books::cancelled_seqs(s.slots, cancelled@, i as nat),
                forall|k: int|
                    0 <= k < rows@.len() ==> (#[trigger] rows@[k]).position < s.n_ctx
                        && rows@[k].index < count,
        {
            let row = match &self.slots[i] {
                Some(slot) => if cancelled[i] || slot.pending.is_some() {
                    None
                } else {
                    Some(
                        Row {
                            index: i,
                            token: slot.next_input,
                            position: slot.n_cur,
                            seq_id: slot.seq_id,
                        },
                    )
                },
                None => None,
            };
            assert(self@.slots[i as int] == s.slots[i as int]);
            assert(self.slots@[i as int] matches Some(slot) ==> s.slots[i as int] == Some(slot@));
            if cancelled[i] {
                let ghost before = self@;
                proof {
                    if before.slots[i as int] is Some {
                        books::lemma_retired_wf(before, i as int, Stop::Cancelled, now_us);
                    }
                }
                match self.retire(i, Stop::Cancelled, now_us) {
                    Some(seq_id) => {
                        freed.push(seq_id);
                    },
                    None => {},
                }
                assert(self@.outbox =~= s.outbox + books::cancellations(
                    s.slots,
                    cancelled@,
                    now_us,
                    (i + 1) as nat,
                ));
            }
            match row {
                Some(row) => {
                    rows.push(row);
                },
                None => {},
            }
        }
        assert(self@.slots =~= s.without_cancelled(cancelled@, now_us).slots);
        proof {
            assert forall|k: int| 0 <= k < rows@.len() implies feeding::is_next(
                s.slots,
                #[trigger] rows@[k],
            ) by {
                feeding::rows_feed_what_comes_next(s, cancelled@, s.slots.len(), k);
            }
            assert forall|i: int| 0 <= i < s.slots.len() implies (laws::has_row(rows@, i)
                <==> !cancelled@[i] && (#[trigger] s.slots[i] matches Some(slot) && slot.pending is None)) by {
                laws::a_slow_reader_holds_up_nobody_else(s.slots, cancelled@, s.slots.len(), i);
            }
        }
        StepPlan { rows, freed }
    }
}

} // verus!
