//! The order of a turn: what the loop does next, and that it passes nobody over.

use vstd::prelude::*;

use crate::engine::books;
use crate::engine::books::{Arrival, EngineView, Prefilled};
use crate::engine::event::EventView;
use crate::engine::laws;
use crate::engine::runtime;
use crate::engine::runtime::{PhaseView, Report, RuntimeView, Task};
use crate::engine::slot::{Sampled, SendOutcome, SlotView};

verus! {

/// Whether the slot at `i` has a piece that its caller has not taken yet.
pub open spec fn has_piece(slots: Seq<Option<SlotView>>, i: int) -> bool {
    slots[i] matches Some(slot) && slot.pending is Some
}

/// Whether no slot from `from` up to `to` has a piece to offer.
pub open spec fn none_has_a_piece(slots: Seq<Option<SlotView>>, from: int, to: int) -> bool {
    forall|i: int| from <= i < to ==> !has_piece(slots, i)
}

/// Whether some slot is free.
pub open spec fn some_free(slots: Seq<Option<SlotView>>) -> bool {
    exists|i: int| 0 <= i < slots.len() && #[trigger] slots[i] is None
}

/// The loop waits for a request only where there is nothing else to do: no slot
/// is taken and nothing is on its way to a caller. With work in hand it only looks
/// whether one is there.
pub proof fn the_loop_waits_only_when_idle(d: RuntimeView)
    requires
        d.wf(),
    ensures
        d.task() == Task::Wait ==> d.engine.outbox.len() == 0 && forall|i: int|
            0 <= i < d.engine.slots.len() ==> #[trigger] d.engine.slots[i] is None,
        d.task() == Task::Poll ==> d.engine.outbox.len() > 0 || exists|i: int|
            0 <= i < d.engine.slots.len() && #[trigger] d.engine.slots[i] is Some,
        d.task() == Task::Wait || d.task() == Task::Poll ==> d.phase is Admit && some_free(
            d.engine.slots,
        ),
        d.phase is Admit ==> d.task() == Task::Wait || d.task() == Task::Poll,
{
    laws::taken_slots_are_counted(d.engine.slots, arbitrary());
    laws::the_first_free_slot_is_found(d.engine.slots);
    if d.phase is Admit {
        let index = books::first_free(d.engine.slots).unwrap();
        assert(d.engine.slots[index] is None);
    }
}

proof fn lemma_next_piece(slots: Seq<Option<SlotView>>, from: int)
    requires
        0 <= from <= slots.len(),
    ensures
        from <= runtime::next_pending(slots, from) <= slots.len(),
        none_has_a_piece(slots, from, runtime::next_pending(slots, from)),
        runtime::next_pending(slots, from) < slots.len() ==> has_piece(
            slots,
            runtime::next_pending(slots, from),
        ),
    decreases slots.len() - from,
{
    if from < slots.len() && !has_piece(slots, from) {
        lemma_next_piece(slots, from + 1);
    }
}

/// What comes after the slots before `from` have been offered their pieces: the
/// next slot that has one is offered it, and only where no slot has one are free
/// slots filled.
proof fn lemma_offering(engine: EngineView, from: int)
    requires
        engine.wf(),
        0 <= from <= engine.slots.len(),
    ensures
        match runtime::offering(engine, from) {
            PhaseView::Offer { index } => {
                &&& from <= index < engine.slots.len()
                &&& has_piece(engine.slots, index)
                &&& none_has_a_piece(engine.slots, from, index)
            },
            PhaseView::Admit => {
                &&& none_has_a_piece(engine.slots, from, engine.slots.len() as int)
                &&& some_free(engine.slots)
            },
            PhaseView::Survey => {
                &&& none_has_a_piece(engine.slots, from, engine.slots.len() as int)
                &&& !some_free(engine.slots)
            },
            PhaseView::Stop => {
                &&& none_has_a_piece(engine.slots, from, engine.slots.len() as int)
                &&& !some_free(engine.slots)
            },
            _ => false,
        },
{
    lemma_next_piece(engine.slots, from);
    lemma_filling(engine);
}

proof fn lemma_filling(engine: EngineView)
    requires
        engine.wf(),
    ensures
        runtime::filling(engine) is Admit <==> some_free(engine.slots),
        runtime::filling(engine) is Admit || runtime::filling(engine) is Survey
            || runtime::filling(engine) is Stop,
{
    laws::the_first_free_slot_is_found(engine.slots);
    if books::first_free(engine.slots) is Some {
        let index = books::first_free(engine.slots).unwrap();
        assert(engine.slots[index] is None);
    }
}

/// A turn begins with what is waiting in the outbox, if anything is. Behind that,
/// every slot that has a piece is offered it, in the order of the slots and
/// without passing one over, before any free slot is filled.
pub proof fn no_piece_is_passed_over(d: RuntimeView, report: Report)
    requires
        d.wf(),
        d.accepts(report),
    ensures
        ({
            let r = d.reported(report);
            let slots = r.engine.slots;
            let n = slots.len() as int;
            &&& d.phase is Rest || d.phase is Sample || (d.phase is Decode && (report matches Report::Decoded(
                outcome,
            ) && outcome is Err)) ==> {
                ||| r.phase is Sample
                ||| r.phase is Deliver && r.engine.outbox.len() > 0
                ||| r.engine.outbox.len() == 0 && (r.phase matches PhaseView::Offer { index }
                    && has_piece(slots, index) && none_has_a_piece(slots, 0, index))
                ||| r.engine.outbox.len() == 0 && !(r.phase is Offer) && none_has_a_piece(
                    slots,
                    0,
                    n,
                )
            }
            &&& d.phase is Deliver ==> {
                ||| r.phase is Deliver
                ||| r.phase matches PhaseView::Offer { index } && has_piece(slots, index)
                    && none_has_a_piece(slots, 0, index)
                ||| !(r.phase is Offer) && none_has_a_piece(slots, 0, n)
            }
            &&& d.phase matches PhaseView::Offer { index: at } ==> {
                ||| r.phase matches PhaseView::Offer { index } && index > at && has_piece(
                    slots,
                    index,
                ) && none_has_a_piece(slots, at + 1, index)
                ||| !(r.phase is Offer) && none_has_a_piece(slots, at + 1, n)
            }
            &&& d.phase is Deliver || d.phase is Offer ==> r.phase is Deliver || r.phase is Offer
                || (r.phase is Admit <==> some_free(slots))
        }),
{
    runtime::the_loop_only_makes_moves(d, report);
    let r = d.reported(report);
    lemma_offering(r.engine, 0);
    if let PhaseView::Offer { index } = d.phase {
        lemma_offering(r.engine, index + 1);
    }
}

/// A free slot is filled as long as there is a request for it: after a prompt has
/// been ingested, and after a request that was cancelled in the queue, the loop
/// looks for the next request wherever a slot is free. Once the queue has nothing
/// to give, it goes on to decode, unless it is done for good.
pub proof fn free_slots_are_filled(d: RuntimeView, report: Report)
    requires
        d.wf(),
        d.accepts(report),
    ensures
        ({
            let r = d.reported(report);
            &&& d.phase is Prefill ==> (r.phase is Admit <==> some_free(r.engine.slots))
            &&& (report matches Report::Arrived(Arrival::Job { cancelled, .. }) && cancelled) ==> (
            r.phase is Admit <==> some_free(r.engine.slots))
            &&& (report matches Report::Arrived(Arrival::Job { cancelled, .. }) && !cancelled)
                ==> r.phase is Prefill
            &&& report == Report::Arrived(Arrival::Empty) || report == Report::Arrived(
                Arrival::Disconnected,
            ) ==> r.phase is Survey || r.phase is Stop
            &&& d.phase is Prefill || d.phase is Admit ==> r.phase is Admit || r.phase is Prefill
                || (if r.engine.closed && r.engine.inflight == 0 && r.engine.outbox.len() == 0 {
                r.phase is Stop
            } else {
                r.phase is Survey
            })
        }),
{
    runtime::the_loop_only_makes_moves(d, report);
    let r = d.reported(report);
    lemma_filling(r.engine);
    laws::an_engine_finishes_when_nothing_is_left(r.engine);
}

/// A prompt is ingested into the sequence that was kept for it.
pub proof fn a_prompt_goes_into_its_own_sequence(d: RuntimeView)
    requires
        d.wf(),
    ensures
        d.task() matches Task::Prefill { seq_id } ==> (d.engine.prefilling matches Some((_, index))
            && index == seq_id && d.engine.slots[index] is None),
        d.phase is Prefill <==> d.task() is Prefill,
{
}

proof fn lemma_settled_waits(outbox: Seq<(u64, EventView)>, outcomes: Seq<SendOutcome>)
    requires
        outcomes.len() <= outbox.len(),
    ensures
        ({
            let all = runtime::settled(outbox, outcomes);
            &&& outcomes.len() <= all.len() <= outbox.len()
            &&& forall|i: int| 0 <= i < outcomes.len() ==> #[trigger] all[i] == outcomes[i]
            &&& forall|k: int|
                outcomes.len() <= k < all.len() ==> #[trigger] all[k] == SendOutcome::Full
                    && waits_behind_its_own(outbox, all, k)
            &&& all.len() < outbox.len() ==> !waits_behind_its_own(outbox, all, all.len() as int)
        }),
    decreases outbox.len() - outcomes.len(),
{
    let all = runtime::settled(outbox, outcomes);
    if outcomes.len() < outbox.len() && runtime::refused(
        outbox,
        outcomes,
        outbox[outcomes.len() as int].0,
    ) {
        let n = outcomes.len() as int;
        let more = outcomes.push(SendOutcome::Full);
        lemma_settled_waits(outbox, more);
        let i = choose|i: int|
            0 <= i < outcomes.len() && (#[trigger] outbox[i]).0 == outbox[n].0 && outcomes[i]
                == SendOutcome::Full;
        assert(all[i] == more[i]);
        assert(all[n] == more[n]);
        assert(outbox[i].0 == outbox[n].0);
        assert(waits_behind_its_own(outbox, all, n));
        assert forall|j: int| 0 <= j < outcomes.len() implies #[trigger] all[j] == outcomes[j] by {
            assert(all[j] == more[j]);
        }
    }
}

/// Whether an entry before `k` is for the same caller and has met a full channel.
pub open spec fn waits_behind_its_own(
    outbox: Seq<(u64, EventView)>,
    outcomes: Seq<SendOutcome>,
    k: int,
) -> bool {
    exists|i: int|
        0 <= i < k && (#[trigger] outbox[i]).0 == outbox[k].0 && outcomes[i] == SendOutcome::Full
}

/// Every entry of the outbox is offered in its turn, but for those that have to
/// wait behind one of the same caller's that met a full channel: nobody's entry
/// waits for anybody else's. What is reported of an entry is kept for that entry.
pub proof fn an_entry_waits_only_behind_its_own(d: RuntimeView, outcome: SendOutcome)
    requires
        d.wf(),
        d.phase is Deliver,
    ensures
        ({
            let outbox = d.engine.outbox;
            let offered = d.phase->Deliver_outcomes;
            let all = runtime::settled(outbox, offered.push(outcome));
            let r = d.reported(Report::Delivered(outcome));
            &&& d.task() == (Task::Deliver { index: offered.len() as usize })
            &&& !waits_behind_its_own(outbox, offered, offered.len() as int)
            &&& forall|i: int| 0 <= i < offered.len() ==> #[trigger] all[i] == offered[i]
            &&& all[offered.len() as int] == outcome
            &&& forall|k: int|
                offered.len() < k < all.len() ==> #[trigger] all[k] == SendOutcome::Full
                    && waits_behind_its_own(outbox, all, k)
            &&& if all.len() < outbox.len() {
                r.engine == d.engine && (r.phase matches PhaseView::Deliver { outcomes } && outcomes
                    == all)
            } else {
                !(r.phase is Deliver) && r.engine == d.engine.next(laws::Move::Sweep(all))
            }
        }),
{
    let outbox = d.engine.outbox;
    let offered = d.phase->Deliver_outcomes;
    let with = offered.push(outcome);
    lemma_settled_waits(outbox, with);
    let all = runtime::settled(outbox, with);
    assert(all[offered.len() as int] == with[offered.len() as int]);
    assert forall|i: int| 0 <= i < offered.len() implies #[trigger] all[i] == offered[i] by {
        assert(all[i] == with[i]);
    }
    if waits_behind_its_own(outbox, offered, offered.len() as int) {
        let i = choose|i: int|
            0 <= i < offered.len() && (#[trigger] outbox[i]).0 == outbox[offered.len() as int].0
                && offered[i] == SendOutcome::Full;
        assert(runtime::refused(outbox, offered, outbox[offered.len() as int].0));
    }
}

/// A step goes through its rows one by one, each once. Those that went in are
/// decoded together and sampled one by one, in the order they went in; where none
/// went in, there is nothing to decode, and the loop rests.
pub proof fn a_step_takes_its_rows_in_turn(d: RuntimeView, report: Report)
    requires
        d.wf(),
        d.accepts(report),
    ensures
        ({
            let r = d.reported(report);
            &&& report matches Report::Surveyed { cancelled, .. } ==> {
                let rows = books::ready_rows(d.engine.slots, cancelled@, d.engine.slots.len());
                if rows.len() > 0 {
                    r.task() == (Task::Feed { row: rows[0] })
                } else {
                    r.task() == Task::Rest
                }
            }
            &&& d.phase matches PhaseView::Feed { rows, at, fed } ==> {
                let went_in = report == Report::Fed(Ok(()));
                &&& d.task() == (Task::Feed { row: rows[at] })
                &&& at + 1 < rows.len() ==> r.task() == (Task::Feed { row: rows[at + 1] })
                &&& at + 1 == rows.len() && (went_in || fed.len() > 0) ==> r.task()
                    == Task::Decode
                &&& at + 1 == rows.len() && !went_in && fed.len() == 0 ==> r.task() == Task::Rest
            }
            &&& (d.phase matches PhaseView::Decode { fed } && report == Report::Decoded(Ok(())))
                ==> r.task() == (Task::Sample { index: d.phase->Decode_fed[0], row: 0 })
            &&& d.phase matches PhaseView::Sample { fed, at } ==> {
                &&& d.task() == (Task::Sample { index: fed[at], row: at as usize })
                &&& at + 1 < fed.len() ==> r.task() == (Task::Sample {
                    index: fed[at + 1],
                    row: (at + 1) as usize,
                })
                &&& at + 1 == fed.len() ==> !(r.phase is Sample)
            }
        }),
{
    if let PhaseView::Feed { rows, at, fed } = d.phase {
        if let Report::Fed(outcome) = report {
            if let Ok(unit) = outcome {
                assert(unit == ());
            }
        }
    }
    let r = d.reported(report);
    if let PhaseView::Sample { fed, at } = d.phase {
        assert(!(runtime::turning(r.engine) is Sample));
    }
}

/// A sequence is given back exactly where a slot or a prompt had it before, and
/// none has it after.
pub proof fn a_sequence_comes_back_when_nobody_has_it(
    s: EngineView,
    r: EngineView,
    seq_id: u32,
)
    requires
        s.wf(),
        r.wf(),
        s.slots.len() == r.slots.len(),
        seq_id < s.slots.len(),
    ensures
        runtime::given_back(s, r, seq_id) <==> has_sequence(s, seq_id as int) && !has_sequence(
            r,
            seq_id as int,
        ),
{
}

/// Whether a slot, or a prompt on its way into one, has the sequence `i`.
pub open spec fn has_sequence(s: EngineView, i: int) -> bool {
    s.slots[i] is Some || (s.prefilling matches Some((_, index)) && index == i)
}

/// Whether `r` differs from `s` in no slot but the one at `index`.
pub open spec fn only_changes(s: EngineView, r: EngineView, index: int) -> bool {
    &&& r.slots.len() == s.slots.len()
    &&& forall|j: int| 0 <= j < s.slots.len() && j != index ==> #[trigger] r.slots[j] == s.slots[j]
    &&& s.outbox.is_prefix_of(r.outbox)
}

/// What is reported of an offer settles the piece that was offered: once it is
/// taken it is no longer pending, a caller without room keeps it waiting or is
/// given up, and one who is gone loses its slot. No other slot is touched.
pub proof fn an_offer_settles_its_own_piece(
    d: RuntimeView,
    outcome: SendOutcome,
    now_ns: u64,
    now_us: i64,
)
    requires
        d.wf(),
        d.phase is Offer,
    ensures
        ({
            let r = d.reported(Report::Offered { outcome, now_ns, now_us });
            let index = d.phase->Offer_index;
            &&& d.task() == (Task::Offer { index: index as usize })
            &&& 0 <= index < d.engine.slots.len() <= u32::MAX
            &&& only_changes(d.engine, r.engine, index)
            &&& d.engine.slots[index] matches Some(slot) ==> {
                &&& outcome == SendOutcome::Sent ==> (r.engine.slots[index] matches Some(next)
                    && next.pending is None && next.job == slot.job && next.n_decoded
                    == slot.n_decoded && r.engine.outbox == d.engine.outbox)
                &&& outcome == SendOutcome::Full ==> r.engine.slots[index] is None || (
                r.engine.slots[index] matches Some(next) && next.pending == slot.pending
                    && next.job == slot.job)
                &&& outcome == SendOutcome::Closed && slot.pending is Some
                    ==> r.engine.slots[index] is None
            }
        }),
{
    runtime::the_loop_only_makes_moves(d, Report::Offered { outcome, now_ns, now_us });
}

/// What is reported of a sample goes to the slot that was sampled, and to no
/// other: a token is taken in, or ends the generation with the last one it may
/// have; the end of a generation, or a token that cannot be rendered, frees the
/// slot.
pub proof fn a_sample_goes_to_its_own_slot(d: RuntimeView, sampled: Sampled, now_us: i64)
    requires
        d.wf(),
        d.phase is Sample,
        d.accepts(Report::Sampled { sampled, now_us }),
    ensures
        ({
            let r = d.reported(Report::Sampled { sampled, now_us });
            &&& d.task() matches Task::Sample { index, .. } && {
                &&& index < d.engine.slots.len()
                &&& only_changes(d.engine, r.engine, index as int)
                &&& d.engine.slots[index as int] matches Some(slot) && {
                    &&& sampled matches Sampled::Token { token, .. } ==> (
                    match r.engine.slots[index as int] {
                        Some(next) => next.job == slot.job && next.next_input == token
                            && next.n_decoded == slot.n_decoded + 1 && next.pending is Some
                            && slot.n_decoded + 1 < slot.budget,
                        None => slot.n_decoded + 1 == slot.budget,
                    })
                    &&& sampled is EndOfGeneration ==> r.engine.slots[index as int] is None
                        && r.engine.outbox.len() == d.engine.outbox.len() + 1
                    &&& sampled matches Sampled::Unprintable { error }
                        ==> r.engine.slots[index as int] is None && r.engine.outbox
                        == d.engine.outbox.push((slot.job, EventView::Failed(error@)))
                }
            }
        }),
{
    if let PhaseView::Sample { fed, at } = d.phase {
        assert(runtime::ready(d.engine.slots, fed[at] as int));
        let slot = d.engine.slots[fed[at] as int].unwrap();
        assert(slot.wf(fed[at] as int, d.engine.n_ctx));
    }
}

/// A row that does not go into the batch fails its own generation and no other,
/// and one that does changes nothing yet.
pub proof fn a_row_that_is_refused_fails_its_own_slot(
    d: RuntimeView,
    outcome: Result<(), String>,
)
    requires
        d.wf(),
        d.phase is Feed,
    ensures
        ({
            let r = d.reported(Report::Fed(outcome));
            &&& d.task() matches Task::Feed { row } && {
                &&& outcome is Ok ==> r.engine == d.engine
                &&& outcome matches Err(error) ==> {
                    &&& only_changes(d.engine, r.engine, row.index as int)
                    &&& r.engine.slots[row.index as int] is None
                    &&& d.engine.slots[row.index as int] matches Some(slot)
                        && r.engine.outbox == d.engine.outbox.push(
                        (slot.job, EventView::Failed(error@)),
                    )
                }
            }
        }),
{
    if let PhaseView::Feed { rows, at, fed } = d.phase {
        assert(runtime::ready(d.engine.slots, rows[at].index as int));
    }
}

/// Whether `job` is told at `k` that its generation failed with `error`.
pub open spec fn fails_at(
    entries: Seq<(u64, EventView)>,
    job: u64,
    error: Seq<char>,
    k: int,
) -> bool {
    0 <= k < entries.len() && entries[k] == (job, EventView::Failed(error))
}

proof fn lemma_everybody_is_told(s: EngineView, rows: Seq<usize>, error: Seq<char>, k: int)
    requires
        s.wf(),
        forall|j: int| 0 <= j < rows.len() ==> #[trigger] rows[j] < s.slots.len(),
        forall|j: int|
            0 <= j < rows.len() ==> s.slots[#[trigger] rows[j] as int] is Some,
        runtime::ascending(rows),
        0 <= k < rows.len(),
    ensures
        ({
            let r = s.all_failed(rows, error);
            &&& r.outbox.len() == s.outbox.len() + rows.len()
            &&& s.outbox.is_prefix_of(r.outbox)
            &&& fails_at(
                r.outbox,
                s.slots[rows[k] as int].unwrap().job,
                error,
                s.outbox.len() + k,
            )
        }),
    decreases rows.len(),
{
    let earlier = rows.drop_last();
    let before = s.all_failed(earlier, error);
    let last = rows.last();
    laws::a_failed_decode_fails_its_rows(s, earlier, error);
    assert forall|j: int| 0 <= j < earlier.len() implies s.slots[#[trigger] earlier[j] as int] is Some by {
        assert(earlier[j] == rows[j]);
    }
    assert(before.slots[last as int] == s.slots[last as int]) by {
        if earlier.contains(last) {
            let j = choose|j: int| 0 <= j < earlier.len() && earlier[j] == last;
            assert(rows[j] < rows[rows.len() - 1]);
        }
    }
    assert(s.slots[rows[rows.len() - 1] as int] is Some);
    if earlier.len() == 0 {
        assert(before == s);
    } else if k < earlier.len() {
        lemma_everybody_is_told(s, earlier, error, k);
        assert(earlier[k] == rows[k]);
    } else {
        lemma_everybody_is_told(s, earlier, error, 0);
    }
}

/// A decode that fails, fails everybody in the batch and nobody else: each slot of
/// the batch is given back, its caller is told what went wrong, and every other
/// slot goes on.
pub proof fn a_failed_decode_is_told_to_the_whole_batch(d: RuntimeView, error: String, k: int)
    requires
        d.wf(),
        d.phase is Decode,
        0 <= k < d.phase->Decode_fed.len(),
    ensures
        ({
            let r = d.reported(Report::Decoded(Err(error)));
            let fed = d.phase->Decode_fed;
            let index = fed[k] as int;
            &&& r.engine.slots[index] is None
            &&& d.engine.slots[index] matches Some(slot) && fails_at(
                r.engine.outbox,
                slot.job,
                error@,
                d.engine.outbox.len() + k,
            )
            &&& r.engine.outbox.len() == d.engine.outbox.len() + fed.len()
            &&& forall|j: int|
                0 <= j < d.engine.slots.len() && !fed.contains(j as usize)
                    ==> #[trigger] r.engine.slots[j] == d.engine.slots[j]
        }),
{
    let fed = d.phase->Decode_fed;
    assert forall|j: int| 0 <= j < fed.len() implies #[trigger] fed[j] < d.engine.slots.len()
        && d.engine.slots[fed[j] as int] is Some by {
        assert(runtime::ready(d.engine.slots, fed[j] as int));
    }
    laws::a_failed_decode_fails_its_rows(d.engine, fed, error@);
    lemma_everybody_is_told(d.engine, fed, error@, k);
    assert(fed.contains(fed[k] as int as usize));
    assert(d.engine.all_failed(fed, error@).slots[fed[k] as int] is None);
}

/// What comes of ingesting a prompt goes to the request it came from: a failure is
/// told to it, and only the slot that was kept for it changes.
pub proof fn a_prompt_is_answered_to_its_own_request(
    d: RuntimeView,
    outcome: Result<Prefilled, String>,
    now_us: i64,
)
    requires
        d.wf(),
        d.phase is Prefill,
        d.accepts(Report::Ingested { outcome, now_us }),
    ensures
        ({
            let r = d.reported(Report::Ingested { outcome, now_us });
            &&& d.engine.prefilling matches Some((job, index)) && {
                &&& r.engine.prefilling is None
                &&& only_changes(d.engine, r.engine, index)
                &&& outcome matches Err(error) ==> r.engine.slots == d.engine.slots
                    && r.engine.outbox == d.engine.outbox.push((job, EventView::Failed(error@)))
            }
        }),
{
}

} // verus!
