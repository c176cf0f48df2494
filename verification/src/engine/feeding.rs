//! What the model is fed: the law of one sequence, token by token, over a whole
//! run of the loop.

use vstd::prelude::*;

use crate::engine::books;
use crate::engine::books::{EngineView, Row};
use crate::engine::laws;
use crate::engine::runtime;
use crate::engine::runtime::{Happening, PhaseView, Report, RuntimeView, Task};
use crate::engine::slot::{Sampled, SlotView};

verus! {

/// What is known of the generation that holds a sequence: the length of its
/// prompt, the tokens that were sampled for it, and the rows that were fed for
/// it.
pub struct Story {
    pub prompt_tokens: u32,
    pub sampled: Seq<i32>,
    pub fed: Seq<Row>,
}

impl Story {
    /// Of a sequence that nobody holds nothing is known.
    pub open spec fn blank() -> Story {
        Story { prompt_tokens: 0, sampled: Seq::empty(), fed: Seq::empty() }
    }

    /// The story of the sequence `i` after `h` has happened to `d`: a prompt that
    /// is ingested for it opens the story, a row that goes into the batch and a
    /// token that is sampled go on with it, and giving the sequence back ends it.
    pub open spec fn after(self, d: RuntimeView, h: Happening, i: int) -> Story {
        if d.with(h).engine.slots[i] is None {
            Story::blank()
        } else {
            match (d.task(), h) {
                (
                    Task::Prefill { seq_id },
                    Happening::Reported(Report::Ingested { outcome: Ok(prefilled), .. }),
                ) => match prefilled.first {
                    Sampled::Token { token, .. } => if seq_id == i {
                        Story {
                            prompt_tokens: prefilled.prompt_tokens,
                            sampled: seq![token],
                            fed: Seq::empty(),
                        }
                    } else {
                        self
                    },
                    _ => self,
                },
                (Task::Feed { row }, Happening::Reported(Report::Fed(Ok(())))) => if row.index
                    == i {
                    Story { fed: self.fed.push(row), ..self }
                } else {
                    self
                },
                (
                    Task::Sample { index, .. },
                    Happening::Reported(
                        Report::Sampled { sampled: Sampled::Token { token, .. }, .. },
                    ),
                ) => if index == i {
                    Story { sampled: self.sampled.push(token), ..self }
                } else {
                    self
                },
                _ => self,
            }
        }
    }

    /// The story of the sequence `i` after `run`, from a start at which nobody
    /// holds it.
    pub open spec fn of(d: RuntimeView, run: Seq<Happening>, i: int) -> Story
        decreases run.len(),
    {
        if run.len() == 0 {
            Story::blank()
        } else {
            Story::of(d, run.drop_last(), i).after(d.with_all(run.drop_last()), run.last(), i)
        }
    }
}

/// Whether the sequence `i` has a row in the batch and has not been sampled from
/// it yet.
pub open spec fn in_batch(phase: PhaseView, i: int) -> bool {
    match phase {
        PhaseView::Feed { fed, .. } => holds(fed, 0, i),
        PhaseView::Decode { fed } => holds(fed, 0, i),
        PhaseView::Sample { fed, at } => holds(fed, at, i),
        _ => false,
    }
}

/// Whether `i` is in `fed` from `at` on.
pub open spec fn holds(fed: Seq<usize>, at: int, i: int) -> bool {
    exists|k: int| at <= k < fed.len() && #[trigger] fed[k] == i
}

/// Whether `row` feeds what the slot at its index holds to be next.
pub open spec fn is_next(slots: Seq<Option<SlotView>>, row: Row) -> bool {
    &&& row.index < slots.len()
    &&& slots[row.index as int] matches Some(slot) && {
        &&& row.token == slot.next_input
        &&& row.position == slot.prompt_tokens + slot.n_decoded - 1
        &&& row.seq_id == row.index
    }
}

/// The rows that are still to be fed are what their slots hold to be next.
spec fn aligned(d: RuntimeView) -> bool {
    d.phase matches PhaseView::Feed { rows, at, fed } ==> forall|k: int|
        at <= k < rows.len() ==> is_next(d.engine.slots, #[trigger] rows[k])
}

/// The slot at `i` agrees with its story.
spec fn agrees(d: RuntimeView, i: int, story: Story) -> bool {
    d.engine.slots[i] matches Some(slot) ==> {
        &&& story.sampled.len() == slot.n_decoded
        &&& slot.n_decoded >= 1
        &&& story.sampled.last() == slot.next_input
        &&& story.prompt_tokens == slot.prompt_tokens
        &&& story.fed.len() == story.sampled.len() - 1 + (if in_batch(d.phase, i) {
            1int
        } else {
            0int
        })
        &&& forall|k: int|
            0 <= k < story.fed.len() ==> #[trigger] story.fed[k] == (Row {
                index: i as usize,
                token: story.sampled[k],
                position: (story.prompt_tokens + k) as u32,
                seq_id: i as u32,
            })
    }
}

/// Each row of a step feeds what its slot holds to be next: its latest token,
/// right behind the one before it, to its own sequence. The slot waits on the
/// model and its caller has not cancelled.
pub proof fn rows_feed_what_comes_next(s: EngineView, cancelled: Seq<bool>, n: nat, k: int)
    requires
        s.wf(),
        cancelled.len() == s.slots.len(),
        n <= s.slots.len(),
        0 <= k < books::ready_rows(s.slots, cancelled, n).len(),
    ensures
        ({
            let row = books::ready_rows(s.slots, cancelled, n)[k];
            &&& row.index < n
            &&& !cancelled[row.index as int]
            &&& s.slots[row.index as int] matches Some(slot) && {
                &&& slot.pending is None
                &&& row.token == slot.next_input
                &&& row.position == slot.prompt_tokens + slot.n_decoded - 1
                &&& row.seq_id == row.index
            }
        }),
    decreases n,
{
    let rows = books::ready_rows(s.slots, cancelled, n);
    let earlier = books::ready_rows(s.slots, cancelled, (n - 1) as nat);
    if k < earlier.len() {
        assert(rows[k] == earlier[k]);
        rows_feed_what_comes_next(s, cancelled, (n - 1) as nat, k);
    } else {
        assert(s.slots[n - 1] matches Some(slot) ==> slot.wf(n - 1, s.n_ctx));
    }
}

proof fn lemma_ascending_once(fed: Seq<usize>, at: int)
    requires
        0 <= at < fed.len(),
        runtime::ascending(fed),
    ensures
        !holds(fed, at + 1, fed[at] as int),
{
    if holds(fed, at + 1, fed[at] as int) {
        let k = choose|k: int| at + 1 <= k < fed.len() && #[trigger] fed[k] == fed[at] as int;
        assert(fed[at] < fed[k]);
    }
}

proof fn lemma_all_failed(s: EngineView, rows: Seq<usize>, error: Seq<char>, i: int)
    requires
        s.wf(),
        forall|k: int| 0 <= k < rows.len() ==> #[trigger] rows[k] < s.slots.len(),
        0 <= i < s.slots.len(),
    ensures
        s.all_failed(rows, error).slots[i] == if holds(rows, 0, i) {
            None
        } else {
            s.slots[i]
        },
{
    laws::a_failed_decode_fails_its_rows(s, rows, error);
    assert(s.all_failed(rows, error).slots[i] == if rows.contains(i as usize) {
        None
    } else {
        s.slots[i]
    });
    if rows.contains(i as usize) {
        let k = choose|k: int| 0 <= k < rows.len() && rows[k] == i as usize;
        assert(rows[k] == i);
    } else if holds(rows, 0, i) {
        let k = choose|k: int| 0 <= k < rows.len() && #[trigger] rows[k] == i;
        assert(rows[k] == i as usize);
    }
}

proof fn lemma_fed_goes_on(d: RuntimeView, outcome: Result<(), String>, i: int, story: Story)
    requires
        d.wf(),
        d.phase is Feed,
        0 <= i < d.engine.slots.len(),
        aligned(d),
        agrees(d, i, story),
    ensures
        ({
            let h = Happening::Reported(Report::Fed(outcome));
            &&& aligned(d.with(h))
            &&& agrees(d.with(h), i, story.after(d, h, i))
        }),
{
    let h = Happening::Reported(Report::Fed(outcome));
    let r = d.with(h);
    let next = story.after(d, h, i);
    if let PhaseView::Feed { rows, at, fed } = d.phase {
        let row = rows[at];
        assert(is_next(d.engine.slots, row));
        assert(runtime::ready(d.engine.slots, row.index as int));
        assert forall|k: int| at < k < rows.len() implies is_next(
            r.engine.slots,
            #[trigger] rows[k],
        ) by {
            assert(rows[at].index < rows[k].index);
            assert(is_next(d.engine.slots, rows[k]));
        }
        match outcome {
            Ok(()) => {
                let now = fed.push(row.index);
                if row.index == i {
                    if holds(fed, 0, i) {
                        let k = choose|k: int| 0 <= k < fed.len() && #[trigger] fed[k] == i;
                        assert(fed[k] < rows[at].index);
                    }
                    assert(now[now.len() - 1] == i);
                    assert(holds(now, 0, i));
                    assert(in_batch(r.phase, i));
                } else {
                    if holds(now, 0, i) {
                        let k = choose|k: int| 0 <= k < now.len() && #[trigger] now[k] == i;
                        assert(fed[k] == i);
                    }
                    if holds(fed, 0, i) {
                        let k = choose|k: int| 0 <= k < fed.len() && #[trigger] fed[k] == i;
                        assert(now[k] == i);
                    }
                    assert(in_batch(r.phase, i) == in_batch(d.phase, i));
                }
            },
            Err(error) => {},
        }
    }
}

proof fn lemma_sampled_goes_on(
    d: RuntimeView,
    sampled: Sampled,
    now_us: i64,
    i: int,
    story: Story,
)
    requires
        d.wf(),
        d.phase is Sample,
        0 <= i < d.engine.slots.len(),
        agrees(d, i, story),
    ensures
        ({
            let h = Happening::Reported(Report::Sampled { sampled, now_us });
            &&& aligned(d.with(h))
            &&& agrees(d.with(h), i, story.after(d, h, i))
        }),
{
    let h = Happening::Reported(Report::Sampled { sampled, now_us });
    let r = d.with(h);
    let next = story.after(d, h, i);
    if let PhaseView::Sample { fed, at } = d.phase {
        assert(runtime::ready(d.engine.slots, fed[at] as int));
        lemma_ascending_once(fed, at);
        lemma_turning_feeds_nothing(r.engine);
        if fed[at] == i {
            assert(holds(fed, at, i));
            assert(!in_batch(r.phase, i));
        } else {
            if holds(fed, at, i) {
                let k = choose|k: int| at <= k < fed.len() && #[trigger] fed[k] == i;
                assert(k >= at + 1);
                assert(holds(fed, at + 1, i));
            }
            if holds(fed, at + 1, i) {
                let k = choose|k: int| at + 1 <= k < fed.len() && #[trigger] fed[k] == i;
                assert(holds(fed, at, i));
            }
            assert(r.engine.slots[i] == d.engine.slots[i]);
            assert(in_batch(r.phase, i) == in_batch(d.phase, i));
        }
    }
}

proof fn lemma_turning_feeds_nothing(engine: EngineView)
    ensures
        !(runtime::turning(engine) is Feed),
        !(runtime::turning(engine) is Decode),
        !(runtime::turning(engine) is Sample),
        !(runtime::offering(engine, 0) is Feed),
        !(runtime::offering(engine, 0) is Decode),
        !(runtime::offering(engine, 0) is Sample),
{
}

proof fn lemma_goes_on(d: RuntimeView, h: Happening, i: int, story: Story)
    requires
        d.wf(),
        d.admits(h),
        0 <= i < d.engine.slots.len(),
        aligned(d),
        agrees(d, i, story),
    ensures
        aligned(d.with(h)),
        agrees(d.with(h), i, story.after(d, h, i)),
{
    let s = d.engine;
    let r = d.with(h);
    let next = story.after(d, h, i);
    if let Happening::Reported(report) = h {
        runtime::the_loop_only_makes_moves(d, report);
        match (d.phase, report) {
            (PhaseView::Survey, Report::Surveyed { cancelled, now_us }) => {
                let rows = books::ready_rows(s.slots, cancelled@, s.slots.len());
                assert forall|k: int| 0 <= k < rows.len() implies is_next(
                    r.engine.slots,
                    #[trigger] rows[k],
                ) by {
                    rows_feed_what_comes_next(s, cancelled@, s.slots.len(), k);
                }
                assert(!holds(Seq::<usize>::empty(), 0, i));
            },
            (PhaseView::Feed { rows, at, fed }, Report::Fed(outcome)) => {
                lemma_fed_goes_on(d, outcome, i, story);
            },
            (PhaseView::Decode { fed }, Report::Decoded(outcome)) => {
                assert forall|k: int| 0 <= k < fed.len() implies #[trigger] fed[k]
                    < s.slots.len() by {
                    assert(runtime::ready(s.slots, fed[k] as int));
                }
                if let Err(error) = outcome {
                    lemma_all_failed(s, fed, error@, i);
                    lemma_turning_feeds_nothing(r.engine);
                }
            },
            (PhaseView::Sample { fed, at }, Report::Sampled { sampled, now_us }) => {
                lemma_sampled_goes_on(d, sampled, now_us, i, story);
            },
            (PhaseView::Rest, Report::Rested) => {
                lemma_turning_feeds_nothing(s);
            },
            _ => {},
        }
    }
}

proof fn lemma_story(d: RuntimeView, run: Seq<Happening>, i: int)
    requires
        d.wf(),
        d.phase is Admit,
        forall|k: int| 0 <= k < d.engine.slots.len() ==> #[trigger] d.engine.slots[k] is None,
        d.admits_all(run),
        0 <= i < d.engine.slots.len(),
    ensures
        d.with_all(run).wf(),
        d.with_all(run).engine.slots.len() == d.engine.slots.len(),
        aligned(d.with_all(run)),
        agrees(d.with_all(run), i, Story::of(d, run, i)),
    decreases run.len(),
{
    runtime::the_loop_only_makes_moves_on_every_run(d, run);
    if run.len() > 0 {
        let earlier = run.drop_last();
        lemma_story(d, earlier, i);
        lemma_goes_on(d.with_all(earlier), run.last(), i, Story::of(d, earlier, i));
        lemma_as_many_slots(d.with_all(earlier), run.last());
    }
}

proof fn lemma_as_many_slots(d: RuntimeView, h: Happening)
    requires
        d.wf(),
        d.admits(h),
    ensures
        d.with(h).engine.slots.len() == d.engine.slots.len(),
{
    if let Happening::Reported(Report::Decoded(Err(error))) = h {
        if let PhaseView::Decode { fed } = d.phase {
            assert forall|k: int| 0 <= k < fed.len() implies #[trigger] fed[k]
                < d.engine.slots.len() by {
                assert(runtime::ready(d.engine.slots, fed[k] as int));
            }
            laws::a_failed_decode_fails_its_rows(d.engine, fed, error@);
        }
    }
}

/// Over any run of the loop, a sequence is fed the tokens of its generation, each
/// once, in order, and each right behind the one before it: the first token that
/// was sampled goes in behind the prompt, at the position that counts the
/// prompt's tokens, the next one at the position after that, and so on, without
/// repeating a position and without leaving one out. By the time the loop asks
/// for the next token, every token before it has been fed.
pub proof fn a_sequence_is_fed_token_by_token(d: RuntimeView, run: Seq<Happening>, i: int)
    requires
        d.wf(),
        d.phase is Admit,
        forall|k: int| 0 <= k < d.engine.slots.len() ==> #[trigger] d.engine.slots[k] is None,
        d.admits_all(run),
        0 <= i < d.engine.slots.len(),
        d.with_all(run).engine.slots[i] is Some,
    ensures
        ({
            let story = Story::of(d, run, i);
            &&& story.sampled.len() >= 1
            &&& story.fed.len() == story.sampled.len() || story.fed.len() + 1
                == story.sampled.len()
            &&& forall|k: int|
                0 <= k < story.fed.len() ==> {
                    &&& (#[trigger] story.fed[k]).token == story.sampled[k]
                    &&& story.fed[k].position == story.prompt_tokens + k
                    &&& story.fed[k].seq_id == i
                    &&& story.fed[k].index == i
                }
            &&& (d.with_all(run).task() matches Task::Sample { index, .. } && index == i)
                ==> story.fed.len() == story.sampled.len()
        }),
{
    lemma_story(d, run, i);
    let story = Story::of(d, run, i);
    let last = d.with_all(run);
    let slot = last.engine.slots[i].unwrap();
    assert(slot.wf(i, last.engine.n_ctx));
    if let PhaseView::Sample { fed, at } = last.phase {
        if fed[at] == i {
            assert(holds(fed, at, i));
        }
    }
}

/// Whenever the loop feeds a row, that is the latest token of the generation that
/// holds the sequence, which has not been fed before, at the position right
/// behind everything that has been.
pub proof fn what_is_fed_is_the_latest_token(d: RuntimeView, run: Seq<Happening>, row: Row)
    requires
        d.wf(),
        d.phase is Admit,
        forall|k: int| 0 <= k < d.engine.slots.len() ==> #[trigger] d.engine.slots[k] is None,
        d.admits_all(run),
        d.with_all(run).task() == (Task::Feed { row }),
    ensures
        ({
            let story = Story::of(d, run, row.index as int);
            &&& row.index < d.engine.slots.len()
            &&& row.seq_id == row.index
            &&& story.sampled.len() >= 1
            &&& story.fed.len() + 1 == story.sampled.len()
            &&& row.token == story.sampled.last()
            &&& row.position == story.prompt_tokens + story.sampled.len() - 1
        }),
{
    runtime::the_loop_only_makes_moves_on_every_run(d, run);
    let last = d.with_all(run);
    lemma_story(d, run, 0);
    if let PhaseView::Feed { rows, at, fed } = last.phase {
        assert(is_next(last.engine.slots, rows[at]));
        let i = row.index as int;
        lemma_story(d, run, i);
        if holds(fed, 0, i) {
            let k = choose|k: int| 0 <= k < fed.len() && #[trigger] fed[k] == i;
            assert(fed[k] < rows[at].index);
        }
    }
}

/// The batch after `h` has happened to `d`: looking for cancelled callers starts
/// a new one, and a row that is fed goes in behind the others.
pub open spec fn batch_after(batch: Seq<Row>, d: RuntimeView, h: Happening) -> Seq<Row> {
    match (d.task(), h) {
        (Task::Survey, Happening::Reported(Report::Surveyed { .. })) => Seq::empty(),
        (Task::Feed { row }, Happening::Reported(Report::Fed(Ok(())))) => batch.push(row),
        _ => batch,
    }
}

/// The batch after `run`.
pub open spec fn batch_of(d: RuntimeView, run: Seq<Happening>) -> Seq<Row>
    decreases run.len(),
{
    if run.len() == 0 {
        Seq::empty()
    } else {
        batch_after(batch_of(d, run.drop_last()), d.with_all(run.drop_last()), run.last())
    }
}

/// The slots that the loop takes to be in the batch are those in it.
spec fn matches_batch(fed: Seq<usize>, batch: Seq<Row>) -> bool {
    &&& fed.len() == batch.len()
    &&& forall|k: int| 0 <= k < fed.len() ==> #[trigger] fed[k] == batch[k].index
}

spec fn knows_batch(d: RuntimeView, batch: Seq<Row>) -> bool {
    match d.phase {
        PhaseView::Feed { fed, .. } => matches_batch(fed, batch),
        PhaseView::Decode { fed } => matches_batch(fed, batch),
        PhaseView::Sample { fed, .. } => matches_batch(fed, batch),
        _ => true,
    }
}

proof fn lemma_batch(d: RuntimeView, run: Seq<Happening>)
    requires
        d.wf(),
        d.phase is Admit,
        d.admits_all(run),
    ensures
        knows_batch(d.with_all(run), batch_of(d, run)),
    decreases run.len(),
{
    if run.len() > 0 {
        let earlier = run.drop_last();
        let middle = d.with_all(earlier);
        runtime::the_loop_only_makes_moves_on_every_run(d, earlier);
        lemma_batch(d, earlier);
        lemma_turning_feeds_nothing(d.with_all(run).engine);
    }
}

/// A token is sampled from the row that was fed for it: when the loop asks for a
/// sample from a row of the batch for some slot, that row of the batch is the
/// slot's own.
pub proof fn samples_come_from_their_own_row(
    d: RuntimeView,
    run: Seq<Happening>,
    index: usize,
    row: usize,
)
    requires
        d.wf(),
        d.phase is Admit,
        d.admits_all(run),
        d.with_all(run).task() == (Task::Sample { index, row }),
    ensures
        row < batch_of(d, run).len(),
        batch_of(d, run)[row as int].index == index,
{
    runtime::the_loop_only_makes_moves_on_every_run(d, run);
    lemma_batch(d, run);
    let last = d.with_all(run);
    if let PhaseView::Sample { fed, at } = last.phase {
        lemma_ascending_is_short(fed, at);
    }
}

/// So many numbers in ascending order need as much room.
proof fn lemma_ascending_is_short(fed: Seq<usize>, at: int)
    requires
        runtime::ascending(fed),
        0 <= at < fed.len(),
    ensures
        at <= fed[at],
    decreases at,
{
    if at > 0 {
        lemma_ascending_is_short(fed, at - 1);
        assert(fed[at - 1] < fed[at]);
    }
}

} // verus!
