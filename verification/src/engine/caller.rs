//! What one caller hears: the law of a single generation, from its arrival to
//! its last event.

use vstd::prelude::*;

use crate::engine::books;
use crate::engine::books::{Arrival, EngineView, Prefilled};
use crate::engine::event::{EventView, Stop};
use crate::engine::laws;
use crate::engine::laws::Move;
use crate::engine::pieces;
use crate::engine::slot;
use crate::engine::slot::{Flush, Sampled, SendOutcome, SlotView};

verus! {

/// The events in `entries` that are for `job`.
pub open spec fn of_job(entries: Seq<(u64, EventView)>, job: u64) -> Seq<EventView>
    decreases entries.len(),
{
    if entries.len() == 0 {
        Seq::empty()
    } else {
        let earlier = of_job(entries.drop_last(), job);
        if entries.last().0 == job {
            earlier.push(entries.last().1)
        } else {
            earlier
        }
    }
}

/// The events for `job` that get through when `entries` meet `outcomes`.
pub open spec fn delivered(
    entries: Seq<(u64, EventView)>,
    outcomes: Seq<SendOutcome>,
    job: u64,
) -> Seq<EventView>
    decreases entries.len(),
{
    if entries.len() == 0 {
        Seq::empty()
    } else {
        let earlier = delivered(entries.drop_last(), outcomes, job);
        if entries.last().0 == job && outcomes[entries.len() - 1] == SendOutcome::Sent {
            earlier.push(entries.last().1)
        } else {
            earlier
        }
    }
}

/// How many slots work for `job`.
pub open spec fn held(slots: Seq<Option<SlotView>>, job: u64) -> nat
    decreases slots.len(),
{
    if slots.len() == 0 {
        0
    } else {
        held(slots.drop_last(), job) + works_for(slots.last(), job)
    }
}

/// One if `slot` works for `job`, zero otherwise.
pub open spec fn works_for(slot: Option<SlotView>, job: u64) -> nat {
    match slot {
        Some(slot) => if slot.job == job {
            1
        } else {
            0
        },
        None => 0,
    }
}

/// Whether one of the first `n` slots works for `job` and has its flag set.
pub open spec fn cancels(
    slots: Seq<Option<SlotView>>,
    cancelled: Seq<bool>,
    n: nat,
    job: u64,
) -> bool {
    exists|i: int| 0 <= i < n && cancelled[i] && works_for(#[trigger] slots[i], job) == 1
}

/// One if the prompt of `job` is being ingested, zero otherwise.
pub open spec fn ingesting(s: EngineView, job: u64) -> nat {
    match s.prefilling {
        Some((prefilling, _)) => if prefilling == job {
            1
        } else {
            0
        },
        None => 0,
    }
}

/// The text of the token events in `events`, joined.
pub open spec fn said(events: Seq<EventView>) -> Seq<char>
    decreases events.len(),
{
    if events.len() == 0 {
        Seq::empty()
    } else {
        said(events.drop_last()) + match events.last() {
            EventView::Token(text) => text,
            _ => Seq::empty(),
        }
    }
}

/// The text of a piece that may be pending.
pub open spec fn pending_text(pending: Option<EventView>) -> Seq<char> {
    match pending {
        Some(EventView::Token(text)) => text,
        _ => Seq::empty(),
    }
}

pub open spec fn all_tokens(events: Seq<EventView>) -> bool {
    forall|i: int| 0 <= i < events.len() ==> #[trigger] events[i] is Token
}

/// Tokens, then one terminal event, then nothing.
pub open spec fn complete(events: Seq<EventView>) -> bool {
    &&& events.len() >= 1
    &&& all_tokens(events.drop_last())
    &&& events.last().terminal()
}

/// What ends a generation before it has used up its budget.
pub enum Cause {
    /// The model had no more to say.
    EndSampled,
    /// The caller asked for it.
    Cancelled,
    /// The caller was gone, or had not read for too long.
    GivenUp,
    Failed(Seq<char>),
}

/// What is known of one caller at some point of a run.
pub struct Caller {
    /// What the caller has received, in order.
    pub heard: Seq<EventView>,
    /// How often its request has been claimed from the queue.
    pub arrivals: nat,
    /// The bytes of the tokens generated for it.
    pub sampled: Seq<u8>,
    /// The pieces of those tokens, joined.
    pub text: Seq<char>,
    /// How many tokens that is.
    pub tokens: nat,
    /// How many its request asked for, once its prompt has been ingested.
    pub asked: i32,
    /// How many tokens its prompt has, once it has been ingested.
    pub prompt: u32,
    /// What has ended its generation, other than its budget.
    pub cause: Option<Cause>,
}

impl Caller {
    /// A caller whose request has not been claimed yet.
    pub open spec fn fresh() -> Caller {
        Caller {
            heard: Seq::empty(),
            arrivals: 0,
            sampled: Seq::empty(),
            text: Seq::empty(),
            tokens: 0,
            asked: 0,
            prompt: 0,
            cause: None,
        }
    }

    /// The caller of `job` after what `slot` works on has ended for `cause`.
    pub open spec fn ended_by(
        self,
        slot: Option<SlotView>,
        job: u64,
        cause: Option<Cause>,
    ) -> Caller {
        if works_for(slot, job) == 1 {
            Caller { cause, ..self }
        } else {
            self
        }
    }

    /// The caller after a token of `bytes` has been generated for it.
    pub open spec fn with_token(self, bytes: Seq<u8>) -> Caller {
        Caller {
            sampled: self.sampled + bytes,
            text: self.text + pieces::piece_text(self.sampled, bytes),
            tokens: self.tokens + 1,
            ..self
        }
    }

    /// The caller of `job` after a step that finds the flags of the first `n`
    /// slots as `cancelled` has them.
    pub open spec fn cancelled_by(
        self,
        slots: Seq<Option<SlotView>>,
        cancelled: Seq<bool>,
        n: nat,
        job: u64,
    ) -> Caller {
        if cancels(slots, cancelled, n, job) {
            Caller { cause: Some(Cause::Cancelled), ..self }
        } else {
            self
        }
    }

    /// The caller of `job` after `m` has happened in `s`.
    pub open spec fn after(self, s: EngineView, m: Move, job: u64) -> Caller {
        match m {
            Move::Sweep(outcomes) => Caller {
                heard: self.heard + delivered(s.outbox, outcomes, job),
                ..self
            },
            Move::Flush { index, outcome, now_ns, .. } => match s.slots[index] {
                Some(slot) => if slot.flush_verdict(outcome, now_ns) == Flush::Abandoned {
                    self.ended_by(s.slots[index], job, Some(Cause::GivenUp))
                } else if slot.job == job && outcome == SendOutcome::Sent {
                    match slot.pending {
                        Some(event) => Caller { heard: self.heard.push(event), ..self },
                        None => self,
                    }
                } else {
                    self
                },
                None => self,
            },
            Move::Arrive(Arrival::Job { job: arrived, cancelled }) => if arrived == job {
                Caller {
                    arrivals: self.arrivals + 1,
                    cause: if cancelled {
                        Some(Cause::Cancelled)
                    } else {
                        self.cause
                    },
                    ..self
                }
            } else {
                self
            },
            Move::Prefilled { prefilled, .. } => if ingesting(s, job) == 1 {
                let asking = Caller {
                    asked: prefilled.max_tokens,
                    prompt: prefilled.prompt_tokens,
                    ..self
                };
                match prefilled.first {
                    Sampled::Token { bytes, .. } => if prefilled.max_tokens > 0 {
                        asking.with_token(bytes@)
                    } else {
                        asking
                    },
                    Sampled::EndOfGeneration => Caller {
                        cause: Some(Cause::EndSampled),
                        ..asking
                    },
                    Sampled::Unprintable { error } => if prefilled.max_tokens > 0 {
                        Caller { cause: Some(Cause::Failed(error@)), ..asking }
                    } else {
                        asking
                    },
                }
            } else {
                self
            },
            Move::PrefillFailed(error) => if ingesting(s, job) == 1 {
                Caller { cause: Some(Cause::Failed(error)), ..self }
            } else {
                self
            },
            Move::Step { cancelled, .. } => self.cancelled_by(
                s.slots,
                cancelled,
                s.slots.len(),
                job,
            ),
            Move::Sampled { index, sampled, .. } => match sampled {
                Sampled::Token { bytes, .. } => if works_for(s.slots[index], job) == 1 {
                    self.with_token(bytes@)
                } else {
                    self
                },
                Sampled::EndOfGeneration => self.ended_by(
                    s.slots[index],
                    job,
                    Some(Cause::EndSampled),
                ),
                Sampled::Unprintable { error } => self.ended_by(
                    s.slots[index],
                    job,
                    Some(Cause::Failed(error@)),
                ),
            },
            Move::Fail { index, error } => self.ended_by(
                s.slots[index],
                job,
                Some(Cause::Failed(error)),
            ),
            Move::Submit(_) => self,
            Move::Arrive(_) => self,
        }
    }

    /// The caller of `job` after `moves` from `s`.
    pub open spec fn after_all(self, s: EngineView, moves: Seq<Move>, job: u64) -> Caller
        decreases moves.len(),
    {
        if moves.len() == 0 {
            self
        } else {
            self.after_all(s, moves.drop_last(), job).after(
                s.after(moves.drop_last()),
                moves.last(),
                job,
            )
        }
    }
}

/// The caller of `job` is there to listen while `m` happens in `s`: its channel
/// is open.
pub open spec fn listening(s: EngineView, m: Move, job: u64) -> bool {
    match m {
        Move::Sweep(outcomes) => forall|i: int|
            0 <= i < s.outbox.len() && s.outbox[i].0 == job ==> #[trigger] outcomes[i]
                != SendOutcome::Closed,
        Move::Flush { index, outcome, .. } => s.slots[index] matches Some(slot) && slot.job == job
            ==> outcome != SendOutcome::Closed,
        _ => true,
    }
}

/// The caller of `job` is there to listen all through `moves`.
pub open spec fn listening_all(s: EngineView, moves: Seq<Move>, job: u64) -> bool
    decreases moves.len(),
{
    moves.len() == 0 || (listening_all(s, moves.drop_last(), job) && listening(
        s.after(moves.drop_last()),
        moves.last(),
        job,
    ))
}

/// Nothing has been generated for this caller yet.
pub open spec fn unserved(caller: Caller) -> bool {
    &&& caller.heard.len() == 0
    &&& caller.sampled.len() == 0
    &&& caller.text.len() == 0
    &&& caller.tokens == 0
    &&& caller.cause is None
}

/// How many pieces are pending.
pub open spec fn pending_count(pending: Option<EventView>) -> nat {
    if pending is Some {
        1
    } else {
        0
    }
}

/// A slot that works for a request for `asked` tokens is no further than its
/// budget, and the budget is the smaller of what was asked for and what the
/// context holds.
pub open spec fn bounded(slot: SlotView, asked: i32, n_ctx: u32) -> bool {
    &&& slot.prompt_tokens < n_ctx
    &&& slot.n_decoded <= slot.budget
    &&& slot.budget == slot::budget_for(asked, (n_ctx - slot.prompt_tokens) as u32)
    &&& slot.context_bound == (asked > n_ctx - slot.prompt_tokens)
}

/// If `slot` works for `job`, it has decoded what was generated and no more
/// than its budget, and the caller has heard all of the pieces but for the one
/// that is pending.
pub open spec fn in_step(slot: Option<SlotView>, job: u64, caller: Caller, n_ctx: u32) -> bool {
    match slot {
        Some(slot) => slot.job == job ==> {
            &&& caller.tokens > 0
            &&& slot.n_decoded == caller.tokens
            &&& caller.heard.len() + pending_count(slot.pending) == caller.tokens
            &&& bounded(slot, caller.asked, n_ctx)
            &&& slot.prompt_tokens == caller.prompt
            &&& slot.fed == caller.sampled
            &&& said(caller.heard) + pending_text(slot.pending) == caller.text
        },
        None => true,
    }
}

/// A generation that stopped for `stop` was ended by `cause`.
pub open spec fn stopped_by(stop: Stop, cause: Option<Cause>) -> bool {
    match stop {
        Stop::EndOfGeneration => cause == Some(Cause::EndSampled),
        Stop::Limit | Stop::ContextFull => cause is None,
        Stop::Cancelled => cause == Some(Cause::Cancelled) || cause == Some(Cause::GivenUp),
    }
}

/// The last event says what ended the generation: that the model was done only
/// where its end was sampled, that it was cancelled only where the caller had
/// asked for it or had stopped reading, that it failed only with the failure
/// that was reported for it, and that the budget was spent in no other case.
pub open spec fn explained(last: EventView, cause: Option<Cause>) -> bool {
    match last {
        EventView::Token(_) => false,
        EventView::Done { stop, .. } => stopped_by(stop, cause),
        EventView::Failed(error) => cause == Some(Cause::Failed(error)),
    }
}

/// The last of `events` says what ended the generation. If that is `Done`,
/// there is one piece for each token, the pieces are the whole text, the counts
/// are those of the prompt and of what was generated, no more was said than was
/// asked for or fits, and where that is the reason, exactly as much.
pub open spec fn faithful(events: Seq<EventView>, caller: Caller, n_ctx: u32) -> bool {
    &&& explained(events.last(), caller.cause)
    &&& events.last() matches EventView::Done { stop, prompt_tokens, tokens, .. } ==> {
        &&& said(events) == caller.text
        &&& tokens == caller.tokens
        &&& prompt_tokens == caller.prompt
        &&& events.len() == tokens + 1
        &&& tokens == 0 || tokens <= caller.asked
        &&& prompt_tokens + tokens <= n_ctx
        &&& stop == Stop::Limit ==> tokens == if caller.asked < 0 {
            0
        } else {
            caller.asked
        }
        &&& stop == Stop::ContextFull ==> prompt_tokens + tokens == n_ctx && tokens < caller.asked
    }
}

/// Its request is in a slot or on its way into one, and the caller has heard
/// all of its text but for the piece that is pending.
pub open spec fn running(s: EngineView, job: u64, caller: Caller) -> bool {
    &&& held(s.slots, job) + ingesting(s, job) == 1
    &&& of_job(s.outbox, job).len() == 0
    &&& caller.cause is None
    &&& all_tokens(caller.heard)
    &&& ingesting(s, job) == 1 ==> unserved(caller)
    &&& forall|i: int| 0 <= i < s.slots.len() ==> in_step(
        #[trigger] s.slots[i],
        job,
        caller,
        s.n_ctx,
    )
}

/// Its request has given its slot back. What the caller has heard and what is
/// on its way are tokens and one terminal event.
pub open spec fn ended(s: EngineView, job: u64, caller: Caller) -> bool {
    let all = caller.heard + of_job(s.outbox, job);
    &&& held(s.slots, job) + ingesting(s, job) == 0
    &&& complete(all)
    &&& faithful(all, caller, s.n_ctx)
}

/// Where a caller whose request is claimed at most once stands.
pub open spec fn accounted(s: EngineView, job: u64, caller: Caller) -> bool {
    &&& caller.arrivals <= 1
    &&& caller.arrivals == 0 ==> {
        &&& held(s.slots, job) + ingesting(s, job) == 0
        &&& of_job(s.outbox, job).len() == 0
        &&& unserved(caller)
        &&& caller.prompt == 0
    }
    &&& caller.arrivals == 1 ==> running(s, job, caller) || ended(s, job, caller)
}

proof fn lemma_of_job_push(entries: Seq<(u64, EventView)>, entry: (u64, EventView), job: u64)
    ensures
        of_job(entries.push(entry), job) == if entry.0 == job {
            of_job(entries, job).push(entry.1)
        } else {
            of_job(entries, job)
        },
{
    assert(entries.push(entry).drop_last() =~= entries);
}

proof fn lemma_held_update(
    slots: Seq<Option<SlotView>>,
    index: int,
    slot: Option<SlotView>,
    job: u64,
)
    requires
        0 <= index < slots.len(),
    ensures
        held(slots.update(index, slot), job) + works_for(slots[index], job) == held(slots, job)
            + works_for(slot, job),
    decreases slots.len(),
{
    let updated = slots.update(index, slot);
    if index == slots.len() - 1 {
        assert(updated.drop_last() =~= slots.drop_last());
    } else {
        assert(updated.drop_last() =~= slots.drop_last().update(index, slot));
        lemma_held_update(slots.drop_last(), index, slot, job);
    }
}

proof fn lemma_held_at(slots: Seq<Option<SlotView>>, index: int, job: u64)
    requires
        0 <= index < slots.len(),
    ensures
        held(slots, job) >= works_for(slots[index], job),
{
    lemma_held_update(slots, index, None, job);
}

proof fn lemma_said_push(events: Seq<EventView>, event: EventView)
    ensures
        said(events.push(event)) == said(events) + match event {
            EventView::Token(text) => text,
            _ => Seq::empty(),
        },
{
    assert(events.push(event).drop_last() =~= events);
}

proof fn lemma_complete_push(events: Seq<EventView>, last: EventView)
    requires
        all_tokens(events),
        last.terminal(),
    ensures
        complete(events.push(last)),
        said(events.push(last)) == said(events),
{
    assert(events.push(last).drop_last() =~= events);
    lemma_said_push(events, last);
    assert(said(events) + Seq::<char>::empty() =~= said(events));
}

proof fn lemma_sweep(
    entries: Seq<(u64, EventView)>,
    outcomes: Seq<SendOutcome>,
    job: u64,
)
    requires
        entries.len() <= outcomes.len(),
        forall|i: int|
            0 <= i < entries.len() && entries[i].0 == job ==> #[trigger] outcomes[i]
                != SendOutcome::Closed,
        forall|i: int, k: int|
            0 <= i < k < entries.len() && entries[i].0 == job && entries[k].0 == job
                && #[trigger] outcomes[i] == SendOutcome::Full ==> #[trigger] outcomes[k]
                == SendOutcome::Full,
    ensures
        of_job(entries, job) == delivered(entries, outcomes, job) + of_job(
            books::undelivered(entries, outcomes),
            job,
        ),
        of_job(books::undelivered(entries, outcomes), job).len() > 0 ==> exists|i: int|
            0 <= i < entries.len() && entries[i].0 == job && #[trigger] outcomes[i]
                == SendOutcome::Full,
    decreases entries.len(),
{
    if entries.len() == 0 {
        assert(of_job(entries, job) =~= delivered(entries, outcomes, job) + of_job(
            books::undelivered(entries, outcomes),
            job,
        ));
    } else {
        let earlier = entries.drop_last();
        let n = entries.len() - 1;
        let last = entries.last();
        assert forall|i: int|
            0 <= i < earlier.len() && earlier[i].0 == job implies #[trigger] outcomes[i]
            != SendOutcome::Closed by {
            assert(entries[i].0 == job);
        }
        assert forall|i: int, k: int|
            0 <= i < k < earlier.len() && earlier[i].0 == job && earlier[k].0 == job
                && #[trigger] outcomes[i] == SendOutcome::Full implies #[trigger] outcomes[k]
            == SendOutcome::Full by {
            assert(entries[i].0 == job && entries[k].0 == job);
        }
        lemma_sweep(earlier, outcomes, job);
        let kept = books::undelivered(earlier, outcomes);
        if outcomes[n] == SendOutcome::Full {
            lemma_of_job_push(kept, last, job);
            if last.0 == job {
                assert(entries[n].0 == job);
            } else if of_job(kept, job).len() > 0 {
                let i = choose|i: int|
                    0 <= i < earlier.len() && earlier[i].0 == job && #[trigger] outcomes[i]
                        == SendOutcome::Full;
                assert(entries[i].0 == job);
            }
        } else if last.0 == job {
            if of_job(kept, job).len() > 0 {
                let i = choose|i: int|
                    0 <= i < earlier.len() && earlier[i].0 == job && #[trigger] outcomes[i]
                        == SendOutcome::Full;
                assert(entries[i].0 == job && entries[n].0 == job);
                assert(outcomes[n] == SendOutcome::Full);
            }
            assert(outcomes[n] == SendOutcome::Sent);
        } else if of_job(kept, job).len() > 0 {
            let i = choose|i: int|
                0 <= i < earlier.len() && earlier[i].0 == job && #[trigger] outcomes[i]
                    == SendOutcome::Full;
            assert(entries[i].0 == job);
        }
        assert(of_job(entries, job) =~= delivered(entries, outcomes, job) + of_job(
            books::undelivered(entries, outcomes),
            job,
        ));
    }
}

/// What a slot says on leaving, to `job`.
proof fn lemma_of_job_closing(
    entries: Seq<(u64, EventView)>,
    slot: SlotView,
    stop: Stop,
    now_us: i64,
    job: u64,
)
    ensures
        of_job(entries + slot.closing(stop, now_us), job) == if slot.job == job {
            of_job(entries, job) + match slot.pending {
                Some(event) => seq![event, slot.done(stop, now_us)],
                None => seq![slot.done(stop, now_us)],
            }
        } else {
            of_job(entries, job)
        },
{
    let done = (slot.job, slot.done(stop, now_us));
    match slot.pending {
        Some(event) => {
            let first = (slot.job, event);
            assert(entries + slot.closing(stop, now_us) =~= entries.push(first).push(done));
            lemma_of_job_push(entries, first, job);
            lemma_of_job_push(entries.push(first), done, job);
            if slot.job == job {
                assert(of_job(entries, job).push(event).push(done.1) =~= of_job(entries, job)
                    + seq![event, done.1]);
            }
        },
        None => {
            assert(entries + slot.closing(stop, now_us) =~= entries.push(done));
            lemma_of_job_push(entries, done, job);
            if slot.job == job {
                assert(of_job(entries, job).push(done.1) =~= of_job(entries, job) + seq![done.1]);
            }
        },
    }
}

/// Retiring a slot leaves every caller accounted for. The slot may be one that
/// has just taken its last token.
proof fn lemma_retired_accounted(
    s: EngineView,
    index: int,
    stop: Stop,
    now_us: i64,
    job: u64,
    caller: Caller,
    cause: Option<Cause>,
)
    requires
        0 <= index < s.slots.len(),
        stopped_by(stop, cause),
        s.slots[index] matches Some(slot) ==> (slot.pending matches Some(event) ==> event is Token)
            && (stop == Stop::Limit || stop == Stop::ContextFull ==> slot.n_decoded == slot.budget
            && stop == slot.exhausted()),
        accounted(s, job, caller),
    ensures
        accounted(
            s.retired(index, stop, now_us),
            job,
            caller.ended_by(s.slots[index], job, cause),
        ),
{
    if let Some(slot) = s.slots[index] {
        let next = caller.ended_by(s.slots[index], job, cause);
        let r = s.retired(index, stop, now_us);
        lemma_held_update(s.slots, index, None, job);
        lemma_held_at(s.slots, index, job);
        lemma_of_job_closing(s.outbox, slot, stop, now_us, job);
        if slot.job == job {
            assert(running(s, job, caller));
            assert(in_step(s.slots[index], job, caller, s.n_ctx));
            let done = slot.done(stop, now_us);
            let waiting = of_job(r.outbox, job);
            assert(of_job(s.outbox, job) =~= Seq::<EventView>::empty());
            match slot.pending {
                Some(event) => {
                    let heard = caller.heard.push(event);
                    assert(waiting =~= seq![event, done]);
                    assert(caller.heard + waiting =~= heard.push(done));
                    lemma_said_push(caller.heard, event);
                    lemma_complete_push(heard, done);
                },
                None => {
                    assert(waiting =~= seq![done]);
                    assert(caller.heard + waiting =~= caller.heard.push(done));
                    lemma_complete_push(caller.heard, done);
                    assert(said(caller.heard) + pending_text(slot.pending) =~= said(caller.heard));
                },
            }
            assert(ended(r, job, next));
        } else {
            if caller.arrivals == 1 {
                if running(s, job, caller) {
                    assert forall|i: int| 0 <= i < r.slots.len() implies in_step(
                        #[trigger] r.slots[i],
                        job,
                        caller,
                        r.n_ctx,
                    ) by {
                        if i != index {
                            assert(r.slots[i] == s.slots[i]);
                        }
                    }
                    assert(running(r, job, caller));
                } else {
                    assert(ended(r, job, caller));
                }
            }
        }
    }
}

proof fn lemma_failed_accounted(
    s: EngineView,
    index: int,
    error: Seq<char>,
    job: u64,
    caller: Caller,
)
    requires
        0 <= index < s.slots.len(),
        accounted(s, job, caller),
    ensures
        accounted(
            s.failed(index, error),
            job,
            caller.ended_by(s.slots[index], job, Some(Cause::Failed(error))),
        ),
{
    if let Some(slot) = s.slots[index] {
        let next = caller.ended_by(s.slots[index], job, Some(Cause::Failed(error)));
        let r = s.failed(index, error);
        let event = EventView::Failed(error);
        lemma_held_update(s.slots, index, None, job);
        lemma_held_at(s.slots, index, job);
        lemma_of_job_push(s.outbox, (slot.job, event), job);
        if slot.job == job {
            assert(running(s, job, caller));
            assert(of_job(s.outbox, job) =~= Seq::<EventView>::empty());
            assert(caller.heard + of_job(r.outbox, job) =~= caller.heard.push(event));
            lemma_complete_push(caller.heard, event);
            assert(ended(r, job, next));
        } else if caller.arrivals == 1 {
            if running(s, job, caller) {
                assert forall|i: int| 0 <= i < r.slots.len() implies in_step(
                    #[trigger] r.slots[i],
                    job,
                    caller,
                    r.n_ctx,
                ) by {
                    if i != index {
                        assert(r.slots[i] == s.slots[i]);
                    }
                }
                assert(running(r, job, caller));
            } else {
                assert(ended(r, job, caller));
            }
        }
    }
}

proof fn lemma_answered_accounted(
    s: EngineView,
    event: EventView,
    job: u64,
    caller: Caller,
    cause: Option<Cause>,
)
    requires
        s.prefilling is Some,
        event.terminal(),
        faithful(seq![event], Caller { cause, ..caller }, s.n_ctx) || ingesting(s, job) == 0,
        accounted(s, job, caller),
    ensures
        accounted(
            s.answered(event),
            job,
            if ingesting(s, job) == 1 {
                Caller { cause, ..caller }
            } else {
                caller
            },
        ),
{
    let r = s.answered(event);
    let next = Caller { cause, ..caller };
    let (prefilling, _) = s.prefilling.unwrap();
    lemma_of_job_push(s.outbox, (prefilling, event), job);
    if prefilling == job {
        assert(running(s, job, caller));
        assert(of_job(s.outbox, job) =~= Seq::<EventView>::empty());
        assert(caller.heard + of_job(r.outbox, job) =~= caller.heard.push(event));
        lemma_complete_push(caller.heard, event);
        assert(caller.text =~= Seq::<char>::empty());
        assert(caller.heard =~= Seq::<EventView>::empty());
        assert(caller.heard.push(event) =~= seq![event]);
        assert(ended(r, job, next));
    } else if caller.arrivals == 1 {
        if running(s, job, caller) {
            assert(running(r, job, caller));
        } else {
            assert(ended(r, job, caller));
        }
    }
}

proof fn lemma_step_accounted(
    s: EngineView,
    cancelled: Seq<bool>,
    now_us: i64,
    n: nat,
    job: u64,
    caller: Caller,
)
    requires
        s.wf(),
        cancelled.len() == s.slots.len(),
        n <= s.slots.len(),
        accounted(s, job, caller),
    ensures
        accounted(
            laws::partly_cancelled(s, cancelled, now_us, n),
            job,
            caller.cancelled_by(s.slots, cancelled, n, job),
        ),
    decreases n,
{
    if n > 0 {
        let before = (n - 1) as nat;
        lemma_step_accounted(s, cancelled, now_us, before, job, caller);
        laws::lemma_partly_cancelled(s, cancelled, now_us, before);
        let earlier = laws::partly_cancelled(s, cancelled, now_us, before);
        let told = caller.cancelled_by(s.slots, cancelled, before, job);
        let slot = earlier.slots[n - 1];
        assert(slot == s.slots[n - 1]);
        if cancelled[n - 1] {
            lemma_retired_accounted(
                earlier,
                n - 1,
                Stop::Cancelled,
                now_us,
                job,
                told,
                Some(Cause::Cancelled),
            );
        }
        if cancels(s.slots, cancelled, n, job) && !cancels(s.slots, cancelled, before, job) {
            let i = choose|i: int|
                0 <= i < n && cancelled[i] && works_for(#[trigger] s.slots[i], job) == 1;
            assert(i == n - 1);
        }
        if cancels(s.slots, cancelled, before, job) {
            let i = choose|i: int|
                0 <= i < before && cancelled[i] && works_for(#[trigger] s.slots[i], job) == 1;
            assert(works_for(s.slots[i], job) == 1);
            assert(cancels(s.slots, cancelled, n, job));
        }
    }
}

proof fn lemma_flush_accounted(
    s: EngineView,
    index: int,
    outcome: SendOutcome,
    now_ns: u64,
    now_us: i64,
    job: u64,
    caller: Caller,
)
    requires
        s.wf(),
        0 <= index < s.slots.len(),
        accounted(s, job, caller),
        listening(s, Move::Flush { index, outcome, now_ns, now_us }, job),
    ensures
        accounted(
            s.flushed(index, outcome, now_ns, now_us),
            job,
            caller.after(s, Move::Flush { index, outcome, now_ns, now_us }, job),
        ),
{
    if let Some(slot) = s.slots[index] {
        let m = Move::Flush { index, outcome, now_ns, now_us };
        let kept = slot.flushed(outcome, now_ns);
        let middle = EngineView { slots: s.slots.update(index, Some(kept)), ..s };
        let heard = Caller { cause: caller.cause, ..caller.after(s, m, job) };
        lemma_held_update(s.slots, index, Some(kept), job);
        lemma_held_at(s.slots, index, job);
        if caller.arrivals == 1 && running(s, job, caller) {
            if slot.job == job {
                if let Some(event) = slot.pending {
                    if outcome == SendOutcome::Sent {
                        lemma_said_push(caller.heard, event);
                        assert(said(heard.heard) + pending_text(kept.pending) =~= said(caller.heard)
                            + pending_text(slot.pending));
                        assert forall|i: int|
                            0 <= i < heard.heard.len() implies #[trigger] heard.heard[i] is Token by {
                            if i < caller.heard.len() {
                                assert(heard.heard[i] == caller.heard[i]);
                            }
                        }
                    }
                }
            }
            assert forall|i: int| 0 <= i < middle.slots.len() implies in_step(
                #[trigger] middle.slots[i],
                job,
                heard,
                middle.n_ctx,
            ) by {
                if i != index {
                    assert(middle.slots[i] == s.slots[i]);
                    if slot.job == job && (s.slots[i] matches Some(other) && other.job == job) {
                        lemma_held_update(s.slots, index, None, job);
                        lemma_held_at(s.slots.update(index, None), i, job);
                    }
                }
            }
            assert(running(middle, job, heard));
        } else if caller.arrivals == 1 {
            assert(ended(middle, job, heard));
        }
        assert(accounted(middle, job, heard));
        if slot.flush_verdict(outcome, now_ns) == Flush::Abandoned {
            lemma_retired_accounted(
                middle,
                index,
                Stop::Cancelled,
                now_us,
                job,
                heard,
                Some(Cause::GivenUp),
            );
        }
    }
}

proof fn lemma_sampled_accounted(
    s: EngineView,
    index: int,
    token: i32,
    bytes: Seq<u8>,
    now_us: i64,
    job: u64,
    caller: Caller,
)
    requires
        s.wf(),
        0 <= index < s.slots.len(),
        s.slots[index] matches Some(slot) ==> slot.pending is None,
        accounted(s, job, caller),
    ensures
        ({
            let next = match s.slots[index] {
                Some(slot) => if slot.job == job {
                    caller.with_token(bytes)
                } else {
                    caller
                },
                None => caller,
            };
            accounted(s.advanced(index, token, bytes, now_us), job, next)
        }),
{
    if let Some(slot) = s.slots[index] {
        let extended = slot.extended(token, bytes);
        let middle = EngineView { slots: s.slots.update(index, Some(extended)), ..s };
        let next = if slot.job == job {
            caller.with_token(bytes)
        } else {
            caller
        };
        lemma_held_update(s.slots, index, Some(extended), job);
        lemma_held_at(s.slots, index, job);
        if caller.arrivals == 1 && running(s, job, caller) {
            if slot.job == job {
                assert(said(caller.heard) + pending_text(slot.pending) =~= said(caller.heard));
                assert(slot.fed == caller.sampled);
            }
            assert forall|i: int| 0 <= i < middle.slots.len() implies in_step(
                #[trigger] middle.slots[i],
                job,
                next,
                middle.n_ctx,
            ) by {
                if i != index {
                    assert(middle.slots[i] == s.slots[i]);
                    if slot.job == job && (s.slots[i] matches Some(other) && other.job == job) {
                        lemma_held_update(s.slots, index, None, job);
                        lemma_held_at(s.slots.update(index, None), i, job);
                    }
                }
            }
            assert(running(middle, job, next));
        } else if caller.arrivals == 1 {
            assert(ended(middle, job, next));
        }
        assert(accounted(middle, job, next));
        if extended.n_decoded >= extended.budget {
            lemma_retired_accounted(middle, index, extended.exhausted(), now_us, job, next, None);
        }
    }
}

proof fn lemma_prefilled_accounted(
    s: EngineView,
    prefilled: Prefilled,
    now_us: i64,
    job: u64,
    caller: Caller,
)
    requires
        s.wf(),
        s.prefilling is Some,
        prefilled.prompt_tokens < s.n_ctx,
        accounted(s, job, caller),
    ensures
        accounted(
            s.after_prefill(prefilled, now_us),
            job,
            caller.after(s, Move::Prefilled { prefilled, now_us }, job),
        ),
{
    let (claimed, index) = s.prefilling.unwrap();
    let next = caller.after(s, Move::Prefilled { prefilled, now_us }, job);
    let r = s.after_prefill(prefilled, now_us);
    if r.outbox.len() == s.outbox.len() + 1 {
        let last = r.outbox.last().1;
        let open = Caller { cause: caller.cause, ..next };
        if claimed == job {
            assert(running(s, job, caller));
            assert forall|i: int| 0 <= i < s.slots.len() implies in_step(
                #[trigger] s.slots[i],
                job,
                open,
                s.n_ctx,
            ) by {
                lemma_held_at(s.slots, i, job);
            }
            assert(running(s, job, open));
            assert(said(seq![last]) =~= next.text) by {
                assert(seq![last] =~= Seq::<EventView>::empty().push(last));
                lemma_said_push(Seq::empty(), last);
                assert(said(Seq::empty()) =~= Seq::<char>::empty());
            }
        }
        lemma_answered_accounted(s, last, job, open, next.cause);
        assert(r.outbox =~= s.answered(last).outbox);
    } else if r.outbox.len() > s.outbox.len() {
        let piece = r.outbox[s.outbox.len() as int].1;
        let last = r.outbox.last().1;
        let middle = s.outbox.push((claimed, piece));
        lemma_of_job_push(s.outbox, (claimed, piece), job);
        lemma_of_job_push(middle, (claimed, last), job);
        assert(r.outbox =~= middle.push((claimed, last)));
        if claimed == job {
            assert(running(s, job, caller));
            assert(of_job(s.outbox, job) =~= Seq::<EventView>::empty());
            assert(caller.sampled =~= Seq::<u8>::empty());
            assert(caller.text =~= Seq::<char>::empty());
            assert(caller.heard =~= Seq::<EventView>::empty());
            let heard = caller.heard.push(piece);
            lemma_said_push(caller.heard, piece);
            lemma_complete_push(heard, last);
            assert(next.heard + of_job(r.outbox, job) =~= heard.push(last));
            assert(said(heard) =~= next.text);
            assert(ended(r, job, next));
        } else if caller.arrivals == 1 {
            if running(s, job, caller) {
                assert(running(r, job, next));
            } else {
                assert(ended(r, job, next));
            }
        }
    } else {
        lemma_held_update(s.slots, index, r.slots[index], job);
        if claimed == job {
            assert(running(s, job, caller));
            assert(caller.sampled =~= Seq::<u8>::empty());
            assert(caller.text =~= Seq::<char>::empty());
            assert(caller.heard =~= Seq::<EventView>::empty());
            let slot = r.slots[index].unwrap();
            assert(slot.fed =~= next.sampled);
            assert(said(next.heard) + pending_text(slot.pending) =~= next.text);
            assert forall|i: int| 0 <= i < r.slots.len() implies in_step(
                #[trigger] r.slots[i],
                job,
                next,
                r.n_ctx,
            ) by {
                if i != index {
                    assert(r.slots[i] == s.slots[i]);
                    lemma_held_at(s.slots, i, job);
                }
            }
            assert(running(r, job, next));
        } else if caller.arrivals == 1 {
            if running(s, job, caller) {
                assert forall|i: int| 0 <= i < r.slots.len() implies in_step(
                    #[trigger] r.slots[i],
                    job,
                    next,
                    r.n_ctx,
                ) by {
                    if i != index {
                        assert(r.slots[i] == s.slots[i]);
                    }
                }
                assert(running(r, job, next));
            } else {
                assert(ended(r, job, next));
            }
        }
    }
}

/// Whatever happens, a caller who listens stays accounted for, as long as its
/// request is not claimed a second time.
pub proof fn every_move_keeps_a_listening_caller_accounted_for(
    s: EngineView,
    m: Move,
    job: u64,
    caller: Caller,
)
    requires
        s.wf(),
        s.allows(m),
        listening(s, m, job),
        accounted(s, job, caller),
        caller.after(s, m, job).arrivals <= 1,
    ensures
        accounted(s.next(m), job, caller.after(s, m, job)),
{
    let next = caller.after(s, m, job);
    let r = s.next(m);
    match m {
        Move::Submit(_) => {
            if caller.arrivals == 1 {
                if running(s, job, caller) {
                    assert(running(r, job, next));
                } else {
                    assert(ended(r, job, next));
                }
            }
        },
        Move::Sweep(outcomes) => {
            lemma_sweep(s.outbox, outcomes, job);
            let all = caller.heard + of_job(s.outbox, job);
            assert(next.heard + of_job(r.outbox, job) =~= all);
            if of_job(s.outbox, job).len() == 0 {
                assert(next.heard =~= caller.heard);
            }
            if caller.arrivals == 1 {
                if running(s, job, caller) {
                    assert(running(r, job, next));
                } else {
                    assert(ended(r, job, next));
                }
            }
        },
        Move::Flush { index, outcome, now_ns, now_us } => {
            lemma_flush_accounted(s, index, outcome, now_ns, now_us, job, caller);
        },
        Move::Arrive(Arrival::Job { job: arrived, cancelled }) => {
            if cancelled {
                let event = r.outbox.last().1;
                lemma_of_job_push(s.outbox, (arrived, event), job);
                if arrived == job {
                    assert(of_job(s.outbox, job) =~= Seq::<EventView>::empty());
                    assert(caller.heard =~= Seq::<EventView>::empty());
                    assert(next.heard + of_job(r.outbox, job) =~= caller.heard.push(event));
                    lemma_complete_push(caller.heard, event);
                    assert(said(caller.heard) =~= caller.text);
                    assert(ended(r, job, next));
                }
            }
            if arrived == job {
                if !cancelled {
                    assert forall|i: int| 0 <= i < r.slots.len() implies in_step(
                        #[trigger] r.slots[i],
                        job,
                        next,
                        r.n_ctx,
                    ) by {
                        lemma_held_at(s.slots, i, job);
                    }
                    assert(running(r, job, next));
                }
            } else if caller.arrivals == 1 {
                if running(s, job, caller) {
                    assert(running(r, job, next));
                } else {
                    assert(ended(r, job, next));
                }
            }
        },
        Move::Arrive(_) => {
            if caller.arrivals == 1 {
                if running(s, job, caller) {
                    assert(running(r, job, next));
                } else {
                    assert(ended(r, job, next));
                }
            }
        },
        Move::Prefilled { prefilled, now_us } => {
            lemma_prefilled_accounted(s, prefilled, now_us, job, caller);
        },
        Move::PrefillFailed(error) => {
            lemma_answered_accounted(
                s,
                EventView::Failed(error),
                job,
                caller,
                Some(Cause::Failed(error)),
            );
        },
        Move::Step { cancelled, now_us } => {
            laws::lemma_step_is_a_run_of_retirements(s, cancelled, now_us);
            lemma_step_accounted(s, cancelled, now_us, s.slots.len(), job, caller);
        },
        Move::Sampled { index, sampled, now_us } => {
            match sampled {
                Sampled::EndOfGeneration => {
                    lemma_retired_accounted(
                        s,
                        index,
                        Stop::EndOfGeneration,
                        now_us,
                        job,
                        caller,
                        Some(Cause::EndSampled),
                    );
                },
                Sampled::Token { token, bytes } => {
                    lemma_sampled_accounted(s, index, token, bytes@, now_us, job, caller);
                },
                Sampled::Unprintable { error } => {
                    lemma_failed_accounted(s, index, error@, job, caller);
                },
            }
        },
        Move::Fail { index, error } => {
            lemma_failed_accounted(s, index, error, job, caller);
        },
    }
}

/// A caller who listens is accounted for after any run in which its request is
/// claimed no more than once.
pub proof fn a_listening_caller_is_accounted_for_on_every_run(
    s: EngineView,
    moves: Seq<Move>,
    job: u64,
)
    requires
        s.wf(),
        s.allows_all(moves),
        listening_all(s, moves, job),
        accounted(s, job, Caller::fresh()),
        Caller::fresh().after_all(s, moves, job).arrivals <= 1,
    ensures
        accounted(s.after(moves), job, Caller::fresh().after_all(s, moves, job)),
    decreases moves.len(),
{
    if moves.len() > 0 {
        let earlier = moves.drop_last();
        a_listening_caller_is_accounted_for_on_every_run(s, earlier, job);
        laws::the_books_stay_in_order_on_every_run(s, earlier);
        every_move_keeps_a_listening_caller_accounted_for(
            s.after(earlier),
            moves.last(),
            job,
            Caller::fresh().after_all(s, earlier, job),
        );
    }
}

/// What a caller who listens has heard once its request has left the engine:
/// text, then one terminal event, then nothing. Unless the generation failed,
/// there is one piece for each token generated for it, in order, none lost and
/// none repeated, whoever else was being served and however slowly they read;
/// it got no more tokens than it asked for or than its context holds, and is
/// told which of the two gave out. That the model was done, that the generation
/// was cancelled, and that it failed are each told only where that is what ended
/// it.
pub proof fn a_listening_caller_hears_its_whole_generation(
    s: EngineView,
    moves: Seq<Move>,
    job: u64,
)
    requires
        s.wf(),
        s.allows_all(moves),
        listening_all(s, moves, job),
        accounted(s, job, Caller::fresh()),
        Caller::fresh().after_all(s, moves, job).arrivals == 1,
        held(s.after(moves).slots, job) + ingesting(s.after(moves), job) == 0,
        of_job(s.after(moves).outbox, job).len() == 0,
    ensures
        ({
            let caller = Caller::fresh().after_all(s, moves, job);
            &&& complete(caller.heard)
            &&& faithful(caller.heard, caller, s.after(moves).n_ctx)
        }),
{
    a_listening_caller_is_accounted_for_on_every_run(s, moves, job);
    let caller = Caller::fresh().after_all(s, moves, job);
    assert(caller.heard + of_job(s.after(moves).outbox, job) =~= caller.heard);
}

/// The text of a caller is that of the bytes generated for it, once there are
/// any.
pub open spec fn spelled(caller: Caller) -> bool {
    caller.tokens > 0 ==> {
        &&& caller.text == pieces::decoded_text(caller.sampled)
        &&& vstd::utf8::valid_utf8(caller.sampled) && !pieces::has_bom(caller.sampled)
            ==> caller.text == vstd::utf8::decode_utf8(caller.sampled)
    }
}

proof fn lemma_spelled(s: EngineView, m: Move, job: u64, caller: Caller)
    requires
        s.wf(),
        s.allows(m),
        s.renders(m),
        accounted(s, job, caller),
        spelled(caller),
    ensures
        spelled(caller.after(s, m, job)),
{
    match m {
        Move::Prefilled { prefilled, .. } => {
            if let Sampled::Token { bytes, .. } = prefilled.first {
                if ingesting(s, job) == 1 && prefilled.max_tokens > 0 {
                    assert(running(s, job, caller));
                    assert(caller.sampled =~= Seq::<u8>::empty());
                    assert(caller.text =~= pieces::decoded_text(caller.sampled));
                }
            }
        },
        Move::Sampled { index, sampled, .. } => {
            if let (Some(slot), Sampled::Token { bytes, .. }) = (s.slots[index], sampled) {
                if slot.job == job {
                    lemma_held_at(s.slots, index, job);
                    assert(running(s, job, caller));
                    assert(in_step(s.slots[index], job, caller, s.n_ctx));
                }
            }
        },
        _ => {},
    }
}

proof fn lemma_spelled_on_every_run(s: EngineView, moves: Seq<Move>, job: u64)
    requires
        s.wf(),
        s.allows_all(moves),
        s.renders_all(moves),
        listening_all(s, moves, job),
        accounted(s, job, Caller::fresh()),
        Caller::fresh().after_all(s, moves, job).arrivals <= 1,
    ensures
        spelled(Caller::fresh().after_all(s, moves, job)),
    decreases moves.len(),
{
    if moves.len() > 0 {
        let earlier = moves.drop_last();
        lemma_spelled_on_every_run(s, earlier, job);
        a_listening_caller_is_accounted_for_on_every_run(s, earlier, job);
        laws::the_books_stay_in_order_on_every_run(s, earlier);
        lemma_spelled(
            s.after(earlier),
            moves.last(),
            job,
            Caller::fresh().after_all(s, earlier, job),
        );
    }
}

/// What a caller who listens has heard of a generation that did not fail is
/// what the bytes generated for it spell, as the decoder reads them: and where
/// they are valid UTF-8 without a byte order mark, it is their characters.
pub proof fn a_listening_caller_hears_what_the_bytes_spell(
    s: EngineView,
    moves: Seq<Move>,
    job: u64,
)
    requires
        s.wf(),
        s.allows_all(moves),
        s.renders_all(moves),
        listening_all(s, moves, job),
        accounted(s, job, Caller::fresh()),
        Caller::fresh().after_all(s, moves, job).arrivals == 1,
        held(s.after(moves).slots, job) + ingesting(s.after(moves), job) == 0,
        of_job(s.after(moves).outbox, job).len() == 0,
    ensures
        ({
            let caller = Caller::fresh().after_all(s, moves, job);
            &&& spelled(caller)
            &&& caller.heard.last() is Done && caller.tokens > 0 ==> {
                &&& said(caller.heard) == pieces::decoded_text(caller.sampled)
                &&& vstd::utf8::valid_utf8(caller.sampled) && !pieces::has_bom(caller.sampled)
                    ==> said(caller.heard) == vstd::utf8::decode_utf8(caller.sampled)
            }
        }),
{
    a_listening_caller_hears_its_whole_generation(s, moves, job);
    lemma_spelled_on_every_run(s, moves, job);
}

} // verus!
