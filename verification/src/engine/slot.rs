//! One request, occupying one sequence of the shared context.

use vstd::prelude::*;

use crate::engine::event::{Event, EventView, Stop};
use crate::engine::pieces;
use crate::engine::pieces::PieceDecoder;

verus! {

/// How long a slot may hold its sequence while the caller refuses to read
/// before the engine takes the slot back, in nanoseconds.
pub const STALL_TIMEOUT_NS: u64 = 30_000_000_000;

/// What became of an event that was offered to its caller.
#[derive(Debug, Clone, Copy, PartialEq, Eq, Structural)]
pub enum SendOutcome {
    Sent,
    /// The caller is behind.
    Full,
    /// The caller is gone.
    Closed,
}

/// Where a slot stands with its caller.
#[derive(Debug, Clone, Copy, PartialEq, Eq, Structural)]
pub enum Flush {
    /// Nothing outstanding; the slot can be decoded.
    Ready,
    /// The caller is behind. Skip this slot for now.
    Stalled,
    /// The caller is gone, or too far behind to wait for.
    Abandoned,
}

/// The token sampled for a slot.
#[derive(Debug)]
pub enum Sampled {
    EndOfGeneration,
    Token { token: i32, bytes: Vec<u8> },
    /// A token whose bytes could not be had.
    Unprintable { error: String },
}

pub struct Slot {
    /// The generation this slot works for.
    pub job: u64,
    pub decoder: PieceDecoder,
    pub seq_id: u32,
    /// Position the next token will occupy.
    pub n_cur: u32,
    /// The token to feed at `n_cur`. Already sent to the caller.
    pub next_input: i32,
    pub prompt_tokens: u32,
    pub n_decoded: u32,
    /// Tokens this slot may generate.
    pub budget: u32,
    /// Whether that budget came from the context rather than the request.
    pub context_bound: bool,
    pub started_us: i64,
    /// A piece the caller has not taken yet. While this is set the slot stays
    /// out of the batch: one slow reader must not hold up the others.
    pub pending: Option<Event>,
    /// When the caller first refused that piece, in nanoseconds.
    pub stalled_since: Option<u64>,
}

/// A slot with its decoder as the bytes fed so far and its event as characters.
pub struct SlotView {
    pub job: u64,
    pub fed: Seq<u8>,
    pub seq_id: u32,
    pub n_cur: u32,
    pub next_input: i32,
    pub prompt_tokens: u32,
    pub n_decoded: u32,
    pub budget: u32,
    pub context_bound: bool,
    pub started_us: i64,
    pub pending: Option<EventView>,
    pub stalled_since: Option<u64>,
}

/// The view of an event that may not be there.
pub open spec fn pending_view(pending: Option<Event>) -> Option<EventView> {
    match pending {
        Some(event) => Some(event@),
        None => None,
    }
}

impl View for Slot {
    type V = SlotView;

    open spec fn view(&self) -> SlotView {
        SlotView {
            job: self.job,
            fed: self.decoder@,
            seq_id: self.seq_id,
            n_cur: self.n_cur,
            next_input: self.next_input,
            prompt_tokens: self.prompt_tokens,
            n_decoded: self.n_decoded,
            budget: self.budget,
            context_bound: self.context_bound,
            started_us: self.started_us,
            pending: pending_view(self.pending),
            stalled_since: self.stalled_since,
        }
    }
}

/// Milliseconds from `started_us` to `now_us`, never negative.
pub open spec fn elapsed_ms(started_us: i64, now_us: i64) -> int {
    if now_us <= started_us {
        0
    } else {
        (now_us - started_us) / 1000
    }
}

/// How many tokens a request for `max_tokens` may generate where the context
/// has room for `room` more.
pub open spec fn budget_for(max_tokens: i32, room: u32) -> u32 {
    let asked: int = if max_tokens < 0 {
        0
    } else {
        max_tokens as int
    };
    if asked < room {
        asked as u32
    } else {
        room
    }
}

impl SlotView {
    /// The slot at `index` of an engine whose slots have `n_ctx` each. It is
    /// below its budget, and the position it feeds next is inside the context.
    pub open spec fn wf(self, index: int, n_ctx: u32) -> bool {
        &&& self.seq_id == index
        &&& 1 <= self.n_decoded < self.budget
        &&& self.prompt_tokens + self.budget <= n_ctx
        &&& self.n_cur == self.prompt_tokens + self.n_decoded - 1
        &&& self.pending matches Some(event) ==> event is Token
    }

    /// The slot after its pending event met `outcome` at `now_ns`.
    pub open spec fn flushed(self, outcome: SendOutcome, now_ns: u64) -> SlotView {
        if self.pending is None {
            self
        } else {
            match outcome {
                SendOutcome::Sent => SlotView { pending: None, stalled_since: None, ..self },
                SendOutcome::Full => SlotView {
                    stalled_since: Some(self.stall_start(now_ns)),
                    ..self
                },
                SendOutcome::Closed => SlotView { pending: None, ..self },
            }
        }
    }

    /// When the current stall began, if it is still going on at `now_ns`.
    pub open spec fn stall_start(self, now_ns: u64) -> u64 {
        match self.stalled_since {
            Some(since) => since,
            None => now_ns,
        }
    }

    /// What `outcome` at `now_ns` says about the caller.
    pub open spec fn flush_verdict(self, outcome: SendOutcome, now_ns: u64) -> Flush {
        if self.pending is None || outcome == SendOutcome::Sent {
            Flush::Ready
        } else if outcome == SendOutcome::Closed {
            Flush::Abandoned
        } else if now_ns - self.stall_start(now_ns) > STALL_TIMEOUT_NS {
            Flush::Abandoned
        } else {
            Flush::Stalled
        }
    }

    /// The slot after one more token, with the piece it completes on its way
    /// to the caller.
    pub open spec fn extended(self, token: i32, bytes: Seq<u8>) -> SlotView {
        SlotView {
            fed: self.fed + bytes,
            n_cur: (self.n_cur + 1) as u32,
            next_input: token,
            n_decoded: (self.n_decoded + 1) as u32,
            pending: Some(EventView::Token(pieces::piece_text(self.fed, bytes))),
            ..self
        }
    }

    /// Why a slot that has used up its budget stops.
    pub open spec fn exhausted(self) -> Stop {
        if self.context_bound {
            Stop::ContextFull
        } else {
            Stop::Limit
        }
    }

    /// The terminal event of a slot that stops for `stop` at `now_us`.
    pub open spec fn done(self, stop: Stop, now_us: i64) -> EventView {
        EventView::Done {
            stop,
            prompt_tokens: self.prompt_tokens,
            tokens: self.n_decoded,
            elapsed_ms: elapsed_ms(self.started_us, now_us) as u64,
        }
    }

    /// The last events of a slot that stops for `stop` at `now_us`: the piece
    /// its caller has not taken yet, then the terminal event.
    pub open spec fn closing(self, stop: Stop, now_us: i64) -> Seq<(u64, EventView)> {
        match self.pending {
            Some(event) => seq![(self.job, event), (self.job, self.done(stop, now_us))],
            None => seq![(self.job, self.done(stop, now_us))],
        }
    }
}

/// The slot that the first token of a prompt opens.
pub open spec fn opened(
    job: u64,
    seq_id: u32,
    prompt_tokens: u32,
    max_tokens: i32,
    n_ctx: u32,
    token: i32,
    bytes: Seq<u8>,
    now_us: i64,
) -> SlotView {
    let room = (n_ctx - prompt_tokens) as u32;
    SlotView {
        job,
        fed: bytes,
        seq_id,
        n_cur: prompt_tokens,
        next_input: token,
        prompt_tokens,
        n_decoded: 1,
        budget: budget_for(max_tokens, room),
        context_bound: max_tokens > room,
        started_us: now_us,
        pending: Some(EventView::Token(pieces::piece_text(Seq::empty(), bytes))),
        stalled_since: None,
    }
}

impl Slot {
    /// Open a slot on the first token of a prompt.
    pub fn open(
        job: u64,
        seq_id: u32,
        prompt_tokens: u32,
        max_tokens: i32,
        n_ctx: u32,
        token: i32,
        bytes: &Vec<u8>,
        now_us: i64,
    ) -> (slot: Slot)
        requires
            prompt_tokens < n_ctx,
            bytes@.len() <= usize::MAX / 8,
        ensures
            slot@ == opened(
                job,
                seq_id,
                prompt_tokens,
                max_tokens,
                n_ctx,
                token,
                bytes@,
                now_us,
            ),
            pieces::begins(bytes@),
            slot@.job == job,
            slot@.seq_id == seq_id,
            slot@.prompt_tokens == prompt_tokens,
            slot@.n_cur == prompt_tokens,
            slot@.next_input == token,
            slot@.n_decoded == 1,
            slot@.fed == bytes@,
            slot@.started_us == now_us,
            slot@.stalled_since is None,
            slot@.pending == Some(
                EventView::Token(pieces::piece_text(Seq::empty(), bytes@)),
            ),
            max_tokens <= 0 ==> slot@.budget == 0,
            0 <= max_tokens <= n_ctx - prompt_tokens ==> slot@.budget == max_tokens,
            max_tokens >= n_ctx - prompt_tokens ==> slot@.budget == n_ctx - prompt_tokens,
            slot@.context_bound <==> max_tokens > n_ctx - prompt_tokens,
    {
        let room: u32 = n_ctx - prompt_tokens;
        let mut decoder = PieceDecoder::new();
        let piece = decoder.push(bytes.as_slice());
        assert(Seq::<u8>::empty() + bytes@ =~= bytes@);
        let asked: u32 = if max_tokens < 0 {
            0
        } else {
            max_tokens as u32
        };
        Slot {
            job,
            decoder,
            seq_id,
            n_cur: prompt_tokens,
            next_input: token,
            prompt_tokens,
            n_decoded: 1,
            budget: if asked < room {
                asked
            } else {
                room
            },
            context_bound: asked > room,
            started_us: now_us,
            pending: Some(Event::Token(piece)),
            stalled_since: None,
        }
    }

    /// Settle the slot's last piece, once it has been offered to the caller. A
    /// slot with nothing pending is ready to decode again.
    pub fn flush(&mut self, outcome: SendOutcome, now_ns: u64) -> (verdict: Flush)
        ensures
            final(self)@ == old(self)@.flushed(outcome, now_ns),
            verdict == old(self)@.flush_verdict(outcome, now_ns),
            old(self)@.pending is None ==> verdict == Flush::Ready && final(self)@ == old(self)@,
            old(self)@.pending is Some && outcome == SendOutcome::Sent ==> verdict == Flush::Ready
                && final(self)@.pending is None && final(self)@.stalled_since is None,
            old(self)@.pending is Some && outcome == SendOutcome::Closed ==> verdict
                == Flush::Abandoned,
            old(self)@.pending is Some && outcome == SendOutcome::Full ==> final(self)@.pending
                == old(self)@.pending && (match old(self)@.stalled_since {
                Some(since) => final(self)@.stalled_since == Some(since) && verdict == (
                if now_ns - since > 30_000_000_000 {
                    Flush::Abandoned
                } else {
                    Flush::Stalled
                }),
                None => final(self)@.stalled_since == Some(now_ns) && verdict == Flush::Stalled,
            }),
    {
        if self.pending.is_none() {
            return Flush::Ready;
        }
        match outcome {
            SendOutcome::Sent => {
                self.pending = None;
                self.stalled_since = None;
                Flush::Ready
            },
            SendOutcome::Full => {
                let since: u64 = match self.stalled_since {
                    Some(since) => since,
                    None => now_ns,
                };
                self.stalled_since = Some(since);
                if now_ns > since && now_ns - since > STALL_TIMEOUT_NS {
                    Flush::Abandoned
                } else {
                    Flush::Stalled
                }
            },
            SendOutcome::Closed => {
                self.pending = None;
                Flush::Abandoned
            },
        }
    }

    pub fn elapsed_ms(&self, now_us: i64) -> (elapsed: u64)
        ensures
            elapsed == elapsed_ms(self.started_us, now_us),
            now_us <= self.started_us ==> elapsed == 0,
            now_us > self.started_us ==> elapsed * 1000 <= now_us - self.started_us < (elapsed + 1)
                * 1000,
    {
        if now_us <= self.started_us {
            0
        } else {
            ((now_us as i128 - self.started_us as i128) / 1000) as u64
        }
    }

    /// Take one more token: decode its piece for the caller and feed it next.
    pub fn extend(&mut self, token: i32, bytes: &Vec<u8>)
        requires
            old(self).n_cur < u32::MAX,
            old(self).n_decoded < u32::MAX,
            bytes@.len() <= usize::MAX / 8,
        ensures
            final(self)@ == old(self)@.extended(token, bytes@),
            pieces::decodes(old(self)@.fed, bytes@),
            final(self)@.next_input == token,
            final(self)@.n_cur == old(self)@.n_cur + 1,
            final(self)@.n_decoded == old(self)@.n_decoded + 1,
            final(self)@.fed == old(self)@.fed + bytes@,
            final(self)@.pending == Some(
                EventView::Token(pieces::piece_text(old(self)@.fed, bytes@)),
            ),
    {
        let piece = self.decoder.push(bytes.as_slice());
        self.n_cur = self.n_cur + 1;
        self.next_input = token;
        self.n_decoded = self.n_decoded + 1;
        self.pending = Some(Event::Token(piece));
    }
}

/// Time is counted in whole milliseconds that have passed, and a clock that runs
/// backwards counts for nothing.
pub proof fn elapsed_time_is_whole_milliseconds(started_us: i64, now_us: i64)
    ensures
        now_us <= started_us ==> elapsed_ms(started_us, now_us) == 0,
        now_us > started_us ==> elapsed_ms(started_us, now_us) * 1000 <= now_us - started_us < (
        elapsed_ms(started_us, now_us) + 1) * 1000,
{
}

/// A request may generate what it asks for, but no more than there is room for,
/// and nothing where it asks for nothing or for less.
pub proof fn a_budget_is_what_is_asked_for_and_fits(max_tokens: i32, room: u32)
    ensures
        budget_for(max_tokens, room) <= room,
        max_tokens <= 0 ==> budget_for(max_tokens, room) == 0,
        0 <= max_tokens <= room ==> budget_for(max_tokens, room) == max_tokens,
        max_tokens >= room ==> budget_for(max_tokens, room) == room,
{
}

impl SlotView {
    /// The slot after its caller had no room at each of `times`.
    pub open spec fn refused_at(self, times: Seq<u64>) -> SlotView
        decreases times.len(),
    {
        if times.len() == 0 {
            self
        } else {
            self.refused_at(times.drop_last()).flushed(SendOutcome::Full, times.last())
        }
    }
}

proof fn lemma_stalls(slot: SlotView, times: Seq<u64>)
    requires
        slot.pending is Some,
        slot.stalled_since is None,
        times.len() > 0,
    ensures
        slot.refused_at(times).pending == slot.pending,
        slot.refused_at(times).stalled_since == Some(times[0]),
    decreases times.len(),
{
    if times.len() > 1 {
        lemma_stalls(slot, times.drop_last());
    } else {
        assert(times.drop_last() =~= Seq::<u64>::empty());
        reveal_with_fuel(SlotView::refused_at, 2);
    }
}

/// However often a caller has no room for a piece, the piece is kept for it, and
/// the slot is kept until half a minute has passed since the first time; after
/// that it is given up.
pub proof fn a_stall_counts_from_its_first_refusal(slot: SlotView, times: Seq<u64>, now_ns: u64)
    requires
        slot.pending is Some,
        slot.stalled_since is None,
        times.len() > 0,
    ensures
        slot.refused_at(times).pending == slot.pending,
        slot.refused_at(times).flush_verdict(SendOutcome::Full, now_ns) == if now_ns - times[0]
            > 30_000_000_000 {
            Flush::Abandoned
        } else {
            Flush::Stalled
        },
{
    lemma_stalls(slot, times);
}

/// A piece that is taken ends the stall: the next one gets its whole half minute,
/// counted from its own first refusal.
pub proof fn a_piece_that_is_taken_ends_the_stall(
    slot: SlotView,
    now_ns: u64,
    token: i32,
    bytes: Seq<u8>,
    later_ns: u64,
)
    requires
        slot.pending is Some,
    ensures
        slot.flush_verdict(SendOutcome::Sent, now_ns) == Flush::Ready,
        slot.flushed(SendOutcome::Sent, now_ns).pending is None,
        slot.flushed(SendOutcome::Sent, now_ns).extended(token, bytes).flush_verdict(
            SendOutcome::Full,
            later_ns,
        ) == Flush::Stalled,
        slot.flush_verdict(SendOutcome::Closed, now_ns) == Flush::Abandoned,
{
}

/// A slot with nothing to deliver is ready, whatever its caller does.
pub proof fn a_slot_with_nothing_pending_is_ready(
    slot: SlotView,
    outcome: SendOutcome,
    now_ns: u64,
)
    requires
        slot.pending is None,
    ensures
        slot.flush_verdict(outcome, now_ns) == Flush::Ready,
        slot.flushed(outcome, now_ns) == slot,
{
}

/// Settling a piece changes nothing of a generation but whether the piece is
/// still to be taken, and since when.
pub proof fn settling_a_piece_leaves_the_generation(
    slot: SlotView,
    outcome: SendOutcome,
    now_ns: u64,
)
    ensures
        slot.flushed(outcome, now_ns) == (SlotView {
            pending: slot.flushed(outcome, now_ns).pending,
            stalled_since: slot.flushed(outcome, now_ns).stalled_since,
            ..slot
        }),
{
}

/// The last events of a slot: the piece that was not taken yet, and behind it how
/// the generation ended, with the tokens of its prompt, those it generated, and
/// the time since it started.
pub proof fn a_slot_leaves_with_its_counts(slot: SlotView, stop: Stop, now_us: i64)
    ensures
        ({
            let last = slot.closing(stop, now_us);
            &&& last.len() == if slot.pending is Some {
                2int
            } else {
                1int
            }
            &&& slot.pending matches Some(piece) ==> last[0] == (slot.job, piece)
            &&& last.last().0 == slot.job
            &&& last.last().1 matches EventView::Done {
                stop: told,
                prompt_tokens,
                tokens,
                elapsed_ms,
            } && {
                &&& told == stop
                &&& prompt_tokens == slot.prompt_tokens
                &&& tokens == slot.n_decoded
                &&& now_us <= slot.started_us ==> elapsed_ms == 0
                &&& now_us > slot.started_us ==> elapsed_ms * 1000 <= now_us - slot.started_us < (
                elapsed_ms + 1) * 1000
            }
        }),
{
}

/// A slot opens with the first token behind the prompt, and each further token
/// takes its place behind the one before it, is what the model is fed next, and
/// is counted.
pub proof fn tokens_take_their_places(
    job: u64,
    seq_id: u32,
    prompt_tokens: u32,
    max_tokens: i32,
    n_ctx: u32,
    token: i32,
    bytes: Seq<u8>,
    now_us: i64,
    slot: SlotView,
)
    requires
        slot.n_cur < u32::MAX,
        slot.n_decoded < u32::MAX,
    ensures
        ({
            let first = opened(
                job,
                seq_id,
                prompt_tokens,
                max_tokens,
                n_ctx,
                token,
                bytes,
                now_us,
            );
            &&& first.job == job
            &&& first.seq_id == seq_id
            &&& first.prompt_tokens == prompt_tokens
            &&& first.n_cur == prompt_tokens
            &&& first.n_decoded == 1
            &&& first.next_input == token
            &&& first.fed == bytes
            &&& first.started_us == now_us
        }),
        ({
            let next = slot.extended(token, bytes);
            &&& next.n_cur == slot.n_cur + 1
            &&& next.n_decoded == slot.n_decoded + 1
            &&& next.next_input == token
            &&& next.fed == slot.fed + bytes
            &&& next.prompt_tokens == slot.prompt_tokens
            &&& next.job == slot.job
            &&& next.seq_id == slot.seq_id
            &&& next.budget == slot.budget
            &&& next.started_us == slot.started_us
        }),
{
}

} // verus!
