//! Completion ids.

use std::time::SystemTime;

use vstd::prelude::*;

use crate::clock;
use crate::clock::unix_millis;
use crate::text;

verus! {

/// The text of [`completion_id`]: the number of the completion with a fixed
/// number of digits, then when it started.
pub open spec fn spec_completion_id(started_ms: u64, sequence: u64) -> Seq<char> {
    "chatcmpl-"@ + (text::fixed(sequence as nat, 16) + text::hex(started_ms as nat))
}

/// The id of a completion, from when it started and how many came before it.
pub fn completion_id(started_ms: u64, sequence: u64) -> (id: String)
    ensures
        id@ == spec_completion_id(started_ms, sequence),
{
    let mut id = "chatcmpl-".to_owned();
    text::push_fixed(&mut id, sequence, 16);
    text::push_hex(&mut id, started_ms);
    assert(id@ =~= spec_completion_id(started_ms, sequence));
    id
}

/// Names the completions of a process.
pub struct CompletionIds {
    issued: u64,
    given: Ghost<Seq<Seq<char>>>,
}

impl View for CompletionIds {
    type V = Seq<Seq<char>>;

    /// The ids given out so far, the earliest first.
    closed spec fn view(&self) -> Seq<Seq<char>> {
        self.given@
    }
}

impl CompletionIds {
    /// Each id has a number of its own, counting from zero.
    pub closed spec fn wf(&self) -> bool {
        &&& self.given@.len() == self.issued
        &&& forall|i: int| 0 <= i < self.given@.len() ==> is_id(#[trigger] self.given@[i], i)
    }

    pub fn new() -> (ids: CompletionIds)
        ensures
            ids.wf(),
            ids@ == Seq::<Seq<char>>::empty(),
    {
        CompletionIds { issued: 0, given: Ghost(Seq::empty()) }
    }

    /// How many ids have been given out.
    pub fn issued(&self) -> (issued: u64)
        requires
            self.wf(),
        ensures
            issued == self@.len(),
    {
        self.issued
    }

    /// The id of a completion that starts now. It is unlike any given out
    /// before, and sorts after all of them, whatever the clock reads.
    pub fn next_completion_id(&mut self) -> (id: String)
        requires
            old(self).wf(),
            old(self)@.len() < u64::MAX,
        ensures
            final(self).wf(),
            final(self)@ == old(self)@.push(id@),
            follows(old(self)@, id@),
    {
        let started_ms = unix_millis();
        let id = completion_id(started_ms, self.issued);
        proof {
            let n = self.issued;
            assert("chatcmpl-"@.is_prefix_of(id@));
            assert forall|i: int| 0 <= i < self@.len() implies text::precedes(
                #[trigger] self@[i],
                id@,
            ) && self@[i] != id@ by {
                assert(is_id(self.given@[i], i));
                let ms = choose|ms: u64| self.given@[i] == #[trigger] spec_completion_id(ms, i as u64);
                completion_ids_are_unique_and_ordered(ms, i as u64, started_ms, n);
            }
            assert(id@ == spec_completion_id(started_ms, (n as int) as u64));
            assert(is_id(id@, n as int));
        }
        self.issued = self.issued + 1;
        self.given = Ghost(self.given@.push(id@));
        id
    }
}

/// Whether `id` is the next one after `given`: made from their number and some
/// reading of the clock, unlike any of them, and sorted after all of them.
pub open spec fn follows(given: Seq<Seq<char>>, id: Seq<char>) -> bool {
    &&& exists|now: SystemTime|
        id == spec_completion_id(
            clock::whole_millis(#[trigger] clock::reading(now)) as u64,
            given.len() as u64,
        )
    &&& "chatcmpl-"@.is_prefix_of(id)
    &&& forall|i: int|
        0 <= i < given.len() ==> text::precedes(#[trigger] given[i], id) && given[i] != id
}

/// Whether `id` is one of the completion with the number `sequence`.
pub open spec fn is_id(id: Seq<char>, sequence: int) -> bool {
    exists|ms: u64| id == #[trigger] spec_completion_id(ms, sequence as u64)
}

/// Ids are unique within a process and ordered: a completion with a higher
/// number has another id, and one that sorts later, whatever the clock said of
/// the two.
pub proof fn completion_ids_are_unique_and_ordered(
    earlier_ms: u64,
    earlier: u64,
    later_ms: u64,
    later: u64,
)
    requires
        earlier < later,
    ensures
        spec_completion_id(earlier_ms, earlier) != spec_completion_id(later_ms, later),
        text::precedes(
            spec_completion_id(earlier_ms, earlier),
            spec_completion_id(later_ms, later),
        ),
{
    text::sixteen_digits_fit(earlier);
    text::sixteen_digits_fit(later);
    text::numbers_of_one_width_sort(
        earlier as nat,
        later as nat,
        16,
        text::hex(earlier_ms as nat),
        text::hex(later_ms as nat),
    );
    let p = text::fixed(earlier as nat, 16) + text::hex(earlier_ms as nat);
    let q = text::fixed(later as nat, 16) + text::hex(later_ms as nat);
    let x = spec_completion_id(earlier_ms, earlier);
    let y = spec_completion_id(later_ms, later);
    let n = "chatcmpl-"@.len();
    let k = choose|k: int| #[trigger] text::differs_first_at(p, q, k);
    assert(x[n + k] == p[k] && y[n + k] == q[k]);
    assert forall|j: int| 0 <= j < n + k implies #[trigger] x[j] == y[j] by {
        if j >= n {
            assert(x[j] == p[j - n] && y[j] == q[j - n]);
        }
    }
    assert(text::differs_first_at(x, y, n + k));
}

/// However many ids are given out in a process and whatever its clock reads, no
/// two of them are equal, and a later one sorts after an earlier one.
pub proof fn ids_sort_as_they_are_given(ids: CompletionIds)
    requires
        ids.wf(),
    ensures
        forall|i: int| 0 <= i < ids@.len() ==> "chatcmpl-"@.is_prefix_of(#[trigger] ids@[i]),
        forall|i: int, k: int|
            0 <= i < k < ids@.len() ==> text::precedes(#[trigger] ids@[i], #[trigger] ids@[k])
                && ids@[i] != ids@[k],
{
    assert forall|i: int| 0 <= i < ids@.len() implies "chatcmpl-"@.is_prefix_of(
        #[trigger] ids@[i],
    ) by {
        assert(is_id(ids.given@[i], i));
    }
    assert forall|i: int, k: int| 0 <= i < k < ids@.len() implies text::precedes(
        #[trigger] ids@[i],
        #[trigger] ids@[k],
    ) && ids@[i] != ids@[k] by {
        assert(is_id(ids.given@[i], i) && is_id(ids.given@[k], k));
        let earlier = choose|ms: u64| ids@[i] == #[trigger] spec_completion_id(ms, i as u64);
        let later = choose|ms: u64| ids@[k] == #[trigger] spec_completion_id(ms, k as u64);
        completion_ids_are_unique_and_ordered(earlier, i as u64, later, k as u64);
    }
}

/// An id says which completion it names and when that started: behind its
/// prefix stand the number of the completion, with sixteen digits, and the
/// milliseconds on the clock.
pub proof fn ids_tell_number_and_start(started_ms: u64, sequence: u64)
    ensures
        ({
            let id = spec_completion_id(started_ms, sequence);
            &&& id.len() > 25
            &&& id.take(9) == "chatcmpl-"@
            &&& text::value(id.subrange(9, 25), 16) == sequence
            &&& text::value(id.skip(25), 16) == started_ms
        }),
{
    reveal_strlit("chatcmpl-");
    text::sixteen_digits_are_read_back(sequence);
    text::hexadecimals_are_read_back(started_ms as nat);
    let id = spec_completion_id(started_ms, sequence);
    assert(id.take(9) =~= "chatcmpl-"@);
    assert(id.subrange(9, 25) =~= text::fixed(sequence as nat, 16));
    assert(id.skip(25) =~= text::hex(started_ms as nat));
}

} // verus!
