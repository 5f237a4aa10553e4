use vstd::prelude::*;
use crate::common::Id;

verus! {

/// Hands out connection ids 1, 2, 3, ... and stops at `usize::MAX`.
pub struct Counter {
    count: Id,
}

/// One step of the counter: the id it hands out and the count after it.
pub open spec fn counter_step(count: Id) -> (Option<Id>, Id) {
    if count != usize::MAX {
        (Some((count + 1) as Id), (count + 1) as Id)
    } else {
        (None, count)
    }
}

impl View for Counter {
    type V = Id;

    /// The last id handed out (0 before the first).
    closed spec fn view(&self) -> Id {
        self.count
    }
}

impl Counter {
    pub fn new() -> (c: Self)
        ensures
            c@ == 0,
    {
        Self { count: 0 }
    }

    /// The next id, or `None` once every `usize` has been handed out.
    pub fn next(&mut self) -> (r: Option<Id>)
        ensures
            (r, final(self)@) == counter_step(old(self)@),
    {
        if self.count != usize::MAX {
            self.count = self.count + 1;
            Some(self.count)
        } else {
            None
        }
    }
}

/// Ids never repeat: of two ids handed out one after the other, the later
/// one is strictly greater.
pub proof fn lemma_ids_increase(c0: Id)
    requires
        counter_step(c0).0 is Some,
        counter_step(counter_step(c0).1).0 is Some,
    ensures
        counter_step(c0).0->0 < counter_step(counter_step(c0).1).0->0,
{
}

/// Every id handed out is positive and equals the count it leaves behind,
/// so the count is always the greatest id handed out so far.
pub proof fn lemma_id_is_new_count(c0: Id)
    requires
        counter_step(c0).0 is Some,
    ensures
        counter_step(c0).0->0 == counter_step(c0).1,
        counter_step(c0).0->0 > c0,
        counter_step(c0).0->0 > 0,
{
}

/// Once exhausted, the counter stays exhausted.
pub proof fn lemma_exhausted_stays(c0: Id)
    requires
        counter_step(c0).0 is None,
    ensures
        counter_step(counter_step(c0).1).0 is None,
        counter_step(c0).1 == c0,
{
}

/// The counter hands out every id up to `usize::MAX`: below it, the next id
/// is one more than the count and becomes the count; it gives no id only
/// once the count is `usize::MAX`, and then stays put.
pub proof fn lemma_next_is_count_plus_one(c0: Id)
    ensures
        c0 < usize::MAX ==> counter_step(c0) == (Some((c0 + 1) as Id), (c0 + 1) as Id),
        counter_step(c0).0 is None <==> c0 == usize::MAX,
        c0 == usize::MAX ==> counter_step(c0).1 == c0,
{
}

} // verus!
