//! The traversals of a vector: one that takes the values out, one that
//! borrows them, and one that borrows them for writing.

use crate::laws::lemma_downward_of_prepend;
use crate::store::{values_downward, values_upward};
use crate::vector::GenerationalEntry;
use crate::GenerationType;
use std::marker::PhantomData;
use vstd::prelude::*;
use vstd::std_specs::iter::IteratorSpecImpl;

verus! {

/// Iterator for owned values. It takes the slots from the last position
/// downward and yields the value of each occupied one.
pub struct EntryIntoIterator<TEntry, TGeneration: GenerationType> {
    pub(crate) vec: Vec<GenerationalEntry<TEntry, TGeneration>>,
}

/// Iterator for borrowed values. It walks the slots from the first position
/// upward and yields the value of each occupied one.
pub struct EntryIterator<'a, TEntry, TGeneration: GenerationType> {
    pub(crate) current: usize,
    pub(crate) vec: &'a Vec<GenerationalEntry<TEntry, TGeneration>>,
}

/// Iterator for values borrowed for writing. It holds one reference for
/// each occupied slot and hands them out from the first position upward.
///
/// The references are to the values alone: whatever is written through
/// them, no slot is freed or occupied and no generation changes.
pub struct EntryMutIterator<'a, TEntry, TGeneration: GenerationType> {
    /// The references still to hand out, the next one last.
    pub pending: Vec<&'a mut TEntry>,
    pub marker: PhantomData<TGeneration>,
}

impl<TEntry, TGeneration: GenerationType> EntryIntoIterator<TEntry, TGeneration> {
    /// The iterator that takes the values out of the slots given.
    pub(crate) fn new(vec: Vec<GenerationalEntry<TEntry, TGeneration>>) -> (iter: Self)
        ensures
            iter@ == values_downward(vec@),
    {
        EntryIntoIterator { vec }
    }
}

impl<TEntry, TGeneration: GenerationType> View for EntryIntoIterator<TEntry, TGeneration> {
    type V = Seq<TEntry>;

    /// The values still to come, in the order in which they come.
    closed spec fn view(&self) -> Seq<TEntry> {
        values_downward(self.vec@)
    }
}

impl<TEntry, TGeneration: GenerationType> Iterator for EntryIntoIterator<TEntry, TGeneration> {
    type Item = TEntry;

    fn next(&mut self) -> (item: Option<TEntry>)
        ensures
            match item {
                Some(value) => old(self)@.len() > 0 && value == old(self)@[0] && final(self)@
                    == old(self)@.drop_first(),
                None => old(self)@.len() == 0 && final(self)@.len() == 0,
            },
    {
        while !self.vec.is_empty()
            invariant
                values_downward(self.vec@) == values_downward(old(self).vec@),
                self.vec@.len() <= old(self).vec@.len(),
            decreases self.vec@.len(),
        {
            match self.vec.pop() {
                None => continue,
                Some(entry) => {
                    if let Some(value) = entry.entry {
                        proof {
                            assert(seq![value] + values_downward(self.vec@) =~= old(self)@);
                            assert(old(self)@.drop_first() =~= values_downward(self.vec@));
                        }
                        return Some(value);
                    }
                },
            }
        }
        None
    }
}

impl<TEntry, TGeneration: GenerationType> IteratorSpecImpl for EntryIntoIterator<TEntry, TGeneration> {
    open spec fn obeys_prophetic_iter_laws(&self) -> bool {
        true
    }

    open spec fn remaining(&self) -> Seq<Self::Item> {
        self@
    }

    open spec fn will_return_none(&self) -> bool {
        true
    }

    open spec fn decrease(&self) -> Option<nat> {
        Some(self@.len())
    }

    open spec fn initial_value_relation(&self, init: &Self) -> bool {
        init@ == self@
    }

    open spec fn peek(&self, index: int) -> Option<Self::Item> {
        if 0 <= index < self@.len() {
            Some(self@[index])
        } else {
            None
        }
    }
}

impl<'a, TEntry, TGeneration: GenerationType> EntryIterator<'a, TEntry, TGeneration> {
    #[verifier::type_invariant]
    spec fn within_bounds(self) -> bool {
        self.current <= self.vec@.len()
    }

    /// The iterator that borrows the values of the slots given.
    pub(crate) fn new(vec: &'a Vec<GenerationalEntry<TEntry, TGeneration>>) -> (iter: Self)
        ensures
            iter@ == values_upward(vec@),
    {
        let iter = EntryIterator { current: 0, vec };
        proof {
            assert(vec@.skip(0) =~= vec@);
        }
        iter
    }
}

impl<'a, TEntry, TGeneration: GenerationType> View for EntryIterator<'a, TEntry, TGeneration> {
    type V = Seq<TEntry>;

    /// The values still to come, in the order in which they come.
    closed spec fn view(&self) -> Seq<TEntry> {
        values_upward(self.vec@.skip(self.current as int))
    }
}

impl<'a, TEntry, TGeneration: GenerationType> Iterator for EntryIterator<'a, TEntry, TGeneration> {
    type Item = &'a TEntry;

    fn next(&mut self) -> (item: Option<&'a TEntry>)
        ensures
            match item {
                Some(value) => old(self)@.len() > 0 && *value == old(self)@[0] && final(self)@
                    == old(self)@.drop_first(),
                None => old(self)@.len() == 0 && final(self)@.len() == 0,
            },
    {
        proof {
            use_type_invariant(&*self);
        }
        while self.current < self.vec.len()
            invariant
                self.vec == old(self).vec,
                old(self).current <= self.current <= self.vec@.len(),
                values_upward(self.vec@.skip(self.current as int)) == old(self)@,
            decreases self.vec@.len() - self.current,
        {
            let entry = &self.vec[self.current];
            proof {
                let here = self.vec@.skip(self.current as int);
                assert(here.drop_first() =~= self.vec@.skip(self.current as int + 1));
            }
            self.current += 1;
            let entry = entry.entry.as_ref();
            if entry.is_some() {
                proof {
                    assert(old(self)@.drop_first() =~= self@);
                }
                return Some(entry.unwrap());
            }
        }
        proof {
            assert(self.vec@.skip(self.current as int).len() == 0);
        }
        None
    }
}

impl<'a, TEntry, TGeneration: GenerationType> IteratorSpecImpl for EntryIterator<'a, TEntry, TGeneration> {
    open spec fn obeys_prophetic_iter_laws(&self) -> bool {
        true
    }

    open spec fn remaining(&self) -> Seq<Self::Item> {
        self@.map_values(|value: TEntry| &value)
    }

    open spec fn will_return_none(&self) -> bool {
        true
    }

    open spec fn decrease(&self) -> Option<nat> {
        Some(self@.len())
    }

    open spec fn initial_value_relation(&self, init: &Self) -> bool {
        init@ == self@
    }

    open spec fn peek(&self, index: int) -> Option<Self::Item> {
        if 0 <= index < self@.len() {
            Some(&self@[index])
        } else {
            None
        }
    }
}

impl<'a, TEntry, TGeneration: GenerationType> EntryMutIterator<'a, TEntry, TGeneration> {
    /// The reference that comes after `k` others.
    pub open spec fn upcoming(&self, k: int) -> &'a mut TEntry {
        self.pending@[self.pending@.len() - 1 - k]
    }

    /// The iterator over the values of the slots given. The slots keep their
    /// generations and stay occupied or free as they are; an occupied slot
    /// ends with the value that its reference ends with.
    pub(crate) fn new(slots: &'a mut [GenerationalEntry<TEntry, TGeneration>]) -> (iter: Self)
        ensures
            iter.pending@.len() == values_downward(old(slots)@).len(),
            forall|j: int|
                0 <= j < iter.pending@.len() ==> *iter.pending@[j] == values_downward(old(slots)@)[j],
            final(slots)@.len() == old(slots)@.len(),
            forall|p: int|
                0 <= p < old(slots)@.len() ==> (#[trigger] final(slots)@[p]).generation
                    == old(slots)@[p].generation,
            forall|p: int|
                0 <= p < old(slots)@.len() && old(slots)@[p].entry is None ==> (
                #[trigger] final(slots)@[p]).entry is None,
            forall|p: int|
                0 <= p < old(slots)@.len() && old(slots)@[p].entry is Some ==> {
                    let place = values_downward(old(slots)@.skip(p + 1)).len() as int;
                    &&& 0 <= place < iter.pending@.len()
                    &&& (#[trigger] final(slots)@[p]).entry == Some(*final(iter.pending@[place]))
                },
    {
        let ghost before = slots@;
        let ghost total = slots@.len() as int;
        let ghost after = final(slots)@;
        let ghost mut done = after.skip(after.len() as int);
        let mut rest: &'a mut [GenerationalEntry<TEntry, TGeneration>] = slots;
        let mut pending: Vec<&'a mut TEntry> = Vec::new();
        proof {
            assert(before.skip(total) =~= Seq::empty());
            assert(before.take(total) =~= before);
            assert(after =~= final(rest)@ + done);
        }
        while rest.len() > 0
            invariant
                total == before.len(),
                rest@.len() <= total,
                rest@ == before.take(rest@.len() as int),
                pending@.len() == values_downward(before.skip(rest@.len() as int)).len(),
                forall|j: int|
                    0 <= j < pending@.len() ==> *pending@[j] == values_downward(
                        before.skip(rest@.len() as int),
                    )[j],
                after == final(rest)@ + done,
                done.len() == total - rest@.len(),
                forall|i: int|
                    0 <= i < done.len() ==> (#[trigger] done[i]).generation == before[rest@.len()
                        + i].generation,
                forall|i: int|
                    0 <= i < done.len() && before[rest@.len() + i].entry is None ==> (
                    #[trigger] done[i]).entry is None,
                forall|i: int|
                    0 <= i < done.len() && before[rest@.len() + i].entry is Some ==> {
                        let place = values_downward(before.skip(rest@.len() + i + 1)).len() as int;
                        &&& 0 <= place < pending@.len()
                        &&& (#[trigger] done[i]).entry == Some(*final(pending@[place]))
                    },
            decreases rest@.len(),
        {
            let n = rest.len();
            let ghost pending_before = pending@;
            let ghost done_before = done;
            let (front, back) = rest.split_at_mut(n - 1);
            rest = front;
            let ghost back_final = final(back)@;
            let slot = back.first_mut().unwrap();
            let ghost slot_final = *final(slot);
            match slot.entry.as_mut() {
                Some(value) => {
                    pending.push(value);
                },
                None => {},
            }
            proof {
                done = seq![slot_final] + done;
                assert(back_final =~= seq![slot_final]);
                assert(after =~= final(rest)@ + done);
                lemma_downward_of_prepend(before[n - 1], before.skip(n as int));
                assert(before.skip(n - 1) =~= seq![before[n - 1]] + before.skip(n as int));
                assert(rest@ =~= before.take(n - 1));
                assert forall|i: int| 0 <= i < done.len() implies (#[trigger] done[i]).generation
                    == before[rest@.len() + i].generation by {
                    if i > 0 {
                        assert(done[i] == done_before[i - 1]);
                    }
                }
                assert forall|i: int|
                    0 <= i < done.len() && before[rest@.len() + i].entry is None implies (
                #[trigger] done[i]).entry is None by {
                    if i > 0 {
                        assert(done[i] == done_before[i - 1]);
                    }
                }
                assert forall|i: int|
                    0 <= i < done.len() && before[rest@.len() + i].entry is Some implies {
                    let place = values_downward(before.skip(rest@.len() + i + 1)).len() as int;
                    &&& 0 <= place < pending@.len()
                    &&& (#[trigger] done[i]).entry == Some(*final(pending@[place]))
                } by {
                    if i > 0 {
                        assert(done[i] == done_before[i - 1]);
                    }
                }
            }
        }
        proof {
            assert(after =~= done);
        }
        EntryMutIterator { pending, marker: PhantomData }
    }
}

impl<'a, TEntry, TGeneration: GenerationType> Iterator for EntryMutIterator<'a, TEntry, TGeneration> {
    type Item = &'a mut TEntry;

    fn next(&mut self) -> (item: Option<&'a mut TEntry>)
        ensures
            match item {
                Some(value) => {
                    &&& old(self).pending@.len() > 0
                    &&& value == old(self).upcoming(0)
                    &&& final(self).pending@ == old(self).pending@.drop_last()
                },
                None => old(self).pending@.len() == 0 && final(self).pending@.len() == 0,
            },
    {
        let item = self.pending.pop();
        proof {
            if item is Some {
                assert(self.pending@.reverse() =~= old(self).pending@.reverse().drop_first());
            }
        }
        item
    }
}

impl<'a, TEntry, TGeneration: GenerationType> IteratorSpecImpl for EntryMutIterator<'a, TEntry, TGeneration> {
    open spec fn obeys_prophetic_iter_laws(&self) -> bool {
        true
    }

    open spec fn remaining(&self) -> Seq<Self::Item> {
        self.pending@.reverse()
    }

    open spec fn will_return_none(&self) -> bool {
        true
    }

    open spec fn decrease(&self) -> Option<nat> {
        Some(self.pending@.len())
    }

    open spec fn initial_value_relation(&self, init: &Self) -> bool {
        init.pending@ == self.pending@
    }

    open spec fn peek(&self, index: int) -> Option<Self::Item> {
        if 0 <= index < self.pending@.len() {
            Some(self.upcoming(index))
        } else {
            None
        }
    }
}

} // verus!
