//! The state of a vector as its contracts see it: a sequence of slots and a
//! stack of free positions, with the steps that a push and a removal take.

use crate::vector::{DeletionResult, GenerationalEntry, GenerationalIndex};
use crate::GenerationType;
use vstd::prelude::*;
use vstd::set_lib::{lemma_int_range, lemma_len_subset, lemma_set_disjoint_lens, set_int_range};
use vstd::std_specs::ops::AddSpec;

verus! {

/// The slots of a vector, position by position, and its free positions.
#[verifier::ext_equal]
pub struct SlotStore<T, G> {
    /// What each position holds. A slot is occupied when its entry is `Some`.
    pub slots: Seq<GenerationalEntry<T, G>>,
    /// The free positions, the most recently freed last.
    pub free: Seq<usize>,
}

/// One change to a vector: a push of a value, or a removal through a handle.
pub enum Operation<T, G> {
    Push(T),
    Remove(GenerationalIndex<G>),
}

/// The values of the occupied slots, from the first position upward.
pub open spec fn values_upward<T, G>(slots: Seq<GenerationalEntry<T, G>>) -> Seq<T>
    decreases slots.len(),
{
    if slots.len() == 0 {
        Seq::empty()
    } else {
        let rest = values_upward(slots.drop_first());
        match slots.first().entry {
            Some(value) => seq![value] + rest,
            None => rest,
        }
    }
}

/// The values of the occupied slots, from the last position downward.
pub open spec fn values_downward<T, G>(slots: Seq<GenerationalEntry<T, G>>) -> Seq<T>
    decreases slots.len(),
{
    if slots.len() == 0 {
        Seq::empty()
    } else {
        let rest = values_downward(slots.drop_last());
        match slots.last().entry {
            Some(value) => seq![value] + rest,
            None => rest,
        }
    }
}

impl<T, G: GenerationType> SlotStore<T, G> {
    /// No slots and no free positions.
    pub open spec fn empty() -> Self {
        SlotStore { slots: Seq::empty(), free: Seq::empty() }
    }

    /// One occupied slot per value, each at the position of its value and in
    /// the first generation; no free positions.
    pub open spec fn from_seq(values: Seq<T>) -> Self {
        SlotStore {
            slots: Seq::new(
                values.len(),
                |i: int| GenerationalEntry { generation: G::spec_one(), entry: Some(values[i]) },
            ),
            free: Seq::empty(),
        }
    }

    /// The position is in bounds and its slot holds a value.
    pub open spec fn is_occupied(self, position: int) -> bool {
        0 <= position < self.slots.len() && self.slots[position].entry is Some
    }

    /// The position is in bounds and its slot holds nothing.
    pub open spec fn is_free(self, position: int) -> bool {
        0 <= position < self.slots.len() && self.slots[position].entry is None
    }

    /// The positions of the occupied slots.
    pub open spec fn occupied(self) -> Set<int> {
        Set::new(|position: int| self.is_occupied(position))
    }

    /// The positions of the free slots.
    pub open spec fn vacant(self) -> Set<int> {
        Set::new(|position: int| self.is_free(position))
    }

    /// The number of occupied slots.
    pub open spec fn len(self) -> nat {
        self.occupied().len()
    }

    /// The positions fit in a `usize`, the free positions are exactly the
    /// positions of the free slots, each listed once, and no generation comes
    /// before the first.
    pub open spec fn well_formed(self) -> bool {
        &&& self.slots.len() <= usize::MAX
        &&& self.free.no_duplicates()
        &&& forall|i: int| 0 <= i < self.free.len() ==> self.is_free(#[trigger] self.free[i] as int)
        &&& forall|position: int| #[trigger]
            self.is_free(position) ==> self.free.contains(position as usize)
        &&& forall|position: int|
            0 <= position < self.slots.len() ==> (#[trigger] self.slots[position]).generation.ordinal()
                >= 1
    }

    /// The handle resolves: its position is in bounds, the slot there is
    /// occupied, and the slot's generation is the handle's.
    pub open spec fn resolves(self, handle: GenerationalIndex<G>) -> bool {
        &&& self.is_occupied(handle.index as int)
        &&& self.slots[handle.index as int].generation == handle.generation
    }

    /// The value that the handle resolves to, if it resolves.
    pub open spec fn lookup(self, handle: GenerationalIndex<G>) -> Option<T> {
        if self.resolves(handle) {
            self.slots[handle.index as int].entry
        } else {
            None
        }
    }

    /// The handles that resolve.
    pub open spec fn valid_handles(self) -> Set<GenerationalIndex<G>> {
        Set::new(|handle: GenerationalIndex<G>| self.resolves(handle))
    }

    /// The handle of the slot at a position.
    pub open spec fn handle_at(self, position: int) -> GenerationalIndex<G> {
        GenerationalIndex { index: position as usize, generation: self.slots[position].generation }
    }

    /// Where the next push puts its value: at the most recently freed
    /// position if there is one, else in a new slot at the end.
    pub open spec fn next_position(self) -> int {
        if self.free.len() > 0 {
            self.free.last() as int
        } else {
            self.slots.len() as int
        }
    }

    /// The generation under which the next push puts its value: the one that
    /// the reused slot has reached, or the first for a new slot.
    pub open spec fn next_generation(self) -> G {
        if self.free.len() > 0 {
            self.slots[self.free.last() as int].generation
        } else {
            G::spec_one()
        }
    }

    /// The handle that the next push returns.
    pub open spec fn next_handle(self) -> GenerationalIndex<G> {
        GenerationalIndex { index: self.next_position() as usize, generation: self.next_generation() }
    }

    /// The state after a push of `value`.
    pub open spec fn after_push(self, value: T) -> Self {
        let slot = GenerationalEntry { generation: self.next_generation(), entry: Some(value) };
        if self.free.len() > 0 {
            SlotStore {
                slots: self.slots.update(self.next_position(), slot),
                free: self.free.drop_last(),
            }
        } else {
            SlotStore { slots: self.slots.push(slot), free: self.free }
        }
    }

    /// What a removal asks of its handle: a position in bounds and, where the
    /// handle resolves, a generation that is not the last one.
    pub open spec fn can_remove(self, handle: GenerationalIndex<G>) -> bool {
        &&& handle.index < self.slots.len()
        &&& self.resolves(handle) ==> handle.generation.ordinal() < G::last_ordinal()
    }

    /// The outcome of a removal through `handle`.
    pub open spec fn removal(self, handle: GenerationalIndex<G>) -> DeletionResult {
        if !self.is_occupied(handle.index as int) {
            DeletionResult::NotFound
        } else if self.slots[handle.index as int].generation != handle.generation {
            DeletionResult::InvalidGeneration
        } else {
            DeletionResult::Deleted
        }
    }

    /// The state after a removal through `handle`: where the handle resolves,
    /// its slot is emptied and moves on to the next generation, and its
    /// position is the most recently freed one; else nothing changes.
    pub open spec fn after_remove(self, handle: GenerationalIndex<G>) -> Self {
        if self.resolves(handle) {
            let slot = GenerationalEntry {
                generation: handle.generation.add_spec(G::spec_one()),
                entry: None,
            };
            SlotStore {
                slots: self.slots.update(handle.index as int, slot),
                free: self.free.push(handle.index),
            }
        } else {
            self
        }
    }

    /// What an operation asks of the state it meets: a push that adds a slot
    /// needs a position left for it, and a removal asks what
    /// [`Self::can_remove`] says.
    pub open spec fn admits(self, operation: Operation<T, G>) -> bool {
        match operation {
            Operation::Push(_) => self.free.len() == 0 ==> self.slots.len() < usize::MAX,
            Operation::Remove(handle) => self.can_remove(handle),
        }
    }

    /// The state after an operation.
    pub open spec fn after(self, operation: Operation<T, G>) -> Self {
        match operation {
            Operation::Push(value) => self.after_push(value),
            Operation::Remove(handle) => self.after_remove(handle),
        }
    }

    /// Each operation of a run meets a state that admits it.
    pub open spec fn admits_all(self, operations: Seq<Operation<T, G>>) -> bool
        decreases operations.len(),
    {
        operations.len() == 0 || {
            &&& self.admits_all(operations.drop_last())
            &&& self.after_all(operations.drop_last()).admits(operations.last())
        }
    }

    /// The state after a run of operations, the first one first.
    pub open spec fn after_all(self, operations: Seq<Operation<T, G>>) -> Self
        decreases operations.len(),
    {
        if operations.len() == 0 {
            self
        } else {
            self.after_all(operations.drop_last()).after(operations.last())
        }
    }

    /// The values held, from the first position upward.
    pub open spec fn values(self) -> Seq<T> {
        values_upward(self.slots)
    }

    /// The number of occupied slots before a position: the place that the
    /// value at the position has among the values held.
    pub open spec fn rank(self, position: int) -> int {
        values_upward(self.slots.take(position)).len() as int
    }

    /// The same state with another value in the occupied slot at a position.
    pub open spec fn with_value(self, position: int, value: T) -> Self {
        SlotStore {
            slots: self.slots.update(
                position,
                GenerationalEntry { generation: self.slots[position].generation, entry: Some(value) },
            ),
            free: self.free,
        }
    }

    /// The same state with other values in the occupied slots: the occupied
    /// slot whose position has the rank `k` holds `values[k]`.
    pub open spec fn revalued(self, values: Seq<T>) -> Self {
        SlotStore {
            slots: Seq::new(
                self.slots.len(),
                |position: int|
                    if self.slots[position].entry is Some {
                        GenerationalEntry {
                            generation: self.slots[position].generation,
                            entry: Some(values[self.rank(position)]),
                        }
                    } else {
                        self.slots[position]
                    },
            ),
            free: self.free,
        }
    }

    /// States with the same free positions, whose slots agree in generation
    /// and in being occupied, are well formed together and hold equally
    /// many elements.
    pub proof fn lemma_same_shape(self, other: Self)
        requires
            self.well_formed(),
            other.free == self.free,
            other.slots.len() == self.slots.len(),
            forall|position: int|
                0 <= position < self.slots.len() ==> {
                    &&& (#[trigger] other.slots[position]).generation
                        == self.slots[position].generation
                    &&& other.slots[position].entry is Some <==> self.slots[position].entry is Some
                },
        ensures
            other.well_formed(),
            other.occupied() == self.occupied(),
            other.len() == self.len(),
    {
        assert forall|i: int| 0 <= i < other.free.len() implies other.is_free(
            #[trigger] other.free[i] as int,
        ) by {
            assert(self.is_free(self.free[i] as int));
        }
        assert forall|p: int| #[trigger] other.is_free(p) implies other.free.contains(
            p as usize,
        ) by {
            assert(self.is_free(p));
        }
        assert(other.occupied() =~= self.occupied());
    }

    /// Every slot is either occupied or free, so the two counts add up to the
    /// number of slots.
    pub proof fn lemma_occupied_and_vacant(self)
        ensures
            self.occupied().finite(),
            self.vacant().finite(),
            self.occupied().len() + self.vacant().len() == self.slots.len(),
    {
        let all = set_int_range(0, self.slots.len() as int);
        lemma_int_range(0, self.slots.len() as int);
        lemma_len_subset(self.occupied(), all);
        lemma_len_subset(self.vacant(), all);
        assert(self.occupied().union(self.vacant()) =~= all);
        lemma_set_disjoint_lens(self.occupied(), self.vacant());
    }

    /// In a well-formed state the free positions list each free slot once.
    pub proof fn lemma_free_counts_vacant(self)
        requires
            self.well_formed(),
        ensures
            self.free.len() == self.vacant().len(),
    {
        let positions = self.free.map_values(|position: usize| position as int);
        assert(positions.no_duplicates()) by {
            assert forall|i: int, j: int|
                0 <= i < positions.len() && 0 <= j < positions.len() && i != j implies positions[i]
                != positions[j] by {
                assert(self.free[i] != self.free[j]);
            }
        }
        positions.unique_seq_to_set();
        assert(positions.to_set() =~= self.vacant()) by {
            assert forall|p: int| self.vacant().contains(p) implies positions.to_set().contains(p) by {
                assert(self.is_free(p));
                let j = choose|j: int| 0 <= j < self.free.len() && self.free[j] == p as usize;
                assert(positions[j] == p);
            }
            assert forall|p: int| positions.to_set().contains(p) implies self.vacant().contains(p) by {
                let j = choose|j: int| 0 <= j < positions.len() && positions[j] == p;
                assert(self.is_free(self.free[j] as int));
            }
        }
    }

    /// Loading a sequence of values gives a well-formed state in which every
    /// slot is occupied.
    pub proof fn lemma_from_seq_well_formed(values: Seq<T>)
        requires
            values.len() <= usize::MAX,
        ensures
            Self::from_seq(values).well_formed(),
            Self::from_seq(values).len() == values.len(),
    {
        let store = Self::from_seq(values);
        G::lemma_generation_laws(G::spec_one(), G::spec_one());
        lemma_int_range(0, values.len() as int);
        assert(store.occupied() =~= set_int_range(0, values.len() as int));
    }

    /// A push keeps the state well formed and occupies one more slot, the
    /// one at the next position.
    pub proof fn lemma_push_well_formed(self, value: T)
        requires
            self.well_formed(),
            self.free.len() == 0 ==> self.slots.len() < usize::MAX,
        ensures
            self.after_push(value).well_formed(),
            self.after_push(value).occupied() == self.occupied().insert(self.next_position()),
            !self.is_occupied(self.next_position()),
            self.after_push(value).len() == self.len() + 1,
    {
        let after = self.after_push(value);
        let position = self.next_position();
        G::lemma_generation_laws(G::spec_one(), G::spec_one());
        self.lemma_occupied_and_vacant();
        if self.free.len() > 0 {
            let last = self.free.len() - 1;
            assert(self.is_free(self.free[last] as int));
            assert forall|i: int| 0 <= i < after.free.len() implies after.is_free(
                #[trigger] after.free[i] as int,
            ) by {
                assert(self.is_free(self.free[i] as int));
                assert(self.free[i] != self.free[last]);
            }
            assert forall|p: int| #[trigger] after.is_free(p) implies after.free.contains(
                p as usize,
            ) by {
                assert(self.is_free(p));
                let j = choose|j: int| 0 <= j < self.free.len() && self.free[j] == p as usize;
                assert(after.free[j] == p as usize);
            }
        } else {
            assert forall|p: int| #[trigger] after.is_free(p) implies after.free.contains(
                p as usize,
            ) by {
                assert(self.is_free(p));
            }
        }
        assert(after.occupied() =~= self.occupied().insert(position));
    }

    /// A removal keeps the state well formed; where the handle resolves, it
    /// frees one slot, the one at the handle's position.
    pub proof fn lemma_remove_well_formed(self, handle: GenerationalIndex<G>)
        requires
            self.well_formed(),
            self.can_remove(handle),
        ensures
            self.after_remove(handle).well_formed(),
            self.resolves(handle) ==> self.after_remove(handle).occupied() == self.occupied().remove(
                handle.index as int,
            ),
            self.resolves(handle) ==> self.after_remove(handle).len() == self.len() - 1,
    {
        let after = self.after_remove(handle);
        if self.resolves(handle) {
            let position = handle.index as int;
            G::lemma_generation_laws(handle.generation, G::spec_one());
            self.lemma_occupied_and_vacant();
            assert(!self.free.contains(handle.index)) by {
                if self.free.contains(handle.index) {
                    let j = choose|j: int| 0 <= j < self.free.len() && self.free[j] == handle.index;
                    assert(self.is_free(self.free[j] as int));
                }
            }
            assert forall|i: int| 0 <= i < after.free.len() implies after.is_free(
                #[trigger] after.free[i] as int,
            ) by {
                if i < self.free.len() {
                    assert(self.is_free(self.free[i] as int));
                }
            }
            assert forall|p: int| #[trigger] after.is_free(p) implies after.free.contains(
                p as usize,
            ) by {
                if p == position {
                    assert(after.free[self.free.len() as int] == handle.index);
                } else {
                    assert(self.is_free(p));
                    let j = choose|j: int| 0 <= j < self.free.len() && self.free[j] == p as usize;
                    assert(after.free[j] == p as usize);
                }
            }
            assert(after.occupied() =~= self.occupied().remove(position));
        }
    }
}

} // verus!
