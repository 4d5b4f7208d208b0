//! The vector, its handles and its slots.

use crate::free_list::{free_positions, FreeList};
use crate::iterators::{EntryIntoIterator, EntryIterator, EntryMutIterator};
use crate::laws::{
    lemma_downward_is_upward_reversed, lemma_len_counts_valid_handles,
    lemma_pushed_handle_resolves, lemma_rank_places_value, lemma_revalued, lemma_values_count,
};
use crate::store::{values_downward, SlotStore};
use crate::{DefaultGenerationType, GenerationType};
use std::cmp::Ordering;
use vstd::prelude::*;
use vstd::std_specs::cmp::{PartialEqSpec, PartialEqSpecImpl, PartialOrdSpec, PartialOrdSpecImpl};
use vstd::std_specs::convert::FromSpecImpl;
use vstd::std_specs::iter::IteratorSpec;

verus! {

/// A handle to an element of a [`GenerationalVector`]: the position of its
/// slot and the generation under which the element was put there.
///
/// Two handles are equal when both their positions and their generations
/// are. Handles are ordered by position, and by generation where the
/// positions are the same.
#[derive(Debug, Copy, Clone, Eq, Ord)]
pub struct GenerationalIndex<TGeneration> {
    pub index: usize,
    pub generation: TGeneration,
}

/// A slot: its generation, and its value where it is occupied.
#[derive(Debug)]
pub struct GenerationalEntry<TEntry, TGeneration> {
    pub generation: TGeneration,
    pub entry: Option<TEntry>,
}

/// The outcome of removing an element.
#[derive(Debug, Copy, Clone, Eq, PartialEq, Structural, Ord, PartialOrd)]
pub enum DeletionResult {
    /// The entry was successfully deleted.
    Deleted,
    /// The entry was already deleted before.
    NotFound,
    /// Attempted to delete an entry of a different generation.
    InvalidGeneration,
}

/// A vector that utilizes generational indexing to access the elements.
#[derive(Debug)]
pub struct GenerationalVector<TEntry, TGeneration: GenerationType = DefaultGenerationType> {
    data: Vec<GenerationalEntry<TEntry, TGeneration>>,
    free_list: FreeList,
    len: usize,
}

impl<TGeneration: PartialEq> PartialEq for GenerationalIndex<TGeneration> {
    fn eq(&self, other: &Self) -> (same: bool) {
        self.index == other.index && self.generation == other.generation
    }
}

impl<TGeneration: PartialEq> PartialEqSpecImpl for GenerationalIndex<TGeneration> {
    open spec fn obeys_eq_spec() -> bool {
        TGeneration::obeys_eq_spec()
    }

    open spec fn eq_spec(&self, other: &Self) -> bool {
        self.index == other.index && self.generation.eq_spec(&other.generation)
    }
}

impl<TGeneration: PartialOrd> PartialOrd for GenerationalIndex<TGeneration> {
    fn partial_cmp(&self, other: &Self) -> (order: Option<Ordering>) {
        if self.index < other.index {
            Some(Ordering::Less)
        } else if self.index > other.index {
            Some(Ordering::Greater)
        } else {
            self.generation.partial_cmp(&other.generation)
        }
    }
}

impl<TGeneration: PartialOrd> PartialOrdSpecImpl for GenerationalIndex<TGeneration> {
    open spec fn obeys_partial_cmp_spec() -> bool {
        TGeneration::obeys_partial_cmp_spec()
    }

    open spec fn partial_cmp_spec(&self, other: &Self) -> Option<Ordering> {
        if self.index < other.index {
            Some(Ordering::Less)
        } else if self.index > other.index {
            Some(Ordering::Greater)
        } else {
            self.generation.partial_cmp_spec(&other.generation)
        }
    }
}

impl<TGeneration> GenerationalIndex<TGeneration> {
    /// Makes the handle for a position and a generation.
    pub fn new(index: usize, generation: TGeneration) -> (handle: Self)
        ensures
            handle == (GenerationalIndex { index, generation }),
    {
        Self { index, generation }
    }
}

impl DeletionResult {
    /// Determines whether the result was a valid deletion attempt,
    /// i.e. the entry was deleted or did not exist.
    pub fn is_valid(&self) -> (valid: bool)
        ensures
            valid == !(*self is InvalidGeneration),
    {
        !(*self == Self::InvalidGeneration)
    }
}

impl<TEntry, TGeneration: GenerationType> GenerationalEntry<TEntry, TGeneration> {
    /// Makes an occupied slot.
    pub fn new_from_value(value: TEntry, generation: TGeneration) -> (slot: Self)
        ensures
            slot == (GenerationalEntry { generation, entry: Some(value) }),
    {
        Self { entry: Some(value), generation }
    }

    /// Puts a value into a free slot and returns the handle to it: the given
    /// position with the slot's generation, which stays as it is.
    pub fn reuse(&mut self, value: TEntry, vec_index: usize) -> (handle: GenerationalIndex<
        TGeneration,
    >)
        requires
            old(self).entry is None,
        ensures
            *final(self) == (GenerationalEntry {
                generation: old(self).generation,
                entry: Some(value),
            }),
            handle == (GenerationalIndex { index: vec_index, generation: old(self).generation }),
    {
        let key = GenerationalIndex::new(vec_index, self.generation);
        self.entry = Some(value);
        key
    }
}

impl<TEntry, TGeneration: GenerationType> View for GenerationalVector<TEntry, TGeneration> {
    type V = SlotStore<TEntry, TGeneration>;

    closed spec fn view(&self) -> SlotStore<TEntry, TGeneration> {
        SlotStore { slots: self.data@, free: free_positions(self.free_list) }
    }
}

/// How many free positions a new vector has room for before its free list
/// allocates.
const FREE_LIST_CAPACITY: usize = 16;

/// `Vec::capacity`: the number of elements that the vector has room for
/// without allocating again. All that is claimed of it is that it is never
/// less than the number of elements held: the rest is the allocator's.
#[verifier::external_body]
fn vec_capacity<T>(vec: &Vec<T>) -> (capacity: usize)
    ensures
        capacity >= vec@.len(),
{
    vec.capacity()
}

impl<TEntry, TGeneration: GenerationType> GenerationalVector<TEntry, TGeneration> {
    /// The number of elements that the vector has counted.
    pub closed spec fn counted(&self) -> nat {
        self.len as nat
    }

    /// The slots and the free positions fit together, and the vector has
    /// counted as many elements as there are occupied slots.
    pub open spec fn well_formed(&self) -> bool {
        &&& self@.well_formed()
        &&& self.counted() == self@.len()
    }

    /// Initializes a new, empty vector.
    pub fn new() -> (vector: Self)
        ensures
            vector.well_formed(),
            vector@ == SlotStore::<TEntry, TGeneration>::empty(),
    {
        let vector = Self {
            data: Vec::new(),
            free_list: FreeList::with_capacity(FREE_LIST_CAPACITY),
            len: 0,
        };
        proof {
            assert(vector@.occupied() =~= Set::empty());
        }
        vector
    }

    /// Initializes the vector from an existing vector: each value stands at
    /// the position it had there, in the first generation.
    pub fn new_from_vec(vec: Vec<TEntry>) -> (vector: Self)
        ensures
            vector.well_formed(),
            vector@ == SlotStore::<TEntry, TGeneration>::from_seq(vec@),
    {
        let len = vec.len();
        let mut data = Vec::with_capacity(len);
        for entry in it: vec.into_iter()
            invariant
                it.seq() == vec@,
                data@.len() == it.index(),
                forall|i: int|
                    0 <= i < data@.len() ==> data@[i] == (GenerationalEntry {
                        generation: TGeneration::spec_one(),
                        entry: Some(vec@[i]),
                    }),
        {
            data.push(GenerationalEntry::new_from_value(entry, TGeneration::one()));
        }
        let vector = Self { data, free_list: FreeList::with_capacity(FREE_LIST_CAPACITY), len };
        proof {
            assert(vector@ =~= SlotStore::<TEntry, TGeneration>::from_seq(vec@));
            SlotStore::<TEntry, TGeneration>::lemma_from_seq_well_formed(vec@);
        }
        vector
    }

    /// Initializes the vector from an iterator that comes to an end: each
    /// value stands at the position at which the iterator gave it, in the
    /// first generation.
    pub fn new_from_iter<TIter: Iterator<Item = TEntry>>(vec: TIter) -> (vector: Self)
        requires
            vec.obeys_prophetic_iter_laws(),
            vec.decrease() is Some,
        ensures
            vector.well_formed(),
            vector@ == SlotStore::<TEntry, TGeneration>::from_seq(vec.remaining()),
    {
        let mut iter = vec;
        let mut data: Vec<GenerationalEntry<TEntry, TGeneration>> = Vec::new();
        loop
            invariant
                iter.obeys_prophetic_iter_laws(),
                iter.decrease() is Some,
                vec.remaining().len() == data@.len() + iter.remaining().len(),
                forall|i: int|
                    0 <= i < data@.len() ==> data@[i] == (GenerationalEntry {
                        generation: TGeneration::spec_one(),
                        entry: Some(vec.remaining()[i]),
                    }),
                forall|i: int|
                    0 <= i < iter.remaining().len() ==> iter.remaining()[i] == vec.remaining()[data@.len()
                        + i],
            ensures
                iter.remaining().len() == 0,
            decreases iter.decrease()->0,
        {
            match iter.next() {
                Some(entry) => {
                    data.push(GenerationalEntry::new_from_value(entry, TGeneration::one()));
                },
                None => {
                    break ;
                },
            }
        }
        let len = data.len();
        let vector = Self { data, free_list: FreeList::with_capacity(FREE_LIST_CAPACITY), len };
        proof {
            assert(vector@ =~= SlotStore::<TEntry, TGeneration>::from_seq(vec.remaining()));
            SlotStore::<TEntry, TGeneration>::lemma_from_seq_well_formed(vec.remaining());
        }
        vector
    }

    /// Constructs a new, empty vector with room for `capacity` slots. Where
    /// the allocator cannot give that much room, the process ends.
    pub fn with_capacity(capacity: usize) -> (vector: Self)
        ensures
            vector.well_formed(),
            vector@ == SlotStore::<TEntry, TGeneration>::empty(),
    {
        let vector = Self {
            data: Vec::with_capacity(capacity),
            free_list: FreeList::with_capacity(FREE_LIST_CAPACITY),
            len: 0,
        };
        proof {
            assert(vector@.occupied() =~= Set::empty());
        }
        vector
    }

    /// Returns the number of elements in the vector, also referred to
    /// as its 'length': the number of occupied slots, which is the number of
    /// handles that resolve.
    pub fn len(&self) -> (len: usize)
        requires
            self.well_formed(),
        ensures
            len == self@.len(),
            len == self@.valid_handles().len(),
    {
        proof {
            lemma_len_counts_valid_handles(self@);
        }
        self.len
    }

    /// Returns `true` if the vector contains no elements.
    pub fn is_empty(&self) -> (empty: bool)
        requires
            self.well_formed(),
        ensures
            empty == (self@.len() == 0),
    {
        self.len == 0
    }

    /// Returns the number of free slots.
    pub fn count_num_free(&self) -> (free: usize)
        requires
            self.well_formed(),
        ensures
            free == self@.free.len(),
            free == self@.vacant().len(),
    {
        proof {
            self@.lemma_free_counts_vacant();
        }
        self.free_list.len()
    }

    /// Returns the free positions, the most recently freed last.
    pub fn free_list(&self) -> (positions: &[usize])
        ensures
            positions@ == self@.free,
    {
        self.free_list.as_slice()
    }

    /// Returns the number of elements the vector can hold without
    /// reallocating, which is never less than the number of its slots.
    pub fn capacity(&self) -> (capacity: usize)
        ensures
            capacity >= self@.slots.len(),
    {
        vec_capacity(&self.data)
    }

    /// Inserts an element into the vector. This method will prefer
    /// replacing empty slots over growing the underlying array.
    pub fn push(&mut self, value: TEntry) -> (handle: GenerationalIndex<TGeneration>)
        requires
            old(self).well_formed(),
        ensures
            final(self).well_formed(),
            final(self)@ == old(self)@.after_push(value),
            handle == old(self)@.next_handle(),
            final(self)@.lookup(handle) == Some(value),
    {
        let index = match self.free_list.is_empty() {
            true => self.insert_tail(value),
            false => {
                let free_index = self.free_list.pop().expect("expected free_list to contain values");
                proof {
                    let last = old(self)@.free.len() - 1;
                    assert(old(self)@.is_free(old(self)@.free[last] as int));
                }
                self.data[free_index].reuse(value, free_index)
            },
        };
        proof {
            assert(self.data.len() == self.data@.len());
            assert(self@ =~= old(self)@.after_push(value));
            old(self)@.lemma_push_well_formed(value);
            lemma_pushed_handle_resolves(old(self)@, value);
            self@.lemma_occupied_and_vacant();
        }
        self.len += 1;
        index
    }

    /// Inserts at the end of the vector.
    fn insert_tail(&mut self, value: TEntry) -> (handle: GenerationalIndex<TGeneration>)
        ensures
            final(self).data@ == old(self).data@.push(
                GenerationalEntry { generation: TGeneration::spec_one(), entry: Some(value) },
            ),
            final(self).free_list == old(self).free_list,
            final(self).len == old(self).len,
            handle == (GenerationalIndex {
                index: old(self).data@.len() as usize,
                generation: TGeneration::spec_one(),
            }),
    {
        let generation = TGeneration::one();
        let index = GenerationalIndex::new(self.data.len(), generation);
        let gen_entry = GenerationalEntry::new_from_value(value, generation);
        self.data.push(gen_entry);
        index
    }

    /// Retrieves the element that the handle resolves to, if it resolves.
    pub fn get(&self, index: &GenerationalIndex<TGeneration>) -> (value: Option<&TEntry>)
        ensures
            match value {
                Some(value) => self@.lookup(*index) == Some(*value),
                None => self@.lookup(*index) is None,
            },
    {
        // Apply boundary check for the index.
        let entry = self.data.get(index.index);
        if entry.is_none() {
            return None;
        }
        let entry = entry.unwrap();
        if let Some(value) = &entry.entry {
            proof {
                TGeneration::lemma_generation_laws(entry.generation, index.generation);
            }
            if entry.generation == index.generation {
                return Some(value);
            }
        }
        None
    }

    /// Produces an iterator over the values, from the first position upward.
    /// It yields as many values as the vector has elements.
    pub fn iter(&self) -> (iter: EntryIterator<'_, TEntry, TGeneration>)
        ensures
            iter@ == self@.values(),
            iter@.len() == self@.len(),
    {
        self.into_iter()
    }

    /// Retrieves the element that the handle resolves to, if it resolves, for
    /// writing. What is written takes the place of the element; nothing else
    /// changes.
    pub fn get_mut(&mut self, index: &GenerationalIndex<TGeneration>) -> (value: Option<
        &mut TEntry,
    >)
        requires
            old(self).well_formed(),
        ensures
            final(self).well_formed(),
            match value {
                Some(value) => {
                    &&& old(self)@.lookup(*index) == Some(*value)
                    &&& final(self)@ == old(self)@.with_value(index.index as int, *final(value))
                },
                None => old(self)@.lookup(*index) is None && final(self)@ == old(self)@,
            },
    {
        if index.index >= self.data.len() {
            return None;
        }
        let slot = &self.data[index.index];
        proof {
            TGeneration::lemma_generation_laws(slot.generation, index.generation);
        }
        if slot.entry.is_none() || slot.generation != index.generation {
            return None;
        }
        let ghost before = self@;
        let ghost after = SlotStore { slots: final(self).data@, free: before.free };
        let value = self.data[index.index].entry.as_mut();
        proof {
            assert(after =~= before.with_value(index.index as int, *final(value->0)));
            before.lemma_same_shape(after);
        }
        value
    }

    /// Produces an iterator over the values, from the first position upward,
    /// for writing. The vector ends with the values that the references end
    /// with, each in the slot of the value it stood for.
    pub fn iter_mut(&mut self) -> (iter: EntryMutIterator<'_, TEntry, TGeneration>)
        requires
            old(self).well_formed(),
        ensures
            iter.pending@.len() == old(self)@.len(),
            iter.pending@.len() == old(self)@.values().len(),
            forall|k: int|
                #![trigger iter.upcoming(k)]
                0 <= k < iter.pending@.len() ==> *iter.upcoming(k) == old(self)@.values()[k],
            final(self).well_formed(),
            final(self)@ == old(self)@.revalued(
                Seq::new(iter.pending@.len(), |k: int| *final(iter.upcoming(k))),
            ),
            final(self)@.values() == Seq::new(
                iter.pending@.len(),
                |k: int| *final(iter.upcoming(k)),
            ),
    {
        self.into_iter()
    }

    /// Removes an element from the vector.
    ///
    /// The handle's position must be one that the vector has handed out, and
    /// the slot it frees must have a generation left to move on to.
    pub fn remove(&mut self, index: &GenerationalIndex<TGeneration>) -> (outcome: DeletionResult)
        requires
            old(self).well_formed(),
            old(self)@.can_remove(*index),
        ensures
            final(self).well_formed(),
            outcome == old(self)@.removal(*index),
            final(self)@ == old(self)@.after_remove(*index),
    {
        let slot = &mut self.data[index.index];
        match slot.entry {
            Some(_) => {
                proof {
                    TGeneration::lemma_generation_laws(slot.generation, index.generation);
                    TGeneration::lemma_generation_laws(slot.generation, TGeneration::spec_one());
                }
                if slot.generation != index.generation {
                    proof {
                        assert(self@ =~= old(self)@);
                    }
                    return DeletionResult::InvalidGeneration;
                }
                slot.entry = None;
                slot.generation = slot.generation.add(TGeneration::one());
                self.free_list.push(index.index);
                proof {
                    assert(self@ =~= old(self)@.after_remove(*index));
                    old(self)@.lemma_remove_well_formed(*index);
                    old(self)@.lemma_occupied_and_vacant();
                }
                self.len -= 1;
                DeletionResult::Deleted
            },
            _ => {
                proof {
                    assert(self@ =~= old(self)@);
                }
                DeletionResult::NotFound
            },
        }
    }
}

impl<TEntry> Default for GenerationalVector<TEntry, DefaultGenerationType> {
    fn default() -> (vector: Self)
        ensures
            vector.well_formed(),
            vector@ == SlotStore::<TEntry, DefaultGenerationType>::empty(),
    {
        GenerationalVector::<TEntry, DefaultGenerationType>::new()
    }
}

impl<TEntry, TGeneration: GenerationType> From<Vec<TEntry>> for GenerationalVector<TEntry, TGeneration> {
    fn from(vec: Vec<TEntry>) -> (vector: Self)
        ensures
            vector.well_formed(),
            vector@ == SlotStore::<TEntry, TGeneration>::from_seq(vec@),
    {
        Self::new_from_vec(vec)
    }
}

impl<TEntry, TGeneration: GenerationType> FromSpecImpl<Vec<TEntry>> for GenerationalVector<TEntry, TGeneration> {
    /// The vector made has a capacity that no contract speaks of, so it is
    /// stated by its view, on `from` itself, and not as one value.
    open spec fn obeys_from_spec() -> bool {
        false
    }

    closed spec fn from_spec(vec: Vec<TEntry>) -> Self {
        choose|vector: Self|
            vector.well_formed() && vector@ == SlotStore::<TEntry, TGeneration>::from_seq(vec@)
    }
}

impl<TEntry, TGeneration: GenerationType> IntoIterator for GenerationalVector<TEntry, TGeneration> {
    type Item = TEntry;

    type IntoIter = EntryIntoIterator<TEntry, TGeneration>;

    /// Takes the values out, from the last position downward: as many as
    /// the vector has elements.
    fn into_iter(self) -> (iter: EntryIntoIterator<TEntry, TGeneration>)
        ensures
            iter@ == values_downward(self@.slots),
            iter@ == self@.values().reverse(),
            iter@.len() == self@.len(),
    {
        proof {
            lemma_values_count(self@);
            lemma_downward_is_upward_reversed(self@.slots);
        }
        EntryIntoIterator::new(self.data)
    }
}

impl<'a, TEntry, TGeneration: GenerationType> IntoIterator for &'a GenerationalVector<TEntry, TGeneration> {
    type Item = &'a TEntry;

    type IntoIter = EntryIterator<'a, TEntry, TGeneration>;

    /// Borrows the values, from the first position upward: as many as the
    /// vector has elements.
    fn into_iter(self) -> (iter: EntryIterator<'a, TEntry, TGeneration>)
        ensures
            iter@ == self@.values(),
            iter@.len() == self@.len(),
    {
        proof {
            lemma_values_count(self@);
        }
        EntryIterator::new(&self.data)
    }
}

impl<'a, TEntry, TGeneration: GenerationType> IntoIterator for &'a mut GenerationalVector<TEntry, TGeneration> {
    type Item = &'a mut TEntry;

    type IntoIter = EntryMutIterator<'a, TEntry, TGeneration>;

    /// Borrows the values for writing, from the first position upward.
    fn into_iter(self) -> (iter: EntryMutIterator<'a, TEntry, TGeneration>)
        ensures
            iter.pending@.len() == old(self)@.len(),
            iter.pending@.len() == old(self)@.values().len(),
            forall|k: int|
                #![trigger iter.upcoming(k)]
                0 <= k < iter.pending@.len() ==> *iter.upcoming(k) == old(self)@.values()[k],
            old(self).well_formed() ==> final(self).well_formed(),
            final(self)@ == old(self)@.revalued(
                Seq::new(iter.pending@.len(), |k: int| *final(iter.upcoming(k))),
            ),
            final(self)@.values() == Seq::new(
                iter.pending@.len(),
                |k: int| *final(iter.upcoming(k)),
            ),
    {
        let ghost before = self@;
        let ghost after = SlotStore { slots: final(self).data@, free: before.free };
        let iter = EntryMutIterator::new(self.data.as_mut_slice());
        proof {
            let finals = Seq::new(iter.pending@.len(), |k: int| *final(iter.upcoming(k)));
            lemma_downward_is_upward_reversed(before.slots);
            assert forall|p: int| 0 <= p < before.slots.len() implies #[trigger] after.slots[p]
                == before.revalued(finals).slots[p] by {
                if before.slots[p].entry is Some {
                    lemma_rank_places_value(before, p);
                }
            }
            assert(after =~= before.revalued(finals));
            lemma_values_count(before);
            lemma_revalued(before, finals);
            if old(self).well_formed() {
                before.lemma_same_shape(after);
            }
            assert forall|k: int| 0 <= k < iter.pending@.len() implies *iter.upcoming(k)
                == before.values()[k] by {
                let j = iter.pending@.len() - 1 - k;
                assert(*iter.pending@[j] == values_downward(before.slots)[j]);
            }
        }
        iter
    }
}

} // verus!
