//! What holds of every well-formed state, whatever pushes and removals led
//! to it.

use crate::store::{values_downward, values_upward, Operation, SlotStore};
use crate::vector::{DeletionResult, GenerationalEntry, GenerationalIndex};
use crate::GenerationType;
use vstd::prelude::*;
use vstd::relations::injective_on;
use vstd::set_lib::lemma_map_size;

verus! {

/// The number of elements is the number of handles that resolve: each
/// occupied slot has exactly one.
pub proof fn lemma_len_counts_valid_handles<T, G: GenerationType>(store: SlotStore<T, G>)
    requires
        store.well_formed(),
    ensures
        store.valid_handles().finite(),
        store.valid_handles().len() == store.len(),
{
    let handle_of = |position: int| store.handle_at(position);
    store.lemma_occupied_and_vacant();
    assert(injective_on(handle_of, store.occupied())) by {
        assert forall|p: int, q: int|
            store.occupied().contains(p) && store.occupied().contains(q) && #[trigger] handle_of(p)
                == #[trigger] handle_of(q) implies p == q by {
            assert(store.handle_at(p).index == p);
            assert(store.handle_at(q).index == q);
        }
    }
    assert(store.occupied().map(handle_of) =~= store.valid_handles()) by {
        assert forall|handle: GenerationalIndex<G>|
            store.valid_handles().contains(handle) implies store.occupied().map(handle_of).contains(
            handle,
        ) by {
            let position = handle.index as int;
            assert(store.occupied().contains(position));
            assert(handle_of(position) == handle);
        }
    }
    lemma_map_size(store.occupied(), store.valid_handles(), handle_of);
}

/// Whatever pushes and removals a vector has gone through since it was
/// empty, its state is well formed: it holds as many elements as there are
/// handles that resolve, and as many free positions as there are free slots.
pub proof fn lemma_every_history_is_well_formed<T, G: GenerationType>(
    operations: Seq<Operation<T, G>>,
)
    requires
        SlotStore::<T, G>::empty().admits_all(operations),
    ensures
        ({
            let store = SlotStore::<T, G>::empty().after_all(operations);
            &&& store.well_formed()
            &&& store.valid_handles().len() == store.len()
            &&& store.free.len() == store.vacant().len()
        }),
{
    let empty = SlotStore::<T, G>::empty();
    lemma_history_only_grows(empty, operations);
    let store = empty.after_all(operations);
    lemma_len_counts_valid_handles(store);
    store.lemma_free_counts_vacant();
}

/// A run of operations on a well-formed state leaves it well formed, takes
/// no slot away, and takes no generation back.
pub proof fn lemma_history_only_grows<T, G: GenerationType>(
    store: SlotStore<T, G>,
    operations: Seq<Operation<T, G>>,
)
    requires
        store.well_formed(),
        store.admits_all(operations),
    ensures
        store.after_all(operations).well_formed(),
        store.after_all(operations).slots.len() >= store.slots.len(),
        forall|position: int|
            0 <= position < store.slots.len() ==> (#[trigger] store.after_all(
                operations,
            ).slots[position]).generation.ordinal() >= store.slots[position].generation.ordinal(),
    decreases operations.len(),
{
    if operations.len() > 0 {
        let before = store.after_all(operations.drop_last());
        lemma_history_only_grows(store, operations.drop_last());
        match operations.last() {
            Operation::Push(value) => {
                before.lemma_push_well_formed(value);
                assert forall|position: int| 0 <= position < store.slots.len() implies (
                #[trigger] before.after_push(value).slots[position]).generation.ordinal()
                    >= store.slots[position].generation.ordinal() by {
                    lemma_generation_after_push(before, value, position);
                }
            },
            Operation::Remove(handle) => {
                before.lemma_remove_well_formed(handle);
                assert forall|position: int| 0 <= position < store.slots.len() implies (
                #[trigger] before.after_remove(handle).slots[position]).generation.ordinal()
                    >= store.slots[position].generation.ordinal() by {
                    lemma_generation_after_remove(before, handle, position);
                }
            },
        }
    }
}

/// The handle that a push returns resolves, right after the push, to the
/// value pushed.
pub proof fn lemma_pushed_handle_resolves<T, G: GenerationType>(store: SlotStore<T, G>, value: T)
    requires
        store.well_formed(),
        store.free.len() == 0 ==> store.slots.len() < usize::MAX,
    ensures
        store.after_push(value).lookup(store.next_handle()) == Some(value),
{
    if store.free.len() > 0 {
        let last = store.free.len() - 1;
        assert(store.is_free(store.free[last] as int));
    }
}

/// A handle that resolves goes on resolving to the same value through every
/// push.
pub proof fn lemma_push_keeps_handles<T, G: GenerationType>(
    store: SlotStore<T, G>,
    value: T,
    handle: GenerationalIndex<G>,
)
    requires
        store.well_formed(),
        store.resolves(handle),
    ensures
        store.after_push(value).lookup(handle) == store.lookup(handle),
{
    if store.free.len() > 0 {
        let last = store.free.len() - 1;
        assert(store.is_free(store.free[last] as int));
    }
}

/// A handle that resolves goes on resolving to the same value through every
/// removal at another position, and through every removal that fails.
pub proof fn lemma_remove_keeps_other_handles<T, G: GenerationType>(
    store: SlotStore<T, G>,
    removed: GenerationalIndex<G>,
    handle: GenerationalIndex<G>,
)
    requires
        store.resolves(handle),
        removed.index != handle.index || store.removal(removed) != DeletionResult::Deleted,
    ensures
        store.after_remove(removed).lookup(handle) == store.lookup(handle),
{
}

/// After a removal that succeeded, the handle resolves no longer, and a
/// second removal through it finds nothing.
pub proof fn lemma_removed_handle_is_gone<T, G: GenerationType>(
    store: SlotStore<T, G>,
    handle: GenerationalIndex<G>,
)
    requires
        store.removal(handle) == DeletionResult::Deleted,
    ensures
        store.resolves(handle),
        store.after_remove(handle).lookup(handle) is None,
        store.after_remove(handle).removal(handle) == DeletionResult::NotFound,
        store.after_remove(handle).after_remove(handle) == store.after_remove(handle),
{
}

/// A removal through a handle whose generation the slot has left behind is
/// refused, and changes nothing.
pub proof fn lemma_older_generation_is_refused<T, G: GenerationType>(
    store: SlotStore<T, G>,
    handle: GenerationalIndex<G>,
)
    requires
        store.is_occupied(handle.index as int),
        handle.generation.ordinal() < store.slots[handle.index as int].generation.ordinal(),
    ensures
        store.lookup(handle) is None,
        store.removal(handle) == DeletionResult::InvalidGeneration,
        store.after_remove(handle) == store,
{
}

/// A push leaves the generation of every slot as it is.
pub proof fn lemma_generation_after_push<T, G: GenerationType>(
    store: SlotStore<T, G>,
    value: T,
    position: int,
)
    requires
        store.well_formed(),
        0 <= position < store.slots.len(),
    ensures
        store.after_push(value).slots[position].generation == store.slots[position].generation,
{
    if store.free.len() > 0 {
        let last = store.free.len() - 1;
        assert(store.is_free(store.free[last] as int));
    }
}

/// A removal that succeeds moves the generation of its slot on by one, and
/// leaves the generation of every other slot as it is; a removal that fails
/// leaves them all.
pub proof fn lemma_generation_after_remove<T, G: GenerationType>(
    store: SlotStore<T, G>,
    handle: GenerationalIndex<G>,
    position: int,
)
    requires
        store.can_remove(handle),
        0 <= position < store.slots.len(),
    ensures
        store.after_remove(handle).slots[position].generation.ordinal()
            == store.slots[position].generation.ordinal() + if store.resolves(handle)
            && position == handle.index {
            1nat
        } else {
            0nat
        },
{
    G::lemma_generation_laws(handle.generation, G::spec_one());
}

/// A handle whose element was removed never resolves again, whatever is
/// pushed and removed afterwards: where its position is occupied again, a
/// removal through it is refused.
pub proof fn lemma_removed_handle_never_resolves_again<T, G: GenerationType>(
    store: SlotStore<T, G>,
    handle: GenerationalIndex<G>,
    operations: Seq<Operation<T, G>>,
)
    requires
        store.well_formed(),
        store.can_remove(handle),
        store.resolves(handle),
        store.after_remove(handle).admits_all(operations),
    ensures
        ({
            let later = store.after_remove(handle).after_all(operations);
            &&& later.lookup(handle) is None
            &&& later.removal(handle) != DeletionResult::Deleted
            &&& later.is_occupied(handle.index as int) ==> later.removal(handle)
                == DeletionResult::InvalidGeneration
            &&& later.after_remove(handle) == later
        }),
{
    let freed = store.after_remove(handle);
    store.lemma_remove_well_formed(handle);
    lemma_generation_after_remove(store, handle, handle.index as int);
    lemma_history_only_grows(freed, operations);
    let later = freed.after_all(operations);
    assert(later.slots[handle.index as int].generation.ordinal() > handle.generation.ordinal());
}

/// Once the position of a removed element has been taken by a later push, a
/// removal through the old handle is refused and leaves the new occupant in
/// place.
pub proof fn lemma_stale_handle_is_refused<T, G: GenerationType>(
    store: SlotStore<T, G>,
    handle: GenerationalIndex<G>,
    value: T,
)
    requires
        store.well_formed(),
        store.can_remove(handle),
        store.resolves(handle),
    ensures
        ({
            let freed = store.after_remove(handle);
            let reused = freed.after_push(value);
            let occupant = freed.next_handle();
            &&& occupant.index == handle.index
            &&& occupant.generation.ordinal() == handle.generation.ordinal() + 1
            &&& reused.lookup(handle) is None
            &&& reused.removal(handle) == DeletionResult::InvalidGeneration
            &&& reused.after_remove(handle) == reused
            &&& reused.lookup(occupant) == Some(value)
        }),
{
    G::lemma_generation_laws(handle.generation, G::spec_one());
    let freed = store.after_remove(handle);
    G::lemma_generation_laws(freed.next_handle().generation, handle.generation);
}

/// Free positions are handed out again last in, first out: after two
/// removals, the next push takes the position freed second, and the push
/// after it the position freed first.
pub proof fn lemma_recycling_is_lifo<T, G: GenerationType>(
    store: SlotStore<T, G>,
    first: GenerationalIndex<G>,
    second: GenerationalIndex<G>,
    value: T,
)
    requires
        store.resolves(first),
        store.resolves(second),
        first.index != second.index,
    ensures
        ({
            let freed = store.after_remove(first).after_remove(second);
            &&& freed.next_position() == second.index
            &&& freed.after_push(value).next_position() == first.index
        }),
{
    let freed = store.after_remove(first).after_remove(second);
    assert(freed.free == store.free.push(first.index).push(second.index));
    assert(freed.free.drop_last() =~= store.free.push(first.index));
}

/// The slots never become fewer: a removal leaves their number as it is,
/// and a push adds one slot only where no position is free. After either,
/// the number of free positions is the number of free slots.
pub proof fn lemma_slots_never_shrink<T, G: GenerationType>(
    store: SlotStore<T, G>,
    handle: GenerationalIndex<G>,
    value: T,
)
    requires
        store.well_formed(),
        store.can_remove(handle),
        store.free.len() == 0 ==> store.slots.len() < usize::MAX,
    ensures
        store.after_remove(handle).slots.len() == store.slots.len(),
        store.after_remove(handle).free.len() == store.after_remove(handle).vacant().len(),
        store.after_push(value).slots.len() == store.slots.len() + if store.free.len() == 0 {
            1nat
        } else {
            0nat
        },
        store.after_push(value).free.len() == store.after_push(value).vacant().len(),
{
    store.lemma_remove_well_formed(handle);
    store.after_remove(handle).lemma_free_counts_vacant();
    store.lemma_push_well_formed(value);
    store.after_push(value).lemma_free_counts_vacant();
}

/// The values from the last position downward are the values from the first
/// position upward, turned round: the same values, each as often.
pub proof fn lemma_downward_is_upward_reversed<T, G: GenerationType>(
    slots: Seq<GenerationalEntry<T, G>>,
)
    ensures
        values_downward(slots) == values_upward(slots).reverse(),
        values_downward(slots).to_multiset() == values_upward(slots).to_multiset(),
    decreases slots.len(),
{
    values_upward(slots).lemma_reverse_to_multiset();
    if slots.len() == 0 {
        assert(values_upward(slots).reverse() =~= Seq::<T>::empty());
    } else {
        let front = slots.drop_last();
        lemma_downward_is_upward_reversed(front);
        lemma_upward_of_push(front, slots.last());
        assert(front.push(slots.last()) =~= slots);
        match slots.last().entry {
            Some(value) => {
                assert((values_upward(front) + seq![value]).reverse() =~= seq![value]
                    + values_upward(front).reverse());
            },
            None => {},
        }
    }
}

/// A traversal yields as many values as there are elements, whichever way
/// it goes.
pub proof fn lemma_values_count<T, G: GenerationType>(store: SlotStore<T, G>)
    ensures
        store.values().len() == store.len(),
        values_downward(store.slots).len() == store.len(),
    decreases store.slots.len(),
{
    lemma_downward_is_upward_reversed(store.slots);
    if store.slots.len() == 0 {
        assert(store.occupied() =~= Set::<int>::empty());
    } else {
        let shorter = SlotStore { slots: store.slots.drop_last(), free: store.free };
        lemma_values_count(shorter);
        lemma_upward_of_push(shorter.slots, store.slots.last());
        assert(shorter.slots.push(store.slots.last()) =~= store.slots);
        shorter.lemma_occupied_and_vacant();
        match store.slots.last().entry {
            Some(value) => {
                assert(store.occupied() =~= shorter.occupied().insert(store.slots.len() - 1));
            },
            None => {
                assert(store.occupied() =~= shorter.occupied());
            },
        }
    }
}

/// Walking upward over one more slot at the end yields its value last.
pub proof fn lemma_upward_of_push<T, G: GenerationType>(
    slots: Seq<GenerationalEntry<T, G>>,
    slot: GenerationalEntry<T, G>,
)
    ensures
        values_upward(slots.push(slot)) == values_upward(slots) + match slot.entry {
            Some(value) => seq![value],
            None => Seq::<T>::empty(),
        },
    decreases slots.len(),
{
    let tail = match slot.entry {
        Some(value) => seq![value],
        None => Seq::<T>::empty(),
    };
    if slots.len() == 0 {
        assert(slots.push(slot).drop_first() =~= slots);
        assert(values_upward(slots.push(slot)) =~= values_upward(slots) + tail);
    } else {
        lemma_upward_of_push(slots.drop_first(), slot);
        assert(slots.push(slot).drop_first() =~= slots.drop_first().push(slot));
        assert(values_upward(slots.push(slot)) =~= values_upward(slots) + tail);
    }
}

/// Walking downward over one more slot at the front yields its value last.
pub proof fn lemma_downward_of_prepend<T, G>(
    slot: GenerationalEntry<T, G>,
    slots: Seq<GenerationalEntry<T, G>>,
)
    ensures
        values_downward(seq![slot] + slots) == values_downward(slots) + match slot.entry {
            Some(value) => seq![value],
            None => Seq::<T>::empty(),
        },
    decreases slots.len(),
{
    let tail = match slot.entry {
        Some(value) => seq![value],
        None => Seq::<T>::empty(),
    };
    let whole = seq![slot] + slots;
    if slots.len() == 0 {
        assert(whole.drop_last() =~= slots);
        assert(values_downward(whole) =~= values_downward(slots) + tail);
    } else {
        lemma_downward_of_prepend(slot, slots.drop_last());
        assert(whole.drop_last() =~= seq![slot] + slots.drop_last());
        assert(values_downward(whole) =~= values_downward(slots) + tail);
    }
}

/// Walking upward over two runs of slots, one after the other, yields the
/// values of the first run and then those of the second.
pub proof fn lemma_upward_of_concat<T, G: GenerationType>(
    front: Seq<GenerationalEntry<T, G>>,
    back: Seq<GenerationalEntry<T, G>>,
)
    ensures
        values_upward(front + back) == values_upward(front) + values_upward(back),
    decreases back.len(),
{
    if back.len() == 0 {
        assert(front + back =~= front);
        assert(values_upward(front) + values_upward(back) =~= values_upward(front));
    } else {
        let shorter = back.drop_last();
        lemma_upward_of_concat(front, shorter);
        lemma_upward_of_push(front + shorter, back.last());
        lemma_upward_of_push(shorter, back.last());
        assert((front + shorter).push(back.last()) =~= front + back);
        assert(shorter.push(back.last()) =~= back);
        let tail = match back.last().entry {
            Some(value) => seq![value],
            None => Seq::<T>::empty(),
        };
        assert((values_upward(front) + values_upward(shorter)) + tail =~= values_upward(front) + (
        values_upward(shorter) + tail));
    }
}

/// The value of an occupied slot stands, among the values walked upward, at
/// the rank of its position; walked downward, it stands as far from the end.
pub proof fn lemma_rank_places_value<T, G: GenerationType>(store: SlotStore<T, G>, position: int)
    requires
        store.is_occupied(position),
    ensures
        0 <= store.rank(position) < store.values().len(),
        store.values()[store.rank(position)] == store.slots[position].entry->0,
        values_downward(store.slots.skip(position + 1)).len() == store.values().len() - 1
            - store.rank(position),
{
    let front = store.slots.take(position);
    let here = seq![store.slots[position]];
    let back = store.slots.skip(position + 1);
    assert(store.slots =~= (front + here) + back);
    lemma_upward_of_concat(front + here, back);
    lemma_upward_of_push(front, store.slots[position]);
    assert(front.push(store.slots[position]) =~= front + here);
    lemma_downward_is_upward_reversed(back);
}

/// Putting other values into the occupied slots changes nothing but the
/// values: the state stays well formed, and a traversal yields the values
/// put in. Putting in the values already held changes nothing at all.
pub proof fn lemma_revalued<T, G: GenerationType>(store: SlotStore<T, G>, values: Seq<T>)
    requires
        values.len() == store.values().len(),
    ensures
        store.revalued(values).values() == values,
        store.revalued(store.values()) == store,
        store.revalued(values).free == store.free,
        store.revalued(values).occupied() == store.occupied(),
        store.well_formed() ==> store.revalued(values).well_formed(),
{
    lemma_revalued_prefix(store, values);
    assert(values.take(values.len() as int) =~= values);
    let same = store.revalued(store.values());
    assert forall|p: int| 0 <= p < store.slots.len() implies #[trigger] same.slots[p]
        == store.slots[p] by {
        if store.slots[p].entry is Some {
            lemma_rank_places_value(store, p);
        }
    }
    assert(same =~= store);
    assert(store.revalued(values).occupied() =~= store.occupied());
    if store.well_formed() {
        store.lemma_same_shape(store.revalued(values));
    }
}

/// Of the values put into the occupied slots, a traversal yields as many as
/// there are occupied slots, from the first on.
pub proof fn lemma_revalued_prefix<T, G: GenerationType>(store: SlotStore<T, G>, values: Seq<T>)
    requires
        values.len() >= store.values().len(),
    ensures
        store.revalued(values).values() == values.take(store.values().len() as int),
    decreases store.slots.len(),
{
    let after = store.revalued(values);
    if store.slots.len() == 0 {
        assert(after.values() =~= values.take(0));
    } else {
        let last = store.slots.len() - 1;
        let shorter = SlotStore { slots: store.slots.drop_last(), free: store.free };
        lemma_upward_of_push(shorter.slots, store.slots.last());
        assert(shorter.slots.push(store.slots.last()) =~= store.slots);
        lemma_revalued_prefix(shorter, values);
        assert(after.slots.drop_last() =~= shorter.revalued(values).slots) by {
            assert forall|p: int| 0 <= p < last implies store.slots.take(p)
                == shorter.slots.take(p) by {
                assert(store.slots.take(p) =~= shorter.slots.take(p));
            }
        }
        lemma_upward_of_push(after.slots.drop_last(), after.slots.last());
        assert(after.slots.drop_last().push(after.slots.last()) =~= after.slots);
        assert(store.slots.take(last) =~= shorter.slots);
        let count = shorter.values().len() as int;
        match store.slots.last().entry {
            Some(value) => {
                assert(values.take(count) + seq![values[count]] =~= values.take(count + 1));
            },
            None => {},
        }
    }
}

/// Loading a sequence is pushing its values, one after the other, onto an
/// empty vector: the value with the index `i` gets the handle with the
/// position `i` and the first generation.
pub proof fn lemma_load_is_repeated_push<T, G: GenerationType>(values: Seq<T>, value: T)
    ensures
        SlotStore::<T, G>::from_seq(Seq::empty()) == SlotStore::<T, G>::empty(),
        SlotStore::<T, G>::from_seq(values.push(value)) == SlotStore::<T, G>::from_seq(
            values,
        ).after_push(value),
        SlotStore::<T, G>::from_seq(values).next_handle() == (GenerationalIndex {
            index: values.len() as usize,
            generation: G::spec_one(),
        }),
{
    assert(SlotStore::<T, G>::from_seq(Seq::empty()) =~= SlotStore::<T, G>::empty());
    assert(SlotStore::<T, G>::from_seq(values.push(value)) =~= SlotStore::<T, G>::from_seq(
        values,
    ).after_push(value));
}

/// A vector loaded from a sequence holds the values of the sequence in
/// their order, so that taking them all out again, which goes from the last
/// position downward, gives the sequence turned round: the same values, each
/// as often as it was given.
pub proof fn lemma_load_then_drain<T, G: GenerationType>(values: Seq<T>)
    ensures
        SlotStore::<T, G>::from_seq(values).values() == values,
        values_downward(SlotStore::<T, G>::from_seq(values).slots) == values.reverse(),
        values_downward(SlotStore::<T, G>::from_seq(values).slots).to_multiset()
            == values.to_multiset(),
    decreases values.len(),
{
    let slots = SlotStore::<T, G>::from_seq(values).slots;
    if values.len() == 0 {
        assert(values_upward(slots) =~= values);
    } else {
        let front = values.drop_last();
        let front_slots = SlotStore::<T, G>::from_seq(front).slots;
        lemma_load_then_drain::<T, G>(front);
        assert(front_slots.push(slots.last()) =~= slots);
        lemma_upward_of_push(front_slots, slots.last());
        assert(front + seq![values.last()] =~= values);
    }
    lemma_downward_is_upward_reversed(slots);
}

} // verus!
