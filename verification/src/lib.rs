//! A vector whose elements are addressed by handles that pair a position
//! with a generation.
//!
//! A [`GenerationalVector`] keeps its values in slots that never move. A slot
//! that is freed keeps its position and is handed out again by a later push,
//! under the next generation, so that a handle to the earlier occupant no
//! longer resolves.

pub mod default_generation_type;
pub mod free_list;
pub mod integers;
pub mod iterators;
pub mod laws;
pub mod store;
pub mod vector;

pub use crate::default_generation_type::DefaultGenerationType;
pub use crate::store::{Operation, SlotStore};
pub use crate::vector::{DeletionResult, GenerationalEntry, GenerationalIndex, GenerationalVector};

use std::ops::Add;
use vstd::prelude::*;
use vstd::std_specs::cmp::PartialEqSpec;
use vstd::std_specs::ops::AddSpec;

verus! {

/// What a type must offer to count the generations of a slot.
///
/// A generation stands for a number, its ordinal. The first generation has
/// the ordinal 1, and adding two generations adds their ordinals, as long as
/// the sum does not pass the last ordinal that the type can hold.
pub trait GenerationType: Copy + PartialEq + Add<Output = Self> {
    /// The number that a generation stands for.
    spec fn ordinal(self) -> nat;

    /// The largest ordinal that the type can hold.
    spec fn last_ordinal() -> nat;

    /// The first generation.
    spec fn spec_one() -> Self;

    /// Returns the first generation.
    fn one() -> (first: Self)
        ensures
            first == Self::spec_one(),
    ;

    /// The first generation has the ordinal 1; generations with the same
    /// ordinal are the same; `==` tells exactly that; and `+` adds the
    /// ordinals wherever the sum can be held.
    proof fn lemma_generation_laws(a: Self, b: Self)
        ensures
            Self::spec_one().ordinal() == 1,
            a.ordinal() <= Self::last_ordinal(),
            a.ordinal() == b.ordinal() ==> a == b,
            Self::obeys_eq_spec(),
            a.eq_spec(&b) <==> a == b,
            Self::obeys_add_spec(),
            a.add_req(b) <==> a.ordinal() + b.ordinal() <= Self::last_ordinal(),
            a.add_req(b) ==> a.add_spec(b).ordinal() == a.ordinal() + b.ordinal(),
    ;
}

} // verus!
