//! The generation counter that a vector uses where none is named.

use crate::GenerationType;
use std::cmp::Ordering;
use std::ops::{Add, AddAssign};
use vstd::prelude::*;
use vstd::std_specs::cmp::{PartialEqSpecImpl, PartialOrdSpecImpl};
use vstd::std_specs::ops::AddSpecImpl;

verus! {

/// The default generation type: a counter as wide as `usize` that starts at
/// one and is never zero. Counters are equal, and ordered, as their numbers
/// are.
#[derive(Debug, Copy, Clone, Ord, Eq)]
pub struct DefaultGenerationType(usize);

impl DefaultGenerationType {
    #[verifier::type_invariant]
    spec fn is_nonzero(self) -> bool {
        self.0 >= 1
    }

    /// The number that the counter has reached.
    pub closed spec fn number(self) -> nat {
        self.0 as nat
    }

    /// Returns the counter as a number, which is at least one.
    pub fn get(self) -> (number: usize)
        ensures
            number == self.number(),
            number >= 1,
    {
        proof {
            use_type_invariant(&self);
        }
        self.0
    }
}

impl PartialEq for DefaultGenerationType {
    fn eq(&self, other: &Self) -> (same: bool) {
        self.0 == other.0
    }
}

impl PartialEqSpecImpl for DefaultGenerationType {
    open spec fn obeys_eq_spec() -> bool {
        true
    }

    open spec fn eq_spec(&self, other: &Self) -> bool {
        self.number() == other.number()
    }
}

impl PartialOrd for DefaultGenerationType {
    fn partial_cmp(&self, other: &Self) -> (order: Option<Ordering>) {
        if self.0 < other.0 {
            Some(Ordering::Less)
        } else if self.0 > other.0 {
            Some(Ordering::Greater)
        } else {
            Some(Ordering::Equal)
        }
    }
}

impl PartialOrdSpecImpl for DefaultGenerationType {
    open spec fn obeys_partial_cmp_spec() -> bool {
        true
    }

    open spec fn partial_cmp_spec(&self, other: &Self) -> Option<Ordering> {
        if self.number() < other.number() {
            Some(Ordering::Less)
        } else if self.number() > other.number() {
            Some(Ordering::Greater)
        } else {
            Some(Ordering::Equal)
        }
    }
}

impl Add for DefaultGenerationType {
    type Output = DefaultGenerationType;

    /// Adds two counters. The sum must fit: a counter never wraps around.
    fn add(self, rhs: Self) -> (sum: Self::Output)
        ensures
            sum.number() == self.number() + rhs.number(),
    {
        proof {
            use_type_invariant(&self);
        }
        Self(self.0 + rhs.0)
    }
}

impl AddSpecImpl for DefaultGenerationType {
    open spec fn obeys_add_spec() -> bool {
        true
    }

    open spec fn add_req(self, rhs: Self) -> bool {
        self.number() + rhs.number() <= usize::MAX
    }

    closed spec fn add_spec(self, rhs: Self) -> Self::Output {
        Self((self.0 + rhs.0) as usize)
    }
}

impl AddAssign for DefaultGenerationType {
    /// Adds a counter to this one. The sum must fit.
    fn add_assign(&mut self, rhs: Self)
        requires
            old(self).number() + rhs.number() <= usize::MAX,
        ensures
            final(self).number() == old(self).number() + rhs.number(),
    {
        let sum = *self + rhs;
        proof {
            use_type_invariant(&sum);
        }
        self.0 = sum.0;
    }
}

impl Default for DefaultGenerationType {
    /// The first generation.
    fn default() -> (first: Self)
        ensures
            first == Self::spec_one(),
    {
        Self(1)
    }
}

impl GenerationType for DefaultGenerationType {
    open spec fn ordinal(self) -> nat {
        self.number()
    }

    open spec fn last_ordinal() -> nat {
        usize::MAX as nat
    }

    closed spec fn spec_one() -> Self {
        Self(1)
    }

    fn one() -> (first: Self) {
        Self(1)
    }

    proof fn lemma_generation_laws(a: Self, b: Self) {
    }
}

} // verus!
