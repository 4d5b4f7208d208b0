//! The stack of free positions, kept in a `SmallVec` that holds its first
//! sixteen entries inline.
//!
//! Nothing in this file is proved. Each function hands its work to the
//! method of `SmallVec` that its comment names, and its contract says what
//! that method does to the positions held.

use smallvec::SmallVec;
use vstd::prelude::*;

verus! {

/// A stack of positions in a `smallvec::SmallVec<[usize; 16]>`. The verifier
/// does not look inside: what the stack holds is given by [`free_positions`].
#[derive(Debug)]
#[verifier::external_body]
pub struct FreeList {
    inner: SmallVec<[usize; 16]>,
}

/// The positions that a free list holds, the most recently pushed last.
pub uninterp spec fn free_positions(list: FreeList) -> Seq<usize>;

impl FreeList {
    /// `SmallVec::with_capacity`: a list that holds nothing. Room for up to
    /// sixteen positions is there without any allocation.
    #[verifier::external_body]
    pub(crate) fn with_capacity(n: usize) -> (list: FreeList)
        requires
            n <= 16,
        ensures
            free_positions(list) == Seq::<usize>::empty(),
    {
        FreeList { inner: SmallVec::with_capacity(n) }
    }

    /// `SmallVec::is_empty`: whether the list holds no position.
    #[verifier::external_body]
    pub(crate) fn is_empty(&self) -> (empty: bool)
        ensures
            empty == (free_positions(*self).len() == 0),
    {
        self.inner.is_empty()
    }

    /// `SmallVec::as_slice`: the positions held, in the order of the list.
    #[verifier::external_body]
    pub(crate) fn as_slice(&self) -> (positions: &[usize])
        ensures
            positions@ == free_positions(*self),
    {
        self.inner.as_slice()
    }

    /// `SmallVec::len`: the number of positions held.
    #[verifier::external_body]
    pub(crate) fn len(&self) -> (n: usize)
        ensures
            n == free_positions(*self).len(),
    {
        self.inner.len()
    }

    /// `SmallVec::push`: the position is added at the end, and the positions
    /// held before stay as they are. A list that outgrows its room moves to
    /// the heap; where the allocator cannot serve, the process ends.
    #[verifier::external_body]
    pub(crate) fn push(&mut self, position: usize)
        ensures
            free_positions(*final(self)) == free_positions(*old(self)).push(position),
    {
        self.inner.push(position)
    }

    /// `SmallVec::pop`: the last position leaves the list and is returned;
    /// a list that holds nothing stays as it is and gives `None`.
    #[verifier::external_body]
    pub(crate) fn pop(&mut self) -> (position: Option<usize>)
        ensures
            match position {
                Some(p) => {
                    &&& free_positions(*old(self)).len() > 0
                    &&& p == free_positions(*old(self)).last()
                    &&& free_positions(*final(self)) == free_positions(*old(self)).drop_last()
                },
                None => {
                    &&& free_positions(*old(self)).len() == 0
                    &&& free_positions(*final(self)) == free_positions(*old(self))
                },
            },
    {
        self.inner.pop()
    }
}

} // verus!
