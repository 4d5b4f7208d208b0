//! The unsigned integers as generation counters.
//!
//! Each takes its first generation from `num_traits::One`, whose value for
//! an integer type is the number 1. Those calls are believed, not proved;
//! adding and comparing go by the verifier's own account of the integers.

use crate::GenerationType;
use num_traits::One;
use vstd::prelude::*;

verus! {

/// `<u8 as num_traits::One>::one`: the number 1.
#[verifier::external_body]
fn one_u8() -> (first: u8)
    ensures
        first == 1,
{
    <u8 as One>::one()
}

/// `<u16 as num_traits::One>::one`: the number 1.
#[verifier::external_body]
fn one_u16() -> (first: u16)
    ensures
        first == 1,
{
    <u16 as One>::one()
}

/// `<u32 as num_traits::One>::one`: the number 1.
#[verifier::external_body]
fn one_u32() -> (first: u32)
    ensures
        first == 1,
{
    <u32 as One>::one()
}

/// `<u64 as num_traits::One>::one`: the number 1.
#[verifier::external_body]
fn one_u64() -> (first: u64)
    ensures
        first == 1,
{
    <u64 as One>::one()
}

/// `<u128 as num_traits::One>::one`: the number 1.
#[verifier::external_body]
fn one_u128() -> (first: u128)
    ensures
        first == 1,
{
    <u128 as One>::one()
}

/// `<usize as num_traits::One>::one`: the number 1.
#[verifier::external_body]
fn one_usize() -> (first: usize)
    ensures
        first == 1,
{
    <usize as One>::one()
}

impl GenerationType for u8 {
    open spec fn ordinal(self) -> nat {
        self as nat
    }

    open spec fn last_ordinal() -> nat {
        u8::MAX as nat
    }

    open spec fn spec_one() -> Self {
        1
    }

    fn one() -> (first: Self) {
        one_u8()
    }

    proof fn lemma_generation_laws(a: Self, b: Self) {
    }
}

impl GenerationType for u16 {
    open spec fn ordinal(self) -> nat {
        self as nat
    }

    open spec fn last_ordinal() -> nat {
        u16::MAX as nat
    }

    open spec fn spec_one() -> Self {
        1
    }

    fn one() -> (first: Self) {
        one_u16()
    }

    proof fn lemma_generation_laws(a: Self, b: Self) {
    }
}

impl GenerationType for u32 {
    open spec fn ordinal(self) -> nat {
        self as nat
    }

    open spec fn last_ordinal() -> nat {
        u32::MAX as nat
    }

    open spec fn spec_one() -> Self {
        1
    }

    fn one() -> (first: Self) {
        one_u32()
    }

    proof fn lemma_generation_laws(a: Self, b: Self) {
    }
}

impl GenerationType for u64 {
    open spec fn ordinal(self) -> nat {
        self as nat
    }

    open spec fn last_ordinal() -> nat {
        u64::MAX as nat
    }

    open spec fn spec_one() -> Self {
        1
    }

    fn one() -> (first: Self) {
        one_u64()
    }

    proof fn lemma_generation_laws(a: Self, b: Self) {
    }
}

impl GenerationType for u128 {
    open spec fn ordinal(self) -> nat {
        self as nat
    }

    open spec fn last_ordinal() -> nat {
        u128::MAX as nat
    }

    open spec fn spec_one() -> Self {
        1
    }

    fn one() -> (first: Self) {
        one_u128()
    }

    proof fn lemma_generation_laws(a: Self, b: Self) {
    }
}

impl GenerationType for usize {
    open spec fn ordinal(self) -> nat {
        self as nat
    }

    open spec fn last_ordinal() -> nat {
        usize::MAX as nat
    }

    open spec fn spec_one() -> Self {
        1
    }

    fn one() -> (first: Self) {
        one_usize()
    }

    proof fn lemma_generation_laws(a: Self, b: Self) {
    }
}

} // verus!
