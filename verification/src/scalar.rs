//! The arithmetic element of a matrix, and the source of the random values
//! used to initialize a network.

use vstd::prelude::*;

verus! {

/// An arithmetic element: addition, subtraction and multiplication, with a
/// zero and a one, each executable operation pinned to its specification
/// twin. The network's real driver supplies a floating-point instance; the
/// crate itself carries a modular (wrapping) `u64` instance, for which every
/// algebraic statement below is exact.
pub trait Scalar: Sized + Copy {
    spec fn plus_spec(self, other: Self) -> Self;

    spec fn minus_spec(self, other: Self) -> Self;

    spec fn times_spec(self, other: Self) -> Self;

    spec fn zero_spec() -> Self;

    spec fn one_spec() -> Self;

    fn plus(self, other: Self) -> (r: Self)
        ensures
            r == self.plus_spec(other),
    ;

    fn minus(self, other: Self) -> (r: Self)
        ensures
            r == self.minus_spec(other),
    ;

    fn times(self, other: Self) -> (r: Self)
        ensures
            r == self.times_spec(other),
    ;

    fn zero() -> (r: Self)
        ensures
            r == Self::zero_spec(),
    ;

    fn one() -> (r: Self)
        ensures
            r == Self::one_spec(),
    ;
}

/// Arithmetic modulo 2^64: total, and an exact inverse pair for
/// addition and subtraction.
impl Scalar for u64 {
    open spec fn plus_spec(self, other: u64) -> u64 {
        self.wrapping_add(other)
    }

    open spec fn minus_spec(self, other: u64) -> u64 {
        self.wrapping_sub(other)
    }

    open spec fn times_spec(self, other: u64) -> u64 {
        self.wrapping_mul(other)
    }

    open spec fn zero_spec() -> u64 {
        0u64
    }

    open spec fn one_spec() -> u64 {
        1u64
    }

    fn plus(self, other: u64) -> u64 {
        self.wrapping_add(other)
    }

    fn minus(self, other: u64) -> u64 {
        self.wrapping_sub(other)
    }

    fn times(self, other: u64) -> u64 {
        self.wrapping_mul(other)
    }

    fn zero() -> u64 {
        0u64
    }

    fn one() -> u64 {
        1u64
    }
}

/// Subtracting and then adding the same `u64` restores the original value:
/// the wrapping instance satisfies the cancellation law exactly.
pub proof fn lemma_u64_minus_plus_cancel(x: u64, y: u64)
    ensures
        x.minus_spec(y).plus_spec(y) == x,
{
}

/// A source of scalar values for random initialization. Nothing is promised
/// of the values drawn: every contract downstream holds whatever comes back.
pub trait Sampler<T>: Sized {
    fn sample(&mut self) -> T;
}

/// A deterministic linear congruential generator over `u64`, seedable, so a
/// run over the crate's own scalar instance is reproducible.
pub struct Lcg64 {
    pub state: u64,
}

impl Lcg64 {
    pub fn new(seed: u64) -> (r: Self)
        ensures
            r.state == seed,
    {
        Lcg64 { state: seed }
    }

    pub fn step(&mut self) -> (r: u64)
        ensures
            final(self).state == old(self).state.times_spec(6364136223846793005u64).plus_spec(
                1442695040888963407u64,
            ),
            r == final(self).state,
    {
        self.state = self.state.wrapping_mul(6364136223846793005u64).wrapping_add(
            1442695040888963407u64,
        );
        self.state
    }
}

impl Sampler<u64> for Lcg64 {
    fn sample(&mut self) -> u64 {
        self.step()
    }
}

} // verus!
