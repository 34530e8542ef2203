//! The element type of a tensor: the arithmetic the kernels need, each
//! operation tied to a spec function that contracts speak of.

use vstd::prelude::*;

verus! {

/// A numeric element. Each operation returns exactly what its spec function says.
pub trait Scalar: Copy + Sized {
    spec fn zero_spec() -> Self;

    spec fn one_spec() -> Self;

    spec fn plus_spec(self, o: Self) -> Self;

    spec fn minus_spec(self, o: Self) -> Self;

    spec fn times_spec(self, o: Self) -> Self;

    /// The value is strictly greater than zero.
    spec fn positive_spec(self) -> bool;

    /// The value is not a number (training has diverged).
    spec fn diverged_spec(self) -> bool;

    fn zero() -> (r: Self)
        ensures
            r == Self::zero_spec(),
    ;

    fn one() -> (r: Self)
        ensures
            r == Self::one_spec(),
    ;

    fn plus(self, o: Self) -> (r: Self)
        ensures
            r == self.plus_spec(o),
    ;

    fn minus(self, o: Self) -> (r: Self)
        ensures
            r == self.minus_spec(o),
    ;

    fn times(self, o: Self) -> (r: Self)
        ensures
            r == self.times_spec(o),
    ;

    fn is_positive(self) -> (r: bool)
        ensures
            r == self.positive_spec(),
    ;

    fn is_diverged(self) -> (r: bool)
        ensures
            r == self.diverged_spec(),
    ;
}

/// A scalar with an exponential, a division and an order: what the row-normalizing
/// activation needs. Each operation returns exactly what its spec function says.
pub trait Real: Scalar {
    spec fn exp_spec(self) -> Self;

    spec fn div_spec(self, o: Self) -> Self;

    spec fn greater_spec(self, o: Self) -> bool;

    fn exp(self) -> (r: Self)
        ensures
            r == self.exp_spec(),
    ;

    fn div(self, o: Self) -> (r: Self)
        ensures
            r == self.div_spec(o),
    ;

    fn greater(self, o: Self) -> (r: bool)
        ensures
            r == self.greater_spec(o),
    ;
}

/// Integers, with two's-complement wrapping arithmetic; they never diverge.
impl Scalar for i64 {
    open spec fn zero_spec() -> i64 {
        0
    }

    open spec fn one_spec() -> i64 {
        1
    }

    open spec fn plus_spec(self, o: i64) -> i64 {
        self.wrapping_add(o)
    }

    open spec fn minus_spec(self, o: i64) -> i64 {
        self.wrapping_sub(o)
    }

    open spec fn times_spec(self, o: i64) -> i64 {
        self.wrapping_mul(o)
    }

    open spec fn positive_spec(self) -> bool {
        self > 0
    }

    open spec fn diverged_spec(self) -> bool {
        false
    }

    fn zero() -> (r: i64) {
        0
    }

    fn one() -> (r: i64) {
        1
    }

    fn plus(self, o: i64) -> (r: i64) {
        self.wrapping_add(o)
    }

    fn minus(self, o: i64) -> (r: i64) {
        self.wrapping_sub(o)
    }

    fn times(self, o: i64) -> (r: i64) {
        self.wrapping_mul(o)
    }

    fn is_positive(self) -> (r: bool) {
        self > 0
    }

    fn is_diverged(self) -> (r: bool) {
        false
    }
}

} // verus!
