//! The pluggable activation pair: an elementwise function and its
//! derivative, the derivative taken on already-activated values.

use vstd::prelude::*;
use crate::scalar::Scalar;

verus! {

/// An activation pair. `apply` maps a pre-activation value to an activation;
/// `derivative` maps an activation output (not a raw pre-activation) to the
/// slope at that point, consistent with derivative identities such as the
/// logistic sigmoid's `s'(x) = s(x) * (1 - s(x))`.
pub trait Activation<T: Scalar>: Sized {
    spec fn apply_spec(&self, x: T) -> T;

    spec fn derivative_spec(&self, y: T) -> T;

    fn apply(&self, x: T) -> (r: T)
        ensures
            r == self.apply_spec(x),
    ;

    fn derivative(&self, y: T) -> (r: T)
        ensures
            r == self.derivative_spec(y),
    ;
}

/// The identity activation: passes values through unchanged, with constant
/// slope one. It works over any scalar, so the crate's own instance is
/// complete without floating point.
pub struct Identity;

impl<T: Scalar> Activation<T> for Identity {
    open spec fn apply_spec(&self, x: T) -> T {
        x
    }

    open spec fn derivative_spec(&self, y: T) -> T {
        T::one_spec()
    }

    fn apply(&self, x: T) -> T {
        x
    }

    fn derivative(&self, y: T) -> T {
        T::one()
    }
}

} // verus!
