//! Conversion traits for the two node kinds, and the squared-error helpers.

use vstd::prelude::*;
use crate::sigmoid::Arith;

verus! {

/// Borrowing view of a sum type as one of its cases, `None` when the value
/// is of another case.
pub trait TryIntoRef<T> {
    /// Whether the value is of the case `T`.
    spec fn is_case(&self) -> bool;

    /// The `T` held, meaningful when the value is of that case.
    spec fn as_case(&self) -> T
        recommends
            self.is_case(),
    ;

    fn try_into_ref(&self) -> (r: Option<&T>)
        ensures
            r is Some <==> self.is_case(),
            r matches Some(x) ==> *x == self.as_case(),
    ;
}

/// Mutably borrowing view of a sum type as one of its cases, `None` when the
/// value is of another case; a miss leaves the value untouched.
pub trait TryIntoRefMut<T>: Sized {
    /// Whether the value is of the case `T`.
    spec fn is_case_mut(&self) -> bool;

    fn try_into_ref_mut(&mut self) -> (r: Option<&mut T>)
        ensures
            r is Some <==> old(self).is_case_mut(),
            r is None ==> *final(self) == *old(self),
    ;
}

/// The squared error `(a - b)^2`, one output node's share of the cost.
pub fn error_f<S: Arith>(a: S, b: S) -> (r: S)
    ensures
        r == a.sub_spec(b).mul_spec(a.sub_spec(b)),
{
    let d = a.sub(b);
    d.mul(d)
}

/// The derivative `2 * (output - expected)` of the squared error with
/// respect to the output.
pub fn error_deriv<S: Arith>(output: S, expected: S) -> (r: S)
    ensures
        r == S::two_spec().mul_spec(output.sub_spec(expected)),
{
    S::two().mul(output.sub(expected))
}

} // verus!
