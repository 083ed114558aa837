//! The scalar capability traits.
//!
//! Every quantity the network handles (weights, biases, node values,
//! gradients) is a value of one abstract scalar type. [`Arith`] supplies the
//! ring-like operations the engine needs and [`Sigmoid`] the activation
//! function and its derivative. Each executable method is pinned to an
//! uninterpreted specification function of the same implementation, so the
//! engine's contracts speak of the implementation's own operations exactly,
//! while promising nothing about their numeric content.

use vstd::prelude::*;

verus! {

/// Scalar arithmetic as the network consumes it.
///
/// An implementation chooses the carrier (typically a floating-point
/// wrapper); each executable operation must return precisely the value of
/// its specification counterpart, and nothing further is assumed of it.
pub trait Arith: Sized + Copy {
    /// The value of the additive identity used to zero-initialize
    /// parameters and accumulators.
    spec fn zero_spec() -> Self;

    /// The value the shape-only constructor uses as the default
    /// learning rate.
    spec fn one_spec() -> Self;

    /// The constant factor of the squared-error derivative.
    spec fn two_spec() -> Self;

    /// What `add` returns.
    spec fn add_spec(self, other: Self) -> Self;

    /// What `sub` returns.
    spec fn sub_spec(self, other: Self) -> Self;

    /// What `mul` returns.
    spec fn mul_spec(self, other: Self) -> Self;

    /// What `neg` returns.
    spec fn neg_spec(self) -> Self;

    /// What `recip_of` returns: the reciprocal of a positive count,
    /// used to average accumulated gradients.
    spec fn recip_of_spec(n: usize) -> Self;

    fn zero() -> (r: Self)
        ensures
            r == Self::zero_spec(),
    ;

    fn one() -> (r: Self)
        ensures
            r == Self::one_spec(),
    ;

    fn two() -> (r: Self)
        ensures
            r == Self::two_spec(),
    ;

    fn add(self, other: Self) -> (r: Self)
        ensures
            r == self.add_spec(other),
    ;

    fn sub(self, other: Self) -> (r: Self)
        ensures
            r == self.sub_spec(other),
    ;

    fn mul(self, other: Self) -> (r: Self)
        ensures
            r == self.mul_spec(other),
    ;

    fn neg(self) -> (r: Self)
        ensures
            r == self.neg_spec(),
    ;

    fn recip_of(n: usize) -> (r: Self)
        requires
            n > 0,
        ensures
            r == Self::recip_of_spec(n),
    ;
}

/// The activation function and its derivative.
///
/// An implementation over floating point computes
/// `sigmoid(x) = 1 / (1 + e^-x)` and
/// `sig_deriv(x) = sigmoid(x) * (1 - sigmoid(x))`; the engine itself relies
/// only on each method returning the value of its specification counterpart.
pub trait Sigmoid: Arith {
    /// What `sigmoid` returns.
    spec fn sigmoid_spec(self) -> Self;

    /// What `sig_deriv` returns.
    spec fn sig_deriv_spec(self) -> Self;

    fn sigmoid(&self) -> (r: Self)
        ensures
            r == self.sigmoid_spec(),
    ;

    fn sig_deriv(&self) -> (r: Self)
        ensures
            r == self.sig_deriv_spec(),
    ;
}

} // verus!
