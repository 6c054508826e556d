//! The numeric element and the two functions of the activation.
//!
//! The trait carries no contract. What a scalar operation returns is spoken
//! of only through the relations below, each of which holds of the
//! arguments of a call and of whatever the call may return; a contract
//! built from them says which operations produced a value, in which order,
//! and is proved for every implementation.

use vstd::prelude::*;

verus! {

/// A number that vectors, matrices and networks are made of.
pub trait Scalar: Copy {
    /// The additive identity.
    fn zero() -> Self;

    /// The multiplicative identity.
    fn one() -> Self;

    /// The number of items in a collection, as a scalar.
    fn from_count(n: usize) -> Self;

    /// `self + rhs`.
    fn plus(self, rhs: Self) -> Self;

    /// `self - rhs`.
    fn minus(self, rhs: Self) -> Self;

    /// `self * rhs`.
    fn times(self, rhs: Self) -> Self;

    /// `self / rhs`.
    fn over(self, rhs: Self) -> Self;

    /// `-self`.
    fn negated(self) -> Self;

    /// `e` raised to `self`.
    fn exp(self) -> Self;

    /// `self > rhs`.
    fn exceeds(self, rhs: Self) -> bool;
}

/// `T::zero()` may return `r`.
#[verifier::inline]
pub open spec fn is_zero<T: Scalar>(r: T) -> bool {
    call_ensures(T::zero, (), r)
}

/// `T::one()` may return `r`.
#[verifier::inline]
pub open spec fn is_one<T: Scalar>(r: T) -> bool {
    call_ensures(T::one, (), r)
}

/// `T::from_count(n)` may return `r`.
#[verifier::inline]
pub open spec fn is_count<T: Scalar>(n: usize, r: T) -> bool {
    call_ensures(T::from_count, (n,), r)
}

/// `a.plus(b)` may return `r`.
#[verifier::inline]
pub open spec fn is_sum<T: Scalar>(a: T, b: T, r: T) -> bool {
    call_ensures(T::plus, (a, b), r)
}

/// `a.minus(b)` may return `r`.
#[verifier::inline]
pub open spec fn is_difference<T: Scalar>(a: T, b: T, r: T) -> bool {
    call_ensures(T::minus, (a, b), r)
}

/// `a.times(b)` may return `r`.
#[verifier::inline]
pub open spec fn is_product<T: Scalar>(a: T, b: T, r: T) -> bool {
    call_ensures(T::times, (a, b), r)
}

/// `a.over(b)` may return `r`.
#[verifier::inline]
pub open spec fn is_quotient<T: Scalar>(a: T, b: T, r: T) -> bool {
    call_ensures(T::over, (a, b), r)
}

/// `a.negated()` may return `r`.
#[verifier::inline]
pub open spec fn is_negation<T: Scalar>(a: T, r: T) -> bool {
    call_ensures(T::negated, (a,), r)
}

/// `a.exp()` may return `r`.
#[verifier::inline]
pub open spec fn is_exponential<T: Scalar>(a: T, r: T) -> bool {
    call_ensures(T::exp, (a,), r)
}

/// `a.exceeds(b)` may return `r`.
#[verifier::inline]
pub open spec fn is_excess<T: Scalar>(a: T, b: T, r: bool) -> bool {
    call_ensures(T::exceeds, (a, b), r)
}

/// Every operation has one answer: what it may return for given arguments
/// is a single scalar.
pub open spec fn is_exact<T: Scalar>() -> bool {
    &&& forall|r: T, s: T| is_zero(r) && is_zero(s) ==> r == s
    &&& forall|r: T, s: T| is_one(r) && is_one(s) ==> r == s
    &&& forall|n: usize, r: T, s: T| is_count(n, r) && is_count(n, s) ==> r == s
    &&& forall|a: T, b: T, r: T, s: T| is_sum(a, b, r) && is_sum(a, b, s) ==> r == s
    &&& forall|a: T, b: T, r: T, s: T| is_difference(a, b, r) && is_difference(a, b, s) ==> r == s
    &&& forall|a: T, b: T, r: T, s: T| is_product(a, b, r) && is_product(a, b, s) ==> r == s
    &&& forall|a: T, b: T, r: T, s: T| is_quotient(a, b, r) && is_quotient(a, b, s) ==> r == s
    &&& forall|a: T, r: T, s: T| is_negation(a, r) && is_negation(a, s) ==> r == s
    &&& forall|a: T, r: T, s: T| is_exponential(a, r) && is_exponential(a, s) ==> r == s
    &&& forall|a: T, b: T, r: bool, s: bool| is_excess(a, b, r) && is_excess(a, b, s) ==> r == s
}

/// Sums do not depend on the order of their two terms.
pub open spec fn plus_commutes<T: Scalar>() -> bool {
    forall|a: T, b: T, r: T| is_sum(a, b, r) ==> is_sum(b, a, r)
}

/// Products do not depend on the order of their two factors.
pub open spec fn times_commutes<T: Scalar>() -> bool {
    forall|a: T, b: T, r: T| is_product(a, b, r) ==> is_product(b, a, r)
}

/// `m` is `-1`: the negation of a one.
pub open spec fn is_minus_one<T: Scalar>(m: T) -> bool {
    exists|u: T| is_one(u) && is_negation(u, m)
}

/// To subtract is to add the product with `-1`.
pub open spec fn minus_adds_negative<T: Scalar>() -> bool {
    forall|a: T, b: T, m: T, n: T, r: T|
        is_minus_one(m) && is_product(b, m, n) && is_difference(a, b, r) ==> is_sum(a, n, r)
}

/// The product of a zero with anything is a zero.
pub open spec fn zero_annihilates<T: Scalar>() -> bool {
    forall|z: T, x: T, r: T| is_zero(z) && is_product(z, x, r) ==> is_zero(r)
}

/// The sum of two zeros is a zero.
pub open spec fn zeros_add_to_zero<T: Scalar>() -> bool {
    forall|a: T, b: T, r: T| is_zero(a) && is_zero(b) && is_sum(a, b, r) ==> is_zero(r)
}

/// `exceeds` may say of `a` and `b` that `a` exceeds `b`.
pub open spec fn is_above<T: Scalar>(a: T, b: T) -> bool {
    is_excess(a, b, true)
}

/// `exceeds` orders the scalars: it never answers both ways, no scalar
/// exceeds itself, and both "exceeds" and "does not exceed" carry over
/// from pair to pair.
pub open spec fn exceeds_orders<T: Scalar>() -> bool {
    &&& forall|a: T, b: T| is_excess(a, b, false) ==> !#[trigger] is_above(a, b)
    &&& forall|a: T| !#[trigger] is_above(a, a)
    &&& forall|a: T, b: T, c: T|
        #[trigger] is_above(a, b) && #[trigger] is_above(b, c) ==> is_above(a, c)
    &&& forall|a: T, b: T, c: T|
        !#[trigger] is_above(a, b) && !#[trigger] is_above(b, c) ==> !is_above(a, c)
}

/// `r` is the sigmoid of a zero.
pub open spec fn is_sigmoid_of_zero<T: Scalar>(r: T) -> bool {
    exists|z: T| is_zero(z) && is_sigmoid(z, r)
}

/// `r` is `1 / k`.
pub open spec fn is_reciprocal<T: Scalar>(k: T, r: T) -> bool {
    exists|u: T| is_one(u) && is_quotient(u, k, r)
}

/// `r` is `1 / (1 + e^(-z))`, computed in that order with a single `one`.
pub open spec fn is_sigmoid<T: Scalar>(z: T, r: T) -> bool {
    exists|n: T, e: T, u: T, d: T|
        is_negation(z, n) && is_exponential(n, e) && is_one(u) && is_sum(u, e, d) && is_quotient(
            u,
            d,
            r,
        )
}

/// `r` is `s * (1 - s)`: the slope of the sigmoid at a point where its
/// value is `s`.
pub open spec fn is_slope<T: Scalar>(s: T, r: T) -> bool {
    exists|u: T, d: T| is_one(u) && is_difference(u, s, d) && is_product(s, d, r)
}

/// `r` is `sigmoid(z) * (1 - sigmoid(z))`, with the sigmoid computed once.
pub open spec fn is_sigmoid_prime<T: Scalar>(z: T, r: T) -> bool {
    exists|s: T| is_sigmoid(z, s) && is_slope(s, r)
}

/// The logistic function `1 / (1 + e^(-z))`.
pub fn sigmoid<T: Scalar>(z: T) -> (r: T)
    ensures
        is_sigmoid(z, r),
{
    let n = z.negated();
    let e = n.exp();
    let u = T::one();
    let d = u.plus(e);
    u.over(d)
}

/// The slope of the logistic function, from its value `s` at the point.
pub fn slope<T: Scalar>(s: T) -> (r: T)
    ensures
        is_slope(s, r),
{
    let u = T::one();
    let d = u.minus(s);
    s.times(d)
}

/// The derivative of the logistic function at `z`.
pub fn sigmoid_prime<T: Scalar>(z: T) -> (r: T)
    ensures
        is_sigmoid_prime(z, r),
{
    let s = sigmoid(z);
    slope(s)
}

} // verus!
