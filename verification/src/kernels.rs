//! What the containers compute, stated over plain sequences of scalars, and
//! the loops that compute it.

use vstd::prelude::*;
use crate::scalar::{is_excess, is_product, is_sum, is_difference, is_zero, Scalar};

verus! {

/// `r` holds, place by place, a result of `f` on the items of `a` and `b`.
pub open spec fn is_combination<T, F: Fn(T, T) -> T>(f: F, a: Seq<T>, b: Seq<T>, r: Seq<T>) -> bool {
    &&& a.len() == r.len()
    &&& b.len() == r.len()
    &&& forall|i: int| 0 <= i < r.len() ==> f.ensures((a[i], b[i]), #[trigger] r[i])
}

/// `r` holds, place by place, a result of `f` on the items of `a`.
pub open spec fn is_image<T, F: Fn(T) -> T>(f: F, a: Seq<T>, r: Seq<T>) -> bool {
    &&& a.len() == r.len()
    &&& forall|i: int| 0 <= i < r.len() ==> f.ensures((a[i],), #[trigger] r[i])
}

/// `r[i]` is `a[i] + b[i]` in every place.
pub open spec fn is_sum_of<T: Scalar>(a: Seq<T>, b: Seq<T>, r: Seq<T>) -> bool {
    &&& a.len() == r.len()
    &&& b.len() == r.len()
    &&& forall|i: int| 0 <= i < r.len() ==> is_sum(a[i], b[i], #[trigger] r[i])
}

/// `r[i]` is `a[i] - b[i]` in every place.
pub open spec fn is_difference_of<T: Scalar>(a: Seq<T>, b: Seq<T>, r: Seq<T>) -> bool {
    &&& a.len() == r.len()
    &&& b.len() == r.len()
    &&& forall|i: int| 0 <= i < r.len() ==> is_difference(a[i], b[i], #[trigger] r[i])
}

/// `r[i]` is `a[i] * b[i]` in every place: the Hadamard product.
pub open spec fn is_hadamard_of<T: Scalar>(a: Seq<T>, b: Seq<T>, r: Seq<T>) -> bool {
    &&& a.len() == r.len()
    &&& b.len() == r.len()
    &&& forall|i: int| 0 <= i < r.len() ==> is_product(a[i], b[i], #[trigger] r[i])
}

/// `r[i]` is `a[i] * k` in every place.
pub open spec fn is_scaled<T: Scalar>(a: Seq<T>, k: T, r: Seq<T>) -> bool {
    &&& a.len() == r.len()
    &&& forall|i: int| 0 <= i < r.len() ==> is_product(a[i], k, #[trigger] r[i])
}

/// Every item of `r` is a zero.
pub open spec fn is_zeros<T: Scalar>(r: Seq<T>) -> bool {
    forall|i: int| 0 <= i < r.len() ==> is_zero(#[trigger] r[i])
}

/// `r` is `p + a[m] * b[m]`.
pub open spec fn is_dot_step<T: Scalar>(a: Seq<T>, b: Seq<T>, m: int, p: T, r: T) -> bool {
    exists|q: T| is_product(a[m], b[m], q) && is_sum(p, q, r)
}

/// `r` is the sum of the first `n` products `a[k] * b[k]`, added one by one
/// to a zero, lowest `k` first.
pub open spec fn is_dot_prefix<T: Scalar>(a: Seq<T>, b: Seq<T>, n: int, r: T) -> bool
    decreases n,
{
    if n <= 0 {
        is_zero(r)
    } else {
        exists|p: T| is_dot_prefix(a, b, n - 1, p) && #[trigger] is_dot_step(a, b, n - 1, p, r)
    }
}

/// `r` is the dot product of `a` and `b`, two runs of one length.
pub open spec fn is_dot<T: Scalar>(a: Seq<T>, b: Seq<T>, r: T) -> bool {
    a.len() == b.len() && is_dot_prefix(a, b, a.len() as int, r)
}

/// `r` is the sum of the first `n` of the `terms`, added one by one to a
/// zero, in their order.
pub open spec fn is_total_prefix<T: Scalar>(terms: Seq<T>, n: int, r: T) -> bool
    decreases n,
{
    if n <= 0 {
        is_zero(r)
    } else {
        exists|p: T| is_total_prefix(terms, n - 1, p) && #[trigger] is_sum(p, terms[n - 1], r)
    }
}

/// `r` is the sum of all the `terms`.
pub open spec fn is_total<T: Scalar>(terms: Seq<T>, r: T) -> bool {
    is_total_prefix(terms, terms.len() as int, r)
}

/// A scan that holds place `p` looks at item `m` and then holds place `k`:
/// it moves to `m` where that item exceeds the one held, and stays where
/// it does not.
pub open spec fn is_scan_step<T: Scalar>(v: Seq<T>, m: int, p: int, k: int) -> bool {
    &&& 0 <= p < m
    &&& if k == p {
        is_excess(v[m], v[p], false)
    } else {
        k == m && is_excess(v[m], v[p], true)
    }
}

/// `k` is the place that a scan of the first `n` items of `v` holds at its
/// end, when it starts at place `0` and looks at the items in their order.
pub open spec fn is_argmax_prefix<T: Scalar>(v: Seq<T>, n: int, k: int) -> bool
    decreases n,
{
    if n <= 1 {
        k == 0
    } else {
        exists|p: int| is_argmax_prefix(v, n - 1, p) && #[trigger] is_scan_step(v, n - 1, p, k)
    }
}

/// `k` is the place of the largest item of `v`, the first of them where
/// several are equal, as far as `exceeds` orders the items.
pub open spec fn is_argmax<T: Scalar>(v: Seq<T>, k: int) -> bool {
    0 <= k < v.len() && is_argmax_prefix(v, v.len() as int, k)
}

/// Combines two runs of one length place by place.
pub(crate) fn combine<T: Copy, F: Fn(T, T) -> T>(a: &[T], b: &[T], f: F) -> (r: Vec<T>)
    requires
        a@.len() == b@.len(),
        forall|i: int| 0 <= i < a@.len() ==> f.requires((#[trigger] a@[i], b@[i])),
    ensures
        is_combination(f, a@, b@, r@),
{
    let n = a.len();
    let mut out: Vec<T> = Vec::new();
    let mut i: usize = 0;
    while i < n
        invariant
            i <= n,
            n == a@.len(),
            n == b@.len(),
            out@.len() == i,
            forall|k: int| 0 <= k < a@.len() ==> f.requires((#[trigger] a@[k], b@[k])),
            forall|k: int| 0 <= k < i ==> f.ensures((a@[k], b@[k]), #[trigger] out@[k]),
        decreases n - i,
    {
        out.push(f(a[i], b[i]));
        i += 1;
    }
    out
}

/// Transforms a run place by place.
pub(crate) fn transform<T: Copy, F: Fn(T) -> T>(a: &[T], f: F) -> (r: Vec<T>)
    requires
        forall|i: int| 0 <= i < a@.len() ==> f.requires((#[trigger] a@[i],)),
    ensures
        is_image(f, a@, r@),
{
    let n = a.len();
    let mut out: Vec<T> = Vec::new();
    let mut i: usize = 0;
    while i < n
        invariant
            i <= n,
            n == a@.len(),
            out@.len() == i,
            forall|k: int| 0 <= k < a@.len() ==> f.requires((#[trigger] a@[k],)),
            forall|k: int| 0 <= k < i ==> f.ensures((a@[k],), #[trigger] out@[k]),
        decreases n - i,
    {
        out.push(f(a[i]));
        i += 1;
    }
    out
}

/// Adds two runs of one length.
pub(crate) fn sum_of<T: Scalar>(a: &[T], b: &[T]) -> (r: Vec<T>)
    requires
        a@.len() == b@.len(),
    ensures
        is_sum_of(a@, b@, r@),
{
    combine(a, b, T::plus)
}

/// Subtracts `b` from `a`, two runs of one length.
pub(crate) fn difference_of<T: Scalar>(a: &[T], b: &[T]) -> (r: Vec<T>)
    requires
        a@.len() == b@.len(),
    ensures
        is_difference_of(a@, b@, r@),
{
    combine(a, b, T::minus)
}

/// Multiplies two runs of one length place by place.
pub(crate) fn hadamard_of<T: Scalar>(a: &[T], b: &[T]) -> (r: Vec<T>)
    requires
        a@.len() == b@.len(),
    ensures
        is_hadamard_of(a@, b@, r@),
{
    combine(a, b, T::times)
}

/// Multiplies every item of a run by `k`.
pub(crate) fn scaled<T: Scalar>(a: &[T], k: T) -> (r: Vec<T>)
    ensures
        is_scaled(a@, k, r@),
{
    let n = a.len();
    let mut out: Vec<T> = Vec::new();
    let mut i: usize = 0;
    while i < n
        invariant
            i <= n,
            n == a@.len(),
            out@.len() == i,
            forall|j: int| 0 <= j < i ==> is_product(a@[j], k, #[trigger] out@[j]),
        decreases n - i,
    {
        out.push(a[i].times(k));
        i += 1;
    }
    out
}

/// A run of `n` zeros.
pub(crate) fn zeros<T: Scalar>(n: usize) -> (r: Vec<T>)
    ensures
        r@.len() == n,
        is_zeros(r@),
{
    let mut out: Vec<T> = Vec::new();
    let mut i: usize = 0;
    while i < n
        invariant
            i <= n,
            out@.len() == i,
            is_zeros(out@),
        decreases n - i,
    {
        out.push(T::zero());
        i += 1;
    }
    out
}

/// The sum of the items of a run.
pub(crate) fn total<T: Scalar>(terms: &[T]) -> (r: T)
    ensures
        is_total(terms@, r),
{
    let n = terms.len();
    let mut acc = T::zero();
    let mut i: usize = 0;
    while i < n
        invariant
            i <= n,
            n == terms@.len(),
            is_total_prefix(terms@, i as int, acc),
        decreases n - i,
    {
        let ghost before = acc;
        acc = acc.plus(terms[i]);
        i += 1;
        assert(is_total_prefix(terms@, i - 1, before) && is_sum(before, terms@[i - 1], acc));
    }
    acc
}

/// The place of the largest item of a run that is not empty.
pub(crate) fn argmax<T: Scalar>(v: &[T]) -> (k: usize)
    requires
        v@.len() > 0,
    ensures
        is_argmax(v@, k as int),
{
    let n = v.len();
    let mut best: usize = 0;
    let mut i: usize = 1;
    while i < n
        invariant
            1 <= i <= n,
            n == v@.len(),
            best < i,
            is_argmax_prefix(v@, i as int, best as int),
        decreases n - i,
    {
        let moved = v[i].exceeds(v[best]);
        let ghost held = best as int;
        if moved {
            best = i;
        }
        i += 1;
        assert(is_argmax_prefix(v@, i as int, best as int)) by {
            assert(is_argmax_prefix(v@, i - 1, held) && is_scan_step(v@, i - 1, held, best as int));
        }
    }
    best
}

} // verus!
