//! The contracts leave nothing open but the scalars. Where every scalar
//! operation has one answer, each relation of this library holds of one
//! result only: a sum, a product, an output, a gradient, an epoch.

use vstd::prelude::*;
use crate::kernels::{
    is_argmax, is_argmax_prefix, is_difference_of, is_dot, is_dot_prefix, is_dot_step,
    is_hadamard_of, is_scaled, is_scan_step, is_sum_of, is_total_prefix, is_zeros,
};
use crate::matrix::{
    column, is_matvec_of, is_product_of, is_transpose_of, lemma_grid_by_cells, Grid,
};
use crate::network::backward::{
    is_backward_pass_from, is_gradient, is_hidden_delta, is_hidden_step, is_output_delta,
    is_sigmoid_prime_of, is_weight_step,
};
use crate::network::batch::{
    is_accumulation, is_accumulation_step, is_batch_gradient, is_batch_update, is_descent_of,
    is_descent_step, is_parameters_sum, is_rate, is_zero_like,
};
use crate::network::forward::{
    is_forward_trace, is_forward_trace_to, is_layer_step, is_output_of, is_preactivation,
    is_sigmoid_of,
};
use crate::network::trainer::{
    chunk, count_hits, is_chunk_count, is_chunk_step, is_epoch, is_epoch_step, is_epoch_trace,
    is_hit, is_marking, is_score, is_training, is_verdict,
};
use crate::network::{Data, Parameters};
use crate::scalar::{
    is_count, is_difference, is_exact, is_excess, is_exponential, is_negation, is_one, is_product,
    is_quotient, is_reciprocal, is_sigmoid, is_sigmoid_prime, is_slope, is_sum, is_zero, Scalar,
};

verus! {

/// The sigmoid of a scalar is one scalar.
pub proof fn lemma_one_sigmoid<T: Scalar>(z: T, r: T, s: T)
    requires
        is_exact::<T>(),
        is_sigmoid(z, r),
        is_sigmoid(z, s),
    ensures
        r == s,
{
    let (n1, e1, u1, d1) = choose|n: T, e: T, u: T, d: T|
        is_negation(z, n) && is_exponential(n, e) && is_one(u) && is_sum(u, e, d) && is_quotient(
            u,
            d,
            r,
        );
    let (n2, e2, u2, d2) = choose|n: T, e: T, u: T, d: T|
        is_negation(z, n) && is_exponential(n, e) && is_one(u) && is_sum(u, e, d) && is_quotient(
            u,
            d,
            s,
        );
    assert(n1 == n2);
    assert(e1 == e2);
    assert(u1 == u2);
    assert(d1 == d2);
}

/// The slope at a value of the sigmoid is one scalar.
pub proof fn lemma_one_slope<T: Scalar>(a: T, r: T, s: T)
    requires
        is_exact::<T>(),
        is_slope(a, r),
        is_slope(a, s),
    ensures
        r == s,
{
    let (u1, d1) = choose|u: T, d: T| is_one(u) && is_difference(u, a, d) && is_product(a, d, r);
    let (u2, d2) = choose|u: T, d: T| is_one(u) && is_difference(u, a, d) && is_product(a, d, s);
    assert(u1 == u2);
    assert(d1 == d2);
}

/// The derivative of the sigmoid at a scalar is one scalar.
pub proof fn lemma_one_sigmoid_prime<T: Scalar>(z: T, r: T, s: T)
    requires
        is_exact::<T>(),
        is_sigmoid_prime(z, r),
        is_sigmoid_prime(z, s),
    ensures
        r == s,
{
    let a1 = choose|a: T| is_sigmoid(z, a) && is_slope(a, r);
    let a2 = choose|a: T| is_sigmoid(z, a) && is_slope(a, s);
    lemma_one_sigmoid(z, a1, a2);
    lemma_one_slope(a1, r, s);
}

/// The reciprocal of a scalar is one scalar.
pub proof fn lemma_one_reciprocal<T: Scalar>(k: T, r: T, s: T)
    requires
        is_exact::<T>(),
        is_reciprocal(k, r),
        is_reciprocal(k, s),
    ensures
        r == s,
{
    let u1 = choose|u: T| is_one(u) && is_quotient(u, k, r);
    let u2 = choose|u: T| is_one(u) && is_quotient(u, k, s);
    assert(u1 == u2);
}

/// Two runs have one sum.
pub proof fn lemma_one_sum<T: Scalar>(a: Seq<T>, b: Seq<T>, r: Seq<T>, s: Seq<T>)
    requires
        is_exact::<T>(),
        is_sum_of(a, b, r),
        is_sum_of(a, b, s),
    ensures
        r == s,
{
    assert forall|i: int| 0 <= i < r.len() implies r[i] == s[i] by {
        assert(is_sum(a[i], b[i], r[i]) && is_sum(a[i], b[i], s[i]));
    }
    assert(r =~= s);
}

/// Two runs have one difference.
pub proof fn lemma_one_difference<T: Scalar>(a: Seq<T>, b: Seq<T>, r: Seq<T>, s: Seq<T>)
    requires
        is_exact::<T>(),
        is_difference_of(a, b, r),
        is_difference_of(a, b, s),
    ensures
        r == s,
{
    assert forall|i: int| 0 <= i < r.len() implies r[i] == s[i] by {
        assert(is_difference(a[i], b[i], r[i]) && is_difference(a[i], b[i], s[i]));
    }
    assert(r =~= s);
}

/// Two runs have one Hadamard product.
pub proof fn lemma_one_hadamard<T: Scalar>(a: Seq<T>, b: Seq<T>, r: Seq<T>, s: Seq<T>)
    requires
        is_exact::<T>(),
        is_hadamard_of(a, b, r),
        is_hadamard_of(a, b, s),
    ensures
        r == s,
{
    assert forall|i: int| 0 <= i < r.len() implies r[i] == s[i] by {
        assert(is_product(a[i], b[i], r[i]) && is_product(a[i], b[i], s[i]));
    }
    assert(r =~= s);
}

/// A run has one multiple by a scalar.
pub proof fn lemma_one_scaled<T: Scalar>(a: Seq<T>, k: T, r: Seq<T>, s: Seq<T>)
    requires
        is_exact::<T>(),
        is_scaled(a, k, r),
        is_scaled(a, k, s),
    ensures
        r == s,
{
    assert forall|i: int| 0 <= i < r.len() implies r[i] == s[i] by {
        assert(is_product(a[i], k, r[i]) && is_product(a[i], k, s[i]));
    }
    assert(r =~= s);
}

/// Two runs of zeros of one length are one run.
pub proof fn lemma_one_zeros<T: Scalar>(r: Seq<T>, s: Seq<T>)
    requires
        is_exact::<T>(),
        is_zeros(r),
        is_zeros(s),
        r.len() == s.len(),
    ensures
        r == s,
{
    assert forall|i: int| 0 <= i < r.len() implies r[i] == s[i] by {
        assert(is_zero(r[i]) && is_zero(s[i]));
    }
    assert(r =~= s);
}

/// Two runs have one dot product, prefix by prefix.
pub proof fn lemma_one_dot_prefix<T: Scalar>(a: Seq<T>, b: Seq<T>, n: int, r: T, s: T)
    requires
        is_exact::<T>(),
        is_dot_prefix(a, b, n, r),
        is_dot_prefix(a, b, n, s),
    ensures
        r == s,
    decreases n,
{
    if n > 0 {
        let p1 = choose|p: T| is_dot_prefix(a, b, n - 1, p) && #[trigger] is_dot_step(a, b, n - 1, p, r);
        let p2 = choose|p: T| is_dot_prefix(a, b, n - 1, p) && #[trigger] is_dot_step(a, b, n - 1, p, s);
        lemma_one_dot_prefix(a, b, n - 1, p1, p2);
        let q1 = choose|q: T| is_product(a[n - 1], b[n - 1], q) && is_sum(p1, q, r);
        let q2 = choose|q: T| is_product(a[n - 1], b[n - 1], q) && is_sum(p2, q, s);
        assert(q1 == q2);
    }
}

/// Two runs have one dot product.
pub proof fn lemma_one_dot<T: Scalar>(a: Seq<T>, b: Seq<T>, r: T, s: T)
    requires
        is_exact::<T>(),
        is_dot(a, b, r),
        is_dot(a, b, s),
    ensures
        r == s,
{
    lemma_one_dot_prefix(a, b, a.len() as int, r, s);
}

/// The terms of a run have one total, prefix by prefix.
pub proof fn lemma_one_total_prefix<T: Scalar>(terms: Seq<T>, n: int, r: T, s: T)
    requires
        is_exact::<T>(),
        is_total_prefix(terms, n, r),
        is_total_prefix(terms, n, s),
    ensures
        r == s,
    decreases n,
{
    if n > 0 {
        let p1 = choose|p: T| is_total_prefix(terms, n - 1, p) && #[trigger] is_sum(p, terms[n - 1], r);
        let p2 = choose|p: T| is_total_prefix(terms, n - 1, p) && #[trigger] is_sum(p, terms[n - 1], s);
        lemma_one_total_prefix(terms, n - 1, p1, p2);
    }
}

/// The scan of a prefix ends at one place.
pub proof fn lemma_one_argmax_prefix<T: Scalar>(v: Seq<T>, n: int, k: int, m: int)
    requires
        is_exact::<T>(),
        is_argmax_prefix(v, n, k),
        is_argmax_prefix(v, n, m),
    ensures
        k == m,
    decreases n,
{
    if n > 1 {
        let p1 = choose|p: int| is_argmax_prefix(v, n - 1, p) && #[trigger] is_scan_step(v, n - 1, p, k);
        let p2 = choose|p: int| is_argmax_prefix(v, n - 1, p) && #[trigger] is_scan_step(v, n - 1, p, m);
        lemma_one_argmax_prefix(v, n - 1, p1, p2);
        if k == p1 {
            assert(is_excess(v[n - 1], v[p1], false));
        } else {
            assert(is_excess(v[n - 1], v[p1], true));
        }
        if m == p2 {
            assert(is_excess(v[n - 1], v[p2], false));
        } else {
            assert(is_excess(v[n - 1], v[p2], true));
        }
    }
}

/// A run has one argmax.
pub proof fn lemma_one_argmax<T: Scalar>(v: Seq<T>, k: int, m: int)
    requires
        is_exact::<T>(),
        is_argmax(v, k),
        is_argmax(v, m),
    ensures
        k == m,
{
    lemma_one_argmax_prefix(v, v.len() as int, k, m);
}

/// A grid has one transpose.
pub proof fn lemma_one_transpose<T>(a: Grid<T>, r: Grid<T>, s: Grid<T>)
    requires
        is_transpose_of(a, r),
        is_transpose_of(a, s),
    ensures
        r == s,
{
    assert forall|i: int, j: int| 0 <= i < r.rows && 0 <= j < r.cols implies #[trigger] r.at(i, j)
        == s.at(i, j) by {
        assert(r.at(i, j) == a.at(j, i));
        assert(s.at(i, j) == a.at(j, i));
    }
    lemma_grid_by_cells(r, s);
}

/// Two grids, each taken as it is or transposed, have one product.
pub proof fn lemma_one_product<T: Scalar>(
    a: Grid<T>,
    a_flipped: bool,
    b: Grid<T>,
    b_flipped: bool,
    r: Grid<T>,
    s: Grid<T>,
)
    requires
        is_exact::<T>(),
        is_product_of(a, a_flipped, b, b_flipped, r),
        is_product_of(a, a_flipped, b, b_flipped, s),
    ensures
        r == s,
{
    assert forall|i: int, j: int| 0 <= i < r.rows && 0 <= j < r.cols implies #[trigger] r.at(i, j)
        == s.at(i, j) by {
        let x = a.line(a_flipped, i);
        let y = b.pillar(b_flipped, j);
        assert(is_dot(x, y, r.at(i, j)));
        assert(is_dot(x, y, s.at(i, j)));
        lemma_one_dot(x, y, r.at(i, j), s.at(i, j));
    }
    lemma_grid_by_cells(r, s);
}

/// A grid, taken as it is or transposed, and a run have one product.
pub proof fn lemma_one_matvec<T: Scalar>(a: Grid<T>, a_flipped: bool, x: Seq<T>, r: Seq<T>, s: Seq<T>)
    requires
        is_exact::<T>(),
        is_matvec_of(a, a_flipped, x, r),
        is_matvec_of(a, a_flipped, x, s),
    ensures
        r == s,
{
    assert forall|i: int| 0 <= i < r.len() implies r[i] == s[i] by {
        assert(is_dot(a.line(a_flipped, i), x, r[i]));
        assert(is_dot(a.line(a_flipped, i), x, s[i]));
        lemma_one_dot(a.line(a_flipped, i), x, r[i], s[i]);
    }
    assert(r =~= s);
}

/// A layer has one pre-activation for an activation that enters it.
pub proof fn lemma_one_preactivation<T: Scalar>(w: Grid<T>, b: Seq<T>, a: Seq<T>, r: Seq<T>, s: Seq<T>)
    requires
        is_exact::<T>(),
        is_preactivation(w, b, a, r),
        is_preactivation(w, b, a, s),
    ensures
        r == s,
{
    let y1 = choose|y: Seq<T>| is_matvec_of(w, false, a, y) && is_sum_of(y, b, r);
    let y2 = choose|y: Seq<T>| is_matvec_of(w, false, a, y) && is_sum_of(y, b, s);
    lemma_one_matvec(w, false, a, y1, y2);
    lemma_one_sum(y1, b, r, s);
}

/// A run has one run of sigmoids.
pub proof fn lemma_one_sigmoid_of<T: Scalar>(z: Seq<T>, r: Seq<T>, s: Seq<T>)
    requires
        is_exact::<T>(),
        is_sigmoid_of(z, r),
        is_sigmoid_of(z, s),
    ensures
        r == s,
{
    assert forall|i: int| 0 <= i < r.len() implies r[i] == s[i] by {
        lemma_one_sigmoid(z[i], r[i], s[i]);
    }
    assert(r =~= s);
}

/// A run has one run of derivatives of the sigmoid.
pub proof fn lemma_one_sigmoid_prime_of<T: Scalar>(z: Seq<T>, r: Seq<T>, s: Seq<T>)
    requires
        is_exact::<T>(),
        is_sigmoid_prime_of(z, r),
        is_sigmoid_prime_of(z, s),
    ensures
        r == s,
{
    assert forall|i: int| 0 <= i < r.len() implies r[i] == s[i] by {
        lemma_one_sigmoid_prime(z[i], r[i], s[i]);
    }
    assert(r =~= s);
}

/// Two forward passes from one input agree in layer `l`: in the
/// activation that leaves it and in the pre-activation before that.
pub proof fn lemma_one_layer<T: Scalar>(
    p: Parameters<T>,
    x: Seq<T>,
    n: int,
    zs1: Seq<Seq<T>>,
    acts1: Seq<Seq<T>>,
    zs2: Seq<Seq<T>>,
    acts2: Seq<Seq<T>>,
    l: int,
)
    requires
        is_exact::<T>(),
        is_forward_trace_to(p, x, n, zs1, acts1),
        is_forward_trace_to(p, x, n, zs2, acts2),
        0 <= l <= n,
    ensures
        acts1[l] == acts2[l],
        l > 0 ==> zs1[l - 1] == zs2[l - 1],
    decreases l,
{
    if l > 0 {
        lemma_one_layer(p, x, n, zs1, acts1, zs2, acts2, l - 1);
        assert(is_layer_step(p, zs1, acts1, l - 1));
        assert(is_layer_step(p, zs2, acts2, l - 1));
        lemma_one_preactivation(
            p.weights[l - 1],
            p.biases[l - 1],
            acts1[l - 1],
            zs1[l - 1],
            zs2[l - 1],
        );
        lemma_one_sigmoid_of(zs1[l - 1], acts1[l], acts2[l]);
    }
}

/// A forward pass from an input leaves one trace.
pub proof fn lemma_one_trace<T: Scalar>(
    p: Parameters<T>,
    x: Seq<T>,
    zs1: Seq<Seq<T>>,
    acts1: Seq<Seq<T>>,
    zs2: Seq<Seq<T>>,
    acts2: Seq<Seq<T>>,
)
    requires
        is_exact::<T>(),
        is_forward_trace(p, x, zs1, acts1),
        is_forward_trace(p, x, zs2, acts2),
    ensures
        zs1 == zs2,
        acts1 == acts2,
{
    let n = p.depth();
    assert forall|l: int| 0 <= l < acts1.len() implies acts1[l] == acts2[l] by {
        lemma_one_layer(p, x, n, zs1, acts1, zs2, acts2, l);
    }
    assert forall|l: int| 0 <= l < zs1.len() implies zs1[l] == zs2[l] by {
        lemma_one_layer(p, x, n, zs1, acts1, zs2, acts2, l + 1);
    }
    assert(acts1 =~= acts2);
    assert(zs1 =~= zs2);
}

/// A network has one output for an input.
pub proof fn lemma_one_output<T: Scalar>(p: Parameters<T>, x: Seq<T>, r: Seq<T>, s: Seq<T>)
    requires
        is_exact::<T>(),
        is_output_of(p, x, r),
        is_output_of(p, x, s),
    ensures
        r == s,
{
    let (zs1, acts1) = choose|zs: Seq<Seq<T>>, acts: Seq<Seq<T>>| #[trigger]
        is_forward_trace(p, x, zs, acts) && acts[p.depth()] == r;
    let (zs2, acts2) = choose|zs: Seq<Seq<T>>, acts: Seq<Seq<T>>| #[trigger]
        is_forward_trace(p, x, zs, acts) && acts[p.depth()] == s;
    lemma_one_trace(p, x, zs1, acts1, zs2, acts2);
}

/// The output layer has one error.
pub proof fn lemma_one_output_delta<T: Scalar>(a: Seq<T>, y: Seq<T>, z: Seq<T>, r: Seq<T>, s: Seq<T>)
    requires
        is_exact::<T>(),
        is_output_delta(a, y, z, r),
        is_output_delta(a, y, z, s),
    ensures
        r == s,
{
    let (e1, s1) = choose|e: Seq<T>, s1: Seq<T>|
        is_difference_of(a, y, e) && is_sigmoid_prime_of(z, s1) && is_hadamard_of(e, s1, r);
    let (e2, s2) = choose|e: Seq<T>, s2: Seq<T>|
        is_difference_of(a, y, e) && is_sigmoid_prime_of(z, s2) && is_hadamard_of(e, s2, s);
    lemma_one_difference(a, y, e1, e2);
    lemma_one_sigmoid_prime_of(z, s1, s2);
    lemma_one_hadamard(e1, s1, r, s);
}

/// A hidden layer has one error.
pub proof fn lemma_one_hidden_delta<T: Scalar>(w: Grid<T>, d: Seq<T>, z: Seq<T>, r: Seq<T>, s: Seq<T>)
    requires
        is_exact::<T>(),
        is_hidden_delta(w, d, z, r),
        is_hidden_delta(w, d, z, s),
    ensures
        r == s,
{
    let (e1, s1) = choose|e: Seq<T>, s1: Seq<T>|
        is_matvec_of(w, true, d, e) && is_sigmoid_prime_of(z, s1) && is_hadamard_of(e, s1, r);
    let (e2, s2) = choose|e: Seq<T>, s2: Seq<T>|
        is_matvec_of(w, true, d, e) && is_sigmoid_prime_of(z, s2) && is_hadamard_of(e, s2, s);
    lemma_one_matvec(w, true, d, e1, e2);
    lemma_one_sigmoid_prime_of(z, s1, s2);
    lemma_one_hadamard(e1, s1, r, s);
}

/// Two backward passes over one trace agree in layer `l`.
pub proof fn lemma_one_backward_layer<T: Scalar>(
    p: Parameters<T>,
    y: Seq<T>,
    zs: Seq<Seq<T>>,
    acts: Seq<Seq<T>>,
    g1: Parameters<T>,
    g2: Parameters<T>,
    l: int,
)
    requires
        is_exact::<T>(),
        is_backward_pass_from(p, y, zs, acts, g1, 0),
        is_backward_pass_from(p, y, zs, acts, g2, 0),
        0 <= l < p.depth(),
    ensures
        g1.biases[l] == g2.biases[l],
        g1.weights[l] == g2.weights[l],
    decreases p.depth() - l,
{
    let n = p.depth();
    if l == n - 1 {
        lemma_one_output_delta(acts[n], y, zs[n - 1], g1.biases[l], g2.biases[l]);
    } else {
        lemma_one_backward_layer(p, y, zs, acts, g1, g2, l + 1);
        assert(is_hidden_step(p, zs, g1, l));
        assert(is_hidden_step(p, zs, g2, l));
        lemma_one_hidden_delta(p.weights[l + 1], g1.biases[l + 1], zs[l], g1.biases[l], g2.biases[l]);
    }
    assert(is_weight_step(acts, g1, l));
    assert(is_weight_step(acts, g2, l));
    lemma_one_product(
        column(g1.biases[l]),
        false,
        column(acts[l]),
        true,
        g1.weights[l],
        g2.weights[l],
    );
}

/// An example has one gradient.
pub proof fn lemma_one_gradient<T: Scalar>(
    p: Parameters<T>,
    x: Seq<T>,
    y: Seq<T>,
    g1: Parameters<T>,
    g2: Parameters<T>,
)
    requires
        is_exact::<T>(),
        is_gradient(p, x, y, g1),
        is_gradient(p, x, y, g2),
    ensures
        g1 == g2,
{
    let (zs1, acts1) = choose|zs: Seq<Seq<T>>, acts: Seq<Seq<T>>| #[trigger]
        is_forward_trace(p, x, zs, acts) && is_backward_pass_from(p, y, zs, acts, g1, 0);
    let (zs2, acts2) = choose|zs: Seq<Seq<T>>, acts: Seq<Seq<T>>| #[trigger]
        is_forward_trace(p, x, zs, acts) && is_backward_pass_from(p, y, zs, acts, g2, 0);
    lemma_one_trace(p, x, zs1, acts1, zs2, acts2);
    assert forall|l: int| 0 <= l < p.depth() implies g1.biases[l] == g2.biases[l] && g1.weights[l]
        == g2.weights[l] by {
        lemma_one_backward_layer(p, y, zs1, acts1, g1, g2, l);
    }
    assert(g1.biases =~= g2.biases);
    assert(g1.weights =~= g2.weights);
}

/// Parameters of given shapes are zeros everywhere in one way.
pub proof fn lemma_one_zero_like<T: Scalar>(p: Parameters<T>, r: Parameters<T>, s: Parameters<T>)
    requires
        is_exact::<T>(),
        is_zero_like(p, r),
        is_zero_like(p, s),
    ensures
        r == s,
{
    assert forall|l: int| 0 <= l < r.biases.len() implies r.biases[l] == s.biases[l] by {
        lemma_one_zeros(r.biases[l], s.biases[l]);
    }
    assert forall|l: int| 0 <= l < r.weights.len() implies r.weights[l] == s.weights[l] by {
        lemma_one_zeros(r.weights[l].cells, s.weights[l].cells);
    }
    assert(r.biases =~= s.biases);
    assert(r.weights =~= s.weights);
}

/// Two sets of parameters have one sum.
pub proof fn lemma_one_parameters_sum<T: Scalar>(
    a: Parameters<T>,
    b: Parameters<T>,
    r: Parameters<T>,
    s: Parameters<T>,
)
    requires
        is_exact::<T>(),
        is_parameters_sum(a, b, r),
        is_parameters_sum(a, b, s),
    ensures
        r == s,
{
    assert forall|l: int| 0 <= l < r.biases.len() implies r.biases[l] == s.biases[l] by {
        lemma_one_sum(a.biases[l], b.biases[l], r.biases[l], s.biases[l]);
    }
    assert forall|l: int| 0 <= l < r.weights.len() implies r.weights[l] == s.weights[l] by {
        lemma_one_sum(a.weights[l].cells, b.weights[l].cells, r.weights[l].cells, s.weights[l].cells);
    }
    assert(r.biases =~= s.biases);
    assert(r.weights =~= s.weights);
}

/// Two accumulations over one batch agree after `k` examples.
pub proof fn lemma_one_accumulation<T: Scalar>(
    p: Parameters<T>,
    batch: Seq<Data<T>>,
    sums1: Seq<Parameters<T>>,
    sums2: Seq<Parameters<T>>,
    k: int,
)
    requires
        is_exact::<T>(),
        is_accumulation(p, batch, sums1),
        is_accumulation(p, batch, sums2),
        0 <= k <= batch.len(),
    ensures
        sums1[k] == sums2[k],
    decreases k,
{
    if k == 0 {
        lemma_one_zero_like(p, sums1[0], sums2[0]);
    } else {
        lemma_one_accumulation(p, batch, sums1, sums2, k - 1);
        assert(is_accumulation_step(p, batch, sums1, k - 1));
        assert(is_accumulation_step(p, batch, sums2, k - 1));
        let x = batch[k - 1].0@;
        let y = batch[k - 1].1@;
        let g1 = choose|g: Parameters<T>| #[trigger]
            is_gradient(p, x, y, g) && is_parameters_sum(sums1[k - 1], g, sums1[k]);
        let g2 = choose|g: Parameters<T>| #[trigger]
            is_gradient(p, x, y, g) && is_parameters_sum(sums2[k - 1], g, sums2[k]);
        lemma_one_gradient(p, x, y, g1, g2);
        lemma_one_parameters_sum(sums1[k - 1], g1, sums1[k], sums2[k]);
    }
}

/// A batch has one gradient.
pub proof fn lemma_one_batch_gradient<T: Scalar>(
    p: Parameters<T>,
    batch: Seq<Data<T>>,
    g1: Parameters<T>,
    g2: Parameters<T>,
)
    requires
        is_exact::<T>(),
        is_batch_gradient(p, batch, g1),
        is_batch_gradient(p, batch, g2),
    ensures
        g1 == g2,
{
    let sums1 = choose|sums: Seq<Parameters<T>>| #[trigger]
        is_accumulation(p, batch, sums) && sums[batch.len() as int] == g1;
    let sums2 = choose|sums: Seq<Parameters<T>>| #[trigger]
        is_accumulation(p, batch, sums) && sums[batch.len() as int] == g2;
    lemma_one_accumulation(p, batch, sums1, sums2, batch.len() as int);
}

/// A descent from a run of scalars ends at one run.
pub proof fn lemma_one_descent<T: Scalar>(p: Seq<T>, g: Seq<T>, rate: T, r: Seq<T>, s: Seq<T>)
    requires
        is_exact::<T>(),
        is_descent_of(p, g, rate, r),
        is_descent_of(p, g, rate, s),
    ensures
        r == s,
{
    let step1 = choose|step: Seq<T>| is_scaled(g, rate, step) && is_difference_of(p, step, r);
    let step2 = choose|step: Seq<T>| is_scaled(g, rate, step) && is_difference_of(p, step, s);
    lemma_one_scaled(g, rate, step1, step2);
    lemma_one_difference(p, step1, r, s);
}

/// A mini-batch makes one thing of the parameters.
pub proof fn lemma_one_batch_update<T: Scalar>(
    p: Parameters<T>,
    batch: Seq<Data<T>>,
    learning_rate: T,
    r: Parameters<T>,
    s: Parameters<T>,
)
    requires
        is_exact::<T>(),
        is_batch_update(p, batch, learning_rate, r),
        is_batch_update(p, batch, learning_rate, s),
    ensures
        r == s,
{
    let n = batch.len() as usize;
    let (g1, rate1) = choose|g: Parameters<T>, rate: T|
        is_batch_gradient(p, batch, g) && is_rate(learning_rate, n, rate) && is_descent_step(
            p,
            g,
            rate,
            r,
        );
    let (g2, rate2) = choose|g: Parameters<T>, rate: T|
        is_batch_gradient(p, batch, g) && is_rate(learning_rate, n, rate) && is_descent_step(
            p,
            g,
            rate,
            s,
        );
    lemma_one_batch_gradient(p, batch, g1, g2);
    let c1 = choose|c: T| is_count(n, c) && is_quotient(learning_rate, c, rate1);
    let c2 = choose|c: T| is_count(n, c) && is_quotient(learning_rate, c, rate2);
    assert(c1 == c2);
    assert(rate1 == rate2);
    assert forall|l: int| 0 <= l < r.biases.len() implies r.biases[l] == s.biases[l] by {
        lemma_one_descent(p.biases[l], g1.biases[l], rate1, r.biases[l], s.biases[l]);
    }
    assert forall|l: int| 0 <= l < r.weights.len() implies r.weights[l] == s.weights[l] by {
        lemma_one_descent(
            p.weights[l].cells,
            g1.weights[l].cells,
            rate1,
            r.weights[l].cells,
            s.weights[l].cells,
        );
    }
    assert(r.biases =~= s.biases);
    assert(r.weights =~= s.weights);
}

/// Examples cut into chunks of one size make one number of chunks.
pub proof fn lemma_one_chunk_count(len: int, size: int, m1: int, m2: int)
    requires
        size > 0,
        is_chunk_count(len, size, m1),
        is_chunk_count(len, size, m2),
    ensures
        m1 == m2,
{
    if m1 < m2 {
        assert(m1 * size <= (m2 - 1) * size) by (nonlinear_arith)
            requires
                m1 <= m2 - 1,
                size > 0,
        ;
        assert(0 <= m1 * size) by (nonlinear_arith)
            requires
                0 <= m1,
                size > 0,
        ;
    }
    if m2 < m1 {
        assert(m2 * size <= (m1 - 1) * size) by (nonlinear_arith)
            requires
                m2 <= m1 - 1,
                size > 0,
        ;
        assert(0 <= m2 * size) by (nonlinear_arith)
            requires
                0 <= m2,
                size > 0,
        ;
    }
}

/// Two epochs over the examples in one order agree after `k` mini-batches.
pub proof fn lemma_one_epoch_step<T: Scalar>(
    data: Seq<Data<T>>,
    size: int,
    learning_rate: T,
    steps1: Seq<Parameters<T>>,
    steps2: Seq<Parameters<T>>,
    k: int,
)
    requires
        is_exact::<T>(),
        is_epoch_trace(data, size, learning_rate, steps1),
        is_epoch_trace(data, size, learning_rate, steps2),
        steps1[0] == steps2[0],
        0 <= k < steps1.len(),
        k < steps2.len(),
    ensures
        steps1[k] == steps2[k],
    decreases k,
{
    if k > 0 {
        lemma_one_epoch_step(data, size, learning_rate, steps1, steps2, k - 1);
        assert(is_chunk_step(steps1, data, size, learning_rate, k - 1));
        assert(is_chunk_step(steps2, data, size, learning_rate, k - 1));
        lemma_one_batch_update(
            steps1[k - 1],
            chunk(data, size, k - 1),
            learning_rate,
            steps1[k],
            steps2[k],
        );
    }
}

/// An epoch over the examples in a given order makes one thing of the
/// parameters.
pub proof fn lemma_one_epoch<T: Scalar>(
    p: Parameters<T>,
    data: Seq<Data<T>>,
    size: int,
    learning_rate: T,
    r: Parameters<T>,
    s: Parameters<T>,
)
    requires
        is_exact::<T>(),
        size > 0,
        is_epoch(p, data, size, learning_rate, r),
        is_epoch(p, data, size, learning_rate, s),
    ensures
        r == s,
{
    let steps1 = choose|steps: Seq<Parameters<T>>| #[trigger]
        is_epoch_trace(data, size, learning_rate, steps) && steps[0] == p && steps[steps.len()
            - 1] == r;
    let steps2 = choose|steps: Seq<Parameters<T>>| #[trigger]
        is_epoch_trace(data, size, learning_rate, steps) && steps[0] == p && steps[steps.len()
            - 1] == s;
    lemma_one_chunk_count(data.len() as int, size, steps1.len() - 1, steps2.len() - 1);
    lemma_one_epoch_step(data, size, learning_rate, steps1, steps2, steps1.len() - 1);
}

/// Training that takes the examples in given orders makes one thing of the
/// parameters: two runs that reorder the examples alike agree after every
/// epoch.
pub proof fn lemma_one_training<T: Scalar>(
    p: Parameters<T>,
    data: Seq<Data<T>>,
    epochs: int,
    size: int,
    learning_rate: T,
    nets1: Seq<Parameters<T>>,
    nets2: Seq<Parameters<T>>,
    orders: Seq<Seq<Data<T>>>,
    e: int,
)
    requires
        is_exact::<T>(),
        size > 0,
        is_training(p, data, epochs, size, learning_rate, nets1, orders),
        is_training(p, data, epochs, size, learning_rate, nets2, orders),
        0 <= e <= epochs,
    ensures
        nets1[e] == nets2[e],
    decreases e,
{
    if e > 0 {
        lemma_one_training(p, data, epochs, size, learning_rate, nets1, nets2, orders, e - 1);
        assert(is_epoch_step(nets1, orders, size, learning_rate, e - 1));
        assert(is_epoch_step(nets2, orders, size, learning_rate, e - 1));
        lemma_one_epoch(nets1[e - 1], orders[e], size, learning_rate, nets1[e], nets2[e]);
    }
}

/// The network is right or wrong about an example, not both.
pub proof fn lemma_one_hit<T: Scalar>(p: Parameters<T>, example: Data<T>, hit1: bool, hit2: bool)
    requires
        is_exact::<T>(),
        is_hit(p, example, hit1),
        is_hit(p, example, hit2),
    ensures
        hit1 == hit2,
{
    let (i1, j1) = choose|i: int, j: int| #[trigger] is_verdict(p, example, i, j) && hit1 == (i == j);
    let (i2, j2) = choose|i: int, j: int| #[trigger] is_verdict(p, example, i, j) && hit2 == (i == j);
    let out1 = choose|out: Seq<T>| #[trigger]
        is_output_of(p, example.0@, out) && is_argmax(out, i1) && is_argmax(example.1@, j1);
    let out2 = choose|out: Seq<T>| #[trigger]
        is_output_of(p, example.0@, out) && is_argmax(out, i2) && is_argmax(example.1@, j2);
    lemma_one_output(p, example.0@, out1, out2);
    lemma_one_argmax(out1, i1, i2);
    lemma_one_argmax(example.1@, j1, j2);
}

/// The network has one score on given data.
pub proof fn lemma_one_score<T: Scalar>(p: Parameters<T>, data: Seq<Data<T>>, count1: int, count2: int)
    requires
        is_exact::<T>(),
        is_score(p, data, count1),
        is_score(p, data, count2),
    ensures
        count1 == count2,
{
    let hits1 = choose|hits: Seq<bool>| #[trigger] is_marking(p, data, hits) && count1 == count_hits(hits);
    let hits2 = choose|hits: Seq<bool>| #[trigger] is_marking(p, data, hits) && count2 == count_hits(hits);
    assert forall|k: int| 0 <= k < hits1.len() implies hits1[k] == hits2[k] by {
        assert(is_hit(p, data[k], hits1[k]) && is_hit(p, data[k], hits2[k]));
        lemma_one_hit(p, data[k], hits1[k], hits2[k]);
    }
    assert(hits1 =~= hits2);
}

} // verus!
