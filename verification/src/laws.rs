//! What holds of the operations together. Scalars are arbitrary here, so a
//! law that rests on how the numbers behave names that as its condition.

use vstd::prelude::*;
use crate::kernels::{
    is_argmax, is_argmax_prefix, is_difference_of, is_dot, is_dot_prefix, is_dot_step, is_scaled,
    is_scan_step, is_sum_of, is_zeros,
};
use crate::matrix::{
    is_matvec_of, is_product_of, is_transpose_of, lemma_grid_by_cells, lemma_offset_bounds, Grid,
};
use crate::network::batch::{
    is_batch_gradient, is_batch_update, is_descent_of, is_descent_step, is_rate,
};
use crate::network::forward::{is_forward_trace, is_layer_step, is_output_of};
use crate::network::trainer::{
    chunk, chunk_start, is_chunk_count, is_chunk_step, is_epoch, is_epoch_step, is_epoch_trace,
    is_training,
};
use crate::network::{Data, Parameters};
use crate::scalar::{
    exceeds_orders, is_above, is_difference, is_minus_one, is_product, is_sigmoid,
    is_sigmoid_of_zero, is_sum, is_zero, minus_adds_negative, plus_commutes, times_commutes,
    zero_annihilates, zeros_add_to_zero, Scalar,
};

verus! {

/// Where scalar sums commute, so do the sums of vectors and of matrices:
/// what is a sum of `a` and `b` is a sum of `b` and `a`.
pub proof fn lemma_sum_commutes<T: Scalar>(a: Seq<T>, b: Seq<T>, r: Seq<T>)
    requires
        plus_commutes::<T>(),
        is_sum_of(a, b, r),
    ensures
        is_sum_of(b, a, r),
{
}

/// Where to subtract a scalar is to add its product with `-1`, the same
/// holds of vectors and of matrices: the difference of `a` and `b` is a sum
/// of `a` and of `b` scaled by `-1`.
pub proof fn lemma_difference_adds_negative<T: Scalar>(
    a: Seq<T>,
    b: Seq<T>,
    m: T,
    n: Seq<T>,
    r: Seq<T>,
)
    requires
        minus_adds_negative::<T>(),
        is_minus_one(m),
        is_scaled(b, m, n),
        is_difference_of(a, b, r),
    ensures
        is_sum_of(a, n, r),
{
}

/// Where scalar products commute, a dot product of `a` and `b` is one of
/// `b` and `a`, prefix by prefix.
pub proof fn lemma_dot_prefix_commutes<T: Scalar>(a: Seq<T>, b: Seq<T>, n: int, r: T)
    requires
        times_commutes::<T>(),
        is_dot_prefix(a, b, n, r),
    ensures
        is_dot_prefix(b, a, n, r),
    decreases n,
{
    if n > 0 {
        let p = choose|p: T| is_dot_prefix(a, b, n - 1, p) && #[trigger] is_dot_step(a, b, n - 1, p, r);
        lemma_dot_prefix_commutes(a, b, n - 1, p);
        let q = choose|q: T| is_product(a[n - 1], b[n - 1], q) && is_sum(p, q, r);
        assert(is_dot_prefix(b, a, n - 1, p) && is_dot_step(b, a, n - 1, p, r));
    }
}

/// Where scalar products commute, the transpose of a product is the
/// product of the transposes in the other order: with `c` a product of `a`
/// and `b`, the transpose of `c` is a product of the transpose of `b` and
/// the transpose of `a`.
pub proof fn lemma_product_transposes<T: Scalar>(
    a: Grid<T>,
    b: Grid<T>,
    c: Grid<T>,
    at: Grid<T>,
    bt: Grid<T>,
    ct: Grid<T>,
)
    requires
        times_commutes::<T>(),
        a.well_formed(),
        b.well_formed(),
        is_product_of(a, false, b, false, c),
        is_transpose_of(a, at),
        is_transpose_of(b, bt),
        is_transpose_of(c, ct),
    ensures
        is_product_of(bt, false, at, false, ct),
{
    assert forall|i: int, j: int| 0 <= i < ct.rows && 0 <= j < ct.cols implies is_dot(
        bt.line(false, i),
        at.pillar(false, j),
        #[trigger] ct.at(i, j),
    ) by {
        assert(bt.line(false, i) =~= b.pillar(false, i));
        assert(at.pillar(false, j) =~= a.line(false, j));
        lemma_dot_prefix_commutes(a.line(false, j), b.pillar(false, i), a.cols, c.at(j, i));
    }
}

/// The transpose of the transpose of a matrix is the matrix.
pub proof fn lemma_transpose_twice<T>(a: Grid<T>, at: Grid<T>, att: Grid<T>)
    requires
        a.well_formed(),
        is_transpose_of(a, at),
        is_transpose_of(at, att),
    ensures
        att == a,
{
    assert forall|i: int, j: int| 0 <= i < a.rows && 0 <= j < a.cols implies #[trigger] att.at(i, j)
        == a.at(i, j) by {
        assert(att.at(i, j) == at.at(j, i));
        assert(at.at(j, i) == a.at(i, j));
    }
    lemma_grid_by_cells(att, a);
}

/// To take a matrix as transposed is to take its transpose: the rows and
/// columns that a set flag shows of `a` are those of the transpose of `a`.
pub proof fn lemma_flag_shows_transpose<T>(a: Grid<T>, at: Grid<T>)
    requires
        is_transpose_of(a, at),
    ensures
        at.height(false) == a.height(true),
        at.width(false) == a.width(true),
        forall|i: int| 0 <= i < at.rows ==> #[trigger] at.line(false, i) == a.line(true, i),
        forall|j: int| 0 <= j < at.cols ==> #[trigger] at.pillar(false, j) == a.pillar(true, j),
{
    assert forall|i: int| 0 <= i < at.rows implies #[trigger] at.line(false, i) == a.line(
        true,
        i,
    ) by {
        assert(at.line(false, i) =~= a.line(true, i));
    }
    assert forall|j: int| 0 <= j < at.cols implies #[trigger] at.pillar(false, j) == a.pillar(
        true,
        j,
    ) by {
        assert(at.pillar(false, j) =~= a.pillar(true, j));
    }
}

/// A product with a flag set for its first factor is the product with the
/// transpose of that factor, and so for the second factor: no copy is
/// made, and nothing else is computed.
pub proof fn lemma_flagged_product<T: Scalar>(
    a: Grid<T>,
    at: Grid<T>,
    b: Grid<T>,
    bt: Grid<T>,
    c: Grid<T>,
)
    requires
        is_transpose_of(a, at),
        is_transpose_of(b, bt),
    ensures
        is_product_of(a, true, b, false, c) <==> is_product_of(at, false, b, false, c),
        is_product_of(a, false, b, true, c) <==> is_product_of(a, false, bt, false, c),
        is_product_of(a, true, b, true, c) <==> is_product_of(at, false, bt, false, c),
{
    lemma_flag_shows_transpose(a, at);
    lemma_flag_shows_transpose(b, bt);
}

/// A product of a flagged matrix with a vector is the product of its
/// transpose with the vector.
pub proof fn lemma_flagged_matvec<T: Scalar>(a: Grid<T>, at: Grid<T>, x: Seq<T>, y: Seq<T>)
    requires
        is_transpose_of(a, at),
    ensures
        is_matvec_of(a, true, x, y) <==> is_matvec_of(at, false, x, y),
{
    lemma_flag_shows_transpose(a, at);
}

/// Where the product of a zero with anything is a zero and two zeros add
/// to a zero, a dot product with a run of zeros is a zero.
pub proof fn lemma_dot_of_zeros<T: Scalar>(a: Seq<T>, b: Seq<T>, n: int, r: T)
    requires
        zero_annihilates::<T>(),
        zeros_add_to_zero::<T>(),
        is_zeros(a),
        n <= a.len(),
        is_dot_prefix(a, b, n, r),
    ensures
        is_zero(r),
    decreases n,
{
    if n > 0 {
        let p = choose|p: T| is_dot_prefix(a, b, n - 1, p) && #[trigger] is_dot_step(a, b, n - 1, p, r);
        lemma_dot_of_zeros(a, b, n - 1, p);
        let q = choose|q: T| is_product(a[n - 1], b[n - 1], q) && is_sum(p, q, r);
        assert(is_zero(q));
    }
}

/// A network without a hidden layer whose weights and biases are all zeros
/// gives the sigmoid of a zero at every unit of its output, whatever the
/// input is; this where the product of a zero with anything is a zero and
/// two zeros add to a zero.
pub proof fn lemma_zero_network_output<T: Scalar>(p: Parameters<T>, x: Seq<T>, out: Seq<T>)
    requires
        zero_annihilates::<T>(),
        zeros_add_to_zero::<T>(),
        p.wired(),
        p.depth() == 1,
        is_zeros(p.weights[0].cells),
        is_zeros(p.biases[0]),
        is_output_of(p, x, out),
    ensures
        out.len() == p.output_size(),
        forall|i: int| 0 <= i < out.len() ==> is_sigmoid_of_zero(#[trigger] out[i]),
{
    let (zs, acts) = choose|zs: Seq<Seq<T>>, acts: Seq<Seq<T>>| #[trigger]
        is_forward_trace(p, x, zs, acts) && acts[p.depth()] == out;
    assert(is_layer_step(p, zs, acts, 0));
    let w = p.weights[0];
    let b = p.biases[0];
    let z = zs[0];
    let y = choose|y: Seq<T>| is_matvec_of(w, false, x, y) && is_sum_of(y, b, z);
    assert forall|i: int| 0 <= i < out.len() implies is_sigmoid_of_zero(#[trigger] out[i]) by {
        let row = w.line(false, i);
        assert forall|k: int| 0 <= k < row.len() implies is_zero(#[trigger] row[k]) by {
            lemma_offset_bounds(w.rows, w.cols, i, k);
        }
        lemma_dot_of_zeros(row, x, row.len() as int, y[i]);
        assert(is_zero(z[i]) && is_sigmoid(z[i], out[i]));
    }
}

/// Where `exceeds` orders the scalars, the scan of a prefix ends at the
/// first of its largest items.
pub proof fn lemma_argmax_prefix_is_first_maximum<T: Scalar>(v: Seq<T>, n: int, k: int)
    requires
        exceeds_orders::<T>(),
        1 <= n <= v.len(),
        is_argmax_prefix(v, n, k),
    ensures
        0 <= k < n,
        forall|j: int| 0 <= j < n ==> !is_above(#[trigger] v[j], v[k]),
        forall|j: int| 0 <= j < k ==> is_above(v[k], #[trigger] v[j]),
    decreases n,
{
    if n > 1 {
        let p = choose|p: int| is_argmax_prefix(v, n - 1, p) && #[trigger] is_scan_step(v, n - 1, p, k);
        lemma_argmax_prefix_is_first_maximum(v, n - 1, p);
        if k != p {
            assert(is_above(v[n - 1], v[p]));
        }
    }
}

/// Where `exceeds` orders the scalars, the argmax of a run is the place of
/// its largest item, and the first such place where several items are
/// equal: no item exceeds the one found, and the one found exceeds every
/// item before it.
pub proof fn lemma_argmax_is_first_maximum<T: Scalar>(v: Seq<T>, k: int)
    requires
        exceeds_orders::<T>(),
        is_argmax(v, k),
    ensures
        forall|j: int| 0 <= j < v.len() ==> !is_above(#[trigger] v[j], v[k]),
        forall|j: int| 0 <= j < k ==> is_above(v[k], #[trigger] v[j]),
{
    lemma_argmax_prefix_is_first_maximum(v, v.len() as int, k);
}

/// A step at this learning rate changes no scalar: whatever the gradient
/// `g` and however many examples share the rate, `p - g * rate` is `p`.
pub open spec fn is_inert<T: Scalar>(learning_rate: T) -> bool {
    forall|n: usize, rate: T, g: T, s: T, p: T, r: T|
        n > 0 && is_rate(learning_rate, n, rate) && is_product(g, rate, s) && is_difference(p, s, r)
            ==> r == p
}

/// At an inert learning rate a descent leaves a run of scalars as it was.
pub proof fn lemma_inert_descent<T: Scalar>(
    learning_rate: T,
    n: usize,
    rate: T,
    p: Seq<T>,
    g: Seq<T>,
    r: Seq<T>,
)
    requires
        is_inert(learning_rate),
        n > 0,
        is_rate(learning_rate, n, rate),
        is_descent_of(p, g, rate, r),
    ensures
        r == p,
{
    let step = choose|step: Seq<T>| is_scaled(g, rate, step) && is_difference_of(p, step, r);
    assert forall|i: int| 0 <= i < r.len() implies r[i] == p[i] by {
        assert(is_product(g[i], rate, step[i]) && is_difference(p[i], step[i], r[i]));
    }
    assert(r =~= p);
}

/// At an inert learning rate a mini-batch that holds an example leaves the
/// parameters as they were.
pub proof fn lemma_inert_batch<T: Scalar>(
    learning_rate: T,
    p: Parameters<T>,
    batch: Seq<Data<T>>,
    r: Parameters<T>,
)
    requires
        is_inert(learning_rate),
        0 < batch.len() <= usize::MAX,
        is_batch_update(p, batch, learning_rate, r),
    ensures
        r == p,
{
    let (g, rate) = choose|g: Parameters<T>, rate: T|
        is_batch_gradient(p, batch, g) && is_rate(learning_rate, batch.len() as usize, rate)
            && is_descent_step(p, g, rate, r);
    let n = batch.len() as usize;
    assert forall|l: int| 0 <= l < r.biases.len() implies #[trigger] r.biases[l] == p.biases[l] by {
        lemma_inert_descent(learning_rate, n, rate, p.biases[l], g.biases[l], r.biases[l]);
    }
    assert forall|l: int| 0 <= l < r.weights.len() implies #[trigger] r.weights[l]
        == p.weights[l] by {
        lemma_inert_descent(
            learning_rate,
            n,
            rate,
            p.weights[l].cells,
            g.weights[l].cells,
            r.weights[l].cells,
        );
    }
    assert(r.biases =~= p.biases);
    assert(r.weights =~= p.weights);
}

/// Every chunk before the last cut holds an example, and no more than
/// there are.
pub proof fn lemma_chunk_is_not_empty<T>(data: Seq<Data<T>>, size: int, m: int, k: int)
    requires
        size > 0,
        is_chunk_count(data.len() as int, size, m),
        0 <= k < m,
    ensures
        0 < chunk(data, size, k).len() <= data.len(),
{
    let len = data.len() as int;
    assert(k * size <= (m - 1) * size) by (nonlinear_arith)
        requires
            k <= m - 1,
            size > 0,
    ;
    assert((k + 1) * size == k * size + size) by (nonlinear_arith);
    assert(0 <= k * size) by (nonlinear_arith)
        requires
            0 <= k,
            size > 0,
    ;
    assert(chunk_start(len, size, m - 1) < len);
    assert(chunk_start(len, size, k) == k * size);
}

/// At an inert learning rate the mini-batches of an epoch leave the
/// parameters as they were, one after the other.
pub proof fn lemma_inert_steps<T: Scalar>(
    learning_rate: T,
    data: Seq<Data<T>>,
    size: int,
    steps: Seq<Parameters<T>>,
    k: int,
)
    requires
        is_inert(learning_rate),
        size > 0,
        data.len() <= usize::MAX,
        is_epoch_trace(data, size, learning_rate, steps),
        0 <= k < steps.len(),
    ensures
        steps[k] == steps[0],
    decreases k,
{
    if k > 0 {
        lemma_inert_steps(learning_rate, data, size, steps, k - 1);
        assert(is_chunk_step(steps, data, size, learning_rate, k - 1));
        lemma_chunk_is_not_empty(data, size, steps.len() - 1, k - 1);
        lemma_inert_batch(learning_rate, steps[k - 1], chunk(data, size, k - 1), steps[k]);
    }
}

/// At an inert learning rate an epoch leaves the parameters as they were.
pub proof fn lemma_inert_epoch<T: Scalar>(
    learning_rate: T,
    p: Parameters<T>,
    data: Seq<Data<T>>,
    size: int,
    r: Parameters<T>,
)
    requires
        is_inert(learning_rate),
        size > 0,
        data.len() <= usize::MAX,
        is_epoch(p, data, size, learning_rate, r),
    ensures
        r == p,
{
    let steps = choose|steps: Seq<Parameters<T>>| #[trigger]
        is_epoch_trace(data, size, learning_rate, steps) && steps[0] == p && steps[steps.len()
            - 1] == r;
    lemma_inert_steps(learning_rate, data, size, steps, steps.len() - 1);
}

/// The examples are as many in every epoch as they were given.
pub proof fn lemma_orders_keep_length<T: Scalar>(
    p: Parameters<T>,
    data: Seq<Data<T>>,
    epochs: int,
    size: int,
    learning_rate: T,
    nets: Seq<Parameters<T>>,
    orders: Seq<Seq<Data<T>>>,
    e: int,
)
    requires
        is_training(p, data, epochs, size, learning_rate, nets, orders),
        0 <= e <= epochs,
    ensures
        orders[e].len() == data.len(),
    decreases e,
{
    if e > 0 {
        lemma_orders_keep_length(p, data, epochs, size, learning_rate, nets, orders, e - 1);
        assert(is_epoch_step(nets, orders, size, learning_rate, e - 1));
    }
}

/// Training at an inert learning rate, such as a rate of zero is for
/// numbers that it leaves in place, changes no parameter, whatever the
/// batch size and however many epochs there are: the parameters after every
/// epoch are those that training began with.
pub proof fn lemma_inert_training<T: Scalar>(
    p: Parameters<T>,
    data: Seq<Data<T>>,
    epochs: int,
    size: int,
    learning_rate: T,
    nets: Seq<Parameters<T>>,
    orders: Seq<Seq<Data<T>>>,
    e: int,
)
    requires
        is_inert(learning_rate),
        size > 0,
        data.len() <= usize::MAX,
        is_training(p, data, epochs, size, learning_rate, nets, orders),
        0 <= e <= epochs,
    ensures
        nets[e] == p,
    decreases e,
{
    if e > 0 {
        lemma_inert_training(p, data, epochs, size, learning_rate, nets, orders, e - 1);
        lemma_orders_keep_length(p, data, epochs, size, learning_rate, nets, orders, e);
        assert(is_epoch_step(nets, orders, size, learning_rate, e - 1));
        lemma_inert_epoch(learning_rate, nets[e - 1], orders[e], size, nets[e]);
    }
}

} // verus!
