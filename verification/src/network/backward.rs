//! Backpropagation.

use vstd::prelude::*;
use crate::error::Error;
use crate::kernels::{is_difference_of, is_hadamard_of, is_image, transform};
use crate::matrix::{as_matrix, column, is_matvec_of, is_product_of, Grid, Matrix};
use crate::network::forward::{is_forward_trace, is_layer_step, is_sigmoid_of, items_of};
use crate::network::{parameters_of, Network, Parameters};
use crate::scalar::{is_sigmoid, is_sigmoid_prime, is_slope, slope, Scalar};
use crate::vector::{Vector, VectorUtils};

verus! {

/// `s[i]` is the derivative of the sigmoid at `z[i]` in every place.
pub open spec fn is_sigmoid_prime_of<T: Scalar>(z: Seq<T>, s: Seq<T>) -> bool {
    &&& s.len() == z.len()
    &&& forall|i: int| 0 <= i < s.len() ==> is_sigmoid_prime(z[i], #[trigger] s[i])
}

/// `delta` is the error of the output layer: `(a - y) ⊙ sigmoid_prime(z)`
/// for the activation `a`, the target `y` and the pre-activation `z` of
/// that layer.
pub open spec fn is_output_delta<T: Scalar>(a: Seq<T>, y: Seq<T>, z: Seq<T>, delta: Seq<T>) -> bool {
    exists|e: Seq<T>, s: Seq<T>|
        is_difference_of(a, y, e) && is_sigmoid_prime_of(z, s) && is_hadamard_of(e, s, delta)
}

/// `delta` is the error of a hidden layer: `(wᵀ · d) ⊙ sigmoid_prime(z)` for
/// the weights `w` and the error `d` of the layer behind it and its own
/// pre-activation `z`. The transpose of `w` is not built.
pub open spec fn is_hidden_delta<T: Scalar>(w: Grid<T>, d: Seq<T>, z: Seq<T>, delta: Seq<T>) -> bool {
    exists|e: Seq<T>, s: Seq<T>|
        is_matvec_of(w, true, d, e) && is_sigmoid_prime_of(z, s) && is_hadamard_of(e, s, delta)
}

/// `g` is the outer product `delta · aᵀ`: the matrix product of `delta` as
/// a column with `a` as a row.
pub open spec fn is_outer_product<T: Scalar>(delta: Seq<T>, a: Seq<T>, g: Grid<T>) -> bool {
    is_product_of(column(delta), false, column(a), true, g)
}

/// The bias gradient of layer `l`, a hidden layer, is the error of that
/// layer.
pub open spec fn is_hidden_step<T: Scalar>(
    p: Parameters<T>,
    zs: Seq<Seq<T>>,
    g: Parameters<T>,
    l: int,
) -> bool {
    is_hidden_delta(p.weights[l + 1], g.biases[l + 1], zs[l], g.biases[l])
}

/// The weight gradient of layer `l` is the outer product of the layer's
/// error with the activation that entered the layer.
pub open spec fn is_weight_step<T: Scalar>(acts: Seq<Seq<T>>, g: Parameters<T>, l: int) -> bool {
    is_outer_product(g.biases[l], acts[l], g.weights[l])
}

/// `g` is what the backward pass makes of the trace `zs`, `acts` of a
/// forward pass and the target `y`, in the layers from `from` on.
pub open spec fn is_backward_pass_from<T: Scalar>(
    p: Parameters<T>,
    y: Seq<T>,
    zs: Seq<Seq<T>>,
    acts: Seq<Seq<T>>,
    g: Parameters<T>,
    from: int,
) -> bool {
    let n = p.depth();
    &&& g.biases.len() == n
    &&& g.weights.len() == n
    &&& from <= n - 1 ==> is_output_delta(acts[n], y, zs[n - 1], g.biases[n - 1])
    &&& forall|l: int| from <= l < n - 1 ==> #[trigger] is_hidden_step(p, zs, g, l)
    &&& forall|l: int| from <= l < n ==> #[trigger] is_weight_step(acts, g, l)
}

/// `g` is the gradient for the example `(x, y)`: there is a forward pass
/// from `x` whose trace the backward pass turns into `g`.
pub open spec fn is_gradient<T: Scalar>(p: Parameters<T>, x: Seq<T>, y: Seq<T>, g: Parameters<T>) -> bool {
    exists|zs: Seq<Seq<T>>, acts: Seq<Seq<T>>| #[trigger]
        is_forward_trace(p, x, zs, acts) && is_backward_pass_from(p, y, zs, acts, g, 0)
}

/// Where `a` holds the sigmoid of `z`, the slope taken from `a` is the
/// derivative of the sigmoid at `z`.
pub proof fn lemma_slope_of_cached<T: Scalar>(z: Seq<T>, a: Seq<T>, s: Seq<T>)
    requires
        is_sigmoid_of(z, a),
        is_image(slope::<T>, a, s),
    ensures
        is_sigmoid_prime_of(z, s),
{
    assert forall|i: int| 0 <= i < s.len() implies is_sigmoid_prime(z[i], #[trigger] s[i]) by {
        assert(is_sigmoid(z[i], a[i]) && is_slope(a[i], s[i]));
    }
}

/// A gradient: for each layer behind the input layer what the loss changes
/// by with each bias and with each weight.
#[derive(Debug, PartialEq)]
pub struct Gradient<T> {
    pub biases: Vec<Vector<T>>,
    pub weights: Vec<Matrix<T>>,
}

impl<T> View for Gradient<T> {
    type V = Parameters<T>;

    open spec fn view(&self) -> Parameters<T> {
        parameters_of(self.biases@, self.weights@)
    }
}

impl<T: Scalar> Network<T> {
    /// The error of a layer from `e`, which is `a - y` in the output layer
    /// and `wᵀ · d` in a hidden one, and from the layer's activation `a`,
    /// the sigmoid of its pre-activation `z`.
    fn delta(e: &Vector<T>, a: &Vector<T>, Ghost(z): Ghost<Seq<T>>) -> (r: Vector<T>)
        requires
            e@.len() == a@.len(),
            is_sigmoid_of(z, a@),
        ensures
            r@.len() == a@.len(),
            exists|s: Seq<T>| is_sigmoid_prime_of(z, s) && #[trigger] is_hadamard_of(e@, s, r@),
    {
        let s = Vector::from_vec(transform(a.data(), slope::<T>));
        let r = e.hadamard(&s).unwrap();
        proof {
            lemma_slope_of_cached(z, a@, s@);
            assert(is_sigmoid_prime_of(z, s@) && is_hadamard_of(e@, s@, r@));
        }
        r
    }

    /// The gradient of the loss for one example, by backpropagation. The
    /// input must have one item for each unit of the input layer, the
    /// target one for each unit of the output layer.
    pub fn backpropagate(&self, x: &Vector<T>, y: &Vector<T>) -> (r: Result<Gradient<T>, Error>)
        ensures
            r is Err <==> x@.len() != self@.input_size() || y@.len() != self@.output_size(),
            r is Err ==> r == Err::<Gradient<T>, Error>(Error::ShapeMismatch),
            r is Ok ==> is_gradient(self@, x@, y@, r.unwrap()@) && self@.same_shapes(r.unwrap()@),
    {
        proof {
            use_type_invariant(self);
        }
        let n = self.weights.len();
        let ghost p = self@;
        assert(p.weights[n - 1] == self.weights@[n - 1]@);
        if y.len() != self.weights[n - 1].shape().0 {
            return Err(Error::ShapeMismatch);
        }
        let trace = match self.trace(x) {
            Ok(trace) => trace,
            Err(e) => {
                return Err(e);
            },
        };
        let ghost zs = items_of(trace.zs@);
        let ghost acts = items_of(trace.activations@);
        assert forall|k: int| 0 <= k <= n implies (#[trigger] acts[k]).len() == p.size(k) by {
            assert(acts[k] == trace.activations@[k]@);
        }
        let mut biases: Vec<Vector<T>> = Vec::new();
        let mut weights: Vec<Matrix<T>> = Vec::new();
        let mut l: usize = 0;
        while l < n
            invariant
                l <= n,
                biases@.len() == l,
                weights@.len() == l,
            decreases n - l,
        {
            biases.push(Vector::new());
            weights.push(Matrix::from_vec((0, 0), Vec::new()).unwrap());
            l += 1;
        }
        let mut l: usize = n;
        while l > 0
            invariant
                l <= n,
                0 < n,
                n == p.depth(),
                p == self@,
                p.wired(),
                n == self.weights@.len(),
                n == self.biases@.len(),
                y@.len() == p.output_size(),
                zs == items_of(trace.zs@),
                acts == items_of(trace.activations@),
                is_forward_trace(p, x@, zs, acts),
                biases@.len() == n,
                weights@.len() == n,
                forall|k: int| 0 <= k <= n ==> (#[trigger] acts[k]).len() == p.size(k),
                forall|k: int| l <= k < n ==> (#[trigger] biases@[k])@.len() == p.biases[k].len(),
                forall|k: int|
                    l <= k < n ==> {
                        &&& (#[trigger] weights@[k])@.rows == p.weights[k].rows
                        &&& weights@[k]@.cols == p.weights[k].cols
                        &&& weights@[k]@.well_formed()
                    },
                is_backward_pass_from(p, y@, zs, acts, parameters_of(biases@, weights@), l as int),
            decreases l,
        {
            let ghost before = parameters_of(biases@, weights@);
            l -= 1;
            assert(is_layer_step(p, zs, acts, l as int));
            assert(p.weights[l as int] == self.weights@[l as int]@);
            assert(acts[l + 1] == trace.activations@[l + 1]@);
            assert(acts[l as int] == trace.activations@[l as int]@);
            assert(acts[l + 1].len() == p.size(l + 1) && acts[l as int].len() == p.size(l as int));
            let (rows, cols) = self.weights[l].shape();
            let e = if l == n - 1 {
                trace.activations[l + 1].sub(y).unwrap()
            } else {
                assert(p.weights[l + 1] == self.weights@[l + 1]@);
                assert(before.biases[l + 1] == biases@[l + 1]@);
                self.weights[l + 1].matvec_with(true, &biases[l + 1]).unwrap()
            };
            let delta = Self::delta(&e, &trace.activations[l + 1], Ghost(zs[l as int]));
            let grad = as_matrix(&delta).mul_with(
                false,
                &as_matrix(&trace.activations[l]),
                true,
            ).unwrap();
            assert(grad@.rows == rows && grad@.cols == cols);
            let ghost delta_items = delta@;
            biases[l] = delta;
            weights[l] = grad;
            proof {
                let after = parameters_of(biases@, weights@);
                assert(after.biases[l as int] == delta_items);
                assert(after.weights[l as int] == grad@);
                assert(is_weight_step(acts, after, l as int));
                assert forall|k: int| l < k < n implies after.biases[k] == before.biases[k]
                    && after.weights[k] == before.weights[k] by {}
                assert forall|k: int| l <= k < n implies #[trigger] is_weight_step(acts, after, k) by {
                    if k > l {
                        assert(is_weight_step(acts, before, k));
                    }
                }
                if l == n - 1 {
                    assert(is_output_delta(acts[n as int], y@, zs[n - 1], after.biases[n - 1]));
                } else {
                    assert(is_hidden_step(p, zs, after, l as int));
                    assert(after.biases[n - 1] == before.biases[n - 1]);
                }
                assert forall|k: int| l <= k < n - 1 implies #[trigger] is_hidden_step(
                    p,
                    zs,
                    after,
                    k,
                ) by {
                    if k > l {
                        assert(is_hidden_step(p, zs, before, k));
                    }
                }
            }
        }
        let g = Gradient { biases, weights };
        proof {
            assert(is_forward_trace(p, x@, zs, acts) && is_backward_pass_from(p, y@, zs, acts, g@, 0));
            assert(p.same_shapes(g@));
        }
        Ok(g)
    }
}

} // verus!
