//! The forward pass.

use vstd::prelude::*;
use crate::error::Error;
use crate::kernels::{is_sum_of, transform};
use crate::matrix::{is_matvec_of, Grid, Matrix};
use crate::network::{Network, Parameters};
use crate::scalar::{is_sigmoid, sigmoid, Scalar};
use crate::vector::{Vector, VectorUtils};

verus! {

/// `z` is `w · a + b`: the product of the weights with the activation, and
/// then the biases added to it.
pub open spec fn is_preactivation<T: Scalar>(w: Grid<T>, b: Seq<T>, a: Seq<T>, z: Seq<T>) -> bool {
    exists|y: Seq<T>| is_matvec_of(w, false, a, y) && is_sum_of(y, b, z)
}

/// `a[i]` is the sigmoid of `z[i]` in every place.
pub open spec fn is_sigmoid_of<T: Scalar>(z: Seq<T>, a: Seq<T>) -> bool {
    &&& a.len() == z.len()
    &&& forall|i: int| 0 <= i < a.len() ==> is_sigmoid(z[i], #[trigger] a[i])
}

/// Layer `l` takes the activation `acts[l]` to the pre-activation `zs[l]`
/// and that to the activation `acts[l + 1]`.
pub open spec fn is_layer_step<T: Scalar>(
    p: Parameters<T>,
    zs: Seq<Seq<T>>,
    acts: Seq<Seq<T>>,
    l: int,
) -> bool {
    &&& is_preactivation(p.weights[l], p.biases[l], acts[l], zs[l])
    &&& is_sigmoid_of(zs[l], acts[l + 1])
}

/// `zs` and `acts` are what a forward pass from the input `x` leaves behind
/// on its way through the first `n` layers: `acts[0]` is `x`.
pub open spec fn is_forward_trace_to<T: Scalar>(
    p: Parameters<T>,
    x: Seq<T>,
    n: int,
    zs: Seq<Seq<T>>,
    acts: Seq<Seq<T>>,
) -> bool {
    &&& zs.len() == n
    &&& acts.len() == n + 1
    &&& acts[0] == x
    &&& forall|l: int| 0 <= l < n ==> #[trigger] is_layer_step(p, zs, acts, l)
}

/// `zs` and `acts` are what a forward pass from the input `x` leaves behind
/// in all the layers.
pub open spec fn is_forward_trace<T: Scalar>(
    p: Parameters<T>,
    x: Seq<T>,
    zs: Seq<Seq<T>>,
    acts: Seq<Seq<T>>,
) -> bool {
    is_forward_trace_to(p, x, p.depth(), zs, acts)
}

/// `out` is the activation of the output layer for the input `x`.
pub open spec fn is_output_of<T: Scalar>(p: Parameters<T>, x: Seq<T>, out: Seq<T>) -> bool {
    exists|zs: Seq<Seq<T>>, acts: Seq<Seq<T>>| #[trigger]
        is_forward_trace(p, x, zs, acts) && acts[p.depth()] == out
}

/// What a forward pass leaves behind, layer by layer.
#[derive(Debug, PartialEq)]
pub struct Trace<T> {
    /// The pre-activation of each layer behind the input layer.
    pub zs: Vec<Vector<T>>,
    /// The activation of each layer, the input first.
    pub activations: Vec<Vector<T>>,
}

/// The items of each vector of a run.
pub open spec fn items_of<T>(vectors: Seq<Vector<T>>) -> Seq<Seq<T>> {
    Seq::new(vectors.len(), |l: int| vectors[l]@)
}

impl<T: Scalar> Network<T> {
    /// One layer: the pre-activation `w · a + b` and its sigmoid.
    fn advance(w: &Matrix<T>, b: &Vector<T>, a: &Vector<T>) -> (r: (Vector<T>, Vector<T>))
        requires
            w@.cols == a@.len(),
            w@.rows == b@.len(),
        ensures
            is_preactivation(w@, b@, a@, r.0@),
            is_sigmoid_of(r.0@, r.1@),
            r.0@.len() == w@.rows,
            r.1@.len() == w@.rows,
    {
        let y = w.matvec(a).unwrap();
        let z = y.add(b).unwrap();
        assert(is_matvec_of(w@, false, a@, y@) && is_sum_of(y@, b@, z@));
        let out = Vector::from_vec(transform(z.data(), sigmoid::<T>));
        (z, out)
    }

    /// The forward pass from `input`, with all that it computes on the way.
    /// The input must have one item for each unit of the input layer.
    pub fn trace(&self, input: &Vector<T>) -> (r: Result<Trace<T>, Error>)
        ensures
            r is Err <==> input@.len() != self@.input_size(),
            r is Err ==> r == Err::<Trace<T>, Error>(Error::ShapeMismatch),
            r is Ok ==> is_forward_trace(
                self@,
                input@,
                items_of(r.unwrap().zs@),
                items_of(r.unwrap().activations@),
            ),
            r is Ok ==> forall|l: int|
                0 <= l <= self@.depth() ==> (#[trigger] r.unwrap().activations@[l])@.len()
                    == self@.size(l),
    {
        proof {
            use_type_invariant(self);
        }
        let n = self.weights.len();
        if input.len() != self.weights[0].shape().1 {
            return Err(Error::ShapeMismatch);
        }
        let ghost p = self@;
        let mut zs: Vec<Vector<T>> = Vec::new();
        let mut activations: Vec<Vector<T>> = Vec::new();
        activations.push(input.clone());
        let mut l: usize = 0;
        while l < n
            invariant
                l <= n,
                n == p.depth(),
                p == self@,
                p.wired(),
                n == self.weights@.len(),
                n == self.biases@.len(),
                activations@.len() == l + 1,
                forall|k: int| 0 <= k <= l ==> (#[trigger] activations@[k])@.len() == p.size(k),
                is_forward_trace_to(p, input@, l as int, items_of(zs@), items_of(activations@)),
            decreases n - l,
        {
            let ghost zs_before = items_of(zs@);
            let ghost acts_before = items_of(activations@);
            assert(p.weights[l as int] == self.weights@[l as int]@);
            assert(p.biases[l as int] == self.biases@[l as int]@);
            assert(l > 0 ==> p.weights[l as int].cols == p.weights[l - 1].rows);
            let (z, out) = Self::advance(&self.weights[l], &self.biases[l], &activations[l]);
            zs.push(z);
            activations.push(out);
            proof {
                let zs_after = items_of(zs@);
                let acts_after = items_of(activations@);
                assert forall|k: int| 0 <= k < l + 1 implies #[trigger] is_layer_step(
                    p,
                    zs_after,
                    acts_after,
                    k,
                ) by {
                    if k < l {
                        assert(is_layer_step(p, zs_before, acts_before, k));
                        assert(zs_after[k] == zs_before[k]);
                        assert(acts_after[k] == acts_before[k]);
                        assert(acts_after[k + 1] == acts_before[k + 1]);
                    } else {
                        assert(acts_after[k] == acts_before[k]);
                    }
                }
                assert(acts_after[0] == acts_before[0]);
            }
            l += 1;
        }
        Ok(Trace { zs, activations })
    }

    /// The activation of the output layer for `input`, which must have one
    /// item for each unit of the input layer.
    pub fn feedforward(&self, input: &Vector<T>) -> (r: Result<Vector<T>, Error>)
        ensures
            r is Err <==> input@.len() != self@.input_size(),
            r is Err ==> r == Err::<Vector<T>, Error>(Error::ShapeMismatch),
            r is Ok ==> is_output_of(self@, input@, r.unwrap()@),
    {
        proof {
            use_type_invariant(self);
        }
        let n = self.weights.len();
        match self.trace(input) {
            Err(e) => Err(e),
            Ok(trace) => {
                let out = trace.activations[n].clone();
                assert(is_forward_trace(
                    self@,
                    input@,
                    items_of(trace.zs@),
                    items_of(trace.activations@),
                ) && items_of(trace.activations@)[self@.depth()] == out@);
                Ok(out)
            },
        }
    }
}

} // verus!
