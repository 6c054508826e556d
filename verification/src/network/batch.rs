//! The update that one mini-batch makes.

use vstd::prelude::*;
use crate::error::Error;
use crate::kernels::{is_difference_of, is_scaled, is_sum_of, is_zeros};
use crate::matrix::Matrix;
use crate::network::backward::{is_gradient, Gradient};
use crate::network::{parameters_of, Data, Network, Parameters};
use crate::scalar::{is_count, is_quotient, Scalar};
use crate::vector::{Vector, VectorUtils};

verus! {

/// The example has one input item for each unit of the input layer and one
/// target item for each unit of the output layer.
pub open spec fn fits<T>(p: Parameters<T>, example: Data<T>) -> bool {
    example.0@.len() == p.input_size() && example.1@.len() == p.output_size()
}

/// Every example fits the network.
pub open spec fn all_fit<T>(p: Parameters<T>, data: Seq<Data<T>>) -> bool {
    forall|k: int| 0 <= k < data.len() ==> fits(p, #[trigger] data[k])
}

/// `r` has the shapes of `p`, and zeros everywhere.
pub open spec fn is_zero_like<T: Scalar>(p: Parameters<T>, r: Parameters<T>) -> bool {
    &&& p.same_shapes(r)
    &&& forall|l: int| 0 <= l < r.biases.len() ==> is_zeros(#[trigger] r.biases[l])
    &&& forall|l: int| 0 <= l < r.weights.len() ==> is_zeros((#[trigger] r.weights[l]).cells)
}

/// `r` is `a + b`, bias by bias and weight by weight.
pub open spec fn is_parameters_sum<T: Scalar>(
    a: Parameters<T>,
    b: Parameters<T>,
    r: Parameters<T>,
) -> bool {
    &&& a.same_shapes(r)
    &&& forall|l: int|
        0 <= l < r.biases.len() ==> is_sum_of(a.biases[l], b.biases[l], #[trigger] r.biases[l])
    &&& forall|l: int|
        0 <= l < r.weights.len() ==> is_sum_of(
            a.weights[l].cells,
            b.weights[l].cells,
            (#[trigger] r.weights[l]).cells,
        )
}

/// The sum `sums[k + 1]` is the sum `sums[k]` with the gradient for example
/// `k` of the batch added to it.
pub open spec fn is_accumulation_step<T: Scalar>(
    p: Parameters<T>,
    batch: Seq<Data<T>>,
    sums: Seq<Parameters<T>>,
    k: int,
) -> bool {
    exists|g: Parameters<T>| #[trigger]
        is_gradient(p, batch[k].0@, batch[k].1@, g) && is_parameters_sum(sums[k], g, sums[k + 1])
}

/// `sums` holds the sum of the gradients before each example of the batch,
/// and behind those the sum of them all: zeros first, and then one
/// gradient more from place to place.
pub open spec fn is_accumulation<T: Scalar>(
    p: Parameters<T>,
    batch: Seq<Data<T>>,
    sums: Seq<Parameters<T>>,
) -> bool {
    &&& sums.len() == batch.len() + 1
    &&& is_zero_like(p, sums[0])
    &&& forall|k: int| 0 <= k < batch.len() ==> #[trigger] is_accumulation_step(p, batch, sums, k)
}

/// `g` is the sum of the gradients for the examples of the batch, added
/// one by one to zeros, in the order of the batch.
pub open spec fn is_batch_gradient<T: Scalar>(
    p: Parameters<T>,
    batch: Seq<Data<T>>,
    g: Parameters<T>,
) -> bool {
    exists|sums: Seq<Parameters<T>>| #[trigger]
        is_accumulation(p, batch, sums) && sums[batch.len() as int] == g
}

/// `rate` is the learning rate divided by the number `n` of examples.
pub open spec fn is_rate<T: Scalar>(learning_rate: T, n: usize, rate: T) -> bool {
    exists|c: T| is_count(n, c) && is_quotient(learning_rate, c, rate)
}

/// `r[i]` is `p[i] - g[i] * rate` in every place.
pub open spec fn is_descent_of<T: Scalar>(p: Seq<T>, g: Seq<T>, rate: T, r: Seq<T>) -> bool {
    exists|step: Seq<T>| is_scaled(g, rate, step) && is_difference_of(p, step, r)
}

/// `r` is `p - g * rate`, bias by bias and weight by weight.
pub open spec fn is_descent_step<T: Scalar>(
    p: Parameters<T>,
    g: Parameters<T>,
    rate: T,
    r: Parameters<T>,
) -> bool {
    &&& p.same_shapes(r)
    &&& forall|l: int|
        0 <= l < r.biases.len() ==> is_descent_of(
            p.biases[l],
            g.biases[l],
            rate,
            #[trigger] r.biases[l],
        )
    &&& forall|l: int|
        0 <= l < r.weights.len() ==> is_descent_of(
            p.weights[l].cells,
            g.weights[l].cells,
            rate,
            (#[trigger] r.weights[l]).cells,
        )
}

/// `r` is what one mini-batch makes of `p`: the gradients of its examples
/// are summed, and every parameter moves against the sum by the learning
/// rate divided by the number of examples in this batch.
pub open spec fn is_batch_update<T: Scalar>(
    p: Parameters<T>,
    batch: Seq<Data<T>>,
    learning_rate: T,
    r: Parameters<T>,
) -> bool {
    exists|g: Parameters<T>, rate: T|
        is_batch_gradient(p, batch, g) && is_rate(learning_rate, batch.len() as usize, rate)
            && is_descent_step(p, g, rate, r)
}

impl<T: Scalar> Network<T> {
    /// Whether the example fits the network.
    fn check_example(&self, example: &Data<T>) -> (r: bool)
        ensures
            r == fits(self@, *example),
    {
        proof {
            use_type_invariant(self);
        }
        let n = self.weights.len();
        assert(self@.weights[0] == self.weights@[0]@);
        assert(self@.weights[n - 1] == self.weights@[n - 1]@);
        example.0.len() == self.weights[0].shape().1 && example.1.len() == self.weights[n
            - 1].shape().0
    }

    /// Whether every example fits the network.
    pub(super) fn check_examples(&self, data: &[Data<T>]) -> (r: bool)
        ensures
            r == all_fit(self@, data@),
    {
        let n = data.len();
        let mut k: usize = 0;
        while k < n
            invariant
                k <= n,
                n == data@.len(),
                forall|m: int| 0 <= m < k ==> fits(self@, #[trigger] data@[m]),
            decreases n - k,
        {
            if !self.check_example(&data[k]) {
                return false;
            }
            k += 1;
        }
        true
    }

    /// A gradient of the network's shapes with zeros everywhere.
    fn zero_gradient(&self) -> (r: Gradient<T>)
        ensures
            is_zero_like(self@, r@),
    {
        proof {
            use_type_invariant(self);
        }
        let n = self.weights.len();
        let ghost p = self@;
        let mut biases: Vec<Vector<T>> = Vec::new();
        let mut weights: Vec<Matrix<T>> = Vec::new();
        let mut l: usize = 0;
        while l < n
            invariant
                l <= n,
                p == self@,
                p.wired(),
                n == self.weights@.len(),
                n == self.biases@.len(),
                biases@.len() == l,
                weights@.len() == l,
                forall|k: int|
                    0 <= k < l ==> (#[trigger] biases@[k])@.len() == p.biases[k].len() && is_zeros(
                        biases@[k]@,
                    ),
                forall|k: int|
                    0 <= k < l ==> {
                        &&& (#[trigger] weights@[k])@.rows == p.weights[k].rows
                        &&& weights@[k]@.cols == p.weights[k].cols
                        &&& weights@[k]@.cells.len() == p.weights[k].cells.len()
                        &&& is_zeros(weights@[k]@.cells)
                    },
            decreases n - l,
        {
            assert(p.weights[l as int] == self.weights@[l as int]@);
            assert(p.biases[l as int] == self.biases@[l as int]@);
            let shape = self.weights[l].shape();
            biases.push(Vector::zeros(shape.0).unwrap());
            weights.push(Matrix::zeros(shape).unwrap());
            l += 1;
        }
        Gradient { biases, weights }
    }

    /// The sum of two gradients of the network's shapes.
    fn accumulate(&self, sum: &Gradient<T>, g: &Gradient<T>) -> (r: Gradient<T>)
        requires
            self@.same_shapes(sum@),
            self@.same_shapes(g@),
        ensures
            self@.same_shapes(r@),
            is_parameters_sum(sum@, g@, r@),
    {
        proof {
            use_type_invariant(self);
        }
        let n = self.weights.len();
        let ghost p = self@;
        let ghost a = sum@;
        let ghost b = g@;
        let mut biases: Vec<Vector<T>> = Vec::new();
        let mut weights: Vec<Matrix<T>> = Vec::new();
        let mut l: usize = 0;
        while l < n
            invariant
                l <= n,
                p == self@,
                a == sum@,
                b == g@,
                p.wired(),
                p.same_shapes(a),
                p.same_shapes(b),
                n == p.depth(),
                biases@.len() == l,
                weights@.len() == l,
                forall|k: int|
                    0 <= k < l ==> (#[trigger] biases@[k])@.len() == p.biases[k].len() && is_sum_of(
                        a.biases[k],
                        b.biases[k],
                        biases@[k]@,
                    ),
                forall|k: int|
                    0 <= k < l ==> {
                        &&& (#[trigger] weights@[k])@.rows == p.weights[k].rows
                        &&& weights@[k]@.cols == p.weights[k].cols
                        &&& weights@[k]@.cells.len() == p.weights[k].cells.len()
                        &&& is_sum_of(a.weights[k].cells, b.weights[k].cells, weights@[k]@.cells)
                    },
            decreases n - l,
        {
            assert(a.biases[l as int] == sum.biases@[l as int]@);
            assert(b.biases[l as int] == g.biases@[l as int]@);
            assert(a.weights[l as int] == sum.weights@[l as int]@);
            assert(b.weights[l as int] == g.weights@[l as int]@);
            biases.push(sum.biases[l].add(&g.biases[l]).unwrap());
            weights.push(sum.weights[l].add(&g.weights[l]).unwrap());
            l += 1;
        }
        Gradient { biases, weights }
    }

    /// The sum of the gradients for the examples of a batch, all of which
    /// must fit the network.
    fn batch_gradient(&self, batch: &[Data<T>]) -> (r: Gradient<T>)
        requires
            all_fit(self@, batch@),
        ensures
            self@.same_shapes(r@),
            is_batch_gradient(self@, batch@, r@),
    {
        let n = batch.len();
        let ghost p = self@;
        let mut sum = self.zero_gradient();
        let ghost sums: Seq<Parameters<T>> = seq![sum@];
        let mut k: usize = 0;
        while k < n
            invariant
                k <= n,
                n == batch@.len(),
                p == self@,
                all_fit(p, batch@),
                p.same_shapes(sum@),
                sums.len() == k + 1,
                sums[k as int] == sum@,
                is_zero_like(p, sums[0]),
                forall|m: int| 0 <= m < k ==> #[trigger] is_accumulation_step(p, batch@, sums, m),
            decreases n - k,
        {
            assert(fits(p, batch@[k as int]));
            let g = self.backpropagate(&batch[k].0, &batch[k].1).unwrap();
            let next = self.accumulate(&sum, &g);
            proof {
                let before = sums;
                sums = sums.push(next@);
                assert(is_gradient(p, batch@[k as int].0@, batch@[k as int].1@, g@)
                    && is_parameters_sum(sums[k as int], g@, sums[k + 1]));
                assert forall|m: int| 0 <= m < k + 1 implies #[trigger] is_accumulation_step(
                    p,
                    batch@,
                    sums,
                    m,
                ) by {
                    if m < k {
                        assert(is_accumulation_step(p, batch@, before, m));
                        assert(sums[m] == before[m] && sums[m + 1] == before[m + 1]);
                    }
                }
            }
            sum = next;
            k += 1;
        }
        assert(is_accumulation(p, batch@, sums));
        sum
    }

    /// Moves every parameter against the gradient of a mini-batch, by the
    /// learning rate divided by the number of examples in the batch.
    ///
    /// An empty batch is refused as no topology. A batch with an example
    /// that does not fit the network is refused as a mismatch of shapes. A
    /// refused batch changes nothing.
    pub fn train_batch(&mut self, learning_rate: T, batch: &[Data<T>]) -> (r: Result<(), Error>)
        ensures
            batch@.len() == 0 <==> r == Err::<(), Error>(Error::InvalidTopology),
            batch@.len() > 0 && !all_fit(old(self)@, batch@) <==> r == Err::<(), Error>(
                Error::ShapeMismatch,
            ),
            r is Err ==> final(self)@ == old(self)@ && (batch@.len() == 0 || !all_fit(
                old(self)@,
                batch@,
            )),
            r is Ok ==> is_batch_update(old(self)@, batch@, learning_rate, final(self)@),
    {
        proof {
            use_type_invariant(&*self);
        }
        if batch.len() == 0 {
            return Err(Error::InvalidTopology);
        }
        if !self.check_examples(batch) {
            return Err(Error::ShapeMismatch);
        }
        let ghost p = self@;
        let g = self.batch_gradient(batch);
        let count = T::from_count(batch.len());
        let rate = learning_rate.over(count);
        assert(is_count(batch@.len() as usize, count) && is_quotient(learning_rate, count, rate));
        let n = self.weights.len();
        let mut biases: Vec<Vector<T>> = Vec::new();
        let mut weights: Vec<Matrix<T>> = Vec::new();
        let mut l: usize = 0;
        while l < n
            invariant
                l <= n,
                p == self@,
                p.wired(),
                p.same_shapes(g@),
                n == p.depth(),
                biases@.len() == l,
                weights@.len() == l,
                forall|k: int|
                    0 <= k < l ==> (#[trigger] biases@[k])@.len() == p.biases[k].len()
                        && is_descent_of(p.biases[k], g@.biases[k], rate, biases@[k]@),
                forall|k: int|
                    0 <= k < l ==> {
                        &&& (#[trigger] weights@[k])@.rows == p.weights[k].rows
                        &&& weights@[k]@.cols == p.weights[k].cols
                        &&& weights@[k]@.cells.len() == p.weights[k].cells.len()
                        &&& weights@[k]@.well_formed()
                        &&& is_descent_of(
                            p.weights[k].cells,
                            g@.weights[k].cells,
                            rate,
                            weights@[k]@.cells,
                        )
                    },
            decreases n - l,
        {
            assert(p.biases[l as int] == self.biases@[l as int]@);
            assert(p.weights[l as int] == self.weights@[l as int]@);
            assert(g@.biases[l as int] == g.biases@[l as int]@);
            assert(g@.weights[l as int] == g.weights@[l as int]@);
            let bias_step = g.biases[l].scale(rate);
            let bias = self.biases[l].sub(&bias_step).unwrap();
            assert(is_scaled(g@.biases[l as int], rate, bias_step@) && is_difference_of(
                p.biases[l as int],
                bias_step@,
                bias@,
            ));
            let weight_step = g.weights[l].scale(rate);
            let weight = self.weights[l].sub(&weight_step).unwrap();
            assert(is_scaled(g@.weights[l as int].cells, rate, weight_step@.cells)
                && is_difference_of(p.weights[l as int].cells, weight_step@.cells, weight@.cells));
            biases.push(bias);
            weights.push(weight);
            l += 1;
        }
        proof {
            let r = parameters_of(biases@, weights@);
            assert(p.same_shapes(r));
            assert(is_descent_step(p, g@, rate, r));
            assert(r.wired());
            assert(is_batch_gradient(p, batch@, g@) && is_rate(
                learning_rate,
                batch@.len() as usize,
                rate,
            ) && is_descent_step(p, g@, rate, r));
        }
        self.biases = biases;
        self.weights = weights;
        Ok(())
    }
}

} // verus!
