//! Epochs, and the score on test data.

use vstd::prelude::*;
use crate::error::Error;
use crate::kernels::is_argmax;
use crate::network::batch::{all_fit, fits, is_batch_update};
use crate::network::forward::{is_forward_trace, is_layer_step, is_output_of};
use crate::network::{Data, Network, Parameters};
use crate::scalar::Scalar;
use crate::utils::{imax, shuffle};

verus! {

/// The largest item of the network's output for the example stands at
/// place `i`, the largest item of the example's target at place `j`.
pub open spec fn is_verdict<T: Scalar>(p: Parameters<T>, example: Data<T>, i: int, j: int) -> bool {
    exists|out: Seq<T>| #[trigger]
        is_output_of(p, example.0@, out) && is_argmax(out, i) && is_argmax(example.1@, j)
}

/// `hit` says whether the network is right about the example: whether the
/// largest item of its output stands where the largest item of the target
/// stands.
pub open spec fn is_hit<T: Scalar>(p: Parameters<T>, example: Data<T>, hit: bool) -> bool {
    exists|i: int, j: int| #[trigger] is_verdict(p, example, i, j) && hit == (i == j)
}

/// How many of the `hits` are true.
pub open spec fn count_hits(hits: Seq<bool>) -> nat
    decreases hits.len(),
{
    if hits.len() == 0 {
        0
    } else {
        count_hits(hits.drop_last()) + if hits.last() {
            1nat
        } else {
            0nat
        }
    }
}

/// `hits[k]` says for each example `k` whether the network is right about
/// it.
pub open spec fn is_marking<T: Scalar>(p: Parameters<T>, data: Seq<Data<T>>, hits: Seq<bool>) -> bool {
    &&& hits.len() == data.len()
    &&& forall|k: int| 0 <= k < data.len() ==> is_hit(p, #[trigger] data[k], hits[k])
}

/// `count` is the number of examples that the network is right about.
pub open spec fn is_score<T: Scalar>(p: Parameters<T>, data: Seq<Data<T>>, count: int) -> bool {
    exists|hits: Seq<bool>| #[trigger] is_marking(p, data, hits) && count == count_hits(hits)
}

/// Where chunk `k` starts, when `len` examples are cut into consecutive
/// chunks of `size`: behind the last example, once there is no such chunk.
pub open spec fn chunk_start(len: int, size: int, k: int) -> int {
    if k * size <= len {
        k * size
    } else {
        len
    }
}

/// Chunk `k` of the examples. The last chunk is shorter than `size` where
/// `size` does not divide their number.
pub open spec fn chunk<T>(data: Seq<Data<T>>, size: int, k: int) -> Seq<Data<T>> {
    data.subrange(
        chunk_start(data.len() as int, size, k),
        chunk_start(data.len() as int, size, k + 1),
    )
}

/// `m` is the number of chunks: they reach the end, and one fewer would
/// not.
pub open spec fn is_chunk_count(len: int, size: int, m: int) -> bool {
    &&& m >= 0
    &&& chunk_start(len, size, m) == len
    &&& m > 0 ==> chunk_start(len, size, m - 1) < len
}

/// The mini-batch of chunk `k` makes `steps[k + 1]` of `steps[k]`.
pub open spec fn is_chunk_step<T: Scalar>(
    steps: Seq<Parameters<T>>,
    data: Seq<Data<T>>,
    size: int,
    learning_rate: T,
    k: int,
) -> bool {
    is_batch_update(steps[k], chunk(data, size, k), learning_rate, steps[k + 1])
}

/// `steps` holds the parameters before each mini-batch of an epoch over
/// `data`, and those after the last.
pub open spec fn is_epoch_trace<T: Scalar>(
    data: Seq<Data<T>>,
    size: int,
    learning_rate: T,
    steps: Seq<Parameters<T>>,
) -> bool {
    &&& steps.len() >= 1
    &&& is_chunk_count(data.len() as int, size, steps.len() - 1)
    &&& forall|k: int|
        0 <= k < steps.len() - 1 ==> #[trigger] is_chunk_step(steps, data, size, learning_rate, k)
}

/// `r` is what one epoch over `data`, in this order, makes of `p`: one
/// mini-batch for each chunk, one after the other.
pub open spec fn is_epoch<T: Scalar>(
    p: Parameters<T>,
    data: Seq<Data<T>>,
    size: int,
    learning_rate: T,
    r: Parameters<T>,
) -> bool {
    exists|steps: Seq<Parameters<T>>| #[trigger]
        is_epoch_trace(data, size, learning_rate, steps) && steps[0] == p && steps[steps.len()
            - 1] == r
}

/// Epoch `e` reorders the examples of the epoch before it and makes
/// `nets[e + 1]` of `nets[e]`.
pub open spec fn is_epoch_step<T: Scalar>(
    nets: Seq<Parameters<T>>,
    orders: Seq<Seq<Data<T>>>,
    size: int,
    learning_rate: T,
    e: int,
) -> bool {
    &&& orders[e + 1].len() == orders[e].len()
    &&& orders[e + 1].to_multiset() == orders[e].to_multiset()
    &&& is_epoch(nets[e], orders[e + 1], size, learning_rate, nets[e + 1])
}

/// `nets` holds the parameters before each of the `epochs` and those after
/// the last; `orders` holds the examples as they were given and, behind
/// that, as each epoch took them.
pub open spec fn is_training<T: Scalar>(
    p: Parameters<T>,
    data: Seq<Data<T>>,
    epochs: int,
    size: int,
    learning_rate: T,
    nets: Seq<Parameters<T>>,
    orders: Seq<Seq<Data<T>>>,
) -> bool {
    &&& nets.len() == epochs + 1
    &&& orders.len() == epochs + 1
    &&& nets[0] == p
    &&& orders[0] == data
    &&& forall|e: int| 0 <= e < epochs ==> #[trigger] is_epoch_step(nets, orders, size, learning_rate, e)
}

/// `reports` holds for each epoch the score on the test data after it,
/// where there are test data.
pub open spec fn is_reporting<T: Scalar>(
    nets: Seq<Parameters<T>>,
    test_data: Option<Seq<Data<T>>>,
    reports: Seq<Option<usize>>,
) -> bool {
    &&& reports.len() == nets.len() - 1
    &&& forall|e: int|
        0 <= e < reports.len() ==> match test_data {
            None => (#[trigger] reports[e]) is None,
            Some(data) => reports[e] is Some && is_score(
                nets[e + 1],
                data,
                reports[e].unwrap() as int,
            ),
        }
}

/// Examples that fit a network fit any network of the same shapes.
pub proof fn lemma_fit_same_shapes<T>(p: Parameters<T>, q: Parameters<T>, data: Seq<Data<T>>)
    requires
        p.wired(),
        p.same_shapes(q),
        all_fit(p, data),
    ensures
        all_fit(q, data),
{
    assert(q.weights[0].cols == p.weights[0].cols);
    assert(q.weights[q.depth() - 1].rows == p.weights[p.depth() - 1].rows);
    assert forall|k: int| 0 <= k < data.len() implies fits(q, #[trigger] data[k]) by {
        assert(fits(p, data[k]));
    }
}

/// Examples that fit a network fit it in any order.
pub proof fn lemma_fit_in_any_order<T>(p: Parameters<T>, data: Seq<Data<T>>, other: Seq<Data<T>>)
    requires
        all_fit(p, data),
        other.to_multiset() == data.to_multiset(),
    ensures
        all_fit(p, other),
{
    data.to_multiset_ensures();
    other.to_multiset_ensures();
    assert forall|k: int| 0 <= k < other.len() implies fits(p, #[trigger] other[k]) by {
        assert(other.contains(other[k]));
        assert(data.to_multiset().count(other[k]) > 0);
        assert(data.contains(other[k]));
        let m = choose|m: int| 0 <= m < data.len() && data[m] == other[k];
        assert(fits(p, data[m]));
    }
}

impl<T: Scalar> Network<T> {
    /// The number of examples that the network is right about: those for
    /// which the largest item of its output stands where the largest item
    /// of the target stands. Data with an example that does not fit the
    /// network are refused.
    pub fn evaluate(&self, test_data: &[Data<T>]) -> (r: Result<usize, Error>)
        ensures
            r is Err <==> !all_fit(self@, test_data@),
            r is Err ==> r == Err::<usize, Error>(Error::ShapeMismatch),
            r is Ok ==> is_score(self@, test_data@, r.unwrap() as int),
    {
        proof {
            use_type_invariant(self);
        }
        if !self.check_examples(test_data) {
            return Err(Error::ShapeMismatch);
        }
        let n = test_data.len();
        let ghost p = self@;
        let ghost hits: Seq<bool> = Seq::empty();
        let mut count: usize = 0;
        let mut k: usize = 0;
        while k < n
            invariant
                k <= n,
                n == test_data@.len(),
                p == self@,
                p.wired(),
                all_fit(p, test_data@),
                hits.len() == k,
                count == count_hits(hits),
                count <= k,
                forall|m: int| 0 <= m < k ==> is_hit(p, #[trigger] test_data@[m], hits[m]),
            decreases n - k,
        {
            assert(fits(p, test_data@[k as int]));
            let out = self.feedforward(&test_data[k].0).unwrap();
            proof {
                let (zs, acts) = choose|zs: Seq<Seq<T>>, acts: Seq<Seq<T>>| #[trigger]
                    is_forward_trace(p, test_data@[k as int].0@, zs, acts) && acts[p.depth()]
                        == out@;
                assert(is_layer_step(p, zs, acts, p.depth() - 1));
            }
            let i = imax(&out);
            let j = imax(&test_data[k].1);
            let hit = i == j;
            if hit {
                count += 1;
            }
            proof {
                let before = hits;
                hits = hits.push(hit);
                assert(hits.drop_last() =~= before);
                assert(is_output_of(p, test_data@[k as int].0@, out@) && is_argmax(out@, i as int)
                    && is_argmax(test_data@[k as int].1@, j as int));
                assert(is_verdict(p, test_data@[k as int], i as int, j as int));
                assert(is_hit(p, test_data@[k as int], hit));
            }
            k += 1;
        }
        assert(is_marking(p, test_data@, hits));
        Ok(count)
    }

    /// One epoch over the examples in the order in which they stand: a
    /// mini-batch for each chunk of `batch_size` examples, the last chunk
    /// as short as it comes.
    ///
    /// A batch size of zero is refused as no topology; data with an example
    /// that does not fit the network are refused as a mismatch of shapes. A
    /// refused call changes nothing.
    pub fn train_epoch(&mut self, batch_size: usize, learning_rate: T, data: &[Data<T>]) -> (r:
        Result<(), Error>)
        ensures
            batch_size == 0 <==> r == Err::<(), Error>(Error::InvalidTopology),
            batch_size > 0 && !all_fit(old(self)@, data@) <==> r == Err::<(), Error>(
                Error::ShapeMismatch,
            ),
            r is Err ==> final(self)@ == old(self)@ && (batch_size == 0 || !all_fit(
                old(self)@,
                data@,
            )),
            r is Ok ==> is_epoch(old(self)@, data@, batch_size as int, learning_rate, final(self)@),
            old(self)@.same_shapes(final(self)@),
    {
        proof {
            use_type_invariant(&*self);
        }
        if batch_size == 0 {
            return Err(Error::InvalidTopology);
        }
        if !self.check_examples(data) {
            return Err(Error::ShapeMismatch);
        }
        let len = data.len();
        let ghost first = self@;
        let ghost steps: Seq<Parameters<T>> = seq![self@];
        let ghost k: int = 0;
        let mut start: usize = 0;
        assert(0 * batch_size == 0) by (nonlinear_arith);
        while start < len
            invariant
                start <= len,
                len == data@.len(),
                batch_size > 0,
                k >= 0,
                start == chunk_start(len as int, batch_size as int, k),
                k > 0 ==> chunk_start(len as int, batch_size as int, k - 1) < len,
                steps.len() == k + 1,
                steps[0] == first,
                steps[k] == self@,
                first.wired(),
                first.same_shapes(self@),
                all_fit(first, data@),
                forall|m: int|
                    0 <= m < k ==> #[trigger] is_chunk_step(
                        steps,
                        data@,
                        batch_size as int,
                        learning_rate,
                        m,
                    ),
            decreases len - start,
        {
            let end = if len - start < batch_size {
                len
            } else {
                start + batch_size
            };
            proof {
                assert((k + 1) * batch_size == k * batch_size + batch_size) by (nonlinear_arith);
                assert(end == chunk_start(len as int, batch_size as int, k + 1));
            }
            let batch = &data[start..end];
            let ghost before = self@;
            proof {
                assert(batch@ == chunk(data@, batch_size as int, k));
                lemma_fit_same_shapes(first, before, data@);
                assert forall|m: int| 0 <= m < batch@.len() implies fits(
                    before,
                    #[trigger] batch@[m],
                ) by {
                    assert(fits(before, data@[start + m]));
                }
            }
            let done = self.train_batch(learning_rate, batch);
            assert(done is Ok);
            proof {
                let earlier = steps;
                steps = steps.push(self@);
                assert forall|m: int| 0 <= m < k + 1 implies #[trigger] is_chunk_step(
                    steps,
                    data@,
                    batch_size as int,
                    learning_rate,
                    m,
                ) by {
                    if m < k {
                        assert(is_chunk_step(earlier, data@, batch_size as int, learning_rate, m));
                        assert(steps[m] == earlier[m] && steps[m + 1] == earlier[m + 1]);
                    }
                }
                k = k + 1;
            }
            start = end;
        }
        proof {
            assert(is_epoch_trace(data@, batch_size as int, learning_rate, steps));
        }
        Ok(())
    }

    /// Trains the network: in each epoch the training examples are
    /// reordered at random and taken in mini-batches of `batch_size`, and
    /// where there are test data the network is scored on them afterwards.
    /// The scores come back, one for each epoch.
    ///
    /// A batch size of zero is refused as no topology; data with an example
    /// that does not fit the network are refused as a mismatch of shapes. A
    /// refused call changes nothing.
    pub fn train(
        &mut self,
        epochs: usize,
        batch_size: usize,
        learning_rate: T,
        training_data: &mut [Data<T>],
        test_data: Option<&[Data<T>]>,
    ) -> (r: Result<Vec<Option<usize>>, Error>)
        ensures
            batch_size == 0 <==> r == Err::<Vec<Option<usize>>, Error>(Error::InvalidTopology),
            batch_size > 0 && !(all_fit(old(self)@, old(training_data)@) && (test_data is Some
                ==> all_fit(old(self)@, test_data.unwrap()@))) <==> r == Err::<
                Vec<Option<usize>>,
                Error,
            >(Error::ShapeMismatch),
            r is Err ==> final(self)@ == old(self)@ && final(training_data)@ == old(
                training_data,
            )@ && (r == Err::<Vec<Option<usize>>, Error>(Error::InvalidTopology) || r == Err::<
                Vec<Option<usize>>,
                Error,
            >(Error::ShapeMismatch)),
            r is Ok ==> exists|nets: Seq<Parameters<T>>, orders: Seq<Seq<Data<T>>>|
                {
                    &&& #[trigger] is_training(
                        old(self)@,
                        old(training_data)@,
                        epochs as int,
                        batch_size as int,
                        learning_rate,
                        nets,
                        orders,
                    )
                    &&& nets[epochs as int] == final(self)@
                    &&& orders[epochs as int] == final(training_data)@
                    &&& is_reporting(
                        nets,
                        match test_data {
                            Some(data) => Some(data@),
                            None => None,
                        },
                        r.unwrap()@,
                    )
                },
    {
        proof {
            use_type_invariant(&*self);
        }
        if batch_size == 0 {
            return Err(Error::InvalidTopology);
        }
        if !self.check_examples(training_data) {
            return Err(Error::ShapeMismatch);
        }
        match test_data {
            Some(data) => {
                if !self.check_examples(data) {
                    return Err(Error::ShapeMismatch);
                }
            },
            None => {},
        }
        let ghost first = self@;
        let ghost given = training_data@;
        let ghost tests: Option<Seq<Data<T>>> = match test_data {
            Some(data) => Some(data@),
            None => None,
        };
        let ghost nets: Seq<Parameters<T>> = seq![self@];
        let ghost orders: Seq<Seq<Data<T>>> = seq![training_data@];
        let mut reports: Vec<Option<usize>> = Vec::new();
        let mut e: usize = 0;
        while e < epochs
            invariant
                e <= epochs,
                batch_size > 0,
                first.wired(),
                first.same_shapes(self@),
                all_fit(first, training_data@),
                test_data is Some ==> all_fit(first, test_data.unwrap()@),
                tests == match test_data {
                    Some(data) => Some(data@),
                    None => None,
                },
                is_training(first, given, e as int, batch_size as int, learning_rate, nets, orders),
                nets[e as int] == self@,
                orders[e as int] == training_data@,
                is_reporting(nets, tests, reports@),
            decreases epochs - e,
        {
            let ghost nets_before = nets;
            let ghost orders_before = orders;
            let ghost reports_before = reports@;
            let ghost order_before = training_data@;
            let ghost net_before = self@;
            shuffle(training_data);
            proof {
                lemma_fit_in_any_order(first, order_before, training_data@);
                lemma_fit_same_shapes(first, net_before, training_data@);
            }
            let done = self.train_epoch(batch_size, learning_rate, training_data);
            assert(done is Ok);
            let report = match test_data {
                Some(data) => {
                    proof {
                        lemma_fit_same_shapes(first, self@, data@);
                    }
                    Some(self.evaluate(data).unwrap())
                },
                None => None,
            };
            reports.push(report);
            proof {
                nets = nets.push(self@);
                orders = orders.push(training_data@);
                assert(is_epoch_step(nets, orders, batch_size as int, learning_rate, e as int));
                assert forall|m: int| 0 <= m < e + 1 implies #[trigger] is_epoch_step(
                    nets,
                    orders,
                    batch_size as int,
                    learning_rate,
                    m,
                ) by {
                    if m < e {
                        assert(is_epoch_step(
                            nets_before,
                            orders_before,
                            batch_size as int,
                            learning_rate,
                            m,
                        ));
                        assert(nets[m] == nets_before[m] && nets[m + 1] == nets_before[m + 1]);
                        assert(orders[m] == orders_before[m] && orders[m + 1] == orders_before[m
                            + 1]);
                    }
                }
                assert forall|m: int| 0 <= m < reports@.len() implies match tests {
                    None => (#[trigger] reports@[m]) is None,
                    Some(data) => reports@[m] is Some && is_score(
                        nets[m + 1],
                        data,
                        reports@[m].unwrap() as int,
                    ),
                } by {
                    if m < e {
                        assert(reports@[m] == reports_before[m]);
                        assert(nets[m + 1] == nets_before[m + 1]);
                    }
                }
                assert(first.same_shapes(self@));
            }
            e += 1;
        }
        Ok(reports)
    }
}

} // verus!
