//! Helpers of the trainer.

use vstd::prelude::*;
use crate::kernels::{argmax, is_argmax};
use crate::scalar::Scalar;
use crate::vector::{Vector, VectorUtils};

verus! {

/// Reorders `data` at random, in place.
///
/// This is `rand::seq::SliceRandom::shuffle` on the slice, with the
/// generator that `rand::thread_rng` hands out. It is believed, not proved,
/// that the call only swaps items: the same items are there afterwards,
/// each as often as before. Which order comes out is left open. The
/// generator is seeded by the system when a thread first asks for it; the
/// call panics if that fails, whatever `data` holds.
#[verifier::external_body]
pub fn shuffle<T>(data: &mut [T])
    ensures
        final(data)@.len() == old(data)@.len(),
        final(data)@.to_multiset() == old(data)@.to_multiset(),
{
    rand::seq::SliceRandom::shuffle(data, &mut rand::thread_rng());
}

/// The place of the largest item of a vector, the first of them where
/// several are equal. The vector must have an item.
pub fn imax<T: Scalar>(data: &Vector<T>) -> (r: usize)
    requires
        data@.len() > 0,
    ensures
        is_argmax(data@, r as int),
{
    argmax(data.data())
}

} // verus!
