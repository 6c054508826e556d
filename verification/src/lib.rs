//! A small dense numeric core for a feed-forward neural network that is
//! trained by mini-batch stochastic gradient descent.
//!
//! The containers and the network are generic over [`Scalar`], the numeric
//! element. The library never looks inside a scalar: every contract states
//! which scalar operations were applied to which values, so what is proved
//! holds for any implementation of the trait.
//!
//! - [`index`]: signed addressing, for all the containers.
//! - [`vector`] and [`matrix`]: the containers and their arithmetic.
//! - [`kernels`]: what the arithmetic computes, over plain sequences.
//! - [`network`]: parameters, forward pass, backpropagation and trainer.
//! - [`laws`]: what holds of the operations together.
//! - [`determinism`]: that the contracts leave nothing open but the scalars.

pub mod determinism;
pub mod error;
pub mod index;
pub mod kernels;
pub mod laws;
pub mod matrix;
pub mod network;
pub mod scalar;
pub mod utils;
pub mod vector;

pub use error::Error;
pub use matrix::{as_matrix, Matrix};
pub use network::{Data, Gradient, Network, Trace};
pub use scalar::{sigmoid, sigmoid_prime, Scalar};
pub use utils::{imax, shuffle};
pub use vector::{Vector, VectorUtils, VectorUtilsCopy, VectorUtilsMut};
