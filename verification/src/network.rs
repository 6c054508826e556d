//! The network and its parameters. The forward pass, backpropagation, the
//! mini-batch update and the trainer each have a file of their own.

use vstd::prelude::*;
use crate::error::Error;
use crate::matrix::{Grid, Matrix};
use crate::vector::{Vector, VectorUtils};

pub mod backward;
pub mod batch;
pub mod forward;
pub mod trainer;

pub use backward::Gradient;
pub use forward::Trace;

verus! {

/// One training example: an input and the output wanted for it.
pub type Data<T> = (Vector<T>, Vector<T>);

/// What a network is to its contracts: for each layer behind the input
/// layer a bias vector and a weight matrix. Gradients have the same form.
pub struct Parameters<T> {
    pub biases: Seq<Seq<T>>,
    pub weights: Seq<Grid<T>>,
}

impl<T> Parameters<T> {
    /// The number of weight layers.
    pub open spec fn depth(self) -> int {
        self.weights.len() as int
    }

    /// There is a weight layer, no layer is empty, each bias vector has one
    /// item for each row of its weight matrix, and each weight matrix has
    /// one column for each row of the matrix before it.
    pub open spec fn wired(self) -> bool {
        &&& self.weights.len() >= 1
        &&& self.biases.len() == self.weights.len()
        &&& forall|l: int|
            0 <= l < self.depth() ==> {
                &&& (#[trigger] self.weights[l]).well_formed()
                &&& self.weights[l].rows > 0
                &&& self.weights[l].cols > 0
                &&& self.biases[l].len() == self.weights[l].rows
            }
        &&& forall|l: int|
            1 <= l < self.depth() ==> (#[trigger] self.weights[l]).cols == self.weights[l - 1].rows
    }

    /// The number of units of layer `l`, the input layer being layer `0`.
    pub open spec fn size(self, l: int) -> int {
        if l == 0 {
            self.weights[0].cols
        } else {
            self.weights[l - 1].rows
        }
    }

    /// The number of units of the input layer.
    pub open spec fn input_size(self) -> int {
        self.weights[0].cols
    }

    /// The number of units of the output layer.
    pub open spec fn output_size(self) -> int {
        self.weights[self.depth() - 1].rows
    }

    /// `other` has as many layers, and the same shapes in each.
    pub open spec fn same_shapes(self, other: Self) -> bool {
        &&& other.weights.len() == self.weights.len()
        &&& other.biases.len() == self.biases.len()
        &&& forall|l: int|
            0 <= l < self.biases.len() ==> (#[trigger] other.biases[l]).len()
                == self.biases[l].len()
        &&& forall|l: int|
            0 <= l < self.weights.len() ==> {
                &&& (#[trigger] other.weights[l]).rows == self.weights[l].rows
                &&& other.weights[l].cols == self.weights[l].cols
                &&& other.weights[l].cells.len() == self.weights[l].cells.len()
            }
    }

    /// Every bias and every weight meets `holds`.
    pub open spec fn all(self, holds: spec_fn(T) -> bool) -> bool {
        &&& forall|l: int, i: int|
            0 <= l < self.biases.len() && 0 <= i < self.biases[l].len() ==> holds(
                #[trigger] self.biases[l][i],
            )
        &&& forall|l: int, k: int|
            0 <= l < self.weights.len() && 0 <= k < self.weights[l].cells.len() ==> holds(
                #[trigger] self.weights[l].cells[k],
            )
    }
}

/// The parameters that a run of bias vectors and a run of weight matrices
/// stand for.
pub open spec fn parameters_of<T>(biases: Seq<Vector<T>>, weights: Seq<Matrix<T>>) -> Parameters<T> {
    Parameters {
        biases: Seq::new(biases.len(), |l: int| biases[l]@),
        weights: Seq::new(weights.len(), |l: int| weights[l]@),
    }
}

/// Some layer of the parameters has no row or no column.
pub open spec fn has_empty_layer<T>(p: Parameters<T>) -> bool {
    exists|l: int|
        0 <= l < p.weights.len() && ((#[trigger] p.weights[l]).rows == 0 || p.weights[l].cols == 0)
}

/// Some bias vector does not fit its weight matrix, or some weight matrix
/// does not fit the one before it.
pub open spec fn has_loose_layer<T>(p: Parameters<T>) -> bool {
    ||| exists|l: int|
        0 <= l < p.weights.len() && (#[trigger] p.biases[l]).len() != p.weights[l].rows
    ||| exists|l: int|
        1 <= l < p.weights.len() && (#[trigger] p.weights[l]).cols != p.weights[l - 1].rows
}

/// Why parameters cannot make a network, if they cannot: the first of the
/// faults, in the order in which they are looked for. No weight layer, or
/// more of them than the machine can count, is the first.
pub open spec fn wiring_fault<T>(p: Parameters<T>) -> Option<Error> {
    if p.weights.len() == 0 || p.weights.len() >= usize::MAX {
        Some(Error::InvalidTopology)
    } else if p.biases.len() != p.weights.len() {
        Some(Error::ShapeMismatch)
    } else if has_empty_layer(p) {
        Some(Error::InvalidShape)
    } else if has_loose_layer(p) {
        Some(Error::ShapeMismatch)
    } else {
        None
    }
}

/// Every layer has a unit and no more units than a signed index can count,
/// and so has every weight matrix cells.
pub open spec fn sizes_fit(layers: Seq<usize>) -> bool {
    &&& forall|l: int| 0 <= l < layers.len() ==> 0 < #[trigger] layers[l] <= isize::MAX
    &&& forall|l: int|
        1 <= l < layers.len() ==> (#[trigger] layers[l]) * layers[l - 1] <= isize::MAX
}

/// A feed-forward network of fully connected layers.
#[derive(Debug, PartialEq)]
pub struct Network<T> {
    nlayers: usize,
    biases: Vec<Vector<T>>,
    weights: Vec<Matrix<T>>,
}

impl<T> View for Network<T> {
    type V = Parameters<T>;

    closed spec fn view(&self) -> Parameters<T> {
        parameters_of(self.biases@, self.weights@)
    }
}

impl<T> Network<T> {
    /// The layers are wired to one another and counted.
    #[verifier::type_invariant]
    spec fn sound(self) -> bool {
        &&& self@.wired()
        &&& self.nlayers == self.weights@.len() + 1
    }

    /// The number of layers, the input layer counted.
    pub fn nlayers(&self) -> (r: usize)
        ensures
            r == self@.depth() + 1,
            self@.wired(),
    {
        proof {
            use_type_invariant(self);
        }
        self.nlayers
    }

    /// The bias vectors, one for each layer behind the input layer.
    pub fn biases(&self) -> (r: &Vec<Vector<T>>)
        ensures
            r@.len() == self@.biases.len(),
            forall|l: int| 0 <= l < r@.len() ==> (#[trigger] r@[l])@ == self@.biases[l],
            self@.wired(),
    {
        proof {
            use_type_invariant(self);
        }
        &self.biases
    }

    /// The weight matrices, one for each layer behind the input layer.
    pub fn weights(&self) -> (r: &Vec<Matrix<T>>)
        ensures
            r@.len() == self@.weights.len(),
            forall|l: int| 0 <= l < r@.len() ==> (#[trigger] r@[l])@ == self@.weights[l],
            self@.wired(),
    {
        proof {
            use_type_invariant(self);
        }
        &self.weights
    }

    /// The network with the given parameters, where they can make one.
    pub fn from_parameters(biases: Vec<Vector<T>>, weights: Vec<Matrix<T>>) -> (r: Result<
        Self,
        Error,
    >)
        ensures
            match wiring_fault(parameters_of(biases@, weights@)) {
                Some(e) => r == Err::<Self, Error>(e),
                None => r is Ok && r.unwrap()@ == parameters_of(biases@, weights@),
            },
    {
        let ghost p = parameters_of(biases@, weights@);
        let n = weights.len();
        if n == 0 || n == usize::MAX {
            return Err(Error::InvalidTopology);
        }
        if biases.len() != n {
            return Err(Error::ShapeMismatch);
        }
        let mut l: usize = 0;
        while l < n
            invariant
                l <= n,
                0 < n < usize::MAX,
                n == weights@.len(),
                n == biases@.len(),
                p == parameters_of(biases@, weights@),
                forall|k: int|
                    0 <= k < l ==> (#[trigger] p.weights[k]).rows > 0 && p.weights[k].cols > 0
                        && p.weights[k].well_formed(),
            decreases n - l,
        {
            let shape = weights[l].shape();
            if shape.0 == 0 || shape.1 == 0 {
                assert(p.weights[l as int].rows == 0 || p.weights[l as int].cols == 0);
                return Err(Error::InvalidShape);
            }
            l += 1;
        }
        assert(!has_empty_layer(p));
        let mut l: usize = 0;
        while l < n
            invariant
                l <= n,
                0 < n < usize::MAX,
                n == weights@.len(),
                n == biases@.len(),
                p == parameters_of(biases@, weights@),
                !has_empty_layer(p),
                forall|k: int| 0 <= k < n ==> (#[trigger] p.weights[k]).well_formed(),
                forall|k: int| 0 <= k < l ==> (#[trigger] p.biases[k]).len() == p.weights[k].rows,
                forall|k: int|
                    1 <= k < l ==> (#[trigger] p.weights[k]).cols == p.weights[k - 1].rows,
            decreases n - l,
        {
            let shape = weights[l].shape();
            if biases[l].len() != shape.0 {
                assert(p.biases[l as int].len() != p.weights[l as int].rows);
                return Err(Error::ShapeMismatch);
            }
            if l > 0 {
                let before = weights[l - 1].shape();
                if shape.1 != before.0 {
                    assert(p.weights[l as int].cols != p.weights[l - 1].rows);
                    return Err(Error::ShapeMismatch);
                }
            }
            l += 1;
        }
        assert(!has_loose_layer(p));
        Ok(Network { nlayers: n + 1, biases, weights })
    }
}

impl<T> Network<T> {
    /// Whether every layer size is in order, as `sizes_fit` says.
    fn check_sizes(layers: &[usize]) -> (r: bool)
        ensures
            r == sizes_fit(layers@),
    {
        let n = layers.len();
        let mut l: usize = 0;
        while l < n
            invariant
                l <= n,
                n == layers@.len(),
                forall|k: int| 0 <= k < l ==> 0 < #[trigger] layers@[k] <= isize::MAX,
                forall|k: int|
                    1 <= k < l ==> (#[trigger] layers@[k]) * layers@[k - 1] <= isize::MAX,
            decreases n - l,
        {
            if layers[l] == 0 || layers[l] > isize::MAX as usize {
                return false;
            }
            if l > 0 {
                match layers[l].checked_mul(layers[l - 1]) {
                    Some(count) => {
                        if count > isize::MAX as usize {
                            return false;
                        }
                    },
                    None => {
                        return false;
                    },
                }
            }
            l += 1;
        }
        true
    }

    /// The network of the given layer sizes, the input layer first, with
    /// every bias and every weight drawn by a call of `draw`: first the
    /// biases, layer by layer, then the weights.
    ///
    /// A list of fewer than two layers is refused as no topology; a layer
    /// without a unit is refused as no shape, and so is one that makes a
    /// vector or a matrix larger than a signed index can count.
    pub fn new<F: Fn() -> T>(layers: &[usize], draw: F) -> (r: Result<Self, Error>)
        requires
            draw.requires(()),
        ensures
            layers@.len() < 2 <==> r == Err::<Self, Error>(Error::InvalidTopology),
            layers@.len() >= 2 && !sizes_fit(layers@) <==> r == Err::<Self, Error>(
                Error::InvalidShape,
            ),
            r is Err ==> layers@.len() < 2 || !sizes_fit(layers@),
            r is Ok ==> {
                &&& r.unwrap()@.wired()
                &&& r.unwrap()@.depth() == layers@.len() - 1
                &&& forall|l: int|
                    0 <= l < layers@.len() ==> r.unwrap()@.size(l) == #[trigger] layers@[l]
                &&& r.unwrap()@.all(|v: T| draw.ensures((), v))
            },
    {
        let n = layers.len();
        if n < 2 {
            return Err(Error::InvalidTopology);
        }
        if !Self::check_sizes(layers) {
            return Err(Error::InvalidShape);
        }
        let mut biases: Vec<Vector<T>> = Vec::new();
        let mut l: usize = 1;
        while l < n
            invariant
                1 <= l <= n,
                n == layers@.len(),
                sizes_fit(layers@),
                draw.requires(()),
                biases@.len() == l - 1,
                forall|k: int|
                    0 <= k < l - 1 ==> (#[trigger] biases@[k])@.len() == layers@[k + 1],
                forall|k: int, i: int|
                    0 <= k < l - 1 && 0 <= i < biases@[k]@.len() ==> draw.ensures(
                        (),
                        #[trigger] biases@[k]@[i],
                    ),
            decreases n - l,
        {
            let source = &draw;
            let f = |i: isize| -> (v: T)
                ensures
                    source.ensures((), v),
                { source() };
            let bias = Vector::from_fn(layers[l] as isize, f).unwrap();
            biases.push(bias);
            l += 1;
        }
        let mut weights: Vec<Matrix<T>> = Vec::new();
        let mut l: usize = 1;
        while l < n
            invariant
                1 <= l <= n,
                n == layers@.len(),
                sizes_fit(layers@),
                draw.requires(()),
                weights@.len() == l - 1,
                forall|k: int|
                    0 <= k < l - 1 ==> {
                        &&& (#[trigger] weights@[k])@.well_formed()
                        &&& weights@[k]@.rows == layers@[k + 1]
                        &&& weights@[k]@.cols == layers@[k]
                    },
                forall|k: int, c: int|
                    0 <= k < l - 1 && 0 <= c < weights@[k]@.cells.len() ==> draw.ensures(
                        (),
                        #[trigger] weights@[k]@.cells[c],
                    ),
            decreases n - l,
        {
            let source = &draw;
            let f = |k: isize| -> (v: T)
                ensures
                    source.ensures((), v),
                { source() };
            let weight = Matrix::from_fn((layers[l] as isize, layers[l - 1] as isize), f).unwrap();
            weights.push(weight);
            l += 1;
        }
        let net = Network { nlayers: n, biases, weights };
        proof {
            let p = net@;
            assert(p.wired());
            assert forall|l: int| 0 <= l < layers@.len() implies p.size(l) == #[trigger] layers@[l] by {
                if l > 0 {
                    assert(p.weights[l - 1] == net.weights@[l - 1]@);
                } else {
                    assert(p.weights[0] == net.weights@[0]@);
                }
            }
            assert(p.all(|v: T| draw.ensures((), v)));
        }
        Ok(net)
    }
}

impl<T: Copy> Clone for Network<T> {
    /// An independent copy with the same parameters.
    fn clone(&self) -> (r: Self)
        ensures
            r@ == self@,
    {
        proof {
            use_type_invariant(self);
        }
        let n = self.weights.len();
        let mut biases: Vec<Vector<T>> = Vec::new();
        let mut weights: Vec<Matrix<T>> = Vec::new();
        let mut l: usize = 0;
        while l < n
            invariant
                l <= n,
                n == self.weights@.len(),
                n == self.biases@.len(),
                biases@.len() == l,
                weights@.len() == l,
                forall|k: int| 0 <= k < l ==> (#[trigger] biases@[k])@ == self.biases@[k]@,
                forall|k: int| 0 <= k < l ==> (#[trigger] weights@[k])@ == self.weights@[k]@,
            decreases n - l,
        {
            biases.push(self.biases[l].clone());
            weights.push(self.weights[l].clone());
            l += 1;
        }
        assert(parameters_of(biases@, weights@).biases =~= self@.biases);
        assert(parameters_of(biases@, weights@).weights =~= self@.weights);
        Network { nlayers: self.nlayers, biases, weights }
    }
}

} // verus!
