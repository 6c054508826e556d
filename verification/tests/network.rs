use neural_net::{
    sigmoid, sigmoid_prime, Data, Error, Gradient, Matrix, Network, Scalar, Vector,
};
use std::cell::Cell;

#[derive(Clone, Copy, Debug, PartialEq)]
struct Real(f64);

impl Scalar for Real {
    fn zero() -> Self {
        Real(0.0)
    }
    fn one() -> Self {
        Real(1.0)
    }
    fn from_count(n: usize) -> Self {
        Real(n as f64)
    }
    fn plus(self, rhs: Self) -> Self {
        Real(self.0 + rhs.0)
    }
    fn minus(self, rhs: Self) -> Self {
        Real(self.0 - rhs.0)
    }
    fn times(self, rhs: Self) -> Self {
        Real(self.0 * rhs.0)
    }
    fn over(self, rhs: Self) -> Self {
        Real(self.0 / rhs.0)
    }
    fn negated(self) -> Self {
        Real(-self.0)
    }
    fn exp(self) -> Self {
        Real(self.0.exp())
    }
    fn exceeds(self, rhs: Self) -> bool {
        self.0 > rhs.0
    }
}

fn reals(values: &[f64]) -> Vector<Real> {
    Vector::from_vec(values.iter().map(|&x| Real(x)).collect())
}

/// A matrix from its store, which runs column by column.
fn grid(rows: isize, cols: isize, values: &[f64]) -> Matrix<Real> {
    Matrix::from_vec((rows, cols), values.iter().map(|&x| Real(x)).collect()).unwrap()
}

/// Sizes `[2, 3, 1]`.
fn small_net() -> Network<Real> {
    Network::from_parameters(
        vec![reals(&[0.1, -0.2, 0.3]), reals(&[0.05])],
        vec![
            grid(3, 2, &[0.2, -0.4, 0.6, 0.1, 0.3, -0.5]),
            grid(1, 3, &[0.7, -0.8, 0.9]),
        ],
    )
    .unwrap()
}

/// Sizes `[2, 2, 1]`.
fn square_net() -> Network<Real> {
    Network::from_parameters(
        vec![reals(&[0.1, -0.1]), reals(&[0.2])],
        vec![grid(2, 2, &[0.5, -0.25, 0.75, 1.0]), grid(1, 2, &[-0.5, 0.5])],
    )
    .unwrap()
}

/// Sizes `[1, 1]`, all parameters zero.
fn tiny_net() -> Network<Real> {
    Network::from_parameters(vec![reals(&[0.0])], vec![grid(1, 1, &[0.0])]).unwrap()
}

fn tiny_example() -> Data<Real> {
    (reals(&[1.0]), reals(&[1.0]))
}

fn two_examples() -> Vec<Data<Real>> {
    vec![(reals(&[0.4, -0.9]), reals(&[1.0])), (reals(&[-0.3, 0.8]), reals(&[0.0]))]
}

fn loss(net: &Network<Real>, x: &Vector<Real>, y: &Vector<Real>) -> f64 {
    let out = net.feedforward(x).unwrap().into_vec();
    let y = y.clone().into_vec();
    out.iter().zip(y.iter()).map(|(a, b)| 0.5 * (a.0 - b.0) * (a.0 - b.0)).sum()
}

fn with_cell(net: &Network<Real>, weights: bool, l: usize, k: usize, to: f64) -> Network<Real> {
    let mut bs: Vec<Vec<Real>> = net.biases().iter().map(|b| b.clone().into_vec()).collect();
    let mut ws: Vec<Vec<Real>> = net.weights().iter().map(|w| w.data().to_vec()).collect();
    if weights {
        ws[l][k] = Real(to);
    } else {
        bs[l][k] = Real(to);
    }
    let shapes: Vec<(isize, isize)> = net.weights().iter().map(|w| w.shape()).collect();
    Network::from_parameters(
        bs.into_iter().map(Vector::from_vec).collect(),
        ws.into_iter().zip(shapes).map(|(w, s)| Matrix::from_vec(s, w).unwrap()).collect(),
    )
    .unwrap()
}

#[test]
fn sigmoid_values() {
    assert_eq!(sigmoid(Real(0.0)), Real(0.5));
    assert_eq!(sigmoid(Real(1000.0)), Real(1.0));
    assert_eq!(sigmoid(Real(-1000.0)), Real(0.0));
    assert_eq!(sigmoid(Real(2.0)), Real(1.0 / (1.0 + (-2.0f64).exp())));
}

#[test]
fn sigmoid_prime_values() {
    assert_eq!(sigmoid_prime(Real(0.0)), Real(0.25));
    assert_eq!(sigmoid_prime(Real(1000.0)), Real(0.0));
    let s = 1.0 / (1.0 + (-2.0f64).exp());
    assert_eq!(sigmoid_prime(Real(2.0)), Real(s * (1.0 - s)));
}

#[test]
fn new_draws_biases_first_and_then_weights() {
    let next = Cell::new(0.0);
    let net = Network::new(&[2, 3, 1], || {
        next.set(next.get() + 1.0);
        Real(next.get())
    })
    .unwrap();
    assert_eq!(net.nlayers(), 3);
    assert_eq!(net.biases().len(), 2);
    assert_eq!(net.weights().len(), 2);
    assert_eq!(net.biases()[0], reals(&[1.0, 2.0, 3.0]));
    assert_eq!(net.biases()[1], reals(&[4.0]));
    assert_eq!(net.weights()[0], grid(3, 2, &[5.0, 6.0, 7.0, 8.0, 9.0, 10.0]));
    assert_eq!(net.weights()[1], grid(1, 3, &[11.0, 12.0, 13.0]));
}

#[test]
fn a_network_needs_a_weight_layer() {
    assert_eq!(Network::new(&[], || Real(0.0)), Err(Error::InvalidTopology));
    assert_eq!(Network::new(&[3], || Real(0.0)), Err(Error::InvalidTopology));
    assert_eq!(Network::<Real>::from_parameters(vec![], vec![]), Err(Error::InvalidTopology));
}

#[test]
fn a_layer_needs_a_unit() {
    assert_eq!(Network::new(&[2, 0, 1], || Real(0.0)), Err(Error::InvalidShape));
    assert_eq!(Network::new(&[0, 1], || Real(0.0)), Err(Error::InvalidShape));
    assert_eq!(Network::new(&[2, usize::MAX], || Real(0.0)), Err(Error::InvalidShape));
    assert_eq!(
        Network::from_parameters(vec![reals(&[])], vec![grid(0, 2, &[])]),
        Err(Error::InvalidShape)
    );
}

#[test]
fn parameters_must_fit_one_another() {
    assert_eq!(
        Network::from_parameters(vec![reals(&[0.0, 0.0])], vec![grid(3, 2, &[0.0; 6])]),
        Err(Error::ShapeMismatch)
    );
    assert_eq!(
        Network::from_parameters(vec![], vec![grid(3, 2, &[0.0; 6])]),
        Err(Error::ShapeMismatch)
    );
    assert_eq!(
        Network::from_parameters(
            vec![reals(&[0.0, 0.0, 0.0]), reals(&[0.0])],
            vec![grid(3, 2, &[0.0; 6]), grid(1, 2, &[0.0; 2])],
        ),
        Err(Error::ShapeMismatch)
    );
}

#[test]
fn zero_network_outputs_one_half() {
    let net = Network::from_parameters(
        vec![reals(&[0.0, 0.0, 0.0])],
        vec![grid(3, 2, &[0.0; 6])],
    )
    .unwrap();
    assert_eq!(net.feedforward(&reals(&[3.5, -7.25])), Ok(reals(&[0.5, 0.5, 0.5])));
    assert_eq!(net.feedforward(&reals(&[0.0, 0.0])), Ok(reals(&[0.5, 0.5, 0.5])));
    assert_eq!(net.feedforward(&reals(&[-1e300, 1e300])), Ok(reals(&[0.5, 0.5, 0.5])));
}

#[test]
fn feedforward_applies_each_layer() {
    let net = Network::from_parameters(
        vec![reals(&[1.0, -1.0])],
        vec![grid(2, 2, &[1.0, 0.0, 2.0, -1.0])],
    )
    .unwrap();
    // z = [1*3 + 2*(-2) + 1, 0*3 + (-1)*(-2) - 1] = [0, 1]
    let out = net.feedforward(&reals(&[3.0, -2.0])).unwrap();
    assert_eq!(out, reals(&[0.5, 1.0 / (1.0 + (-1.0f64).exp())]));
}

#[test]
fn trace_keeps_every_layer() {
    let net = small_net();
    let x = reals(&[0.4, -0.9]);
    let trace = net.trace(&x).unwrap();
    assert_eq!(trace.zs.len(), 2);
    assert_eq!(trace.activations.len(), 3);
    assert_eq!(trace.activations[0], x);
    assert_eq!(trace.zs[0].clone().into_vec().len(), 3);
    assert_eq!(trace.activations[2], net.feedforward(&x).unwrap());
    let squashed: Vec<Real> = trace.zs[0].clone().into_vec().into_iter().map(sigmoid).collect();
    assert_eq!(trace.activations[1], Vector::from_vec(squashed));
}

#[test]
fn wrong_input_is_refused() {
    let net = small_net();
    assert_eq!(net.feedforward(&reals(&[1.0])), Err(Error::ShapeMismatch));
    assert_eq!(net.trace(&reals(&[1.0, 2.0, 3.0])), Err(Error::ShapeMismatch));
    assert_eq!(net.backpropagate(&reals(&[1.0]), &reals(&[1.0])), Err(Error::ShapeMismatch));
    assert_eq!(
        net.backpropagate(&reals(&[1.0, 2.0]), &reals(&[1.0, 0.0])),
        Err(Error::ShapeMismatch)
    );
}

#[test]
fn gradient_of_the_smallest_network() {
    let net = tiny_net();
    let (x, y) = tiny_example();
    let g = net.backpropagate(&x, &y).unwrap();
    // z = 0, a = 0.5, delta = (0.5 - 1) * 0.25
    assert_eq!(g, Gradient { biases: vec![reals(&[-0.125])], weights: vec![grid(1, 1, &[-0.125])] });
}

#[test]
fn gradient_has_the_shapes_of_the_parameters() {
    let net = small_net();
    let g = net.backpropagate(&reals(&[0.4, -0.9]), &reals(&[1.0])).unwrap();
    assert_eq!(g.biases.len(), 2);
    assert_eq!(g.weights.len(), 2);
    assert_eq!(g.weights[0].shape(), (3, 2));
    assert_eq!(g.weights[1].shape(), (1, 3));
    assert_eq!(g.biases[0].clone().into_vec().len(), 3);
    assert_eq!(g.biases[1].clone().into_vec().len(), 1);
}

#[test]
fn gradient_matches_finite_differences() {
    let net = small_net();
    let x = reals(&[0.4, -0.9]);
    let y = reals(&[1.0]);
    let g = net.backpropagate(&x, &y).unwrap();
    let eps = 1e-6;
    let base = loss(&net, &x, &y);
    for l in 0..2 {
        let cells = net.weights()[l].data().to_vec();
        for k in 0..cells.len() {
            let moved = with_cell(&net, true, l, k, cells[k].0 + eps);
            let numeric = (loss(&moved, &x, &y) - base) / eps;
            let analytic = g.weights[l].data()[k].0;
            assert!((numeric - analytic).abs() < 1e-5);
        }
        let items = net.biases()[l].clone().into_vec();
        for k in 0..items.len() {
            let moved = with_cell(&net, false, l, k, items[k].0 + eps);
            let numeric = (loss(&moved, &x, &y) - base) / eps;
            let analytic = g.biases[l].clone().into_vec()[k].0;
            assert!((numeric - analytic).abs() < 1e-5);
        }
    }
}

#[test]
fn single_layer_gradient_matches_finite_differences() {
    let net = Network::from_parameters(
        vec![reals(&[0.3, -0.1])],
        vec![grid(2, 2, &[0.5, -0.25, 0.75, 1.0])],
    )
    .unwrap();
    let x = reals(&[0.2, 0.7]);
    let y = reals(&[0.0, 1.0]);
    let g = net.backpropagate(&x, &y).unwrap();
    let eps = 1e-6;
    let base = loss(&net, &x, &y);
    let cells = net.weights()[0].data().to_vec();
    for k in 0..cells.len() {
        let moved = with_cell(&net, true, 0, k, cells[k].0 + eps);
        let numeric = (loss(&moved, &x, &y) - base) / eps;
        assert!((numeric - g.weights[0].data()[k].0).abs() < 1e-5);
    }
}

#[test]
fn one_batch_moves_against_the_gradient() {
    let mut net = tiny_net();
    assert_eq!(net.train_batch(Real(1.0), &[tiny_example()]), Ok(()));
    assert_eq!(net.biases()[0], reals(&[0.125]));
    assert_eq!(net.weights()[0], grid(1, 1, &[0.125]));
}

#[test]
fn a_batch_is_averaged_over_its_examples() {
    let mut net = tiny_net();
    assert_eq!(net.train_batch(Real(1.0), &[tiny_example(), tiny_example()]), Ok(()));
    assert_eq!(net.biases()[0], reals(&[0.125]));
    assert_eq!(net.weights()[0], grid(1, 1, &[0.125]));
    let mut net = tiny_net();
    assert_eq!(
        net.train_batch(Real(2.0), &[tiny_example(), tiny_example(), tiny_example(), tiny_example()]),
        Ok(())
    );
    assert_eq!(net.biases()[0], reals(&[0.25]));
}

#[test]
fn an_empty_batch_is_refused() {
    let mut net = small_net();
    assert_eq!(net.train_batch(Real(1.0), &[]), Err(Error::InvalidTopology));
    assert_eq!(net, small_net());
}

#[test]
fn a_batch_with_a_wrong_example_changes_nothing() {
    let mut net = small_net();
    let batch = vec![(reals(&[0.4, -0.9]), reals(&[1.0])), (reals(&[0.4]), reals(&[1.0]))];
    assert_eq!(net.train_batch(Real(1.0), &batch), Err(Error::ShapeMismatch));
    assert_eq!(net, small_net());
    let batch = vec![(reals(&[0.4, -0.9]), reals(&[1.0, 2.0]))];
    assert_eq!(net.train_batch(Real(1.0), &batch), Err(Error::ShapeMismatch));
    assert_eq!(net, small_net());
}

#[test]
fn the_last_chunk_is_averaged_over_its_own_size() {
    let data = vec![tiny_example(), tiny_example(), tiny_example()];
    let mut by_epoch = tiny_net();
    assert_eq!(by_epoch.train_epoch(2, Real(1.0), &data), Ok(()));
    let mut by_hand = tiny_net();
    assert_eq!(by_hand.train_batch(Real(1.0), &data[0..2]), Ok(()));
    assert_eq!(by_hand.train_batch(Real(1.0), &data[2..3]), Ok(()));
    assert_eq!(by_epoch, by_hand);
    let mut halved = tiny_net();
    assert_eq!(halved.train_batch(Real(1.0), &data[0..2]), Ok(()));
    assert_eq!(halved.train_batch(Real(0.5), &data[2..3]), Ok(()));
    assert_ne!(by_epoch, halved);
}

#[test]
fn a_batch_size_above_the_data_makes_one_chunk() {
    let data = vec![tiny_example(), tiny_example()];
    let mut by_epoch = tiny_net();
    assert_eq!(by_epoch.train_epoch(5, Real(1.0), &data), Ok(()));
    let mut by_hand = tiny_net();
    assert_eq!(by_hand.train_batch(Real(1.0), &data), Ok(()));
    assert_eq!(by_epoch, by_hand);
    let mut idle = tiny_net();
    assert_eq!(idle.train_epoch(5, Real(1.0), &[]), Ok(()));
    assert_eq!(idle, tiny_net());
}

#[test]
fn an_epoch_in_a_fixed_order_is_reproducible() {
    let data = two_examples();
    let mut first = square_net();
    let mut second = square_net();
    assert_eq!(first.train_epoch(1, Real(0.1), &data), Ok(()));
    assert_eq!(second.train_epoch(1, Real(0.1), &data), Ok(()));
    assert_eq!(first, second);
    assert_ne!(first, square_net());
    for l in 0..2 {
        let a = first.weights()[l].data();
        let b = second.weights()[l].data();
        for k in 0..a.len() {
            assert_eq!(a[k].0.to_bits(), b[k].0.to_bits());
        }
    }
    let mut by_hand = square_net();
    assert_eq!(by_hand.train_batch(Real(0.1), &data[0..1]), Ok(()));
    assert_eq!(by_hand.train_batch(Real(0.1), &data[1..2]), Ok(()));
    assert_eq!(first, by_hand);
}

#[test]
fn training_on_equal_examples_does_not_depend_on_the_order() {
    let example = (reals(&[0.4, -0.9]), reals(&[1.0]));
    let mut data = vec![example.clone(), example.clone()];
    let mut trained = square_net();
    let reports = trained.train(1, 1, Real(0.1), &mut data, None).unwrap();
    assert_eq!(reports, vec![None]);
    let mut by_epoch = square_net();
    assert_eq!(by_epoch.train_epoch(1, Real(0.1), &data), Ok(()));
    assert_eq!(trained, by_epoch);
}

#[test]
fn a_learning_rate_of_zero_changes_nothing() {
    let mut net = small_net();
    let mut data = two_examples();
    let size = data.len();
    let reports = net.train(4, size, Real(0.0), &mut data, None).unwrap();
    assert_eq!(reports.len(), 4);
    assert_eq!(net, small_net());
    let reports = net.train(3, 1, Real(0.0), &mut data, None).unwrap();
    assert_eq!(reports.len(), 3);
    assert_eq!(net, small_net());
}

#[test]
fn training_keeps_the_examples() {
    let mut net = small_net();
    let mut data: Vec<Data<Real>> =
        (0..20).map(|k| (reals(&[k as f64, 1.0]), reals(&[0.5]))).collect();
    let before = data.clone();
    assert!(net.train(3, 4, Real(0.1), &mut data, None).is_ok());
    assert_eq!(data.len(), before.len());
    for example in &before {
        assert_eq!(data.iter().filter(|&e| e == example).count(), 1);
    }
}

#[test]
fn training_reduces_the_loss() {
    let mut net = small_net();
    let mut data = two_examples();
    let before: f64 = data.iter().map(|(x, y)| loss(&net, x, y)).sum();
    let reports = net.train(50, 1, Real(0.5), &mut data, None).unwrap();
    assert_eq!(reports.len(), 50);
    let after: f64 = data.iter().map(|(x, y)| loss(&net, x, y)).sum();
    assert!(after < before);
}

#[test]
fn training_without_epochs_does_nothing() {
    let mut net = small_net();
    let mut data = two_examples();
    assert_eq!(net.train(0, 1, Real(0.5), &mut data, None), Ok(vec![]));
    assert_eq!(net, small_net());
    assert_eq!(data, two_examples());
}

#[test]
fn a_batch_size_of_zero_is_refused() {
    let mut net = small_net();
    let mut data = two_examples();
    assert_eq!(net.train(3, 0, Real(0.5), &mut data, None), Err(Error::InvalidTopology));
    assert_eq!(net.train_epoch(0, Real(0.5), &data), Err(Error::InvalidTopology));
    assert_eq!(net, small_net());
    assert_eq!(data, two_examples());
}

#[test]
fn data_that_do_not_fit_are_refused() {
    let mut net = small_net();
    let mut data = vec![(reals(&[0.4, -0.9]), reals(&[1.0])), (reals(&[0.4]), reals(&[1.0]))];
    let given = data.clone();
    assert_eq!(net.train(3, 1, Real(0.5), &mut data, None), Err(Error::ShapeMismatch));
    assert_eq!(net.train_epoch(1, Real(0.5), &data), Err(Error::ShapeMismatch));
    assert_eq!(net.evaluate(&data), Err(Error::ShapeMismatch));
    assert_eq!(net, small_net());
    assert_eq!(data, given);
    let mut good = two_examples();
    assert_eq!(net.train(3, 1, Real(0.5), &mut good, Some(&data)), Err(Error::ShapeMismatch));
    assert_eq!(net, small_net());
    assert_eq!(good, two_examples());
}

#[test]
fn evaluate_counts_the_examples_it_is_right_about() {
    // One layer that copies a strong first input to the first output.
    let net = Network::from_parameters(
        vec![reals(&[0.0, 0.0])],
        vec![grid(2, 2, &[5.0, -5.0, -5.0, 5.0])],
    )
    .unwrap();
    let data = vec![
        (reals(&[1.0, 0.0]), reals(&[1.0, 0.0])),
        (reals(&[0.0, 1.0]), reals(&[0.0, 1.0])),
        (reals(&[1.0, 0.0]), reals(&[0.0, 1.0])),
        (reals(&[0.0, 0.0]), reals(&[1.0, 0.0])),
        (reals(&[0.0, 0.0]), reals(&[0.0, 1.0])),
    ];
    assert_eq!(net.evaluate(&data), Ok(3));
    assert_eq!(net.evaluate(&[]), Ok(0));
}

#[test]
fn train_reports_a_score_for_each_epoch() {
    let mut net = Network::from_parameters(
        vec![reals(&[0.0, 0.0])],
        vec![grid(2, 2, &[5.0, -5.0, -5.0, 5.0])],
    )
    .unwrap();
    let mut data = vec![
        (reals(&[1.0, 0.0]), reals(&[1.0, 0.0])),
        (reals(&[0.0, 1.0]), reals(&[0.0, 1.0])),
    ];
    let test = data.clone();
    let reports = net.train(3, 2, Real(0.1), &mut data, Some(&test)).unwrap();
    assert_eq!(reports, vec![Some(2), Some(2), Some(2)]);
}

#[test]
fn network_clone_is_independent() {
    let net = small_net();
    let mut copy = net.clone();
    assert_eq!(copy, net);
    assert_eq!(copy.train_batch(Real(1.0), &two_examples()), Ok(()));
    assert_ne!(copy, net);
    assert_eq!(net, small_net());
}
