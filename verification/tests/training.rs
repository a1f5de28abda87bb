use nn_rust::control::{Event, Signal, Worker};
use nn_rust::error::Error;
use nn_rust::matrix::Matrix;
use nn_rust::network::Network;
use nn_rust::scalar::Scalar;
use nn_rust::session::Progress;
use nn_rust::training::TrainingSet;
use std::cell::Cell;

#[derive(Clone, Copy, Debug, PartialEq)]
struct Real(f32);

impl Scalar for Real {
    fn zero() -> Self {
        Real(0.0)
    }

    fn one() -> Self {
        Real(1.0)
    }

    fn from_count(n: usize) -> Self {
        Real(n as f32)
    }

    fn plus(self, rhs: Self) -> Self {
        Real(self.0 + rhs.0)
    }

    fn minus(self, rhs: Self) -> Self {
        Real(self.0 - rhs.0)
    }

    fn times(self, rhs: Self) -> Self {
        Real(self.0 * rhs.0)
    }

    fn over(self, rhs: Self) -> Self {
        Real(self.0 / rhs.0)
    }

    fn negated(self) -> Self {
        Real(-self.0)
    }

    fn exp(self) -> Self {
        Real(self.0.exp())
    }
}

fn reals(rows: &[&[f32]]) -> Matrix<Real> {
    let rows: Vec<Vec<Real>> = rows.iter().map(|r| r.iter().map(|&x| Real(x)).collect()).collect();
    Matrix::from_rows(&rows).unwrap()
}

fn xor_set() -> TrainingSet<Real> {
    let inputs = reals(&[&[0.0, 0.0], &[0.0, 1.0], &[1.0, 0.0], &[1.0, 1.0]]);
    let outputs = reals(&[&[0.0], &[1.0], &[1.0], &[0.0]]);
    TrainingSet::new(inputs, outputs).unwrap()
}

/// A small linear congruential generator of numbers in `[0, 1)`.
fn unit_draws(seed: u64) -> impl Fn() -> Real {
    let state = Cell::new(seed);
    move || {
        let next = state.get().wrapping_mul(6364136223846793005).wrapping_add(1442695040888963407);
        state.set(next);
        Real(((next >> 40) as f32) / ((1u64 << 24) as f32))
    }
}

fn values(m: &Matrix<Real>) -> Vec<Vec<f32>> {
    (0..m.rows()).map(|i| (0..m.cols()).map(|j| m.get(i, j).0).collect()).collect()
}

fn parameters(net: &Network<Real>) -> Vec<f32> {
    let mut all = Vec::new();
    for l in 0..net.layer_count() - 1 {
        all.extend(values(net.weights(l)).concat());
        all.extend(values(net.biases(l)).concat());
    }
    all
}

fn random_network(architecture: &[usize], seed: u64) -> Network<Real> {
    let mut net: Network<Real> = Network::new(architecture).unwrap();
    net.randomize(Real(-1.0), Real(1.0), &unit_draws(seed));
    net
}

fn pair(input: f32, output: f32) -> TrainingSet<Real> {
    TrainingSet::new(reals(&[&[input]]), reals(&[&[output]])).unwrap()
}

#[test]
fn a_training_set_needs_aligned_rows() {
    let inputs = reals(&[&[0.0, 0.0], &[0.0, 1.0]]);
    let outputs = reals(&[&[0.0]]);
    assert_eq!(TrainingSet::new(inputs, outputs).err(), Some(Error::ConfigurationError));
    let inputs = reals(&[&[0.0, 0.0]]);
    let outputs = reals(&[&[0.0], &[1.0]]);
    assert_eq!(TrainingSet::new(inputs, outputs).err(), Some(Error::ConfigurationError));
    let set = xor_set();
    assert_eq!(set.len(), 4);
    assert_eq!(
        values(set.inputs()),
        vec![vec![0.0, 0.0], vec![0.0, 1.0], vec![1.0, 0.0], vec![1.0, 1.0]]
    );
    assert_eq!(values(set.outputs()), vec![vec![0.0], vec![1.0], vec![1.0], vec![0.0]]);
    let copy = set.duplicate();
    assert_eq!(values(copy.inputs()), values(set.inputs()));
    assert_eq!(values(copy.outputs()), values(set.outputs()));
}

#[test]
fn a_training_set_fits_or_not() {
    let set = xor_set();
    assert_eq!(set.check(&Network::new(&[2, 4, 4, 1]).unwrap()), Ok(()));
    assert_eq!(set.check(&Network::new(&[2, 1]).unwrap()), Ok(()));
    assert_eq!(set.check(&Network::new(&[3, 4, 1]).unwrap()), Err(Error::ConfigurationError));
    assert_eq!(set.check(&Network::new(&[2, 4, 2]).unwrap()), Err(Error::ConfigurationError));
    assert_eq!(set.check(&Network::new(&[1, 2]).unwrap()), Err(Error::ConfigurationError));
}

#[test]
fn cost_of_a_zero_network() {
    // every output is one half, every squared error one quarter
    let mut net: Network<Real> = Network::new(&[2, 4, 4, 1]).unwrap();
    assert_eq!(net.cost(&xor_set()), Ok(Real(0.25)));
    let mut net: Network<Real> = Network::new(&[1, 1]).unwrap();
    let set = TrainingSet::new(reals(&[&[1.0], &[2.0]]), reals(&[&[0.5], &[1.0]])).unwrap();
    assert_eq!(net.cost(&set), Ok(Real(0.125)));
}

#[test]
fn cost_sums_over_the_outputs_and_averages_over_the_rows() {
    // outputs (0.5, 0.5): errors 0.25 + 0.25 in the first row, 0.0625 + 0.5625 in the second
    let mut net: Network<Real> = Network::new(&[1, 2]).unwrap();
    let set = TrainingSet::new(reals(&[&[1.0], &[2.0]]), reals(&[&[0.0, 1.0], &[0.25, -0.25]]))
        .unwrap();
    assert_eq!(net.cost(&set), Ok(Real((0.5 + 0.625) / 2.0)));
}

#[test]
fn cost_keeps_the_parameters() {
    let mut net = random_network(&[2, 3, 1], 2);
    let before = parameters(&net);
    let first = net.cost(&xor_set()).unwrap();
    assert_eq!(parameters(&net), before);
    assert_eq!(net.cost(&xor_set()), Ok(first));
    assert!(first.0 > 0.0 && first.0 < 1.0);
}

#[test]
fn cost_of_no_examples_is_not_a_number() {
    let mut net: Network<Real> = Network::new(&[2, 1]).unwrap();
    let set = TrainingSet::new(Matrix::new(0, 2), Matrix::new(0, 1)).unwrap();
    assert!(net.cost(&set).unwrap().0.is_nan());
}

#[test]
fn cost_refuses_a_set_that_does_not_fit() {
    let mut net = random_network(&[3, 3, 1], 2);
    let before = parameters(&net);
    assert_eq!(net.cost(&xor_set()), Err(Error::ConfigurationError));
    assert_eq!(parameters(&net), before);
    let mut net = random_network(&[2, 3, 2], 2);
    assert_eq!(net.cost(&xor_set()), Err(Error::ConfigurationError));
}

#[test]
fn cost_is_the_same_for_repeated_rows() {
    for seed in 1..10u64 {
        let mut net = random_network(&[2, 3, 2], seed);
        let draw = unit_draws(seed + 100);
        let x = [draw().0, draw().0];
        let y = [draw().0, draw().0];
        let single = TrainingSet::new(reals(&[&x]), reals(&[&y])).unwrap();
        let one = net.cost(&single).unwrap().0;
        for rows in [2usize, 3, 4, 7, 10, 50] {
            let inputs: Vec<&[f32]> = vec![&x; rows];
            let outputs: Vec<&[f32]> = vec![&y; rows];
            let set = TrainingSet::new(reals(&inputs), reals(&outputs)).unwrap();
            let many = net.cost(&set).unwrap().0;
            assert!((many - one).abs() <= 1e-5 * one.abs().max(1.0));
        }
    }
}

#[test]
fn cost_of_a_row_and_its_copy_is_exactly_that_of_the_row() {
    for seed in 1..10u64 {
        let mut net = random_network(&[2, 3, 1], seed);
        let single = TrainingSet::new(reals(&[&[0.25, 0.75]]), reals(&[&[0.5]])).unwrap();
        let double = TrainingSet::new(
            reals(&[&[0.25, 0.75], &[0.25, 0.75]]),
            reals(&[&[0.5], &[0.5]]),
        )
        .unwrap();
        assert_eq!(net.cost(&double), net.cost(&single));
    }
}

#[test]
fn cost_of_repeated_rows_may_differ_in_the_last_place() {
    // the sum of five equal squares, divided by five, is rounded twice
    let mut net: Network<Real> = Network::new(&[1, 1]).unwrap();
    let one = net.cost(&pair(1.0, 0.01)).unwrap().0;
    let x: &[f32] = &[1.0];
    let y: &[f32] = &[0.01];
    let five = TrainingSet::new(reals(&[x; 5]), reals(&[y; 5])).unwrap();
    let many = net.cost(&five).unwrap().0;
    assert_eq!(one, 0.240_100_01);
    assert_ne!(many, one);
    assert!((many - one).abs() < 1e-7);
}

#[test]
fn backprop_of_one_neuron() {
    // output 0.5, error signal (0.5 - 1) * 0.25 = -0.125
    let mut net: Network<Real> = Network::new(&[1, 1]).unwrap();
    let mut gradient: Network<Real> = Network::new(&[1, 1]).unwrap();
    gradient.set_weight(0, 0, 0, Real(99.0));
    gradient.set_bias(0, 0, Real(99.0));
    assert_eq!(net.backprop(&mut gradient, &pair(2.0, 1.0)), Ok(()));
    assert_eq!(gradient.weight(0, 0, 0), Real(-0.25));
    assert_eq!(gradient.bias(0, 0), Real(-0.125));
}

#[test]
fn backprop_averages_over_the_rows() {
    // error signals -0.125 and 0.125: weights -0.25 and 0.5, biases -0.125 and 0.125
    let mut net: Network<Real> = Network::new(&[1, 1]).unwrap();
    let mut gradient: Network<Real> = Network::new(&[1, 1]).unwrap();
    let set = TrainingSet::new(reals(&[&[2.0], &[4.0]]), reals(&[&[1.0], &[0.0]])).unwrap();
    assert_eq!(net.backprop(&mut gradient, &set), Ok(()));
    assert_eq!(gradient.weight(0, 0, 0), Real(0.125));
    assert_eq!(gradient.bias(0, 0), Real(0.0));
}

#[test]
fn backprop_through_a_hidden_layer() {
    let mut net: Network<Real> = Network::new(&[1, 2, 1]).unwrap();
    net.set_weight(1, 0, 0, Real(1.0));
    net.set_weight(1, 1, 0, Real(-2.0));
    let mut gradient: Network<Real> = Network::new(&[1, 2, 1]).unwrap();
    assert_eq!(net.backprop(&mut gradient, &pair(3.0, 0.0)), Ok(()));
    // hidden activations 0.5 and 0.5, output sigmoid(0.5 - 1.0)
    let out = 1.0 / (1.0 + (0.5f32).exp());
    let last = (out - 0.0) * (out * (1.0 - out));
    assert_eq!(gradient.bias(1, 0), Real(last));
    assert_eq!(gradient.weight(1, 0, 0), Real(0.5 * last));
    assert_eq!(gradient.weight(1, 1, 0), Real(0.5 * last));
    let hidden = [(0.0 + last * 1.0) * 0.25, (0.0 + last * -2.0) * 0.25];
    assert_eq!(gradient.bias(0, 0), Real(hidden[0]));
    assert_eq!(gradient.bias(0, 1), Real(hidden[1]));
    assert_eq!(gradient.weight(0, 0, 0), Real(3.0 * hidden[0]));
    assert_eq!(gradient.weight(0, 0, 1), Real(3.0 * hidden[1]));
    assert!((last - 0.088_723_5).abs() < 1e-6);
}

#[test]
fn backprop_starts_from_zero_each_time() {
    let mut net = random_network(&[2, 4, 4, 1], 3);
    let mut gradient: Network<Real> = Network::new(&[2, 4, 4, 1]).unwrap();
    net.backprop(&mut gradient, &xor_set()).unwrap();
    let first = parameters(&gradient);
    net.backprop(&mut gradient, &xor_set()).unwrap();
    assert_eq!(parameters(&gradient), first);
    assert!(first.iter().any(|&g| g != 0.0));
}

#[test]
fn backprop_keeps_the_parameters() {
    let mut net = random_network(&[2, 4, 4, 1], 3);
    let before = parameters(&net);
    let mut gradient: Network<Real> = Network::new(&[2, 4, 4, 1]).unwrap();
    net.backprop(&mut gradient, &xor_set()).unwrap();
    assert_eq!(parameters(&net), before);
}

#[test]
fn finite_diff_of_one_neuron() {
    let mut net: Network<Real> = Network::new(&[1, 1]).unwrap();
    let mut gradient: Network<Real> = Network::new(&[1, 1]).unwrap();
    let set = pair(2.0, 1.0);
    let eps = 0.125f32;
    assert_eq!(net.finite_diff(&mut gradient, Real(eps), &set), Ok(()));
    let cost = |w: f32, b: f32| {
        let out = 1.0 / (1.0 + (-((0.0 + 2.0 * w) + b)).exp());
        let d = out - 1.0;
        (0.0 + d * d) / 1.0
    };
    assert_eq!(gradient.weight(0, 0, 0), Real((cost(eps, 0.0) - cost(0.0, 0.0)) / eps));
    assert_eq!(gradient.bias(0, 0), Real((cost(0.0, eps) - cost(0.0, 0.0)) / eps));
    assert_eq!(cost(0.0, 0.0), 0.25);
    assert_eq!(parameters(&net), vec![0.0, 0.0]);
}

#[test]
fn finite_diff_moves_each_parameter_alone() {
    let mut net = random_network(&[2, 3, 1], 6);
    let before = parameters(&net);
    let mut gradient: Network<Real> = Network::new(&[2, 3, 1]).unwrap();
    let set = xor_set();
    let eps = Real(1e-3);
    net.finite_diff(&mut gradient, eps, &set).unwrap();
    assert_eq!(parameters(&net), before);
    let base = net.cost(&set).unwrap();
    for l in 0..2 {
        for j in 0..net.weights(l).cols() {
            for i in 0..net.weights(l).rows() {
                let saved = net.weight(l, i, j);
                net.set_weight(l, i, j, saved.plus(eps));
                let moved = net.cost(&set).unwrap();
                net.set_weight(l, i, j, saved);
                assert_eq!(gradient.weight(l, i, j), moved.minus(base).over(eps));
            }
            let saved = net.bias(l, j);
            net.set_bias(l, j, saved.plus(eps));
            let moved = net.cost(&set).unwrap();
            net.set_bias(l, j, saved);
            assert_eq!(gradient.bias(l, j), moved.minus(base).over(eps));
        }
    }
}

#[test]
fn gradients_agree() {
    let mut net = random_network(&[2, 3, 1], 4);
    let mut numeric: Network<Real> = Network::new(&[2, 3, 1]).unwrap();
    let mut analytic: Network<Real> = Network::new(&[2, 3, 1]).unwrap();
    let set = xor_set();
    net.finite_diff(&mut numeric, Real(1e-3), &set).unwrap();
    net.backprop(&mut analytic, &set).unwrap();
    let numeric = parameters(&numeric);
    let analytic = parameters(&analytic);
    assert_eq!(numeric.len(), 13);
    for (n, a) in numeric.iter().zip(analytic.iter()) {
        assert!((n - a).abs() < 1e-2);
    }
}

#[test]
fn finite_differences_are_twice_the_backpropagated_gradient() {
    // the cost is a sum of squares, and the error signal leaves out the 2 of their derivative
    for seed in 1..20u64 {
        let architecture: &[usize] = if seed % 2 == 0 { &[2, 3, 1] } else { &[2, 2, 2, 1] };
        let mut net = random_network(architecture, seed);
        let mut numeric: Network<Real> = Network::new(architecture).unwrap();
        let mut analytic: Network<Real> = Network::new(architecture).unwrap();
        let set = xor_set();
        net.finite_diff(&mut numeric, Real(1e-3), &set).unwrap();
        net.backprop(&mut analytic, &set).unwrap();
        for (n, a) in parameters(&numeric).iter().zip(parameters(&analytic).iter()) {
            assert!((n - 2.0 * a).abs() < 1e-3);
        }
    }
}

#[test]
fn gradients_refuse_another_architecture() {
    let mut net = random_network(&[2, 3, 1], 4);
    let before = parameters(&net);
    let mut gradient: Network<Real> = Network::new(&[2, 4, 1]).unwrap();
    gradient.set_weight(0, 0, 0, Real(5.0));
    let set = xor_set();
    assert_eq!(net.backprop(&mut gradient, &set), Err(Error::DimensionMismatch));
    assert_eq!(net.finite_diff(&mut gradient, Real(1e-3), &set), Err(Error::DimensionMismatch));
    assert_eq!(net.learn(&gradient, Real(1.0)), Err(Error::DimensionMismatch));
    assert_eq!(net.train_epoch(&mut gradient, &set, Real(1.0)), Err(Error::DimensionMismatch));
    assert_eq!(parameters(&net), before);
    assert_eq!(gradient.weight(0, 0, 0), Real(5.0));
}

#[test]
fn gradients_refuse_a_set_that_does_not_fit() {
    let mut net = random_network(&[3, 3, 1], 4);
    let before = parameters(&net);
    let mut gradient: Network<Real> = Network::new(&[3, 3, 1]).unwrap();
    gradient.set_bias(1, 0, Real(5.0));
    let set = xor_set();
    assert_eq!(net.backprop(&mut gradient, &set), Err(Error::ConfigurationError));
    assert_eq!(net.finite_diff(&mut gradient, Real(1e-3), &set), Err(Error::ConfigurationError));
    assert_eq!(net.train_epoch(&mut gradient, &set, Real(1.0)), Err(Error::ConfigurationError));
    assert_eq!(parameters(&net), before);
    assert_eq!(gradient.bias(1, 0), Real(5.0));
    // a gradient of another architecture is reported first
    let mut other: Network<Real> = Network::new(&[2, 3, 1]).unwrap();
    assert_eq!(net.backprop(&mut other, &set), Err(Error::DimensionMismatch));
    assert_eq!(net.finite_diff(&mut other, Real(1e-3), &set), Err(Error::DimensionMismatch));
}

#[test]
fn learn_takes_rate_times_gradient() {
    let mut net: Network<Real> = Network::new(&[1, 2]).unwrap();
    net.set_weight(0, 0, 0, Real(1.0));
    net.set_weight(0, 0, 1, Real(2.0));
    net.set_bias(0, 0, Real(3.0));
    net.set_bias(0, 1, Real(4.0));
    net.set_activation(1, 0, Real(7.0));
    let mut gradient: Network<Real> = Network::new(&[1, 2]).unwrap();
    gradient.set_weight(0, 0, 0, Real(0.5));
    gradient.set_weight(0, 0, 1, Real(-0.5));
    gradient.set_bias(0, 0, Real(2.0));
    gradient.set_bias(0, 1, Real(0.0));
    assert_eq!(net.learn(&gradient, Real(0.5)), Ok(()));
    assert_eq!(values(net.weights(0)), vec![vec![0.75, 2.25]]);
    assert_eq!(values(net.biases(0)), vec![vec![2.0, 4.0]]);
    assert_eq!(values(net.activations(1)), vec![vec![7.0, 0.0]]);
    assert_eq!(values(gradient.weights(0)), vec![vec![0.5, -0.5]]);
}

#[test]
fn an_epoch_is_backprop_and_learn() {
    let set = xor_set();
    let mut a = random_network(&[2, 4, 4, 1], 8);
    let mut b = random_network(&[2, 4, 4, 1], 8);
    let mut ga: Network<Real> = Network::new(&[2, 4, 4, 1]).unwrap();
    let mut gb: Network<Real> = Network::new(&[2, 4, 4, 1]).unwrap();
    for _ in 0..5 {
        assert_eq!(a.train_epoch(&mut ga, &set, Real(0.5)), Ok(()));
        b.backprop(&mut gb, &set).unwrap();
        b.learn(&gb, Real(0.5)).unwrap();
        assert_eq!(parameters(&a), parameters(&b));
        assert_eq!(parameters(&ga), parameters(&gb));
    }
}

#[test]
fn an_epoch_lowers_the_cost() {
    let set = xor_set();
    let mut net = random_network(&[2, 4, 4, 1], 8);
    let mut gradient: Network<Real> = Network::new(&[2, 4, 4, 1]).unwrap();
    let before = net.cost(&set).unwrap().0;
    for _ in 0..100 {
        net.train_epoch(&mut gradient, &set, Real(0.1)).unwrap();
    }
    assert!(net.cost(&set).unwrap().0 < before);
}

#[test]
fn a_session_starts_with_a_snapshot() {
    let set = xor_set();
    let mut net: Network<Real> = Network::new(&[2, 4, 4, 1]).unwrap();
    let progress = Progress::start(&mut net, &set, Real(-1.0), Real(1.0), &unit_draws(7)).unwrap();
    assert_eq!(progress.epoch(), 0);
    assert_eq!(progress.elapsed(), 0);
    assert!(!progress.paused());
    assert_eq!(progress.cost(), net.cost(&set).unwrap());
    assert_eq!(values(progress.examples().inputs()), values(set.inputs()));
    assert_eq!(values(progress.examples().outputs()), values(set.outputs()));
    assert_eq!(parameters(&net), parameters(&random_network(&[2, 4, 4, 1], 7)));
}

#[test]
fn a_session_refuses_a_set_that_does_not_fit() {
    let mut net: Network<Real> = Network::new(&[3, 4, 1]).unwrap();
    let started = Progress::start(&mut net, &xor_set(), Real(-1.0), Real(1.0), &unit_draws(7));
    assert_eq!(started.err(), Some(Error::ConfigurationError));
    assert!(parameters(&net).iter().all(|&p| p == 0.0));
}

#[test]
fn a_snapshot_follows_the_worker() {
    let set = xor_set();
    let mut net: Network<Real> = Network::new(&[2, 2, 1]).unwrap();
    let mut progress =
        Progress::start(&mut net, &set, Real(-1.0), Real(1.0), &unit_draws(7)).unwrap();
    let first = progress.cost();
    let mut worker = Worker::new(10);
    worker.advance(Event::Begin);
    worker.advance(Event::Quiet);
    worker.advance(Event::Trained);
    worker.advance(Event::Quiet);
    worker.advance(Event::Trained);
    progress.publish(&worker, 1_000, 4_250);
    assert_eq!(progress.epoch(), 2);
    assert_eq!(progress.elapsed(), 3_250);
    assert!(!progress.paused());
    assert_eq!(progress.cost(), first);
    worker.advance(Event::Received(Signal::Pause));
    worker.advance(Event::Trained);
    progress.publish(&worker, 1_000, 5_000);
    assert_eq!(progress.epoch(), 2);
    assert!(progress.paused());
    assert_eq!(progress.elapsed(), 4_000);
    progress.record_cost(Real(0.125));
    assert_eq!(progress.cost(), Real(0.125));
    assert_eq!(progress.epoch(), 2);
    worker.advance(Event::Received(Signal::Resume));
    progress.publish(&worker, 1_000, 6_000);
    assert!(!progress.paused());
    assert_eq!(values(progress.examples().inputs()), values(set.inputs()));
}
