//! Training: the cost of a network on a set of examples, two ways to compute
//! its gradient, and the gradient-descent step.
use crate::error::Error;
use crate::matrix::Matrix;
use crate::network::{is_forward_pass, rows_with, weights_with, Network, NetworkView};
use crate::scalar::Scalar;
use crate::scalar::{is_count, is_difference, is_product, is_quotient, is_sum, is_zero};
use vstd::prelude::*;

verus! {

/// Examples to train on: row `r` of `inputs` is to give row `r` of `outputs`.
pub struct TrainingSet<T> {
    inputs: Matrix<T>,
    outputs: Matrix<T>,
}

/// The examples of a training set, as two sequences of rows.
pub struct Examples<T> {
    pub inputs: Seq<Seq<T>>,
    pub outputs: Seq<Seq<T>>,
}

impl<T> View for TrainingSet<T> {
    type V = Examples<T>;

    closed spec fn view(&self) -> Examples<T> {
        Examples { inputs: self.inputs@, outputs: self.outputs@ }
    }
}

impl<T: Scalar> TrainingSet<T> {
    /// Both matrices are valid and have the same number of rows.
    pub closed spec fn inv(&self) -> bool {
        &&& self.inputs.wf()
        &&& self.outputs.wf()
        &&& self.inputs.rows() == self.outputs.rows()
    }

    /// The width of every input row.
    pub closed spec fn input_width(&self) -> usize {
        self.inputs.cols()
    }

    /// The width of every output row.
    pub closed spec fn output_width(&self) -> usize {
        self.outputs.cols()
    }

    /// The number of examples.
    pub closed spec fn spec_len(&self) -> usize {
        self.inputs.rows()
    }

    /// The set is valid: it has as many input rows as output rows, and each
    /// row has the width of its side.
    pub open spec fn wf(&self) -> bool {
        &&& self.inv()
        &&& self@.inputs.len() == self.len()
        &&& self@.outputs.len() == self.len()
        &&& forall|r: int|
            0 <= r < self.len() ==> (#[trigger] self@.inputs[r]).len() == self.input_width()
        &&& forall|r: int|
            0 <= r < self.len() ==> (#[trigger] self@.outputs[r]).len() == self.output_width()
    }

    /// The set fits a network: its input rows are as wide as the first
    /// layer, its output rows as wide as the last.
    pub open spec fn fits(&self, net: NetworkView<T>) -> bool {
        &&& self.input_width() == net.architecture[0]
        &&& self.output_width() == net.architecture.last()
    }

    /// The training set of the given inputs and outputs.
    ///
    /// The two need the same number of rows.
    pub fn new(inputs: Matrix<T>, outputs: Matrix<T>) -> (r: Result<TrainingSet<T>, Error>)
        requires
            inputs.wf(),
            outputs.wf(),
        ensures
            r is Err <==> inputs.rows() != outputs.rows(),
            r matches Err(e) ==> e == Error::ConfigurationError,
            r matches Ok(set) ==> {
                &&& set.wf()
                &&& set@.inputs == inputs@
                &&& set@.outputs == outputs@
                &&& set.len() == inputs.rows()
                &&& set.input_width() == inputs.cols()
                &&& set.output_width() == outputs.cols()
            },
    {
        if inputs.rows() != outputs.rows() {
            return Err(Error::ConfigurationError);
        }
        Ok(TrainingSet { inputs, outputs })
    }

    /// The number of examples.
    #[verifier::when_used_as_spec(spec_len)]
    pub fn len(&self) -> (n: usize)
        requires
            self.wf(),
        ensures
            n == self.len(),
    {
        self.inputs.rows()
    }

    /// The inputs, one example in each row.
    pub fn inputs(&self) -> (m: &Matrix<T>)
        requires
            self.wf(),
        ensures
            m.wf(),
            m@ == self@.inputs,
            m.rows() == self.len(),
            m.cols() == self.input_width(),
    {
        &self.inputs
    }

    /// The expected outputs, one example in each row.
    pub fn outputs(&self) -> (m: &Matrix<T>)
        requires
            self.wf(),
        ensures
            m.wf(),
            m@ == self@.outputs,
            m.rows() == self.len(),
            m.cols() == self.output_width(),
    {
        &self.outputs
    }

    /// A copy of the set.
    pub fn duplicate(&self) -> (copy: TrainingSet<T>)
        requires
            self.wf(),
        ensures
            copy.wf(),
            copy@ == self@,
            copy.len() == self.len(),
            copy.input_width() == self.input_width(),
            copy.output_width() == self.output_width(),
    {
        TrainingSet { inputs: self.inputs.duplicate(), outputs: self.outputs.duplicate() }
    }

    /// Tells whether the set fits a network with the given architecture.
    pub fn check(&self, net: &Network<T>) -> (r: Result<(), Error>)
        requires
            self.wf(),
            net.wf(),
        ensures
            r is Ok <==> self.fits(net@),
            r matches Err(e) ==> e == Error::ConfigurationError,
    {
        let n = net.architecture.len();
        if self.inputs.cols() != net.architecture[0] || self.outputs.cols() != net.architecture[n
            - 1] {
            Err(Error::ConfigurationError)
        } else {
            Ok(())
        }
    }
}

/// `r` is `p` plus the square of the difference of `a` and `y`.
pub open spec fn is_squared_error_added<T: Scalar>(p: T, a: T, y: T, r: T) -> bool {
    exists|d: T, q: T| #[trigger] squared_error_steps(p, a, y, d, q, r)
}

/// The intermediate values of one squared error: the difference `d` and its
/// square `q`.
pub open spec fn squared_error_steps<T: Scalar>(p: T, a: T, y: T, d: T, q: T, r: T) -> bool {
    &&& is_difference(a, y, d)
    &&& is_product(d, d, q)
    &&& is_sum(p, q, r)
}

/// `total` is `start` plus the squared errors of `out` against `expected`,
/// added one after the other from index 0 upwards.
pub open spec fn is_error_added<T: Scalar>(
    out: Seq<T>,
    expected: Seq<T>,
    start: T,
    total: T,
) -> bool
    recommends
        out.len() == expected.len(),
    decreases out.len(),
{
    if out.len() == 0 {
        total == start
    } else {
        exists|p: T|
            is_error_added(out.drop_last(), expected.drop_last(), start, p)
                && #[trigger] is_squared_error_added(p, out.last(), expected.last(), total)
    }
}

/// `total` is `start` plus the squared errors of the network's output for
/// `input` against `expected`.
pub open spec fn is_example_error_added<T: Scalar>(
    weights: Seq<Seq<Seq<T>>>,
    biases: Seq<Seq<T>>,
    input: Seq<T>,
    expected: Seq<T>,
    start: T,
    total: T,
) -> bool {
    exists|activations: Seq<Seq<T>>| #[trigger]
        example_error_steps(weights, biases, input, expected, activations, start, total)
}

/// The forward pass behind the error of one example.
pub open spec fn example_error_steps<T: Scalar>(
    weights: Seq<Seq<Seq<T>>>,
    biases: Seq<Seq<T>>,
    input: Seq<T>,
    expected: Seq<T>,
    activations: Seq<Seq<T>>,
    start: T,
    total: T,
) -> bool {
    &&& activations[0] == input
    &&& is_forward_pass(weights, biases, activations)
    &&& is_error_added(activations.last(), expected, start, total)
}

/// `total` is the sum of the squared errors over all examples, added up
/// from zero, example after example.
pub open spec fn is_total_error<T: Scalar>(
    weights: Seq<Seq<Seq<T>>>,
    biases: Seq<Seq<T>>,
    inputs: Seq<Seq<T>>,
    outputs: Seq<Seq<T>>,
    total: T,
) -> bool
    recommends
        inputs.len() == outputs.len(),
    decreases inputs.len(),
{
    if inputs.len() == 0 {
        is_zero(total)
    } else {
        exists|p: T|
            is_total_error(weights, biases, inputs.drop_last(), outputs.drop_last(), p)
                && #[trigger] is_example_error_added(
                weights,
                biases,
                inputs.last(),
                outputs.last(),
                p,
                total,
            )
    }
}

/// `c` is the cost of the network on the examples: the sum of the squared
/// errors, divided by the number of examples.
pub open spec fn is_cost<T: Scalar>(
    weights: Seq<Seq<Seq<T>>>,
    biases: Seq<Seq<T>>,
    examples: Examples<T>,
    c: T,
) -> bool {
    exists|total: T, n: T| #[trigger] cost_steps(weights, biases, examples, total, n, c)
}

/// The intermediate values of a cost: the sum `total` of the squared errors
/// and the number `n` of examples.
pub open spec fn cost_steps<T: Scalar>(
    weights: Seq<Seq<Seq<T>>>,
    biases: Seq<Seq<T>>,
    examples: Examples<T>,
    total: T,
    n: T,
    c: T,
) -> bool {
    &&& is_total_error(weights, biases, examples.inputs, examples.outputs, total)
    &&& is_count(examples.inputs.len() as usize, n)
    &&& is_quotient(total, n, c)
}

/// `r` is the parameter `p` after one step of gradient descent: `p` minus
/// the product of the learning rate and the gradient `g`.
pub open spec fn is_descent_step<T: Scalar>(p: T, rate: T, g: T, r: T) -> bool {
    exists|s: T| #[trigger] descent_steps(p, rate, g, s, r)
}

/// The intermediate value of one descent step: the product `s` of rate and
/// gradient.
pub open spec fn descent_steps<T: Scalar>(p: T, rate: T, g: T, s: T, r: T) -> bool {
    &&& is_product(rate, g, s)
    &&& is_difference(p, s, r)
}

/// The weights and biases of `after` are those of `before`, each after one
/// descent step along the entry of `gradient` in the same place.
pub open spec fn is_descent<T: Scalar>(
    before: NetworkView<T>,
    rate: T,
    gradient: NetworkView<T>,
    after: NetworkView<T>,
) -> bool {
    &&& forall|l: int, i: int, j: int|
        0 <= l < before.weights.len() && 0 <= i < before.weights[l].len() && 0 <= j
            < before.weights[l][i].len() ==> is_descent_step(
            before.weights[l][i][j],
            rate,
            gradient.weights[l][i][j],
            #[trigger] after.weights[l][i][j],
        )
    &&& forall|l: int, j: int|
        0 <= l < before.biases.len() && 0 <= j < before.biases[l].len() ==> is_descent_step(
            before.biases[l][j],
            rate,
            gradient.biases[l][j],
            #[trigger] after.biases[l][j],
        )
}

/// `g` is the slope between two costs that lie `eps` apart:
/// `(c1 - c0) / eps`.
pub open spec fn is_cost_slope<T: Scalar>(c0: T, c1: T, eps: T, g: T) -> bool {
    exists|d: T| #[trigger] cost_slope_steps(c0, c1, eps, d, g)
}

/// The intermediate value of a slope: the difference `d` of the two costs.
pub open spec fn cost_slope_steps<T: Scalar>(c0: T, c1: T, eps: T, d: T, g: T) -> bool {
    &&& is_difference(c1, c0, d)
    &&& is_quotient(d, eps, g)
}

/// `g` estimates the derivative of the cost by weight `(i, j)` of layer `l`:
/// the slope between the cost `c0` and the cost with `eps` added to that
/// weight.
pub open spec fn is_weight_estimate<T: Scalar>(
    weights: Seq<Seq<Seq<T>>>,
    biases: Seq<Seq<T>>,
    examples: Examples<T>,
    eps: T,
    c0: T,
    l: int,
    i: int,
    j: int,
    g: T,
) -> bool {
    exists|v: T, c1: T| #[trigger]
        weight_estimate_steps(weights, biases, examples, eps, c0, l, i, j, v, c1, g)
}

/// The intermediate values of a weight's estimate: the moved weight `v` and
/// the cost `c1` with it.
pub open spec fn weight_estimate_steps<T: Scalar>(
    weights: Seq<Seq<Seq<T>>>,
    biases: Seq<Seq<T>>,
    examples: Examples<T>,
    eps: T,
    c0: T,
    l: int,
    i: int,
    j: int,
    v: T,
    c1: T,
    g: T,
) -> bool {
    &&& is_sum(weights[l][i][j], eps, v)
    &&& is_cost(weights_with(weights, l, i, j, v), biases, examples, c1)
    &&& is_cost_slope(c0, c1, eps, g)
}

/// `g` estimates the derivative of the cost by bias `j` of layer `l + 1`:
/// the slope between the cost `c0` and the cost with `eps` added to that
/// bias.
pub open spec fn is_bias_estimate<T: Scalar>(
    weights: Seq<Seq<Seq<T>>>,
    biases: Seq<Seq<T>>,
    examples: Examples<T>,
    eps: T,
    c0: T,
    l: int,
    j: int,
    g: T,
) -> bool {
    exists|v: T, c1: T| #[trigger]
        bias_estimate_steps(weights, biases, examples, eps, c0, l, j, v, c1, g)
}

/// The intermediate values of a bias's estimate: the moved bias `v` and the
/// cost `c1` with it.
pub open spec fn bias_estimate_steps<T: Scalar>(
    weights: Seq<Seq<Seq<T>>>,
    biases: Seq<Seq<T>>,
    examples: Examples<T>,
    eps: T,
    c0: T,
    l: int,
    j: int,
    v: T,
    c1: T,
    g: T,
) -> bool {
    &&& is_sum(biases[l][j], eps, v)
    &&& is_cost(weights, rows_with(biases, l, j, v), examples, c1)
    &&& is_cost_slope(c0, c1, eps, g)
}

/// The weights and biases of `gradient` are the finite-difference estimates
/// for `net`, all taken against the one cost `c0` of `net` itself.
pub open spec fn is_finite_difference<T: Scalar>(
    net: NetworkView<T>,
    examples: Examples<T>,
    eps: T,
    c0: T,
    gradient: NetworkView<T>,
) -> bool {
    &&& is_cost(net.weights, net.biases, examples, c0)
    &&& forall|l: int, i: int, j: int|
        0 <= l < net.weights.len() && 0 <= i < net.weights[l].len() && 0 <= j
            < net.weights[l][i].len() ==> is_weight_estimate(
            net.weights,
            net.biases,
            examples,
            eps,
            c0,
            l,
            i,
            j,
            #[trigger] gradient.weights[l][i][j],
        )
    &&& forall|l: int, j: int|
        0 <= l < net.biases.len() && 0 <= j < net.biases[l].len() ==> is_bias_estimate(
            net.weights,
            net.biases,
            examples,
            eps,
            c0,
            l,
            j,
            #[trigger] gradient.biases[l][j],
        )
}

impl<T: Scalar> Network<T> {
    /// Copies the inputs of example `r` into the first layer.
    pub(crate) fn load_example(&mut self, set: &TrainingSet<T>, r: usize)
        requires
            old(self).wf(),
            set.wf(),
            set.fits(old(self)@),
            r < set.len(),
        ensures
            final(self).wf(),
            final(self)@ == (NetworkView {
                activations: old(self)@.activations.update(0, set@.inputs[r as int]),
                ..old(self)@
            }),
    {
        let copied = self.activations[0].copy_row(0, set.inputs(), r);
        proof {
            assert(copied is Ok);
            let goal = NetworkView {
                activations: old(self)@.activations.update(0, set@.inputs[r as int]),
                ..old(self)@
            };
            assert(self@.activations =~= goal.activations);
            assert(self@.weights =~= goal.weights);
            assert(self@.biases =~= goal.biases);
            self.lemma_inv_shaped();
        }
    }

    /// Adds to `start` the squared errors of the last layer against the
    /// expected outputs of example `r`.
    fn add_example_error(&self, set: &TrainingSet<T>, r: usize, start: T) -> (total: T)
        requires
            self.wf(),
            set.wf(),
            set.fits(self@),
            r < set.len(),
        ensures
            is_error_added(self@.output(), set@.outputs[r as int], start, total),
    {
        let last = self.architecture.len() - 1;
        let width = self.architecture[last];
        let ghost out = self@.output();
        let ghost expected = set@.outputs[r as int];
        let mut total = start;
        let mut j: usize = 0;
        proof {
            assert(out.take(0).len() == 0);
        }
        while j < width
            invariant
                self.wf(),
                set.wf(),
                set.fits(self@),
                r < set.len(),
                last == self@.architecture.len() - 1,
                width == self@.architecture[last as int],
                out == self@.output(),
                expected == set@.outputs[r as int],
                out.len() == width,
                expected.len() == width,
                j <= width,
                is_error_added(out.take(j as int), expected.take(j as int), start, total),
            decreases width - j,
        {
            let d = self.activation(last, j).minus(set.outputs().get(r, j));
            let q = d.times(d);
            let next = total.plus(q);
            proof {
                assert(squared_error_steps(total, out[j as int], expected[j as int], d, q, next));
                assert(out.take(j + 1).drop_last() =~= out.take(j as int));
                assert(expected.take(j + 1).drop_last() =~= expected.take(j as int));
                assert(is_squared_error_added(
                    total,
                    out.take(j + 1).last(),
                    expected.take(j + 1).last(),
                    next,
                ));
            }
            total = next;
            j = j + 1;
        }
        proof {
            assert(out.take(width as int) =~= out);
            assert(expected.take(width as int) =~= expected);
        }
        total
    }

    /// The cost of the network on a training set: the squared errors of its
    /// outputs, summed over all outputs of all examples and divided by the
    /// number of examples.
    ///
    /// The activations are used as scratch; weights and biases stay as they
    /// are. A set that does not fit the network is refused.
    pub fn cost(&mut self, set: &TrainingSet<T>) -> (r: Result<T, Error>)
        requires
            old(self).wf(),
            set.wf(),
        ensures
            final(self).wf(),
            final(self)@.architecture == old(self)@.architecture,
            final(self)@.weights == old(self)@.weights,
            final(self)@.biases == old(self)@.biases,
            r is Err <==> !set.fits(old(self)@),
            r matches Err(e) ==> e == Error::ConfigurationError && final(self)@ == old(self)@,
            r matches Ok(c) ==> is_cost(old(self)@.weights, old(self)@.biases, set@, c),
    {
        match set.check(self) {
            Err(e) => {
                return Err(e);
            },
            Ok(()) => {},
        }
        let rows = set.len();
        let ghost weights = self@.weights;
        let ghost biases = self@.biases;
        let ghost inputs = set@.inputs;
        let ghost outputs = set@.outputs;
        let mut total = T::zero();
        let mut r: usize = 0;
        proof {
            assert(inputs.take(0).len() == 0);
        }
        while r < rows
            invariant
                self.wf(),
                set.wf(),
                set.fits(self@),
                rows == set.len(),
                self@.architecture == old(self)@.architecture,
                weights == old(self)@.weights,
                biases == old(self)@.biases,
                self@.weights == weights,
                self@.biases == biases,
                inputs == set@.inputs,
                outputs == set@.outputs,
                r <= rows,
                is_total_error(
                    weights,
                    biases,
                    inputs.take(r as int),
                    outputs.take(r as int),
                    total,
                ),
            decreases rows - r,
        {
            self.load_example(set, r);
            self.forward();
            let next = self.add_example_error(set, r, total);
            proof {
                assert(example_error_steps(
                    weights,
                    biases,
                    inputs[r as int],
                    outputs[r as int],
                    self@.activations,
                    total,
                    next,
                ));
                assert(inputs.take(r + 1).drop_last() =~= inputs.take(r as int));
                assert(outputs.take(r + 1).drop_last() =~= outputs.take(r as int));
                assert(is_example_error_added(
                    weights,
                    biases,
                    inputs.take(r + 1).last(),
                    outputs.take(r + 1).last(),
                    total,
                    next,
                ));
            }
            total = next;
            r = r + 1;
        }
        let n = T::from_count(rows);
        let c = total.over(n);
        proof {
            assert(inputs.take(rows as int) =~= inputs);
            assert(outputs.take(rows as int) =~= outputs);
            assert(cost_steps(weights, biases, set@, total, n, c));
        }
        Ok(c)
    }

    /// One step of gradient descent: takes from every weight and bias the
    /// product of `rate` and the entry of `gradient` in the same place.
    ///
    /// The activations stay as they are. A gradient of another architecture
    /// is refused.
    pub fn learn(&mut self, gradient: &Network<T>, rate: T) -> (r: Result<(), Error>)
        requires
            old(self).wf(),
            gradient.wf(),
        ensures
            final(self).wf(),
            final(self)@.architecture == old(self)@.architecture,
            final(self)@.activations == old(self)@.activations,
            r is Err <==> gradient@.architecture != old(self)@.architecture,
            r matches Err(e) ==> e == Error::DimensionMismatch && final(self)@ == old(self)@,
            r is Ok ==> is_descent(old(self)@, rate, gradient@, final(self)@),
    {
        if !self.same_architecture(gradient) {
            return Err(Error::DimensionMismatch);
        }
        let n = self.architecture.len();
        let step = |p: T, g: T| -> (r: T)
            ensures
                is_descent_step(p, rate, g, r),
            {
                let s = rate.times(g);
                let r = p.minus(s);
                assert(descent_steps(p, rate, g, s, r));
                r
            };
        let mut l: usize = 0;
        while l + 1 < n
            invariant
                self.inv(),
                gradient.wf(),
                n == self.architecture@.len(),
                self.architecture@ == old(self).architecture@,
                self.architecture@ == gradient.architecture@,
                self.activations@ == old(self).activations@,
                l + 1 <= n,
                forall|x: T, y: T| call_requires(step, (x, y)),
                forall|x: T, y: T, z: T|
                    call_ensures(step, (x, y), z) ==> is_descent_step(x, rate, y, z),
                forall|k: int| l <= k < n - 1 ==> self.weights@[k] == old(self).weights@[k],
                forall|k: int| l <= k < n - 1 ==> self.biases@[k] == old(self).biases@[k],
                forall|k: int, i: int, j: int|
                    0 <= k < l && 0 <= i < self.architecture@[k] && 0 <= j < self.architecture@[k
                        + 1] ==> is_descent_step(
                        old(self).weights@[k]@[i][j],
                        rate,
                        gradient.weights@[k]@[i][j],
                        #[trigger] self.weights@[k]@[i][j],
                    ),
                forall|k: int, j: int|
                    0 <= k < l && 0 <= j < self.architecture@[k + 1] ==> is_descent_step(
                        old(self).biases@[k]@[0][j],
                        rate,
                        gradient.biases@[k]@[0][j],
                        #[trigger] self.biases@[k]@[0][j],
                    ),
            decreases n - l,
        {
            let moved = self.weights[l].combine(&gradient.weights[l], &step);
            let shifted = self.biases[l].combine(&gradient.biases[l], &step);
            assert(moved is Ok && shifted is Ok);
            l = l + 1;
        }
        proof {
            self.lemma_inv_shaped();
            assert(self@.activations =~= old(self)@.activations);
        }
        Ok(())
    }

    /// Writes into `gradient` the estimate for weight `(i, j)` of layer `l`.
    fn estimate_weight(
        &mut self,
        gradient: &mut Network<T>,
        eps: T,
        set: &TrainingSet<T>,
        c0: T,
        l: usize,
        i: usize,
        j: usize,
    )
        requires
            old(self).wf(),
            old(gradient).wf(),
            old(gradient)@.architecture == old(self)@.architecture,
            set.wf(),
            set.fits(old(self)@),
            l + 1 < old(self)@.architecture.len(),
            i < old(self)@.architecture[l as int],
            j < old(self)@.architecture[l + 1],
        ensures
            final(self).wf(),
            final(self)@.architecture == old(self)@.architecture,
            final(self)@.weights == old(self)@.weights,
            final(self)@.biases == old(self)@.biases,
            final(gradient).wf(),
            final(gradient)@ == old(gradient)@.with_weight(
                l as int,
                i as int,
                j as int,
                final(gradient)@.weights[l as int][i as int][j as int],
            ),
            is_weight_estimate(
                old(self)@.weights,
                old(self)@.biases,
                set@,
                eps,
                c0,
                l as int,
                i as int,
                j as int,
                final(gradient)@.weights[l as int][i as int][j as int],
            ),
    {
        let saved = self.weight(l, i, j);
        let v = saved.plus(eps);
        self.set_weight(l, i, j, v);
        let moved = self.cost(set);
        match moved {
            Ok(c1) => {
                let d = c1.minus(c0);
                let g = d.over(eps);
                gradient.set_weight(l, i, j, g);
                proof {
                    assert(cost_slope_steps(c0, c1, eps, d, g));
                    assert(weight_estimate_steps(
                        old(self)@.weights,
                        old(self)@.biases,
                        set@,
                        eps,
                        c0,
                        l as int,
                        i as int,
                        j as int,
                        v,
                        c1,
                        g,
                    ));
                }
            },
            Err(_) => {
                assert(false);
            },
        }
        self.set_weight(l, i, j, saved);
        proof {
            let w0 = old(self)@.weights;
            assert(self@.weights[l as int][i as int] =~= w0[l as int][i as int]);
            assert(self@.weights[l as int] =~= w0[l as int]);
            assert(self@.weights =~= w0);
        }
    }

    /// Writes into `gradient` the estimate for bias `j` of layer `l + 1`.
    fn estimate_bias(
        &mut self,
        gradient: &mut Network<T>,
        eps: T,
        set: &TrainingSet<T>,
        c0: T,
        l: usize,
        j: usize,
    )
        requires
            old(self).wf(),
            old(gradient).wf(),
            old(gradient)@.architecture == old(self)@.architecture,
            set.wf(),
            set.fits(old(self)@),
            l + 1 < old(self)@.architecture.len(),
            j < old(self)@.architecture[l + 1],
        ensures
            final(self).wf(),
            final(self)@.architecture == old(self)@.architecture,
            final(self)@.weights == old(self)@.weights,
            final(self)@.biases == old(self)@.biases,
            final(gradient).wf(),
            final(gradient)@ == old(gradient)@.with_bias(
                l as int,
                j as int,
                final(gradient)@.biases[l as int][j as int],
            ),
            is_bias_estimate(
                old(self)@.weights,
                old(self)@.biases,
                set@,
                eps,
                c0,
                l as int,
                j as int,
                final(gradient)@.biases[l as int][j as int],
            ),
    {
        let saved = self.bias(l, j);
        let v = saved.plus(eps);
        self.set_bias(l, j, v);
        let moved = self.cost(set);
        match moved {
            Ok(c1) => {
                let d = c1.minus(c0);
                let g = d.over(eps);
                gradient.set_bias(l, j, g);
                proof {
                    assert(cost_slope_steps(c0, c1, eps, d, g));
                    assert(bias_estimate_steps(
                        old(self)@.weights,
                        old(self)@.biases,
                        set@,
                        eps,
                        c0,
                        l as int,
                        j as int,
                        v,
                        c1,
                        g,
                    ));
                }
            },
            Err(_) => {
                assert(false);
            },
        }
        self.set_bias(l, j, saved);
        proof {
            let b0 = old(self)@.biases;
            assert(self@.biases[l as int] =~= b0[l as int]);
            assert(self@.biases =~= b0);
        }
    }

    /// Estimates the gradient of the cost by finite differences.
    ///
    /// Every weight and bias in turn is moved by `eps`, the cost taken, and
    /// the parameter put back; the entry of `gradient` in the same place
    /// becomes the change of the cost divided by `eps`. The parameters of
    /// the network end as they began, and its activations are used as
    /// scratch. A gradient of another architecture is refused, and so is a
    /// set that does not fit the network.
    pub fn finite_diff(&mut self, gradient: &mut Network<T>, eps: T, set: &TrainingSet<T>) -> (r:
        Result<(), Error>)
        requires
            old(self).wf(),
            old(gradient).wf(),
            set.wf(),
        ensures
            final(self).wf(),
            final(gradient).wf(),
            final(self)@.architecture == old(self)@.architecture,
            final(self)@.weights == old(self)@.weights,
            final(self)@.biases == old(self)@.biases,
            final(gradient)@.architecture == old(gradient)@.architecture,
            final(gradient)@.activations == old(gradient)@.activations,
            r is Ok <==> old(gradient)@.architecture == old(self)@.architecture && set.fits(
                old(self)@,
            ),
            r matches Err(e) ==> {
                &&& e == (if old(gradient)@.architecture != old(self)@.architecture {
                    Error::DimensionMismatch
                } else {
                    Error::ConfigurationError
                })
                &&& final(self)@ == old(self)@
                &&& final(gradient)@ == old(gradient)@
            },
            r is Ok ==> exists|c0: T| #[trigger]
                is_finite_difference(old(self)@, set@, eps, c0, final(gradient)@),
    {
        if !self.same_architecture(gradient) {
            return Err(Error::DimensionMismatch);
        }
        let c0 = match self.cost(set) {
            Ok(c) => c,
            Err(e) => {
                return Err(e);
            },
        };
        let ghost w0 = self@.weights;
        let ghost b0 = self@.biases;
        let ghost arch = self@.architecture;
        let n = self.architecture.len();
        let mut l: usize = 0;
        while l + 1 < n
            invariant
                self.wf(),
                gradient.wf(),
                set.wf(),
                set.fits(self@),
                n == arch.len(),
                self@.architecture == arch,
                gradient@.architecture == arch,
                self@.weights == w0,
                self@.biases == b0,
                gradient@.activations == old(gradient)@.activations,
                l + 1 <= n,
                forall|k: int, i: int, j: int|
                    0 <= k < l && 0 <= i < arch[k] && 0 <= j < arch[k + 1] ==> is_weight_estimate(
                        w0,
                        b0,
                        set@,
                        eps,
                        c0,
                        k,
                        i,
                        j,
                        #[trigger] gradient@.weights[k][i][j],
                    ),
                forall|k: int, j: int|
                    0 <= k < l && 0 <= j < arch[k + 1] ==> is_bias_estimate(
                        w0,
                        b0,
                        set@,
                        eps,
                        c0,
                        k,
                        j,
                        #[trigger] gradient@.biases[k][j],
                    ),
            decreases n - l,
        {
            let rows = self.architecture[l];
            let cols = self.architecture[l + 1];
            let mut i: usize = 0;
            while i < rows
                invariant
                    self.wf(),
                    gradient.wf(),
                    set.wf(),
                    set.fits(self@),
                    n == arch.len(),
                    self@.architecture == arch,
                    gradient@.architecture == arch,
                    self@.weights == w0,
                    self@.biases == b0,
                    gradient@.activations == old(gradient)@.activations,
                    l + 1 < n,
                    rows == arch[l as int],
                    cols == arch[l + 1],
                    i <= rows,
                    forall|k: int, i: int, j: int|
                        0 <= k < l && 0 <= i < arch[k] && 0 <= j < arch[k + 1]
                            ==> is_weight_estimate(
                            w0,
                            b0,
                            set@,
                            eps,
                            c0,
                            k,
                            i,
                            j,
                            #[trigger] gradient@.weights[k][i][j],
                        ),
                    forall|k: int, j: int|
                        0 <= k < l && 0 <= j < arch[k + 1] ==> is_bias_estimate(
                            w0,
                            b0,
                            set@,
                            eps,
                            c0,
                            k,
                            j,
                            #[trigger] gradient@.biases[k][j],
                        ),
                    forall|r: int, j: int|
                        0 <= r < i && 0 <= j < cols ==> is_weight_estimate(
                            w0,
                            b0,
                            set@,
                            eps,
                            c0,
                            l as int,
                            r,
                            j,
                            #[trigger] gradient@.weights[l as int][r][j],
                        ),
                decreases rows - i,
            {
                let mut j: usize = 0;
                while j < cols
                    invariant
                        self.wf(),
                        gradient.wf(),
                        set.wf(),
                        set.fits(self@),
                        n == arch.len(),
                        self@.architecture == arch,
                        gradient@.architecture == arch,
                        self@.weights == w0,
                        self@.biases == b0,
                        gradient@.activations == old(gradient)@.activations,
                        l + 1 < n,
                        rows == arch[l as int],
                        cols == arch[l + 1],
                        i < rows,
                        j <= cols,
                        forall|k: int, i: int, j: int|
                            0 <= k < l && 0 <= i < arch[k] && 0 <= j < arch[k + 1]
                                ==> is_weight_estimate(
                                w0,
                                b0,
                                set@,
                                eps,
                                c0,
                                k,
                                i,
                                j,
                                #[trigger] gradient@.weights[k][i][j],
                            ),
                        forall|k: int, j: int|
                            0 <= k < l && 0 <= j < arch[k + 1] ==> is_bias_estimate(
                                w0,
                                b0,
                                set@,
                                eps,
                                c0,
                                k,
                                j,
                                #[trigger] gradient@.biases[k][j],
                            ),
                        forall|r: int, j: int|
                            0 <= r < i && 0 <= j < cols ==> is_weight_estimate(
                                w0,
                                b0,
                                set@,
                                eps,
                                c0,
                                l as int,
                                r,
                                j,
                                #[trigger] gradient@.weights[l as int][r][j],
                            ),
                        forall|c: int|
                            0 <= c < j ==> is_weight_estimate(
                                w0,
                                b0,
                                set@,
                                eps,
                                c0,
                                l as int,
                                i as int,
                                c,
                                #[trigger] gradient@.weights[l as int][i as int][c],
                            ),
                    decreases cols - j,
                {
                    self.estimate_weight(gradient, eps, set, c0, l, i, j);
                    j = j + 1;
                }
                i = i + 1;
            }
            let mut j: usize = 0;
            while j < cols
                invariant
                    self.wf(),
                    gradient.wf(),
                    set.wf(),
                    set.fits(self@),
                    n == arch.len(),
                    self@.architecture == arch,
                    gradient@.architecture == arch,
                    self@.weights == w0,
                    self@.biases == b0,
                    gradient@.activations == old(gradient)@.activations,
                    l + 1 < n,
                    cols == arch[l + 1],
                    j <= cols,
                    forall|k: int, i: int, j: int|
                        0 <= k < l + 1 && 0 <= i < arch[k] && 0 <= j < arch[k + 1]
                            ==> is_weight_estimate(
                            w0,
                            b0,
                            set@,
                            eps,
                            c0,
                            k,
                            i,
                            j,
                            #[trigger] gradient@.weights[k][i][j],
                        ),
                    forall|k: int, j: int|
                        0 <= k < l && 0 <= j < arch[k + 1] ==> is_bias_estimate(
                            w0,
                            b0,
                            set@,
                            eps,
                            c0,
                            k,
                            j,
                            #[trigger] gradient@.biases[k][j],
                        ),
                    forall|c: int|
                        0 <= c < j ==> is_bias_estimate(
                            w0,
                            b0,
                            set@,
                            eps,
                            c0,
                            l as int,
                            c,
                            #[trigger] gradient@.biases[l as int][c],
                        ),
                decreases cols - j,
            {
                self.estimate_bias(gradient, eps, set, c0, l, j);
                j = j + 1;
            }
            l = l + 1;
        }
        proof {
            assert(is_finite_difference(old(self)@, set@, eps, c0, gradient@));
        }
        Ok(())
    }
}

} // verus!
