//! The gradient of the cost by backpropagation.
use crate::error::Error;
use crate::network::{is_forward_pass, Network};
use crate::scalar::Scalar;
use crate::scalar::{
    is_count, is_difference, is_dot, is_product, is_product_added, is_quotient, is_slope, is_sum,
    is_zero, sigmoid_slope,
};
use crate::training::{Examples, TrainingSet};
use vstd::prelude::*;

verus! {

/// `e` is `t` times the slope of the logistic function where its value is
/// `a`.
pub open spec fn is_slope_scaled<T: Scalar>(t: T, a: T, e: T) -> bool {
    exists|s: T| #[trigger] slope_scaled_steps(t, a, s, e)
}

/// The intermediate value of a scaling by the slope: the slope `s`.
pub open spec fn slope_scaled_steps<T: Scalar>(t: T, a: T, s: T, e: T) -> bool {
    &&& is_slope(a, s)
    &&& is_product(t, s, e)
}

/// `e` is the error signal of an output neuron with activation `a` and
/// expected value `y`: their difference times the slope at `a`.
pub open spec fn is_output_error<T: Scalar>(a: T, y: T, e: T) -> bool {
    exists|d: T| #[trigger] is_difference(a, y, d) && is_slope_scaled(d, a, e)
}

/// `e` holds the error signals of the output layer.
pub open spec fn is_output_errors<T: Scalar>(a: Seq<T>, y: Seq<T>, e: Seq<T>) -> bool {
    &&& e.len() == a.len()
    &&& forall|j: int| 0 <= j < a.len() ==> is_output_error(a[j], y[j], #[trigger] e[j])
}

/// `e` is the error signal of a hidden neuron with activation `a` and
/// outgoing weights `w`, where the next layer has the error signals `next`:
/// the dot product of `next` and `w`, times the slope at `a`.
pub open spec fn is_hidden_error<T: Scalar>(next: Seq<T>, w: Seq<T>, a: T, e: T) -> bool {
    exists|t: T| #[trigger] is_dot(next, w, t) && is_slope_scaled(t, a, e)
}

/// `e` holds the error signals of a hidden layer with activations `a` and
/// outgoing weights `w`. Neuron `i` takes row `i` of `w`.
pub open spec fn is_hidden_errors<T: Scalar>(
    next: Seq<T>,
    w: Seq<Seq<T>>,
    a: Seq<T>,
    e: Seq<T>,
) -> bool {
    &&& e.len() == a.len()
    &&& forall|i: int| 0 <= i < a.len() ==> is_hidden_error(next, w[i], a[i], #[trigger] e[i])
}

/// In `errors`, layer `l` holds the error signals that follow from those of
/// layer `l + 1`.
pub open spec fn hidden_holds<T: Scalar>(
    weights: Seq<Seq<Seq<T>>>,
    activations: Seq<Seq<T>>,
    errors: Seq<Seq<T>>,
    l: int,
) -> bool {
    is_hidden_errors(errors[l + 1], weights[l], activations[l], errors[l])
}

/// `errors` is a complete backward pass: the last layer holds the output
/// errors, and every hidden layer the errors that follow from the layer
/// after it. The first layer has no error signal.
pub open spec fn is_backward_pass<T: Scalar>(
    weights: Seq<Seq<Seq<T>>>,
    activations: Seq<Seq<T>>,
    expected: Seq<T>,
    errors: Seq<Seq<T>>,
) -> bool {
    &&& errors.len() == activations.len()
    &&& is_output_errors(activations.last(), expected, errors.last())
    &&& forall|l: int|
        1 <= l < weights.len() ==> #[trigger] hidden_holds(weights, activations, errors, l)
}

/// The gradient of one layer grows by one example: weight `(i, j)` by the
/// product of activation `i` and error `j`, bias `j` by error `j`.
pub open spec fn is_layer_accumulated<T: Scalar>(
    a: Seq<T>,
    e: Seq<T>,
    w0: Seq<Seq<T>>,
    b0: Seq<T>,
    w1: Seq<Seq<T>>,
    b1: Seq<T>,
) -> bool {
    &&& forall|i: int, j: int|
        0 <= i < w0.len() && 0 <= j < w0[i].len() ==> is_product_added(
            w0[i][j],
            a[i],
            e[j],
            #[trigger] w1[i][j],
        )
    &&& forall|j: int| 0 <= j < b0.len() ==> is_sum(b0[j], e[j], #[trigger] b1[j])
}

/// Layer `l` of the gradient grows by one example.
pub open spec fn accumulated_at<T: Scalar>(
    activations: Seq<Seq<T>>,
    errors: Seq<Seq<T>>,
    w0: Seq<Seq<Seq<T>>>,
    b0: Seq<Seq<T>>,
    w1: Seq<Seq<Seq<T>>>,
    b1: Seq<Seq<T>>,
    l: int,
) -> bool {
    is_layer_accumulated(activations[l], errors[l + 1], w0[l], b0[l], w1[l], b1[l])
}

/// The forward and backward pass of one example `(input, expected)`, and the
/// gradient `(w1, b1)` that results from `(w0, b0)` by adding that example.
pub open spec fn example_gradient_steps<T: Scalar>(
    weights: Seq<Seq<Seq<T>>>,
    biases: Seq<Seq<T>>,
    input: Seq<T>,
    expected: Seq<T>,
    activations: Seq<Seq<T>>,
    errors: Seq<Seq<T>>,
    w0: Seq<Seq<Seq<T>>>,
    b0: Seq<Seq<T>>,
    w1: Seq<Seq<Seq<T>>>,
    b1: Seq<Seq<T>>,
) -> bool {
    &&& activations[0] == input
    &&& is_forward_pass(weights, biases, activations)
    &&& is_backward_pass(weights, activations, expected, errors)
    &&& forall|l: int|
        0 <= l < weights.len() ==> #[trigger] accumulated_at(activations, errors, w0, b0, w1, b1, l)
}

/// The gradient `(w1, b1)` is `(w0, b0)` with the example
/// `(input, expected)` added.
pub open spec fn is_example_gradient_added<T: Scalar>(
    weights: Seq<Seq<Seq<T>>>,
    biases: Seq<Seq<T>>,
    input: Seq<T>,
    expected: Seq<T>,
    w0: Seq<Seq<Seq<T>>>,
    b0: Seq<Seq<T>>,
    w1: Seq<Seq<Seq<T>>>,
    b1: Seq<Seq<T>>,
) -> bool {
    exists|activations: Seq<Seq<T>>, errors: Seq<Seq<T>>| #[trigger]
        example_gradient_steps(
            weights,
            biases,
            input,
            expected,
            activations,
            errors,
            w0,
            b0,
            w1,
            b1,
        )
}

/// Every entry of `(w, b)` in the shape of the network is zero.
pub open spec fn is_zero_gradient<T: Scalar>(
    weights: Seq<Seq<Seq<T>>>,
    biases: Seq<Seq<T>>,
    w: Seq<Seq<Seq<T>>>,
    b: Seq<Seq<T>>,
) -> bool {
    &&& forall|l: int, i: int, j: int|
        0 <= l < weights.len() && 0 <= i < weights[l].len() && 0 <= j < weights[l][i].len()
            ==> is_zero(#[trigger] w[l][i][j])
    &&& forall|l: int, j: int|
        0 <= l < biases.len() && 0 <= j < biases[l].len() ==> is_zero(#[trigger] b[l][j])
}

/// `(w, b)` is the sum of the gradients of all examples, added up from
/// zero, example after example.
pub open spec fn is_gradient_sum<T: Scalar>(
    weights: Seq<Seq<Seq<T>>>,
    biases: Seq<Seq<T>>,
    inputs: Seq<Seq<T>>,
    outputs: Seq<Seq<T>>,
    w: Seq<Seq<Seq<T>>>,
    b: Seq<Seq<T>>,
) -> bool
    recommends
        inputs.len() == outputs.len(),
    decreases inputs.len(),
{
    if inputs.len() == 0 {
        is_zero_gradient(weights, biases, w, b)
    } else {
        exists|w0: Seq<Seq<Seq<T>>>, b0: Seq<Seq<T>>|
            is_gradient_sum(weights, biases, inputs.drop_last(), outputs.drop_last(), w0, b0)
                && #[trigger] is_example_gradient_added(
                weights,
                biases,
                inputs.last(),
                outputs.last(),
                w0,
                b0,
                w,
                b,
            )
    }
}

/// Every entry of `(w, b)` is the entry of `(sw, sb)` in the same place,
/// divided by `n`.
pub open spec fn is_divided<T: Scalar>(
    sw: Seq<Seq<Seq<T>>>,
    sb: Seq<Seq<T>>,
    n: T,
    w: Seq<Seq<Seq<T>>>,
    b: Seq<Seq<T>>,
) -> bool {
    &&& forall|l: int, i: int, j: int|
        0 <= l < sw.len() && 0 <= i < sw[l].len() && 0 <= j < sw[l][i].len() ==> is_quotient(
            sw[l][i][j],
            n,
            #[trigger] w[l][i][j],
        )
    &&& forall|l: int, j: int|
        0 <= l < sb.len() && 0 <= j < sb[l].len() ==> is_quotient(sb[l][j], n, #[trigger] b[l][j])
}

/// The intermediate values of a gradient: the sum `(sw, sb)` over all
/// examples and the number `n` of examples.
pub open spec fn gradient_steps<T: Scalar>(
    weights: Seq<Seq<Seq<T>>>,
    biases: Seq<Seq<T>>,
    examples: Examples<T>,
    sw: Seq<Seq<Seq<T>>>,
    sb: Seq<Seq<T>>,
    n: T,
    w: Seq<Seq<Seq<T>>>,
    b: Seq<Seq<T>>,
) -> bool {
    &&& is_gradient_sum(weights, biases, examples.inputs, examples.outputs, sw, sb)
    &&& is_count(examples.inputs.len() as usize, n)
    &&& is_divided(sw, sb, n, w, b)
}

/// `(w, b)` is the gradient of the cost by backpropagation: the gradients
/// of all examples, summed and divided by the number of examples.
pub open spec fn is_gradient<T: Scalar>(
    weights: Seq<Seq<Seq<T>>>,
    biases: Seq<Seq<T>>,
    examples: Examples<T>,
    w: Seq<Seq<Seq<T>>>,
    b: Seq<Seq<T>>,
) -> bool {
    exists|sw: Seq<Seq<Seq<T>>>, sb: Seq<Seq<T>>, n: T| #[trigger]
        gradient_steps(weights, biases, examples, sw, sb, n, w, b)
}

impl<T: Scalar> Network<T> {
    /// Replaces every weight and bias by zero.
    fn clear_parameters(&mut self)
        requires
            old(self).wf(),
        ensures
            final(self).wf(),
            final(self)@.architecture == old(self)@.architecture,
            final(self)@.activations == old(self)@.activations,
            is_zero_gradient(
                final(self)@.weights,
                final(self)@.biases,
                final(self)@.weights,
                final(self)@.biases,
            ),
    {
        let n = self.architecture.len();
        let z = T::zero();
        let clear = |x: T| -> (r: T)
            ensures
                r == z,
            {
                z
            };
        let mut l: usize = 0;
        while l + 1 < n
            invariant
                self.inv(),
                n == self.architecture@.len(),
                self.architecture@ == old(self).architecture@,
                self.activations@ == old(self).activations@,
                l + 1 <= n,
                is_zero(z),
                forall|x: T| call_requires(clear, (x,)),
                forall|x: T, y: T| call_ensures(clear, (x,), y) ==> y == z,
                forall|k: int, i: int, j: int|
                    0 <= k < l && 0 <= i < self.architecture@[k] && 0 <= j < self.architecture@[k
                        + 1] ==> is_zero(#[trigger] self.weights@[k]@[i][j]),
                forall|k: int, j: int|
                    0 <= k < l && 0 <= j < self.architecture@[k + 1] ==> is_zero(
                        #[trigger] self.biases@[k]@[0][j],
                    ),
            decreases n - l,
        {
            self.weights[l].map(&clear);
            self.biases[l].map(&clear);
            l = l + 1;
        }
        proof {
            self.lemma_inv_shaped();
            assert(self@.activations =~= old(self)@.activations);
        }
    }

    /// Divides every weight and bias by `n`.
    fn divide_parameters(&mut self, n: T)
        requires
            old(self).wf(),
        ensures
            final(self).wf(),
            final(self)@.architecture == old(self)@.architecture,
            final(self)@.activations == old(self)@.activations,
            is_divided(
                old(self)@.weights,
                old(self)@.biases,
                n,
                final(self)@.weights,
                final(self)@.biases,
            ),
    {
        let count = self.architecture.len();
        let divide = |x: T| -> (r: T)
            ensures
                is_quotient(x, n, r),
            {
                x.over(n)
            };
        let mut l: usize = 0;
        while l + 1 < count
            invariant
                self.inv(),
                old(self).wf(),
                count == self.architecture@.len(),
                self.architecture@ == old(self).architecture@,
                self.activations@ == old(self).activations@,
                l + 1 <= count,
                forall|x: T| call_requires(divide, (x,)),
                forall|x: T, y: T| call_ensures(divide, (x,), y) ==> is_quotient(x, n, y),
                forall|k: int| l <= k < count - 1 ==> self.weights@[k] == old(self).weights@[k],
                forall|k: int| l <= k < count - 1 ==> self.biases@[k] == old(self).biases@[k],
                forall|k: int, i: int, j: int|
                    0 <= k < l && 0 <= i < self.architecture@[k] && 0 <= j < self.architecture@[k
                        + 1] ==> is_quotient(
                        old(self).weights@[k]@[i][j],
                        n,
                        #[trigger] self.weights@[k]@[i][j],
                    ),
                forall|k: int, j: int|
                    0 <= k < l && 0 <= j < self.architecture@[k + 1] ==> is_quotient(
                        old(self).biases@[k]@[0][j],
                        n,
                        #[trigger] self.biases@[k]@[0][j],
                    ),
            decreases count - l,
        {
            self.weights[l].map(&divide);
            self.biases[l].map(&divide);
            l = l + 1;
        }
        proof {
            self.lemma_inv_shaped();
            assert(self@.activations =~= old(self)@.activations);
        }
    }
}

/// Writes the error signals of the output layer for example `r` into the
/// last layer of `gradient`.
fn set_output_errors<T: Scalar>(
    gradient: &mut Network<T>,
    net: &Network<T>,
    set: &TrainingSet<T>,
    r: usize,
)
    requires
        old(gradient).wf(),
        net.wf(),
        old(gradient)@.architecture == net@.architecture,
        set.wf(),
        set.fits(net@),
        r < set.len(),
    ensures
        final(gradient).wf(),
        final(gradient)@.architecture == old(gradient)@.architecture,
        final(gradient)@.weights == old(gradient)@.weights,
        final(gradient)@.biases == old(gradient)@.biases,
        final(gradient)@.activations == old(gradient)@.activations.update(
            net@.architecture.len() - 1,
            final(gradient)@.activations.last(),
        ),
        is_output_errors(
            net@.output(),
            set@.outputs[r as int],
            final(gradient)@.activations.last(),
        ),
{
    let last = net.architecture.len() - 1;
    let expected = set.outputs().row(r);
    let mut errors = net.activations[last].row(0);
    let each = |a: T, y: T| -> (e: T)
        ensures
            is_output_error(a, y, e),
        {
            let d = a.minus(y);
            let s = sigmoid_slope(a);
            let e = d.times(s);
            assert(slope_scaled_steps(d, a, s, e));
            assert(is_difference(a, y, d) && is_slope_scaled(d, a, e));
            e
        };
    let done = errors.combine(&expected, each);
    assert(done is Ok);
    gradient.activations.set(last, errors);
    proof {
        gradient.lemma_inv_shaped();
        assert(gradient@.weights =~= old(gradient)@.weights);
        assert(gradient@.biases =~= old(gradient)@.biases);
        assert(gradient@.activations =~= old(gradient)@.activations.update(
            last as int,
            gradient@.activations.last(),
        ));
    }
}

/// Writes into layer `k` of `gradient` the error signals that follow from
/// those of layer `k + 1`.
fn set_hidden_errors<T: Scalar>(gradient: &mut Network<T>, net: &Network<T>, k: usize)
    requires
        old(gradient).wf(),
        net.wf(),
        old(gradient)@.architecture == net@.architecture,
        k < net@.architecture.len() - 1,
    ensures
        final(gradient).wf(),
        final(gradient)@.architecture == old(gradient)@.architecture,
        final(gradient)@.weights == old(gradient)@.weights,
        final(gradient)@.biases == old(gradient)@.biases,
        final(gradient)@.activations == old(gradient)@.activations.update(
            k as int,
            final(gradient)@.activations[k as int],
        ),
        is_hidden_errors(
            old(gradient)@.activations[k + 1],
            net@.weights[k as int],
            net@.activations[k as int],
            final(gradient)@.activations[k as int],
        ),
{
    let count = net.architecture.len();
    let above = k + 1;
    let product = gradient.activations[above].multiply_transposed(&net.weights[k]);
    match product {
        Ok(mut errors) => {
            let ghost sums = errors@;
            let each = |t: T, a: T| -> (e: T)
                ensures
                    is_slope_scaled(t, a, e),
                {
                    let s = sigmoid_slope(a);
                    let e = t.times(s);
                    assert(slope_scaled_steps(t, a, s, e));
                    e
                };
            let done = errors.combine(&net.activations[k], each);
            assert(done is Ok);
            proof {
                let next = old(gradient)@.activations[k + 1];
                let w = net@.weights[k as int];
                assert(net.weights@[k as int].wf());
                let a = net@.activations[k as int];
                assert forall|i: int| 0 <= i < a.len() implies is_hidden_error(
                    next,
                    w[i],
                    a[i],
                    #[trigger] errors@[0][i],
                ) by {
                    assert(is_dot(next, w[i], sums[0][i]) && is_slope_scaled(
                        sums[0][i],
                        a[i],
                        errors@[0][i],
                    ));
                }
            }
            gradient.activations.set(k, errors);
        },
        Err(_) => {
            assert(false);
        },
    }
    proof {
        gradient.lemma_inv_shaped();
        assert(gradient@.weights =~= old(gradient)@.weights);
        assert(gradient@.biases =~= old(gradient)@.biases);
        assert(gradient@.activations =~= old(gradient)@.activations.update(
            k as int,
            gradient@.activations[k as int],
        ));
    }
}

/// Adds to the weights and biases of layer `k` of `gradient` what the
/// current example gives: for weight `(i, j)` the product of activation `i`
/// of layer `k` and error `j` of layer `k + 1`, for bias `j` that error.
fn accumulate_layer<T: Scalar>(gradient: &mut Network<T>, net: &Network<T>, k: usize)
    requires
        old(gradient).wf(),
        net.wf(),
        old(gradient)@.architecture == net@.architecture,
        k < net@.architecture.len() - 1,
    ensures
        final(gradient).wf(),
        final(gradient)@.architecture == old(gradient)@.architecture,
        final(gradient)@.activations == old(gradient)@.activations,
        final(gradient)@.weights == old(gradient)@.weights.update(
            k as int,
            final(gradient)@.weights[k as int],
        ),
        final(gradient)@.biases == old(gradient)@.biases.update(
            k as int,
            final(gradient)@.biases[k as int],
        ),
        is_layer_accumulated(
            net@.activations[k as int],
            old(gradient)@.activations[k + 1],
            old(gradient)@.weights[k as int],
            old(gradient)@.biases[k as int],
            final(gradient)@.weights[k as int],
            final(gradient)@.biases[k as int],
        ),
{
    let count = net.architecture.len();
    let above = k + 1;
    let grown = gradient.weights[k].add_outer(&net.activations[k], &gradient.activations[above]);
    let shifted = gradient.biases[k].add_row(&gradient.activations[above]);
    assert(grown is Ok && shifted is Ok);
    proof {
        gradient.lemma_inv_shaped();
        assert(gradient@.activations =~= old(gradient)@.activations);
        assert(gradient@.weights =~= old(gradient)@.weights.update(
            k as int,
            gradient@.weights[k as int],
        ));
        assert(gradient@.biases =~= old(gradient)@.biases.update(
            k as int,
            gradient@.biases[k as int],
        ));
    }
}

/// Adds to `gradient` what example `r` gives, by one backward pass.
///
/// The activations of `net` are those of its forward pass on the example;
/// the activations of `gradient` are used to hold the error signals.
fn add_example_gradient<T: Scalar>(
    gradient: &mut Network<T>,
    net: &Network<T>,
    set: &TrainingSet<T>,
    r: usize,
)
    requires
        old(gradient).wf(),
        net.wf(),
        old(gradient)@.architecture == net@.architecture,
        set.wf(),
        set.fits(net@),
        r < set.len(),
        net@.activations[0] == set@.inputs[r as int],
        is_forward_pass(net@.weights, net@.biases, net@.activations),
    ensures
        final(gradient).wf(),
        final(gradient)@.architecture == old(gradient)@.architecture,
        is_example_gradient_added(
            net@.weights,
            net@.biases,
            set@.inputs[r as int],
            set@.outputs[r as int],
            old(gradient)@.weights,
            old(gradient)@.biases,
            final(gradient)@.weights,
            final(gradient)@.biases,
        ),
{
    let n = net.architecture.len();
    let ghost w0 = gradient@.weights;
    let ghost b0 = gradient@.biases;
    let ghost acts = net@.activations;
    let ghost expected = set@.outputs[r as int];
    set_output_errors(gradient, net, set, r);
    let mut l: usize = n - 1;
    while l > 0
        invariant
            gradient.wf(),
            net.wf(),
            gradient@.architecture == net@.architecture,
            n == net@.architecture.len(),
            acts == net@.activations,
            l <= n - 1,
            is_output_errors(acts.last(), expected, gradient@.activations.last()),
            forall|k: int|
                l <= k < n - 1 && 1 <= k ==> #[trigger] hidden_holds(
                    net@.weights,
                    acts,
                    gradient@.activations,
                    k,
                ),
            forall|k: int|
                l <= k < n - 1 ==> #[trigger] accumulated_at(
                    acts,
                    gradient@.activations,
                    w0,
                    b0,
                    gradient@.weights,
                    gradient@.biases,
                    k,
                ),
            forall|k: int| 0 <= k < l ==> gradient@.weights[k] == w0[k],
            forall|k: int| 0 <= k < l ==> gradient@.biases[k] == b0[k],
        decreases l,
    {
        let k = l - 1;
        let ghost before = gradient@;
        accumulate_layer(gradient, net, k);
        let ghost grown = gradient@;
        if k > 0 {
            set_hidden_errors(gradient, net, k);
        }
        proof {
            let after = gradient@;
            assert(after.weights == grown.weights);
            assert(after.biases == grown.biases);
            assert forall|m: int| k <= m < n - 1 && 1 <= m implies #[trigger] hidden_holds(
                net@.weights,
                acts,
                after.activations,
                m,
            ) by {
                if m > k {
                    assert(hidden_holds(net@.weights, acts, before.activations, m));
                }
            }
            assert forall|m: int| k <= m < n - 1 implies #[trigger] accumulated_at(
                acts,
                after.activations,
                w0,
                b0,
                after.weights,
                after.biases,
                m,
            ) by {
                if m > k {
                    assert(accumulated_at(
                        acts,
                        before.activations,
                        w0,
                        b0,
                        before.weights,
                        before.biases,
                        m,
                    ));
                }
            }
        }
        l = k;
    }
    proof {
        assert(example_gradient_steps(
            net@.weights,
            net@.biases,
            set@.inputs[r as int],
            expected,
            acts,
            gradient@.activations,
            w0,
            b0,
            gradient@.weights,
            gradient@.biases,
        ));
    }
}

impl<T: Scalar> Network<T> {
    /// Computes the gradient of the cost by backpropagation.
    ///
    /// The weights and biases of `gradient` are set to zero. Then every
    /// example in turn is run forward through the network and its errors
    /// backward, and what it gives is added to them. At the end each entry
    /// is divided by the number of examples.
    ///
    /// The parameters of the network stay as they are; its activations, and
    /// those of `gradient`, are used as scratch. A gradient of another
    /// architecture is refused, and so is a set that does not fit the
    /// network.
    pub fn backprop(&mut self, gradient: &mut Network<T>, set: &TrainingSet<T>) -> (r: Result<
        (),
        Error,
    >)
        requires
            old(self).wf(),
            old(gradient).wf(),
            set.wf(),
        ensures
            final(self).wf(),
            final(gradient).wf(),
            final(self)@.architecture == old(self)@.architecture,
            final(self)@.weights == old(self)@.weights,
            final(self)@.biases == old(self)@.biases,
            final(gradient)@.architecture == old(gradient)@.architecture,
            r is Ok <==> old(gradient)@.architecture == old(self)@.architecture && set.fits(
                old(self)@,
            ),
            r matches Err(e) ==> {
                &&& e == (if old(gradient)@.architecture != old(self)@.architecture {
                    Error::DimensionMismatch
                } else {
                    Error::ConfigurationError
                })
                &&& final(self)@ == old(self)@
                &&& final(gradient)@ == old(gradient)@
            },
            r is Ok ==> is_gradient(
                old(self)@.weights,
                old(self)@.biases,
                set@,
                final(gradient)@.weights,
                final(gradient)@.biases,
            ),
    {
        if !self.same_architecture(gradient) {
            return Err(Error::DimensionMismatch);
        }
        match set.check(self) {
            Err(e) => {
                return Err(e);
            },
            Ok(()) => {},
        }
        let ghost weights = self@.weights;
        let ghost biases = self@.biases;
        let ghost inputs = set@.inputs;
        let ghost outputs = set@.outputs;
        gradient.clear_parameters();
        let rows = set.len();
        let mut r: usize = 0;
        proof {
            assert(inputs.take(0).len() == 0);
            assert(is_zero_gradient(weights, biases, gradient@.weights, gradient@.biases));
        }
        while r < rows
            invariant
                self.wf(),
                gradient.wf(),
                set.wf(),
                set.fits(self@),
                rows == set.len(),
                self@.architecture == old(self)@.architecture,
                gradient@.architecture == self@.architecture,
                weights == old(self)@.weights,
                biases == old(self)@.biases,
                self@.weights == weights,
                self@.biases == biases,
                inputs == set@.inputs,
                outputs == set@.outputs,
                r <= rows,
                is_gradient_sum(
                    weights,
                    biases,
                    inputs.take(r as int),
                    outputs.take(r as int),
                    gradient@.weights,
                    gradient@.biases,
                ),
            decreases rows - r,
        {
            let ghost w0 = gradient@.weights;
            let ghost b0 = gradient@.biases;
            self.load_example(set, r);
            self.forward();
            add_example_gradient(gradient, self, set, r);
            proof {
                assert(inputs.take(r + 1).drop_last() =~= inputs.take(r as int));
                assert(outputs.take(r + 1).drop_last() =~= outputs.take(r as int));
                assert(is_example_gradient_added(
                    weights,
                    biases,
                    inputs.take(r + 1).last(),
                    outputs.take(r + 1).last(),
                    w0,
                    b0,
                    gradient@.weights,
                    gradient@.biases,
                ));
            }
            r = r + 1;
        }
        let ghost sw = gradient@.weights;
        let ghost sb = gradient@.biases;
        let n = T::from_count(rows);
        gradient.divide_parameters(n);
        proof {
            assert(inputs.take(rows as int) =~= inputs);
            assert(outputs.take(rows as int) =~= outputs);
            assert(gradient_steps(
                weights,
                biases,
                set@,
                sw,
                sb,
                n,
                gradient@.weights,
                gradient@.biases,
            ));
        }
        Ok(())
    }
}

} // verus!
