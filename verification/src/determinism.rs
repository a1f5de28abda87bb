//! What follows where the scalar operations are functions: equal networks
//! give equal outputs.
use crate::network::{
    is_forward_pass, is_layer_output, is_neuron_output, layer_holds, neuron_steps, NetworkView,
};
use crate::scalar::Scalar;
use crate::scalar::{
    is_count, is_difference, is_dot, is_exponential, is_negation, is_one, is_product, is_quotient,
    is_sigmoid, is_sum, is_term_added, is_zero, sigmoid_steps,
};
use vstd::prelude::*;

verus! {

/// Every operation of the scalar type is a function: for given operands it
/// can return one value only.
pub open spec fn is_deterministic<T: Scalar>() -> bool {
    &&& forall|a: T, b: T| #![trigger is_zero(a), is_zero(b)] is_zero(a) && is_zero(b) ==> a == b
    &&& forall|a: T, b: T| #![trigger is_one(a), is_one(b)] is_one(a) && is_one(b) ==> a == b
    &&& forall|n: usize, a: T, b: T|
        #![trigger is_count(n, a), is_count(n, b)]
        is_count(n, a) && is_count(n, b) ==> a == b
    &&& forall|x: T, y: T, a: T, b: T|
        #![trigger is_sum(x, y, a), is_sum(x, y, b)]
        is_sum(x, y, a) && is_sum(x, y, b) ==> a == b
    &&& forall|x: T, y: T, a: T, b: T|
        #![trigger is_difference(x, y, a), is_difference(x, y, b)]
        is_difference(x, y, a) && is_difference(x, y, b) ==> a == b
    &&& forall|x: T, y: T, a: T, b: T|
        #![trigger is_product(x, y, a), is_product(x, y, b)]
        is_product(x, y, a) && is_product(x, y, b) ==> a == b
    &&& forall|x: T, y: T, a: T, b: T|
        #![trigger is_quotient(x, y, a), is_quotient(x, y, b)]
        is_quotient(x, y, a) && is_quotient(x, y, b) ==> a == b
    &&& forall|x: T, a: T, b: T|
        #![trigger is_negation(x, a), is_negation(x, b)]
        is_negation(x, a) && is_negation(x, b) ==> a == b
    &&& forall|x: T, a: T, b: T|
        #![trigger is_exponential(x, a), is_exponential(x, b)]
        is_exponential(x, a) && is_exponential(x, b) ==> a == b
}

/// With deterministic operations, two vectors have one dot product.
pub proof fn lemma_dot_unique<T: Scalar>(a: Seq<T>, b: Seq<T>, r1: T, r2: T)
    requires
        is_deterministic::<T>(),
        is_dot(a, b, r1),
        is_dot(a, b, r2),
    ensures
        r1 == r2,
    decreases a.len(),
{
    if a.len() > 0 {
        let (pa, ma) = choose|p: T, m: T|
            is_dot(a.drop_last(), b.drop_last(), p) && #[trigger] is_term_added(
                p,
                a.last(),
                b.last(),
                m,
                r1,
            );
        let (pb, mb) = choose|p: T, m: T|
            is_dot(a.drop_last(), b.drop_last(), p) && #[trigger] is_term_added(
                p,
                a.last(),
                b.last(),
                m,
                r2,
            );
        lemma_dot_unique(a.drop_last(), b.drop_last(), pa, pb);
    }
}

/// With deterministic operations, the logistic function has one value at
/// each point.
pub proof fn lemma_sigmoid_unique<T: Scalar>(x: T, y1: T, y2: T)
    requires
        is_deterministic::<T>(),
        is_sigmoid(x, y1),
        is_sigmoid(x, y2),
    ensures
        y1 == y2,
{
    let (n1, e1, o1, d1) = choose|n: T, e: T, o: T, d: T| #[trigger]
        sigmoid_steps(x, n, e, o, d, y1);
    let (n2, e2, o2, d2) = choose|n: T, e: T, o: T, d: T| #[trigger]
        sigmoid_steps(x, n, e, o, d, y2);
    assert(n1 == n2);
    assert(e1 == e2);
    assert(o1 == o2);
    assert(d1 == d2);
}

/// With deterministic operations, a neuron has one output for given inputs.
pub proof fn lemma_neuron_unique<T: Scalar>(x: Seq<T>, w: Seq<T>, b: T, y1: T, y2: T)
    requires
        is_deterministic::<T>(),
        is_neuron_output(x, w, b, y1),
        is_neuron_output(x, w, b, y2),
    ensures
        y1 == y2,
{
    let (d1, s1) = choose|d: T, s: T| #[trigger] neuron_steps(x, w, b, d, s, y1);
    let (d2, s2) = choose|d: T, s: T| #[trigger] neuron_steps(x, w, b, d, s, y2);
    lemma_dot_unique(x, w, d1, d2);
    assert(s1 == s2);
    lemma_sigmoid_unique(s1, y1, y2);
}

/// With deterministic operations, a layer has one row of outputs for given
/// inputs.
pub proof fn lemma_layer_unique<T: Scalar>(
    x: Seq<T>,
    w: Seq<Seq<T>>,
    b: Seq<T>,
    y1: Seq<T>,
    y2: Seq<T>,
)
    requires
        is_deterministic::<T>(),
        is_layer_output(x, w, b, y1),
        is_layer_output(x, w, b, y2),
    ensures
        y1 == y2,
{
    assert forall|j: int| 0 <= j < y1.len() implies y1[j] == y2[j] by {
        lemma_neuron_unique(x, crate::matrix::column(w, j), b[j], y1[j], y2[j]);
    }
    assert(y1 =~= y2);
}

/// With deterministic operations, two forward passes through the same
/// weights and biases that start from the same inputs agree up to layer `l`.
proof fn lemma_forward_agrees<T: Scalar>(
    weights: Seq<Seq<Seq<T>>>,
    biases: Seq<Seq<T>>,
    first: Seq<Seq<T>>,
    second: Seq<Seq<T>>,
    l: int,
)
    requires
        is_deterministic::<T>(),
        is_forward_pass(weights, biases, first),
        is_forward_pass(weights, biases, second),
        first[0] == second[0],
        0 <= l <= weights.len(),
    ensures
        first[l] == second[l],
    decreases l,
{
    if l > 0 {
        lemma_forward_agrees(weights, biases, first, second, l - 1);
        assert(layer_holds(weights, biases, first, l - 1));
        assert(layer_holds(weights, biases, second, l - 1));
        lemma_layer_unique(first[l - 1], weights[l - 1], biases[l - 1], first[l], second[l]);
    }
}

/// Two networks with the same weights and biases give the same output for
/// the same input, and the same activations in every layer, where the
/// operations of the scalar type are deterministic.
///
/// `first` and `second` are the two networks after their forward passes.
pub proof fn lemma_forward_deterministic<T: Scalar>(first: NetworkView<T>, second: NetworkView<T>)
    requires
        is_deterministic::<T>(),
        first.weights == second.weights,
        first.biases == second.biases,
        first.activations[0] == second.activations[0],
        is_forward_pass(first.weights, first.biases, first.activations),
        is_forward_pass(second.weights, second.biases, second.activations),
    ensures
        first.activations == second.activations,
        first.output() == second.output(),
{
    assert forall|l: int| 0 <= l < first.activations.len() implies first.activations[l]
        == second.activations[l] by {
        lemma_forward_agrees(
            first.weights,
            first.biases,
            first.activations,
            second.activations,
            l,
        );
    }
    assert(first.activations =~= second.activations);
}

} // verus!
