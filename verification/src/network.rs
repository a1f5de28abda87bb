//! A dense network with logistic activations: its layers and the forward pass.
use crate::error::Error;
use crate::matrix::{column, is_drawn, Matrix};
use crate::scalar::Scalar;
use crate::scalar::{is_dot, is_sigmoid, is_sum, is_zero, sigmoid};
use vstd::prelude::*;

verus! {

/// A network of dense layers.
///
/// Layer `l` has `architecture[l]` neurons. Its activations are a row of that
/// many scalars; `weights[l]` and `biases[l]` lead from layer `l` to layer
/// `l + 1`.
pub struct Network<T> {
    pub(crate) architecture: Vec<usize>,
    pub(crate) activations: Vec<Matrix<T>>,
    pub(crate) weights: Vec<Matrix<T>>,
    pub(crate) biases: Vec<Matrix<T>>,
}

/// What a network holds: the layer widths, one row of activations for each
/// layer, and one weight matrix and one row of biases for each layer but the
/// first.
pub struct NetworkView<T> {
    pub architecture: Seq<usize>,
    pub activations: Seq<Seq<T>>,
    pub weights: Seq<Seq<Seq<T>>>,
    pub biases: Seq<Seq<T>>,
}

/// The weights with entry `(i, j)` of layer `l` replaced by `v`.
pub open spec fn weights_with<T>(weights: Seq<Seq<Seq<T>>>, l: int, i: int, j: int, v: T) -> Seq<
    Seq<Seq<T>>,
> {
    weights.update(l, weights[l].update(i, weights[l][i].update(j, v)))
}

/// The rows with entry `j` of row `l` replaced by `v`.
pub open spec fn rows_with<T>(rows: Seq<Seq<T>>, l: int, j: int, v: T) -> Seq<Seq<T>> {
    rows.update(l, rows[l].update(j, v))
}

impl<T> NetworkView<T> {
    /// All shapes are those that the architecture prescribes, and there are
    /// at least two layers.
    pub open spec fn shaped(self) -> bool {
        let n = self.architecture.len();
        &&& n >= 2
        &&& self.activations.len() == n
        &&& self.weights.len() == n - 1
        &&& self.biases.len() == n - 1
        &&& forall|l: int|
            0 <= l < n ==> (#[trigger] self.activations[l]).len() == self.architecture[l]
        &&& forall|l: int|
            0 <= l < n - 1 ==> (#[trigger] self.weights[l]).len() == self.architecture[l]
        &&& forall|l: int, i: int|
            0 <= l < n - 1 && 0 <= i < self.architecture[l] ==> (
            #[trigger] self.weights[l][i]).len() == self.architecture[l + 1]
        &&& forall|l: int|
            0 <= l < n - 1 ==> (#[trigger] self.biases[l]).len() == self.architecture[l + 1]
    }

    /// The same network with weight `(i, j)` of layer `l` replaced by `v`.
    pub open spec fn with_weight(self, l: int, i: int, j: int, v: T) -> Self {
        NetworkView { weights: weights_with(self.weights, l, i, j, v), ..self }
    }

    /// The same network with bias `j` of layer `l + 1` replaced by `v`.
    pub open spec fn with_bias(self, l: int, j: int, v: T) -> Self {
        NetworkView { biases: rows_with(self.biases, l, j, v), ..self }
    }

    /// The same network with activation `j` of layer `l` replaced by `v`.
    pub open spec fn with_activation(self, l: int, j: int, v: T) -> Self {
        NetworkView { activations: rows_with(self.activations, l, j, v), ..self }
    }

    /// The activations of the last layer.
    pub open spec fn output(self) -> Seq<T> {
        self.activations.last()
    }
}

impl<T: Scalar> NetworkView<T> {
    /// Every activation, weight and bias is zero.
    pub open spec fn zeroed(self) -> bool {
        &&& forall|l: int, j: int|
            0 <= l < self.activations.len() && 0 <= j < self.activations[l].len() ==> is_zero(
                #[trigger] self.activations[l][j],
            )
        &&& forall|l: int, i: int, j: int|
            0 <= l < self.weights.len() && 0 <= i < self.weights[l].len() && 0 <= j
                < self.weights[l][i].len() ==> is_zero(#[trigger] self.weights[l][i][j])
        &&& forall|l: int, j: int|
            0 <= l < self.biases.len() && 0 <= j < self.biases[l].len() ==> is_zero(
                #[trigger] self.biases[l][j],
            )
    }
}

/// Every weight and bias is a value that `draw` can return, scaled into the
/// range from `low` to `high`.
pub open spec fn is_randomized<T: Scalar, F: Fn() -> T>(
    draw: &F,
    low: T,
    high: T,
    weights: Seq<Seq<Seq<T>>>,
    biases: Seq<Seq<T>>,
) -> bool {
    &&& forall|l: int, i: int, j: int|
        0 <= l < weights.len() && 0 <= i < weights[l].len() && 0 <= j < weights[l][i].len()
            ==> is_drawn(*draw, low, high, #[trigger] weights[l][i][j])
    &&& forall|l: int, j: int|
        0 <= l < biases.len() && 0 <= j < biases[l].len() ==> is_drawn(
            *draw,
            low,
            high,
            #[trigger] biases[l][j],
        )
}

/// `y` is what a neuron with weights `w` and bias `b` returns for the inputs
/// `x`: the logistic function of the dot product plus the bias.
pub open spec fn is_neuron_output<T: Scalar>(x: Seq<T>, w: Seq<T>, b: T, y: T) -> bool {
    exists|d: T, s: T| #[trigger] neuron_steps(x, w, b, d, s, y)
}

/// The intermediate values of one neuron: the dot product `d` and the sum
/// `s` of it and the bias.
pub open spec fn neuron_steps<T: Scalar>(x: Seq<T>, w: Seq<T>, b: T, d: T, s: T, y: T) -> bool {
    &&& is_dot(x, w, d)
    &&& is_sum(d, b, s)
    &&& is_sigmoid(s, y)
}

/// `y` holds the outputs of a layer with weights `w` and biases `b` for the
/// inputs `x`. Neuron `j` takes column `j` of `w`.
pub open spec fn is_layer_output<T: Scalar>(
    x: Seq<T>,
    w: Seq<Seq<T>>,
    b: Seq<T>,
    y: Seq<T>,
) -> bool {
    &&& y.len() == b.len()
    &&& forall|j: int| 0 <= j < y.len() ==> is_neuron_output(x, column(w, j), b[j], #[trigger] y[j])
}

/// In `activations`, layer `l + 1` holds the outputs of layer `l`.
pub open spec fn layer_holds<T: Scalar>(
    weights: Seq<Seq<Seq<T>>>,
    biases: Seq<Seq<T>>,
    activations: Seq<Seq<T>>,
    l: int,
) -> bool {
    is_layer_output(activations[l], weights[l], biases[l], activations[l + 1])
}

/// `activations` is a complete forward pass: each layer after the first
/// holds the outputs of the layer before it.
pub open spec fn is_forward_pass<T: Scalar>(
    weights: Seq<Seq<Seq<T>>>,
    biases: Seq<Seq<T>>,
    activations: Seq<Seq<T>>,
) -> bool {
    &&& activations.len() == weights.len() + 1
    &&& forall|l: int|
        0 <= l < weights.len() ==> #[trigger] layer_holds(weights, biases, activations, l)
}

/// A layer is a matrix product, a row of biases added, and the logistic
/// function of every cell: where `product` holds the dot products of `x`
/// with the columns of `w`, `shifted` the sums of those and `b`, and `y` the
/// logistic function of each sum, `y` holds the outputs of the layer.
pub proof fn lemma_layer_from_matrix_steps<T: Scalar>(
    x: Seq<T>,
    w: Seq<Seq<T>>,
    b: Seq<T>,
    product: Seq<T>,
    shifted: Seq<T>,
    y: Seq<T>,
)
    requires
        y.len() == b.len(),
        forall|j: int| 0 <= j < b.len() ==> is_dot(x, column(w, j), #[trigger] product[j]),
        forall|j: int| 0 <= j < b.len() ==> is_sum(product[j], b[j], #[trigger] shifted[j]),
        forall|j: int| 0 <= j < b.len() ==> is_sigmoid(shifted[j], #[trigger] y[j]),
    ensures
        is_layer_output(x, w, b, y),
{
    assert forall|j: int| 0 <= j < y.len() implies is_neuron_output(
        x,
        column(w, j),
        b[j],
        #[trigger] y[j],
    ) by {
        assert(is_dot(x, column(w, j), product[j]));
        assert(is_sum(product[j], b[j], shifted[j]));
        assert(neuron_steps(x, column(w, j), b[j], product[j], shifted[j], y[j]));
    }
}

impl<T> View for Network<T> {
    type V = NetworkView<T>;

    open(crate) spec fn view(&self) -> NetworkView<T> {
        NetworkView {
            architecture: self.architecture@,
            activations: Seq::new(self.activations@.len(), |l: int| self.activations@[l]@[0]),
            weights: Seq::new(self.weights@.len(), |l: int| self.weights@[l]@),
            biases: Seq::new(self.biases@.len(), |l: int| self.biases@[l]@[0]),
        }
    }
}

impl<T: Scalar> Network<T> {
    /// Every matrix is valid and has the shape that the architecture gives it.
    pub open(crate) spec fn inv(&self) -> bool {
        let n = self.architecture@.len();
        &&& n >= 2
        &&& self.activations@.len() == n
        &&& self.weights@.len() == n - 1
        &&& self.biases@.len() == n - 1
        &&& forall|l: int|
            0 <= l < n ==> {
                &&& (#[trigger] self.activations@[l]).wf()
                &&& self.activations@[l].rows() == 1
                &&& self.activations@[l].cols() == self.architecture@[l]
            }
        &&& forall|l: int|
            0 <= l < n - 1 ==> {
                &&& (#[trigger] self.weights@[l]).wf()
                &&& self.weights@[l].rows() == self.architecture@[l]
                &&& self.weights@[l].cols() == self.architecture@[l + 1]
            }
        &&& forall|l: int|
            0 <= l < n - 1 ==> {
                &&& (#[trigger] self.biases@[l]).wf()
                &&& self.biases@[l].rows() == 1
                &&& self.biases@[l].cols() == self.architecture@[l + 1]
            }
    }

    /// The network is valid.
    pub open spec fn wf(&self) -> bool {
        self.inv() && self@.shaped()
    }

    /// A valid network has the shapes of its architecture.
    pub(crate) proof fn lemma_inv_shaped(&self)
        requires
            self.inv(),
        ensures
            self@.shaped(),
    {
        let v = self@;
        let n = v.architecture.len();
        assert forall|l: int, i: int| 0 <= l < n - 1 && 0 <= i < v.architecture[l] implies (
        #[trigger] v.weights[l][i]).len() == v.architecture[l + 1] by {
            assert(self.weights@[l].wf());
        }
    }

    /// A network with the given layer widths and every value zero.
    ///
    /// An architecture needs at least two layers.
    pub fn new(architecture: &[usize]) -> (r: Result<Network<T>, Error>)
        ensures
            r is Err <==> architecture@.len() < 2,
            r matches Err(e) ==> e == Error::DimensionMismatch,
            r matches Ok(n) ==> n.wf() && n@.architecture == architecture@ && n@.zeroed(),
    {
        let n = architecture.len();
        if n < 2 {
            return Err(Error::DimensionMismatch);
        }
        let mut arch: Vec<usize> = Vec::new();
        let mut activations: Vec<Matrix<T>> = Vec::new();
        let mut weights: Vec<Matrix<T>> = Vec::new();
        let mut biases: Vec<Matrix<T>> = Vec::new();
        let mut l: usize = 0;
        while l < n
            invariant
                n == architecture@.len(),
                n >= 2,
                l <= n,
                arch@ == architecture@.take(l as int),
                activations@.len() == l,
                weights@.len() == (if l == 0 {
                    0
                } else {
                    l - 1
                }),
                biases@.len() == weights@.len(),
                forall|k: int|
                    0 <= k < l ==> {
                        &&& (#[trigger] activations@[k]).wf()
                        &&& activations@[k].rows() == 1
                        &&& activations@[k].cols() == architecture@[k]
                        &&& forall|j: int|
                            0 <= j < architecture@[k] ==> is_zero(
                                #[trigger] activations@[k]@[0][j],
                            )
                    },
                forall|k: int|
                    0 <= k < l - 1 ==> {
                        &&& (#[trigger] weights@[k]).wf()
                        &&& weights@[k].rows() == architecture@[k]
                        &&& weights@[k].cols() == architecture@[k + 1]
                        &&& forall|i: int, j: int|
                            0 <= i < architecture@[k] && 0 <= j < architecture@[k + 1] ==> is_zero(
                                #[trigger] weights@[k]@[i][j],
                            )
                    },
                forall|k: int|
                    0 <= k < l - 1 ==> {
                        &&& (#[trigger] biases@[k]).wf()
                        &&& biases@[k].rows() == 1
                        &&& biases@[k].cols() == architecture@[k + 1]
                        &&& forall|j: int|
                            0 <= j < architecture@[k + 1] ==> is_zero(
                                #[trigger] biases@[k]@[0][j],
                            )
                    },
            decreases n - l,
        {
            let width = architecture[l];
            arch.push(width);
            activations.push(Matrix::new(1, width));
            if l > 0 {
                weights.push(Matrix::new(architecture[l - 1], width));
                biases.push(Matrix::new(1, width));
            }
            proof {
                assert(architecture@.take(l + 1) =~= architecture@.take(l as int).push(width));
            }
            l = l + 1;
        }
        proof {
            assert(architecture@.take(n as int) =~= architecture@);
        }
        let net = Network { architecture: arch, activations, weights, biases };
        proof {
            net.lemma_inv_shaped();
        }
        Ok(net)
    }

    /// The number of layers.
    pub fn layer_count(&self) -> (n: usize)
        requires
            self.wf(),
        ensures
            n == self@.architecture.len(),
            n >= 2,
    {
        self.architecture.len()
    }

    /// The layer widths.
    pub fn architecture(&self) -> (a: &Vec<usize>)
        ensures
            a@ == self@.architecture,
    {
        &self.architecture
    }

    /// Tells whether `other` has the architecture of `self`.
    pub fn same_architecture(&self, other: &Network<T>) -> (same: bool)
        ensures
            same == (self@.architecture == other@.architecture),
    {
        let n = self.architecture.len();
        if other.architecture.len() != n {
            return false;
        }
        let mut l: usize = 0;
        while l < n
            invariant
                n == self.architecture@.len(),
                n == other.architecture@.len(),
                l <= n,
                forall|k: int| 0 <= k < l ==> self.architecture@[k] == other.architecture@[k],
            decreases n - l,
        {
            if self.architecture[l] != other.architecture[l] {
                return false;
            }
            l = l + 1;
        }
        proof {
            assert(self.architecture@ =~= other.architecture@);
        }
        true
    }

    /// The weights that lead from layer `l` to layer `l + 1`.
    pub fn weights(&self, l: usize) -> (m: &Matrix<T>)
        requires
            self.wf(),
            l + 1 < self@.architecture.len(),
        ensures
            m.wf(),
            m@ == self@.weights[l as int],
            m.rows() == self@.architecture[l as int],
            m.cols() == self@.architecture[l + 1],
    {
        &self.weights[l]
    }

    /// The biases of layer `l + 1`, as a matrix of one row.
    pub fn biases(&self, l: usize) -> (m: &Matrix<T>)
        requires
            self.wf(),
            l + 1 < self@.architecture.len(),
        ensures
            m.wf(),
            m.rows() == 1,
            m@[0] == self@.biases[l as int],
            m.cols() == self@.architecture[l + 1],
    {
        &self.biases[l]
    }

    /// The activations of layer `l`, as a matrix of one row.
    pub fn activations(&self, l: usize) -> (m: &Matrix<T>)
        requires
            self.wf(),
            l < self@.architecture.len(),
        ensures
            m.wf(),
            m.rows() == 1,
            m@[0] == self@.activations[l as int],
            m.cols() == self@.architecture[l as int],
    {
        &self.activations[l]
    }

    /// Weight `(i, j)` of the layer that leads from layer `l` to `l + 1`.
    pub fn weight(&self, l: usize, i: usize, j: usize) -> (v: T)
        requires
            self.wf(),
            l + 1 < self@.architecture.len(),
            i < self@.architecture[l as int],
            j < self@.architecture[l + 1],
        ensures
            v == self@.weights[l as int][i as int][j as int],
    {
        self.weights[l].get(i, j)
    }

    /// Bias `j` of layer `l + 1`.
    pub fn bias(&self, l: usize, j: usize) -> (v: T)
        requires
            self.wf(),
            l + 1 < self@.architecture.len(),
            j < self@.architecture[l + 1],
        ensures
            v == self@.biases[l as int][j as int],
    {
        self.biases[l].get(0, j)
    }

    /// Activation `j` of layer `l`.
    pub fn activation(&self, l: usize, j: usize) -> (v: T)
        requires
            self.wf(),
            l < self@.architecture.len(),
            j < self@.architecture[l as int],
        ensures
            v == self@.activations[l as int][j as int],
    {
        self.activations[l].get(0, j)
    }

    /// Replaces weight `(i, j)` of the layer that leads from layer `l` to
    /// `l + 1`.
    pub fn set_weight(&mut self, l: usize, i: usize, j: usize, v: T)
        requires
            old(self).wf(),
            l + 1 < old(self)@.architecture.len(),
            i < old(self)@.architecture[l as int],
            j < old(self)@.architecture[l + 1],
        ensures
            final(self).wf(),
            final(self)@ == old(self)@.with_weight(l as int, i as int, j as int, v),
    {
        self.weights[l].set(i, j, v);
        proof {
            let goal = old(self)@.with_weight(l as int, i as int, j as int, v);
            assert(self@.weights =~= goal.weights);
            assert(self@.biases =~= goal.biases);
            assert(self@.activations =~= goal.activations);
            self.lemma_inv_shaped();
        }
    }

    /// Replaces bias `j` of layer `l + 1`.
    pub fn set_bias(&mut self, l: usize, j: usize, v: T)
        requires
            old(self).wf(),
            l + 1 < old(self)@.architecture.len(),
            j < old(self)@.architecture[l + 1],
        ensures
            final(self).wf(),
            final(self)@ == old(self)@.with_bias(l as int, j as int, v),
    {
        self.biases[l].set(0, j, v);
        proof {
            let goal = old(self)@.with_bias(l as int, j as int, v);
            assert(self@.weights =~= goal.weights);
            assert(self@.biases =~= goal.biases);
            assert(self@.activations =~= goal.activations);
            self.lemma_inv_shaped();
        }
    }

    /// Replaces activation `j` of layer `l`.
    pub fn set_activation(&mut self, l: usize, j: usize, v: T)
        requires
            old(self).wf(),
            l < old(self)@.architecture.len(),
            j < old(self)@.architecture[l as int],
        ensures
            final(self).wf(),
            final(self)@ == old(self)@.with_activation(l as int, j as int, v),
    {
        self.activations[l].set(0, j, v);
        proof {
            let goal = old(self)@.with_activation(l as int, j as int, v);
            assert(self@.weights =~= goal.weights);
            assert(self@.biases =~= goal.biases);
            assert(self@.activations =~= goal.activations);
            self.lemma_inv_shaped();
        }
    }

    /// Replaces every weight and bias by a fresh draw, scaled into the range
    /// from `low` to `high`. The activations stay as they are.
    ///
    /// The draws are taken layer by layer: for each layer first its weights,
    /// row after row, and then its biases.
    pub fn randomize<F: Fn() -> T>(&mut self, low: T, high: T, draw: &F)
        requires
            old(self).wf(),
            call_requires(*draw, ()),
        ensures
            final(self).wf(),
            final(self)@.architecture == old(self)@.architecture,
            final(self)@.activations == old(self)@.activations,
            is_randomized(draw, low, high, final(self)@.weights, final(self)@.biases),
    {
        let n = self.architecture.len();
        let mut l: usize = 0;
        while l + 1 < n
            invariant
                self.inv(),
                n == self.architecture@.len(),
                self.architecture@ == old(self).architecture@,
                self.activations@ == old(self).activations@,
                call_requires(*draw, ()),
                l + 1 <= n,
                forall|k: int, i: int, j: int|
                    0 <= k < l && 0 <= i < self.architecture@[k] && 0 <= j < self.architecture@[k
                        + 1] ==> is_drawn(*draw, low, high, #[trigger] self.weights@[k]@[i][j]),
                forall|k: int, j: int|
                    0 <= k < l && 0 <= j < self.architecture@[k + 1] ==> is_drawn(
                        *draw,
                        low,
                        high,
                        #[trigger] self.biases@[k]@[0][j],
                    ),
            decreases n - l,
        {
            self.weights[l].randomize(low, high, draw);
            self.biases[l].randomize(low, high, draw);
            l = l + 1;
        }
        proof {
            self.lemma_inv_shaped();
            assert(self@.activations =~= old(self)@.activations);
        }
    }

    /// Copies `input` into the activations of the first layer.
    ///
    /// This is refused, and the network left as it was, unless `input` has
    /// as many values as the first layer has neurons.
    pub fn set_input(&mut self, input: &[T]) -> (r: Result<(), Error>)
        requires
            old(self).wf(),
        ensures
            final(self).wf(),
            r is Err <==> input@.len() != old(self)@.architecture[0],
            r matches Err(e) ==> e == Error::DimensionMismatch && final(self)@ == old(self)@,
            r is Ok ==> final(self)@ == (NetworkView {
                activations: old(self)@.activations.update(0, input@),
                ..old(self)@
            }),
    {
        let width = self.architecture[0];
        if input.len() != width {
            return Err(Error::DimensionMismatch);
        }
        let mut j: usize = 0;
        while j < width
            invariant
                self.wf(),
                width == self@.architecture[0],
                input@.len() == width,
                j <= width,
                self@.architecture == old(self)@.architecture,
                self@.weights == old(self)@.weights,
                self@.biases == old(self)@.biases,
                self@.activations.len() == old(self)@.activations.len(),
                forall|l: int|
                    1 <= l < self@.activations.len() ==> self@.activations[l] == old(
                        self,
                    )@.activations[l],
                forall|c: int| 0 <= c < j ==> self@.activations[0][c] == input@[c],
            decreases width - j,
        {
            self.set_activation(0, j, input[j]);
            j = j + 1;
        }
        proof {
            let goal = NetworkView {
                activations: old(self)@.activations.update(0, input@),
                ..old(self)@
            };
            assert(self@.activations[0] =~= input@);
            assert(self@.activations =~= goal.activations);
        }
        Ok(())
    }

    /// Runs the network on the activations of its first layer.
    ///
    /// Afterwards every later layer holds the logistic function of the
    /// product of the layer before it with its weights, plus its biases.
    /// Nothing but the activations is written.
    pub fn forward(&mut self)
        requires
            old(self).wf(),
        ensures
            final(self).wf(),
            final(self)@.architecture == old(self)@.architecture,
            final(self)@.weights == old(self)@.weights,
            final(self)@.biases == old(self)@.biases,
            final(self)@.activations[0] == old(self)@.activations[0],
            is_forward_pass(final(self)@.weights, final(self)@.biases, final(self)@.activations),
    {
        let n = self.architecture.len();
        let mut l: usize = 0;
        while l + 1 < n
            invariant
                self.inv(),
                n == self.architecture@.len(),
                self.architecture@ == old(self).architecture@,
                self.weights@ == old(self).weights@,
                self.biases@ == old(self).biases@,
                self.activations@[0] == old(self).activations@[0],
                l + 1 <= n,
                forall|k: int|
                    0 <= k < l ==> #[trigger] layer_holds(
                        self@.weights,
                        self@.biases,
                        self@.activations,
                        k,
                    ),
            decreases n - l,
        {
            let ghost before = self@;
            self.forward_layer(l);
            proof {
                assert forall|k: int| 0 <= k < l + 1 implies #[trigger] layer_holds(
                    self@.weights,
                    self@.biases,
                    self@.activations,
                    k,
                ) by {
                    if k < l {
                        assert(layer_holds(before.weights, before.biases, before.activations, k));
                    }
                }
            }
            l = l + 1;
        }
        proof {
            self.lemma_inv_shaped();
            assert(self@.weights =~= old(self)@.weights);
            assert(self@.biases =~= old(self)@.biases);
        }
    }

    /// Writes into layer `l + 1` the outputs of layer `l`.
    fn forward_layer(&mut self, l: usize)
        requires
            old(self).inv(),
            l + 1 < old(self).architecture@.len(),
        ensures
            final(self).inv(),
            final(self).architecture@ == old(self).architecture@,
            final(self).weights@ == old(self).weights@,
            final(self).biases@ == old(self).biases@,
            final(self)@.weights == old(self)@.weights,
            final(self)@.biases == old(self)@.biases,
            final(self)@.activations == old(self)@.activations.update(
                l + 1,
                final(self)@.activations[l + 1],
            ),
            forall|k: int|
                0 <= k < old(self).activations@.len() && k != l + 1 ==> final(self).activations@[k]
                    == old(self).activations@[k],
            is_layer_output(
                old(self)@.activations[l as int],
                old(self)@.weights[l as int],
                old(self)@.biases[l as int],
                final(self)@.activations[l + 1],
            ),
    {
        let count = self.architecture.len();
        let above = l + 1;
        let width = self.architecture[above];
        let ghost x = self@.activations[l as int];
        let ghost w = self@.weights[l as int];
        let ghost b = self@.biases[l as int];
        let mut j: usize = 0;
        while j < width
            invariant
                self.inv(),
                above == l + 1,
                above < self.architecture@.len(),
                width == self.architecture@[above as int],
                self.architecture@ == old(self).architecture@,
                self.weights@ == old(self).weights@,
                self.biases@ == old(self).biases@,
                self.activations@.len() == old(self).activations@.len(),
                forall|k: int|
                    0 <= k < self.activations@.len() && k != above ==> self.activations@[k] == old(
                        self,
                    ).activations@[k],
                x == self.activations@[l as int]@[0],
                w == self.weights@[l as int]@,
                b == self.biases@[l as int]@[0],
                j <= width,
                forall|c: int|
                    0 <= c < j ==> is_neuron_output(
                        x,
                        column(w, c),
                        b[c],
                        #[trigger] self.activations@[above as int]@[0][c],
                    ),
            decreases width - j,
        {
            let d = self.activations[l].dot_row_column(0, &self.weights[l], j);
            let s = d.plus(self.biases[l].get(0, j));
            let y = sigmoid(s);
            let ghost row = self.activations@[above as int]@[0];
            self.activations[above].set(0, j, y);
            proof {
                assert(neuron_steps(x, column(w, j as int), b[j as int], d, s, y));
                assert forall|c: int| 0 <= c < j + 1 implies is_neuron_output(
                    x,
                    column(w, c),
                    b[c],
                    #[trigger] self.activations@[above as int]@[0][c],
                ) by {
                    if c < j {
                        assert(self.activations@[above as int]@[0][c] == row[c]);
                    }
                }
            }
            j = j + 1;
        }
        proof {
            assert(self@.weights =~= old(self)@.weights);
            assert(self@.biases =~= old(self)@.biases);
            assert(self@.activations =~= old(self)@.activations.update(
                l + 1,
                self@.activations[l + 1],
            ));
        }
    }

    /// A copy of the activations of the last layer.
    pub fn output(&self) -> (out: Vec<T>)
        requires
            self.wf(),
        ensures
            out@ == self@.output(),
            out@.len() == self@.architecture.last(),
    {
        let last = self.architecture.len() - 1;
        let width = self.architecture[last];
        let mut out: Vec<T> = Vec::new();
        let mut j: usize = 0;
        while j < width
            invariant
                self.wf(),
                last == self@.architecture.len() - 1,
                width == self@.architecture[last as int],
                j <= width,
                out@.len() == j,
                forall|c: int| 0 <= c < j ==> out@[c] == self@.activations[last as int][c],
            decreases width - j,
        {
            out.push(self.activation(last, j));
            j = j + 1;
        }
        proof {
            assert(out@ =~= self@.output());
        }
        out
    }

    /// Runs the network on `input` and returns the activations of its last
    /// layer: as many values as the last layer has neurons.
    ///
    /// This is refused, and the network left as it was, unless `input` has
    /// as many values as the first layer has neurons.
    pub fn predict(&mut self, input: &[T]) -> (r: Result<Vec<T>, Error>)
        requires
            old(self).wf(),
        ensures
            final(self).wf(),
            final(self)@.architecture == old(self)@.architecture,
            final(self)@.weights == old(self)@.weights,
            final(self)@.biases == old(self)@.biases,
            r is Err <==> input@.len() != old(self)@.architecture[0],
            r matches Err(e) ==> e == Error::DimensionMismatch && final(self)@ == old(self)@,
            r matches Ok(out) ==> {
                &&& out@.len() == old(self)@.architecture.last()
                &&& out@ == final(self)@.output()
                &&& final(self)@.activations[0] == input@
                &&& is_forward_pass(old(self)@.weights, old(self)@.biases, final(self)@.activations)
            },
    {
        match self.set_input(input) {
            Err(e) => Err(e),
            Ok(()) => {
                self.forward();
                Ok(self.output())
            },
        }
    }
}

} // verus!
