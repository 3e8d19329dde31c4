//! An ordered stack of fully-connected layers with construction,
//! randomization, and forward-propagation entry points.

use vstd::prelude::*;
use nanorand::WyRand;
use crate::activation::Activation;
use crate::layer::Layer;
use crate::matrix::Matrix;
use crate::model::{add_fits, gact, gadd, gmul, mul_fits, GMat};

verus! {

/// The default range of a randomized weight. Entries are integers; read at
/// the hundredth scale this is the closed interval `[-1.00, 1.00]`.
pub const WEIGHT_MIN: i64 = -100;

/// See [`WEIGHT_MIN`].
pub const WEIGHT_MAX: i64 = 100;

/// The default range of a randomized bias. Entries are integers; read at
/// the hundredth scale this is the closed interval `[-10.00, 10.00]`.
pub const BIAS_MIN: i64 = -1000;

/// See [`BIAS_MIN`].
pub const BIAS_MAX: i64 = 1000;

/// The recoverable errors of the propagation entry points. A dimension
/// mismatch between matrices validated at construction time is a fatal
/// precondition violation instead, never one of these.
#[derive(Clone, Copy, Debug, PartialEq, Eq, Structural)]
pub enum NetError {
    /// The input matrix is not a row vector of the network's input width.
    /// The input comes from outside the network's control, so this is
    /// recoverable: the caller may retry with a corrected input.
    InputSizeMismatch,
    /// An intermediate value left the machine range of an element.
    ArithmeticOverflow,
}

/// Every entry of `m` lies in the closed interval `[lo, hi]`.
pub open spec fn mat_in_range(m: Matrix, lo: int, hi: int) -> bool {
    forall|i: int, j: int|
        0 <= i < m.rows && 0 <= j < m.cols ==> lo <= #[trigger] m@.ent(i, j) <= hi
}

/// The layer's weights lie in the default weight range and its bias in the
/// default bias range.
pub open spec fn layer_in_default_ranges(l: Layer) -> bool {
    &&& mat_in_range(l.weights, WEIGHT_MIN as int, WEIGHT_MAX as int)
    &&& mat_in_range(l.bias, BIAS_MIN as int, BIAS_MAX as int)
}

/// Two matrices of the same shape.
pub open spec fn same_shape(a: Matrix, b: Matrix) -> bool {
    a.rows == b.rows && a.cols == b.cols
}

/// Two layers of the same shapes.
pub open spec fn layer_same_shape(a: Layer, b: Layer) -> bool {
    same_shape(a.weights, b.weights) && same_shape(a.bias, b.bias)
}

/// One layer's transform of a row-vector grid: multiply by the weights, add
/// the bias, apply the activation element-wise.
pub open spec fn layer_values(v: GMat, l: Layer, act: Activation) -> GMat {
    gact(act, gadd(gmul(v, l.weights@), l.bias@))
}

/// The layer's transform of `v` stays within the machine range of an
/// element throughout: every prefix sum of the product and every sum with
/// the bias fits.
pub open spec fn layer_fits(v: GMat, l: Layer) -> bool {
    &&& mul_fits(v, l.weights@)
    &&& add_fits(gmul(v, l.weights@), l.bias@)
}

/// An ordered stack of layers: input, hidden layers in order, output. The
/// topology is fixed at construction; only randomization mutates it, and
/// only the entries of its matrices.
#[derive(Debug)]
pub struct Network {
    pub input_size: usize,
    pub hidden_layers: Vec<Layer>,
    pub output: Layer,
}

impl Network {
    /// Well-formedness: at least one hidden layer, every layer well formed,
    /// and adjacent widths agree: the first hidden layer accepts the input
    /// width, each later one the width its predecessor produces, and the
    /// output layer the width of the last hidden layer.
    pub open spec fn wf(self) -> bool {
        &&& self.hidden_layers.len() >= 1
        &&& forall|t: int| 0 <= t < self.hidden_layers.len() ==> (#[trigger] self.hidden_layers[t]).wf()
        &&& self.hidden_layers[0].weights.rows == self.input_size
        &&& forall|t: int|
            1 <= t < self.hidden_layers.len()
                ==> (#[trigger] self.hidden_layers[t]).weights.rows
                    == self.hidden_layers[t - 1].weights.cols
        &&& self.output.wf()
        &&& self.output.weights.rows
            == self.hidden_layers[self.hidden_layers.len() - 1].weights.cols
    }

    /// The post-activation values of hidden layer `li` on the given input
    /// grid, threading the input through the layers in order.
    pub open spec fn hidden_values(self, input: GMat, act: Activation, li: int) -> GMat
        decreases li,
    {
        let prev = if li <= 0 {
            input
        } else {
            self.hidden_values(input, act, li - 1)
        };
        layer_values(prev, self.hidden_layers[li], act)
    }

    /// The post-activation values of the output layer on the given input
    /// grid: the result of a forward pass.
    pub open spec fn output_values(self, input: GMat, act: Activation) -> GMat {
        layer_values(
            self.hidden_values(input, act, self.hidden_layers.len() - 1),
            self.output,
            act,
        )
    }

    /// Every transform up to and including hidden layer `li` stays within
    /// the machine range of an element.
    pub open spec fn hidden_fits(self, input: GMat, act: Activation, li: int) -> bool
        decreases li,
    {
        let prev = if li <= 0 {
            input
        } else {
            self.hidden_values(input, act, li - 1)
        };
        &&& (li > 0 ==> self.hidden_fits(input, act, li - 1))
        &&& layer_fits(prev, self.hidden_layers[li])
    }

    /// The whole forward pass on the given input grid stays within the
    /// machine range of an element; exactly then propagation succeeds.
    pub open spec fn forward_fits(self, input: GMat, act: Activation) -> bool {
        let last = self.hidden_layers.len() - 1;
        &&& self.hidden_fits(input, act, last)
        &&& layer_fits(self.hidden_values(input, act, last), self.output)
    }

    /// Builds each hidden layer with input width equal to the previous
    /// layer's output width (the network's input width for the first), then
    /// the output layer with input width equal to the last hidden layer's
    /// output width. All entries start at zero. An empty list of hidden
    /// sizes is a fatal precondition violation.
    pub fn new(input_size: usize, hidden_layer_sizes: Vec<usize>, output_size: usize) -> (r: Network)
        requires
            hidden_layer_sizes.len() >= 1,
            forall|t: int| 0 <= t < hidden_layer_sizes.len() ==> 1 <= #[trigger] hidden_layer_sizes[t],
            input_size * hidden_layer_sizes[0] <= usize::MAX,
            forall|t: int|
                1 <= t < hidden_layer_sizes.len()
                    ==> hidden_layer_sizes[t - 1] * #[trigger] hidden_layer_sizes[t] <= usize::MAX,
            hidden_layer_sizes[hidden_layer_sizes.len() - 1] * output_size <= usize::MAX,
        ensures
            r.wf(),
            r.input_size == input_size,
            r.hidden_layers.len() == hidden_layer_sizes.len(),
            forall|t: int|
                0 <= t < hidden_layer_sizes.len()
                    ==> (#[trigger] r.hidden_layers[t]).weights.rows
                        == (if t == 0 { input_size as int } else { hidden_layer_sizes[t - 1] as int }),
            forall|t: int|
                0 <= t < hidden_layer_sizes.len()
                    ==> (#[trigger] r.hidden_layers[t]).weights.cols == hidden_layer_sizes[t],
            forall|t: int|
                0 <= t < hidden_layer_sizes.len() ==> (#[trigger] r.hidden_layers[t]).all_zero(),
            r.output.weights.rows == hidden_layer_sizes[hidden_layer_sizes.len() - 1],
            r.output.weights.cols == output_size,
            r.output.all_zero(),
    {
        let mut hidden_layers: Vec<Layer> = Vec::new();
        let mut t: usize = 0;
        while t < hidden_layer_sizes.len()
            invariant
                hidden_layer_sizes.len() >= 1,
                forall|u: int|
                    0 <= u < hidden_layer_sizes.len() ==> 1 <= #[trigger] hidden_layer_sizes[u],
                input_size * hidden_layer_sizes[0] <= usize::MAX,
                forall|u: int|
                    1 <= u < hidden_layer_sizes.len()
                        ==> hidden_layer_sizes[u - 1] * #[trigger] hidden_layer_sizes[u]
                            <= usize::MAX,
                t <= hidden_layer_sizes.len(),
                hidden_layers.len() == t,
                forall|u: int| 0 <= u < t ==> (#[trigger] hidden_layers[u]).wf(),
                forall|u: int|
                    0 <= u < t
                        ==> (#[trigger] hidden_layers[u]).weights.rows
                            == (if u == 0 { input_size as int } else { hidden_layer_sizes[u - 1] as int }),
                forall|u: int|
                    0 <= u < t
                        ==> (#[trigger] hidden_layers[u]).weights.cols == hidden_layer_sizes[u],
                forall|u: int| 0 <= u < t ==> (#[trigger] hidden_layers[u]).all_zero(),
            decreases hidden_layer_sizes.len() - t,
        {
            if t == 0 {
                hidden_layers.push(Layer::new(hidden_layer_sizes[0], input_size));
            } else {
                hidden_layers.push(Layer::new(hidden_layer_sizes[t], hidden_layer_sizes[t - 1]));
            }
            t = t + 1;
        }
        let output = Layer::new(output_size, hidden_layer_sizes[hidden_layer_sizes.len() - 1]);
        let r = Network { input_size, hidden_layers, output };
        r
    }

    /// Randomizes every hidden layer and the output layer: weights over the
    /// default weight range, biases over the default bias range. The
    /// topology and all shapes are unchanged.
    pub fn randomize(&mut self, rng: &mut WyRand)
        requires
            old(self).wf(),
        ensures
            final(self).wf(),
            final(self).input_size == old(self).input_size,
            final(self).hidden_layers.len() == old(self).hidden_layers.len(),
            forall|t: int|
                0 <= t < old(self).hidden_layers.len()
                    ==> layer_same_shape(
                        old(self).hidden_layers[t],
                        #[trigger] final(self).hidden_layers[t],
                    ),
            layer_same_shape(old(self).output, final(self).output),
            forall|t: int|
                0 <= t < old(self).hidden_layers.len()
                    ==> layer_in_default_ranges(#[trigger] final(self).hidden_layers[t]),
            layer_in_default_ranges(final(self).output),
    {
        let n = self.hidden_layers.len();
        let mut t: usize = 0;
        while t < n
            invariant
                old(self).wf(),
                n == old(self).hidden_layers.len(),
                t <= n,
                self.input_size == old(self).input_size,
                self.output == old(self).output,
                self.hidden_layers.len() == n,
                forall|u: int|
                    0 <= u < n
                        ==> layer_same_shape(
                            old(self).hidden_layers[u],
                            #[trigger] self.hidden_layers[u],
                        ),
                forall|u: int| 0 <= u < n ==> (#[trigger] self.hidden_layers[u]).wf(),
                forall|u: int|
                    0 <= u < t ==> layer_in_default_ranges(#[trigger] self.hidden_layers[u]),
            decreases n - t,
        {
            let l = &mut self.hidden_layers[t];
            l.weights.randomize(rng, WEIGHT_MIN, WEIGHT_MAX);
            l.bias.randomize(rng, BIAS_MIN, BIAS_MAX);
            t = t + 1;
        }
        self.output.weights.randomize(rng, WEIGHT_MIN, WEIGHT_MAX);
        self.output.bias.randomize(rng, BIAS_MIN, BIAS_MAX);
        proof {
            assert(self.wf());
        }
    }

    /// Threads the input through every hidden layer and the output layer in
    /// order and returns only the final post-activation values. The input
    /// must be a row vector of the network's input width; any other shape
    /// is reported as [`NetError::InputSizeMismatch`]. An intermediate value
    /// leaving the machine range is reported as
    /// [`NetError::ArithmeticOverflow`]; on every other input the pass
    /// succeeds. The result is a function of the network, the input and the
    /// activation alone, so a repeated call returns the identical matrix.
    pub fn quick_infer(&self, input: Matrix, act: Activation) -> (r: Result<Matrix, NetError>)
        requires
            self.wf(),
            input.wf(),
        ensures
            r == Err::<Matrix, NetError>(NetError::InputSizeMismatch)
                <==> !(input.rows == 1 && input.cols == self.input_size),
            r == Err::<Matrix, NetError>(NetError::ArithmeticOverflow)
                <==> input.rows == 1 && input.cols == self.input_size
                    && !self.forward_fits(input@, act),
            r matches Ok(m) ==> {
                &&& m.wf()
                &&& m.rows == 1
                &&& m.cols == self.output.weights.cols
                &&& m@ == self.output_values(input@, act)
                &&& self.forward_fits(input@, act)
            },
    {
        if input.rows != 1 || input.cols != self.input_size {
            return Err(NetError::InputSizeMismatch);
        }
        let ghost gin = input@;
        let n = self.hidden_layers.len();
        let mut values = input;
        let mut li: usize = 0;
        while li < n
            invariant
                self.wf(),
                gin == input@,
                input.rows == 1,
                input.cols == self.input_size,
                n == self.hidden_layers.len(),
                li <= n,
                values.wf(),
                values.rows == 1,
                li == 0 ==> values@ == gin && values.cols == self.input_size,
                li > 0 ==> values@ == self.hidden_values(gin, act, li - 1)
                    && values.cols == self.hidden_layers[li - 1].weights.cols
                    && self.hidden_fits(gin, act, li - 1),
            decreases n - li,
        {
            let l = &self.hidden_layers[li];
            let wm = match values.checked_mul(&l.weights) {
                Some(m) => m,
                None => {
                    proof {
                        assert(values.rows * l.weights.cols == l.weights.cols);
                        assert(!mul_fits(values@, l.weights@));
                        assert(!layer_fits(values@, self.hidden_layers[li as int]));
                        assert(!self.hidden_fits(gin, act, li as int));
                        lemma_hidden_fits_mono(*self, gin, act, li as int, n - 1);
                        assert(!self.forward_fits(gin, act));
                    }
                    return Err(NetError::ArithmeticOverflow);
                },
            };
            let wb = match wm.checked_add(&l.bias) {
                Some(m) => m,
                None => {
                    proof {
                        assert(!add_fits(gmul(values@, l.weights@), l.bias@));
                        assert(!layer_fits(values@, self.hidden_layers[li as int]));
                        assert(!self.hidden_fits(gin, act, li as int));
                        lemma_hidden_fits_mono(*self, gin, act, li as int, n - 1);
                        assert(!self.forward_fits(gin, act));
                    }
                    return Err(NetError::ArithmeticOverflow);
                },
            };
            values = wb.activate(act);
            li = li + 1;
        }
        let wm = match values.checked_mul(&self.output.weights) {
            Some(m) => m,
            None => {
                proof {
                    assert(values.rows * self.output.weights.cols == self.output.weights.cols);
                    assert(!mul_fits(values@, self.output.weights@));
                    assert(!layer_fits(values@, self.output));
                    assert(!self.forward_fits(gin, act));
                }
                return Err(NetError::ArithmeticOverflow);
            },
        };
        let wb = match wm.checked_add(&self.output.bias) {
            Some(m) => m,
            None => {
                proof {
                    assert(!add_fits(gmul(values@, self.output.weights@), self.output.bias@));
                    assert(!layer_fits(values@, self.output));
                    assert(!self.forward_fits(gin, act));
                }
                return Err(NetError::ArithmeticOverflow);
            },
        };
        Ok(wb.activate(act))
    }

    /// Runs the same forward pass as [`Network::quick_infer`] but captures
    /// every intermediate: the original input, the post-activation values of
    /// each hidden layer in order, and the post-activation output, for later
    /// use by a gradient step. Success and errors are exactly as for
    /// [`Network::quick_infer`].
    pub fn forward_propagate(&self, input: &Matrix, act: Activation) -> (r: Result<
        NetworkState,
        NetError,
    >)
        requires
            self.wf(),
            input.wf(),
        ensures
            r == Err::<NetworkState, NetError>(NetError::InputSizeMismatch)
                <==> !(input.rows == 1 && input.cols == self.input_size),
            r == Err::<NetworkState, NetError>(NetError::ArithmeticOverflow)
                <==> input.rows == 1 && input.cols == self.input_size
                    && !self.forward_fits(input@, act),
            r matches Ok(st) ==> {
                &&& st.input_neurons.wf()
                &&& st.input_neurons@ == input@
                &&& st.input_neurons.rows == input.rows
                &&& st.input_neurons.cols == input.cols
                &&& st.hidden_layer_neurons.len() == self.hidden_layers.len()
                &&& forall|t: int|
                    0 <= t < self.hidden_layers.len() ==> {
                        &&& (#[trigger] st.hidden_layer_neurons[t]).wf()
                        &&& st.hidden_layer_neurons[t].rows == 1
                        &&& st.hidden_layer_neurons[t].cols
                            == self.hidden_layers[t].weights.cols
                        &&& st.hidden_layer_neurons[t]@ == self.hidden_values(input@, act, t)
                    }
                &&& st.output_neurons.wf()
                &&& st.output_neurons.rows == 1
                &&& st.output_neurons.cols == self.output.weights.cols
                &&& st.output_neurons@ == self.output_values(input@, act)
                &&& self.forward_fits(input@, act)
            },
    {
        if input.rows != 1 || input.cols != self.input_size {
            return Err(NetError::InputSizeMismatch);
        }
        let ghost gin = input@;
        let n = self.hidden_layers.len();
        let mut hidden_layer_neurons: Vec<Matrix> = Vec::new();
        let mut values = input.duplicate();
        let mut li: usize = 0;
        while li < n
            invariant
                self.wf(),
                gin == input@,
                input.rows == 1,
                input.cols == self.input_size,
                n == self.hidden_layers.len(),
                li <= n,
                values.wf(),
                values.rows == 1,
                li == 0 ==> values@ == gin && values.cols == self.input_size,
                li > 0 ==> values@ == self.hidden_values(gin, act, li - 1)
                    && values.cols == self.hidden_layers[li - 1].weights.cols
                    && self.hidden_fits(gin, act, li - 1),
                hidden_layer_neurons.len() == li,
                forall|t: int|
                    0 <= t < li ==> {
                        &&& (#[trigger] hidden_layer_neurons[t]).wf()
                        &&& hidden_layer_neurons[t].rows == 1
                        &&& hidden_layer_neurons[t].cols == self.hidden_layers[t].weights.cols
                        &&& hidden_layer_neurons[t]@ == self.hidden_values(gin, act, t)
                    },
            decreases n - li,
        {
            let l = &self.hidden_layers[li];
            let wm = match values.checked_mul(&l.weights) {
                Some(m) => m,
                None => {
                    proof {
                        assert(values.rows * l.weights.cols == l.weights.cols);
                        assert(!mul_fits(values@, l.weights@));
                        assert(!layer_fits(values@, self.hidden_layers[li as int]));
                        assert(!self.hidden_fits(gin, act, li as int));
                        lemma_hidden_fits_mono(*self, gin, act, li as int, n - 1);
                        assert(!self.forward_fits(gin, act));
                    }
                    return Err(NetError::ArithmeticOverflow);
                },
            };
            let wb = match wm.checked_add(&l.bias) {
                Some(m) => m,
                None => {
                    proof {
                        assert(!add_fits(gmul(values@, l.weights@), l.bias@));
                        assert(!layer_fits(values@, self.hidden_layers[li as int]));
                        assert(!self.hidden_fits(gin, act, li as int));
                        lemma_hidden_fits_mono(*self, gin, act, li as int, n - 1);
                        assert(!self.forward_fits(gin, act));
                    }
                    return Err(NetError::ArithmeticOverflow);
                },
            };
            values = wb.activate(act);
            hidden_layer_neurons.push(values.duplicate());
            li = li + 1;
        }
        let wm = match values.checked_mul(&self.output.weights) {
            Some(m) => m,
            None => {
                proof {
                    assert(values.rows * self.output.weights.cols == self.output.weights.cols);
                    assert(!mul_fits(values@, self.output.weights@));
                    assert(!layer_fits(values@, self.output));
                    assert(!self.forward_fits(gin, act));
                }
                return Err(NetError::ArithmeticOverflow);
            },
        };
        let wb = match wm.checked_add(&self.output.bias) {
            Some(m) => m,
            None => {
                proof {
                    assert(!add_fits(gmul(values@, self.output.weights@), self.output.bias@));
                    assert(!layer_fits(values@, self.output));
                    assert(!self.forward_fits(gin, act));
                }
                return Err(NetError::ArithmeticOverflow);
            },
        };
        let output_neurons = wb.activate(act);
        Ok(NetworkState::new(input.duplicate(), hidden_layer_neurons, output_neurons))
    }
}

/// The values that stay within range up to a later hidden layer stay within
/// range up to every earlier one.
proof fn lemma_hidden_fits_mono(net: Network, input: GMat, act: Activation, a: int, b: int)
    requires
        0 <= a <= b,
    ensures
        net.hidden_fits(input, act, b) ==> net.hidden_fits(input, act, a),
    decreases b - a,
{
    if a < b {
        lemma_hidden_fits_mono(net, input, act, a, b - 1);
    }
}

/// The per-layer activations captured by one forward pass, read-only
/// afterward and intended as the input of a gradient step.
#[derive(Debug)]
pub struct NetworkState {
    pub input_neurons: Matrix,
    pub hidden_layer_neurons: Vec<Matrix>,
    pub output_neurons: Matrix,
}

impl NetworkState {
    /// Packs the captured activations of one forward pass.
    pub fn new(
        input_neurons: Matrix,
        hidden_layer_neurons: Vec<Matrix>,
        output_neurons: Matrix,
    ) -> (r: NetworkState)
        ensures
            r.input_neurons == input_neurons,
            r.hidden_layer_neurons == hidden_layer_neurons,
            r.output_neurons == output_neurons,
    {
        NetworkState { input_neurons, hidden_layer_neurons, output_neurons }
    }

    /// The gradient of the network's parameters at this state: one matrix
    /// per layer, hidden layers in order and the output layer last, each of
    /// the same shape as that layer's weights. The numerical method is an
    /// open extension point; this returns the zero gradient, which is the
    /// shape the contract fixes.
    pub fn backpropagate(&self, network: Network) -> (r: Vec<Matrix>)
        requires
            network.wf(),
        ensures
            r.len() == network.hidden_layers.len() + 1,
            forall|t: int|
                0 <= t < network.hidden_layers.len() ==> {
                    &&& (#[trigger] r[t]).wf()
                    &&& r[t].rows == network.hidden_layers[t].weights.rows
                    &&& r[t].cols == network.hidden_layers[t].weights.cols
                },
            r[r.len() - 1].wf(),
            r[r.len() - 1].rows == network.output.weights.rows,
            r[r.len() - 1].cols == network.output.weights.cols,
    {
        let n = network.hidden_layers.len();
        let mut grads: Vec<Matrix> = Vec::new();
        let mut t: usize = 0;
        while t < n
            invariant
                network.wf(),
                n == network.hidden_layers.len(),
                t <= n,
                grads.len() == t,
                forall|u: int|
                    0 <= u < t ==> {
                        &&& (#[trigger] grads[u]).wf()
                        &&& grads[u].rows == network.hidden_layers[u].weights.rows
                        &&& grads[u].cols == network.hidden_layers[u].weights.cols
                    },
            decreases n - t,
        {
            let w = &network.hidden_layers[t].weights;
            grads.push(Matrix::new(w.rows, w.cols));
            t = t + 1;
        }
        grads.push(Matrix::new(network.output.weights.rows, network.output.weights.cols));
        grads
    }
}

} // verus!
