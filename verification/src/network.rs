use crate::activation::{act_derivative, act_forward, ActivationFnInfo};
use crate::scalar::{ScalarOps, WrapOps};
use vstd::prelude::*;

verus! {

/// The mathematical value of a [`Layer`]: its weight matrix, bias vector and
/// activation, with the matrix as a sequence of row sequences.
pub struct LayerV {
    pub weights: Seq<Seq<u64>>,
    pub biases: Seq<u64>,
    pub activation: ActivationFnInfo,
}

/// The sequence of row views of a matrix held as a vector of vectors.
pub open spec fn matrix_view(m: Vec<Vec<u64>>) -> Seq<Seq<u64>> {
    Seq::new(m@.len(), |i: int| m@[i]@)
}

/// One affine transform (weight matrix and bias vector) followed by an
/// activation function, mapping a vector of scalars to a vector of scalars.
/// Row `j` of `weights` holds the incoming weights of neuron `j`.
pub struct Layer {
    weights: Vec<Vec<u64>>,
    biases: Vec<u64>,
    activation: ActivationFnInfo,
}

impl View for Layer {
    type V = LayerV;

    closed spec fn view(&self) -> LayerV {
        LayerV {
            weights: matrix_view(self.weights),
            biases: self.biases@,
            activation: self.activation,
        }
    }
}

/// A layer is well formed for `num_inputs` incoming values: one bias per
/// neuron, at least one neuron, and every weight row of width `num_inputs`.
pub open spec fn wf_layer(l: LayerV, num_inputs: nat) -> bool {
    &&& l.weights.len() == l.biases.len()
    &&& l.weights.len() >= 1
    &&& forall|j: int| 0 <= j < l.weights.len() ==> (#[trigger] l.weights[j]).len() == num_inputs
}

/// The width of the vector entering layer `i`: the network's input width for
/// the first layer, the previous layer's neuron count afterwards.
pub open spec fn spec_width_in(layers: Seq<LayerV>, i: int) -> nat {
    if i == 0 {
        layers[0].weights[0].len()
    } else {
        layers[i - 1].biases.len()
    }
}

/// A layer sequence is well formed when it is non-empty and the widths chain
/// correctly from each layer to the next.
pub open spec fn wf_layers(layers: Seq<LayerV>) -> bool {
    &&& layers.len() >= 1
    &&& forall|i: int|
        0 <= i < layers.len() ==> wf_layer(#[trigger] layers[i], spec_width_in(layers, i))
}

/// The net input of one neuron over the first `n` incoming values: the bias,
/// plus the products `row[j] * input[j]`, accumulated in ascending order of
/// `j` — the exact association in which the engine sums.
pub open spec fn net_input_prefix<O: ScalarOps>(
    row: Seq<u64>,
    input: Seq<u64>,
    bias: u64,
    n: int,
) -> u64
    decreases n,
{
    if n <= 0 {
        bias
    } else {
        O::sadd(
            net_input_prefix::<O>(row, input, bias, n - 1),
            O::smul(row[n - 1], input[n - 1]),
        )
    }
}

/// The pre-activation value of one neuron: bias plus the weighted sum over
/// the whole input vector.
pub open spec fn neuron_net_input<O: ScalarOps>(row: Seq<u64>, input: Seq<u64>, bias: u64) -> u64 {
    net_input_prefix::<O>(row, input, bias, input.len() as int)
}

/// The output vector of one layer on `input`: each neuron's activated net
/// input.
pub open spec fn layer_output<O: ScalarOps>(l: LayerV, input: Seq<u64>) -> Seq<u64> {
    Seq::new(
        l.weights.len(),
        |j: int| act_forward::<O>(l.activation, neuron_net_input::<O>(l.weights[j], input, l.biases[j])),
    )
}

/// The outputs of the first `n` layers, prepended with the raw input as the
/// output of a virtual zeroth layer: a sequence of `n + 1` vectors.
pub open spec fn outputs_prefix<O: ScalarOps>(
    layers: Seq<LayerV>,
    input: Seq<u64>,
    n: int,
) -> Seq<Seq<u64>>
    decreases n,
{
    if n <= 0 {
        seq![input]
    } else {
        let prev = outputs_prefix::<O>(layers, input, n - 1);
        prev.push(layer_output::<O>(layers[n - 1], prev.last()))
    }
}

/// Every layer's output vector on `input`, prepended with the raw input:
/// a sequence of `layers.len() + 1` vectors.
pub open spec fn intermediate_outputs<O: ScalarOps>(
    layers: Seq<LayerV>,
    input: Seq<u64>,
) -> Seq<Seq<u64>> {
    outputs_prefix::<O>(layers, input, layers.len() as int)
}

/// The network's output on `input`: the last layer's output vector.
pub open spec fn net_forward<O: ScalarOps>(layers: Seq<LayerV>, input: Seq<u64>) -> Seq<u64> {
    intermediate_outputs::<O>(layers, input).last()
}

/// Shape of the intermediate outputs: there are `layers.len() + 1` vectors,
/// the zeroth is the raw input, each next one is the previous vector pushed
/// through one layer, and under well-formedness vector `i` has the width
/// entering layer `i`.
pub proof fn lemma_outputs_prefix_shape<O: ScalarOps>(layers: Seq<LayerV>, input: Seq<u64>, n: int)
    requires
        0 <= n <= layers.len(),
    ensures
        outputs_prefix::<O>(layers, input, n).len() == n + 1,
        outputs_prefix::<O>(layers, input, n)[0] == input,
        forall|i: int|
            0 <= i < n ==> outputs_prefix::<O>(layers, input, n)[i + 1] == layer_output::<O>(
                layers[i],
                outputs_prefix::<O>(layers, input, n)[i],
            ),
    decreases n,
{
    if n > 0 {
        lemma_outputs_prefix_shape::<O>(layers, input, n - 1);
        let prev = outputs_prefix::<O>(layers, input, n - 1);
        let cur = outputs_prefix::<O>(layers, input, n);
        assert forall|i: int| 0 <= i < n implies cur[i + 1] == layer_output::<O>(
            layers[i],
            cur[i],
        ) by {
            if i + 1 < n {
                assert(cur[i + 1] == prev[i + 1]);
            } else {
                assert(cur[n] == layer_output::<O>(layers[n - 1], prev.last()));
                assert(prev.last() == prev[n - 1]);
            }
        }
    }
}

/// Under well-formedness, intermediate vector `i` has the width entering
/// layer `i`, and the last one has the last layer's neuron count.
pub proof fn lemma_outputs_widths<O: ScalarOps>(layers: Seq<LayerV>, input: Seq<u64>)
    requires
        wf_layers(layers),
        input.len() == spec_width_in(layers, 0),
    ensures
        forall|i: int|
            0 <= i <= layers.len() ==> (#[trigger] intermediate_outputs::<O>(layers, input)[i]).len()
                == if i < layers.len() {
                spec_width_in(layers, i)
            } else {
                layers.last().biases.len()
            },
{
    let outs = intermediate_outputs::<O>(layers, input);
    lemma_outputs_prefix_shape::<O>(layers, input, layers.len() as int);
    assert forall|i: int|
        0 <= i <= layers.len() implies (#[trigger] outs[i]).len() == if i < layers.len() {
        spec_width_in(layers, i)
    } else {
        layers.last().biases.len()
    } by {
        lemma_output_width_at::<O>(layers, input, i);
    }
}

proof fn lemma_output_width_at<O: ScalarOps>(layers: Seq<LayerV>, input: Seq<u64>, i: int)
    requires
        wf_layers(layers),
        input.len() == spec_width_in(layers, 0),
        0 <= i <= layers.len(),
    ensures
        intermediate_outputs::<O>(layers, input)[i].len() == if i < layers.len() {
            spec_width_in(layers, i)
        } else {
            layers.last().biases.len()
        },
    decreases i,
{
    lemma_outputs_prefix_shape::<O>(layers, input, layers.len() as int);
    if i > 0 {
        lemma_output_width_at::<O>(layers, input, i - 1);
        let outs = intermediate_outputs::<O>(layers, input);
        assert(outs[i] == layer_output::<O>(layers[i - 1], outs[i - 1]));
        assert(layers[i - 1].weights.len() == layers[i - 1].biases.len());
    }
}

impl Layer {
    /// A layer with explicit weights, biases and activation. The shapes are
    /// the caller's contract; a network built from mismatched layers is not
    /// well formed and the evaluation entry points refuse it.
    pub fn new(weights: Vec<Vec<u64>>, biases: Vec<u64>, activation: ActivationFnInfo) -> (r: Layer)
        ensures
            r@ == (LayerV { weights: matrix_view(weights), biases: biases@, activation }),
    {
        Layer { weights, biases, activation }
    }

    /// A layer of the given dimensions whose weights and biases are all the
    /// scalar zero — the shape used for gradient "delta" layers.
    pub fn with_dimensions<O: ScalarOps>(
        num_neurons: usize,
        num_inputs: usize,
        activation: ActivationFnInfo,
    ) -> (r: Layer)
        ensures
            r@.weights.len() == num_neurons,
            r@.biases.len() == num_neurons,
            forall|j: int|
                0 <= j < num_neurons ==> #[trigger] r@.weights[j] == Seq::new(
                    num_inputs as nat,
                    |k: int| O::szero(),
                ),
            forall|j: int| 0 <= j < num_neurons ==> #[trigger] r@.biases[j] == O::szero(),
            r@.activation == activation,
    {
        let mut weights: Vec<Vec<u64>> = Vec::new();
        while weights.len() < num_neurons
            invariant
                weights@.len() <= num_neurons,
                forall|j: int|
                    0 <= j < weights@.len() ==> (#[trigger] weights@[j])@ == Seq::new(
                        num_inputs as nat,
                        |k: int| O::szero(),
                    ),
            decreases num_neurons - weights.len(),
        {
            let mut row: Vec<u64> = Vec::new();
            while row.len() < num_inputs
                invariant
                    row@.len() <= num_inputs,
                    forall|k: int| 0 <= k < row@.len() ==> row@[k] == O::szero(),
                decreases num_inputs - row.len(),
            {
                row.push(O::zero());
            }
            proof {
                assert(row@ =~= Seq::new(num_inputs as nat, |k: int| O::szero()));
            }
            weights.push(row);
        }
        let mut biases: Vec<u64> = Vec::new();
        while biases.len() < num_neurons
            invariant
                biases@.len() <= num_neurons,
                forall|j: int| 0 <= j < biases@.len() ==> biases@[j] == O::szero(),
            decreases num_neurons - biases.len(),
        {
            biases.push(O::zero());
        }
        Layer { weights, biases, activation }
    }

    /// The number of neurons in the layer.
    pub fn len(&self) -> (r: usize)
        ensures
            r == self@.biases.len(),
    {
        self.biases.len()
    }

    /// The weight of neuron `j` for incoming value `k`.
    pub fn weight(&self, j: usize, k: usize) -> (r: u64)
        requires
            j < self@.weights.len(),
            k < self@.weights[j as int].len(),
        ensures
            r == self@.weights[j as int][k as int],
    {
        self.weights[j][k]
    }

    /// The bias of neuron `j`.
    pub fn bias(&self, j: usize) -> (r: u64)
        requires
            j < self@.biases.len(),
        ensures
            r == self@.biases[j as int],
    {
        self.biases[j]
    }

    /// The number of weight rows — one per neuron.
    pub fn weight_row_count(&self) -> (r: usize)
        ensures
            r == self@.weights.len(),
    {
        self.weights.len()
    }

    /// The weight row of neuron `j`.
    pub fn weight_row(&self, j: usize) -> (r: &Vec<u64>)
        requires
            j < self@.weights.len(),
        ensures
            r@ == self@.weights[j as int],
    {
        &self.weights[j]
    }

    /// The layer's bias vector.
    pub fn bias_vector(&self) -> (r: &Vec<u64>)
        ensures
            r@ == self@.biases,
    {
        &self.biases
    }

    /// The layer's activation function.
    pub fn activation(&self) -> (r: &ActivationFnInfo)
        ensures
            *r == self@.activation,
    {
        &self.activation
    }
}

impl Clone for Layer {
    /// An independent, value-equal copy: the clone shares no weight or bias
    /// storage with the original, so mutating one never touches the other.
    fn clone(&self) -> (r: Self)
        ensures
            r@ == self@,
    {
        let r = Layer {
            weights: clone_matrix(&self.weights),
            biases: clone_scalars(&self.biases),
            activation: self.activation.clone(),
        };
        proof {
            assert(r@.weights =~= self@.weights);
        }
        r
    }
}

/// A fresh vector holding the same scalars.
fn clone_scalars(v: &Vec<u64>) -> (r: Vec<u64>)
    ensures
        r@ == v@,
{
    let mut r: Vec<u64> = Vec::new();
    let mut i: usize = 0;
    while i < v.len()
        invariant
            i <= v@.len(),
            r@ == v@.take(i as int),
        decreases v@.len() - i,
    {
        r.push(v[i]);
        i += 1;
    }
    proof {
        assert(v@.take(v@.len() as int) =~= v@);
    }
    r
}

/// A fresh matrix holding the same rows.
fn clone_matrix(m: &Vec<Vec<u64>>) -> (r: Vec<Vec<u64>>)
    ensures
        r@.len() == m@.len(),
        forall|i: int| 0 <= i < m@.len() ==> (#[trigger] r@[i])@ == m@[i]@,
{
    let mut r: Vec<Vec<u64>> = Vec::new();
    let mut i: usize = 0;
    while i < m.len()
        invariant
            i <= m@.len(),
            r@.len() == i,
            forall|j: int| 0 <= j < i ==> (#[trigger] r@[j])@ == m@[j]@,
        decreases m@.len() - i,
    {
        r.push(clone_scalars(&m[i]));
        i += 1;
    }
    r
}

/// The number of neurons and the activation of one layer-to-be, handed to
/// the random network builder.
pub struct LayerProperties {
    pub num_neurons: usize,
    pub activation: ActivationFnInfo,
}

impl LayerProperties {
    /// Properties of one hidden layer: its neuron count and its activation.
    pub fn new(num_neurons: usize, activation: ActivationFnInfo) -> (r: Self)
        ensures
            r.num_neurons == num_neurons,
            r.activation == activation,
    {
        LayerProperties { num_neurons, activation }
    }
}

/// What one backpropagation pass reports: the per-layer output-error
/// gradients it used, and the scalar total error of the pass (the sum over
/// output neurons of half the squared error), for monitoring convergence.
pub struct BackpropagationPassResult {
    pub layer_gradients: Vec<Vec<u64>>,
    pub total_error: u64,
}

/// An ordered sequence of layers with fixed input and output widths,
/// offering forward evaluation and an in-place backpropagation training
/// step.
pub struct Network {
    layers: Vec<Layer>,
}

impl View for Network {
    type V = Seq<LayerV>;

    closed spec fn view(&self) -> Seq<LayerV> {
        Seq::new(self.layers@.len(), |i: int| self.layers@[i]@)
    }
}

impl Network {
    /// The network is non-empty and its layer widths chain correctly.
    pub open spec fn wf(self) -> bool {
        wf_layers(self@)
    }

    /// The network's declared input width: the width of the first layer's
    /// weight rows.
    pub open spec fn input_width(self) -> nat {
        spec_width_in(self@, 0)
    }

    /// The network's declared output width: the last layer's neuron count.
    pub open spec fn output_width(self) -> nat {
        self@.last().biases.len()
    }

    /// A network made of the given layers, in order. Whether the widths
    /// chain is the caller's contract; the evaluation entry points require
    /// the well-formed shape.
    pub fn new(layers: Vec<Layer>) -> (r: Network)
        ensures
            r@ == Seq::new(layers@.len(), |i: int| layers@[i]@),
    {
        Network { layers }
    }

    /// The number of layers.
    pub fn num_layers(&self) -> (r: usize)
        ensures
            r == self@.len(),
    {
        self.layers.len()
    }

    /// The layer at position `i`.
    pub fn layer(&self, i: usize) -> (r: &Layer)
        requires
            i < self@.len(),
        ensures
            r@ == self@[i as int],
    {
        &self.layers[i]
    }

    /// Whether the network is well formed: non-empty, rectangular weight
    /// rows, and widths that chain layer to layer. Callers that assemble a
    /// network from explicit layers can test this before evaluating it.
    pub fn check_wf(&self) -> (r: bool)
        ensures
            r == self.wf(),
    {
        if self.layers.len() == 0 {
            return false;
        }
        if self.layers[0].weights.len() == 0 {
            proof {
                assert(!wf_layer(self@[0], spec_width_in(self@, 0)));
            }
            return false;
        }
        let mut prev_width = self.layers[0].weights[0].len();
        let mut i: usize = 0;
        while i < self.layers.len()
            invariant
                i <= self@.len(),
                self@.len() >= 1,
                self@[0].weights.len() >= 1,
                forall|l: int| 0 <= l < i ==> wf_layer(#[trigger] self@[l], spec_width_in(self@, l)),
                i > 0 ==> prev_width == self@[i - 1].biases.len(),
                i == 0 ==> prev_width == self@[0].weights[0].len(),
            decreases self@.len() - i,
        {
            let layer = &self.layers[i];
            proof {
                assert(layer@ == self@[i as int]);
            }
            if layer.weights.len() != layer.biases.len() || layer.weights.len() == 0 {
                proof {
                    assert(!wf_layer(self@[i as int], spec_width_in(self@, i as int)));
                }
                return false;
            }
            let mut j: usize = 0;
            while j < layer.weights.len()
                invariant
                    j <= layer@.weights.len(),
                    i < self@.len(),
                    layer@ == self@[i as int],
                    layer@.weights.len() == layer@.biases.len(),
                    layer@.weights.len() >= 1,
                    self@.len() >= 1,
                    self@[0].weights.len() >= 1,
                    i == 0 ==> prev_width == self@[0].weights[0].len(),
                    i > 0 ==> prev_width == self@[i - 1].biases.len(),
                    forall|m: int| 0 <= m < j ==> (#[trigger] layer@.weights[m]).len() == prev_width,
                decreases layer@.weights.len() - j,
            {
                if layer.weights[j].len() != prev_width {
                    proof {
                        assert(layer@.weights[j as int].len() != prev_width);
                        assert(!wf_layer(self@[i as int], spec_width_in(self@, i as int)));
                    }
                    return false;
                }
                j += 1;
            }
            proof {
                assert(prev_width == spec_width_in(self@, i as int));
                assert(wf_layer(self@[i as int], spec_width_in(self@, i as int)));
            }
            prev_width = layer.biases.len();
            i += 1;
        }
        true
    }
}

impl Clone for Network {
    /// An independent, value-equal copy of the whole network: same layer
    /// values, no shared storage.
    fn clone(&self) -> (r: Self)
        ensures
            r@ == self@,
    {
        let mut layers: Vec<Layer> = Vec::new();
        let mut i: usize = 0;
        while i < self.layers.len()
            invariant
                i <= self.layers@.len(),
                layers@.len() == i,
                forall|j: int| 0 <= j < i ==> (#[trigger] layers@[j])@ == self.layers@[j]@,
            decreases self.layers@.len() - i,
        {
            layers.push(self.layers[i].clone());
            i += 1;
        }
        let r = Network { layers };
        proof {
            assert(r@ =~= self@);
        }
        r
    }
}

/// The output vector of one layer on `input`, computed exactly as the
/// engine's evaluation order states: bias first, then the weighted terms in
/// ascending input order, then the activation.
fn layer_forward<O: ScalarOps>(layer: &Layer, input: &Vec<u64>) -> (r: Vec<u64>)
    requires
        layer@.weights.len() == layer@.biases.len(),
        forall|j: int|
            0 <= j < layer@.weights.len() ==> (#[trigger] layer@.weights[j]).len() == input@.len(),
    ensures
        r@ == layer_output::<O>(layer@, input@),
{
    let mut out: Vec<u64> = Vec::new();
    let mut i: usize = 0;
    while i < layer.weights.len()
        invariant
            i <= layer@.weights.len(),
            out@.len() == i,
            layer@.weights.len() == layer@.biases.len(),
            forall|j: int|
                0 <= j < layer@.weights.len() ==> (#[trigger] layer@.weights[j]).len()
                    == input@.len(),
            forall|j: int| 0 <= j < i ==> out@[j] == layer_output::<O>(layer@, input@)[j],
        decreases layer@.weights.len() - i,
    {
        let mut sum = layer.biases[i];
        let mut j: usize = 0;
        while j < input.len()
            invariant
                j <= input@.len(),
                i < layer@.weights.len(),
                layer@.weights[i as int].len() == input@.len(),
                sum == net_input_prefix::<O>(
                    layer@.weights[i as int],
                    input@,
                    layer@.biases[i as int],
                    j as int,
                ),
            decreases input@.len() - j,
        {
            sum = O::add(sum, O::mul(layer.weights[i][j], input[j]));
            j += 1;
        }
        out.push(layer.activation.forward::<O>(sum));
        i += 1;
    }
    proof {
        assert(out@ =~= layer_output::<O>(layer@, input@));
    }
    out
}

impl Network {
    /// The network's output on `input`: each layer applied in order, the
    /// result of the last one returned. The result is exactly the
    /// mathematical evaluation [`net_forward`] of the network's value.
    pub fn forward<O: ScalarOps>(&self, input: &Vec<u64>) -> (r: Vec<u64>)
        requires
            self.wf(),
            input@.len() == self.input_width(),
        ensures
            r@ == net_forward::<O>(self@, input@),
            r@.len() == self.output_width(),
    {
        proof {
            lemma_outputs_prefix_shape::<O>(self@, input@, self@.len() as int);
            lemma_outputs_widths::<O>(self@, input@);
        }
        let mut last_output = clone_scalars(input);
        let mut k: usize = 0;
        while k < self.layers.len()
            invariant
                k <= self@.len(),
                self.wf(),
                input@.len() == self.input_width(),
                last_output@ == outputs_prefix::<O>(self@, input@, k as int).last(),
            decreases self@.len() - k,
        {
            proof {
                lemma_outputs_prefix_shape::<O>(self@, input@, k as int);
                lemma_outputs_widths::<O>(self@, input@);
                assert(outputs_prefix::<O>(self@, input@, k as int) == intermediate_outputs::<O>(
                    self@,
                    input@,
                ).take(k as int + 1)) by {
                    lemma_outputs_prefix_is_take::<O>(self@, input@, k as int);
                }
                assert(last_output@.len() == spec_width_in(self@, k as int));
                assert(wf_layer(self@[k as int], spec_width_in(self@, k as int)));
                assert(self.layers@[k as int]@ == self@[k as int]);
            }
            last_output = layer_forward::<O>(&self.layers[k], &last_output);
            proof {
                let prev = outputs_prefix::<O>(self@, input@, k as int);
                let cur = outputs_prefix::<O>(self@, input@, k as int + 1);
                assert(cur == prev.push(layer_output::<O>(self@[k as int], prev.last())));
            }
            k += 1;
        }
        last_output
    }

    /// The ordered sequence of every layer's output vector on `input`,
    /// prepended with the raw input itself as the output of a virtual
    /// zeroth layer — `layers.len() + 1` vectors in all, as backpropagation
    /// needs them.
    pub fn forward_with_intermediate_outputs<O: ScalarOps>(&self, input: &Vec<u64>) -> (r: Vec<
        Vec<u64>,
    >)
        requires
            self.wf(),
            input@.len() == self.input_width(),
        ensures
            matrix_view(r) == intermediate_outputs::<O>(self@, input@),
            r@.len() == self@.len() + 1,
    {
        proof {
            lemma_outputs_prefix_shape::<O>(self@, input@, self@.len() as int);
            lemma_outputs_widths::<O>(self@, input@);
        }
        let mut outs: Vec<Vec<u64>> = Vec::new();
        outs.push(clone_scalars(input));
        let mut k: usize = 0;
        while k < self.layers.len()
            invariant
                k <= self@.len(),
                self.wf(),
                input@.len() == self.input_width(),
                outs@.len() == k + 1,
                matrix_view(outs) == outputs_prefix::<O>(self@, input@, k as int),
            decreases self@.len() - k,
        {
            proof {
                lemma_outputs_prefix_shape::<O>(self@, input@, k as int);
                lemma_outputs_prefix_is_take::<O>(self@, input@, k as int);
                lemma_outputs_widths::<O>(self@, input@);
                assert(matrix_view(outs).last() == outs@[k as int]@);
                assert(outs@[k as int]@ == outputs_prefix::<O>(self@, input@, k as int).last());
                assert(outs@[k as int]@.len() == spec_width_in(self@, k as int));
                assert(wf_layer(self@[k as int], spec_width_in(self@, k as int)));
                assert(self.layers@[k as int]@ == self@[k as int]);
            }
            let next = layer_forward::<O>(&self.layers[k], &outs[k]);
            outs.push(next);
            proof {
                let prev = outputs_prefix::<O>(self@, input@, k as int);
                let cur = outputs_prefix::<O>(self@, input@, k as int + 1);
                assert(matrix_view(outs) =~= prev.push(layer_output::<O>(self@[k as int], prev.last())));
            }
            k += 1;
        }
        proof {
            assert(matrix_view(outs) == intermediate_outputs::<O>(self@, input@));
        }
        outs
    }
}

/// The error gradient at the network's output layer: for each output neuron,
/// the difference between its activated output and the target value — the
/// derivative of the squared-error loss with respect to that output.
pub open spec fn output_gradients<O: ScalarOps>(
    layers: Seq<LayerV>,
    input: Seq<u64>,
    target: Seq<u64>,
) -> Seq<u64> {
    let outs = intermediate_outputs::<O>(layers, input);
    Seq::new(layers.last().biases.len(), |i: int| O::ssub(outs.last()[i], target[i]))
}

/// The net-input gradient of neuron `j` in a layer whose output gradient is
/// `g` and whose activated outputs are `out`: the chain-rule step through
/// the activation, `g[j] * derivative(out[j])`.
pub open spec fn neuron_nig<O: ScalarOps>(l: LayerV, g: Seq<u64>, out: Seq<u64>, j: int) -> u64 {
    O::smul(g[j], act_derivative::<O>(l.activation, out[j]))
}

/// The gradient propagated to incoming value `k` of a layer, accumulated
/// over its first `n` neurons in ascending order: the sum of
/// `weights[j][k] * nig(j)`, seeded with the scalar zero — through the
/// layer's original, pre-update weights.
pub open spec fn upstream_prefix<O: ScalarOps>(
    l: LayerV,
    g: Seq<u64>,
    out: Seq<u64>,
    k: int,
    n: int,
) -> u64
    decreases n,
{
    if n <= 0 {
        O::szero()
    } else {
        O::sadd(
            upstream_prefix::<O>(l, g, out, k, n - 1),
            O::smul(l.weights[n - 1][k], neuron_nig::<O>(l, g, out, n - 1)),
        )
    }
}

/// The output-error gradient of layer `i` in one backpropagation pass: the
/// seeded loss gradient at the last layer, and otherwise what layer `i + 1`
/// propagates back through its pre-update weights.
pub open spec fn layer_gradient<O: ScalarOps>(
    layers: Seq<LayerV>,
    input: Seq<u64>,
    target: Seq<u64>,
    i: int,
) -> Seq<u64>
    decreases layers.len() - i,
{
    if i >= layers.len() - 1 {
        output_gradients::<O>(layers, input, target)
    } else {
        let outs = intermediate_outputs::<O>(layers, input);
        let l = layers[i + 1];
        let g = layer_gradient::<O>(layers, input, target, i + 1);
        Seq::new(
            l.weights[0].len(),
            |k: int| upstream_prefix::<O>(l, g, outs[i + 2], k, l.weights.len() as int),
        )
    }
}

/// Every layer's output-error gradient of the pass, in layer order.
pub open spec fn all_gradients<O: ScalarOps>(
    layers: Seq<LayerV>,
    input: Seq<u64>,
    target: Seq<u64>,
) -> Seq<Seq<u64>> {
    Seq::new(layers.len(), |i: int| layer_gradient::<O>(layers, input, target, i))
}

/// Layer `i` after the pass: each weight decreased by
/// `rate * nig(j) * previous_output[k]`, each bias by `rate * nig(j)`, the
/// activation unchanged — all gradients taken at the original, pre-update
/// parameters.
pub open spec fn updated_layer<O: ScalarOps>(
    layers: Seq<LayerV>,
    input: Seq<u64>,
    target: Seq<u64>,
    rate: u64,
    i: int,
) -> LayerV {
    let outs = intermediate_outputs::<O>(layers, input);
    let l = layers[i];
    let g = layer_gradient::<O>(layers, input, target, i);
    LayerV {
        weights: Seq::new(
            l.weights.len(),
            |j: int|
                Seq::new(
                    l.weights[j].len(),
                    |k: int|
                        O::ssub(
                            l.weights[j][k],
                            O::smul(rate, O::smul(neuron_nig::<O>(l, g, outs[i + 1], j), outs[i][k])),
                        ),
                ),
        ),
        biases: Seq::new(
            l.biases.len(),
            |j: int|
                O::ssub(l.biases[j], O::smul(rate, neuron_nig::<O>(l, g, outs[i + 1], j))),
        ),
        activation: l.activation,
    }
}

/// The whole network after one backpropagation pass at learning rate
/// `rate`: every layer updated from the original parameters, deltas applied
/// only after every gradient is computed.
pub open spec fn backprop_net<O: ScalarOps>(
    layers: Seq<LayerV>,
    input: Seq<u64>,
    target: Seq<u64>,
    rate: u64,
) -> Seq<LayerV> {
    Seq::new(layers.len(), |i: int| updated_layer::<O>(layers, input, target, rate, i))
}

/// The total error accumulated over the first `n` output gradients `g`:
/// each contributes `(-g[i]) * (-g[i]) / 2`, summed in ascending order from
/// the scalar zero.
pub open spec fn total_error_prefix<O: ScalarOps>(g: Seq<u64>, n: int) -> u64
    decreases n,
{
    if n <= 0 {
        O::szero()
    } else {
        let e = g[n - 1];
        O::sadd(
            total_error_prefix::<O>(g, n - 1),
            O::sdiv(O::smul(O::sneg(e), O::sneg(e)), O::stwo()),
        )
    }
}

/// The scalar total error of one pass: the sum over all output neurons of
/// half the squared output error.
pub open spec fn spec_total_error<O: ScalarOps>(
    layers: Seq<LayerV>,
    input: Seq<u64>,
    target: Seq<u64>,
) -> u64 {
    let g = output_gradients::<O>(layers, input, target);
    total_error_prefix::<O>(g, g.len() as int)
}

impl Network {
    /// One gradient-descent training step: evaluate the network on `input`
    /// keeping every intermediate output, seed the output-error gradient
    /// from `target`, propagate it backwards through the original weights,
    /// and only then apply every weight and bias delta in place. Returns the
    /// per-layer gradients and the pass's total error.
    #[verifier::rlimit(100)]
    #[verifier::spinoff_prover]
    pub fn backpropagate<O: ScalarOps>(
        &mut self,
        input: &Vec<u64>,
        target: &Vec<u64>,
        learning_rate: u64,
    ) -> (r: BackpropagationPassResult)
        requires
            old(self).wf(),
            input@.len() == old(self).input_width(),
            target@.len() == old(self).output_width(),
        ensures
            final(self)@ == backprop_net::<O>(old(self)@, input@, target@, learning_rate),
            final(self).wf(),
            matrix_view(r.layer_gradients) == all_gradients::<O>(old(self)@, input@, target@),
            r.total_error == spec_total_error::<O>(old(self)@, input@, target@),
    {
        let ghost net0 = self@;
        let ghost souts = intermediate_outputs::<O>(net0, input@);
        proof {
            lemma_outputs_prefix_shape::<O>(net0, input@, net0.len() as int);
            lemma_outputs_widths::<O>(net0, input@);
        }
        let outs = self.forward_with_intermediate_outputs::<O>(input);
        let len = self.layers.len();

        // one gradient row per layer, filled during the reverse pass
        let mut layer_gradients: Vec<Vec<u64>> = Vec::new();
        while layer_gradients.len() < len
            invariant
                layer_gradients@.len() <= len,
            decreases len - layer_gradients.len(),
        {
            layer_gradients.push(Vec::new());
        }

        // seed the output-layer gradient and accumulate the total error
        let ghost g_out = output_gradients::<O>(net0, input@, target@);
        let mut out_g: Vec<u64> = Vec::new();
        let mut total_error = O::zero();
        let mut i: usize = 0;
        let last_out = &outs[len];
        proof {
            assert(last_out@ == souts.last());
            assert(g_out.len() == target@.len());
        }
        while i < target.len()
            invariant
                i <= target@.len(),
                g_out.len() == target@.len(),
                last_out@ == souts.last(),
                souts == intermediate_outputs::<O>(net0, input@),
                g_out == output_gradients::<O>(net0, input@, target@),
                souts.last().len() == target@.len(),
                out_g@.len() == i,
                forall|m: int| 0 <= m < i ==> out_g@[m] == g_out[m],
                total_error == total_error_prefix::<O>(g_out, i as int),
            decreases target@.len() - i,
        {
            let e = O::sub(last_out[i], target[i]);
            proof {
                assert(e == g_out[i as int]);
            }
            out_g.push(e);
            total_error = O::add(total_error, O::div(O::mul(O::neg(e), O::neg(e)), O::two()));
            i += 1;
        }
        proof {
            assert(out_g@ =~= g_out);
            assert(total_error == spec_total_error::<O>(net0, input@, target@));
        }
        layer_gradients.set(len - 1, out_g);

        // reverse pass: compute each layer's gradient and its updated
        // parameters from the original, pre-update weights
        let mut updated_rev: Vec<Layer> = Vec::new();
        let mut li = len;
        while li > 0
            invariant
                li <= len,
                len == net0.len(),
                self@ == net0,
                wf_layers(net0),
                input@.len() == spec_width_in(net0, 0),
                target@.len() == net0.last().biases.len(),
                souts == intermediate_outputs::<O>(net0, input@),
                matrix_view(outs) == souts,
                outs@.len() == len + 1,
                layer_gradients@.len() == len,
                forall|m: int|
                    li <= m < len ==> (#[trigger] layer_gradients@[m])@ == layer_gradient::<O>(
                        net0,
                        input@,
                        target@,
                        m,
                    ),
                li >= 1 ==> layer_gradients@[li - 1]@ == layer_gradient::<O>(
                    net0,
                    input@,
                    target@,
                    li - 1,
                ),
                updated_rev@.len() == len - li,
                forall|m: int|
                    0 <= m < len - li ==> (#[trigger] updated_rev@[m])@ == updated_layer::<O>(
                        net0,
                        input@,
                        target@,
                        learning_rate,
                        len - 1 - m,
                    ),
            decreases li,
        {
            li -= 1;
            let ghost gi = layer_gradient::<O>(net0, input@, target@, li as int);
            let ghost lv = net0[li as int];
            proof {
                lemma_outputs_widths::<O>(net0, input@);
                assert(wf_layer(lv, spec_width_in(net0, li as int)));
                assert(souts[li as int + 1].len() == lv.biases.len());
                assert(gi.len() == lv.biases.len()) by {
                    lemma_layer_gradient_len::<O>(net0, input@, target@, li as int);
                }
            }
            let l = &self.layers[li];
            let out_here = &outs[li + 1];
            let in_here = &outs[li];
            proof {
                assert(out_here@ == souts[li as int + 1]);
                assert(in_here@ == souts[li as int]);
                assert(in_here@.len() == spec_width_in(net0, li as int));
            }

            // chain-rule step through the activation, neuron by neuron
            let grad_row = &layer_gradients[li];
            proof {
                assert(grad_row@ == gi);
            }
            let mut nig: Vec<u64> = Vec::new();
            let mut j: usize = 0;
            while j < l.biases.len()
                invariant
                    j <= lv.biases.len(),
                    l@ == lv,
                    grad_row@ == gi,
                    out_here@ == souts[li as int + 1],
                    gi.len() == lv.biases.len(),
                    souts[li as int + 1].len() == lv.biases.len(),
                    nig@.len() == j,
                    forall|m: int|
                        0 <= m < j ==> nig@[m] == neuron_nig::<O>(
                            lv,
                            gi,
                            souts[li as int + 1],
                            m,
                        ),
                decreases lv.biases.len() - j,
            {
                let d = l.activation.derivative::<O>(out_here[j]);
                nig.push(O::mul(grad_row[j], d));
                j += 1;
            }

            // this layer's updated parameters (delta already applied)
            let ghost upd = updated_layer::<O>(net0, input@, target@, learning_rate, li as int);
            proof {
                assert forall|j: int| 0 <= j < lv.weights.len() implies (#[trigger] lv.weights[j]).len()
                    == spec_width_in(net0, li as int) by {
                    assert(wf_layer(lv, spec_width_in(net0, li as int)));
                }
            }
            let mut new_w: Vec<Vec<u64>> = Vec::new();
            let mut j2: usize = 0;
            while j2 < l.weights.len()
                invariant
                    j2 <= lv.weights.len(),
                    l@ == lv,
                    lv == net0[li as int],
                    gi == layer_gradient::<O>(net0, input@, target@, li as int),
                    souts == intermediate_outputs::<O>(net0, input@),
                    li < len,
                    len == net0.len(),
                    wf_layer(lv, spec_width_in(net0, li as int)),
                    in_here@ == souts[li as int],
                    in_here@.len() == spec_width_in(net0, li as int),
                    nig@.len() == lv.biases.len(),
                    forall|m: int|
                        0 <= m < lv.biases.len() ==> nig@[m] == neuron_nig::<O>(
                            lv,
                            gi,
                            souts[li as int + 1],
                            m,
                        ),
                    upd == updated_layer::<O>(net0, input@, target@, learning_rate, li as int),
                    new_w@.len() == j2,
                    forall|m: int| 0 <= m < j2 ==> (#[trigger] new_w@[m])@ == upd.weights[m],
                decreases lv.weights.len() - j2,
            {
                let row = &l.weights[j2];
                proof {
                    assert(row@ == lv.weights[j2 as int]);
                    assert(lv.weights[j2 as int].len() == spec_width_in(net0, li as int));
                }
                let mut new_row: Vec<u64> = Vec::new();
                let mut k: usize = 0;
                while k < row.len()
                    invariant
                        k <= row@.len(),
                        row@ == lv.weights[j2 as int],
                        j2 < lv.weights.len(),
                        wf_layer(lv, spec_width_in(net0, li as int)),
                        row@.len() == spec_width_in(net0, li as int),
                        row@.len() == in_here@.len(),
                        in_here@ == souts[li as int],
                        nig@.len() == lv.biases.len(),
                        j2 < lv.biases.len(),
                        forall|m: int|
                            0 <= m < lv.biases.len() ==> nig@[m] == neuron_nig::<O>(
                                lv,
                                gi,
                                souts[li as int + 1],
                                m,
                            ),
                        new_row@.len() == k,
                        forall|m: int|
                            0 <= m < k ==> new_row@[m] == O::ssub(
                                lv.weights[j2 as int][m],
                                O::smul(
                                    learning_rate,
                                    O::smul(
                                        neuron_nig::<O>(lv, gi, souts[li as int + 1], j2 as int),
                                        souts[li as int][m],
                                    ),
                                ),
                            ),
                    decreases row@.len() - k,
                {
                    new_row.push(
                        O::sub(
                            row[k],
                            O::mul(learning_rate, O::mul(nig[j2], in_here[k])),
                        ),
                    );
                    k += 1;
                }
                proof {
                    assert(new_row@.len() == upd.weights[j2 as int].len());
                    assert forall|m: int| 0 <= m < new_row@.len() implies new_row@[m]
                        == upd.weights[j2 as int][m] by {
                        assert(upd.weights[j2 as int][m] == O::ssub(
                            lv.weights[j2 as int][m],
                            O::smul(
                                learning_rate,
                                O::smul(
                                    neuron_nig::<O>(lv, gi, souts[li as int + 1], j2 as int),
                                    souts[li as int][m],
                                ),
                            ),
                        ));
                    }
                    assert(new_row@ =~= upd.weights[j2 as int]);
                }
                new_w.push(new_row);
                j2 += 1;
            }
            let mut new_b: Vec<u64> = Vec::new();
            let mut j3: usize = 0;
            while j3 < l.biases.len()
                invariant
                    j3 <= lv.biases.len(),
                    l@ == lv,
                    lv == net0[li as int],
                    gi == layer_gradient::<O>(net0, input@, target@, li as int),
                    souts == intermediate_outputs::<O>(net0, input@),
                    li < len,
                    len == net0.len(),
                    nig@.len() == lv.biases.len(),
                    forall|m: int|
                        0 <= m < lv.biases.len() ==> nig@[m] == neuron_nig::<O>(
                            lv,
                            gi,
                            souts[li as int + 1],
                            m,
                        ),
                    upd == updated_layer::<O>(net0, input@, target@, learning_rate, li as int),
                    new_b@.len() == j3,
                    forall|m: int| 0 <= m < j3 ==> new_b@[m] == upd.biases[m],
                decreases lv.biases.len() - j3,
            {
                new_b.push(O::sub(l.biases[j3], O::mul(learning_rate, nig[j3])));
                proof {
                    assert(upd.biases[j3 as int] == O::ssub(
                        lv.biases[j3 as int],
                        O::smul(
                            learning_rate,
                            neuron_nig::<O>(lv, gi, souts[li as int + 1], j3 as int),
                        ),
                    ));
                }
                j3 += 1;
            }

            // the gradient seeded for the previous layer, through this
            // layer's original weights
            if li > 0 {
                let ghost gprev = layer_gradient::<O>(net0, input@, target@, li as int - 1);
                proof {
                    assert(gprev == Seq::new(
                        lv.weights[0].len(),
                        |k: int|
                            upstream_prefix::<O>(
                                lv,
                                gi,
                                souts[li as int + 1],
                                k,
                                lv.weights.len() as int,
                            ),
                    ));
                }
                let width = self.layers[li].weights[0].len();
                let mut prev_g: Vec<u64> = Vec::new();
                let mut k2: usize = 0;
                while k2 < width
                    invariant
                        k2 <= width,
                        l@ == lv,
                        width == lv.weights[0].len(),
                        wf_layer(lv, spec_width_in(net0, li as int)),
                        width == spec_width_in(net0, li as int),
                        nig@.len() == lv.biases.len(),
                        forall|m: int|
                            0 <= m < lv.biases.len() ==> nig@[m] == neuron_nig::<O>(
                                lv,
                                gi,
                                souts[li as int + 1],
                                m,
                            ),
                        gprev == layer_gradient::<O>(net0, input@, target@, li as int - 1),
                        gprev.len() == width,
                        forall|m: int|
                            0 <= m < width ==> gprev[m] == upstream_prefix::<O>(
                                lv,
                                gi,
                                souts[li as int + 1],
                                m,
                                lv.weights.len() as int,
                            ),
                        prev_g@.len() == k2,
                        forall|m: int| 0 <= m < k2 ==> prev_g@[m] == gprev[m],
                    decreases width - k2,
                {
                    let mut acc = O::zero();
                    let mut j4: usize = 0;
                    while j4 < l.weights.len()
                        invariant
                            j4 <= lv.weights.len(),
                            l@ == lv,
                            k2 < width,
                            width == spec_width_in(net0, li as int),
                            wf_layer(lv, spec_width_in(net0, li as int)),
                            nig@.len() == lv.biases.len(),
                            lv.weights.len() == lv.biases.len(),
                            forall|m: int|
                                0 <= m < lv.biases.len() ==> nig@[m] == neuron_nig::<O>(
                                    lv,
                                    gi,
                                    souts[li as int + 1],
                                    m,
                                ),
                            acc == upstream_prefix::<O>(
                                lv,
                                gi,
                                souts[li as int + 1],
                                k2 as int,
                                j4 as int,
                            ),
                        decreases lv.weights.len() - j4,
                    {
                        let wrow = &l.weights[j4];
                        proof {
                            assert(wrow@ == lv.weights[j4 as int]);
                            assert(lv.weights[j4 as int].len() == spec_width_in(net0, li as int));
                        }
                        acc = O::add(acc, O::mul(wrow[k2], nig[j4]));
                        j4 += 1;
                    }
                    prev_g.push(acc);
                    k2 += 1;
                }
                proof {
                    assert(prev_g@ =~= gprev);
                }
                layer_gradients.set(li - 1, prev_g);
            }

            updated_rev.push(Layer {
                weights: new_w,
                biases: new_b,
                activation: l.activation.clone(),
            });
            proof {
                let pushed = updated_rev@[updated_rev@.len() - 1];
                assert(pushed@.weights =~= upd.weights);
                assert(pushed@.biases =~= upd.biases);
                assert(pushed@ == upd);
            }
        }

        // apply every recorded update, front to back
        let ghost updated_full = updated_rev@;
        let mut a: usize = 0;
        while a < len
            invariant
                a <= len,
                len == net0.len(),
                self@.len() == net0.len(),
                wf_layers(net0),
                input@.len() == spec_width_in(net0, 0),
                target@.len() == net0.last().biases.len(),
                updated_rev@ == updated_full.take((len - a) as int),
                updated_full.len() == len,
                forall|m: int|
                    0 <= m < len ==> (#[trigger] updated_full[m])@ == updated_layer::<O>(
                        net0,
                        input@,
                        target@,
                        learning_rate,
                        len - 1 - m,
                    ),
                forall|m: int|
                    0 <= m < a ==> #[trigger] self@[m] == updated_layer::<O>(
                        net0,
                        input@,
                        target@,
                        learning_rate,
                        m,
                    ),
                forall|m: int| a <= m < len ==> #[trigger] self@[m] == net0[m],
                layer_gradients@.len() == len,
                forall|m: int|
                    0 <= m < len ==> (#[trigger] layer_gradients@[m])@ == layer_gradient::<O>(
                        net0,
                        input@,
                        target@,
                        m,
                    ),
            decreases len - a,
        {
            let nl = updated_rev.pop().unwrap();
            proof {
                assert(updated_rev@ =~= updated_full.take((len - a - 1) as int));
                assert(nl@ == updated_layer::<O>(net0, input@, target@, learning_rate, a as int));
            }
            let ghost pre = self@;
            self.layers.set(a, nl);
            proof {
                assert(self@.len() == len);
                assert forall|m: int| 0 <= m < len && m != a implies #[trigger] self@[m]
                    == pre[m] by {}
                assert(self@[a as int] == nl@);
                assert forall|m: int| 0 <= m < a + 1 implies #[trigger] self@[m]
                    == updated_layer::<O>(net0, input@, target@, learning_rate, m) by {
                    if m < a {
                        assert(self@[m] == pre[m]);
                    }
                }
                assert forall|m: int| a + 1 <= m < len implies #[trigger] self@[m] == net0[m] by {
                    assert(self@[m] == pre[m]);
                }
            }
            a += 1;
        }
        proof {
            assert(self@ =~= backprop_net::<O>(net0, input@, target@, learning_rate));
            assert(matrix_view(layer_gradients) =~= all_gradients::<O>(net0, input@, target@));
            lemma_backprop_preserves_wf::<O>(net0, input@, target@, learning_rate);
        }
        BackpropagationPassResult { layer_gradients, total_error }
    }

    /// A network with randomly seeded parameters: one layer per entry of
    /// `hidden_layers` followed by an output layer of `num_outputs` neurons
    /// with `output_activation`. Every weight is a fresh unit sample scaled
    /// down by the layer's input count, every bias one scaled down by the
    /// layer's own neuron count; nothing more is promised of the values.
    pub fn random<O: ScalarOps>(
        num_inputs: usize,
        num_outputs: usize,
        hidden_layers: Vec<LayerProperties>,
        output_activation: ActivationFnInfo,
    ) -> (r: Network)
        requires
            num_outputs >= 1,
            forall|i: int|
                0 <= i < hidden_layers@.len() ==> (#[trigger] hidden_layers@[i]).num_neurons >= 1,
        ensures
            r.wf(),
            r@.len() == hidden_layers@.len() + 1,
            r.input_width() == num_inputs,
            r.output_width() == num_outputs,
            forall|i: int|
                0 <= i < hidden_layers@.len() ==> (#[trigger] r@[i]).biases.len()
                    == hidden_layers@[i].num_neurons && r@[i].activation
                    == hidden_layers@[i].activation,
            r@.last().activation == output_activation,
    {
        let mut layers: Vec<Layer> = Vec::new();
        let mut prev: usize = num_inputs;
        let mut h: usize = 0;
        while h < hidden_layers.len()
            invariant
                h <= hidden_layers@.len(),
                layers@.len() == h,
                forall|i: int|
                    0 <= i < hidden_layers@.len() ==> (#[trigger] hidden_layers@[i]).num_neurons
                        >= 1,
                h == 0 ==> prev == num_inputs,
                h > 0 ==> prev == hidden_layers@[h - 1].num_neurons,
                forall|i: int|
                    0 <= i < h ==> (#[trigger] layers@[i])@.weights.len()
                        == hidden_layers@[i].num_neurons && layers@[i]@.biases.len()
                        == hidden_layers@[i].num_neurons && layers@[i]@.activation
                        == hidden_layers@[i].activation,
                forall|i: int, j: int|
                    0 <= i < h && 0 <= j < layers@[i]@.weights.len()
                        ==> (#[trigger] layers@[i]@.weights[j]).len() == (if i == 0 {
                        num_inputs as nat
                    } else {
                        hidden_layers@[i - 1].num_neurons as nat
                    }),
            decreases hidden_layers@.len() - h,
        {
            let props = &hidden_layers[h];
            let count = props.num_neurons;
            let mut weights: Vec<Vec<u64>> = Vec::new();
            while weights.len() < count
                invariant
                    weights@.len() <= count,
                    forall|j: int|
                        0 <= j < weights@.len() ==> (#[trigger] weights@[j])@.len() == prev,
                decreases count - weights.len(),
            {
                weights.push(random_row::<O>(prev, prev));
            }
            let biases = random_row::<O>(count, count);
            layers.push(Layer { weights, biases, activation: props.activation.clone() });
            prev = count;
            h += 1;
        }
        let mut weights: Vec<Vec<u64>> = Vec::new();
        while weights.len() < num_outputs
            invariant
                weights@.len() <= num_outputs,
                forall|j: int| 0 <= j < weights@.len() ==> (#[trigger] weights@[j])@.len() == prev,
            decreases num_outputs - weights.len(),
        {
            weights.push(random_row::<O>(prev, prev));
        }
        let biases = random_row::<O>(num_outputs, num_outputs);
        layers.push(Layer { weights, biases, activation: output_activation });
        let r = Network { layers };
        proof {
            let rv = r@;
            let hl = hidden_layers@.len() as int;
            assert(rv.len() == hl + 1);
            assert forall|i: int| 0 <= i < rv.len() implies (#[trigger] rv[i])
                == r.layers@[i]@ by {}
            assert forall|i: int| 0 <= i < rv.len() implies wf_layer(
                #[trigger] rv[i],
                spec_width_in(rv, i),
            ) by {
                assert(rv[i] == r.layers@[i]@);
                if i > 0 {
                    assert(rv[i - 1] == r.layers@[i - 1]@);
                }
                if i < hl {
                    assert(rv[i].weights.len() == hidden_layers@[i].num_neurons);
                    assert(rv[i].biases.len() == hidden_layers@[i].num_neurons);
                    assert(rv[i].weights.len() >= 1);
                    assert forall|j: int| 0 <= j < rv[i].weights.len() implies (#[trigger] rv[i].weights[j]).len() == spec_width_in(rv, i) by {
                        if i == 0 {
                            assert(rv[0].weights[j].len() == num_inputs as nat);
                            assert(rv[0].weights[0].len() == num_inputs as nat);
                        } else {
                            assert(rv[i].weights[j].len() == hidden_layers@[i
                                - 1].num_neurons as nat);
                            assert(spec_width_in(rv, i) == rv[i - 1].biases.len());
                        }
                    }
                } else {
                    assert(rv[i].weights.len() == num_outputs as nat);
                    assert(rv[i].biases.len() == num_outputs as nat);
                    assert forall|j: int| 0 <= j < rv[i].weights.len() implies (#[trigger] rv[i].weights[j]).len() == spec_width_in(rv, i) by {
                        if hl == 0 {
                            assert(rv[0].weights[j].len() == num_inputs as nat);
                            assert(rv[0].weights[0].len() == num_inputs as nat);
                        } else {
                            assert(rv[i].weights[j].len() == hidden_layers@[hl
                                - 1].num_neurons as nat);
                            assert(spec_width_in(rv, i) == rv[i - 1].biases.len());
                            assert(rv[i - 1].biases.len() == hidden_layers@[hl
                                - 1].num_neurons as nat);
                        }
                    }
                }
            }
            assert(rv[0].weights.len() >= 1);
            assert(rv[0].weights[0].len() == num_inputs as nat);
            assert(rv.last().biases.len() == num_outputs as nat);
        }
        r
    }
}

/// One freshly seeded parameter row: `n` samples from the scalar system's
/// unit interval, each scaled down by the count `scale`. The shape is
/// promised; the values are random.
fn random_row<O: ScalarOps>(n: usize, scale: usize) -> (r: Vec<u64>)
    ensures
        r@.len() == n,
{
    let mut r: Vec<u64> = Vec::new();
    while r.len() < n
        invariant
            r@.len() <= n,
        decreases n - r.len(),
    {
        r.push(O::div(O::random_unit(), O::from_usize(scale)));
    }
    r
}

/// The gradient of every layer has one entry per neuron of that layer.
proof fn lemma_layer_gradient_len<O: ScalarOps>(
    layers: Seq<LayerV>,
    input: Seq<u64>,
    target: Seq<u64>,
    i: int,
)
    requires
        wf_layers(layers),
        target.len() == layers.last().biases.len(),
        0 <= i < layers.len(),
    ensures
        layer_gradient::<O>(layers, input, target, i).len() == layers[i].biases.len(),
    decreases layers.len() - i,
{
    if i >= layers.len() - 1 {
    } else {
        lemma_layer_gradient_len::<O>(layers, input, target, i + 1);
        assert(wf_layer(layers[i + 1], spec_width_in(layers, i + 1)));
        assert(layers[i + 1].weights[0].len() == spec_width_in(layers, i + 1));
        assert(spec_width_in(layers, i + 1) == layers[i].biases.len());
    }
}

/// One backpropagation pass preserves the network's shape, so the updated
/// network is well formed again.
proof fn lemma_backprop_preserves_wf<O: ScalarOps>(
    layers: Seq<LayerV>,
    input: Seq<u64>,
    target: Seq<u64>,
    rate: u64,
)
    requires
        wf_layers(layers),
    ensures
        wf_layers(backprop_net::<O>(layers, input, target, rate)),
        spec_width_in(backprop_net::<O>(layers, input, target, rate), 0) == spec_width_in(
            layers,
            0,
        ),
        backprop_net::<O>(layers, input, target, rate).last().biases.len()
            == layers.last().biases.len(),
{
    let upd = backprop_net::<O>(layers, input, target, rate);
    assert forall|i: int| 0 <= i < upd.len() implies wf_layer(
        #[trigger] upd[i],
        spec_width_in(upd, i),
    ) by {
        assert(wf_layer(layers[i], spec_width_in(layers, i)));
        if i > 0 {
            assert(wf_layer(layers[i - 1], spec_width_in(layers, i - 1)));
        }
    }
}

/// In the wrapping arithmetic a zero weight contributes nothing: the net
/// input of a neuron whose row and bias hold the scalar zero is zero,
/// whatever the incoming values are.
proof fn lemma_zero_net_input(row: Seq<u64>, v: Seq<u64>, n: int)
    requires
        forall|k: int| 0 <= k < row.len() ==> row[k] == 0u64,
        n <= row.len(),
        n <= v.len(),
    ensures
        net_input_prefix::<WrapOps>(row, v, 0u64, n) == 0u64,
    decreases n,
{
    if n > 0 {
        lemma_zero_net_input(row, v, n - 1);
    }
}

/// A law of the engine, stated over the crate's own wrapping arithmetic: on
/// a well-formed network whose weights and biases all hold the scalar zero,
/// every layer's output vector repeats that layer's activation of zero at
/// every neuron — whatever the input vector was.
pub proof fn lemma_zero_network_outputs(layers: Seq<LayerV>, input: Seq<u64>, i: int, j: int)
    requires
        wf_layers(layers),
        input.len() == spec_width_in(layers, 0),
        forall|l: int, j2: int, k: int|
            0 <= l < layers.len() && 0 <= j2 < layers[l].weights.len() && 0 <= k < layers[l].weights[j2].len()
                ==> #[trigger] layers[l].weights[j2][k] == 0u64,
        forall|l: int, j2: int|
            0 <= l < layers.len() && 0 <= j2 < layers[l].biases.len()
                ==> #[trigger] layers[l].biases[j2] == 0u64,
        0 <= i < layers.len(),
        0 <= j < layers[i].weights.len(),
    ensures
        intermediate_outputs::<WrapOps>(layers, input)[i + 1][j] == act_forward::<WrapOps>(
            layers[i].activation,
            0u64,
        ),
{
    let outs = intermediate_outputs::<WrapOps>(layers, input);
    lemma_outputs_prefix_shape::<WrapOps>(layers, input, layers.len() as int);
    lemma_outputs_widths::<WrapOps>(layers, input);
    assert(outs[i + 1] == layer_output::<WrapOps>(layers[i], outs[i]));
    let row = layers[i].weights[j];
    assert(wf_layer(layers[i], spec_width_in(layers, i)));
    assert(row.len() == spec_width_in(layers, i));
    assert(outs[i].len() == spec_width_in(layers, i));
    assert forall|k: int| 0 <= k < row.len() implies row[k] == 0u64 by {
        assert(layers[i].weights[j][k] == 0u64);
    }
    assert(layers[i].biases[j] == 0u64);
    lemma_zero_net_input(row, outs[i], outs[i].len() as int);
    assert(outs[i + 1][j] == act_forward::<WrapOps>(
        layers[i].activation,
        neuron_net_input::<WrapOps>(row, outs[i], 0u64),
    ));
}

/// The prefix of the intermediate outputs is a take of the whole sequence.
proof fn lemma_outputs_prefix_is_take<O: ScalarOps>(layers: Seq<LayerV>, input: Seq<u64>, n: int)
    requires
        0 <= n <= layers.len(),
    ensures
        outputs_prefix::<O>(layers, input, n) == intermediate_outputs::<O>(layers, input).take(
            n + 1,
        ),
    decreases layers.len() - n,
{
    if n == layers.len() {
        lemma_outputs_prefix_shape::<O>(layers, input, n);
        assert(intermediate_outputs::<O>(layers, input).take(n + 1) =~= intermediate_outputs::<O>(
            layers,
            input,
        ));
    } else {
        lemma_outputs_prefix_is_take::<O>(layers, input, n + 1);
        lemma_outputs_prefix_shape::<O>(layers, input, n);
        lemma_outputs_prefix_shape::<O>(layers, input, n + 1);
        lemma_outputs_prefix_shape::<O>(layers, input, layers.len() as int);
        let prev = outputs_prefix::<O>(layers, input, n);
        let next = outputs_prefix::<O>(layers, input, n + 1);
        assert(next == prev.push(layer_output::<O>(layers[n], prev.last())));
        assert(prev =~= next.take(n + 1));
        assert(next.take(n + 1) =~= intermediate_outputs::<O>(layers, input).take(n + 1));
    }
}

} // verus!
