//! Layer and network shapes, and the confidence-augmenting shape transform.

use vstd::prelude::*;

verus! {

/// The activation functions a stage may attach to a layer. The verified core
/// only records which one a layer uses; evaluating one is the stage
/// implementation's business.
#[derive(Clone, Copy, Debug, PartialEq, Eq, Structural)]
pub enum ActivationType {
    ReLU,
    Sigmoid,
    Tanh,
    Softmax,
}

/// An activation choice together with its optional temperature (fixed-point,
/// used by softmax only).
#[derive(Clone, Copy, Debug)]
pub struct ActivationData {
    pub activation_type: ActivationType,
    pub temperature: Option<i64>,
}

impl ActivationData {
    /// An activation without a temperature.
    pub fn new(activation_type: ActivationType) -> (r: ActivationData)
        ensures
            r.activation_type == activation_type,
            r.temperature == Option::<i64>::None,
    {
        ActivationData { activation_type, temperature: None }
    }

    /// A softmax-style activation with a temperature.
    pub fn new_softmax(temperature: i64) -> (r: ActivationData)
        ensures
            r.activation_type == ActivationType::Softmax,
            r.temperature == Some(temperature),
    {
        ActivationData { activation_type: ActivationType::Softmax, temperature: Some(temperature) }
    }

    pub fn activation_type(&self) -> (t: ActivationType)
        ensures
            t == self.activation_type,
    {
        self.activation_type
    }

    pub fn temperature(&self) -> (t: Option<i64>)
        ensures
            t == self.temperature,
    {
        self.temperature
    }
}

/// The kind of a layer and its dimensions.
#[derive(Clone, Copy, Debug)]
pub enum LayerType {
    Dense { input_size: usize, output_size: usize },
}

/// One layer of a network shape.
#[derive(Clone, Copy, Debug)]
pub struct LayerShape {
    pub layer_type: LayerType,
    pub activation: ActivationData,
}

impl LayerShape {
    /// Width of the layer's input.
    pub open spec fn spec_input_size(&self) -> usize {
        match self.layer_type {
            LayerType::Dense { input_size, .. } => input_size,
        }
    }

    /// Width of the layer's output.
    pub open spec fn spec_output_size(&self) -> usize {
        match self.layer_type {
            LayerType::Dense { output_size, .. } => output_size,
        }
    }

    pub fn input_size(&self) -> (n: usize)
        ensures
            n == self.spec_input_size(),
    {
        match self.layer_type {
            LayerType::Dense { input_size, .. } => input_size,
        }
    }

    pub fn output_size(&self) -> (n: usize)
        ensures
            n == self.spec_output_size(),
    {
        match self.layer_type {
            LayerType::Dense { output_size, .. } => output_size,
        }
    }
}

/// The externally visible shape of a network: an ordered sequence of layers.
#[derive(Debug)]
pub struct NeuralNetworkShape {
    pub layers: Vec<LayerShape>,
}

impl Clone for NeuralNetworkShape {
    fn clone(&self) -> (r: Self)
        ensures
            r@ == self@,
    {
        let n = self.layers.len();
        let mut layers: Vec<LayerShape> = Vec::new();
        let mut i: usize = 0;
        while i < n
            invariant
                n == self.layers@.len(),
                0 <= i <= n,
                layers@ =~= self.layers@.take(i as int),
            decreases n - i,
        {
            layers.push(self.layers[i]);
            proof {
                assert(layers@ =~= self.layers@.take(i + 1));
            }
            i = i + 1;
        }
        proof {
            assert(self.layers@.take(n as int) =~= self.layers@);
        }
        NeuralNetworkShape { layers }
    }
}

impl View for NeuralNetworkShape {
    type V = Seq<LayerShape>;

    open spec fn view(&self) -> Seq<LayerShape> {
        self.layers@
    }
}

/// A shape is valid when it has at least one layer, every layer is strictly
/// wider than zero on both sides, and the output width of each layer equals
/// the input width of the next.
pub open spec fn spec_valid_shape(layers: Seq<LayerShape>) -> bool {
    &&& layers.len() > 0
    &&& forall|i: int|
        0 <= i < layers.len() ==> #[trigger] layers[i].spec_input_size() > 0
            && layers[i].spec_output_size() > 0
    &&& forall|i: int|
        0 < i < layers.len() ==> #[trigger] layers[i].spec_input_size() == layers[i - 1].spec_output_size()
}

/// Input width of a whole shape (its first layer's input).
pub open spec fn spec_shape_input(layers: Seq<LayerShape>) -> usize
    recommends
        layers.len() > 0,
{
    layers[0].spec_input_size()
}

/// Output width of a whole shape (its last layer's output).
pub open spec fn spec_shape_output(layers: Seq<LayerShape>) -> usize
    recommends
        layers.len() > 0,
{
    layers[layers.len() - 1].spec_output_size()
}

impl NeuralNetworkShape {
    pub fn num_layers(&self) -> (n: usize)
        ensures
            n == self@.len(),
    {
        self.layers.len()
    }

    /// Checks the shape invariant: chained layer widths, no zero widths,
    /// at least one layer.
    pub fn is_valid(&self) -> (r: bool)
        ensures
            r == spec_valid_shape(self@),
    {
        let n = self.layers.len();
        if n == 0 {
            return false;
        }
        let mut i: usize = 0;
        while i < n
            invariant
                n == self@.len(),
                0 <= i <= n,
                forall|j: int|
                    0 <= j < i ==> (#[trigger] self@[j]).spec_input_size() > 0
                        && self@[j].spec_output_size() > 0,
                forall|j: int|
                    0 < j < i ==> #[trigger] self@[j].spec_input_size() == self@[j - 1].spec_output_size(),
            decreases n - i,
        {
            let layer = &self.layers[i];
            if layer.input_size() == 0 || layer.output_size() == 0 {
                return false;
            }
            if i > 0 && self.layers[i - 1].output_size() != layer.input_size() {
                return false;
            }
            i = i + 1;
        }
        true
    }

    /// Checks that every layer leaves headroom to grow by one channel.
    pub fn fits(&self) -> (r: bool)
        ensures
            r == spec_shape_fits(self@),
    {
        let n = self.layers.len();
        let mut i: usize = 0;
        while i < n
            invariant
                n == self@.len(),
                0 <= i <= n,
                forall|j: int|
                    0 <= j < i ==> (#[trigger] self@[j]).spec_output_size() < usize::MAX
                        && self@[j].spec_input_size() < usize::MAX,
            decreases n - i,
        {
            let layer = &self.layers[i];
            if layer.input_size() == usize::MAX || layer.output_size() == usize::MAX {
                return false;
            }
            i = i + 1;
        }
        true
    }

    pub fn input_size(&self) -> (n: usize)
        requires
            self@.len() > 0,
        ensures
            n == spec_shape_input(self@),
    {
        self.layers[0].input_size()
    }

    pub fn output_size(&self) -> (n: usize)
        requires
            self@.len() > 0,
        ensures
            n == spec_shape_output(self@),
    {
        self.layers[self.layers.len() - 1].output_size()
    }
}

/// Every layer is narrow enough that widening it by one channel cannot
/// overflow the width type.
pub open spec fn spec_shape_fits(layers: Seq<LayerShape>) -> bool {
    forall|i: int|
        0 <= i < layers.len() ==> (#[trigger] layers[i]).spec_output_size() < usize::MAX
            && layers[i].spec_input_size() < usize::MAX
}

/// What the augmenting transform does to a valid shape: the layer count and
/// the input width are kept, the output width grows by one, and the result
/// is again a valid shape.
pub proof fn lemma_augmented_shape_facts(layers: Seq<LayerShape>)
    requires
        spec_valid_shape(layers),
        spec_shape_fits(layers),
    ensures
        spec_augmented_shape(layers).len() == layers.len(),
        spec_valid_shape(spec_augmented_shape(layers)),
        spec_shape_input(spec_augmented_shape(layers)) == spec_shape_input(layers),
        spec_shape_output(spec_augmented_shape(layers)) == spec_shape_output(layers) + 1,
{
    let aug = spec_augmented_shape(layers);
    let n = layers.len() as int;
    assert forall|i: int| 0 <= i < n implies (#[trigger] aug[i]).spec_input_size() > 0
        && aug[i].spec_output_size() > 0 by {
        assert(aug[i] == spec_augmented_layer(layers[i], i == 0));
    }
    assert forall|i: int| 0 < i < n implies (#[trigger] aug[i]).spec_input_size()
        == aug[i - 1].spec_output_size() by {
        assert(aug[i] == spec_augmented_layer(layers[i], false));
        assert(aug[i - 1] == spec_augmented_layer(layers[i - 1], i - 1 == 0));
    }
    assert(aug[0] == spec_augmented_layer(layers[0], true));
    assert(aug[n - 1] == spec_augmented_layer(layers[n - 1], n - 1 == 0));
}

/// What the augmented counterpart of a layer looks like: the first layer
/// keeps its input width, every later layer gains one input channel, and
/// every layer gains one output channel; the activation is untouched.
pub open spec fn spec_augmented_layer(layer: LayerShape, first: bool) -> LayerShape {
    LayerShape {
        layer_type: LayerType::Dense {
            input_size: if first {
                layer.spec_input_size()
            } else {
                (layer.spec_input_size() + 1) as usize
            },
            output_size: (layer.spec_output_size() + 1) as usize,
        },
        activation: layer.activation,
    }
}

/// The confidence-augmented counterpart of a whole shape.
pub open spec fn spec_augmented_shape(layers: Seq<LayerShape>) -> Seq<LayerShape> {
    Seq::new(layers.len(), |i: int| spec_augmented_layer(layers[i], i == 0))
}

/// Widens a shape by one channel so a primary stage can jointly learn the
/// task output and its own escalation signal: layer 0 keeps its input width
/// and gains one output unit; every later layer gains one input unit and one
/// output unit; activations are unchanged. Stripping the extra unit from the
/// final layer recovers the original output width, and the layer count is
/// preserved.
pub fn add_internal_dimensions(shape: &NeuralNetworkShape) -> (r: NeuralNetworkShape)
    requires
        shape@.len() > 0,
        spec_shape_fits(shape@),
    ensures
        r@ == spec_augmented_shape(shape@),
        r@.len() == shape@.len(),
        spec_shape_output(r@) == spec_shape_output(shape@) + 1,
        spec_shape_input(r@) == spec_shape_input(shape@),
        spec_valid_shape(shape@) ==> spec_valid_shape(r@),
{
    let n = shape.layers.len();
    let mut layers: Vec<LayerShape> = Vec::new();
    let mut i: usize = 0;
    while i < n
        invariant
            n == shape@.len(),
            0 <= i <= n,
            layers@.len() == i,
            spec_shape_fits(shape@),
            forall|j: int| 0 <= j < i ==> layers@[j] == spec_augmented_layer(shape@[j], j == 0),
        decreases n - i,
    {
        let layer = &shape.layers[i];
        let new_input = if i == 0 {
            layer.input_size()
        } else {
            layer.input_size() + 1
        };
        let augmented = LayerShape {
            layer_type: LayerType::Dense {
                input_size: new_input,
                output_size: layer.output_size() + 1,
            },
            activation: layer.activation,
        };
        layers.push(augmented);
        i = i + 1;
    }
    let r = NeuralNetworkShape { layers };
    proof {
        assert(r@ =~= spec_augmented_shape(shape@));
    }
    r
}

/// Are two activation records the same?
pub fn activation_eq(a: &ActivationData, b: &ActivationData) -> (r: bool)
    ensures
        r == (a.activation_type == b.activation_type && a.temperature == b.temperature),
{
    let types_match = match (a.activation_type, b.activation_type) {
        (ActivationType::ReLU, ActivationType::ReLU) => true,
        (ActivationType::Sigmoid, ActivationType::Sigmoid) => true,
        (ActivationType::Tanh, ActivationType::Tanh) => true,
        (ActivationType::Softmax, ActivationType::Softmax) => true,
        _ => false,
    };
    let temps_match = match (a.temperature, b.temperature) {
        (Option::None, Option::None) => true,
        (Option::Some(x), Option::Some(y)) => x == y,
        _ => false,
    };
    types_match && temps_match
}

/// Are two layer specifications the same?
pub fn layer_eq(a: &LayerShape, b: &LayerShape) -> (r: bool)
    ensures
        r == (a == b),
{
    let dims_match = match (a.layer_type, b.layer_type) {
        (
            LayerType::Dense { input_size: ai, output_size: ao },
            LayerType::Dense { input_size: bi, output_size: bo },
        ) => ai == bi && ao == bo,
    };
    let r = dims_match && activation_eq(&a.activation, &b.activation);
    proof {
        if r {
            assert(a.layer_type == b.layer_type);
            assert(a.activation == b.activation);
            assert(a == b);
        }
    }
    r
}

/// Are two shapes the same, layer for layer?
pub fn shape_eq(a: &NeuralNetworkShape, b: &NeuralNetworkShape) -> (r: bool)
    ensures
        r == (a@ == b@),
{
    let n = a.layers.len();
    if n != b.layers.len() {
        proof {
            assert(a@ != b@);
        }
        return false;
    }
    let mut i: usize = 0;
    while i < n
        invariant
            n == a@.len(),
            n == b@.len(),
            0 <= i <= n,
            forall|j: int| 0 <= j < i ==> a@[j] == b@[j],
        decreases n - i,
    {
        if !layer_eq(&a.layers[i], &b.layers[i]) {
            return false;
        }
        i = i + 1;
    }
    proof {
        assert(a@ =~= b@);
    }
    true
}

/// The augmenting transform keeps the layer count, adds exactly one output
/// unit to the final layer, and keeps the first layer's input width; so a
/// vector produced under the augmented shape, shortened by its last element,
/// has the original shape's output width.
pub proof fn lemma_augmented_shape_reversible(layers: Seq<LayerShape>, produced: Seq<i64>)
    requires
        layers.len() > 0,
        spec_shape_output(layers) < usize::MAX,
        produced.len() == spec_shape_output(spec_augmented_shape(layers)),
    ensures
        spec_augmented_shape(layers).len() == layers.len(),
        produced.take(produced.len() - 1).len() == spec_shape_output(layers),
{
    let n = layers.len() as int;
    assert(spec_augmented_shape(layers)[n - 1] == spec_augmented_layer(layers[n - 1], n - 1 == 0));
}

} // verus!
