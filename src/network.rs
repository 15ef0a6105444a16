use vstd::prelude::*;

use crate::activation::Activation;
use crate::topology::{width_after, Layer, Topology};

verus! {

/// `eval` was handed an input whose length is not the width the network reads.
#[derive(Debug, Clone, Copy, PartialEq, Eq, Structural)]
pub struct DimensionMismatch {
    pub expected: usize,
    pub actual: usize,
}

/// A feedforward network over scalars of type `T`: for each layer `l`, one row
/// of `weights[l]` and one entry of `biases[l]` per output neuron, each row
/// holding one weight per input of the layer.
pub struct NeuralNetwork<T> {
    pub topology: Topology,
    pub weights: Vec<Vec<Vec<T>>>,
    pub biases: Vec<Vec<T>>,
}

/// The parameters of one layer have the dimensions that `layer` describes.
pub open spec fn layer_sized<T>(weights: Vec<Vec<T>>, biases: Vec<T>, layer: Layer) -> bool {
    &&& weights@.len() == layer.outputs
    &&& biases@.len() == layer.outputs
    &&& forall|n: int| 0 <= n < weights@.len() ==> (#[trigger] weights@[n])@.len() == layer.inputs
}

/// Each layer's parameters have the dimensions that its descriptor gives.
pub open spec fn sized_by<T>(weights: Seq<Vec<Vec<T>>>, biases: Seq<Vec<T>>, layers: Seq<Layer>) -> bool {
    &&& weights.len() == layers.len()
    &&& biases.len() == layers.len()
    &&& forall|l: int|
        #![trigger weights[l]]
        #![trigger biases[l]]
        0 <= l < layers.len() ==> layer_sized(weights[l], biases[l], layers[l])
}

/// Every parameter of a layer is a value that `draw` may return for that layer.
pub open spec fn drawn_for<T, F: Fn(Layer) -> T>(draw: F, layer: Layer, weights: Vec<Vec<T>>, biases: Vec<T>) -> bool {
    &&& forall|n: int, i: int|
        0 <= n < weights@.len() && 0 <= i < weights@[n]@.len() ==> draw.ensures((layer,), #[trigger] weights@[n]@[i])
    &&& forall|n: int| 0 <= n < biases@.len() ==> draw.ensures((layer,), #[trigger] biases@[n])
}

/// `neuron` gives equal results on argument vectors that hold the same values.
pub open spec fn reads_values<T, F: Fn(&Vec<T>, &Vec<T>, &T, Activation) -> T>(neuron: F) -> bool {
    forall|x1: &Vec<T>, x2: &Vec<T>, w: &Vec<T>, b: &T, a: Activation, r1: T, r2: T|
        x1@ == x2@ && #[trigger] neuron.ensures((x1, w, b, a), r1) && #[trigger] neuron.ensures(
            (x2, w, b, a),
            r2,
        ) ==> r1 == r2
}

impl<T> NeuralNetwork<T> {
    /// The parameters have the dimensions that a consistent topology gives.
    pub open spec fn wf(&self) -> bool {
        &&& self.topology.wf()
        &&& sized_by(self.weights@, self.biases@, self.topology.layers@)
    }

    /// `y` is what layer `l` produces from `x`: one value per output neuron,
    /// each a result of `neuron` on `x`, the neuron's weights and bias and the
    /// layer's activation.
    pub open spec fn layer_step<F: Fn(&Vec<T>, &Vec<T>, &T, Activation) -> T>(
        &self,
        l: int,
        x: Vec<T>,
        y: Vec<T>,
        neuron: F,
    ) -> bool {
        &&& y@.len() == self.weights@[l]@.len()
        &&& forall|n: int|
            0 <= n < y@.len() ==> neuron.ensures(
                (&x, &self.weights@[l]@[n], &self.biases@[l]@[n], self.topology.layers@[l].activation),
                #[trigger] y@[n],
            )
    }

    /// `trace` holds the input followed by the output of each layer in turn.
    pub open spec fn is_trace<F: Fn(&Vec<T>, &Vec<T>, &T, Activation) -> T>(
        &self,
        input: Seq<T>,
        trace: Seq<Vec<T>>,
        neuron: F,
    ) -> bool {
        &&& trace.len() == self.topology.layers@.len() + 1
        &&& trace[0]@ == input
        &&& forall|l: int|
            0 <= l < self.topology.layers@.len() ==> #[trigger] self.layer_step(l, trace[l], trace[l + 1], neuron)
    }

    /// `output` is what the network produces from `input`, layer after layer.
    pub open spec fn evaluates<F: Fn(&Vec<T>, &Vec<T>, &T, Activation) -> T>(
        &self,
        input: Seq<T>,
        neuron: F,
        output: Seq<T>,
    ) -> bool {
        exists|trace: Seq<Vec<T>>| self.is_trace(input, trace, neuron) && trace.last()@ == output
    }
}

/// One row per output neuron of `layer`, each of `layer.inputs` values drawn from `draw`.
fn draw_weights<T, F: Fn(Layer) -> T>(layer: Layer, draw: &F) -> (r: Vec<Vec<T>>)
    requires
        forall|x: Layer| draw.requires((x,)),
    ensures
        r@.len() == layer.outputs,
        forall|n: int| 0 <= n < r@.len() ==> (#[trigger] r@[n])@.len() == layer.inputs,
        forall|n: int, i: int|
            0 <= n < r@.len() && 0 <= i < r@[n]@.len() ==> draw.ensures((layer,), #[trigger] r@[n]@[i]),
{
    let mut rows: Vec<Vec<T>> = Vec::new();
    let mut n: usize = 0;
    while n < layer.outputs
        invariant
            forall|x: Layer| draw.requires((x,)),
            n <= layer.outputs,
            rows@.len() == n,
            forall|k: int| 0 <= k < rows@.len() ==> (#[trigger] rows@[k])@.len() == layer.inputs,
            forall|k: int, i: int|
                0 <= k < rows@.len() && 0 <= i < rows@[k]@.len() ==> draw.ensures((layer,), #[trigger] rows@[k]@[i]),
        decreases layer.outputs - n,
    {
        let row = draw_values(layer.inputs, layer, draw);
        rows.push(row);
        n += 1;
    }
    rows
}

/// `count` values, each drawn from `draw` for `layer`.
fn draw_values<T, F: Fn(Layer) -> T>(count: usize, layer: Layer, draw: &F) -> (r: Vec<T>)
    requires
        forall|x: Layer| draw.requires((x,)),
    ensures
        r@.len() == count,
        forall|i: int| 0 <= i < r@.len() ==> draw.ensures((layer,), #[trigger] r@[i]),
{
    let mut values: Vec<T> = Vec::new();
    let mut i: usize = 0;
    while i < count
        invariant
            forall|x: Layer| draw.requires((x,)),
            i <= count,
            values@.len() == i,
            forall|k: int| 0 <= k < values@.len() ==> draw.ensures((layer,), #[trigger] values@[k]),
        decreases count - i,
    {
        let v = draw(layer);
        values.push(v);
        i += 1;
    }
    values
}

impl<T> NeuralNetwork<T> {
    /// Builds a network shaped by `topology`, every weight and bias a value
    /// that `draw` returns for its layer. All weights are drawn first, layer by
    /// layer and row by row, then all biases.
    pub fn new<F: Fn(Layer) -> T>(topology: Topology, draw: F) -> (r: Self)
        requires
            forall|x: Layer| draw.requires((x,)),
        ensures
            r.topology == topology,
            sized_by(r.weights@, r.biases@, topology.layers@),
            forall|l: int|
                #![trigger r.weights@[l]]
                #![trigger r.biases@[l]]
                0 <= l < topology.layers@.len() ==> drawn_for(draw, topology.layers@[l], r.weights@[l], r.biases@[l]),
            topology.wf() ==> r.wf(),
    {
        let ghost layers = topology.layers@;
        let nl = topology.layers.len();
        let mut weights: Vec<Vec<Vec<T>>> = Vec::new();
        let mut l: usize = 0;
        while l < nl
            invariant
                forall|x: Layer| draw.requires((x,)),
                nl == layers.len(),
                layers == topology.layers@,
                l <= nl,
                weights@.len() == l,
                forall|k: int| 0 <= k < l ==> {
                    &&& (#[trigger] weights@[k])@.len() == layers[k].outputs
                    &&& forall|n: int| 0 <= n < weights@[k]@.len() ==> (#[trigger] weights@[k]@[n])@.len() == layers[k].inputs
                    &&& forall|n: int, i: int|
                        0 <= n < weights@[k]@.len() && 0 <= i < weights@[k]@[n]@.len() ==> draw.ensures((layers[k],), #[trigger] weights@[k]@[n]@[i])
                },
            decreases nl - l,
        {
            let layer = topology.layers[l];
            let rows = draw_weights(layer, &draw);
            weights.push(rows);
            l += 1;
        }
        let mut biases: Vec<Vec<T>> = Vec::new();
        let mut l: usize = 0;
        while l < nl
            invariant
                forall|x: Layer| draw.requires((x,)),
                nl == layers.len(),
                layers == topology.layers@,
                l <= nl,
                biases@.len() == l,
                forall|k: int| 0 <= k < l ==> {
                    &&& (#[trigger] biases@[k])@.len() == layers[k].outputs
                    &&& forall|n: int| 0 <= n < biases@[k]@.len() ==> draw.ensures((layers[k],), #[trigger] biases@[k]@[n])
                },
            decreases nl - l,
        {
            let layer = topology.layers[l];
            let values = draw_values(layer.outputs, layer, &draw);
            biases.push(values);
            l += 1;
        }
        let r = NeuralNetwork { topology, weights, biases };
        assert forall|k: int| 0 <= k < layers.len() implies #[trigger] layer_sized(r.weights@[k], r.biases@[k], layers[k]) by {
            assert(r.weights@[k]@.len() == layers[k].outputs);
        }
        assert forall|k: int| 0 <= k < layers.len() implies drawn_for(draw, layers[k], #[trigger] r.weights@[k], r.biases@[k]) by {
            assert(r.weights@[k]@.len() == layers[k].outputs);
        }
        r
    }
}

impl<T> NeuralNetwork<T> {
    /// Whether the topology is consistent and every parameter tensor has the
    /// dimensions it gives.
    pub fn is_well_formed(&self) -> (r: bool)
        ensures
            r == self.wf(),
    {
        if !self.topology.is_well_formed() {
            return false;
        }
        let nl = self.topology.layers.len();
        if self.weights.len() != nl || self.biases.len() != nl {
            return false;
        }
        let mut l: usize = 0;
        while l < nl
            invariant
                nl == self.topology.layers@.len(),
                nl == self.weights@.len(),
                nl == self.biases@.len(),
                l <= nl,
                forall|k: int|
                    0 <= k < l ==> layer_sized(self.weights@[k], self.biases@[k], #[trigger] self.topology.layers@[k]),
            decreases nl - l,
        {
            let layer = self.topology.layers[l];
            let weights = &self.weights[l];
            if weights.len() != layer.outputs || self.biases[l].len() != layer.outputs {
                return false;
            }
            let mut n: usize = 0;
            while n < weights.len()
                invariant
                    l < nl,
                    nl == self.weights@.len(),
                    nl == self.topology.layers@.len(),
                    layer == self.topology.layers@[l as int],
                    weights == self.weights@[l as int],
                    n <= weights@.len(),
                    forall|k: int| 0 <= k < n ==> (#[trigger] weights@[k])@.len() == layer.inputs,
                decreases weights@.len() - n,
            {
                if weights[n].len() != layer.inputs {
                    assert(weights@[n as int]@.len() != layer.inputs);
                    return false;
                }
                n += 1;
            }
            l += 1;
        }
        true
    }
}

impl<T: Copy> NeuralNetwork<T> {
    /// Runs `input` through every layer in order: each output neuron of a layer
    /// yields `neuron(values, its weights, its bias, the layer's activation)`,
    /// where `values` is what the previous layer produced (or `input`). Fails
    /// with `DimensionMismatch` when `input` is not as wide as the network reads.
    pub fn eval<F: Fn(&Vec<T>, &Vec<T>, &T, Activation) -> T>(
        &self,
        input: &Vec<T>,
        neuron: F,
    ) -> (r: Result<Vec<T>, DimensionMismatch>)
        requires
            self.wf(),
            forall|x: &Vec<T>, w: &Vec<T>, b: &T, a: Activation| neuron.requires((x, w, b, a)),
        ensures
            match r {
                Ok(out) => {
                    &&& input@.len() == self.topology.inputs
                    &&& out@.len() == self.topology.output_width()
                    &&& self.evaluates(input@, neuron, out@)
                },
                Err(e) => {
                    &&& input@.len() != self.topology.inputs
                    &&& e == DimensionMismatch { expected: self.topology.inputs, actual: input.len() }
                },
            },
    {
        if input.len() != self.topology.inputs {
            return Err(DimensionMismatch { expected: self.topology.inputs, actual: input.len() });
        }
        let mut outputs: Vec<T> = Vec::new();
        let mut i: usize = 0;
        while i < input.len()
            invariant
                i <= input@.len(),
                outputs@ == input@.subrange(0, i as int),
            decreases input@.len() - i,
        {
            outputs.push(input[i]);
            i += 1;
        }
        assert(outputs@ =~= input@);
        let ghost layers = self.topology.layers@;
        let ghost mut trace: Seq<Vec<T>> = seq![outputs];
        let nl = self.topology.layers.len();
        let mut l: usize = 0;
        while l < nl
            invariant
                self.wf(),
                forall|x: &Vec<T>, w: &Vec<T>, b: &T, a: Activation| neuron.requires((x, w, b, a)),
                layers == self.topology.layers@,
                nl == layers.len(),
                l <= nl,
                trace.len() == l + 1,
                trace[0]@ == input@,
                trace.last() == outputs,
                outputs@.len() == width_after(self.topology.inputs, layers.subrange(0, l as int)),
                forall|k: int| 0 <= k < l ==> #[trigger] self.layer_step(k, trace[k], trace[k + 1], neuron),
            decreases nl - l,
        {
            let weights = &self.weights[l];
            let biases = &self.biases[l];
            let activation = self.topology.layers[l].activation;
            assert(layer_sized(self.weights@[l as int], self.biases@[l as int], layers[l as int]));
            let mut next: Vec<T> = Vec::new();
            let mut n: usize = 0;
            while n < weights.len()
                invariant
                    forall|x: &Vec<T>, w: &Vec<T>, b: &T, a: Activation| neuron.requires((x, w, b, a)),
                    weights == self.weights@[l as int],
                    biases == self.biases@[l as int],
                    activation == layers[l as int].activation,
                    weights@.len() == biases@.len(),
                    n <= weights@.len(),
                    next@.len() == n,
                    forall|k: int|
                        0 <= k < n ==> neuron.ensures(
                            (&outputs, &weights@[k], &biases@[k], activation),
                            #[trigger] next@[k],
                        ),
                decreases weights@.len() - n,
            {
                let v = neuron(&outputs, &weights[n], &biases[n], activation);
                next.push(v);
                n += 1;
            }
            assert(self.layer_step(l as int, outputs, next, neuron));
            proof {
                trace = trace.push(next);
                assert(layers.subrange(0, l + 1).last() == layers[l as int]);
            }
            outputs = next;
            l += 1;
        }
        assert(layers.subrange(0, nl as int) =~= layers);
        assert(self.is_trace(input@, trace, neuron));
        Ok(outputs)
    }
}

/// Evaluation is deterministic: where `neuron` depends only on the values it
/// is handed, two evaluations of one network on one input give identical
/// outputs.
pub proof fn lemma_eval_deterministic<T, F: Fn(&Vec<T>, &Vec<T>, &T, Activation) -> T>(
    net: NeuralNetwork<T>,
    input: Seq<T>,
    neuron: F,
    out1: Seq<T>,
    out2: Seq<T>,
)
    requires
        reads_values(neuron),
        net.evaluates(input, neuron, out1),
        net.evaluates(input, neuron, out2),
    ensures
        out1 == out2,
{
    let t1 = choose|t: Seq<Vec<T>>| net.is_trace(input, t, neuron) && t.last()@ == out1;
    let t2 = choose|t: Seq<Vec<T>>| net.is_trace(input, t, neuron) && t.last()@ == out2;
    lemma_traces_agree(net, input, neuron, t1, t2, net.topology.layers@.len() as int);
}

/// Two traces of one input agree, up to layer `l`, on the values they hold.
proof fn lemma_traces_agree<T, F: Fn(&Vec<T>, &Vec<T>, &T, Activation) -> T>(
    net: NeuralNetwork<T>,
    input: Seq<T>,
    neuron: F,
    t1: Seq<Vec<T>>,
    t2: Seq<Vec<T>>,
    l: int,
)
    requires
        reads_values(neuron),
        0 <= l <= net.topology.layers@.len(),
        net.is_trace(input, t1, neuron),
        net.is_trace(input, t2, neuron),
    ensures
        t1[l]@ == t2[l]@,
    decreases l,
{
    if l > 0 {
        let k = l - 1;
        lemma_traces_agree(net, input, neuron, t1, t2, k);
        assert(net.layer_step(k, t1[k], t1[k + 1], neuron));
        assert(net.layer_step(k, t2[k], t2[k + 1], neuron));
        assert forall|n: int| 0 <= n < t1[l]@.len() implies t1[l]@[n] == t2[l]@[n] by {
            let args1 = (&t1[k], &net.weights@[k]@[n], &net.biases@[k]@[n], net.topology.layers@[k].activation);
            let args2 = (&t2[k], &net.weights@[k]@[n], &net.biases@[k]@[n], net.topology.layers@[k].activation);
            assert(neuron.ensures(args1, t1[l]@[n]));
            assert(neuron.ensures(args2, t2[l]@[n]));
        }
        assert(t1[l]@ =~= t2[l]@);
    }
}

} // verus!
