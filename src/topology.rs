use vstd::prelude::*;

use crate::activation::Activation;

verus! {

/// One layer of the shape: how many values it reads, how many it produces,
/// and the nonlinearity applied to each produced value.
#[derive(Debug, Clone, Copy, PartialEq, Eq, Structural)]
pub struct Layer {
    pub inputs: usize,
    pub outputs: usize,
    pub activation: Activation,
}

/// The ordered shape of a whole network, built with `input` and then `layer`.
#[derive(Debug, Clone, PartialEq, Eq)]
pub struct Topology {
    pub inputs: usize,
    pub layers: Vec<Layer>,
}

/// The width of the values that leave a stack of layers fed with `inputs` values:
/// the output count of the last layer, or `inputs` itself when there is none.
pub open spec fn width_after(inputs: usize, layers: Seq<Layer>) -> usize {
    if layers.len() == 0 {
        inputs
    } else {
        layers.last().outputs
    }
}

/// The layers after one more has been added behind `layers`: it reads what the
/// stack produced and writes `size` values.
pub open spec fn extended(
    inputs: usize,
    layers: Seq<Layer>,
    size: usize,
    activation: Activation,
) -> Seq<Layer> {
    layers.push(Layer { inputs: width_after(inputs, layers), outputs: size, activation })
}

/// Each layer reads exactly what the one before produced; the first reads the
/// network's input.
pub open spec fn chained(inputs: usize, layers: Seq<Layer>) -> bool {
    &&& layers.len() > 0 ==> layers[0].inputs == inputs
    &&& forall|i: int| 0 < i < layers.len() ==> #[trigger] layers[i].inputs == layers[i - 1].outputs
}

impl Topology {
    /// The dimensions of consecutive layers agree.
    pub open spec fn wf(&self) -> bool {
        chained(self.inputs, self.layers@)
    }

    /// The width of the values that leave the last layer.
    pub open spec fn output_width(&self) -> usize {
        width_after(self.inputs, self.layers@)
    }

    /// Starts a shape that reads `size` values and has no layer yet.
    pub fn input(size: usize) -> (r: Topology)
        ensures
            r.inputs == size,
            r.layers@ == Seq::<Layer>::empty(),
            r.wf(),
    {
        Topology { inputs: size, layers: Vec::new() }
    }

    /// The width of the values that leave the last layer.
    pub fn last_width(&self) -> (r: usize)
        ensures
            r == self.output_width(),
    {
        let n = self.layers.len();
        if n == 0 {
            self.inputs
        } else {
            self.layers[n - 1].outputs
        }
    }

    /// Whether the dimensions of consecutive layers agree.
    pub fn is_well_formed(&self) -> (r: bool)
        ensures
            r == self.wf(),
    {
        let n = self.layers.len();
        if n > 0 && self.layers[0].inputs != self.inputs {
            return false;
        }
        let mut i: usize = 1;
        while i < n
            invariant
                n == self.layers@.len(),
                1 <= i,
                n > 0 ==> self.layers@[0].inputs == self.inputs,
                forall|k: int| 0 < k < i && k < n ==> #[trigger] self.layers@[k].inputs == self.layers@[k - 1].outputs,
            decreases n - i,
        {
            if self.layers[i].inputs != self.layers[i - 1].outputs {
                return false;
            }
            i += 1;
        }
        true
    }

    /// Adds a layer of `size` outputs that reads what the current last layer
    /// produces.
    pub fn layer(self, size: usize, activation: Activation) -> (r: Topology)
        ensures
            r.inputs == self.inputs,
            r.layers@ == extended(self.inputs, self.layers@, size, activation),
            r.output_width() == size,
            self.wf() ==> r.wf(),
    {
        let mut t = self;
        let last = t.last_width();
        t.layers.push(Layer { inputs: last, outputs: size, activation });
        t
    }
}

/// Two layers added to a fresh shape of width `n0` are described exactly by the
/// sizes and activations given: the first reads `n0` values and writes `n1`,
/// the second reads those `n1` values and writes `n2`.
pub proof fn lemma_two_layers(n0: usize, n1: usize, a1: Activation, n2: usize, a2: Activation)
    ensures
        extended(n0, extended(n0, Seq::<Layer>::empty(), n1, a1), n2, a2) == seq![
            Layer { inputs: n0, outputs: n1, activation: a1 },
            Layer { inputs: n1, outputs: n2, activation: a2 },
        ],
{
    let l1 = extended(n0, Seq::<Layer>::empty(), n1, a1);
    assert(l1 =~= seq![Layer { inputs: n0, outputs: n1, activation: a1 }]);
    assert(extended(n0, l1, n2, a2) =~= seq![
        Layer { inputs: n0, outputs: n1, activation: a1 },
        Layer { inputs: n1, outputs: n2, activation: a2 },
    ]);
}

} // verus!
