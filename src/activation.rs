use vstd::prelude::*;

verus! {

/// The nonlinearities a layer can apply to each of its linear outputs.
#[derive(Debug, Clone, Copy, PartialEq, Eq, Structural)]
pub enum Activation {
    ReLU,
    LeakyReLU,
    Tanh,
}

} // verus!
