mod activation;
mod network;
mod topology;

pub use activation::Activation;
pub use network::{
    drawn_for, lemma_eval_deterministic, layer_sized, reads_values, sized_by, DimensionMismatch,
    NeuralNetwork,
};
pub use topology::{chained, extended, lemma_two_layers, width_after, Layer, Topology};
