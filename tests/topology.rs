use neuralnet::{Activation, Layer, Topology};
use Activation::Tanh;

#[test]
fn topology() {
    let topology = Topology::input(2).layer(2, Tanh).layer(1, Tanh);

    let mut iter = topology.layers.iter().map(|&item| item);

    assert_eq!(
        iter.next(),
        Some(Layer {
            inputs: 2,
            outputs: 2,
            activation: Tanh
        })
    );
    assert_eq!(
        iter.next(),
        Some(Layer {
            inputs: 2,
            outputs: 1,
            activation: Tanh
        })
    );
}

#[test]
fn input_starts_empty() {
    let topology = Topology::input(7);
    assert_eq!(topology.inputs, 7);
    assert!(topology.layers.is_empty());
    assert_eq!(topology.last_width(), 7);
    assert!(topology.is_well_formed());
}

#[test]
fn layers_chain_their_widths() {
    let topology = Topology::input(4)
        .layer(3, Activation::ReLU)
        .layer(0, Activation::LeakyReLU)
        .layer(5, Activation::Tanh);
    assert_eq!(topology.inputs, 4);
    assert_eq!(
        topology.layers,
        vec![
            Layer { inputs: 4, outputs: 3, activation: Activation::ReLU },
            Layer { inputs: 3, outputs: 0, activation: Activation::LeakyReLU },
            Layer { inputs: 0, outputs: 5, activation: Activation::Tanh },
        ]
    );
    assert_eq!(topology.last_width(), 5);
    assert!(topology.is_well_formed());
}

#[test]
fn hand_built_mismatch_is_not_well_formed() {
    let first_wrong = Topology {
        inputs: 2,
        layers: vec![Layer { inputs: 3, outputs: 1, activation: Activation::ReLU }],
    };
    assert!(!first_wrong.is_well_formed());
    let later_wrong = Topology {
        inputs: 2,
        layers: vec![
            Layer { inputs: 2, outputs: 4, activation: Activation::ReLU },
            Layer { inputs: 3, outputs: 1, activation: Activation::ReLU },
        ],
    };
    assert!(!later_wrong.is_well_formed());
}
