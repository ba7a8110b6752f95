use mlp::activation::{ActivationFnInfo, Identity, Sigmoid};
use mlp::codec::{decode, encode, DecodeError};
use mlp::network::{Layer, LayerProperties, Network};
use mlp::scalar::WrapOps;

fn single_layer(weights: Vec<Vec<u64>>, biases: Vec<u64>, act: ActivationFnInfo) -> Network {
    Network::new(vec![Layer::new(weights, biases, act)])
}

#[test]
fn identity_forward_is_input() {
    assert_eq!(Identity.forward(7), 7);
    assert_eq!(Identity.forward(0), 0);
    assert_eq!(Identity.forward(u64::MAX), u64::MAX);
    assert_eq!(Identity.backward(13), 13);
}

#[test]
fn identity_derivative_is_one() {
    assert_eq!(Identity.derivative::<WrapOps>(0), 1);
    assert_eq!(Identity.derivative::<WrapOps>(999), 1);
}

#[test]
fn sigmoid_formula_in_wrapping_arithmetic() {
    // sigmoid(0) = 1 / (1 + exp(-0)); in the wrapping system exp(0) = 1,
    // so the result is 1 / 2 = 0.
    assert_eq!(Sigmoid.forward::<WrapOps>(0), 0);
    // derivative(x) = x * (1 - x): at x = 3 this is 3 * (1 - 3) wrapped.
    let expected = 3u64.wrapping_mul(1u64.wrapping_sub(3));
    assert_eq!(Sigmoid.derivative::<WrapOps>(3), expected);
}

#[test]
fn debug_print_is_numerically_transparent() {
    let plain = ActivationFnInfo::Sigmoid;
    let traced = ActivationFnInfo::DebugPrint {
        output: String::from("trace"),
        activation: Box::new(ActivationFnInfo::Sigmoid),
    };
    for x in [0u64, 1, 17, u64::MAX] {
        assert_eq!(plain.forward::<WrapOps>(x), traced.forward::<WrapOps>(x));
        assert_eq!(plain.backward::<WrapOps>(x), traced.backward::<WrapOps>(x));
        assert_eq!(plain.derivative::<WrapOps>(x), traced.derivative::<WrapOps>(x));
    }
}

#[test]
fn forward_zero_network_repeats_activation_of_zero() {
    // A network with all-zero weights and biases puts activation(0) at every
    // neuron of every layer.
    let l0 = Layer::with_dimensions::<WrapOps>(3, 2, ActivationFnInfo::Sigmoid);
    let l1 = Layer::with_dimensions::<WrapOps>(2, 3, ActivationFnInfo::Sigmoid);
    let n = Network::new(vec![l0, l1]);
    assert!(n.check_wf());
    let sig0 = Sigmoid.forward::<WrapOps>(0);
    let out = n.forward::<WrapOps>(&vec![5, 9]);
    assert_eq!(out, vec![sig0, sig0]);
}

#[test]
fn forward_affine_sum_order() {
    // One identity neuron: bias + w0*x0 + w1*x1 in wrapping arithmetic.
    let n = single_layer(vec![vec![3, 4]], vec![10], ActivationFnInfo::Identity);
    assert!(n.check_wf());
    let out = n.forward::<WrapOps>(&vec![2, 5]);
    assert_eq!(out, vec![10u64.wrapping_add(6).wrapping_add(20)]);
}

#[test]
fn backpropagate_single_neuron_exact() {
    // Weight 3, bias 5, identity activation, input [2], target [1], rate 2.
    // output = 5 + 3*2 = 11; error gradient e = 11 - 1 = 10;
    // nig = e * 1 = 10; weight delta = 2 * (10 * 2) = 40; bias delta = 2*10.
    let mut n = single_layer(vec![vec![3]], vec![5], ActivationFnInfo::Identity);
    assert!(n.check_wf());
    let result = n.backpropagate::<WrapOps>(&vec![2], &vec![1], 2);
    let layer = n.layer(0);
    assert_eq!(layer.weight(0, 0), 3u64.wrapping_sub(40));
    assert_eq!(layer.bias(0), 5u64.wrapping_sub(20));
    // total error = (-e)*(-e)/2 = 100/2 = 50 (the square wraps back to 100).
    assert_eq!(result.total_error, 50);
    assert_eq!(result.layer_gradients, vec![vec![10]]);
}

#[test]
fn backpropagate_updates_after_all_gradients() {
    // Two identity layers; the upstream gradient must flow through the
    // original weights of the later layer, not the updated ones.
    // Layer 0: w=2, b=0; layer 1: w=3, b=0; input [1], target [0], rate 1.
    // Forward: h = 2, y = 6. Output gradient e = 6.
    // Layer 1: nig = 6; dw = 6*h = 12 -> w1' = 3-12; upstream g = w1*nig = 18.
    // Layer 0: nig = 18; dw = 18*1 = 18 -> w0' = 2-18.
    let l0 = Layer::new(vec![vec![2]], vec![0], ActivationFnInfo::Identity);
    let l1 = Layer::new(vec![vec![3]], vec![0], ActivationFnInfo::Identity);
    let mut n = Network::new(vec![l0, l1]);
    assert!(n.check_wf());
    let result = n.backpropagate::<WrapOps>(&vec![1], &vec![0], 1);
    assert_eq!(n.layer(1).weight(0, 0), 3u64.wrapping_sub(12));
    assert_eq!(n.layer(0).weight(0, 0), 2u64.wrapping_sub(18));
    assert_eq!(result.layer_gradients, vec![vec![18], vec![6]]);
}

#[test]
fn forward_with_intermediate_outputs_prepends_input() {
    let n = single_layer(vec![vec![3]], vec![10], ActivationFnInfo::Identity);
    let outs = n.forward_with_intermediate_outputs::<WrapOps>(&vec![4]);
    assert_eq!(outs.len(), 2);
    assert_eq!(outs[0], vec![4]);
    assert_eq!(outs[1], vec![22]);
}

#[test]
fn random_network_has_requested_shape() {
    let hidden = vec![
        LayerProperties::new(3, ActivationFnInfo::Sigmoid),
        LayerProperties::new(2, ActivationFnInfo::Sigmoid),
    ];
    let n = Network::random::<WrapOps>(2, 1, hidden, ActivationFnInfo::Sigmoid);
    assert!(n.check_wf());
    assert_eq!(n.num_layers(), 3);
    assert_eq!(n.layer(0).len(), 3);
    assert_eq!(n.layer(0).weight_row(0).len(), 2);
    assert_eq!(n.layer(1).len(), 2);
    assert_eq!(n.layer(2).len(), 1);
    assert_eq!(n.layer(2).weight_row(0).len(), 2);
}

#[test]
fn clone_is_independent_of_the_original() {
    let mut original = single_layer(vec![vec![3, 4]], vec![10], ActivationFnInfo::Identity);
    let copy = original.clone();
    let before = copy.forward::<WrapOps>(&vec![2, 5]);
    // Training the original must not touch the clone's storage.
    original.backpropagate::<WrapOps>(&vec![2, 5], &vec![0], 1);
    assert_ne!(original.layer(0).weight(0, 0), 3);
    assert_eq!(copy.layer(0).weight(0, 0), 3);
    assert_eq!(copy.layer(0).bias(0), 10);
    assert_eq!(copy.forward::<WrapOps>(&vec![2, 5]), before);
}

#[test]
fn codec_round_trips_a_network() {
    let traced = ActivationFnInfo::DebugPrint {
        output: String::from("hidden trace"),
        activation: Box::new(ActivationFnInfo::Sigmoid),
    };
    let l0 = Layer::new(vec![vec![1, 2], vec![3, 4], vec![5, 6]], vec![7, 8, 9], traced);
    let l1 = Layer::new(vec![vec![10, 11, 12]], vec![13], ActivationFnInfo::Identity);
    let n = Network::new(vec![l0, l1]);
    assert!(n.check_wf());
    let bytes = encode(&n);
    let back = decode(&bytes).expect("the encoding of a well-formed network must decode");
    assert_eq!(back.num_layers(), 2);
    for i in 0..2 {
        let a = n.layer(i);
        let b = back.layer(i);
        assert_eq!(a.len(), b.len());
        assert_eq!(a.bias_vector(), b.bias_vector());
        for j in 0..a.weight_row_count() {
            assert_eq!(a.weight_row(j), b.weight_row(j));
        }
    }
    match back.layer(0).activation() {
        ActivationFnInfo::DebugPrint { output, activation } => {
            assert_eq!(output.as_str(), "hidden trace");
            assert!(matches!(**activation, ActivationFnInfo::Sigmoid));
        },
        _ => panic!("wrong activation tag"),
    }
    assert!(matches!(back.layer(1).activation(), ActivationFnInfo::Identity));
    // The byte form is canonical: encoding the decoded network gives the
    // same bytes again.
    assert_eq!(encode(&back), bytes);
}

#[test]
fn decode_rejects_truncated_stream() {
    let n = single_layer(vec![vec![1]], vec![2], ActivationFnInfo::Identity);
    let mut bytes = encode(&n);
    bytes.pop();
    assert!(matches!(decode(&bytes), Err(DecodeError::Truncated)));
    assert!(matches!(decode(&Vec::new()), Err(DecodeError::Truncated)));
}

#[test]
fn decode_rejects_trailing_bytes() {
    let n = single_layer(vec![vec![1]], vec![2], ActivationFnInfo::Identity);
    let mut bytes = encode(&n);
    bytes.push(0);
    assert!(matches!(decode(&bytes), Err(DecodeError::TrailingBytes)));
}

#[test]
fn decode_rejects_unknown_activation_tag() {
    let n = single_layer(vec![vec![1]], vec![2], ActivationFnInfo::Identity);
    let mut bytes = encode(&n);
    // The activation tag is the last four bytes of a single-layer encoding.
    let at = bytes.len() - 4;
    bytes[at] = 9;
    assert!(matches!(decode(&bytes), Err(DecodeError::UnknownTag)));
}

#[test]
fn decode_rejects_empty_network() {
    // A count of zero layers, nothing after it.
    let bytes = vec![0u8; 8];
    assert!(matches!(decode(&bytes), Err(DecodeError::BadShape)));
}

#[test]
fn decode_rejects_mismatched_shapes() {
    // One layer, one weight row of width one, but two biases.
    let l = Layer::new(vec![vec![1]], vec![2, 3], ActivationFnInfo::Identity);
    let n = Network::new(vec![l]);
    let bytes = encode(&n);
    assert!(matches!(decode(&bytes), Err(DecodeError::BadShape)));
}

#[test]
fn decode_rejects_bad_label_char() {
    let traced = ActivationFnInfo::DebugPrint {
        output: String::from("a"),
        activation: Box::new(ActivationFnInfo::Identity),
    };
    let n = single_layer(vec![vec![1]], vec![2], traced);
    let mut bytes = encode(&n);
    // The label character sits before the nested four-byte tag; force it to
    // a surrogate code point, which is no character.
    let at = bytes.len() - 4 - 4;
    bytes[at] = 0x00;
    bytes[at + 1] = 0xD8;
    bytes[at + 2] = 0x00;
    bytes[at + 3] = 0x00;
    assert!(matches!(decode(&bytes), Err(DecodeError::BadChar)));
}
