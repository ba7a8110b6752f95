use mlp::activation::{ActivationFnInfo, Identity, Sigmoid};
use mlp::network::{Layer, LayerProperties, Network};
use mlp::scalar::ScalarOps;
use std::sync::atomic::{AtomicU64, Ordering};

/// Scalars as IEEE-754 doubles carried by bit pattern.
struct F64Ops;

static SEED: AtomicU64 = AtomicU64::new(0x2545F4914F6CDD1D);

fn f(x: u64) -> f64 {
    f64::from_bits(x)
}

fn b(x: f64) -> u64 {
    x.to_bits()
}

impl ScalarOps for F64Ops {
    fn sadd(a: u64, x: u64) -> u64 {
        Self::add(a, x)
    }

    fn ssub(a: u64, x: u64) -> u64 {
        Self::sub(a, x)
    }

    fn smul(a: u64, x: u64) -> u64 {
        Self::mul(a, x)
    }

    fn sdiv(a: u64, x: u64) -> u64 {
        Self::div(a, x)
    }

    fn sneg(a: u64) -> u64 {
        Self::neg(a)
    }

    fn sexp(a: u64) -> u64 {
        Self::exp(a)
    }

    fn sln(a: u64) -> u64 {
        Self::ln(a)
    }

    fn szero() -> u64 {
        Self::zero()
    }

    fn sone() -> u64 {
        Self::one()
    }

    fn stwo() -> u64 {
        Self::two()
    }

    fn sfrom_usize(n: usize) -> u64 {
        Self::from_usize(n)
    }

    fn add(a: u64, x: u64) -> u64 {
        b(f(a) + f(x))
    }

    fn sub(a: u64, x: u64) -> u64 {
        b(f(a) - f(x))
    }

    fn mul(a: u64, x: u64) -> u64 {
        b(f(a) * f(x))
    }

    fn div(a: u64, x: u64) -> u64 {
        b(f(a) / f(x))
    }

    fn neg(a: u64) -> u64 {
        b(-f(a))
    }

    fn exp(a: u64) -> u64 {
        b(f(a).exp())
    }

    fn ln(a: u64) -> u64 {
        b(f(a).ln())
    }

    fn zero() -> u64 {
        b(0.0)
    }

    fn one() -> u64 {
        b(1.0)
    }

    fn two() -> u64 {
        b(2.0)
    }

    fn from_usize(n: usize) -> u64 {
        b(n as f64)
    }

    fn random_unit() -> u64 {
        let mut s = SEED.fetch_add(0x9E3779B97F4A7C15, Ordering::Relaxed);
        s ^= s >> 30;
        s = s.wrapping_mul(0xBF58476D1CE4E5B9);
        s ^= s >> 27;
        s = s.wrapping_mul(0x94D049BB133111EB);
        s ^= s >> 31;
        b((s >> 11) as f64 / (1u64 << 53) as f64)
    }

    fn log_call(label: &str, op: &str, x: u64, r: u64) {
        println!("{}; {}({}) = {}", label, op, f(x), f(r));
    }
}

#[test]
fn identity_is_exact_on_doubles() {
    assert_eq!(f(Identity.forward(b(3.75))), 3.75);
    assert_eq!(f(Identity.forward(b(-0.125))), -0.125);
    assert_eq!(f(Identity.derivative::<F64Ops>(b(42.0))), 1.0);
    assert_eq!(f(Identity.derivative::<F64Ops>(b(-7.5))), 1.0);
}

#[test]
fn sigmoid_stays_in_the_open_unit_interval() {
    assert_eq!(f(Sigmoid.forward::<F64Ops>(b(0.0))), 0.5);
    for x in [-20.0, -3.0, -1.0, -0.1, 0.1, 1.0, 3.0, 20.0] {
        let y = f(Sigmoid.forward::<F64Ops>(b(x)));
        assert!(0.0 < y && y < 1.0, "sigmoid({}) = {}", x, y);
    }
}

#[test]
fn sigmoid_derivative_matches_output_formula() {
    for x in [-2.0, -0.5, 0.0, 0.5, 2.0] {
        let y = f(Sigmoid.forward::<F64Ops>(b(x)));
        let d = f(Sigmoid.derivative::<F64Ops>(b(y)));
        assert_eq!(d, y * (1.0 - y));
    }
}

#[test]
fn sigmoid_backward_inverts_forward() {
    for x in [-2.0, -0.5, 0.5, 2.0] {
        let y = f(Sigmoid.forward::<F64Ops>(b(x)));
        let back = f(Sigmoid.backward::<F64Ops>(b(y)));
        assert!((back - x).abs() < 1e-9, "inverse of sigmoid({}) came back as {}", x, back);
    }
}

#[test]
fn zero_network_outputs_one_half_with_sigmoid() {
    let l0 = Layer::with_dimensions::<F64Ops>(3, 2, ActivationFnInfo::Sigmoid);
    let l1 = Layer::with_dimensions::<F64Ops>(1, 3, ActivationFnInfo::Sigmoid);
    let n = Network::new(vec![l0, l1]);
    assert!(n.check_wf());
    let out = n.forward::<F64Ops>(&vec![b(0.25), b(-3.0)]);
    assert_eq!(out.len(), 1);
    assert_eq!(f(out[0]), 0.5);
}

#[test]
fn backpropagation_single_neuron_literal_case() {
    // Weight 0.5, bias 0.0, identity activation, input [1.0], target [0.0],
    // learning rate 0.5: the pre-update output is 0.5, the error gradient
    // 0.5, the weight delta 0.25, the new weight 0.25, the new bias -0.25.
    let layer = Layer::new(vec![vec![b(0.5)]], vec![b(0.0)], ActivationFnInfo::Identity);
    let mut n = Network::new(vec![layer]);
    assert!(n.check_wf());
    let before = n.forward::<F64Ops>(&vec![b(1.0)]);
    assert_eq!(f(before[0]), 0.5);
    let result = n.backpropagate::<F64Ops>(&vec![b(1.0)], &vec![b(0.0)], b(0.5));
    assert_eq!(f(n.layer(0).weight(0, 0)), 0.25);
    assert_eq!(f(n.layer(0).bias(0)), -0.25);
    assert_eq!(f(result.total_error), 0.125);
    assert_eq!(result.layer_gradients.len(), 1);
    assert_eq!(f(result.layer_gradients[0][0]), 0.5);
}

#[test]
fn training_converges_on_xor() {
    let hidden = vec![
        LayerProperties::new(3, ActivationFnInfo::Sigmoid),
        LayerProperties::new(2, ActivationFnInfo::Sigmoid),
    ];
    let mut n = Network::random::<F64Ops>(2, 1, hidden, ActivationFnInfo::Sigmoid);
    assert!(n.check_wf());
    let cases: [([f64; 2], f64); 4] = [
        ([0.0, 0.0], 0.0),
        ([0.0, 1.0], 1.0),
        ([1.0, 0.0], 1.0),
        ([1.0, 1.0], 0.0),
    ];
    let rate = b(0.5);
    let mut last_pass_error = f64::INFINITY;
    for _ in 0..20000 {
        last_pass_error = 0.0;
        for (input, target) in cases.iter() {
            let r = n.backpropagate::<F64Ops>(
                &vec![b(input[0]), b(input[1])],
                &vec![b(*target)],
                rate,
            );
            last_pass_error += f(r.total_error);
        }
    }
    // Convergence, not exact values: the summed error of the last sweep must
    // be small, and every example must land on the right side.
    assert!(last_pass_error < 0.2, "error after training: {}", last_pass_error);
    for (input, target) in cases.iter() {
        let out = f(n.forward::<F64Ops>(&vec![b(input[0]), b(input[1])])[0]);
        assert!((out - target).abs() < 0.3, "{:?} -> {}", input, out);
    }
}
