use crate::scalar::ScalarOps;
use vstd::prelude::*;

verus! {

/// A per-neuron activation function, closed over its three variants.
///
/// The value is its own serializable description: `Identity` and `Sigmoid`
/// carry no parameters, and `DebugPrint` wraps another activation together
/// with a label, logging each call without altering the numeric result.
pub enum ActivationFnInfo {
    Identity,
    Sigmoid,
    DebugPrint { output: String, activation: Box<ActivationFnInfo> },
}

/// The sigmoid of `x`: one over one plus the exponential of the negation.
pub open spec fn spec_sigmoid<O: ScalarOps>(x: u64) -> u64 {
    O::sdiv(O::sone(), O::sadd(O::sone(), O::sexp(O::sneg(x))))
}

/// The mathematical inverse of the sigmoid: the negated logarithm of
/// `(1 - x) / x`. Outside the open unit interval the scalar system's own
/// behaviour decides the result; nothing here restricts it.
pub open spec fn spec_sigmoid_inverse<O: ScalarOps>(x: u64) -> u64 {
    O::sneg(O::sln(O::sdiv(O::ssub(O::sone(), x), x)))
}

/// The derivative of the sigmoid expressed in terms of its already-computed
/// output `x`: the product `x * (1 - x)`.
pub open spec fn spec_sigmoid_derivative<O: ScalarOps>(x: u64) -> u64 {
    O::smul(x, O::ssub(O::sone(), x))
}

/// What `a.forward(x)` returns: the activation applied to the
/// pre-activation scalar `x`. A `DebugPrint` wrapper is numerically
/// transparent.
pub open spec fn act_forward<O: ScalarOps>(a: ActivationFnInfo, x: u64) -> u64
    decreases a,
{
    match a {
        ActivationFnInfo::Identity => x,
        ActivationFnInfo::Sigmoid => spec_sigmoid::<O>(x),
        ActivationFnInfo::DebugPrint { output: _, activation } => act_forward::<O>(*activation, x),
    }
}

/// What `a.backward(x)` returns: the mathematical inverse of `forward`.
pub open spec fn act_backward<O: ScalarOps>(a: ActivationFnInfo, x: u64) -> u64
    decreases a,
{
    match a {
        ActivationFnInfo::Identity => x,
        ActivationFnInfo::Sigmoid => spec_sigmoid_inverse::<O>(x),
        ActivationFnInfo::DebugPrint { output: _, activation } => act_backward::<O>(*activation, x),
    }
}

/// What `a.derivative(x)` returns: the derivative of `forward` expressed in
/// terms of the already-activated output `x`, not the raw net input.
pub open spec fn act_derivative<O: ScalarOps>(a: ActivationFnInfo, x: u64) -> u64
    decreases a,
{
    match a {
        ActivationFnInfo::Identity => O::sone(),
        ActivationFnInfo::Sigmoid => spec_sigmoid_derivative::<O>(x),
        ActivationFnInfo::DebugPrint { output: _, activation } => act_derivative::<O>(*activation, x),
    }
}

/// The identity activation: it passes the pre-activation value through
/// unchanged, and its derivative is one everywhere.
pub struct Identity;

impl Identity {
    /// The identity applied to `x`: `x` itself, for every `x`.
    pub fn forward(&self, x: u64) -> (r: u64)
        ensures
            r == x,
    {
        x
    }

    /// The inverse of the identity: again `x` itself.
    pub fn backward(&self, x: u64) -> (r: u64)
        ensures
            r == x,
    {
        x
    }

    /// The derivative of the identity: one, for every input.
    pub fn derivative<O: ScalarOps>(&self, _x: u64) -> (r: u64)
        ensures
            r == O::sone(),
    {
        O::one()
    }
}

/// The logistic sigmoid activation.
pub struct Sigmoid;

impl Sigmoid {
    /// The sigmoid of `x`, computed as one over one plus `exp(-x)`.
    pub fn forward<O: ScalarOps>(&self, x: u64) -> (r: u64)
        ensures
            r == spec_sigmoid::<O>(x),
    {
        let e = O::exp(O::neg(x));
        O::div(O::one(), O::add(O::one(), e))
    }

    /// The inverse of the sigmoid, `-ln((1 - x) / x)`. It is meaningful only
    /// for outputs strictly inside the unit interval; elsewhere the scalar
    /// system's own domain behaviour decides the result, undocumented but
    /// not masked.
    pub fn backward<O: ScalarOps>(&self, x: u64) -> (r: u64)
        ensures
            r == spec_sigmoid_inverse::<O>(x),
    {
        O::neg(O::ln(O::div(O::sub(O::one(), x), x)))
    }

    /// The derivative of the sigmoid in terms of its output: `x * (1 - x)`.
    /// The caller passes the activated value, not the net input.
    pub fn derivative<O: ScalarOps>(&self, x: u64) -> (r: u64)
        ensures
            r == spec_sigmoid_derivative::<O>(x),
    {
        O::mul(x, O::sub(O::one(), x))
    }
}

impl ActivationFnInfo {
    /// The activation applied to the pre-activation scalar `x`. A
    /// `DebugPrint` wrapper computes the wrapped result first, then logs it
    /// exactly once.
    pub fn forward<O: ScalarOps>(&self, x: u64) -> (r: u64)
        ensures
            r == act_forward::<O>(*self, x),
        decreases *self,
    {
        match self {
            ActivationFnInfo::Identity => Identity.forward(x),
            ActivationFnInfo::Sigmoid => Sigmoid.forward::<O>(x),
            ActivationFnInfo::DebugPrint { output, activation } => {
                let r = activation.forward::<O>(x);
                O::log_call(output.as_str(), "forward", x, r);
                r
            },
        }
    }

    /// The mathematical inverse of `forward` at `x`.
    pub fn backward<O: ScalarOps>(&self, x: u64) -> (r: u64)
        ensures
            r == act_backward::<O>(*self, x),
        decreases *self,
    {
        match self {
            ActivationFnInfo::Identity => Identity.backward(x),
            ActivationFnInfo::Sigmoid => Sigmoid.backward::<O>(x),
            ActivationFnInfo::DebugPrint { output, activation } => {
                let r = activation.backward::<O>(x);
                O::log_call(output.as_str(), "backward", x, r);
                r
            },
        }
    }

    /// The derivative of `forward`, taken on the already-activated output
    /// `x` — the caller passes the activated value, not the net input.
    pub fn derivative<O: ScalarOps>(&self, x: u64) -> (r: u64)
        ensures
            r == act_derivative::<O>(*self, x),
        decreases *self,
    {
        match self {
            ActivationFnInfo::Identity => Identity.derivative::<O>(x),
            ActivationFnInfo::Sigmoid => Sigmoid.derivative::<O>(x),
            ActivationFnInfo::DebugPrint { output, activation } => {
                let r = activation.derivative::<O>(x);
                O::log_call(output.as_str(), "derivative", x, r);
                r
            },
        }
    }
}

impl Clone for ActivationFnInfo {
    /// An independent, value-equal copy of the activation.
    fn clone(&self) -> (r: Self)
        ensures
            r == *self,
        decreases *self,
    {
        match self {
            ActivationFnInfo::Identity => ActivationFnInfo::Identity,
            ActivationFnInfo::Sigmoid => ActivationFnInfo::Sigmoid,
            ActivationFnInfo::DebugPrint { output, activation } => ActivationFnInfo::DebugPrint {
                output: output.clone(),
                activation: Box::new((**activation).clone()),
            },
        }
    }
}

/// A `DebugPrint` wrapper is numerically transparent: wrapping any
/// activation leaves `forward`, `backward` and `derivative` unchanged on
/// every input; only the observable log differs.
pub proof fn lemma_debug_print_transparent<O: ScalarOps>(
    output: String,
    inner: ActivationFnInfo,
    x: u64,
)
    ensures
        act_forward::<O>(
            ActivationFnInfo::DebugPrint { output, activation: Box::new(inner) },
            x,
        ) == act_forward::<O>(inner, x),
        act_backward::<O>(
            ActivationFnInfo::DebugPrint { output, activation: Box::new(inner) },
            x,
        ) == act_backward::<O>(inner, x),
        act_derivative::<O>(
            ActivationFnInfo::DebugPrint { output, activation: Box::new(inner) },
            x,
        ) == act_derivative::<O>(inner, x),
{
}

} // verus!
