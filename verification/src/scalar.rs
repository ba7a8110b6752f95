use vstd::prelude::*;

verus! {

/// Pluggable scalar arithmetic for the network engine.
///
/// Every scalar value is carried as a `u64`; an implementation gives those 64
/// bits whatever numeric meaning it chooses (a machine integer, a fixed-point
/// fraction, the bit pattern of a 64-bit machine real). Each executable
/// operation is pinned to its specification-level mirror, so the algorithms
/// of this crate are verified once and their contracts hold for every
/// implementation that meets these contracts.
pub trait ScalarOps: Sized {
    /// Specification mirror of `add`.
    spec fn sadd(a: u64, b: u64) -> u64;

    /// Specification mirror of `sub`.
    spec fn ssub(a: u64, b: u64) -> u64;

    /// Specification mirror of `mul`.
    spec fn smul(a: u64, b: u64) -> u64;

    /// Specification mirror of `div`.
    spec fn sdiv(a: u64, b: u64) -> u64;

    /// Specification mirror of `neg`.
    spec fn sneg(a: u64) -> u64;

    /// Specification mirror of `exp`.
    spec fn sexp(a: u64) -> u64;

    /// Specification mirror of `ln`.
    spec fn sln(a: u64) -> u64;

    /// Specification mirror of `zero`.
    spec fn szero() -> u64;

    /// Specification mirror of `one`.
    spec fn sone() -> u64;

    /// Specification mirror of `two`.
    spec fn stwo() -> u64;

    /// Specification mirror of `from_usize`.
    spec fn sfrom_usize(n: usize) -> u64;

    /// The sum of `a` and `b`.
    fn add(a: u64, b: u64) -> (r: u64)
        ensures
            r == Self::sadd(a, b),
    ;

    /// The difference of `a` and `b`.
    fn sub(a: u64, b: u64) -> (r: u64)
        ensures
            r == Self::ssub(a, b),
    ;

    /// The product of `a` and `b`.
    fn mul(a: u64, b: u64) -> (r: u64)
        ensures
            r == Self::smul(a, b),
    ;

    /// The quotient of `a` and `b`.
    fn div(a: u64, b: u64) -> (r: u64)
        ensures
            r == Self::sdiv(a, b),
    ;

    /// The additive inverse of `a`.
    fn neg(a: u64) -> (r: u64)
        ensures
            r == Self::sneg(a),
    ;

    /// The exponential function at `a`.
    fn exp(a: u64) -> (r: u64)
        ensures
            r == Self::sexp(a),
    ;

    /// The natural logarithm at `a`.
    fn ln(a: u64) -> (r: u64)
        ensures
            r == Self::sln(a),
    ;

    /// The scalar zero, the additive identity.
    fn zero() -> (r: u64)
        ensures
            r == Self::szero(),
    ;

    /// The scalar one, the multiplicative identity.
    fn one() -> (r: u64)
        ensures
            r == Self::sone(),
    ;

    /// The scalar two.
    fn two() -> (r: u64)
        ensures
            r == Self::stwo(),
    ;

    /// The scalar standing for the count `n`.
    fn from_usize(n: usize) -> (r: u64)
        ensures
            r == Self::sfrom_usize(n),
    ;

    /// A sample from the implementation's unit interval, used to seed fresh
    /// layers. Nothing is promised of the value: two calls may differ.
    fn random_unit() -> u64;

    /// An observable note that the operation `op` of a tracing activation
    /// labelled `label` was applied to `x` and produced `r`. Logging only;
    /// the caller's value flow does not depend on it.
    fn log_call(label: &str, op: &str, x: u64, r: u64);
}

/// Scalar arithmetic over `u64` as plain modular (wrapping) machine integers.
///
/// This is the crate's own, fully verified arithmetic: addition, subtraction,
/// multiplication and negation wrap modulo 2^64, division is the integer
/// quotient (zero when the divisor is zero), and the exponential and
/// logarithm are the shifts by one that invert each other. It gives the
/// engine an exact, deterministic instance for reasoning and testing.
pub struct WrapOps;

impl ScalarOps for WrapOps {
    open spec fn sadd(a: u64, b: u64) -> u64 {
        vstd::wrapping::u64_specs::wrapping_add(a, b)
    }

    open spec fn ssub(a: u64, b: u64) -> u64 {
        vstd::wrapping::u64_specs::wrapping_sub(a, b)
    }

    open spec fn smul(a: u64, b: u64) -> u64 {
        vstd::wrapping::u64_specs::wrapping_mul(a, b)
    }

    open spec fn sdiv(a: u64, b: u64) -> u64 {
        if b == 0 {
            0
        } else {
            a / b
        }
    }

    open spec fn sneg(a: u64) -> u64 {
        vstd::wrapping::u64_specs::wrapping_sub(0, a)
    }

    open spec fn sexp(a: u64) -> u64 {
        vstd::wrapping::u64_specs::wrapping_add(a, 1)
    }

    open spec fn sln(a: u64) -> u64 {
        vstd::wrapping::u64_specs::wrapping_sub(a, 1)
    }

    open spec fn szero() -> u64 {
        0
    }

    open spec fn sone() -> u64 {
        1
    }

    open spec fn stwo() -> u64 {
        2
    }

    open spec fn sfrom_usize(n: usize) -> u64 {
        n as u64
    }

    fn add(a: u64, b: u64) -> u64 {
        a.wrapping_add(b)
    }

    fn sub(a: u64, b: u64) -> u64 {
        a.wrapping_sub(b)
    }

    fn mul(a: u64, b: u64) -> u64 {
        a.wrapping_mul(b)
    }

    fn div(a: u64, b: u64) -> u64 {
        if b == 0 {
            0
        } else {
            a / b
        }
    }

    fn neg(a: u64) -> u64 {
        0u64.wrapping_sub(a)
    }

    fn exp(a: u64) -> u64 {
        a.wrapping_add(1)
    }

    fn ln(a: u64) -> u64 {
        a.wrapping_sub(1)
    }

    fn zero() -> u64 {
        0
    }

    fn one() -> u64 {
        1
    }

    fn two() -> u64 {
        2
    }

    fn from_usize(n: usize) -> u64 {
        n as u64
    }

    fn random_unit() -> u64 {
        0
    }

    fn log_call(_label: &str, _op: &str, _x: u64, _r: u64) {
    }
}

} // verus!
