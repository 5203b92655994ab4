//! The complex amplitude scalar.
//!
//! An [`Amp`] wraps the `num` crate's single-precision complex number.  Verus
//! sees the scalar as an opaque value: its arithmetic is named by
//! uninterpreted spec functions (`c_add`, `c_mul`, ...), one per `num`
//! operation, and every contract in the crate speaks of amplitudes through
//! those names.  The `c` field is exposed so that unverified callers and
//! tests can build amplitudes from raw floating-point parts and inspect
//! results.

use vstd::prelude::*;

verus! {

/// Declares the `num` crate's complex-number type to the verifier.  Values of
/// it are opaque: nothing is assumed of their contents.
#[verifier::external_type_specification]
#[verifier::external_body]
#[verifier::reject_recursive_types(T)]
pub struct ExComplex<T>(num::complex::Complex<T>);

/// A single complex amplitude.  The wrapped `num` complex number is opaque to
/// the verifier; the arithmetic on it is described by the uninterpreted
/// functions below.
#[derive(Clone, Copy, PartialEq)]
pub struct Amp {
    /// The underlying `num` complex number.
    pub c: num::complex::Complex32,
}

/// The complex number `re + im*i` built from integer parts.
pub uninterp spec fn c_from_int(re: int, im: int) -> Amp;

/// The complex sum of `a` and `b`.
pub uninterp spec fn c_add(a: Amp, b: Amp) -> Amp;

/// The complex product of `a` and `b`.
pub uninterp spec fn c_mul(a: Amp, b: Amp) -> Amp;

/// The principal complex square root of `a`.
pub uninterp spec fn c_sqrt(a: Amp) -> Amp;

/// The complex reciprocal of `a`.
pub uninterp spec fn c_inv(a: Amp) -> Amp;

/// The unit complex number `e^(i * pi * num / den)`.
pub uninterp spec fn c_unit_phase(num: int, den: int) -> Amp;

/// Relies on `Complex::new` of the `num` crate: the parts are converted
/// losslessly from integers no larger than 2^24 in magnitude.
#[verifier::external_body]
pub(crate) fn amp_from_int(re: i64, im: i64) -> (r: Amp)
    requires
        -0x1000000 <= re <= 0x1000000,
        -0x1000000 <= im <= 0x1000000,
    ensures
        r == c_from_int(re as int, im as int),
{
    Amp { c: num::complex::Complex32::new(num::cast(re).unwrap(), num::cast(im).unwrap()) }
}

/// Relies on `Add for Complex` of the `num` crate: componentwise addition,
/// a function of the two operands alone.
#[verifier::external_body]
pub(crate) fn amp_add(a: Amp, b: Amp) -> (r: Amp)
    ensures
        r == c_add(a, b),
{
    Amp { c: a.c + b.c }
}

/// Relies on `Mul for Complex` of the `num` crate: the complex product,
/// a function of the two operands alone.
#[verifier::external_body]
pub(crate) fn amp_mul(a: Amp, b: Amp) -> (r: Amp)
    ensures
        r == c_mul(a, b),
{
    Amp { c: a.c * b.c }
}

/// Relies on `Complex::sqrt` of the `num` crate: the principal square root,
/// a function of the operand alone.
#[verifier::external_body]
pub(crate) fn amp_sqrt(a: Amp) -> (r: Amp)
    ensures
        r == c_sqrt(a),
{
    Amp { c: a.c.sqrt() }
}

/// Relies on `Complex::inv` of the `num` crate: the reciprocal, a function
/// of the operand alone.
#[verifier::external_body]
pub(crate) fn amp_inv(a: Amp) -> (r: Amp)
    ensures
        r == c_inv(a),
{
    Amp { c: a.c.inv() }
}

/// Relies on `Complex::from_polar` of the `num` crate, called with radius one
/// and angle `pi * num / den`: the result is `cos` and `sin` of that angle,
/// a function of the two integer arguments alone.
#[verifier::external_body]
pub(crate) fn amp_unit_phase(num: i64, den: i64) -> (r: Amp)
    requires
        den != 0,
    ensures
        r == c_unit_phase(num as int, den as int),
{
    let pi = num::complex::Complex32::new(num::traits::FloatConst::PI(), num::cast(0i64).unwrap());
    let n = num::complex::Complex32::new(num::cast(num).unwrap(), num::cast(0i64).unwrap());
    let d = num::complex::Complex32::new(num::cast(den).unwrap(), num::cast(0i64).unwrap());
    Amp { c: num::complex::Complex32::from_polar(num::traits::One::one(), pi.re * n.re / d.re) }
}

} // verus!
