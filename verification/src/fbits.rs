//! Trusted layer over IEEE 754 double-precision arithmetic, and a verified
//! canonicalization layer on top of it.
//!
//! The estimator works on density scores that are `f64` values. Verified code
//! cannot hold a float, so every score travels through this crate as the raw
//! bit pattern of the `f64` (a `u64`, as `f64::to_bits` gives it). The
//! operations the algorithm needs are wrapped here; each wrapper's contract
//! speaks of its result through an uninterpreted spec function over bit
//! patterns.
//!
//! What may be named, and how strongly, follows what the platform promises:
//! - `+`, `-`, `*`, `/` are exactly specified by IEEE 754 and deterministic
//!   whenever the result is not a NaN; when it is a NaN, which NaN bit
//!   pattern comes back is the platform's choice. So those wrappers promise
//!   the named result only for a non-NaN outcome, and otherwise only that
//!   the outcome is some NaN — whether an operation produces a NaN at all is
//!   determined by the operand bits. The verified `score_*` functions below
//!   then replace every NaN result with one fixed quiet NaN, which makes
//!   each canonical `*_score` operation a pure function of the operand bits
//!   again, proved rather than assumed.
//! - `>` returns a deterministic bool (false whenever either operand is a
//!   NaN), and `sqrt` with the `u64` to `f64` conversion is correctly
//!   rounded and deterministic, so both are named exactly.
//! - `exp` is different: the standard library documents its precision as
//!   platform-dependent, so `f64_exp` promises nothing about its result, and
//!   everything downstream is verified for every value it may return.

use vstd::prelude::*;
use core::primitive::f64 as Real;

verus! {

/// The bits of `-1.0f64`; the decay exponents are built as `(-1.0 * c) * d`,
/// in that association, so the suppression mirrors the potential exactly.
pub const NEG_ONE_BITS: u64 = 0xBFF0_0000_0000_0000;

/// The bits of `+infinity`. Bit patterns strictly below it are exactly the
/// nonnegative finite doubles.
pub const INF_BITS: u64 = 0x7FF0_0000_0000_0000;

/// The canonical quiet NaN every NaN score is folded to.
pub const QNAN_BITS: u64 = 0x7FF8_0000_0000_0000;

/// Whether a bit pattern is a NaN: an all-ones exponent with a nonzero
/// mantissa.
pub open spec fn is_nan_bits(a: u64) -> bool {
    (a >> 52) & 0x7FF == 0x7FF && a & 0xF_FFFF_FFFF_FFFF != 0
}

/// A nonnegative double: sign bit clear and not a NaN (`+0.0`, a positive
/// finite value, or `+infinity`).
pub open spec fn is_nonneg_bits(a: u64) -> bool {
    a >> 63 == 0 && !is_nan_bits(a)
}

/// A strictly positive double: nonnegative and not `+0.0`.
pub open spec fn is_pos_bits(a: u64) -> bool {
    is_nonneg_bits(a) && a != 0
}

/// The canonical form of a score: NaNs of any payload fold to one quiet
/// NaN, every other pattern stands for itself.
pub open spec fn canon(a: u64) -> u64 {
    if is_nan_bits(a) {
        QNAN_BITS
    } else {
        a
    }
}

/// The platform's sum of two doubles, both given and returned as bit
/// patterns (payload of a NaN result left open).
pub uninterp spec fn add_bits(a: u64, b: u64) -> u64;

/// The platform's difference of two doubles, as bit patterns.
pub uninterp spec fn sub_bits(a: u64, b: u64) -> u64;

/// The platform's product of two doubles, as bit patterns.
pub uninterp spec fn mul_bits(a: u64, b: u64) -> u64;

/// The platform's quotient of a double (as a bit pattern) by a `u8`,
/// converted exactly to a double first.
pub uninterp spec fn div_u8_bits(a: u64, d: u8) -> u64;

/// Whether one double, given as a bit pattern, is strictly greater than
/// another (false whenever either operand is a NaN).
pub uninterp spec fn gt_bits(a: u64, b: u64) -> bool;

/// The square root of a nonnegative integer, taken to a double after the
/// (possibly rounding) `u64` to `f64` conversion; the result as a bit pattern.
pub uninterp spec fn sqrt_of_int(n: u64) -> u64;

/// The canonical sum: the platform's sum with any NaN folded to the quiet
/// NaN, a pure function of the operand bits.
pub open spec fn add_score(a: u64, b: u64) -> u64 {
    canon(add_bits(a, b))
}

/// The canonical difference.
pub open spec fn sub_score(a: u64, b: u64) -> u64 {
    canon(sub_bits(a, b))
}

/// The canonical product.
pub open spec fn mul_score(a: u64, b: u64) -> u64 {
    canon(mul_bits(a, b))
}

/// The canonical quotient by a `u8`.
pub open spec fn div_u8_score(a: u64, d: u8) -> u64 {
    canon(div_u8_bits(a, d))
}

/// Relies on `f64` addition: IEEE 754 gives the exact result bits whenever
/// the sum is not a NaN; a NaN sum is a NaN on every platform, but its
/// payload is the platform's choice, so only its NaN-ness is stated.
#[verifier::external_body]
fn f64_add(a: u64, b: u64) -> (r: u64)
    ensures
        !is_nan_bits(add_bits(a, b)) ==> r == add_bits(a, b),
        is_nan_bits(add_bits(a, b)) ==> is_nan_bits(r),
{
    (Real::from_bits(a) + Real::from_bits(b)).to_bits()
}

/// Relies on `f64` subtraction, exactly as `f64_add` relies on addition.
#[verifier::external_body]
fn f64_sub(a: u64, b: u64) -> (r: u64)
    ensures
        !is_nan_bits(sub_bits(a, b)) ==> r == sub_bits(a, b),
        is_nan_bits(sub_bits(a, b)) ==> is_nan_bits(r),
{
    (Real::from_bits(a) - Real::from_bits(b)).to_bits()
}

/// Relies on `f64` multiplication, exactly as `f64_add` relies on addition.
#[verifier::external_body]
fn f64_mul(a: u64, b: u64) -> (r: u64)
    ensures
        !is_nan_bits(mul_bits(a, b)) ==> r == mul_bits(a, b),
        is_nan_bits(mul_bits(a, b)) ==> is_nan_bits(r),
{
    (Real::from_bits(a) * Real::from_bits(b)).to_bits()
}

/// Relies on `f64` division, after the `u8` to `f64` conversion, which is
/// exact for every `u8`; the result clauses are as for `f64_add`. The last
/// clause is IEEE 754's division by zero: a positive double (finite or
/// `+infinity`) over `+0.0` is `+infinity`.
#[verifier::external_body]
fn f64_div_u8(a: u64, d: u8) -> (r: u64)
    ensures
        !is_nan_bits(div_u8_bits(a, d)) ==> r == div_u8_bits(a, d),
        is_nan_bits(div_u8_bits(a, d)) ==> is_nan_bits(r),
        is_pos_bits(a) && d == 0 ==> r == INF_BITS,
{
    (Real::from_bits(a) / (d as Real)).to_bits()
}

/// Relies on `f64`'s `>`: the IEEE 754 comparison, a deterministic bool,
/// false whenever either operand is a NaN. The further clauses are facts of
/// the IEEE order: a double strictly greater than a nonnegative double is
/// itself positive, and `+infinity` strictly exceeds every non-NaN double
/// but itself.
#[verifier::external_body]
pub(crate) fn f64_gt(a: u64, b: u64) -> (r: bool)
    ensures
        r == gt_bits(a, b),
        r && is_nonneg_bits(b) ==> is_pos_bits(a),
        a == INF_BITS && !is_nan_bits(b) && b != INF_BITS ==> r,
{
    Real::from_bits(a) > Real::from_bits(b)
}

/// Relies on `f64::sqrt` (IEEE 754 squareRoot, correctly rounded and
/// deterministic) and the `u64` to `f64` conversion. The conversion yields a
/// finite value in `[0, 2^64]`, whose square root is a nonnegative finite
/// double — a bit pattern strictly below `+infinity`'s. `0u64` converts to
/// `+0.0`, whose square root is `+0.0` with bit pattern 0.
#[verifier::external_body]
pub(crate) fn f64_sqrt_of_int(n: u64) -> (r: u64)
    ensures
        r == sqrt_of_int(n),
        r < INF_BITS,
        n == 0 ==> r == 0,
{
    (n as Real).sqrt().to_bits()
}

/// Relies on `f64::exp` only to return some double. The standard library
/// documents the precision of `exp` as non-deterministic (it may differ by
/// platform and even between invocations), so no clause names its result;
/// the estimator is verified for every value this may return.
#[verifier::external_body]
pub(crate) fn f64_exp(x: u64) -> u64 {
    Real::from_bits(x).exp().to_bits()
}

/// Whether the bit pattern is a NaN, computed as `is_nan_bits` says.
fn nan_bits_test(a: u64) -> (r: bool)
    ensures
        r == is_nan_bits(a),
{
    (a >> 52) & 0x7FF == 0x7FF && a & 0xF_FFFF_FFFF_FFFF != 0
}

/// Folds any NaN to the canonical quiet NaN.
fn canonicalize(a: u64) -> (r: u64)
    ensures
        r == canon(a),
{
    if nan_bits_test(a) {
        QNAN_BITS
    } else {
        a
    }
}

/// The canonical f64 sum of two scores.
pub(crate) fn score_add(a: u64, b: u64) -> (r: u64)
    ensures
        r == add_score(a, b),
{
    canonicalize(f64_add(a, b))
}

/// The canonical f64 difference of two scores.
pub(crate) fn score_sub(a: u64, b: u64) -> (r: u64)
    ensures
        r == sub_score(a, b),
{
    canonicalize(f64_sub(a, b))
}

/// The canonical f64 product of two scores.
pub(crate) fn score_mul(a: u64, b: u64) -> (r: u64)
    ensures
        r == mul_score(a, b),
{
    canonicalize(f64_mul(a, b))
}

/// The canonical f64 quotient of a score by a `u8`. A positive numerator
/// over the divisor 0 gives exactly `+infinity`.
pub(crate) fn score_div_u8(a: u64, d: u8) -> (r: u64)
    ensures
        r == div_u8_score(a, d),
        is_pos_bits(a) && d == 0 ==> r == INF_BITS,
{
    let raw: u64 = f64_div_u8(a, d);
    proof {
        if is_pos_bits(a) && d == 0 {
            assert(!is_nan_bits(INF_BITS)) by {
                assert(0x7FF0_0000_0000_0000u64 & 0xF_FFFF_FFFF_FFFF == 0) by (bit_vector);
            }
        }
    }
    canonicalize(raw)
}

/// `+0.0`'s bit pattern is a nonnegative double.
pub proof fn lemma_zero_is_nonneg()
    ensures
        is_nonneg_bits(0),
{
    assert(0u64 >> 63 == 0) by (bit_vector);
    assert((0u64 >> 52) & 0x7FF == 0) by (bit_vector);
}

/// Every bit pattern below `+infinity`'s is a nonnegative (finite) double.
pub proof fn lemma_below_inf_is_nonneg(a: u64)
    requires
        a < INF_BITS,
    ensures
        is_nonneg_bits(a),
{
    assert(a < 0x7FF0_0000_0000_0000 ==> a >> 63 == 0) by (bit_vector);
    assert(a < 0x7FF0_0000_0000_0000 ==> (a >> 52) & 0x7FF != 0x7FF) by (bit_vector);
}

} // verus!
