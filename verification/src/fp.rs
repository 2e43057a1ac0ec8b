//! IEEE-754 double-precision scalars, carried as raw `u64` bit patterns.
//!
//! The engine never holds a native float: every number is the bit pattern of
//! a binary64 value. The four rounded arithmetic operations and the rounded
//! conversions are performed by the `rustc_apfloat` software implementation
//! of IEEE-754 and are named by uninterpreted spec functions; everything
//! else (sign manipulation, classification, exponent scaling, and the
//! transcendental routines built from the primitives) is verified code whose
//! meaning is fully spelled out over the bit patterns.

use vstd::prelude::*;
use rustc_apfloat::Float;

verus! {

/// Bit pattern of +0.0.
pub const ZERO_BITS: u64 = 0x0000_0000_0000_0000;
/// Bit pattern of -0.0.
pub const NEG_ZERO_BITS: u64 = 0x8000_0000_0000_0000;
/// Bit pattern of 1.0.
pub const ONE_BITS: u64 = 0x3FF0_0000_0000_0000;
/// Bit pattern of 2.0.
pub const TWO_BITS: u64 = 0x4000_0000_0000_0000;
/// Bit pattern of 0.5.
pub const HALF_BITS: u64 = 0x3FE0_0000_0000_0000;
/// Bit pattern of 3.0.
pub const THREE_BITS: u64 = 0x4008_0000_0000_0000;
/// Bit pattern of 6.0.
pub const SIX_BITS: u64 = 0x4018_0000_0000_0000;
/// Bit pattern of +infinity.
pub const INF_BITS: u64 = 0x7FF0_0000_0000_0000;
/// Bit pattern of -infinity.
pub const NEG_INF_BITS: u64 = 0xFFF0_0000_0000_0000;
/// Bit pattern of the canonical quiet NaN.
pub const NAN_BITS: u64 = 0x7FF8_0000_0000_0000;
/// The sign bit.
pub const SIGN_MASK: u64 = 0x8000_0000_0000_0000;
/// The fraction field.
pub const FRAC_MASK: u64 = 0x000F_FFFF_FFFF_FFFF;
/// Bit pattern of 2^53.
pub const TWO_POW_53_BITS: u64 = 0x4340_0000_0000_0000;
/// Bit pattern of 2^100.
pub const TWO_POW_100_BITS: u64 = 0x4630_0000_0000_0000;
/// Bit pattern of 2^-50.
pub const TWO_POW_NEG_50_BITS: u64 = 0x3CD0_0000_0000_0000;
/// Bit pattern of ln 2.
pub const LN2_BITS: u64 = 0x3FE6_2E42_FEFA_39EF;
/// Bit pattern of 1/ln 2.
pub const INV_LN2_BITS: u64 = 0x3FF7_1547_652B_82FE;
/// High part of ln 2 for argument reduction.
pub const LN2_HI_BITS: u64 = 0x3FE6_2E42_FEE0_0000;
/// Low part of ln 2 for argument reduction.
pub const LN2_LO_BITS: u64 = 0x3DEA_39EF_3579_3C76;
/// Bit pattern of 100 ln 2.
pub const HUNDRED_LN2_BITS: u64 = 0x4051_5424_5733_7D43;
/// Bit pattern of sqrt 2.
pub const SQRT2_BITS: u64 = 0x3FF6_A09E_667F_3BCD;
/// Bit pattern of 20.0.
pub const TWENTY_BITS: u64 = 0x4034_0000_0000_0000;
/// Bit pattern of -708.0, below which the exponential underflows to zero.
pub const EXP_LO_BITS: u64 = 0xC086_2000_0000_0000;
/// Bit pattern of 710.0, above which the exponential overflows to infinity.
pub const EXP_HI_BITS: u64 = 0x4086_3000_0000_0000;

/// What IEEE-754 addition (round to nearest, ties to even) returns on two
/// double bit patterns.
pub uninterp spec fn add_bits(a: u64, b: u64) -> u64;

/// What IEEE-754 subtraction returns on two double bit patterns.
pub uninterp spec fn sub_bits(a: u64, b: u64) -> u64;

/// What IEEE-754 multiplication returns on two double bit patterns.
pub uninterp spec fn mul_bits(a: u64, b: u64) -> u64;

/// What IEEE-754 division returns on two double bit patterns.
pub uninterp spec fn div_bits(a: u64, b: u64) -> u64;

/// Whether the double with bit pattern `a` compares strictly below the one
/// with bit pattern `b` (false whenever either is NaN).
pub uninterp spec fn lt_bits(a: u64, b: u64) -> bool;

/// The double bit pattern nearest to the unsigned integer `n`.
pub uninterp spec fn of_u64_bits(n: u64) -> u64;

/// The double bit pattern nearest to the signed integer `i`.
pub uninterp spec fn of_i64_bits(i: i64) -> u64;

/// The signed integer nearest to the double with bit pattern `a`,
/// saturating on overflow and 0 on NaN.
pub uninterp spec fn to_i64_bits(a: u64) -> i64;

/// Relies on rustc_apfloat::ieee::Double::add_r at round-to-nearest-even:
/// IEEE-754 binary64 addition of the two bit patterns.
#[verifier::external_body]
pub(crate) fn fadd(a: u64, b: u64) -> (r: u64)
    ensures
        r == add_bits(a, b),
{
    let x = rustc_apfloat::ieee::Double::from_bits(a as u128);
    let y = rustc_apfloat::ieee::Double::from_bits(b as u128);
    x.add_r(y, rustc_apfloat::Round::NearestTiesToEven).value.to_bits() as u64
}

/// Relies on rustc_apfloat::ieee::Double::sub_r at round-to-nearest-even:
/// IEEE-754 binary64 subtraction of the two bit patterns.
#[verifier::external_body]
pub(crate) fn fsub(a: u64, b: u64) -> (r: u64)
    ensures
        r == sub_bits(a, b),
{
    let x = rustc_apfloat::ieee::Double::from_bits(a as u128);
    let y = rustc_apfloat::ieee::Double::from_bits(b as u128);
    x.sub_r(y, rustc_apfloat::Round::NearestTiesToEven).value.to_bits() as u64
}

/// Relies on rustc_apfloat::ieee::Double::mul_r at round-to-nearest-even:
/// IEEE-754 binary64 multiplication of the two bit patterns.
#[verifier::external_body]
pub(crate) fn fmul(a: u64, b: u64) -> (r: u64)
    ensures
        r == mul_bits(a, b),
{
    let x = rustc_apfloat::ieee::Double::from_bits(a as u128);
    let y = rustc_apfloat::ieee::Double::from_bits(b as u128);
    x.mul_r(y, rustc_apfloat::Round::NearestTiesToEven).value.to_bits() as u64
}

/// Relies on rustc_apfloat::ieee::Double::div_r at round-to-nearest-even:
/// IEEE-754 binary64 division of the two bit patterns; division by zero
/// yields an infinity or NaN value, never a fault.
#[verifier::external_body]
pub(crate) fn fdiv(a: u64, b: u64) -> (r: u64)
    ensures
        r == div_bits(a, b),
{
    let x = rustc_apfloat::ieee::Double::from_bits(a as u128);
    let y = rustc_apfloat::ieee::Double::from_bits(b as u128);
    x.div_r(y, rustc_apfloat::Round::NearestTiesToEven).value.to_bits() as u64
}

/// Relies on rustc_apfloat::ieee::Double's PartialOrd: the IEEE-754
/// comparison of the two bit patterns, false on NaN.
#[verifier::external_body]
pub(crate) fn flt(a: u64, b: u64) -> (r: bool)
    ensures
        r == lt_bits(a, b),
{
    let x = rustc_apfloat::ieee::Double::from_bits(a as u128);
    let y = rustc_apfloat::ieee::Double::from_bits(b as u128);
    x.partial_cmp(&y) == Some(core::cmp::Ordering::Less)
}

/// Relies on rustc_apfloat::Float::from_u128_r at round-to-nearest-even:
/// the double nearest to the unsigned integer.
#[verifier::external_body]
pub(crate) fn fp_of_u64(n: u64) -> (r: u64)
    ensures
        r == of_u64_bits(n),
{
    let v = rustc_apfloat::ieee::Double::from_u128_r(
        n as u128,
        rustc_apfloat::Round::NearestTiesToEven,
    );
    v.value.to_bits() as u64
}

/// Relies on rustc_apfloat::Float::from_i128_r at round-to-nearest-even:
/// the double nearest to the signed integer.
#[verifier::external_body]
pub(crate) fn fp_of_i64(i: i64) -> (r: u64)
    ensures
        r == of_i64_bits(i),
{
    let v = rustc_apfloat::ieee::Double::from_i128_r(
        i as i128,
        rustc_apfloat::Round::NearestTiesToEven,
    );
    v.value.to_bits() as u64
}

/// Relies on rustc_apfloat::Float::to_i128_r at width 64, round to nearest:
/// the signed integer nearest to the double, saturating out of range and 0
/// on NaN; it never faults.
#[verifier::external_body]
pub(crate) fn f_to_i64(a: u64) -> (r: i64)
    ensures
        r == to_i64_bits(a),
{
    let x = rustc_apfloat::ieee::Double::from_bits(a as u128);
    let mut exact = false;
    let v = x.to_i128_r(64, rustc_apfloat::Round::NearestTiesToEven, &mut exact);
    v.value as i64
}

/// Whether the bit pattern is an IEEE-754 NaN: maximal exponent field and a
/// nonzero fraction.
pub open spec fn is_nan_bits(a: u64) -> bool {
    (a >> 52) & 0x7FF == 0x7FF && a & FRAC_MASK != 0
}

/// Whether the bit pattern is strictly greater than zero: not NaN, sign bit
/// clear, and not a zero.
pub open spec fn is_pos_bits(a: u64) -> bool {
    !is_nan_bits(a) && a >> 63 == 0 && a != ZERO_BITS
}

/// IEEE-754 negation: the sign bit flipped.
pub open spec fn neg_bits(a: u64) -> u64 {
    a ^ SIGN_MASK
}

/// The absolute value: the sign bit cleared.
pub open spec fn abs_bits(a: u64) -> u64 {
    a & !SIGN_MASK
}

pub(crate) fn is_nan(a: u64) -> (r: bool)
    ensures
        r == is_nan_bits(a),
{
    (a >> 52) & 0x7FF == 0x7FF && a & FRAC_MASK != 0
}

pub(crate) fn is_pos(a: u64) -> (r: bool)
    ensures
        r == is_pos_bits(a),
{
    !is_nan(a) && a >> 63 == 0 && a != ZERO_BITS
}

pub(crate) fn fneg(a: u64) -> (r: u64)
    ensures
        r == neg_bits(a),
{
    a ^ SIGN_MASK
}

/// The forward value of the rectifier: the input when it is strictly
/// positive, and +0.0 otherwise (including on NaN).
pub open spec fn relu_fwd_bits(a: u64) -> u64 {
    if is_pos_bits(a) {
        a
    } else {
        ZERO_BITS
    }
}

pub(crate) fn frelu(a: u64) -> (r: u64)
    ensures
        r == relu_fwd_bits(a),
{
    if is_pos(a) {
        a
    } else {
        ZERO_BITS
    }
}

/// Scaling of a strictly positive normal double by 2^k, directly on the
/// exponent field; overflow gives infinity and underflow gives zero.
pub open spec fn ldexp_pos_bits(p: u64, k: int) -> u64 {
    let kc = if k > 2000 {
        2000int
    } else if k < -2000 {
        -2000int
    } else {
        k
    };
    let e = (p >> 52) + kc;
    if e >= 0x7FF {
        INF_BITS
    } else if e <= 0 {
        ZERO_BITS
    } else {
        (p & FRAC_MASK) | ((e as u64) << 52)
    }
}

fn ldexp_pos(p: u64, k: i64) -> (r: u64)
    ensures
        r == ldexp_pos_bits(p, k as int),
{
    let kc: i64 = if k > 2000 {
        2000
    } else if k < -2000 {
        -2000
    } else {
        k
    };
    assert(p >> 52 <= 0xFFF) by (bit_vector);
    let e: i64 = (p >> 52) as i64 + kc;
    if e >= 0x7FF {
        INF_BITS
    } else if e <= 0 {
        ZERO_BITS
    } else {
        (p & FRAC_MASK) | ((e as u64) << 52)
    }
}

/// The degree-13 Taylor polynomial of the exponential, evaluated by Horner's
/// rule over the rounded operations.
pub open spec fn exp_poly_bits(r: u64) -> u64 {
    let c13 = 0x3DE6_1246_13A8_6D09u64;
    let c12 = 0x3E21_EED8_EFF8_D898u64;
    let c11 = 0x3E5A_E645_67F5_44E4u64;
    let c10 = 0x3E92_7E4F_B778_9F5Cu64;
    let c9 = 0x3EC7_1DE3_A556_C734u64;
    let c8 = 0x3EFA_01A0_1A01_A01Au64;
    let c7 = 0x3F2A_01A0_1A01_A01Au64;
    let c6 = 0x3F56_C16C_16C1_6C17u64;
    let c5 = 0x3F81_1111_1111_1111u64;
    let c4 = 0x3FA5_5555_5555_5555u64;
    let c3 = 0x3FC5_5555_5555_5555u64;
    let p = add_bits(c12, mul_bits(r, c13));
    let p = add_bits(c11, mul_bits(r, p));
    let p = add_bits(c10, mul_bits(r, p));
    let p = add_bits(c9, mul_bits(r, p));
    let p = add_bits(c8, mul_bits(r, p));
    let p = add_bits(c7, mul_bits(r, p));
    let p = add_bits(c6, mul_bits(r, p));
    let p = add_bits(c5, mul_bits(r, p));
    let p = add_bits(c4, mul_bits(r, p));
    let p = add_bits(c3, mul_bits(r, p));
    let p = add_bits(HALF_BITS, mul_bits(r, p));
    let p = add_bits(ONE_BITS, mul_bits(r, p));
    add_bits(ONE_BITS, mul_bits(r, p))
}

fn exp_poly(r: u64) -> (out: u64)
    ensures
        out == exp_poly_bits(r),
{
    let c13: u64 = 0x3DE6_1246_13A8_6D09;
    let c12: u64 = 0x3E21_EED8_EFF8_D898;
    let c11: u64 = 0x3E5A_E645_67F5_44E4;
    let c10: u64 = 0x3E92_7E4F_B778_9F5C;
    let c9: u64 = 0x3EC7_1DE3_A556_C734;
    let c8: u64 = 0x3EFA_01A0_1A01_A01A;
    let c7: u64 = 0x3F2A_01A0_1A01_A01A;
    let c6: u64 = 0x3F56_C16C_16C1_6C17;
    let c5: u64 = 0x3F81_1111_1111_1111;
    let c4: u64 = 0x3FA5_5555_5555_5555;
    let c3: u64 = 0x3FC5_5555_5555_5555;
    let p = fadd(c12, fmul(r, c13));
    let p = fadd(c11, fmul(r, p));
    let p = fadd(c10, fmul(r, p));
    let p = fadd(c9, fmul(r, p));
    let p = fadd(c8, fmul(r, p));
    let p = fadd(c7, fmul(r, p));
    let p = fadd(c6, fmul(r, p));
    let p = fadd(c5, fmul(r, p));
    let p = fadd(c4, fmul(r, p));
    let p = fadd(c3, fmul(r, p));
    let p = fadd(HALF_BITS, fmul(r, p));
    let p = fadd(ONE_BITS, fmul(r, p));
    fadd(ONE_BITS, fmul(r, p))
}

/// The exponential: arguments are reduced by the nearest multiple of ln 2,
/// the Taylor polynomial handles the remainder, and the power of two is
/// restored on the exponent field.
pub open spec fn exp_bits(x: u64) -> u64 {
    if is_nan_bits(x) {
        NAN_BITS
    } else if lt_bits(x, EXP_LO_BITS) {
        ZERO_BITS
    } else if lt_bits(EXP_HI_BITS, x) {
        INF_BITS
    } else {
        let k = to_i64_bits(mul_bits(x, INV_LN2_BITS));
        let kf = of_i64_bits(k);
        let r = sub_bits(sub_bits(x, mul_bits(kf, LN2_HI_BITS)), mul_bits(kf, LN2_LO_BITS));
        ldexp_pos_bits(exp_poly_bits(r), k as int)
    }
}

pub(crate) fn fexp(x: u64) -> (out: u64)
    ensures
        out == exp_bits(x),
{
    if is_nan(x) {
        NAN_BITS
    } else if flt(x, EXP_LO_BITS) {
        ZERO_BITS
    } else if flt(EXP_HI_BITS, x) {
        INF_BITS
    } else {
        let k = f_to_i64(fmul(x, INV_LN2_BITS));
        let kf = fp_of_i64(k);
        let r = fsub(fsub(x, fmul(kf, LN2_HI_BITS)), fmul(kf, LN2_LO_BITS));
        let p = exp_poly(r);
        ldexp_pos(p, k)
    }
}

/// The odd-power series of the natural logarithm around 1, in the squared
/// reduced argument, evaluated by Horner's rule.
pub open spec fn ln_poly_bits(z: u64) -> u64 {
    let c21 = 0x3FA8_6186_1861_8618u64;
    let c19 = 0x3FAA_F286_BCA1_AF28u64;
    let c17 = 0x3FAE_1E1E_1E1E_1E1Eu64;
    let c15 = 0x3FB1_1111_1111_1111u64;
    let c13 = 0x3FB3_B13B_13B1_3B14u64;
    let c11 = 0x3FB7_45D1_745D_1746u64;
    let c9 = 0x3FBC_71C7_1C71_C71Cu64;
    let c7 = 0x3FC2_4924_9249_2492u64;
    let c5 = 0x3FC9_9999_9999_999Au64;
    let c3 = 0x3FD5_5555_5555_5555u64;
    let p = add_bits(c19, mul_bits(z, c21));
    let p = add_bits(c17, mul_bits(z, p));
    let p = add_bits(c15, mul_bits(z, p));
    let p = add_bits(c13, mul_bits(z, p));
    let p = add_bits(c11, mul_bits(z, p));
    let p = add_bits(c9, mul_bits(z, p));
    let p = add_bits(c7, mul_bits(z, p));
    let p = add_bits(c5, mul_bits(z, p));
    let p = add_bits(c3, mul_bits(z, p));
    add_bits(ONE_BITS, mul_bits(z, p))
}

fn ln_poly(z: u64) -> (out: u64)
    ensures
        out == ln_poly_bits(z),
{
    let c21: u64 = 0x3FA8_6186_1861_8618;
    let c19: u64 = 0x3FAA_F286_BCA1_AF28;
    let c17: u64 = 0x3FAE_1E1E_1E1E_1E1E;
    let c15: u64 = 0x3FB1_1111_1111_1111;
    let c13: u64 = 0x3FB3_B13B_13B1_3B14;
    let c11: u64 = 0x3FB7_45D1_745D_1746;
    let c9: u64 = 0x3FBC_71C7_1C71_C71C;
    let c7: u64 = 0x3FC2_4924_9249_2492;
    let c5: u64 = 0x3FC9_9999_9999_999A;
    let c3: u64 = 0x3FD5_5555_5555_5555;
    let p = fadd(c19, fmul(z, c21));
    let p = fadd(c17, fmul(z, p));
    let p = fadd(c15, fmul(z, p));
    let p = fadd(c13, fmul(z, p));
    let p = fadd(c11, fmul(z, p));
    let p = fadd(c9, fmul(z, p));
    let p = fadd(c7, fmul(z, p));
    let p = fadd(c5, fmul(z, p));
    let p = fadd(c3, fmul(z, p));
    fadd(ONE_BITS, fmul(z, p))
}

/// The natural logarithm of a strictly positive normal double: the exponent
/// contributes a multiple of ln 2 and the mantissa goes through the series
/// in t = (m - 1) / (m + 1).
pub open spec fn ln_core_bits(x: u64) -> u64 {
    let e0 = (x >> 52) - 1023;
    let m0 = (x & FRAC_MASK) | 0x3FF0_0000_0000_0000u64;
    let e = if m0 >= SQRT2_BITS {
        e0 + 1
    } else {
        e0
    };
    let m = if m0 >= SQRT2_BITS {
        (m0 - 0x0010_0000_0000_0000u64) as u64
    } else {
        m0
    };
    let t = div_bits(sub_bits(m, ONE_BITS), add_bits(m, ONE_BITS));
    let z = mul_bits(t, t);
    add_bits(mul_bits(of_i64_bits(e as i64), LN2_BITS), mul_bits(mul_bits(TWO_BITS, t), ln_poly_bits(z)))
}

fn ln_core(x: u64) -> (out: u64)
    ensures
        out == ln_core_bits(x),
{
    assert(x >> 52 <= 0xFFF) by (bit_vector);
    let e0: i64 = (x >> 52) as i64 - 1023;
    let m0: u64 = (x & FRAC_MASK) | 0x3FF0_0000_0000_0000;
    let e: i64 = if m0 >= SQRT2_BITS {
        e0 + 1
    } else {
        e0
    };
    let m: u64 = if m0 >= SQRT2_BITS {
        m0 - 0x0010_0000_0000_0000
    } else {
        m0
    };
    let t = fdiv(fsub(m, ONE_BITS), fadd(m, ONE_BITS));
    let z = fmul(t, t);
    fadd(fmul(fp_of_i64(e), LN2_BITS), fmul(fmul(TWO_BITS, t), ln_poly(z)))
}

/// The natural logarithm over all inputs: NaN for NaN or negative inputs,
/// -infinity at zero, +infinity at +infinity, and subnormals pre-scaled by
/// 2^100 before the normal-range computation.
pub open spec fn ln_bits(x: u64) -> u64 {
    if is_nan_bits(x) {
        NAN_BITS
    } else if x == ZERO_BITS || x == NEG_ZERO_BITS {
        NEG_INF_BITS
    } else if x >> 63 == 1 {
        NAN_BITS
    } else if x == INF_BITS {
        INF_BITS
    } else if (x >> 52) & 0x7FF == 0 {
        sub_bits(ln_core_bits(mul_bits(x, TWO_POW_100_BITS)), HUNDRED_LN2_BITS)
    } else {
        ln_core_bits(x)
    }
}

pub(crate) fn fln(x: u64) -> (out: u64)
    ensures
        out == ln_bits(x),
{
    if is_nan(x) {
        NAN_BITS
    } else if x == ZERO_BITS || x == NEG_ZERO_BITS {
        NEG_INF_BITS
    } else if x >> 63 == 1 {
        NAN_BITS
    } else if x == INF_BITS {
        INF_BITS
    } else if (x >> 52) & 0x7FF == 0 {
        fsub(ln_core(fmul(x, TWO_POW_100_BITS)), HUNDRED_LN2_BITS)
    } else {
        ln_core(x)
    }
}


/// Five Newton iterations for the square root of a positive normal double,
/// from the classic shifted-exponent initial guess.
pub open spec fn sqrt_core_bits(x: u64) -> u64 {
    let g0 = ((x >> 1) + 0x1FF8_0000_0000_0000) as u64;
    let g1 = mul_bits(HALF_BITS, add_bits(g0, div_bits(x, g0)));
    let g2 = mul_bits(HALF_BITS, add_bits(g1, div_bits(x, g1)));
    let g3 = mul_bits(HALF_BITS, add_bits(g2, div_bits(x, g2)));
    let g4 = mul_bits(HALF_BITS, add_bits(g3, div_bits(x, g3)));
    mul_bits(HALF_BITS, add_bits(g4, div_bits(x, g4)))
}

fn sqrt_core(x: u64) -> (out: u64)
    ensures
        out == sqrt_core_bits(x),
{
    assert(x >> 1 <= 0x7FFF_FFFF_FFFF_FFFF) by (bit_vector);
    let g0: u64 = (x >> 1) + 0x1FF8_0000_0000_0000;
    let g1 = fmul(HALF_BITS, fadd(g0, fdiv(x, g0)));
    let g2 = fmul(HALF_BITS, fadd(g1, fdiv(x, g1)));
    let g3 = fmul(HALF_BITS, fadd(g2, fdiv(x, g2)));
    let g4 = fmul(HALF_BITS, fadd(g3, fdiv(x, g3)));
    fmul(HALF_BITS, fadd(g4, fdiv(x, g4)))
}

/// The square root: NaN for NaN or negative inputs, zeros and +infinity kept,
/// and subnormals pre-scaled by the even power 2^100.
pub open spec fn sqrt_bits(x: u64) -> u64 {
    if is_nan_bits(x) {
        NAN_BITS
    } else if x == ZERO_BITS || x == NEG_ZERO_BITS {
        x
    } else if x >> 63 == 1 {
        NAN_BITS
    } else if x == INF_BITS {
        INF_BITS
    } else if (x >> 52) & 0x7FF == 0 {
        mul_bits(sqrt_core_bits(mul_bits(x, TWO_POW_100_BITS)), TWO_POW_NEG_50_BITS)
    } else {
        sqrt_core_bits(x)
    }
}

pub(crate) fn fsqrt(x: u64) -> (out: u64)
    ensures
        out == sqrt_bits(x),
{
    if is_nan(x) {
        NAN_BITS
    } else if x == ZERO_BITS || x == NEG_ZERO_BITS {
        x
    } else if x >> 63 == 1 {
        NAN_BITS
    } else if x == INF_BITS {
        INF_BITS
    } else if (x >> 52) & 0x7FF == 0 {
        fmul(sqrt_core(fmul(x, TWO_POW_100_BITS)), TWO_POW_NEG_50_BITS)
    } else {
        sqrt_core(x)
    }
}

/// The hyperbolic tangent, odd in its argument: computed from the
/// exponential of twice the magnitude, saturating to 1 beyond 20.
pub open spec fn tanh_bits(x: u64) -> u64 {
    if is_nan_bits(x) {
        NAN_BITS
    } else {
        let a = abs_bits(x);
        let sign = x & SIGN_MASK;
        let r = if lt_bits(TWENTY_BITS, a) {
            ONE_BITS
        } else {
            let t = exp_bits(mul_bits(TWO_BITS, a));
            div_bits(sub_bits(t, ONE_BITS), add_bits(t, ONE_BITS))
        };
        r | sign
    }
}

pub(crate) fn ftanh(x: u64) -> (out: u64)
    ensures
        out == tanh_bits(x),
{
    if is_nan(x) {
        NAN_BITS
    } else {
        let a = x & !SIGN_MASK;
        let sign = x & SIGN_MASK;
        let r = if flt(TWENTY_BITS, a) {
            ONE_BITS
        } else {
            let t = fexp(fmul(TWO_BITS, a));
            fdiv(fsub(t, ONE_BITS), fadd(t, ONE_BITS))
        };
        r | sign
    }
}

/// The exact small-integer value of a double bit pattern, when it has one of
/// magnitude below 2^31: read off the exponent and fraction fields.
pub open spec fn int_exp_opt(c: u64) -> Option<i64> {
    if c == ZERO_BITS || c == NEG_ZERO_BITS {
        Some(0i64)
    } else {
        let e = ((c >> 52) & 0x7FF) - 1023;
        if e < 0 || e > 30 {
            None
        } else if (c & FRAC_MASK) & (((1u64 << ((52 - e) as u64)) - 1) as u64) != 0 {
            None
        } else {
            let mag = ((c & FRAC_MASK) | 0x0010_0000_0000_0000u64) >> ((52 - e) as u64);
            if c >> 63 == 1 {
                Some((-(mag as int)) as i64)
            } else {
                Some(mag as i64)
            }
        }
    }
}

fn int_exp(c: u64) -> (r: Option<i64>)
    ensures
        r == int_exp_opt(c),
        r is Some ==> -0x1_0000_0000 <= r->Some_0 <= 0x1_0000_0000,
{
    if c == ZERO_BITS || c == NEG_ZERO_BITS {
        Some(0i64)
    } else {
        let ef: u64 = (c >> 52) & 0x7FF;
        if ef < 1023 || ef > 1023 + 30 {
            None
        } else {
            let e: u64 = ef - 1023;
            assert(1u64 << ((52 - e) as u64) >= 1) by (bit_vector)
                requires
                    e <= 30,
            ;
            let low: u64 = (1u64 << (52 - e)) - 1;
            if c & FRAC_MASK & low != 0 {
                None
            } else {
                let mag: u64 = ((c & FRAC_MASK) | 0x0010_0000_0000_0000) >> (52 - e);
                assert(((c & 0x000F_FFFF_FFFF_FFFFu64) | 0x0010_0000_0000_0000u64) >> ((52 - e)
                    as u64) <= 0x8000_0000u64) by (bit_vector)
                    requires
                        e <= 30,
                ;
                if c >> 63 == 1 {
                    Some(-(mag as i64))
                } else {
                    Some(mag as i64)
                }
            }
        }
    }
}

/// The repeated-product power with a non-negative integer exponent, starting
/// from 1 and multiplying the base in once per step.
pub open spec fn pow_int_bits(x: u64, n: nat) -> u64
    decreases n,
{
    if n == 0 {
        ONE_BITS
    } else {
        mul_bits(pow_int_bits(x, (n - 1) as nat), x)
    }
}

fn fpow_int(x: u64, n: u64) -> (r: u64)
    requires
        n <= 0x1_0000_0000,
    ensures
        r == pow_int_bits(x, n as nat),
{
    let mut acc: u64 = ONE_BITS;
    let mut i: u64 = 0;
    while i < n
        invariant
            i <= n,
            acc == pow_int_bits(x, i as nat),
        decreases n - i,
    {
        acc = fmul(acc, x);
        i = i + 1;
    }
    acc
}

/// The power function: exponent zero gives 1, base one gives 1, an exact
/// small-integer exponent goes through repeated products (with one final
/// reciprocal when negative), and everything else through exp(c ln x).
pub open spec fn powf_bits(x: u64, c: u64) -> u64 {
    if c == ZERO_BITS || c == NEG_ZERO_BITS {
        ONE_BITS
    } else if x == ONE_BITS {
        ONE_BITS
    } else if int_exp_opt(c) is Some {
        let n = int_exp_opt(c)->Some_0;
        if n >= 0 {
            pow_int_bits(x, n as nat)
        } else {
            div_bits(ONE_BITS, pow_int_bits(x, (-(n as int)) as nat))
        }
    } else {
        exp_bits(mul_bits(c, ln_bits(x)))
    }
}

pub(crate) fn fpowf(x: u64, c: u64) -> (r: u64)
    ensures
        r == powf_bits(x, c),
{
    if c == ZERO_BITS || c == NEG_ZERO_BITS {
        ONE_BITS
    } else if x == ONE_BITS {
        ONE_BITS
    } else {
        let ie = int_exp(c);
        match ie {
            Some(n) => {
                if n >= 0 {
                    fpow_int(x, n as u64)
                } else {
                    fdiv(ONE_BITS, fpow_int(x, (-n) as u64))
                }
            },
            None => fexp(fmul(c, fln(x))),
        }
    }
}

} // verus!
