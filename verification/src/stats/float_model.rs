use vstd::prelude::*;
use vstd::arithmetic::power2::{pow2, lemma_pow2_pos, lemma_pow2_unfold, lemma_pow2_strictly_increases};

use crate::stats::sorting::{ascending_total_order, float_bits_eq, total_order_key, is_nan_bits, is_zero_bits};

verus! {

/// The sign bit of the binary64 bit pattern `bits` is set.
pub open spec fn sign_bit(bits: u64) -> bool {
    bits >= 0x8000_0000_0000_0000u64
}

/// The binary64 bit pattern `bits` without its sign bit: biased exponent and fraction together.
pub open spec fn magnitude_field(bits: u64) -> u64 {
    bits % 0x8000_0000_0000_0000u64
}

/// The biased exponent field (eleven bits) of the binary64 bit pattern `bits`.
pub open spec fn exponent_field(bits: u64) -> u64 {
    magnitude_field(bits) / 0x10_0000_0000_0000u64
}

/// The fraction field (fifty-two bits) of the binary64 bit pattern `bits`.
pub open spec fn fraction_field(bits: u64) -> u64 {
    magnitude_field(bits) % 0x10_0000_0000_0000u64
}

/// The binary64 bit pattern `bits` is a NaN by its fields: the largest exponent and a non-zero
/// fraction.
pub open spec fn is_nan_value(bits: u64) -> bool {
    exponent_field(bits) == 2047 && fraction_field(bits) != 0
}

/// The absolute value of the binary64 value with bit pattern `bits`, times 2^1074, which makes
/// every finite value an integer: a subnormal is its fraction, a normal value is its significand
/// (fraction plus the hidden bit 2^52) times 2^(exponent - 1). An infinity stands at 2^53 * 2^2046,
/// above every finite value.
pub open spec fn scaled_magnitude(bits: u64) -> int {
    let e = exponent_field(bits);
    let f = fraction_field(bits);
    if e == 2047 {
        (0x20_0000_0000_0000 * pow2(2046)) as int
    } else if e == 0 {
        f as int
    } else {
        (f + 0x10_0000_0000_0000) * (pow2((e - 1) as nat) as int)
    }
}

/// The binary64 value with bit pattern `bits`, times 2^1074, with its sign (for a non-NaN
/// pattern; both zeros give 0, the infinities give plus or minus 2^53 * 2^2046).
pub open spec fn float_value(bits: u64) -> int {
    if sign_bit(bits) {
        -scaled_magnitude(bits)
    } else {
        scaled_magnitude(bits)
    }
}

/// The NaN and zero tests on bit masks read the exponent, fraction and magnitude fields.
pub proof fn lemma_fields(bits: u64)
    ensures
        bits & 0x7fff_ffff_ffff_ffffu64 == magnitude_field(bits),
        is_nan_bits(bits) == is_nan_value(bits),
        is_zero_bits(bits) == (magnitude_field(bits) == 0),
{
    assert(bits & 0x7fff_ffff_ffff_ffffu64 == bits % 0x8000_0000_0000_0000u64) by (bit_vector);
    assert(((bits & 0x7ff0_0000_0000_0000u64) == 0x7ff0_0000_0000_0000u64 && (bits
        & 0x000f_ffff_ffff_ffffu64) != 0) == ((bits % 0x8000_0000_0000_0000u64) / 0x10_0000_0000_0000u64
        == 2047 && (bits % 0x8000_0000_0000_0000u64) % 0x10_0000_0000_0000u64 != 0)) by (bit_vector);
}

/// The total-order key of a bit pattern without the sign bit is its magnitude; with the sign bit,
/// it is `-1` minus its magnitude, so larger negative values come first and `-0.0` sits just below
/// `0.0`.
pub proof fn lemma_key_fields(bits: u64)
    ensures
        total_order_key(bits) == if sign_bit(bits) {
            -1 - magnitude_field(bits)
        } else {
            magnitude_field(bits) as int
        },
{
    let k = total_order_key(bits);
    assert(bits < 0x8000_0000_0000_0000u64 ==> ((bits as i64) ^ (((((bits as i64) >> 63u64) as u64)
        >> 1u64) as i64)) == (bits % 0x8000_0000_0000_0000u64) as i64) by (bit_vector);
    assert(bits >= 0x8000_0000_0000_0000u64 ==> ((bits as i64) ^ (((((bits as i64) >> 63u64) as u64)
        >> 1u64) as i64)) == !((bits % 0x8000_0000_0000_0000u64) as i64)) by (bit_vector);
    let m = magnitude_field(bits);
    let mi = m as i64;
    assert(mi == m);
    assert(!mi == -1 - mi) by (bit_vector);
}

proof fn lemma_finite_below_infinity(bits: u64)
    requires
        exponent_field(bits) < 2047,
    ensures
        0 <= scaled_magnitude(bits) < 0x20_0000_0000_0000 * pow2(2046),
{
    let e = exponent_field(bits);
    let f = fraction_field(bits);
    lemma_pow2_pos(2046);
    if e != 0 {
        let p = pow2((e - 1) as nat) as int;
        let q = pow2(2046) as int;
        lemma_pow2_strictly_increases((e - 1) as nat, 2046);
        lemma_pow2_pos((e - 1) as nat);
        assert((f + 0x10_0000_0000_0000) * p < 0x20_0000_0000_0000 * q) by (nonlinear_arith)
            requires
                0 <= f < 0x10_0000_0000_0000,
                0 < p < q,
        ;
        assert(0 <= (f + 0x10_0000_0000_0000) * p) by (nonlinear_arith)
            requires
                0 <= f,
                0 < p,
        ;
    }
}

proof fn lemma_magnitude_order(a: u64, b: u64)
    requires
        !is_nan_value(a),
        !is_nan_value(b),
        magnitude_field(a) < magnitude_field(b),
    ensures
        0 <= scaled_magnitude(a) < scaled_magnitude(b),
{
    let ea = exponent_field(a);
    let eb = exponent_field(b);
    let fa = fraction_field(a) as int;
    let fb = fraction_field(b) as int;
    assert(ea <= eb);
    lemma_finite_below_infinity(a);
    if eb == 2047 {
        assert(ea < 2047);
    } else if ea == eb {
        assert(fa < fb);
        if ea != 0 {
            let p = pow2((ea - 1) as nat) as int;
            lemma_pow2_pos((ea - 1) as nat);
            assert((fa + 0x10_0000_0000_0000) * p < (fb + 0x10_0000_0000_0000) * p) by (nonlinear_arith)
                requires
                    fa < fb,
                    0 < p,
            ;
        }
    } else {
        let q = pow2((eb - 1) as nat) as int;
        lemma_pow2_pos((eb - 1) as nat);
        assert(0x10_0000_0000_0000 * q <= (fb + 0x10_0000_0000_0000) * q) by (nonlinear_arith)
            requires
                0 <= fb,
                0 < q,
        ;
        if ea == 0 {
            assert(fa < 0x10_0000_0000_0000 * q) by (nonlinear_arith)
                requires
                    0 <= fa < 0x10_0000_0000_0000,
                    1 <= q,
            ;
        } else {
            let p = pow2((ea - 1) as nat) as int;
            let p2 = pow2(ea as nat) as int;
            lemma_pow2_unfold(ea as nat);
            lemma_pow2_pos((ea - 1) as nat);
            if ea < eb - 1 {
                lemma_pow2_strictly_increases(ea as nat, (eb - 1) as nat);
            }
            assert(p2 <= q);
            assert((fa + 0x10_0000_0000_0000) * p < 0x10_0000_0000_0000 * q) by (nonlinear_arith)
                requires
                    0 <= fa < 0x10_0000_0000_0000,
                    0 < p,
                    p2 == 2 * p,
                    p2 <= q,
            ;
        }
    }
}

proof fn lemma_scaled(a: u64, b: u64)
    requires
        !is_nan_value(a),
        !is_nan_value(b),
    ensures
        0 <= scaled_magnitude(a),
        scaled_magnitude(a) == 0 <==> magnitude_field(a) == 0,
        magnitude_field(a) < magnitude_field(b) ==> scaled_magnitude(a) < scaled_magnitude(b),
        magnitude_field(a) == magnitude_field(b) ==> scaled_magnitude(a) == scaled_magnitude(b),
        magnitude_field(b) < magnitude_field(a) ==> scaled_magnitude(b) < scaled_magnitude(a),
{
    if magnitude_field(a) < magnitude_field(b) {
        lemma_magnitude_order(a, b);
    } else if magnitude_field(b) < magnitude_field(a) {
        lemma_magnitude_order(b, a);
    }
    if magnitude_field(a) > 0 {
        lemma_magnitude_order(0u64, a);
    }
}

/// For binary64 values that are not NaN, the total-order key follows the numeric value: a value
/// smaller than another has the smaller key, and a key no greater than another belongs to a value
/// no greater (so `-5.5` comes before `-5.0`, and `-0.0` and `0.0`, which are equal, may come in
/// either order of keys).
pub proof fn lemma_key_follows_value(a: u64, b: u64)
    requires
        !is_nan_value(a),
        !is_nan_value(b),
    ensures
        float_value(a) < float_value(b) ==> total_order_key(a) < total_order_key(b),
        total_order_key(a) <= total_order_key(b) ==> float_value(a) <= float_value(b),
{
    lemma_key_fields(a);
    lemma_key_fields(b);
    lemma_scaled(a, b);
    lemma_scaled(b, a);
}

/// Two binary64 values are equal by IEEE 754 (and by `f64`'s `==`) exactly when neither is NaN
/// and they have the same numeric value: the same bit pattern, or a zero of either sign on both
/// sides.
pub proof fn lemma_float_eq_is_value_eq(a: u64, b: u64)
    ensures
        float_bits_eq(a, b) == (!is_nan_value(a) && !is_nan_value(b) && float_value(a) == float_value(b)),
{
    lemma_fields(a);
    lemma_fields(b);
    if !is_nan_value(a) && !is_nan_value(b) {
        lemma_scaled(a, b);
        lemma_scaled(b, a);
        if float_value(a) == float_value(b) && sign_bit(a) == sign_bit(b) {
            assert(magnitude_field(a) == magnitude_field(b));
            assert(a == b);
        }
    }
}

/// In a sequence of bit patterns ascending by the total order, every earlier value that is not
/// NaN is no greater than every later value that is not NaN.
pub proof fn lemma_total_order_ascends_by_value(s: Seq<u64>)
    requires
        ascending_total_order(s),
    ensures
        forall|i: int, j: int|
            0 <= i < j < s.len() && !is_nan_value(s[i]) && !is_nan_value(s[j]) ==> float_value(#[trigger] s[i])
                <= float_value(#[trigger] s[j]),
{
    assert forall|i: int, j: int|
        0 <= i < j < s.len() && !is_nan_value(s[i]) && !is_nan_value(s[j]) implies float_value(#[trigger] s[i])
            <= float_value(#[trigger] s[j]) by {
        lemma_key_follows_value(s[i], s[j]);
    }
}

} // verus!
