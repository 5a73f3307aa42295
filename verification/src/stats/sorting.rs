use vstd::prelude::*;

use crate::stats::float_model::{
    float_value, is_nan_value, lemma_float_eq_is_value_eq, lemma_key_fields, lemma_total_order_ascends_by_value,
    magnitude_field, sign_bit,
};

verus! {

broadcast use {
    vstd::seq_lib::to_multiset_update,
    vstd::seq_lib::group_to_multiset_ensures,
    vstd::multiset::group_multiset_axioms,
};

/// The integer whose order is the IEEE 754 total order of binary64 values, given the bit
/// pattern of a value (as `f64::to_bits` gives it): the bits read as a signed integer, with
/// every bit but the sign flipped when the sign bit is set.
pub open spec fn total_order_key(bits: u64) -> i64 {
    let l = bits as i64;
    l ^ ((((l >> 63u64) as u64) >> 1u64) as i64)
}

/// The total order tells every bit pattern apart: different patterns have different keys, so a
/// sort by this order has exactly one possible outcome.
pub proof fn lemma_total_order_key_injective(a: u64, b: u64)
    requires
        total_order_key(a) == total_order_key(b),
    ensures
        a == b,
{
    assert(((a as i64) ^ (((((a as i64) >> 63u64) as u64) >> 1u64) as i64)) == ((b as i64) ^ (((((
        b as i64) >> 63u64) as u64) >> 1u64) as i64)) ==> a == b) by (bit_vector);
}

/// The binary64 bit pattern `bits` is a NaN: every exponent bit set and a non-zero fraction.
pub open spec fn is_nan_bits(bits: u64) -> bool {
    (bits & 0x7ff0_0000_0000_0000u64) == 0x7ff0_0000_0000_0000u64 && (bits & 0x000f_ffff_ffff_ffffu64)
        != 0
}

/// The binary64 bit pattern `bits` is a zero, positive or negative.
pub open spec fn is_zero_bits(bits: u64) -> bool {
    (bits & 0x7fff_ffff_ffff_ffffu64) == 0
}

/// The binary64 values with bit patterns `a` and `b` are equal by IEEE 754 (and by `f64`'s
/// `==`): neither is NaN, and they are the same pattern or both zeros.
pub open spec fn float_bits_eq(a: u64, b: u64) -> bool {
    !is_nan_bits(a) && !is_nan_bits(b) && (a == b || (is_zero_bits(a) && is_zero_bits(b)))
}

/// Whether the binary64 values with bit patterns `a` and `b` are equal by IEEE 754.
pub fn float_bits_eq_of(a: u64, b: u64) -> (r: bool)
    ensures
        r == float_bits_eq(a, b),
        r == (!is_nan_value(a) && !is_nan_value(b) && float_value(a) == float_value(b)),
{
    proof {
        lemma_float_eq_is_value_eq(a, b);
    }
    let a_nan = (a & 0x7ff0_0000_0000_0000u64) == 0x7ff0_0000_0000_0000u64 && (a
        & 0x000f_ffff_ffff_ffffu64) != 0;
    let b_nan = (b & 0x7ff0_0000_0000_0000u64) == 0x7ff0_0000_0000_0000u64 && (b
        & 0x000f_ffff_ffff_ffffu64) != 0;
    let a_zero = (a & 0x7fff_ffff_ffff_ffffu64) == 0;
    let b_zero = (b & 0x7fff_ffff_ffff_ffffu64) == 0;
    !a_nan && !b_nan && (a == b || (a_zero && b_zero))
}

/// `s` is in ascending order.
pub open spec fn ascending(s: Seq<i64>) -> bool {
    forall|a: int, b: int| 0 <= a < b < s.len() ==> #[trigger] s[a] <= #[trigger] s[b]
}

/// The bit patterns in `s` are in ascending IEEE 754 total order.
pub open spec fn ascending_total_order(s: Seq<u64>) -> bool {
    forall|a: int, b: int|
        0 <= a < b < s.len() ==> total_order_key(#[trigger] s[a]) <= total_order_key(#[trigger] s[b])
}

/// The IEEE 754 total-order key of a binary64 bit pattern.
pub fn total_order_key_of(bits: u64) -> (r: i64)
    ensures
        r == total_order_key(bits),
        r == if sign_bit(bits) {
            -1 - magnitude_field(bits)
        } else {
            magnitude_field(bits) as int
        },
{
    proof {
        lemma_key_fields(bits);
    }
    let l = bits as i64;
    l ^ ((((l >> 63u64) as u64) >> 1u64) as i64)
}

proof fn lemma_swap_multiset<T>(s: Seq<T>, j: int)
    requires
        1 <= j < s.len(),
    ensures
        s.update(j - 1, s[j]).update(j, s[j - 1]).to_multiset() == s.to_multiset(),
{
    let s1 = s.update(j - 1, s[j]);
    assert(s1[j] == s[j]);
    assert(s1.to_multiset() == s.to_multiset().insert(s[j]).remove(s[j - 1]));
    assert(s1.update(j, s[j - 1]).to_multiset() == s1.to_multiset().insert(s[j - 1]).remove(s[j]));
    let m = s.to_multiset();
    assert(s.contains(s[j - 1]));
    assert(m.count(s[j - 1]) > 0);
    assert(m.insert(s[j]).remove(s[j - 1]).insert(s[j - 1]).remove(s[j]) =~= m);
}

/// Sorts integers in ascending order.
pub fn sort_ascending(v: &mut Vec<i64>)
    ensures
        ascending(final(v)@),
        final(v)@.to_multiset() == old(v)@.to_multiset(),
{
    let n = v.len();
    let mut i: usize = 0;
    while i < n
        invariant
            n == v@.len(),
            i <= n,
            forall|a: int, b: int| 0 <= a < b < i ==> #[trigger] v@[a] <= #[trigger] v@[b],
            v@.to_multiset() == old(v)@.to_multiset(),
        decreases n - i,
    {
        let mut j: usize = i;
        while j > 0 && v[j - 1] > v[j]
            invariant
                n == v@.len(),
                j <= i < n,
                forall|a: int, b: int|
                    0 <= a < b <= i && a != j && b != j ==> #[trigger] v@[a] <= #[trigger] v@[b],
                forall|b: int| j < b <= i ==> v@[j as int] <= #[trigger] v@[b],
                v@.to_multiset() == old(v)@.to_multiset(),
            decreases j,
        {
            proof {
                lemma_swap_multiset(v@, j as int);
            }
            let lower = v[j - 1];
            let upper = v[j];
            v.set(j - 1, upper);
            v.set(j, lower);
            j = j - 1;
        }
        i = i + 1;
    }
}

/// Sorts binary64 bit patterns in ascending IEEE 754 total order.
pub fn sort_total_order(v: &mut Vec<u64>)
    ensures
        ascending_total_order(final(v)@),
        forall|i: int, j: int|
            0 <= i < j < final(v)@.len() && !is_nan_value(final(v)@[i]) && !is_nan_value(final(v)@[j])
                ==> float_value(#[trigger] final(v)@[i]) <= float_value(#[trigger] final(v)@[j]),
        final(v)@.to_multiset() == old(v)@.to_multiset(),
{
    let n = v.len();
    let mut i: usize = 0;
    while i < n
        invariant
            n == v@.len(),
            i <= n,
            forall|a: int, b: int|
                0 <= a < b < i ==> total_order_key(#[trigger] v@[a]) <= total_order_key(#[trigger] v@[b]),
            v@.to_multiset() == old(v)@.to_multiset(),
        decreases n - i,
    {
        let mut j: usize = i;
        while j > 0 && total_order_key_of(v[j - 1]) > total_order_key_of(v[j])
            invariant
                n == v@.len(),
                j <= i < n,
                forall|a: int, b: int|
                    0 <= a < b <= i && a != j && b != j ==> total_order_key(#[trigger] v@[a])
                        <= total_order_key(#[trigger] v@[b]),
                forall|b: int|
                    j < b <= i ==> total_order_key(v@[j as int]) <= total_order_key(#[trigger] v@[b]),
                v@.to_multiset() == old(v)@.to_multiset(),
            decreases j,
        {
            proof {
                lemma_swap_multiset(v@, j as int);
            }
            let lower = v[j - 1];
            let upper = v[j];
            v.set(j - 1, upper);
            v.set(j, lower);
            j = j - 1;
        }
        i = i + 1;
    }
    proof {
        lemma_total_order_ascends_by_value(v@);
    }
}

} // verus!
