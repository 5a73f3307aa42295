use vstd::prelude::*;
use std::cmp::Ordering;
use vstd::utf8::encode_utf8;

use crate::stats::column::Column;
use crate::stats::float_model::{
    float_value, is_nan_value, lemma_fields, lemma_float_eq_is_value_eq, lemma_key_follows_value,
};
use crate::stats::sorting::{float_bits_eq, float_bits_eq_of, is_nan_bits, total_order_key, total_order_key_of};

verus! {

/// The outcome of comparing two values that are ordered.
#[derive(Debug, Clone, Copy, PartialEq, Eq, Structural)]
pub enum Order {
    Less,
    Equal,
    Greater,
}

/// The order of two integers.
pub open spec fn int_order(a: int, b: int) -> Order {
    if a < b {
        Order::Less
    } else if a > b {
        Order::Greater
    } else {
        Order::Equal
    }
}

/// The order of the binary64 values with bit patterns `a` and `b`, as `f64`'s `partial_cmp`
/// gives it: none when either is NaN, equal for equal values (the two zeros are equal), and
/// otherwise their numeric order, which the total-order key follows.
pub open spec fn float_order(a: u64, b: u64) -> Option<Order> {
    if is_nan_bits(a) || is_nan_bits(b) {
        None
    } else if float_bits_eq(a, b) {
        Some(Order::Equal)
    } else {
        Some(int_order(total_order_key(a) as int, total_order_key(b) as int))
    }
}

/// Two binary64 values are unordered when either is NaN, and otherwise ordered as the numbers
/// they stand for: the lesser number is `Less`, equal numbers (the two zeros too) are `Equal`.
pub proof fn lemma_float_order_by_value(a: u64, b: u64)
    ensures
        float_order(a, b) == if is_nan_value(a) || is_nan_value(b) {
            None
        } else {
            Some(int_order(float_value(a), float_value(b)))
        },
{
    lemma_fields(a);
    lemma_fields(b);
    lemma_float_eq_is_value_eq(a, b);
    if !is_nan_value(a) && !is_nan_value(b) {
        lemma_key_follows_value(a, b);
        lemma_key_follows_value(b, a);
    }
}

/// Lexicographic order of integer sequences from position `k` on: the first unequal pair
/// decides, and a sequence that runs out first is the lesser.
pub open spec fn lex_ints(v: Seq<i64>, w: Seq<i64>, k: int) -> Order
    decreases v.len() - k,
{
    if k < 0 || k >= v.len() || k >= w.len() {
        int_order(v.len() as int, w.len() as int)
    } else if v[k] != w[k] {
        int_order(v[k] as int, w[k] as int)
    } else {
        lex_ints(v, w, k + 1)
    }
}

/// Lexicographic order of byte sequences from position `k` on.
pub open spec fn lex_bytes(v: Seq<u8>, w: Seq<u8>, k: int) -> Order
    decreases v.len() - k,
{
    if k < 0 || k >= v.len() || k >= w.len() {
        int_order(v.len() as int, w.len() as int)
    } else if v[k] != w[k] {
        int_order(v[k] as int, w[k] as int)
    } else {
        lex_bytes(v, w, k + 1)
    }
}

/// Lexicographic order of binary64 sequences from position `k` on: the first pair that is not
/// equal decides (none when it is unordered), and a sequence that runs out first is the lesser.
pub open spec fn lex_floats(v: Seq<u64>, w: Seq<u64>, k: int) -> Option<Order>
    decreases v.len() - k,
{
    if k < 0 || k >= v.len() || k >= w.len() {
        Some(int_order(v.len() as int, w.len() as int))
    } else if float_order(v[k], w[k]) != Some(Order::Equal) {
        float_order(v[k], w[k])
    } else {
        lex_floats(v, w, k + 1)
    }
}

proof fn lemma_lex_ints_from(v: Seq<i64>, w: Seq<i64>, k: int, d: int)
    requires
        0 <= k <= d <= v.len(),
        d <= w.len(),
        forall|i: int| k <= i < d ==> v[i] == w[i],
        d == v.len() || d == w.len() || v[d] != w[d],
    ensures
        lex_ints(v, w, k) == if d < v.len() && d < w.len() {
            int_order(v[d] as int, w[d] as int)
        } else {
            int_order(v.len() as int, w.len() as int)
        },
    decreases d - k,
{
    if k < d {
        lemma_lex_ints_from(v, w, k + 1, d);
    }
}

/// Integer sequences are ordered by the first position at which they differ; where one is a
/// prefix of the other, the shorter comes first (and sequences of the same entries are equal).
pub proof fn lemma_lex_ints_first_difference(v: Seq<i64>, w: Seq<i64>, d: int)
    requires
        0 <= d <= v.len(),
        d <= w.len(),
        forall|i: int| 0 <= i < d ==> v[i] == w[i],
        d == v.len() || d == w.len() || v[d] != w[d],
    ensures
        lex_ints(v, w, 0) == if d < v.len() && d < w.len() {
            int_order(v[d] as int, w[d] as int)
        } else {
            int_order(v.len() as int, w.len() as int)
        },
{
    lemma_lex_ints_from(v, w, 0, d);
}

proof fn lemma_lex_bytes_from(v: Seq<u8>, w: Seq<u8>, k: int, d: int)
    requires
        0 <= k <= d <= v.len(),
        d <= w.len(),
        forall|i: int| k <= i < d ==> v[i] == w[i],
        d == v.len() || d == w.len() || v[d] != w[d],
    ensures
        lex_bytes(v, w, k) == if d < v.len() && d < w.len() {
            int_order(v[d] as int, w[d] as int)
        } else {
            int_order(v.len() as int, w.len() as int)
        },
    decreases d - k,
{
    if k < d {
        lemma_lex_bytes_from(v, w, k + 1, d);
    }
}

/// Byte sequences are ordered by the first position at which they differ; where one is a prefix
/// of the other, the shorter comes first.
pub proof fn lemma_lex_bytes_first_difference(v: Seq<u8>, w: Seq<u8>, d: int)
    requires
        0 <= d <= v.len(),
        d <= w.len(),
        forall|i: int| 0 <= i < d ==> v[i] == w[i],
        d == v.len() || d == w.len() || v[d] != w[d],
    ensures
        lex_bytes(v, w, 0) == if d < v.len() && d < w.len() {
            int_order(v[d] as int, w[d] as int)
        } else {
            int_order(v.len() as int, w.len() as int)
        },
{
    lemma_lex_bytes_from(v, w, 0, d);
}

proof fn lemma_lex_floats_from(v: Seq<u64>, w: Seq<u64>, k: int, d: int)
    requires
        0 <= k <= d <= v.len(),
        d <= w.len(),
        forall|i: int| k <= i < d ==> float_order(v[i], w[i]) == Some(Order::Equal),
        d == v.len() || d == w.len() || float_order(v[d], w[d]) != Some(Order::Equal),
    ensures
        lex_floats(v, w, k) == if d < v.len() && d < w.len() {
            float_order(v[d], w[d])
        } else {
            Some(int_order(v.len() as int, w.len() as int))
        },
    decreases d - k,
{
    if k < d {
        lemma_lex_floats_from(v, w, k + 1, d);
    }
}

/// Sequences of binary64 values are ordered by the first position at which their values are not
/// equal numbers: unordered when either value there is NaN, else by the two numbers; where every
/// value of the shorter one equals the value at the same position of the other, the shorter comes
/// first.
pub proof fn lemma_lex_floats_first_difference(v: Seq<u64>, w: Seq<u64>, d: int)
    requires
        0 <= d <= v.len(),
        d <= w.len(),
        forall|i: int|
            0 <= i < d ==> !is_nan_value(#[trigger] v[i]) && !is_nan_value(w[i]) && float_value(v[i])
                == float_value(w[i]),
        d == v.len() || d == w.len() || is_nan_value(v[d]) || is_nan_value(w[d]) || float_value(v[d])
            != float_value(w[d]),
    ensures
        lex_floats(v, w, 0) == if d < v.len() && d < w.len() {
            if is_nan_value(v[d]) || is_nan_value(w[d]) {
                None
            } else {
                Some(int_order(float_value(v[d]), float_value(w[d])))
            }
        } else {
            Some(int_order(v.len() as int, w.len() as int))
        },
{
    assert forall|i: int| 0 <= i < d implies float_order(v[i], w[i]) == Some(Order::Equal) by {
        lemma_float_order_by_value(v[i], w[i]);
    }
    if d < v.len() && d < w.len() {
        lemma_float_order_by_value(v[d], w[d]);
    }
    lemma_lex_floats_from(v, w, 0, d);
}

proof fn lemma_first_difference_exists(x: Seq<u8>, y: Seq<u8>, e: int)
    requires
        0 <= e <= x.len(),
        e <= y.len(),
        e == x.len() || e == y.len() || x[e] != y[e],
        x.len() != y.len() || e < x.len(),
    ensures
        lex_bytes(x, y, 0) != Order::Equal,
    decreases e,
{
    if exists|i: int| 0 <= i < e && x[i] != y[i] {
        let i0 = choose|i: int| 0 <= i < e && x[i] != y[i];
        lemma_first_difference_exists(x, y, i0);
    } else {
        lemma_lex_bytes_first_difference(x, y, e);
    }
}

/// The order of two strings: lexicographic by their UTF-8 bytes.
pub open spec fn text_order(a: String, b: String) -> Order {
    lex_bytes(encode_utf8(a@), encode_utf8(b@), 0)
}

/// Lexicographic order of string sequences from position `k` on.
pub open spec fn lex_texts(v: Seq<String>, w: Seq<String>, k: int) -> Order
    decreases v.len() - k,
{
    if k < 0 || k >= v.len() || k >= w.len() {
        int_order(v.len() as int, w.len() as int)
    } else if text_order(v[k], w[k]) != Order::Equal {
        text_order(v[k], w[k])
    } else {
        lex_texts(v, w, k + 1)
    }
}

proof fn lemma_lex_texts_from(v: Seq<String>, w: Seq<String>, k: int, d: int)
    requires
        0 <= k <= d <= v.len(),
        d <= w.len(),
        forall|i: int| k <= i < d ==> text_order(v[i], w[i]) == Order::Equal,
        d == v.len() || d == w.len() || text_order(v[d], w[d]) != Order::Equal,
    ensures
        lex_texts(v, w, k) == if d < v.len() && d < w.len() {
            text_order(v[d], w[d])
        } else {
            int_order(v.len() as int, w.len() as int)
        },
    decreases d - k,
{
    if k < d {
        lemma_lex_texts_from(v, w, k + 1, d);
    }
}

/// Sequences of strings are ordered by the first position at which the strings are not equal by
/// their UTF-8 bytes; where every string of the shorter one equals the string at the same
/// position of the other, the shorter comes first.
pub proof fn lemma_lex_texts_first_difference(v: Seq<String>, w: Seq<String>, d: int)
    requires
        0 <= d <= v.len(),
        d <= w.len(),
        forall|i: int| 0 <= i < d ==> encode_utf8((#[trigger] v[i])@) == encode_utf8(w[i]@),
        d == v.len() || d == w.len() || encode_utf8(v[d]@) != encode_utf8(w[d]@),
    ensures
        lex_texts(v, w, 0) == if d < v.len() && d < w.len() {
            text_order(v[d], w[d])
        } else {
            int_order(v.len() as int, w.len() as int)
        },
{
    assert forall|i: int| 0 <= i < d implies text_order(v[i], w[i]) == Order::Equal by {
        let x = encode_utf8(v[i]@);
        lemma_lex_bytes_first_difference(x, x, x.len() as int);
    }
    if d < v.len() && d < w.len() {
        let x = encode_utf8(v[d]@);
        let y = encode_utf8(w[d]@);
        if x.len() == y.len() {
            assert(!(forall|i: int| 0 <= i < x.len() ==> x[i] == y[i])) by {
                if forall|i: int| 0 <= i < x.len() ==> x[i] == y[i] {
                    assert(x =~= y);
                }
            }
            let e = choose|i: int| 0 <= i < x.len() && x[i] != y[i];
            lemma_first_difference_exists(x, y, e);
        } else {
            let m = if x.len() < y.len() { x.len() as int } else { y.len() as int };
            lemma_first_difference_exists(x, y, m);
        }
    }
    lemma_lex_texts_from(v, w, 0, d);
}

/// The position of a column's kind in the declaration order: integers, then floating-point
/// values, then text.
pub open spec fn kind_rank(c: &Column) -> int {
    match c {
        Column::Int(_) => 0,
        Column::Float(_) => 1,
        Column::String(_) => 2,
    }
}

/// The order of two columns: by kind first, then lexicographically by their entries
/// (floating-point entries as `f64` values, text by UTF-8 bytes); none when two floating-point
/// entries that decide are unordered.
pub open spec fn column_order(a: &Column, b: &Column) -> Option<Order> {
    match (a, b) {
        (Column::Int(v), Column::Int(w)) => Some(lex_ints(v@, w@, 0)),
        (Column::Float(v), Column::Float(w)) => lex_floats(v@, w@, 0),
        (Column::String(v), Column::String(w)) => Some(lex_texts(v@, w@, 0)),
        _ => Some(int_order(kind_rank(a), kind_rank(b))),
    }
}

fn usize_order(a: usize, b: usize) -> (r: Order)
    ensures
        r == int_order(a as int, b as int),
{
    if a < b {
        Order::Less
    } else if a > b {
        Order::Greater
    } else {
        Order::Equal
    }
}

fn float_order_of(a: u64, b: u64) -> (r: Option<Order>)
    ensures
        r == float_order(a, b),
        r == if is_nan_value(a) || is_nan_value(b) {
            None
        } else {
            Some(int_order(float_value(a), float_value(b)))
        },
{
    proof {
        lemma_float_order_by_value(a, b);
    }
    let a_nan = (a & 0x7ff0_0000_0000_0000u64) == 0x7ff0_0000_0000_0000u64 && (a
        & 0x000f_ffff_ffff_ffffu64) != 0;
    let b_nan = (b & 0x7ff0_0000_0000_0000u64) == 0x7ff0_0000_0000_0000u64 && (b
        & 0x000f_ffff_ffff_ffffu64) != 0;
    if a_nan || b_nan {
        None
    } else if float_bits_eq_of(a, b) {
        Some(Order::Equal)
    } else {
        let ka = total_order_key_of(a);
        let kb = total_order_key_of(b);
        if ka < kb {
            Some(Order::Less)
        } else if ka > kb {
            Some(Order::Greater)
        } else {
            Some(Order::Equal)
        }
    }
}

fn lex_ints_of(v: &Vec<i64>, w: &Vec<i64>) -> (r: Order)
    ensures
        r == lex_ints(v@, w@, 0),
{
    let mut i: usize = 0;
    while i < v.len() && i < w.len()
        invariant
            i <= v@.len(),
            i <= w@.len(),
            lex_ints(v@, w@, 0) == lex_ints(v@, w@, i as int),
        decreases v@.len() - i,
    {
        if v[i] < w[i] {
            return Order::Less;
        } else if v[i] > w[i] {
            return Order::Greater;
        }
        i = i + 1;
    }
    usize_order(v.len(), w.len())
}

fn lex_bytes_of(v: &[u8], w: &[u8]) -> (r: Order)
    ensures
        r == lex_bytes(v@, w@, 0),
{
    let mut i: usize = 0;
    while i < v.len() && i < w.len()
        invariant
            i <= v@.len(),
            i <= w@.len(),
            lex_bytes(v@, w@, 0) == lex_bytes(v@, w@, i as int),
        decreases v@.len() - i,
    {
        if v[i] < w[i] {
            return Order::Less;
        } else if v[i] > w[i] {
            return Order::Greater;
        }
        i = i + 1;
    }
    usize_order(v.len(), w.len())
}

fn lex_floats_of(v: &Vec<u64>, w: &Vec<u64>) -> (r: Option<Order>)
    ensures
        r == lex_floats(v@, w@, 0),
{
    let mut i: usize = 0;
    while i < v.len() && i < w.len()
        invariant
            i <= v@.len(),
            i <= w@.len(),
            lex_floats(v@, w@, 0) == lex_floats(v@, w@, i as int),
        decreases v@.len() - i,
    {
        let o = float_order_of(v[i], w[i]);
        match o {
            Some(Order::Equal) => {},
            _ => {
                return o;
            },
        }
        i = i + 1;
    }
    Some(usize_order(v.len(), w.len()))
}

fn lex_texts_of(v: &Vec<String>, w: &Vec<String>) -> (r: Order)
    ensures
        r == lex_texts(v@, w@, 0),
{
    let mut i: usize = 0;
    while i < v.len() && i < w.len()
        invariant
            i <= v@.len(),
            i <= w@.len(),
            lex_texts(v@, w@, 0) == lex_texts(v@, w@, i as int),
        decreases v@.len() - i,
    {
        let o = lex_bytes_of(v[i].as_str().as_bytes(), w[i].as_str().as_bytes());
        match o {
            Order::Equal => {},
            _ => {
                return o;
            },
        }
        i = i + 1;
    }
    usize_order(v.len(), w.len())
}

/// The order of two columns: by kind first, then lexicographically by their entries.
pub fn column_order_of(a: &Column, b: &Column) -> (r: Option<Order>)
    ensures
        r == column_order(a, b),
        match (a, b) {
            (Column::Int(v), Column::Int(w)) => r == Some(lex_ints(v@, w@, 0)),
            (Column::Float(v), Column::Float(w)) => r == lex_floats(v@, w@, 0),
            (Column::String(v), Column::String(w)) => r == Some(lex_texts(v@, w@, 0)),
            (Column::Int(_), _) => r == Some(Order::Less),
            (Column::String(_), _) => r == Some(Order::Greater),
            (Column::Float(_), Column::Int(_)) => r == Some(Order::Greater),
            (Column::Float(_), Column::String(_)) => r == Some(Order::Less),
        },
{
    match (a, b) {
        (Column::Int(v), Column::Int(w)) => Some(lex_ints_of(v, w)),
        (Column::Float(v), Column::Float(w)) => lex_floats_of(v, w),
        (Column::String(v), Column::String(w)) => Some(lex_texts_of(v, w)),
        (Column::Int(_), _) => Some(Order::Less),
        (Column::String(_), _) => Some(Order::Greater),
        (Column::Float(_), Column::Int(_)) => Some(Order::Greater),
        (Column::Float(_), Column::String(_)) => Some(Order::Less),
    }
}

/// `Ordering` for an `Order`.
pub open spec fn ordering_of(o: Option<Order>) -> Option<Ordering> {
    match o {
        Some(Order::Less) => Some(Ordering::Less),
        Some(Order::Equal) => Some(Ordering::Equal),
        Some(Order::Greater) => Some(Ordering::Greater),
        None => None,
    }
}

impl PartialOrd for Column {
    fn partial_cmp(&self, other: &Self) -> (r: Option<Ordering>) {
        match column_order_of(self, other) {
            Some(Order::Less) => Some(Ordering::Less),
            Some(Order::Equal) => Some(Ordering::Equal),
            Some(Order::Greater) => Some(Ordering::Greater),
            None => None,
        }
    }
}

impl vstd::std_specs::cmp::PartialOrdSpecImpl for Column {
    open spec fn obeys_partial_cmp_spec() -> bool {
        true
    }

    open spec fn partial_cmp_spec(&self, other: &Column) -> Option<Ordering> {
        ordering_of(column_order(self, other))
    }
}

} // verus!
