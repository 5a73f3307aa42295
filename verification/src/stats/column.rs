use vstd::prelude::*;

use crate::stats::sorting::{
    ascending, ascending_total_order, float_bits_eq, float_bits_eq_of,
    lemma_total_order_key_injective, sort_ascending, sort_total_order, total_order_key,
};
use crate::stats::float_model::{float_value, is_nan_value, lemma_float_eq_is_value_eq};
use vstd::relations::{sorted_by, total_ordering};

verus! {

/// The error of a column operation.
#[derive(Debug, Clone, Copy, PartialEq, Eq, Structural)]
pub enum ColumnError {
    /// The column has no data.
    Empty,
    /// Two columns that must have the same length do not.
    NonMatchingSizes,
    /// The column is not numeric, or has no entry at the requested index.
    NonNumerical,
    /// A parameter is out of its range.
    InvalidInput,
}

/// The result of a column operation.
pub type ColumnResult<T> = Result<T, ColumnError>;

/// A single cell of a column. A floating-point cell holds the IEEE 754 binary64 bit pattern
/// of its value (`f64::to_bits`).
#[derive(Clone, Debug)]
pub enum Value {
    Int(i64),
    Float(u64),
    String(String),
}

/// A column of data of a single type. A floating-point column holds the IEEE 754 binary64
/// bit pattern of each value (`f64::to_bits`).
#[derive(Debug, Clone)]
pub enum Column {
    Int(Vec<i64>),
    Float(Vec<u64>),
    String(Vec<String>),
}

/// The number of entries of a column.
pub open spec fn column_len(c: &Column) -> nat {
    match c {
        Column::Int(v) => v@.len(),
        Column::Float(v) => v@.len(),
        Column::String(v) => v@.len(),
    }
}

/// `after` is `before` sorted: integers ascending, floating-point values in IEEE 754 total
/// order, and strings left as they are.
pub open spec fn is_sorted_column(before: &Column, after: &Column) -> bool {
    match (before, after) {
        (Column::Int(v), Column::Int(w)) => ascending(w@) && w@.to_multiset() == v@.to_multiset(),
        (Column::Float(v), Column::Float(w)) => ascending_total_order(w@) && w@.to_multiset()
            == v@.to_multiset(),
        (Column::String(v), Column::String(w)) => w@ == v@,
        _ => false,
    }
}

/// `a` and `b` are columns of the same kind with the same entries.
pub open spec fn same_entries(a: &Column, b: &Column) -> bool {
    match (a, b) {
        (Column::Int(v), Column::Int(w)) => v@ == w@,
        (Column::Float(v), Column::Float(w)) => v@ == w@,
        (Column::String(v), Column::String(w)) => v@ == w@,
        _ => false,
    }
}

/// Sorting a column has exactly one possible outcome.
pub proof fn lemma_sorted_column_unique(before: &Column, a: &Column, b: &Column)
    requires
        is_sorted_column(before, a),
        is_sorted_column(before, b),
    ensures
        same_entries(a, b),
{
    match (before, a, b) {
        (Column::Int(_), Column::Int(v), Column::Int(w)) => {
            let leq = |x: i64, y: i64| x <= y;
            assert(total_ordering(leq));
            assert(sorted_by(v@, leq));
            assert(sorted_by(w@, leq));
            vstd::seq_lib::lemma_sorted_unique(v@, w@, leq);
        },
        (Column::Float(_), Column::Float(v), Column::Float(w)) => {
            let leq = |x: u64, y: u64| total_order_key(x) <= total_order_key(y);
            assert forall|x: u64, y: u64| #[trigger] leq(x, y) && #[trigger] leq(y, x) implies x == y by {
                lemma_total_order_key_injective(x, y);
            }
            assert(total_ordering(leq));
            assert(sorted_by(v@, leq));
            assert(sorted_by(w@, leq));
            vstd::seq_lib::lemma_sorted_unique(v@, w@, leq);
        },
        _ => {},
    }
}

/// Two columns are equal when they are of the same kind, have the same length, and their entries
/// are pairwise equal; floating-point entries compare as `f64` values do (`0.0 == -0.0`, and a
/// NaN equals nothing).
pub open spec fn columns_equal(a: &Column, b: &Column) -> bool {
    match (a, b) {
        (Column::Int(v), Column::Int(w)) => v@ == w@,
        (Column::Float(v), Column::Float(w)) => v@.len() == w@.len() && forall|i: int|
            0 <= i < v@.len() ==> float_bits_eq(#[trigger] v@[i], w@[i]),
        (Column::String(v), Column::String(w)) => v@.len() == w@.len() && forall|i: int|
            0 <= i < v@.len() ==> (#[trigger] v@[i])@ == w@[i]@,
        _ => false,
    }
}

/// Two float columns are equal exactly when they have the same length and, cell by cell, hold the
/// same number, neither of them NaN: the same bit pattern, or zeros of either sign.
pub proof fn lemma_float_columns_equal_by_value(a: &Column, b: &Column)
    ensures
        match (a, b) {
            (Column::Float(v), Column::Float(w)) => columns_equal(a, b) == (v@.len() == w@.len() && forall|i: int|
                0 <= i < v@.len() ==> !is_nan_value(#[trigger] v@[i]) && !is_nan_value(w@[i]) && float_value(v@[i])
                    == float_value(w@[i])),
            _ => true,
        },
{
    match (a, b) {
        (Column::Float(v), Column::Float(w)) => {
            assert forall|i: int| 0 <= i < v@.len() && i < w@.len() implies float_bits_eq(#[trigger] v@[i], w@[i])
                == (!is_nan_value(v@[i]) && !is_nan_value(w@[i]) && float_value(v@[i]) == float_value(w@[i])) by {
                lemma_float_eq_is_value_eq(v@[i], w@[i]);
            }
        },
        _ => {},
    }
}

impl PartialEq for Column {
    fn eq(&self, other: &Self) -> (r: bool) {
        match (self, other) {
            (Column::Int(v), Column::Int(w)) => int_cells_equal(v, w),
            (Column::Float(v), Column::Float(w)) => float_cells_equal(v, w),
            (Column::String(v), Column::String(w)) => text_cells_equal(v, w),
            _ => false,
        }
    }
}

fn int_cells_equal(v: &Vec<i64>, w: &Vec<i64>) -> (r: bool)
    ensures
        r == (v@ == w@),
{
    if v.len() != w.len() {
        return false;
    }
    let mut i: usize = 0;
    while i < v.len()
        invariant
            v@.len() == w@.len(),
            i <= v@.len(),
            forall|k: int| 0 <= k < i ==> #[trigger] v@[k] == w@[k],
        decreases v@.len() - i,
    {
        if v[i] != w[i] {
            assert(v@[i as int] != w@[i as int]);
            return false;
        }
        i = i + 1;
    }
    assert(v@ =~= w@);
    true
}

fn float_cells_equal(v: &Vec<u64>, w: &Vec<u64>) -> (r: bool)
    ensures
        r == (v@.len() == w@.len() && forall|i: int|
            0 <= i < v@.len() ==> float_bits_eq(#[trigger] v@[i], w@[i])),
{
    if v.len() != w.len() {
        return false;
    }
    let mut i: usize = 0;
    while i < v.len()
        invariant
            v@.len() == w@.len(),
            i <= v@.len(),
            forall|k: int| 0 <= k < i ==> float_bits_eq(#[trigger] v@[k], w@[k]),
        decreases v@.len() - i,
    {
        if !float_bits_eq_of(v[i], w[i]) {
            assert(!float_bits_eq(v@[i as int], w@[i as int]));
            return false;
        }
        i = i + 1;
    }
    true
}

fn text_cells_equal(v: &Vec<String>, w: &Vec<String>) -> (r: bool)
    ensures
        r == (v@.len() == w@.len() && forall|i: int| 0 <= i < v@.len() ==> (#[trigger] v@[i])@ == w@[i]@),
{
    if v.len() != w.len() {
        return false;
    }
    let mut i: usize = 0;
    while i < v.len()
        invariant
            v@.len() == w@.len(),
            i <= v@.len(),
            forall|k: int| 0 <= k < i ==> (#[trigger] v@[k])@ == w@[k]@,
        decreases v@.len() - i,
    {
        if !(v[i] == w[i]) {
            assert(v@[i as int]@ != w@[i as int]@);
            return false;
        }
        i = i + 1;
    }
    true
}

impl vstd::std_specs::cmp::PartialEqSpecImpl for Column {
    open spec fn obeys_eq_spec() -> bool {
        true
    }

    open spec fn eq_spec(&self, other: &Column) -> bool {
        columns_equal(self, other)
    }
}

impl Column {
    /// The number of entries.
    pub fn len(&self) -> (r: usize)
        ensures
            r == column_len(self),
    {
        match self {
            Column::Int(v) => v.len(),
            Column::Float(v) => v.len(),
            Column::String(v) => v.len(),
        }
    }

    /// The column sorted: integers ascending, floating-point values in IEEE 754 total order
    /// (as `f64::total_cmp` orders them); a string column is returned unchanged.
    pub fn sort(self) -> (r: Self)
        ensures
            is_sorted_column(&self, &r),
            match r {
                Column::Float(w) => forall|i: int, j: int|
                    0 <= i < j < w@.len() && !is_nan_value(w@[i]) && !is_nan_value(w@[j]) ==> float_value(
                        #[trigger] w@[i],
                    ) <= float_value(#[trigger] w@[j]),
                _ => true,
            },
    {
        match self {
            Column::Int(v) => {
                let mut w = v;
                sort_ascending(&mut w);
                Column::Int(w)
            },
            Column::Float(v) => {
                let mut w = v;
                sort_total_order(&mut w);
                Column::Float(w)
            },
            Column::String(v) => Column::String(v),
        }
    }

    /// The cell at `idx`; `NonNumerical` when `idx` is past the end.
    pub fn get(&self, idx: usize) -> (r: ColumnResult<Value>)
        ensures
            idx >= column_len(self) ==> r == Err::<Value, ColumnError>(ColumnError::NonNumerical),
            idx < column_len(self) ==> match (self, r) {
                (Column::Int(v), Ok(Value::Int(x))) => x == v@[idx as int],
                (Column::Float(v), Ok(Value::Float(x))) => x == v@[idx as int],
                (Column::String(v), Ok(Value::String(x))) => x@ == v@[idx as int]@,
                _ => false,
            },
    {
        match self {
            Column::Int(v) => {
                if idx >= v.len() {
                    return Err(ColumnError::NonNumerical);
                }
                Ok(Value::Int(v[idx]))
            },
            Column::Float(v) => {
                if idx >= v.len() {
                    return Err(ColumnError::NonNumerical);
                }
                Ok(Value::Float(v[idx]))
            },
            Column::String(v) => {
                if idx >= v.len() {
                    return Err(ColumnError::NonNumerical);
                }
                Ok(Value::String(v[idx].clone()))
            },
        }
    }
}

} // verus!
