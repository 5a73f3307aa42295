mod central_tendency;
mod column;
mod column_order;
mod csv_text;
mod dataset;
mod drop_law;
mod float_model;
pub mod eda;
mod sorting;

pub use central_tendency::{
    fold_max, fold_min, follows_order_spec, greater, lemma_i64_strict_order, lemma_max_is_greatest,
    lemma_max_is_greatest_in_order, lemma_min_is_least, lemma_min_is_least_in_order, less, max, min,
    range, strict_order,
};
pub use column::{
    column_len, columns_equal, is_sorted_column, lemma_float_columns_equal_by_value, lemma_sorted_column_unique, same_entries, Column,
    ColumnError, ColumnResult, Value,
};
pub use column_order::{
    column_order, column_order_of, float_order, int_order, lemma_float_order_by_value, lemma_lex_bytes_first_difference,
    lemma_lex_floats_first_difference, lemma_lex_ints_first_difference, lemma_lex_texts_first_difference, kind_rank, lex_bytes, lex_floats, lex_ints,
    lex_texts, ordering_of, text_order, Order,
};
pub use csv_text::{
    csv_table, dataset_from_columns, decimal_value, i64_reading, i64_readings, integer_text_value,
    is_decimal_digit, read_csv_columns, texts,
};
pub use dataset::{
    all_some, columns_to_rows, dropped, infer_column, inferred_column, is_cell_of, lemma_cell_is_entry_at, lemma_added_column_is_found,
    lemma_drop_removes_exactly, names_of, position_of, Dataset, DatasetError, DatasetResult,
};
pub use drop_law::{kept, lemma_drop_keeps_the_rest_in_order};
pub use float_model::{
    exponent_field, float_value, fraction_field, is_nan_value, lemma_fields, lemma_float_eq_is_value_eq, lemma_key_fields,
    lemma_key_follows_value, lemma_total_order_ascends_by_value, magnitude_field, scaled_magnitude, sign_bit,
};
pub use sorting::{
    ascending, ascending_total_order, float_bits_eq, float_bits_eq_of, is_nan_bits, is_zero_bits,
    lemma_total_order_key_injective, sort_ascending,
    sort_total_order, total_order_key,
    total_order_key_of,
};

use vstd::prelude::*;

verus! {

/// The error of a descriptive statistic ("mean", "max", ...).
#[derive(Debug, Clone, PartialEq)]
pub enum EDAError {
    /// The data is empty.
    EmptyData,
    /// Two pieces of data that must have the same length do not.
    DifferentSizes,
    /// A parameter is out of its range; the message says which.
    InvalidParameter { message: String },
    /// The data has the wrong type for the statistic.
    WrongType,
}

/// The result of a descriptive statistic.
pub type EDAResult<T> = Result<T, EDAError>;

} // verus!
