mod matrix;
mod tensor;
mod vector;

pub use matrix::{
    column_of, is_transpose, lemma_column_is_transposed_row, lemma_default_matrix_is_zero,
    lemma_matrix_add_then_sub, lemma_matrix_ext, lemma_matrix_ne, lemma_matrix_shape, lemma_product_entry_sums, lemma_product_transpose,
    lemma_read_after_write, lemma_transpose_involution, product_entry, product_fits, Matrix,
    MatrixError, MatrixResult,
};
pub use tensor::{
    flat_index_of, flat_offset, lemma_flat_index_2d, lemma_flat_index_in_bounds,
    lemma_flat_index_sum_form, stride, weighted_sum,
    lemma_flat_index_injective, shape_size, valid_coords, Tensor, TensorError,
};
pub use vector::{
    dot_fits, dot_upto, lemma_add_then_sub, lemma_dot_adds_last, lemma_dot_is_sum_of_products, lemma_dot_unit_vector,
    sum_of_products, lemma_default_is_zero, lemma_dot_symmetric, lemma_vector_ne,
    lemma_vector_ext, lemma_vector_len, Vector,
};
