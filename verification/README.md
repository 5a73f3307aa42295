# laplace

A small math and statistics library: vectors, matrices and tensors; descriptive statistics;
columns and datasets; preprocessing steps and regression models.

`src/` is the verified core, written in Verus. It holds the linear algebra (generic over the
element type, with exact contracts for the integer types), the integer parts of the statistics
(minimum, maximum, range, sorting), the dataset of named columns and how it is built from CSV
text, and the choice of the nearest neighbours of a point. A floating-point cell of a column is stored as its IEEE 754 bit pattern,
so the logic that moves, orders and finds cells is verified without floating-point arithmetic.

`app/` holds what computes in floating point (means, variances, quantiles, correlations,
preprocessing transforms, the regression models, losses, numerical calculus and the
determinant), reading a cell as a floating-point number, reading files, and copies of the error types that implement
`std::error::Error`.

`tests/` runs the library on concrete values.
