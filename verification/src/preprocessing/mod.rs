mod polynomial;

pub use polynomial::PolynomialTransformation;

use vstd::prelude::*;

use crate::stats::Column;

verus! {

/// The error of a preprocessing step.
#[derive(Debug, Clone, Copy, PartialEq, Eq, Structural)]
pub enum PreprocessingError {
    /// There is no data to transform.
    EmptyData,
    /// The column has the wrong type for this step.
    InvalidColumnType,
    /// The step's constants are not set yet: `fit` has not run.
    UninitializedConstants,
    /// Some values break this step (such as non-positive values for Box-Cox).
    InvalidColumnValues,
    /// The dataset has a different number of columns than the step expects.
    MismatchedColumnCount,
    /// The dataset's columns cannot be read as numbers of matching sizes.
    MismatchedSizes,
}

/// The result of a preprocessing step.
pub type PreprocessingResult<T> = Result<T, PreprocessingError>;

/// A preprocessing step on a single column: `fit` learns the step's constants from a column,
/// `transform` applies them to a column.
pub trait Preprocessor {
    fn fit(&mut self, data: &Column) -> PreprocessingResult<()>;

    fn transform(&self, data: &Column) -> PreprocessingResult<Column>;
}

} // verus!
