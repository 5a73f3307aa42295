pub mod model;
mod neighbours;

pub use neighbours::{lemma_nearer_by_value, nearer, nearest_indices};

use vstd::prelude::*;

verus! {

/// The error of a model.
#[derive(Debug, Clone, Copy, PartialEq, Eq, Structural)]
pub enum ModelError {
    /// The input does not match the model's parameters.
    SizesNotMatchingParams,
    /// There are fewer or more answers than training rows.
    TrainAndAnswersSizesDiffer,
    /// There is no data.
    EmptyData,
    /// There are fewer or more weights than training rows.
    SizesNotMatchingWeights,
    /// The model has not been trained.
    ModelUntrained,
}

/// The result of a model operation.
pub type ModelResult<T> = Result<T, ModelError>;

/// How a nearest-neighbour model measures the distance between two points.
#[derive(Debug, Clone, Copy, PartialEq, Eq, Structural)]
pub enum DistanceMethod {
    Euclidean,
}

} // verus!
