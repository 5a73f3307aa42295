use vstd::prelude::*;

use crate::stats::{Column, Dataset};

verus! {

/// A model that learns from a dataset and the column of answers to it, and predicts an integer
/// answer for a dataset.
pub trait Model {
    fn fit(&mut self, train_data: &Dataset, answer_data: &Column);

    fn predict(&self, data: &Dataset) -> i64;
}

} // verus!
