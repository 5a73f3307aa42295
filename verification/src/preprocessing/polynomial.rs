use vstd::prelude::*;

use crate::preprocessing::{PreprocessingError, PreprocessingResult};
use crate::stats::Dataset;

verus! {

/// Polynomial features: column `i` of a dataset is expanded into its powers `1..=n`, where
/// `n` is the `i`-th exponent.
pub struct PolynomialTransformation {
    column_exponents: Vec<i32>,
}

impl PolynomialTransformation {
    /// The highest exponent for each column, in column order.
    pub closed spec fn exponents(&self) -> Seq<i32> {
        self.column_exponents@
    }

    /// A transformation with the given highest exponent per column.
    pub fn new(column_exponents: &[i32]) -> (r: Self)
        ensures
            r.exponents() == column_exponents@,
    {
        let mut v: Vec<i32> = Vec::new();
        let mut i: usize = 0;
        while i < column_exponents.len()
            invariant
                i <= column_exponents@.len(),
                v@ == column_exponents@.take(i as int),
            decreases column_exponents@.len() - i,
        {
            v.push(column_exponents[i]);
            i = i + 1;
            assert(v@ =~= column_exponents@.take(i as int));
        }
        assert(column_exponents@.take(i as int) =~= column_exponents@);
        PolynomialTransformation { column_exponents: v }
    }

    /// Checks that the dataset has one column per exponent; `MismatchedColumnCount` when not.
    pub fn fit(&mut self, data: &Dataset) -> (r: PreprocessingResult<()>)
        ensures
            final(self).exponents() == old(self).exponents(),
            data.entries().len() == old(self).exponents().len() ==> r == Ok::<(), PreprocessingError>(()),
            data.entries().len() != old(self).exponents().len() ==> r == Err::<(), PreprocessingError>(
                PreprocessingError::MismatchedColumnCount,
            ),
    {
        if data.len() != self.column_exponents.len() {
            return Err(PreprocessingError::MismatchedColumnCount);
        }
        Ok(())
    }

    /// The highest exponent for each column, in column order.
    pub fn column_exponents(&self) -> (r: &Vec<i32>)
        ensures
            r@ == self.exponents(),
    {
        &self.column_exponents
    }
}

} // verus!
