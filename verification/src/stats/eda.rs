use vstd::prelude::*;
use vstd::std_specs::cmp::PartialOrdSpec;

use crate::stats::central_tendency;
use crate::stats::central_tendency::{fold_max, fold_min, follows_order_spec};
use crate::stats::column::ColumnError;

verus! {

/// The smallest element, scanning from the front and keeping the first of equal elements;
/// `Empty` for empty data.
pub fn min<T: Copy + PartialOrd>(data: &[T]) -> (r: Result<T, ColumnError>)
    ensures
        data@.len() == 0 ==> r == Err::<T, ColumnError>(ColumnError::Empty),
        data@.len() > 0 ==> (r matches Ok(m) && data@.contains(m) && (follows_order_spec::<T>()
            ==> m == fold_min(data@, data@.len() as int))),
{
    match central_tendency::min(data) {
        Ok(m) => Ok(m),
        Err(_) => Err(ColumnError::Empty),
    }
}

/// The greatest element, scanning from the front and keeping the first of equal elements;
/// `Empty` for empty data.
pub fn max<T: Copy + PartialOrd>(data: &[T]) -> (r: Result<T, ColumnError>)
    ensures
        data@.len() == 0 ==> r == Err::<T, ColumnError>(ColumnError::Empty),
        data@.len() > 0 ==> (r matches Ok(m) && data@.contains(m) && (follows_order_spec::<T>()
            ==> m == fold_max(data@, data@.len() as int))),
{
    match central_tendency::max(data) {
        Ok(m) => Ok(m),
        Err(_) => Err(ColumnError::Empty),
    }
}

} // verus!
