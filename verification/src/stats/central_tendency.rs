use std::ops::Sub;
use vstd::prelude::*;
use vstd::std_specs::cmp::{PartialOrdIs, PartialOrdSpec};
use vstd::std_specs::ops::SubSpec;

use crate::stats::{EDAError, EDAResult};

verus! {

/// `T`'s comparison operators behave as its order specification says (true of the integer
/// types).
pub open spec fn follows_order_spec<T: PartialOrd>() -> bool {
    T::obeys_partial_cmp_spec()
}

/// The running minimum of `s[0..k]` as a scan from the front computes it: start with `s[0]`
/// and take each later element that compares less than the minimum so far.
pub open spec fn fold_min<T: PartialOrd>(s: Seq<T>, k: int) -> T
    decreases k,
{
    if k <= 1 {
        s[0]
    } else {
        let m = fold_min(s, k - 1);
        if s[k - 1].is_lt(&m) {
            s[k - 1]
        } else {
            m
        }
    }
}

/// The running maximum of `s[0..k]` as a scan from the front computes it: start with `s[0]`
/// and take each later element that compares greater than the maximum so far.
pub open spec fn fold_max<T: PartialOrd>(s: Seq<T>, k: int) -> T
    decreases k,
{
    if k <= 1 {
        s[0]
    } else {
        let m = fold_max(s, k - 1);
        if s[k - 1].is_gt(&m) {
            s[k - 1]
        } else {
            m
        }
    }
}

/// For integers, the minimum that `min` computes is an element of the data and no element
/// is smaller.
pub proof fn lemma_min_is_least(s: Seq<i64>, k: int)
    requires
        1 <= k <= s.len(),
    ensures
        exists|w: int| 0 <= w < k && #[trigger] s[w] == fold_min(s, k),
        forall|i: int| 0 <= i < k ==> fold_min(s, k) <= #[trigger] s[i],
    decreases k,
{
    if k > 1 {
        lemma_min_is_least(s, k - 1);
        let w = choose|w: int| 0 <= w < k - 1 && #[trigger] s[w] == fold_min(s, k - 1);
        let m = fold_min(s, k - 1);
        if s[k - 1].is_lt(&m) {
            assert(s[k - 1] == fold_min(s, k));
        } else {
            assert(s[w] == fold_min(s, k));
        }
    } else {
        assert(s[0] == s[0]);
    }
}

/// For integers, the maximum that `max` computes is an element of the data and no element
/// is greater.
pub proof fn lemma_max_is_greatest(s: Seq<i64>, k: int)
    requires
        1 <= k <= s.len(),
    ensures
        exists|w: int| 0 <= w < k && #[trigger] s[w] == fold_max(s, k),
        forall|i: int| 0 <= i < k ==> #[trigger] s[i] <= fold_max(s, k),
    decreases k,
{
    if k > 1 {
        lemma_max_is_greatest(s, k - 1);
        let w = choose|w: int| 0 <= w < k - 1 && #[trigger] s[w] == fold_max(s, k - 1);
        let m = fold_max(s, k - 1);
        if s[k - 1].is_gt(&m) {
            assert(s[k - 1] == fold_max(s, k));
        } else {
            assert(s[w] == fold_max(s, k));
        }
    } else {
        assert(s[0] == s[0]);
    }
}

/// `x < y` by `T`'s order specification.
pub open spec fn less<T: PartialOrd>(x: T, y: T) -> bool {
    x.is_lt(&y)
}

/// `x > y` by `T`'s order specification.
pub open spec fn greater<T: PartialOrd>(x: T, y: T) -> bool {
    x.is_gt(&y)
}

/// `<` is a strict order on `T` and `>` is its converse: never `x < x`, `x < y < z` gives
/// `x < z`, and `x > y` exactly when `y < x` (true of the integer types, and of floating-point
/// values other than NaN).
pub open spec fn strict_order<T: PartialOrd>() -> bool {
    &&& forall|x: T| !(#[trigger] less(x, x))
    &&& forall|x: T, y: T, z: T| #[trigger] less(x, y) && #[trigger] less(y, z) ==> less(x, z)
    &&& forall|x: T, y: T| #[trigger] greater(x, y) <==> less(y, x)
}

/// When `<` is a strict order, the minimum that `min` computes is an element of the data and no
/// element is less than it.
pub proof fn lemma_min_is_least_in_order<T: PartialOrd>(s: Seq<T>, k: int)
    requires
        1 <= k <= s.len(),
        strict_order::<T>(),
    ensures
        exists|w: int| 0 <= w < k && #[trigger] s[w] == fold_min(s, k),
        forall|i: int| 0 <= i < k ==> !less(#[trigger] s[i], fold_min(s, k)),
    decreases k,
{
    if k > 1 {
        lemma_min_is_least_in_order(s, k - 1);
        let w = choose|w: int| 0 <= w < k - 1 && #[trigger] s[w] == fold_min(s, k - 1);
        let m = fold_min(s, k - 1);
        if less(s[k - 1], m) {
            assert(s[k - 1] == fold_min(s, k));
            assert forall|i: int| 0 <= i < k implies !less(#[trigger] s[i], fold_min(s, k)) by {
                if i < k - 1 && less(s[i], s[k - 1]) {
                    assert(!less(s[i], m));
                }
                assert(!less(s[k - 1], s[k - 1]));
            }
        } else {
            assert(s[w] == fold_min(s, k));
            assert forall|i: int| 0 <= i < k implies !less(#[trigger] s[i], fold_min(s, k)) by {
                if i < k - 1 {
                    assert(!less(s[i], m));
                }
            }
        }
    } else {
        assert(s[0] == s[0]);
        assert(!less(s[0], s[0]));
    }
}

/// When `<` is a strict order, the maximum that `max` computes is an element of the data and no
/// element is greater than it.
pub proof fn lemma_max_is_greatest_in_order<T: PartialOrd>(s: Seq<T>, k: int)
    requires
        1 <= k <= s.len(),
        strict_order::<T>(),
    ensures
        exists|w: int| 0 <= w < k && #[trigger] s[w] == fold_max(s, k),
        forall|i: int| 0 <= i < k ==> !less(fold_max(s, k), #[trigger] s[i]),
    decreases k,
{
    if k > 1 {
        lemma_max_is_greatest_in_order(s, k - 1);
        let w = choose|w: int| 0 <= w < k - 1 && #[trigger] s[w] == fold_max(s, k - 1);
        let m = fold_max(s, k - 1);
        if greater(s[k - 1], m) {
            assert(less(m, s[k - 1]));
            assert(s[k - 1] == fold_max(s, k));
            assert forall|i: int| 0 <= i < k implies !less(fold_max(s, k), #[trigger] s[i]) by {
                if i < k - 1 && less(s[k - 1], s[i]) {
                    assert(!less(m, s[i]));
                }
                assert(!less(s[k - 1], s[k - 1]));
            }
        } else {
            assert(!less(m, s[k - 1]));
            assert(s[w] == fold_max(s, k));
            assert forall|i: int| 0 <= i < k implies !less(fold_max(s, k), #[trigger] s[i]) by {
                if i < k - 1 {
                    assert(!less(m, s[i]));
                }
            }
        }
    } else {
        assert(s[0] == s[0]);
        assert(!less(s[0], s[0]));
    }
}

/// The integer types meet `strict_order`, so the two laws above hold for `i64`.
pub proof fn lemma_i64_strict_order()
    ensures
        strict_order::<i64>(),
{
}

/// The smallest element, scanning from the front and keeping the first of equal elements;
/// `EmptyData` for empty data.
pub fn min<T: Copy + PartialOrd>(data: &[T]) -> (r: EDAResult<T>)
    ensures
        data@.len() == 0 ==> r == Err::<T, EDAError>(EDAError::EmptyData),
        data@.len() > 0 ==> (r matches Ok(m) && data@.contains(m) && (follows_order_spec::<T>()
            ==> m == fold_min(data@, data@.len() as int))),
{
    if data.len() == 0 {
        return Err(EDAError::EmptyData);
    }
    let mut min: T = data[0];
    let mut i: usize = 1;
    while i < data.len()
        invariant
            1 <= i <= data@.len(),
            data@.contains(min),
            follows_order_spec::<T>() ==> min == fold_min(data@, i as int),
        decreases data@.len() - i,
    {
        let x = data[i];
        if x < min {
            min = x;
        }
        i = i + 1;
    }
    Ok(min)
}

/// The greatest element, scanning from the front and keeping the first of equal elements;
/// `EmptyData` for empty data.
pub fn max<T: Copy + PartialOrd>(data: &[T]) -> (r: EDAResult<T>)
    ensures
        data@.len() == 0 ==> r == Err::<T, EDAError>(EDAError::EmptyData),
        data@.len() > 0 ==> (r matches Ok(m) && data@.contains(m) && (follows_order_spec::<T>()
            ==> m == fold_max(data@, data@.len() as int))),
{
    if data.len() == 0 {
        return Err(EDAError::EmptyData);
    }
    let mut max: T = data[0];
    let mut i: usize = 1;
    while i < data.len()
        invariant
            1 <= i <= data@.len(),
            data@.contains(max),
            follows_order_spec::<T>() ==> max == fold_max(data@, i as int),
        decreases data@.len() - i,
    {
        let x = data[i];
        if x > max {
            max = x;
        }
        i = i + 1;
    }
    Ok(max)
}

/// The maximum minus the minimum; `EmptyData` for empty data.
pub fn range<T: Copy + PartialOrd + Sub<Output = T>>(data: &[T]) -> (r: EDAResult<T>)
    requires
        data@.len() > 0 && follows_order_spec::<T>() ==> fold_max(data@, data@.len() as int).sub_req(
            fold_min(data@, data@.len() as int),
        ),
        data@.len() > 0 && !follows_order_spec::<T>() ==> forall|a: T, b: T|
            data@.contains(a) && data@.contains(b) ==> #[trigger] a.sub_req(b),
    ensures
        data@.len() == 0 ==> r == Err::<T, EDAError>(EDAError::EmptyData),
        data@.len() > 0 ==> (r matches Ok(d) && exists|hi: T, lo: T|
            #![trigger data@.contains(hi), data@.contains(lo)]
            data@.contains(hi) && data@.contains(lo) && call_ensures(T::sub, (hi, lo), d) && (
            follows_order_spec::<T>() ==> hi == fold_max(data@, data@.len() as int) && lo
                == fold_min(data@, data@.len() as int))),
        data@.len() > 0 && follows_order_spec::<T>() && T::obeys_sub_spec() ==> r == Ok::<
            T,
            EDAError,
        >(fold_max(data@, data@.len() as int).sub_spec(fold_min(data@, data@.len() as int))),
{
    let hi = match max(data) {
        Ok(v) => v,
        Err(e) => return Err(e),
    };
    let lo = match min(data) {
        Ok(v) => v,
        Err(e) => return Err(e),
    };
    let d = hi - lo;
    assert(data@.contains(hi) && data@.contains(lo) && call_ensures(T::sub, (hi, lo), d));
    Ok(d)
}

} // verus!
