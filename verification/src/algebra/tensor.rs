use vstd::prelude::*;

verus! {

/// The error of a tensor operation.
#[derive(Debug, Clone, Copy, PartialEq, Eq, Structural)]
pub enum TensorError {
    /// The number of coordinates differs from the tensor's rank.
    MismatchingRank,
}

/// An n-dimensional array of elements, stored flat in row-major order, with its shape.
pub struct Tensor<'a, T> {
    data: Vec<T>,
    shape: &'a [usize],
}

/// `coords` address an element of a tensor of shape `shape`: one coordinate per dimension,
/// each below the extent of its dimension.
pub open spec fn valid_coords(shape: Seq<usize>, coords: Seq<usize>) -> bool {
    &&& coords.len() == shape.len()
    &&& forall|i: int| 0 <= i < shape.len() ==> #[trigger] coords[i] < shape[i]
}

/// The row-major offset of the first `k` coordinates within the first `k` dimensions:
/// `(..((c[0]) * s[1] + c[1]) * s[2] + ..) + c[k - 1]`.
pub open spec fn flat_offset(shape: Seq<usize>, coords: Seq<usize>, k: int) -> int
    decreases k,
{
    if k <= 0 {
        0
    } else {
        flat_offset(shape, coords, k - 1) * shape[k - 1] + coords[k - 1]
    }
}

/// The number of elements in the first `k` dimensions: `s[0] * s[1] * .. * s[k - 1]`.
pub open spec fn shape_size(shape: Seq<usize>, k: int) -> int
    decreases k,
{
    if k <= 0 {
        1
    } else {
        shape_size(shape, k - 1) * shape[k - 1]
    }
}

/// The row-major offset of a full set of coordinates.
pub open spec fn flat_index_of(shape: Seq<usize>, coords: Seq<usize>) -> int {
    flat_offset(shape, coords, shape.len() as int)
}

proof fn lemma_flat_offset_monotonic(shape: Seq<usize>, coords: Seq<usize>, k: int, n: int)
    requires
        valid_coords(shape, coords),
        0 <= k <= n <= shape.len(),
    ensures
        0 <= flat_offset(shape, coords, k) <= flat_offset(shape, coords, n),
    decreases n - k,
{
    if k < n {
        lemma_flat_offset_monotonic(shape, coords, k, n - 1);
        let f = flat_offset(shape, coords, n - 1);
        let s = shape[n - 1] as int;
        assert(coords[n - 1] < shape[n - 1]);
        assert(f <= f * s) by (nonlinear_arith)
            requires
                f >= 0,
                s >= 1,
        ;
    } else {
        lemma_flat_offset_nonneg(shape, coords, k);
    }
}

proof fn lemma_flat_offset_nonneg(shape: Seq<usize>, coords: Seq<usize>, k: int)
    requires
        0 <= k <= shape.len(),
        coords.len() == shape.len(),
    ensures
        0 <= flat_offset(shape, coords, k),
    decreases k,
{
    if k > 0 {
        lemma_flat_offset_nonneg(shape, coords, k - 1);
        let f = flat_offset(shape, coords, k - 1);
        let s = shape[k - 1] as int;
        assert(0 <= f * s) by (nonlinear_arith)
            requires
                f >= 0,
                s >= 0,
        ;
    }
}

proof fn lemma_flat_offset_bound(shape: Seq<usize>, coords: Seq<usize>, k: int)
    requires
        valid_coords(shape, coords),
        0 <= k <= shape.len(),
    ensures
        0 <= flat_offset(shape, coords, k) < shape_size(shape, k),
    decreases k,
{
    if k > 0 {
        lemma_flat_offset_bound(shape, coords, k - 1);
        let f = flat_offset(shape, coords, k - 1);
        let z = shape_size(shape, k - 1);
        let s = shape[k - 1] as int;
        let c = coords[k - 1] as int;
        assert(c < s);
        assert(0 <= f * s + c < z * s) by (nonlinear_arith)
            requires
                0 <= f < z,
                0 <= c < s,
        ;
    }
}

proof fn lemma_flat_offset_injective(shape: Seq<usize>, c1: Seq<usize>, c2: Seq<usize>, k: int)
    requires
        valid_coords(shape, c1),
        valid_coords(shape, c2),
        0 <= k <= shape.len(),
        flat_offset(shape, c1, k) == flat_offset(shape, c2, k),
    ensures
        forall|i: int| 0 <= i < k ==> #[trigger] c1[i] == c2[i],
    decreases k,
{
    if k > 0 {
        let s = shape[k - 1] as int;
        assert(c1[k - 1] < shape[k - 1] && c2[k - 1] < shape[k - 1]);
        let x = flat_offset(shape, c1, k);
        vstd::arithmetic::div_mod::lemma_fundamental_div_mod_converse(
            x,
            s,
            flat_offset(shape, c1, k - 1),
            c1[k - 1] as int,
        );
        vstd::arithmetic::div_mod::lemma_fundamental_div_mod_converse(
            x,
            s,
            flat_offset(shape, c2, k - 1),
            c2[k - 1] as int,
        );
        lemma_flat_offset_injective(shape, c1, c2, k - 1);
    }
}

/// Row-major layout stays in bounds: the flat index of valid coordinates is below the
/// number of elements that the shape describes.
pub proof fn lemma_flat_index_in_bounds(shape: Seq<usize>, coords: Seq<usize>)
    requires
        valid_coords(shape, coords),
    ensures
        0 <= flat_index_of(shape, coords) < shape_size(shape, shape.len() as int),
{
    lemma_flat_offset_bound(shape, coords, shape.len() as int);
}

/// Row-major layout never aliases: two valid coordinates with the same flat index are equal.
pub proof fn lemma_flat_index_injective(shape: Seq<usize>, c1: Seq<usize>, c2: Seq<usize>)
    requires
        valid_coords(shape, c1),
        valid_coords(shape, c2),
        flat_index_of(shape, c1) == flat_index_of(shape, c2),
    ensures
        c1 == c2,
{
    lemma_flat_offset_injective(shape, c1, c2, shape.len() as int);
    assert(c1 =~= c2);
}

/// For a rank-2 shape `[H, W]`, coordinates `[y, x]` sit at offset `x + W * y`.
pub proof fn lemma_flat_index_2d(shape: Seq<usize>, coords: Seq<usize>)
    requires
        shape.len() == 2,
        coords.len() == 2,
    ensures
        flat_index_of(shape, coords) == coords[1] + shape[1] * coords[0],
{
    assert(flat_offset(shape, coords, 0) == 0);
    assert(0 * shape[0] == 0);
    assert(flat_offset(shape, coords, 1) == coords[0]);
    assert(coords[0] * shape[1] == shape[1] * coords[0]) by (nonlinear_arith);
}

/// The number of elements spanned by one step in dimension `k - 1` when the last dimension
/// considered is `n - 1`: `s[k] * s[k + 1] * .. * s[n - 1]` (1 when `k >= n`).
pub open spec fn stride(shape: Seq<usize>, k: int, n: int) -> int
    decreases n - k,
{
    if k >= n {
        1
    } else {
        shape[k] * stride(shape, k + 1, n)
    }
}

/// The sum of `coords[k] * stride(shape, k + 1, n)` over the first `m` dimensions.
pub open spec fn weighted_sum(shape: Seq<usize>, coords: Seq<usize>, m: int, n: int) -> int
    decreases m,
{
    if m <= 0 {
        0
    } else {
        weighted_sum(shape, coords, m - 1, n) + coords[m - 1] * stride(shape, m, n)
    }
}

proof fn lemma_stride_extend(shape: Seq<usize>, k: int, n: int)
    requires
        0 <= k <= n - 1,
    ensures
        stride(shape, k, n) == stride(shape, k, n - 1) * shape[n - 1],
    decreases n - k,
{
    if k < n - 1 {
        lemma_stride_extend(shape, k + 1, n);
        let a = shape[k] as int;
        let b = stride(shape, k + 1, n - 1);
        let c = shape[n - 1] as int;
        assert(a * (b * c) == (a * b) * c) by (nonlinear_arith);
    } else {
        assert(stride(shape, n, n) == 1);
        assert(stride(shape, n - 1, n - 1) == 1);
    }
}

proof fn lemma_weighted_sum_extend(shape: Seq<usize>, coords: Seq<usize>, m: int, n: int)
    requires
        0 <= m <= n - 1,
    ensures
        weighted_sum(shape, coords, m, n) == weighted_sum(shape, coords, m, n - 1) * shape[n - 1],
    decreases m,
{
    if m > 0 {
        lemma_weighted_sum_extend(shape, coords, m - 1, n);
        lemma_stride_extend(shape, m, n);
        let w = weighted_sum(shape, coords, m - 1, n - 1);
        let c = coords[m - 1] as int;
        let t = stride(shape, m, n - 1);
        let s = shape[n - 1] as int;
        assert(w * s + c * (t * s) == (w + c * t) * s) by (nonlinear_arith);
    }
}

/// The row-major offset is the sum, over the dimensions, of each coordinate times the number of
/// elements that one step in its dimension spans: `sum_k c[k] * (s[k + 1] * .. * s[n - 1])`.
pub proof fn lemma_flat_index_sum_form(shape: Seq<usize>, coords: Seq<usize>, n: int)
    requires
        0 <= n <= shape.len(),
    ensures
        flat_offset(shape, coords, n) == weighted_sum(shape, coords, n, n),
    decreases n,
{
    if n > 0 {
        lemma_flat_index_sum_form(shape, coords, n - 1);
        lemma_weighted_sum_extend(shape, coords, n - 1, n);
        assert(stride(shape, n, n) == 1);
    }
}

impl<'a, T> Tensor<'a, T> {
    /// The elements, in row-major order.
    pub closed spec fn elements(&self) -> Seq<T> {
        self.data@
    }

    /// The extent of each dimension.
    pub closed spec fn dims(&self) -> Seq<usize> {
        self.shape@
    }

    /// An empty tensor of rank 0.
    pub fn new() -> (r: Self)
        ensures
            r.elements() == Seq::<T>::empty(),
            r.dims() == Seq::<usize>::empty(),
    {
        let empty: &[usize] = &[];
        let r = Tensor { data: Vec::new(), shape: empty };
        assert(r.dims() =~= Seq::<usize>::empty());
        r
    }

    /// The number of dimensions.
    pub fn rank(&self) -> (r: usize)
        ensures
            r == self.dims().len(),
    {
        self.shape.len()
    }

    /// The same elements viewed with the shape `new_shape`.
    pub fn reshape(self, new_shape: &'a [usize]) -> (r: Self)
        ensures
            r.elements() == self.elements(),
            r.dims() == new_shape@,
    {
        let mut t = self;
        t.shape = new_shape;
        t
    }

    /// Whether `coords` address an element of this tensor's shape.
    pub fn is_valid(&self, coords: &'a [usize]) -> (r: bool)
        ensures
            r == valid_coords(self.dims(), coords@),
    {
        if coords.len() != self.shape.len() {
            return false;
        }
        let mut i: usize = 0;
        while i < coords.len()
            invariant
                coords@.len() == self.shape@.len(),
                i <= coords@.len(),
                forall|k: int| 0 <= k < i ==> #[trigger] coords@[k] < self.shape@[k],
            decreases coords@.len() - i,
        {
            if coords[i] >= self.shape[i] {
                return false;
            }
            i = i + 1;
        }
        true
    }

    /// The position of the element at `coords` in the row-major element order.
    pub fn flat_index(&self, coords: &'a [usize]) -> (r: usize)
        requires
            valid_coords(self.dims(), coords@),
            flat_index_of(self.dims(), coords@) <= usize::MAX,
        ensures
            r == flat_index_of(self.dims(), coords@),
    {
        let mut idx: usize = 0;
        let mut i: usize = 0;
        while i < self.shape.len()
            invariant
                valid_coords(self.shape@, coords@),
                flat_index_of(self.shape@, coords@) <= usize::MAX,
                i <= self.shape@.len(),
                idx == flat_offset(self.shape@, coords@, i as int),
            decreases self.shape@.len() - i,
        {
            proof {
                lemma_flat_offset_monotonic(self.shape@, coords@, i + 1, self.shape@.len() as int);
                lemma_flat_offset_nonneg(self.shape@, coords@, i as int);
                let f = idx as int;
                let s = self.shape@[i as int] as int;
                let c = coords@[i as int] as int;
                assert(f * s <= f * s + c);
            }
            idx = idx * self.shape[i] + coords[i];
            i = i + 1;
        }
        idx
    }

    /// The element at `coords`.
    pub fn get(&self, coords: &'a [usize]) -> (r: &T)
        requires
            valid_coords(self.dims(), coords@),
            flat_index_of(self.dims(), coords@) < self.elements().len(),
        ensures
            *r == self.elements()[flat_index_of(self.dims(), coords@)],
    {
        let n = self.data.len();
        assert(flat_index_of(self.dims(), coords@) < n);
        let idx = self.flat_index(coords);
        &self.data[idx]
    }

    /// Mutable access to the element at `coords`.
    pub fn get_mut(&'a mut self, coords: &'a [usize]) -> (r: &'a mut T)
        requires
            valid_coords(old(self).dims(), coords@),
            flat_index_of(old(self).dims(), coords@) < old(self).elements().len(),
        ensures
            *r == old(self).elements()[flat_index_of(old(self).dims(), coords@)],
            final(self).dims() == old(self).dims(),
            final(self).elements() == old(self).elements().update(
                flat_index_of(old(self).dims(), coords@),
                *final(r),
            ),
    {
        let n = self.data.len();
        assert(flat_index_of(self.dims(), coords@) < n);
        let idx = self.flat_index(coords);
        &mut self.data[idx]
    }
}

} // verus!
