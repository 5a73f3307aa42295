use std::ops::{Add, Mul, Sub};
use vstd::prelude::*;
use vstd::std_specs::ops::{AddSpec, MulSpec, SubSpec};
use vstd::std_specs::cmp::PartialEqSpec;

use crate::algebra::vector::{
    dot_fits, dot_upto, lemma_dot_is_sum_of_products, lemma_dot_symmetric, lemma_vector_len, sum_of_products, Vector,
};

verus! {

broadcast use {vstd::array::group_array_axioms, lemma_vector_len};

/// The error of a matrix access or operation.
#[derive(Debug, Clone, Copy, PartialEq, Eq, Structural)]
pub enum MatrixError {
    /// An index or a dimension does not fit the matrix.
    MismatchingDimensions,
}

/// The result of a fallible matrix operation.
pub type MatrixResult<T> = Result<T, MatrixError>;

/// A `ROWS` x `COLS` matrix stored row by row.
#[derive(Debug, Clone)]
pub struct Matrix<T, const ROWS: usize, const COLS: usize> {
    data: [[T; COLS]; ROWS],
}

impl<T, const ROWS: usize, const COLS: usize> View for Matrix<T, ROWS, COLS> {
    type V = Seq<Seq<T>>;

    /// The rows of the matrix, each as the sequence of its entries.
    closed spec fn view(&self) -> Seq<Seq<T>> {
        Seq::new(ROWS as nat, |i: int| self.data[i]@)
    }
}

/// A matrix has `ROWS` rows of `COLS` entries each.
pub broadcast proof fn lemma_matrix_shape<T, const ROWS: usize, const COLS: usize>(
    m: Matrix<T, ROWS, COLS>,
)
    ensures
        #[trigger] m@.len() == ROWS,
        forall|i: int| 0 <= i < ROWS ==> (#[trigger] m@[i]).len() == COLS,
{
}

/// Two matrices with the same entries are the same matrix.
pub proof fn lemma_matrix_ext<T, const ROWS: usize, const COLS: usize>(
    a: Matrix<T, ROWS, COLS>,
    b: Matrix<T, ROWS, COLS>,
)
    requires
        forall|i: int, j: int| 0 <= i < ROWS && 0 <= j < COLS ==> #[trigger] a@[i][j] == b@[i][j],
    ensures
        a == b,
{
    assert forall|i: int| 0 <= i < ROWS implies #[trigger] a.data[i] == b.data[i] by {
        assert(a.data[i] =~= b.data[i]) by {
            assert forall|j: int| 0 <= j < COLS implies a.data[i][j] == b.data[i][j] by {
                assert(a@[i][j] == b@[i][j]);
            }
        }
    }
    assert(a.data =~= b.data);
}

/// `b` is the transpose of the `rows` x `cols` matrix `a`: entry `(j, i)` of `b` is entry
/// `(i, j)` of `a`.
pub open spec fn is_transpose<T>(a: Seq<Seq<T>>, b: Seq<Seq<T>>, rows: int, cols: int) -> bool {
    forall|i: int, j: int| 0 <= i < rows && 0 <= j < cols ==> #[trigger] b[j][i] == a[i][j]
}

/// Column `j` of a matrix given by its rows.
pub open spec fn column_of<T>(rows: Seq<Seq<T>>, j: int) -> Seq<T> {
    Seq::new(rows.len(), |i: int| rows[i][j])
}

impl<T, const ROWS: usize, const COLS: usize> From<[[T; COLS]; ROWS]> for Matrix<T, ROWS, COLS> {
    /// The matrix whose rows are the given arrays.
    fn from(value: [[T; COLS]; ROWS]) -> (r: Self)
        ensures
            forall|i: int, j: int| 0 <= i < ROWS && 0 <= j < COLS ==> #[trigger] r@[i][j] == value[i][j],
    {
        Matrix { data: value }
    }
}

impl<T, const ROWS: usize, const COLS: usize> vstd::std_specs::convert::FromSpecImpl<[[T; COLS]; ROWS]> for Matrix<T, ROWS, COLS> {
    open spec fn obeys_from_spec() -> bool {
        true
    }

    closed spec fn from_spec(v: [[T; COLS]; ROWS]) -> Self {
        Matrix { data: v }
    }
}

impl<T: Default + Copy, const ROWS: usize, const COLS: usize> Default for Matrix<T, ROWS, COLS> {
    /// The matrix whose every entry is `T::default()` (the zero matrix for the integer types).
    fn default() -> (r: Self)
        ensures
            forall|i: int, j: int|
                0 <= i < ROWS && 0 <= j < COLS ==> call_ensures(T::default, (), #[trigger] r@[i][j]),
            forall|i: int, j: int, k: int, l: int|
                0 <= i < ROWS && 0 <= j < COLS && 0 <= k < ROWS && 0 <= l < COLS ==> #[trigger] r@[i][j]
                    == #[trigger] r@[k][l],
    {
        let z = T::default();
        let row: [T; COLS] = [z; COLS];
        Matrix { data: [row; ROWS] }
    }
}

impl<T: Clone + Copy + Default, const ROWS: usize, const COLS: usize> Matrix<T, ROWS, COLS> {
    /// A copy of row `idx`, or `MismatchingDimensions` when `idx` is not a row.
    pub fn get_row(&self, idx: usize) -> (r: MatrixResult<Vector<T, COLS>>)
        ensures
            idx < ROWS ==> (r matches Ok(v) && v@ == self@[idx as int]),
            idx >= ROWS ==> r == Err::<Vector<T, COLS>, MatrixError>(MatrixError::MismatchingDimensions),
    {
        if idx >= ROWS {
            return Err(MatrixError::MismatchingDimensions);
        }
        let row: [T; COLS] = self.data[idx];
        Ok(Vector::from(row))
    }

    /// A copy of column `idx`, or `MismatchingDimensions` when `idx` is not a column.
    pub fn get_column(&self, idx: usize) -> (r: MatrixResult<Vector<T, ROWS>>)
        ensures
            idx < COLS ==> (r matches Ok(v) && v@ == column_of(self@, idx as int)),
            idx >= COLS ==> r == Err::<Vector<T, ROWS>, MatrixError>(MatrixError::MismatchingDimensions),
    {
        if idx >= COLS {
            return Err(MatrixError::MismatchingDimensions);
        }
        let mut col: [T; ROWS] = [T::default(); ROWS];
        for i in 0..ROWS
            invariant
                idx < COLS,
                forall|k: int| 0 <= k < i ==> #[trigger] col[k] == self@[k][idx as int],
        {
            col[i] = self.data[i][idx];
        }
        let v = Vector::from(col);
        assert(v@ =~= column_of(self@, idx as int));
        Ok(v)
    }
}

impl<T: Clone + Copy, const ROWS: usize, const COLS: usize> Matrix<T, ROWS, COLS> {
    /// Replaces row `i` by the components of `row`.
    pub fn set_row(&mut self, i: usize, row: Vector<T, COLS>)
        requires
            i < ROWS,
        ensures
            final(self)@ == old(self)@.update(i as int, row@),
    {
        self.data[i] = row.into();
        assert(self@ =~= old(self)@.update(i as int, row@));
    }

    /// Shared access to the entry in row `i` and column `j`.
    pub fn at(&self, i: usize, j: usize) -> (r: MatrixResult<&T>)
        ensures
            i < ROWS && j < COLS ==> r == Ok::<&T, MatrixError>(&self@[i as int][j as int]),
            !(i < ROWS && j < COLS) ==> r == Err::<&T, MatrixError>(MatrixError::MismatchingDimensions),
    {
        if i >= ROWS || j >= COLS {
            Err(MatrixError::MismatchingDimensions)
        } else {
            Ok(&self.data[i][j])
        }
    }

    /// Mutable access to the entry in row `i` and column `j`.
    pub fn at_mut(&mut self, i: usize, j: usize) -> (r: MatrixResult<&mut T>)
        ensures
            i < ROWS && j < COLS ==> (r matches Ok(e) && *e == old(self)@[i as int][j as int]
                && final(self)@ == old(self)@.update(
                i as int,
                old(self)@[i as int].update(j as int, *final(e)),
            )),
            !(i < ROWS && j < COLS) ==> (r matches Err(err) && err == MatrixError::MismatchingDimensions
                && final(self)@ == old(self)@),
    {
        if i >= ROWS || j >= COLS {
            Err(MatrixError::MismatchingDimensions)
        } else {
            Ok(&mut self.data[i][j])
        }
    }

    /// Writes `value` into row `i` and column `j`.
    pub fn set(&mut self, i: usize, j: usize, value: T)
        requires
            i < ROWS,
            j < COLS,
        ensures
            final(self)@ == old(self)@.update(i as int, old(self)@[i as int].update(j as int, value)),
    {
        self.data[i][j] = value;
        assert(self@ =~= old(self)@.update(i as int, old(self)@[i as int].update(j as int, value)));
    }

    /// The number of rows and the number of columns.
    pub fn shape(&self) -> (r: (usize, usize))
        ensures
            r == (ROWS, COLS),
    {
        (ROWS, COLS)
    }
}

impl<T: Clone, const ROWS: usize, const COLS: usize> Matrix<T, ROWS, COLS> {
    /// A clone of the entry in row `i` and column `j`.
    pub fn at_clone(&self, i: usize, j: usize) -> (r: MatrixResult<T>)
        ensures
            i < ROWS && j < COLS ==> (r matches Ok(c) && cloned(self@[i as int][j as int], c)),
            !(i < ROWS && j < COLS) ==> r == Err::<T, MatrixError>(MatrixError::MismatchingDimensions),
    {
        if i >= ROWS || j >= COLS {
            Err(MatrixError::MismatchingDimensions)
        } else {
            Ok(self.data[i][j].clone())
        }
    }
}

/// The matrix whose entry in row `i` and column `j` is `f(i, j)`.
pub closed spec fn matrix_of<T, const ROWS: usize, const COLS: usize>(f: spec_fn(int, int) -> T) -> Matrix<T, ROWS, COLS> {
    choose|m: Matrix<T, ROWS, COLS>|
        #![trigger m.view()]
        forall|i: int, j: int| 0 <= i < ROWS && 0 <= j < COLS ==> #[trigger] m@[i][j] == f(i, j)
}

proof fn lemma_matrix_of<T, const ROWS: usize, const COLS: usize>(
    m: Matrix<T, ROWS, COLS>,
    f: spec_fn(int, int) -> T,
)
    requires
        forall|i: int, j: int| 0 <= i < ROWS && 0 <= j < COLS ==> #[trigger] m@[i][j] == f(i, j),
    ensures
        matrix_of::<T, ROWS, COLS>(f) == m,
{
    let _rows = m.view();
    let w = matrix_of::<T, ROWS, COLS>(f);
    assert(forall|i: int, j: int| 0 <= i < ROWS && 0 <= j < COLS ==> #[trigger] w@[i][j] == f(i, j));
    lemma_matrix_ext(w, m);
}

/// Entry-wise sum.
impl<T: Copy + Add<Output = T>, const ROWS: usize, const COLS: usize> Add for Matrix<T, ROWS, COLS> {
    type Output = Self;

    fn add(self, rhs: Self) -> (r: Self)
        ensures
            forall|i: int, j: int|
                0 <= i < ROWS && 0 <= j < COLS ==> call_ensures(
                    T::add,
                    (self@[i][j], rhs@[i][j]),
                    #[trigger] r@[i][j],
                ),
            T::obeys_add_spec() ==> forall|i: int, j: int|
                0 <= i < ROWS && 0 <= j < COLS ==> #[trigger] r@[i][j] == self@[i][j].add_spec(rhs@[i][j]),
    {
        let mut new_mat = Matrix { data: self.data };
        for i in 0..ROWS
            invariant
                forall|a: int, b: int|
                    0 <= a < ROWS && 0 <= b < COLS ==> (#[trigger] self@[a][b]).add_req(rhs@[a][b]),
                forall|a: int, b: int|
                    0 <= a < i && 0 <= b < COLS ==> call_ensures(
                        T::add,
                        (self@[a][b], rhs@[a][b]),
                        #[trigger] new_mat@[a][b],
                    ),
                forall|a: int, b: int|
                    i <= a < ROWS && 0 <= b < COLS ==> #[trigger] new_mat@[a][b] == self@[a][b],
        {
            for j in 0..COLS
                invariant
                    0 <= i < ROWS,
                    forall|a: int, b: int|
                        0 <= a < ROWS && 0 <= b < COLS ==> (#[trigger] self@[a][b]).add_req(rhs@[a][b]),
                    forall|a: int, b: int|
                        0 <= a < i && 0 <= b < COLS ==> call_ensures(
                            T::add,
                            (self@[a][b], rhs@[a][b]),
                            #[trigger] new_mat@[a][b],
                        ),
                    forall|b: int|
                        0 <= b < j ==> call_ensures(
                            T::add,
                            (self@[i as int][b], rhs@[i as int][b]),
                            #[trigger] new_mat@[i as int][b],
                        ),
                    forall|b: int| j <= b < COLS ==> #[trigger] new_mat@[i as int][b] == self@[i as int][b],
                    forall|a: int, b: int|
                        i < a < ROWS && 0 <= b < COLS ==> #[trigger] new_mat@[a][b] == self@[a][b],
            {
                assert(self@[i as int][j as int].add_req(rhs@[i as int][j as int]));
                let value = self.data[i][j] + rhs.data[i][j];
                new_mat.set(i, j, value);
            }
        }
        proof {
            if T::obeys_add_spec() {
                lemma_matrix_of(new_mat, |a: int, b: int| self@[a][b].add_spec(rhs@[a][b]));
            }
        }
        new_mat
    }
}

impl<T: Copy + Add<Output = T>, const ROWS: usize, const COLS: usize> vstd::std_specs::ops::AddSpecImpl for Matrix<T, ROWS, COLS> {
    open spec fn obeys_add_spec() -> bool {
        T::obeys_add_spec()
    }

    open spec fn add_req(self, rhs: Self) -> bool {
        forall|i: int, j: int|
            0 <= i < ROWS && 0 <= j < COLS ==> (#[trigger] self@[i][j]).add_req(rhs@[i][j])
    }

    open spec fn add_spec(self, rhs: Self) -> Self {
        matrix_of(|i: int, j: int| self@[i][j].add_spec(rhs@[i][j]))
    }
}

/// Entry-wise difference.
impl<T: Copy + Sub<Output = T>, const ROWS: usize, const COLS: usize> Sub for Matrix<T, ROWS, COLS> {
    type Output = Self;

    fn sub(self, rhs: Self) -> (r: Self)
        ensures
            forall|i: int, j: int|
                0 <= i < ROWS && 0 <= j < COLS ==> call_ensures(
                    T::sub,
                    (self@[i][j], rhs@[i][j]),
                    #[trigger] r@[i][j],
                ),
            T::obeys_sub_spec() ==> forall|i: int, j: int|
                0 <= i < ROWS && 0 <= j < COLS ==> #[trigger] r@[i][j] == self@[i][j].sub_spec(rhs@[i][j]),
    {
        let mut new_mat = Matrix { data: self.data };
        for i in 0..ROWS
            invariant
                forall|a: int, b: int|
                    0 <= a < ROWS && 0 <= b < COLS ==> (#[trigger] self@[a][b]).sub_req(rhs@[a][b]),
                forall|a: int, b: int|
                    0 <= a < i && 0 <= b < COLS ==> call_ensures(
                        T::sub,
                        (self@[a][b], rhs@[a][b]),
                        #[trigger] new_mat@[a][b],
                    ),
                forall|a: int, b: int|
                    i <= a < ROWS && 0 <= b < COLS ==> #[trigger] new_mat@[a][b] == self@[a][b],
        {
            for j in 0..COLS
                invariant
                    0 <= i < ROWS,
                    forall|a: int, b: int|
                        0 <= a < ROWS && 0 <= b < COLS ==> (#[trigger] self@[a][b]).sub_req(rhs@[a][b]),
                    forall|a: int, b: int|
                        0 <= a < i && 0 <= b < COLS ==> call_ensures(
                            T::sub,
                            (self@[a][b], rhs@[a][b]),
                            #[trigger] new_mat@[a][b],
                        ),
                    forall|b: int|
                        0 <= b < j ==> call_ensures(
                            T::sub,
                            (self@[i as int][b], rhs@[i as int][b]),
                            #[trigger] new_mat@[i as int][b],
                        ),
                    forall|b: int| j <= b < COLS ==> #[trigger] new_mat@[i as int][b] == self@[i as int][b],
                    forall|a: int, b: int|
                        i < a < ROWS && 0 <= b < COLS ==> #[trigger] new_mat@[a][b] == self@[a][b],
            {
                assert(self@[i as int][j as int].sub_req(rhs@[i as int][j as int]));
                let value = self.data[i][j] - rhs.data[i][j];
                new_mat.set(i, j, value);
            }
        }
        proof {
            if T::obeys_sub_spec() {
                lemma_matrix_of(new_mat, |a: int, b: int| self@[a][b].sub_spec(rhs@[a][b]));
            }
        }
        new_mat
    }
}

impl<T: Copy + Sub<Output = T>, const ROWS: usize, const COLS: usize> vstd::std_specs::ops::SubSpecImpl for Matrix<T, ROWS, COLS> {
    open spec fn obeys_sub_spec() -> bool {
        T::obeys_sub_spec()
    }

    open spec fn sub_req(self, rhs: Self) -> bool {
        forall|i: int, j: int|
            0 <= i < ROWS && 0 <= j < COLS ==> (#[trigger] self@[i][j]).sub_req(rhs@[i][j])
    }

    open spec fn sub_spec(self, rhs: Self) -> Self {
        matrix_of(|i: int, j: int| self@[i][j].sub_spec(rhs@[i][j]))
    }
}

/// Scalar multiplication: every entry is multiplied by `rhs`.
impl<T: Copy + Mul<Output = T>, const ROWS: usize, const COLS: usize> Mul<T> for Matrix<T, ROWS, COLS> {
    type Output = Self;

    fn mul(self, rhs: T) -> (r: Self)
        ensures
            forall|i: int, j: int|
                0 <= i < ROWS && 0 <= j < COLS ==> call_ensures(
                    T::mul,
                    (self@[i][j], rhs),
                    #[trigger] r@[i][j],
                ),
            T::obeys_mul_spec() ==> forall|i: int, j: int|
                0 <= i < ROWS && 0 <= j < COLS ==> #[trigger] r@[i][j] == self@[i][j].mul_spec(rhs),
    {
        let mut new_mat = Matrix { data: self.data };
        for i in 0..ROWS
            invariant
                forall|a: int, b: int|
                    0 <= a < ROWS && 0 <= b < COLS ==> (#[trigger] self@[a][b]).mul_req(rhs),
                forall|a: int, b: int|
                    0 <= a < i && 0 <= b < COLS ==> call_ensures(
                        T::mul,
                        (self@[a][b], rhs),
                        #[trigger] new_mat@[a][b],
                    ),
                forall|a: int, b: int|
                    i <= a < ROWS && 0 <= b < COLS ==> #[trigger] new_mat@[a][b] == self@[a][b],
        {
            for j in 0..COLS
                invariant
                    0 <= i < ROWS,
                    forall|a: int, b: int|
                        0 <= a < ROWS && 0 <= b < COLS ==> (#[trigger] self@[a][b]).mul_req(rhs),
                    forall|a: int, b: int|
                        0 <= a < i && 0 <= b < COLS ==> call_ensures(
                            T::mul,
                            (self@[a][b], rhs),
                            #[trigger] new_mat@[a][b],
                        ),
                    forall|b: int|
                        0 <= b < j ==> call_ensures(
                            T::mul,
                            (self@[i as int][b], rhs),
                            #[trigger] new_mat@[i as int][b],
                        ),
                    forall|b: int| j <= b < COLS ==> #[trigger] new_mat@[i as int][b] == self@[i as int][b],
                    forall|a: int, b: int|
                        i < a < ROWS && 0 <= b < COLS ==> #[trigger] new_mat@[a][b] == self@[a][b],
            {
                assert(self@[i as int][j as int].mul_req(rhs));
                let value = self.data[i][j] * rhs;
                new_mat.set(i, j, value);
            }
        }
        proof {
            if T::obeys_mul_spec() {
                lemma_matrix_of(new_mat, |a: int, b: int| self@[a][b].mul_spec(rhs));
            }
        }
        new_mat
    }
}

impl<T: Copy + Mul<Output = T>, const ROWS: usize, const COLS: usize> vstd::std_specs::ops::MulSpecImpl<T> for Matrix<T, ROWS, COLS> {
    open spec fn obeys_mul_spec() -> bool {
        T::obeys_mul_spec()
    }

    open spec fn mul_req(self, rhs: T) -> bool {
        forall|i: int, j: int| 0 <= i < ROWS && 0 <= j < COLS ==> (#[trigger] self@[i][j]).mul_req(rhs)
    }

    open spec fn mul_spec(self, rhs: T) -> Self {
        matrix_of(|i: int, j: int| self@[i][j].mul_spec(rhs))
    }
}

/// Every entry of the product `a * b` (an `A x B` times a `B x C` matrix) can be evaluated
/// without overflow.
pub open spec fn product_fits<T: Mul<Output = T> + Add<Output = T>>(
    a: Seq<Seq<T>>,
    b: Seq<Seq<T>>,
    rows: int,
    inner: int,
    cols: int,
) -> bool {
    forall|i: int, j: int|
        0 <= i < rows && 0 <= j < cols ==> #[trigger] dot_fits(a[i], column_of(b, j), inner)
}

/// The entry in row `i` and column `j` of the product of `a` and `b`, whose inner dimension is
/// `inner > 0`: the dot product of row `i` of `a` and column `j` of `b`.
pub open spec fn product_entry<T: Mul<Output = T> + Add<Output = T>>(
    a: Seq<Seq<T>>,
    b: Seq<Seq<T>>,
    inner: int,
    i: int,
    j: int,
) -> T {
    dot_upto(a[i], column_of(b, j), inner)
}

/// Where the product of integer matrices fits, its entry in row `i` and column `j` is the sum over
/// every `k < B` of `a[i][k] * b[k][j]`.
pub proof fn lemma_product_entry_sums<const A: usize, const B: usize, const C: usize>(
    a: Matrix<i64, A, B>,
    b: Matrix<i64, B, C>,
    i: int,
    j: int,
)
    requires
        B > 0,
        0 <= i < A,
        0 <= j < C,
        product_fits(a@, b@, A as int, B as int, C as int),
    ensures
        product_entry(a@, b@, B as int, i, j) == sum_of_products(a@[i], column_of(b@, j), B as int),
{
    lemma_matrix_shape(a);
    lemma_matrix_shape(b);
    assert(dot_fits(a@[i], column_of(b@, j), B as int));
    lemma_dot_is_sum_of_products(a@[i], column_of(b@, j), B as int);
}

/// Matrix multiplication: an `A x B` matrix times a `B x C` matrix is an `A x C` matrix.
impl<
    T: Copy + Default + Add<Output = T> + Mul<Output = T>,
    const A: usize,
    const B: usize,
    const C: usize,
> Mul<Matrix<T, B, C>> for Matrix<T, A, B> {
    type Output = Matrix<T, A, C>;

    fn mul(self, rhs: Matrix<T, B, C>) -> (r: Matrix<T, A, C>)
        ensures
            B > 0 ==> forall|i: int, j: int|
                0 <= i < A && 0 <= j < C ==> #[trigger] r@[i][j] == product_entry(
                    self@,
                    rhs@,
                    B as int,
                    i,
                    j,
                ),
            B == 0 ==> forall|i: int, j: int|
                0 <= i < A && 0 <= j < C ==> call_ensures(T::default, (), #[trigger] r@[i][j]),
    {
        let mut new_mat: Matrix<T, A, C> = Matrix::default();
        for i in 0..A
            invariant
                B > 0 ==> product_fits(self@, rhs@, A as int, B as int, C as int),
                forall|a: int, b: int|
                    0 <= a < i && 0 <= b < C ==> (B > 0 ==> #[trigger] new_mat@[a][b] == product_entry(
                        self@,
                        rhs@,
                        B as int,
                        a,
                        b,
                    )) && (B == 0 ==> call_ensures(T::default, (), new_mat@[a][b])),
                forall|a: int, b: int|
                    i <= a < A && 0 <= b < C ==> call_ensures(T::default, (), #[trigger] new_mat@[a][b]),
        {
            for j in 0..C
                invariant
                    0 <= i < A,
                    B > 0 ==> product_fits(self@, rhs@, A as int, B as int, C as int),
                    forall|a: int, b: int|
                        0 <= a < i && 0 <= b < C ==> (B > 0 ==> #[trigger] new_mat@[a][b]
                            == product_entry(self@, rhs@, B as int, a, b)) && (B == 0
                            ==> call_ensures(T::default, (), new_mat@[a][b])),
                    forall|b: int|
                        0 <= b < j ==> (B > 0 ==> #[trigger] new_mat@[i as int][b] == product_entry(
                            self@,
                            rhs@,
                            B as int,
                            i as int,
                            b,
                        )) && (B == 0 ==> call_ensures(T::default, (), new_mat@[i as int][b])),
                    forall|b: int|
                        j <= b < C ==> call_ensures(T::default, (), #[trigger] new_mat@[i as int][b]),
                    forall|a: int, b: int|
                        i < a < A && 0 <= b < C ==> call_ensures(T::default, (), #[trigger] new_mat@[a][b]),
            {
                let row = match self.get_row(i) {
                    Ok(v) => v,
                    Err(_) => {
                        assert(false);
                        return new_mat;
                    },
                };
                let col = match rhs.get_column(j) {
                    Ok(v) => v,
                    Err(_) => {
                        assert(false);
                        return new_mat;
                    },
                };
                proof {
                    if B > 0 {
                        assert(dot_fits(self@[i as int], column_of(rhs@, j as int), B as int));
                    }
                }
                let value = row * col;
                new_mat.set(i, j, value);
            }
        }
        proof {
            if B > 0 {
                lemma_matrix_of(new_mat, |a: int, b: int| product_entry(self@, rhs@, B as int, a, b));
            }
        }
        new_mat
    }
}

impl<
    T: Copy + Default + Add<Output = T> + Mul<Output = T>,
    const A: usize,
    const B: usize,
    const C: usize,
> vstd::std_specs::ops::MulSpecImpl<Matrix<T, B, C>> for Matrix<T, A, B> {
    open spec fn obeys_mul_spec() -> bool {
        B > 0
    }

    open spec fn mul_req(self, rhs: Matrix<T, B, C>) -> bool {
        B > 0 ==> product_fits(self@, rhs@, A as int, B as int, C as int)
    }

    open spec fn mul_spec(self, rhs: Matrix<T, B, C>) -> Matrix<T, A, C> {
        matrix_of(|i: int, j: int| product_entry(self@, rhs@, B as int, i, j))
    }
}

/// Entry-wise equality.
impl<T: PartialEq, const ROWS: usize, const COLS: usize> PartialEq for Matrix<T, ROWS, COLS> {
    fn eq(&self, other: &Self) -> (r: bool) {
        let mut i: usize = 0;
        while i < ROWS
            invariant
                i <= ROWS,
                T::obeys_eq_spec() ==> forall|a: int, b: int|
                    0 <= a < i && 0 <= b < COLS ==> (#[trigger] self@[a][b]).eq_spec(&other@[a][b]),
            decreases ROWS - i,
        {
            let mut j: usize = 0;
            while j < COLS
                invariant
                    i < ROWS,
                    j <= COLS,
                    T::obeys_eq_spec() ==> forall|a: int, b: int|
                        0 <= a < i && 0 <= b < COLS ==> (#[trigger] self@[a][b]).eq_spec(&other@[a][b]),
                    T::obeys_eq_spec() ==> forall|b: int|
                        0 <= b < j ==> (#[trigger] self@[i as int][b]).eq_spec(&other@[i as int][b]),
                decreases COLS - j,
            {
                if !(self.data[i][j] == other.data[i][j]) {
                    proof {
                        if T::obeys_eq_spec() {
                            assert(!self@[i as int][j as int].eq_spec(&other@[i as int][j as int]));
                        }
                    }
                    return false;
                }
                j = j + 1;
            }
            i = i + 1;
        }
        true
    }
}

impl<T: PartialEq, const ROWS: usize, const COLS: usize> vstd::std_specs::cmp::PartialEqSpecImpl for Matrix<T, ROWS, COLS> {
    open spec fn obeys_eq_spec() -> bool {
        T::obeys_eq_spec()
    }

    open spec fn eq_spec(&self, other: &Self) -> bool {
        forall|i: int, j: int|
            0 <= i < ROWS && 0 <= j < COLS ==> (#[trigger] self@[i][j]).eq_spec(&other@[i][j])
    }
}

impl<T: Copy + Default, const ROWS: usize, const COLS: usize> Matrix<T, ROWS, COLS> {
    /// The transpose: entry `(j, i)` of the result is entry `(i, j)` of `self`.
    pub fn transpose(&self) -> (r: Matrix<T, COLS, ROWS>)
        ensures
            is_transpose(self@, r@, ROWS as int, COLS as int),
    {
        let mut new_mat: Matrix<T, COLS, ROWS> = Matrix::default();
        for i in 0..ROWS
            invariant
                forall|a: int, b: int| 0 <= a < i && 0 <= b < COLS ==> #[trigger] new_mat@[b][a] == self@[a][b],
        {
            for j in 0..COLS
                invariant
                    0 <= i < ROWS,
                    forall|a: int, b: int|
                        0 <= a < i && 0 <= b < COLS ==> #[trigger] new_mat@[b][a] == self@[a][b],
                    forall|b: int| 0 <= b < j ==> #[trigger] new_mat@[b][i as int] == self@[i as int][b],
            {
                new_mat.set(j, i, self.data[i][j]);
            }
        }
        new_mat
    }
}

/// Transposing twice gives back the matrix one started with.
pub proof fn lemma_transpose_involution<T, const ROWS: usize, const COLS: usize>(
    a: Matrix<T, ROWS, COLS>,
    b: Matrix<T, COLS, ROWS>,
    c: Matrix<T, ROWS, COLS>,
)
    requires
        is_transpose(a@, b@, ROWS as int, COLS as int),
        is_transpose(b@, c@, COLS as int, ROWS as int),
    ensures
        c == a,
{
    assert forall|i: int, j: int| 0 <= i < ROWS && 0 <= j < COLS implies #[trigger] c@[i][j] == a@[i][j] by {
        assert(c@[i][j] == b@[j][i]);
    }
    lemma_matrix_ext(c, a);
}

/// Column `j` of a matrix is row `j` of its transpose.
pub proof fn lemma_column_is_transposed_row<T, const ROWS: usize, const COLS: usize>(
    a: Matrix<T, ROWS, COLS>,
    b: Matrix<T, COLS, ROWS>,
    j: int,
)
    requires
        is_transpose(a@, b@, ROWS as int, COLS as int),
        0 <= j < COLS,
    ensures
        column_of(a@, j) == b@[j],
{
    assert(column_of(a@, j) =~= b@[j]) by {
        assert forall|i: int| 0 <= i < ROWS implies #[trigger] column_of(a@, j)[i] == b@[j][i] by {
            assert(b@[j][i] == a@[i][j]);
        }
    }
}

/// Reading an entry after writing it gives the written value, and leaves every other entry
/// as it was.
pub proof fn lemma_read_after_write<T, const ROWS: usize, const COLS: usize>(
    before: Matrix<T, ROWS, COLS>,
    after: Matrix<T, ROWS, COLS>,
    i: int,
    j: int,
    value: T,
)
    requires
        0 <= i < ROWS,
        0 <= j < COLS,
        after@ == before@.update(i, before@[i].update(j, value)),
    ensures
        after@[i][j] == value,
        forall|a: int, b: int|
            0 <= a < ROWS && 0 <= b < COLS && (a != i || b != j) ==> #[trigger] after@[a][b]
                == before@[a][b],
{
}

/// The default integer matrix is the zero matrix.
pub proof fn lemma_default_matrix_is_zero<const ROWS: usize, const COLS: usize>(m: Matrix<i64, ROWS, COLS>)
    requires
        forall|i: int, j: int|
            0 <= i < ROWS && 0 <= j < COLS ==> call_ensures(i64::default, (), #[trigger] m@[i][j]),
    ensures
        forall|i: int, j: int| 0 <= i < ROWS && 0 <= j < COLS ==> #[trigger] m@[i][j] == 0,
{
}

/// Adding an integer matrix and then subtracting it again gives back the matrix one started
/// with.
pub proof fn lemma_matrix_add_then_sub<const ROWS: usize, const COLS: usize>(
    a: Matrix<i64, ROWS, COLS>,
    b: Matrix<i64, ROWS, COLS>,
    sum: Matrix<i64, ROWS, COLS>,
    diff: Matrix<i64, ROWS, COLS>,
)
    requires
        forall|i: int, j: int| 0 <= i < ROWS && 0 <= j < COLS ==> (#[trigger] a@[i][j]).add_req(b@[i][j]),
        forall|i: int, j: int|
            0 <= i < ROWS && 0 <= j < COLS ==> #[trigger] sum@[i][j] == a@[i][j].add_spec(b@[i][j]),
        forall|i: int, j: int|
            0 <= i < ROWS && 0 <= j < COLS ==> #[trigger] diff@[i][j] == sum@[i][j].sub_spec(b@[i][j]),
    ensures
        diff == a,
{
    assert forall|i: int, j: int| 0 <= i < ROWS && 0 <= j < COLS implies #[trigger] diff@[i][j] == a@[i][j] by {
        assert(a@[i][j].add_req(b@[i][j]));
        assert(sum@[i][j] == a@[i][j].add_spec(b@[i][j]));
    }
    lemma_matrix_ext(diff, a);
}

/// For integer matrices, the transpose of a product is the product of the transposes in the
/// other order: `(A B)^T = B^T A^T`.
pub proof fn lemma_product_transpose<const A: usize, const B: usize, const C: usize>(
    a: Matrix<i64, A, B>,
    b: Matrix<i64, B, C>,
    p: Matrix<i64, A, C>,
    at: Matrix<i64, B, A>,
    bt: Matrix<i64, C, B>,
    q: Matrix<i64, C, A>,
)
    requires
        B > 0,
        forall|i: int, j: int|
            0 <= i < A && 0 <= j < C ==> #[trigger] p@[i][j] == product_entry(a@, b@, B as int, i, j),
        is_transpose(a@, at@, A as int, B as int),
        is_transpose(b@, bt@, B as int, C as int),
        forall|j: int, i: int|
            0 <= j < C && 0 <= i < A ==> #[trigger] q@[j][i] == product_entry(bt@, at@, B as int, j, i),
    ensures
        is_transpose(p@, q@, A as int, C as int),
{
    assert forall|i: int, j: int| 0 <= i < A && 0 <= j < C implies #[trigger] q@[j][i] == p@[i][j] by {
        lemma_column_is_transposed_row(b, bt, j);
        assert(column_of(at@, i) =~= a@[i]) by {
            assert forall|k: int| 0 <= k < B implies #[trigger] column_of(at@, i)[k] == a@[i][k] by {
                assert(at@[k][i] == a@[i][k]);
            }
        }
        lemma_dot_symmetric(a@[i], column_of(b@, j), B as int);
    }
}

/// For element types whose `==` follows its specification, two matrices are unequal (`!=`, which
/// is `!(a == b)`) exactly when some entry of one is unequal to the same entry of the other.
pub proof fn lemma_matrix_ne<T: PartialEq, const ROWS: usize, const COLS: usize>(
    a: Matrix<T, ROWS, COLS>,
    b: Matrix<T, ROWS, COLS>,
)
    requires
        T::obeys_eq_spec(),
    ensures
        Matrix::<T, ROWS, COLS>::obeys_eq_spec(),
        !a.eq_spec(&b) <==> exists|i: int, j: int|
            0 <= i < ROWS && 0 <= j < COLS && !(#[trigger] a@[i][j]).eq_spec(&b@[i][j]),
{
}

} // verus!
