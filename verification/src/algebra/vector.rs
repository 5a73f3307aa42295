use std::ops::{Add, Mul, Neg, Sub};
use vstd::prelude::*;
use vstd::std_specs::ops::{AddSpec, MulSpec, NegSpec, SubSpec};
use vstd::std_specs::cmp::PartialEqSpec;

verus! {

broadcast use vstd::array::group_array_axioms;

/// An `N`-dimensional vector whose components are stored in an array.
#[derive(Debug)]
pub struct Vector<T, const N: usize> {
    data: [T; N],
}

impl<T, const N: usize> View for Vector<T, N> {
    type V = Seq<T>;

    closed spec fn view(&self) -> Seq<T> {
        self.data@
    }
}

/// A vector always has exactly `N` components.
pub broadcast proof fn lemma_vector_len<T, const N: usize>(v: Vector<T, N>)
    ensures
        #[trigger] v@.len() == N,
{
}

/// Two vectors with the same components are the same vector.
pub proof fn lemma_vector_ext<T, const N: usize>(a: Vector<T, N>, b: Vector<T, N>)
    requires
        a@ =~= b@,
    ensures
        a == b,
{
    assert(a.data =~= b.data);
}

/// Sum of the first `n` products `a[k] * b[k]`, accumulated from the front as
/// `((a[0] * b[0]) + a[1] * b[1]) + ...`, with the element type's own operators.
pub open spec fn dot_upto<T: Mul<Output = T> + Add<Output = T>>(a: Seq<T>, b: Seq<T>, n: int) -> T
    decreases n,
{
    if n <= 1 {
        a[0].mul_spec(b[0])
    } else {
        dot_upto(a, b, n - 1).add_spec(a[n - 1].mul_spec(b[n - 1]))
    }
}

/// The dot product of two sequences of length `n` can be evaluated without overflow:
/// every product and every partial sum is within the element type's range.
pub open spec fn dot_fits<T: Mul<Output = T> + Add<Output = T>>(a: Seq<T>, b: Seq<T>, n: int) -> bool {
    &&& T::obeys_add_spec()
    &&& T::obeys_mul_spec()
    &&& forall|k: int| 0 <= k < n ==> (#[trigger] a[k]).mul_req(b[k])
    &&& forall|k: int| 1 <= k < n ==> dot_upto(a, b, k).add_req(#[trigger] a[k].mul_spec(b[k]))
}

impl<T, const N: usize> From<[T; N]> for Vector<T, N> {
    fn from(value: [T; N]) -> (r: Self)
        ensures
            r@ == value@,
    {
        Vector { data: value }
    }
}

impl<T, const N: usize> vstd::std_specs::convert::FromSpecImpl<[T; N]> for Vector<T, N> {
    open spec fn obeys_from_spec() -> bool {
        true
    }

    closed spec fn from_spec(v: [T; N]) -> Self {
        Vector { data: v }
    }
}

impl<T: Clone, const N: usize> Into<[T; N]> for Vector<T, N> {
    fn into(self) -> (r: [T; N])
        ensures
            vstd::array::array_view(r) == self.view(),
    {
        self.data
    }
}

impl<T: Clone, const N: usize> vstd::std_specs::convert::IntoSpecImpl<[T; N]> for Vector<T, N> {
    open spec fn obeys_into_spec() -> bool {
        true
    }

    closed spec fn into_spec(self) -> [T; N] {
        self.data
    }
}

impl<T: Default + Copy, const N: usize> Default for Vector<T, N> {
    /// The vector whose every component is `T::default()` (zero for the integer types).
    fn default() -> (r: Self)
        ensures
            forall|i: int| 0 <= i < N ==> call_ensures(T::default, (), #[trigger] r@[i]),
            forall|i: int, j: int| 0 <= i < N && 0 <= j < N ==> r@[i] == r@[j],
    {
        let z = T::default();
        Vector { data: [z; N] }
    }
}

impl<T, const N: usize> Vector<T, N> {
    /// Shared access to component `i`, or `None` when `i` is out of range.
    pub fn at(&self, i: usize) -> (r: Option<&T>)
        ensures
            i < N ==> r == Some(&self@[i as int]),
            i >= N ==> r is None,
    {
        if i >= N {
            return None;
        }
        Some(&self.data[i])
    }

    /// Mutable access to component `i`, or `None` when `i` is out of range.
    pub fn at_mut(&mut self, i: usize) -> (r: Option<&mut T>)
        ensures
            i < N ==> (r matches Some(e) && *e == old(self)@[i as int] && final(self)@ == old(
                self,
            )@.update(i as int, *final(e))),
            i >= N ==> r is None && final(self)@ == old(self)@,
    {
        if i >= N {
            return None;
        }
        Some(&mut self.data[i])
    }
}

impl<T: Clone, const N: usize> Vector<T, N> {
    /// A clone of component `i`, or `None` when `i` is out of range.
    pub fn at_clone(&self, i: usize) -> (r: Option<T>)
        ensures
            i < N ==> (r matches Some(c) && cloned(self@[i as int], c)),
            i >= N ==> r is None,
    {
        if i >= N {
            return None;
        }
        Some(self.data[i].clone())
    }
}

/// The vector whose components are `s` (meaningful when `s.len() == N`).
pub closed spec fn vector_of<T, const N: usize>(s: Seq<T>) -> Vector<T, N> {
    choose|v: Vector<T, N>| v@ == s
}

proof fn lemma_vector_of<T, const N: usize>(v: Vector<T, N>, s: Seq<T>)
    requires
        v@ == s,
    ensures
        vector_of::<T, N>(s) == v,
{
    let w = vector_of::<T, N>(s);
    assert(w@ == s);
    lemma_vector_ext(w, v);
}

/// Component-wise sum.
impl<T: Copy + Add<Output = T>, const N: usize> Add for Vector<T, N> {
    type Output = Self;

    fn add(self, rhs: Self) -> (r: Self)
        ensures
            forall|i: int| 0 <= i < N ==> call_ensures(T::add, (self@[i], rhs@[i]), #[trigger] r@[i]),
            T::obeys_add_spec() ==> forall|i: int|
                0 <= i < N ==> #[trigger] r@[i] == self@[i].add_spec(rhs@[i]),
    {
        let mut v: [T; N] = self.data;
        for i in 0..N
            invariant
                forall|k: int| 0 <= k < N ==> (#[trigger] self@[k]).add_req(rhs@[k]),
                forall|k: int| 0 <= k < i ==> call_ensures(T::add, (self@[k], rhs@[k]), #[trigger] v[k]),
                forall|k: int| i <= k < N ==> #[trigger] v[k] == self@[k],
        {
            assert(self@[i as int].add_req(rhs@[i as int]));
            v[i] = v[i] + rhs.data[i];
        }
        let r = Vector { data: v };
        proof {
            if T::obeys_add_spec() {
                assert(r@ =~= Seq::new(N as nat, |k: int| self@[k].add_spec(rhs@[k])));
                lemma_vector_of(r, r@);
            }
        }
        r
    }
}

impl<T: Copy + Add<Output = T>, const N: usize> vstd::std_specs::ops::AddSpecImpl for Vector<T, N> {
    open spec fn obeys_add_spec() -> bool {
        T::obeys_add_spec()
    }

    open spec fn add_req(self, rhs: Self) -> bool {
        forall|i: int| 0 <= i < N ==> (#[trigger] self@[i]).add_req(rhs@[i])
    }

    open spec fn add_spec(self, rhs: Self) -> Self {
        vector_of(Seq::new(N as nat, |k: int| self@[k].add_spec(rhs@[k])))
    }
}

/// Component-wise difference.
impl<T: Copy + Sub<Output = T>, const N: usize> Sub for Vector<T, N> {
    type Output = Self;

    fn sub(self, rhs: Self) -> (r: Self)
        ensures
            forall|i: int| 0 <= i < N ==> call_ensures(T::sub, (self@[i], rhs@[i]), #[trigger] r@[i]),
            T::obeys_sub_spec() ==> forall|i: int|
                0 <= i < N ==> #[trigger] r@[i] == self@[i].sub_spec(rhs@[i]),
    {
        let mut v: [T; N] = self.data;
        for i in 0..N
            invariant
                forall|k: int| 0 <= k < N ==> (#[trigger] self@[k]).sub_req(rhs@[k]),
                forall|k: int| 0 <= k < i ==> call_ensures(T::sub, (self@[k], rhs@[k]), #[trigger] v[k]),
                forall|k: int| i <= k < N ==> #[trigger] v[k] == self@[k],
        {
            assert(self@[i as int].sub_req(rhs@[i as int]));
            v[i] = v[i] - rhs.data[i];
        }
        let r = Vector { data: v };
        proof {
            if T::obeys_sub_spec() {
                assert(r@ =~= Seq::new(N as nat, |k: int| self@[k].sub_spec(rhs@[k])));
                lemma_vector_of(r, r@);
            }
        }
        r
    }
}

impl<T: Copy + Sub<Output = T>, const N: usize> vstd::std_specs::ops::SubSpecImpl for Vector<T, N> {
    open spec fn obeys_sub_spec() -> bool {
        T::obeys_sub_spec()
    }

    open spec fn sub_req(self, rhs: Self) -> bool {
        forall|i: int| 0 <= i < N ==> (#[trigger] self@[i]).sub_req(rhs@[i])
    }

    open spec fn sub_spec(self, rhs: Self) -> Self {
        vector_of(Seq::new(N as nat, |k: int| self@[k].sub_spec(rhs@[k])))
    }
}

/// Component-wise negation.
impl<T: Copy + Neg<Output = T>, const N: usize> Neg for Vector<T, N> {
    type Output = Self;

    fn neg(self) -> (r: Self)
        ensures
            forall|i: int| 0 <= i < N ==> call_ensures(T::neg, (self@[i],), #[trigger] r@[i]),
            T::obeys_neg_spec() ==> forall|i: int|
                0 <= i < N ==> #[trigger] r@[i] == self@[i].neg_spec(),
    {
        let mut v: [T; N] = self.data;
        for i in 0..N
            invariant
                forall|k: int| 0 <= k < N ==> (#[trigger] self@[k]).neg_req(),
                forall|k: int| 0 <= k < i ==> call_ensures(T::neg, (self@[k],), #[trigger] v[k]),
                forall|k: int| i <= k < N ==> #[trigger] v[k] == self@[k],
        {
            assert(self@[i as int].neg_req());
            v[i] = v[i].neg();
        }
        let r = Vector { data: v };
        proof {
            if T::obeys_neg_spec() {
                assert(r@ =~= Seq::new(N as nat, |k: int| self@[k].neg_spec()));
                lemma_vector_of(r, r@);
            }
        }
        r
    }
}

impl<T: Copy + Neg<Output = T>, const N: usize> vstd::std_specs::ops::NegSpecImpl for Vector<T, N> {
    open spec fn obeys_neg_spec() -> bool {
        T::obeys_neg_spec()
    }

    open spec fn neg_req(self) -> bool {
        forall|i: int| 0 <= i < N ==> (#[trigger] self@[i]).neg_req()
    }

    open spec fn neg_spec(self) -> Self {
        vector_of(Seq::new(N as nat, |k: int| self@[k].neg_spec()))
    }
}

/// Scalar multiplication: every component is multiplied by `rhs`.
impl<T: Copy + Mul<Output = T>, const N: usize> Mul<T> for Vector<T, N> {
    type Output = Self;

    fn mul(self, rhs: T) -> (r: Self)
        ensures
            forall|i: int| 0 <= i < N ==> call_ensures(T::mul, (self@[i], rhs), #[trigger] r@[i]),
            T::obeys_mul_spec() ==> forall|i: int|
                0 <= i < N ==> #[trigger] r@[i] == self@[i].mul_spec(rhs),
    {
        let mut v: [T; N] = self.data;
        for i in 0..N
            invariant
                forall|k: int| 0 <= k < N ==> (#[trigger] self@[k]).mul_req(rhs),
                forall|k: int| 0 <= k < i ==> call_ensures(T::mul, (self@[k], rhs), #[trigger] v[k]),
                forall|k: int| i <= k < N ==> #[trigger] v[k] == self@[k],
        {
            assert(self@[i as int].mul_req(rhs));
            v[i] = v[i] * rhs;
        }
        let r = Vector { data: v };
        proof {
            if T::obeys_mul_spec() {
                assert(r@ =~= Seq::new(N as nat, |k: int| self@[k].mul_spec(rhs)));
                lemma_vector_of(r, r@);
            }
        }
        r
    }
}

impl<T: Copy + Mul<Output = T>, const N: usize> vstd::std_specs::ops::MulSpecImpl<T> for Vector<T, N> {
    open spec fn obeys_mul_spec() -> bool {
        T::obeys_mul_spec()
    }

    open spec fn mul_req(self, rhs: T) -> bool {
        forall|i: int| 0 <= i < N ==> (#[trigger] self@[i]).mul_req(rhs)
    }

    open spec fn mul_spec(self, rhs: T) -> Self {
        vector_of(Seq::new(N as nat, |k: int| self@[k].mul_spec(rhs)))
    }
}

/// Dot product.
impl<T: Copy + Default + Add<Output = T> + Mul<Output = T>, const N: usize> Mul<Vector<T, N>> for Vector<T, N> {
    type Output = T;

    fn mul(self, rhs: Vector<T, N>) -> (r: T)
        ensures
            N == 0 ==> call_ensures(T::default, (), r),
            N > 0 ==> r == dot_upto(self@, rhs@, N as int),
    {
        if N == 0 {
            return T::default();
        }
        let mut acc: T = self.data[0] * rhs.data[0];
        let mut i: usize = 1;
        while i < N
            invariant
                1 <= i <= N,
                dot_fits(self@, rhs@, N as int),
                acc == dot_upto(self@, rhs@, i as int),
            decreases N - i,
        {
            assert(self@[i as int].mul_req(rhs@[i as int]));
            let p = self.data[i] * rhs.data[i];
            assert(dot_upto(self@, rhs@, i as int).add_req(self@[i as int].mul_spec(rhs@[i as int])));
            acc = acc + p;
            i = i + 1;
        }
        acc
    }
}

impl<T: Copy + Default + Add<Output = T> + Mul<Output = T>, const N: usize> vstd::std_specs::ops::MulSpecImpl<Vector<T, N>> for Vector<T, N> {
    open spec fn obeys_mul_spec() -> bool {
        N > 0
    }

    open spec fn mul_req(self, rhs: Vector<T, N>) -> bool {
        N > 0 ==> dot_fits(self@, rhs@, N as int)
    }

    open spec fn mul_spec(self, rhs: Vector<T, N>) -> T {
        dot_upto(self@, rhs@, N as int)
    }
}

/// Component-wise equality.
impl<T: PartialEq, const N: usize> PartialEq for Vector<T, N> {
    fn eq(&self, other: &Self) -> (r: bool) {
        let mut i: usize = 0;
        while i < N
            invariant
                i <= N,
                T::obeys_eq_spec() ==> forall|k: int| 0 <= k < i ==> (#[trigger] self@[k]).eq_spec(&other@[k]),
            decreases N - i,
        {
            if !(self.data[i] == other.data[i]) {
                proof {
                    if T::obeys_eq_spec() {
                        assert(!self@[i as int].eq_spec(&other@[i as int]));
                    }
                }
                return false;
            }
            i = i + 1;
        }
        true
    }
}

impl<T: PartialEq, const N: usize> vstd::std_specs::cmp::PartialEqSpecImpl for Vector<T, N> {
    open spec fn obeys_eq_spec() -> bool {
        T::obeys_eq_spec()
    }

    open spec fn eq_spec(&self, other: &Self) -> bool {
        forall|i: int| 0 <= i < N ==> (#[trigger] self@[i]).eq_spec(&other@[i])
    }
}

/// The dot product of integer vectors is symmetric.
pub proof fn lemma_dot_symmetric(a: Seq<i64>, b: Seq<i64>, n: int)
    requires
        1 <= n <= a.len(),
        n <= b.len(),
    ensures
        dot_upto(a, b, n) == dot_upto(b, a, n),
    decreases n,
{
    assert(a[n - 1] * b[n - 1] == b[n - 1] * a[n - 1]) by (nonlinear_arith);
    if n > 1 {
        lemma_dot_symmetric(a, b, n - 1);
    }
}

/// The sum of the products `a[k] * b[k]` for `k < n`, in mathematical integers.
pub open spec fn sum_of_products(a: Seq<i64>, b: Seq<i64>, n: int) -> int
    decreases n,
{
    if n <= 0 {
        0
    } else {
        sum_of_products(a, b, n - 1) + a[n - 1] * b[n - 1]
    }
}

/// When the dot product of integer sequences fits, each further component adds its product: over
/// `n > 1` components it is the dot product over the first `n - 1` plus `a[n - 1] * b[n - 1]`.
pub proof fn lemma_dot_adds_last(a: Seq<i64>, b: Seq<i64>, n: int)
    requires
        1 < n <= a.len(),
        n <= b.len(),
        dot_fits(a, b, n),
    ensures
        dot_upto(a, b, n) == dot_upto(a, b, n - 1) + a[n - 1] * b[n - 1],
{
    assert(a[n - 1].mul_req(b[n - 1]));
    assert(dot_upto(a, b, n - 1).add_req(a[n - 1].mul_spec(b[n - 1])));
}

/// When the dot product of integer sequences fits, it is the sum of the products of all the
/// component pairs, every one of them counted once.
pub proof fn lemma_dot_is_sum_of_products(a: Seq<i64>, b: Seq<i64>, n: int)
    requires
        1 <= n <= a.len(),
        n <= b.len(),
        dot_fits(a, b, n),
    ensures
        dot_upto(a, b, n) == sum_of_products(a, b, n),
    decreases n,
{
    if n == 1 {
        assert(a[0].mul_req(b[0]));
        assert(sum_of_products(a, b, 0) == 0);
    } else {
        assert(dot_fits(a, b, n - 1));
        lemma_dot_is_sum_of_products(a, b, n - 1);
        lemma_dot_adds_last(a, b, n);
    }
}

proof fn lemma_dot_unit_prefix(a: Seq<i64>, e: Seq<i64>, m: int, k: int)
    requires
        1 <= m <= a.len(),
        m <= e.len(),
        forall|j: int| 0 <= j < m ==> #[trigger] e[j] == if j == k { 1i64 } else { 0i64 },
    ensures
        dot_upto(a, e, m) == if 0 <= k < m { a[k] } else { 0i64 },
    decreases m,
{
    let x = a[m - 1];
    let y = e[m - 1];
    assert(y == 0 || y == 1);
    assert(x * y == if m - 1 == k { x as int } else { 0 }) by (nonlinear_arith)
        requires
            y == if m - 1 == k { 1int } else { 0int },
    ;
    if m > 1 {
        lemma_dot_unit_prefix(a, e, m - 1, k);
    }
}

/// The dot product of an integer sequence with the `k`-th unit vector (1 at position `k`, 0
/// elsewhere) never overflows and picks out component `k`.
pub proof fn lemma_dot_unit_vector(a: Seq<i64>, e: Seq<i64>, n: int, k: int)
    requires
        1 <= n <= a.len(),
        n <= e.len(),
        0 <= k < n,
        forall|j: int| 0 <= j < n ==> #[trigger] e[j] == if j == k { 1i64 } else { 0i64 },
    ensures
        dot_fits(a, e, n),
        dot_upto(a, e, n) == a[k],
{
    lemma_dot_unit_prefix(a, e, n, k);
    assert forall|j: int| 1 <= j < n implies dot_upto(a, e, j).add_req(#[trigger] a[j].mul_spec(e[j])) by {
        lemma_dot_unit_prefix(a, e, j, k);
    }
}

/// Adding an integer vector and then subtracting it again gives back the vector one started with.
pub proof fn lemma_add_then_sub<const N: usize>(
    a: Vector<i64, N>,
    b: Vector<i64, N>,
    sum: Vector<i64, N>,
    diff: Vector<i64, N>,
)
    requires
        forall|i: int| 0 <= i < N ==> (#[trigger] a@[i]).add_req(b@[i]),
        forall|i: int| 0 <= i < N ==> #[trigger] sum@[i] == a@[i].add_spec(b@[i]),
        forall|i: int| 0 <= i < N ==> #[trigger] diff@[i] == sum@[i].sub_spec(b@[i]),
    ensures
        diff == a,
{
    assert forall|i: int| 0 <= i < N implies #[trigger] diff@[i] == a@[i] by {
        assert(a@[i].add_req(b@[i]));
        assert(sum@[i] == a@[i].add_spec(b@[i]));
    }
    assert(diff@ =~= a@);
    lemma_vector_ext(diff, a);
}

/// The default integer vector is the zero vector.
pub proof fn lemma_default_is_zero<const N: usize>(v: Vector<i64, N>)
    requires
        forall|i: int| 0 <= i < N ==> call_ensures(i64::default, (), #[trigger] v@[i]),
    ensures
        forall|i: int| 0 <= i < N ==> #[trigger] v@[i] == 0,
{
}

/// For element types whose `==` follows its specification, two vectors are unequal (`!=`, which
/// is `!(a == b)`) exactly when some component of one is unequal to the same component of the
/// other.
pub proof fn lemma_vector_ne<T: PartialEq, const N: usize>(a: Vector<T, N>, b: Vector<T, N>)
    requires
        T::obeys_eq_spec(),
    ensures
        Vector::<T, N>::obeys_eq_spec(),
        !a.eq_spec(&b) <==> exists|i: int| 0 <= i < N && !(#[trigger] a@[i]).eq_spec(&b@[i]),
{
}

} // verus!
