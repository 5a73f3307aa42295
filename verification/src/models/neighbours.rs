use vstd::prelude::*;

use crate::stats::{float_value, is_nan_value, lemma_key_follows_value, total_order_key, total_order_key_of};

verus! {

/// Position `i` comes before position `j` when its distance is smaller in IEEE 754 total order,
/// or the distances are equal and `i` comes first: the order in which a stable sort by distance
/// leaves the positions.
pub open spec fn nearer(distances: Seq<u64>, i: int, j: int) -> bool {
    ||| total_order_key(distances[i]) < total_order_key(distances[j])
    ||| (total_order_key(distances[i]) == total_order_key(distances[j]) && i < j)
}

/// Of two distances that are not NaN, a strictly smaller one is always nearer, and a nearer one
/// is never greater.
pub proof fn lemma_nearer_by_value(distances: Seq<u64>, i: int, j: int)
    requires
        0 <= i < distances.len(),
        0 <= j < distances.len(),
        !is_nan_value(distances[i]),
        !is_nan_value(distances[j]),
    ensures
        float_value(distances[i]) < float_value(distances[j]) ==> nearer(distances, i, j),
        nearer(distances, i, j) ==> float_value(distances[i]) <= float_value(distances[j]),
{
    lemma_key_follows_value(distances[i], distances[j]);
}

fn nearer_exec(distances: &Vec<u64>, i: usize, j: usize) -> (r: bool)
    requires
        i < distances@.len(),
        j < distances@.len(),
    ensures
        r == nearer(distances@, i as int, j as int),
        !is_nan_value(distances@[i as int]) && !is_nan_value(distances@[j as int]) ==> (float_value(
            distances@[i as int],
        ) < float_value(distances@[j as int]) ==> r) && (r ==> float_value(distances@[i as int])
            <= float_value(distances@[j as int])),
{
    proof {
        if !is_nan_value(distances@[i as int]) && !is_nan_value(distances@[j as int]) {
            lemma_nearer_by_value(distances@, i as int, j as int);
        }
    }
    let ki = total_order_key_of(distances[i]);
    let kj = total_order_key_of(distances[j]);
    ki < kj || (ki == kj && i < j)
}

proof fn lemma_swap_keeps_members(s: Seq<usize>, j: int, v: usize)
    requires
        1 <= j < s.len(),
        s.contains(v),
    ensures
        s.update(j - 1, s[j]).update(j, s[j - 1]).contains(v),
{
    let t = s.update(j - 1, s[j]).update(j, s[j - 1]);
    let w = choose|w: int| 0 <= w < s.len() && s[w] == v;
    if w == j - 1 {
        assert(t[j] == v);
    } else if w == j {
        assert(t[j - 1] == v);
    } else {
        assert(t[w] == v);
    }
}

/// The positions of the `k` nearest distances, nearest first, where distances are binary64 bit
/// patterns ordered by IEEE 754 total order and equal distances keep their order of appearance.
pub fn nearest_indices(distances: &Vec<u64>, k: usize) -> (r: Vec<usize>)
    requires
        k <= distances@.len(),
    ensures
        r@.len() == k,
        forall|a: int| 0 <= a < k ==> #[trigger] r@[a] < distances@.len(),
        forall|a: int, b: int|
            0 <= a < b < k ==> nearer(distances@, #[trigger] r@[a] as int, #[trigger] r@[b] as int),
        forall|j: int, a: int|
            0 <= j < distances@.len() && !r@.contains(j as usize) && 0 <= a < k ==> #[trigger] nearer(
                distances@,
                r@[a] as int,
                j,
            ),
        forall|a: int, b: int|
            0 <= a < b < k && !is_nan_value(distances@[r@[a] as int]) && !is_nan_value(distances@[r@[b] as int])
                ==> float_value(distances@[#[trigger] r@[a] as int]) <= float_value(distances@[#[trigger] r@[b] as int]),
        forall|j: int, a: int|
            0 <= j < distances@.len() && !r@.contains(j as usize) && 0 <= a < k && !is_nan_value(distances@[j])
                && !is_nan_value(distances@[r@[a] as int]) ==> float_value(distances@[#[trigger] r@[a] as int])
                <= float_value(#[trigger] distances@[j]),
        forall|a: int, b: int|
            0 <= a < b < k && distances@[r@[a] as int] == distances@[r@[b] as int] ==> #[trigger] r@[a]
                < #[trigger] r@[b],
        forall|j: int, a: int|
            0 <= j < distances@.len() && !r@.contains(j as usize) && 0 <= a < k && #[trigger] distances@[j]
                == distances@[#[trigger] r@[a] as int] ==> r@[a] < j,
{
    let n = distances.len();
    let mut order: Vec<usize> = Vec::new();
    let mut v: usize = 0;
    while v < n
        invariant
            n == distances@.len(),
            v <= n,
            order@.len() == v,
            forall|a: int| 0 <= a < v ==> #[trigger] order@[a] == a,
        decreases n - v,
    {
        order.push(v);
        v = v + 1;
    }
    assert forall|x: usize| x < n implies order@.contains(x) by {
        assert(order@[x as int] == x);
    }

    let mut i: usize = 0;
    while i < n
        invariant
            n == distances@.len(),
            n == order@.len(),
            i <= n,
            forall|a: int| 0 <= a < n ==> #[trigger] order@[a] < n,
            forall|x: usize| x < n ==> #[trigger] order@.contains(x),
            forall|a: int, b: int| 0 <= a < b < n ==> #[trigger] order@[a] != #[trigger] order@[b],
            forall|a: int, b: int|
                0 <= a < b < i ==> nearer(distances@, #[trigger] order@[a] as int, #[trigger] order@[b] as int),
        decreases n - i,
    {
        let mut j: usize = i;
        while j > 0 && nearer_exec(distances, order[j], order[j - 1])
            invariant
                n == distances@.len(),
                n == order@.len(),
                j <= i < n,
                forall|a: int| 0 <= a < n ==> #[trigger] order@[a] < n,
                forall|x: usize| x < n ==> #[trigger] order@.contains(x),
                forall|a: int, b: int| 0 <= a < b < n ==> #[trigger] order@[a] != #[trigger] order@[b],
                forall|a: int, b: int|
                    0 <= a < b <= i && a != j && b != j ==> nearer(
                        distances@,
                        #[trigger] order@[a] as int,
                        #[trigger] order@[b] as int,
                    ),
                forall|b: int|
                    j < b <= i ==> nearer(distances@, order@[j as int] as int, #[trigger] order@[b] as int),
            decreases j,
        {
            proof {
                assert forall|x: usize| x < n implies #[trigger] order@.update(j - 1, order@[j as int]).update(
                    j as int,
                    order@[j - 1],
                ).contains(x) by {
                    lemma_swap_keeps_members(order@, j as int, x);
                }
            }
            let lower = order[j - 1];
            let upper = order[j];
            let ghost before = order@;
            order.set(j - 1, upper);
            order.set(j, lower);
            proof {
                assert forall|a: int, b: int| 0 <= a < b < n implies #[trigger] order@[a] != #[trigger] order@[b] by {
                    let pa = if a == j - 1 { j as int } else if a == j { j - 1 } else { a };
                    let pb = if b == j - 1 { j as int } else if b == j { j - 1 } else { b };
                    assert(order@[a] == before[pa]);
                    assert(order@[b] == before[pb]);
                    assert(pa != pb);
                    if pa < pb {
                        assert(before[pa] != before[pb]);
                    } else {
                        assert(before[pb] != before[pa]);
                    }
                }
            }
            j = j - 1;
        }
        proof {
            if j > 0 {
                // the element at j does not come before the one at j - 1; positions differ, so
                // the one at j - 1 comes first
                assert(order@[j - 1] != order@[j as int]);
            }
        }
        i = i + 1;
    }

    let mut r: Vec<usize> = Vec::new();
    let mut a: usize = 0;
    while a < k
        invariant
            k <= n,
            n == distances@.len(),
            n == order@.len(),
            a <= k,
            r@ == order@.take(a as int),
        decreases k - a,
    {
        r.push(order[a]);
        a = a + 1;
        assert(r@ =~= order@.take(a as int));
    }
    proof {
        assert forall|j: int, b: int|
            0 <= j < n && !r@.contains(j as usize) && 0 <= b < k implies #[trigger] nearer(
                distances@,
                r@[b] as int,
                j,
            ) by {
            assert(order@.contains(j as usize));
            let w = choose|w: int| 0 <= w < n && order@[w] == j as usize;
            if w < k {
                assert(r@[w] == j as usize);
            }
            assert(r@[b] == order@[b]);
            assert(b < w);
            assert(nearer(distances@, order@[b] as int, order@[w] as int));
        }
        assert forall|a: int, b: int|
            0 <= a < b < k && !is_nan_value(distances@[r@[a] as int]) && !is_nan_value(distances@[r@[b] as int])
                implies float_value(distances@[#[trigger] r@[a] as int]) <= float_value(
            distances@[#[trigger] r@[b] as int],
        ) by {
            lemma_nearer_by_value(distances@, r@[a] as int, r@[b] as int);
        }
        assert forall|j: int, a: int|
            0 <= j < n && !r@.contains(j as usize) && 0 <= a < k && !is_nan_value(distances@[j]) && !is_nan_value(
                distances@[r@[a] as int],
            ) implies float_value(distances@[#[trigger] r@[a] as int]) <= float_value(#[trigger] distances@[j]) by {
            assert(nearer(distances@, r@[a] as int, j));
            lemma_nearer_by_value(distances@, r@[a] as int, j);
        }
        assert forall|j: int, a: int|
            0 <= j < n && !r@.contains(j as usize) && 0 <= a < k && #[trigger] distances@[j]
                == distances@[#[trigger] r@[a] as int] implies r@[a] < j by {
            assert(nearer(distances@, r@[a] as int, j));
        }
    }
    r
}

} // verus!
