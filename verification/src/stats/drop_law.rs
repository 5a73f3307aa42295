use vstd::prelude::*;

use crate::stats::column::Column;
use crate::stats::dataset::{dropped, lemma_position_unique, names_of, position_of};

verus! {

/// The named columns of `entries` whose name is not among `keys`, in their order.
pub open spec fn kept(entries: Seq<(String, Column)>, keys: Seq<Seq<char>>) -> Seq<(String, Column)>
    decreases entries.len(),
{
    if entries.len() == 0 {
        entries
    } else {
        let rest = kept(entries.drop_last(), keys);
        if keys.contains(entries.last().0@) {
            rest
        } else {
            rest.push(entries.last())
        }
    }
}

proof fn lemma_kept_nothing(entries: Seq<(String, Column)>, keys: Seq<Seq<char>>)
    requires
        forall|i: int| 0 <= i < entries.len() ==> !keys.contains(#[trigger] entries[i].0@),
    ensures
        kept(entries, keys) == entries,
    decreases entries.len(),
{
    if entries.len() > 0 {
        let e = entries.drop_last();
        assert forall|i: int| 0 <= i < e.len() implies !keys.contains(#[trigger] e[i].0@) by {
            assert(e[i] == entries[i]);
        }
        lemma_kept_nothing(e, keys);
        assert(!keys.contains(entries[entries.len() - 1].0@));
        assert(e.push(entries.last()) =~= entries);
    }
}

proof fn lemma_kept_names(entries: Seq<(String, Column)>, keys: Seq<Seq<char>>)
    requires
        names_of(entries).no_duplicates(),
    ensures
        names_of(kept(entries, keys)).no_duplicates(),
        forall|n: Seq<char>|
            #[trigger] names_of(kept(entries, keys)).contains(n) <==> (names_of(entries).contains(n)
                && !keys.contains(n)),
    decreases entries.len(),
{
    if entries.len() > 0 {
        let e = entries.drop_last();
        let l = entries.last();
        let ne = names_of(e);
        assert(ne =~= names_of(entries).drop_last());
        lemma_kept_names(e, keys);
        let r = kept(e, keys);
        assert forall|n: Seq<char>| names_of(entries).contains(n) <==> (ne.contains(n) || n == l.0@) by {
            if names_of(entries).contains(n) {
                let w = choose|w: int| 0 <= w < names_of(entries).len() && names_of(entries)[w] == n;
                if w < entries.len() - 1 {
                    assert(ne[w] == n);
                }
            }
            if ne.contains(n) {
                let w = choose|w: int| 0 <= w < ne.len() && ne[w] == n;
                assert(names_of(entries)[w] == n);
            }
            if n == l.0@ {
                assert(names_of(entries)[entries.len() - 1] == n);
            }
        }
        assert(!ne.contains(l.0@)) by {
            if ne.contains(l.0@) {
                let w = choose|w: int| 0 <= w < ne.len() && ne[w] == l.0@;
                assert(names_of(entries)[w] == names_of(entries)[entries.len() - 1]);
            }
        }
        if !keys.contains(l.0@) {
            let nr = names_of(r.push(l));
            assert(nr =~= names_of(r).push(l.0@));
            assert forall|n: Seq<char>| nr.contains(n) <==> (names_of(r).contains(n) || n == l.0@) by {
                if nr.contains(n) {
                    let w = choose|w: int| 0 <= w < nr.len() && nr[w] == n;
                    if w < r.len() {
                        assert(names_of(r)[w] == n);
                    }
                }
                if names_of(r).contains(n) {
                    let w = choose|w: int| 0 <= w < names_of(r).len() && names_of(r)[w] == n;
                    assert(nr[w] == n);
                }
                if n == l.0@ {
                    assert(nr[r.len() as int] == n);
                }
            }
            assert forall|a: int, b: int| 0 <= a < nr.len() && 0 <= b < nr.len() && a != b implies nr[a]
                != nr[b] by {
                if a == r.len() {
                    assert(names_of(r).contains(nr[b]));
                } else if b == r.len() {
                    assert(names_of(r).contains(nr[a]));
                }
            }
        }
    }
}

proof fn lemma_kept_then_one(entries: Seq<(String, Column)>, keys: Seq<Seq<char>>, x: Seq<char>)
    ensures
        kept(kept(entries, keys), seq![x]) == kept(entries, keys.push(x)),
    decreases entries.len(),
{
    if entries.len() > 0 {
        let e = entries.drop_last();
        let l = entries.last();
        lemma_kept_then_one(e, keys, x);
        let r = kept(e, keys);
        assert(keys.push(x).contains(l.0@) <==> (keys.contains(l.0@) || l.0@ == x)) by {
            if keys.push(x).contains(l.0@) {
                let w = choose|w: int| 0 <= w < keys.push(x).len() && keys.push(x)[w] == l.0@;
                if w < keys.len() {
                    assert(keys[w] == l.0@);
                }
            }
            if keys.contains(l.0@) {
                let w = choose|w: int| 0 <= w < keys.len() && keys[w] == l.0@;
                assert(keys.push(x)[w] == l.0@);
            }
            if l.0@ == x {
                assert(keys.push(x)[keys.len() as int] == x);
            }
        }
        assert(seq![x].contains(l.0@) <==> l.0@ == x) by {
            if l.0@ == x {
                assert(seq![x][0] == x);
            }
        }
        if !keys.contains(l.0@) {
            assert(r.push(l).drop_last() =~= r);
            assert(r.push(l).last() == l);
        }
    }
}

proof fn lemma_remove_is_kept(entries: Seq<(String, Column)>, x: Seq<char>)
    requires
        names_of(entries).no_duplicates(),
        names_of(entries).contains(x),
    ensures
        entries.remove(position_of(entries, x)) == kept(entries, seq![x]),
    decreases entries.len(),
{
    let e = entries.drop_last();
    let l = entries.last();
    let n = entries.len() - 1;
    assert(names_of(e) =~= names_of(entries).drop_last());
    assert(seq![x].contains(l.0@) <==> l.0@ == x) by {
        if l.0@ == x {
            assert(seq![x][0] == x);
        }
    }
    let w = choose|w: int| 0 <= w < names_of(entries).len() && names_of(entries)[w] == x;
    lemma_position_unique(entries, x, w);
    if l.0@ == x {
        assert(names_of(entries)[n] == x);
        assert(w == n);
        assert(entries.remove(n) =~= e);
        assert forall|i: int| 0 <= i < e.len() implies !seq![x].contains(#[trigger] e[i].0@) by {
            assert(names_of(entries)[i] == e[i].0@);
            if e[i].0@ == x {
                assert(names_of(entries)[i] == names_of(entries)[n]);
            }
        }
        lemma_kept_nothing(e, seq![x]);
    } else {
        assert(w < n);
        assert(names_of(e)[w] == x);
        lemma_position_unique(e, x, w);
        lemma_remove_is_kept(e, x);
        assert(entries.remove(w) =~= e.remove(w).push(l));
    }
}

/// Dropping distinct names keeps exactly the columns whose name was not dropped, in their
/// order, when every dropped name is present; it fails when one is not.
pub proof fn lemma_drop_keeps_the_rest_in_order(entries: Seq<(String, Column)>, keys: Seq<Seq<char>>)
    requires
        names_of(entries).no_duplicates(),
        keys.no_duplicates(),
    ensures
        (forall|k: Seq<char>| #[trigger] keys.contains(k) ==> names_of(entries).contains(k))
            ==> dropped(entries, keys) == Some(kept(entries, keys)),
        !(forall|k: Seq<char>| #[trigger] keys.contains(k) ==> names_of(entries).contains(k))
            ==> dropped(entries, keys) is None,
    decreases keys.len(),
{
    if keys.len() == 0 {
        lemma_kept_nothing(entries, keys);
    } else {
        let ks = keys.drop_last();
        let x = keys.last();
        assert(keys =~= ks.push(x));
        assert forall|k: Seq<char>| keys.contains(k) <==> (ks.contains(k) || k == x) by {
            if keys.contains(k) {
                let w = choose|w: int| 0 <= w < keys.len() && keys[w] == k;
                if w < ks.len() {
                    assert(ks[w] == k);
                }
            }
            if ks.contains(k) {
                let w = choose|w: int| 0 <= w < ks.len() && ks[w] == k;
                assert(keys[w] == k);
            }
            if k == x {
                assert(keys[keys.len() - 1] == x);
            }
        }
        assert(!ks.contains(x)) by {
            if ks.contains(x) {
                let w = choose|w: int| 0 <= w < ks.len() && ks[w] == x;
                assert(keys[w] == keys[keys.len() - 1]);
            }
        }
        lemma_drop_keeps_the_rest_in_order(entries, ks);
        if forall|k: Seq<char>| #[trigger] ks.contains(k) ==> names_of(entries).contains(k) {
            let f = kept(entries, ks);
            lemma_kept_names(entries, ks);
            assert(names_of(f).contains(x) <==> names_of(entries).contains(x));
            if names_of(entries).contains(x) {
                lemma_remove_is_kept(f, x);
                lemma_kept_then_one(entries, ks, x);
            }
        }
    }
}

} // verus!
