//! Stable sort by path, the order every report of this library comes in.
//!
//! The sort is specified as insertion from the back ([`insert_by_key`]):
//! an element moves left only past strictly greater keys, so equal keys keep
//! their input order, as with `slice::sort_by`.

use vstd::prelude::*;
use crate::text::{seq_lt, seq_le, str_lt};

verus! {

/// A value with a path key (the abstract side).
pub trait Keyed {
    spec fn key(&self) -> Seq<char>;
}

/// An executable value whose view carries a path key.
pub trait KeyedExec: View + Sized where <Self as View>::V: Keyed {
    fn key_str(&self) -> (r: &str)
        ensures
            r@ == self@.key(),
    ;
}

/// The views of a sequence of executable values.
pub open spec fn views<T: View>(s: Seq<T>) -> Seq<T::V> {
    s.map_values(|x: T| x@)
}

/// Inserts `x` after every element whose key is not greater than its own,
/// scanning from the back.
pub open spec fn insert_by_key<V: Keyed>(s: Seq<V>, x: V) -> Seq<V>
    decreases s.len(),
{
    if s.len() == 0 {
        seq![x]
    } else if seq_lt(x.key(), s.last().key()) {
        insert_by_key(s.drop_last(), x).push(s.last())
    } else {
        s.push(x)
    }
}

/// Stable sort by key.
pub open spec fn sort_by_key<V: Keyed>(s: Seq<V>) -> Seq<V>
    decreases s.len(),
{
    if s.len() == 0 {
        s
    } else {
        insert_by_key(sort_by_key(s.drop_last()), s.last())
    }
}

/// Keys never decrease along `s`.
pub open spec fn sorted_by_key<V: Keyed>(s: Seq<V>) -> bool {
    forall|i: int, j: int| 0 <= i < j < s.len() ==> seq_le(#[trigger] s[i].key(), #[trigger] s[j].key())
}

proof fn lemma_insert_props<V: Keyed>(s: Seq<V>, x: V)
    requires
        sorted_by_key(s),
    ensures
        sorted_by_key(insert_by_key(s, x)),
        insert_by_key(s, x).to_multiset() =~= s.to_multiset().insert(x),
        insert_by_key(s, x).len() == s.len() + 1,
    decreases s.len(),
{
    broadcast use vstd::seq_lib::group_to_multiset_ensures;
    let r = insert_by_key(s, x);
    if s.len() == 0 {
        assert(r =~= seq![x]);
        assert(seq![x] =~= Seq::<V>::empty().push(x));
    } else if seq_lt(x.key(), s.last().key()) {
        let t = s.drop_last();
        assert forall|i: int, j: int| 0 <= i < j < t.len() implies seq_le(#[trigger] t[i].key(), #[trigger] t[j].key()) by {
            assert(t[i] == s[i] && t[j] == s[j]);
        }
        lemma_insert_props(t, x);
        let u = insert_by_key(t, x);
        assert(r == u.push(s.last()));
        assert forall|i: int, j: int| 0 <= i < j < r.len() implies seq_le(#[trigger] r[i].key(), #[trigger] r[j].key()) by {
            if j == r.len() - 1 {
                // every element of u is either x (< last) or an element of t (<= last)
                let ui = u[i];
                assert(u.to_multiset().count(ui) > 0);
                assert(u.to_multiset() =~= t.to_multiset().insert(x));
                if ui == x {
                    crate::text::lemma_seq_lt_asymmetric(x.key(), s.last().key());
                } else {
                    assert(t.to_multiset().count(ui) > 0);
                    assert(t.contains(ui));
                    let k = choose|k: int| 0 <= k < t.len() && t[k] == ui;
                    assert(s[k] == t[k]);
                    assert(seq_le(s[k].key(), s[s.len() - 1].key()));
                }
            } else {
                assert(r[i] == u[i] && r[j] == u[j]);
            }
        }
        assert(s =~= t.push(s.last()));
    } else {
        assert forall|i: int, j: int| 0 <= i < j < r.len() implies seq_le(#[trigger] r[i].key(), #[trigger] r[j].key()) by {
            if j == r.len() - 1 {
                assert(r[j] == x);
                assert(r[i] == s[i]);
                if i < s.len() - 1 {
                    assert(seq_le(s[i].key(), s[s.len() - 1].key()));
                    if seq_lt(x.key(), s[i].key()) {
                        crate::text::lemma_seq_lt_total(s[i].key(), s.last().key());
                        if seq_lt(s[i].key(), s.last().key()) {
                            crate::text::lemma_seq_lt_transitive(x.key(), s[i].key(), s.last().key());
                        }
                    }
                }
            } else {
                assert(r[i] == s[i] && r[j] == s[j]);
            }
        }
    }
}

/// The sort yields keys in non-decreasing order and the same elements.
pub proof fn lemma_sort_props<V: Keyed>(s: Seq<V>)
    ensures
        sorted_by_key(sort_by_key(s)),
        sort_by_key(s).to_multiset() =~= s.to_multiset(),
        sort_by_key(s).len() == s.len(),
    decreases s.len(),
{
    broadcast use vstd::seq_lib::group_to_multiset_ensures;
    if s.len() > 0 {
        lemma_sort_props(s.drop_last());
        lemma_insert_props(sort_by_key(s.drop_last()), s.last());
        assert(s =~= s.drop_last().push(s.last()));
    }
}

proof fn lemma_insert_at<V: Keyed>(s: Seq<V>, x: V, j: int)
    requires
        0 < j <= s.len(),
        seq_lt(x.key(), s[j - 1].key()),
        insert_by_key(s, x) == insert_by_key(s.take(j), x) + s.skip(j),
    ensures
        insert_by_key(s, x) == insert_by_key(s.take(j - 1), x) + s.skip(j - 1),
{
    let t = s.take(j);
    assert(t.drop_last() =~= s.take(j - 1));
    assert(t.last() == s[j - 1]);
    assert(insert_by_key(t, x) == insert_by_key(s.take(j - 1), x).push(s[j - 1]));
    assert(insert_by_key(s.take(j - 1), x).push(s[j - 1]) + s.skip(j) =~= insert_by_key(s.take(j - 1), x) + s.skip(j - 1));
}

/// Inserts `x` into `out` as [`insert_by_key`] does.
fn insert_into<T: KeyedExec>(out: &mut Vec<T>, x: T)
    where <T as View>::V: Keyed,
    ensures
        views(final(out)@) == insert_by_key(views(old(out)@), x@),
{
    let ghost s = views(out@);
    let mut j = out.len();
    assert(s.take(j as int) =~= s);
    assert(s.skip(j as int) =~= Seq::<T::V>::empty());
    assert(insert_by_key(s, x@) =~= insert_by_key(s.take(j as int), x@) + s.skip(j as int));
    while j > 0 && str_lt(x.key_str(), out[j - 1].key_str())
        invariant
            j <= out@.len(),
            s == views(out@),
            insert_by_key(s, x@) == insert_by_key(s.take(j as int), x@) + s.skip(j as int),
        decreases j,
    {
        assert(s[j - 1] == out@[j - 1]@);
        proof {
            lemma_insert_at(s, x@, j as int);
        }
        j = j - 1;
    }
    let ghost old_out = out@;
    out.insert(j, x);
    proof {
        let t = s.take(j as int);
        if j > 0 {
            assert(t.last() == s[j - 1]);
            assert(t.drop_last().push(t.last()) =~= t);
        }
        assert(insert_by_key(t, x@) =~= t.push(x@));
        assert(views(out@) =~= t.push(x@) + s.skip(j as int));
    }
}

/// Stable sort of `v` by path key.
pub fn sort_by_path<T: KeyedExec>(v: Vec<T>) -> (r: Vec<T>)
    where <T as View>::V: Keyed,
    ensures
        views(r@) == sort_by_key(views(v@)),
{
    let ghost orig = views(v@);
    let mut rest = v;
    let mut out: Vec<T> = Vec::new();
    let ghost mut k: int = 0;
    assert(orig.skip(0) =~= orig);
    assert(orig.take(0) =~= Seq::<T::V>::empty());
    while rest.len() > 0
        invariant
            0 <= k <= orig.len(),
            views(rest@) == orig.skip(k),
            rest@.len() == orig.len() - k,
            views(out@) == sort_by_key(orig.take(k)),
        decreases rest@.len(),
    {
        let ghost before = rest@;
        assert(views(before)[0] == before[0]@);
        assert(orig.skip(k)[0] == orig[k]);
        let x = rest.remove(0);
        assert(x@ == orig[k]);
        insert_into(&mut out, x);
        proof {
            assert(orig.take(k + 1).drop_last() =~= orig.take(k));
            assert(orig.take(k + 1).last() == orig[k]);
            assert forall|i: int| 0 <= i < rest@.len() implies views(rest@)[i] == orig.skip(k + 1)[i] by {
                assert(rest@[i] == before[i + 1]);
                assert(views(before)[i + 1] == before[i + 1]@);
                assert(orig.skip(k)[i + 1] == orig[k + 1 + i]);
            }
            assert(views(rest@) =~= orig.skip(k + 1));
            k = k + 1;
        }
    }
    assert(orig.take(k) =~= orig);
    out
}

} // verus!

verus! {

impl Keyed for Seq<char> {
    open spec fn key(&self) -> Seq<char> {
        *self
    }
}

impl KeyedExec for String {
    fn key_str(&self) -> (r: &str) {
        self.as_str()
    }
}

} // verus!

verus! {

/// Sorting an already sorted sequence changes nothing.
pub proof fn lemma_sort_sorted_identity<V: Keyed>(s: Seq<V>)
    requires
        sorted_by_key(s),
    ensures
        sort_by_key(s) == s,
    decreases s.len(),
{
    if s.len() > 0 {
        let t = s.drop_last();
        assert forall|i: int, j: int| 0 <= i < j < t.len() implies seq_le(#[trigger] t[i].key(), #[trigger] t[j].key()) by {
            assert(t[i] == s[i] && t[j] == s[j]);
        }
        lemma_sort_sorted_identity(t);
        if t.len() > 0 {
            assert(seq_le(s[t.len() - 1].key(), s[s.len() - 1].key()));
            assert(t.last() == s[t.len() - 1]);
        }
        assert(t.push(s.last()) =~= s);
    }
}

/// Sorting twice is sorting once.
pub proof fn lemma_sort_idempotent<V: Keyed>(s: Seq<V>)
    ensures
        sort_by_key(sort_by_key(s)) == sort_by_key(s),
{
    lemma_sort_props(s);
    lemma_sort_sorted_identity(sort_by_key(s));
}

/// Within `s`, elements with equal keys are equal.
pub open spec fn keys_identify<V: Keyed>(s: Seq<V>) -> bool {
    forall|i: int, j: int|
        0 <= i < s.len() && 0 <= j < s.len() && #[trigger] s[i].key() == #[trigger] s[j].key() ==> s[i] == s[j]
}

/// Two sorted sequences with the same elements, in which equal keys mean
/// equal elements, are the same sequence.
pub proof fn lemma_sorted_unique<V: Keyed>(s: Seq<V>, t: Seq<V>)
    requires
        sorted_by_key(s),
        sorted_by_key(t),
        s.to_multiset() == t.to_multiset(),
        keys_identify(s),
    ensures
        s == t,
    decreases s.len(),
{
    broadcast use vstd::seq_lib::group_to_multiset_ensures;
    assert(s.len() == s.to_multiset().len());
    assert(t.len() == t.to_multiset().len());
    if s.len() == 0 {
        assert(s =~= t);
    } else {
        let a = s[0];
        let b = t[0];
        assert(t.to_multiset().count(a) > 0);
        assert(t.contains(a));
        let k = choose|k: int| 0 <= k < t.len() && t[k] == a;
        if k > 0 {
            assert(seq_le(t[0].key(), t[k].key()));
        } else {
            crate::text::lemma_seq_lt_irreflexive(a.key());
        }
        assert(s.to_multiset().count(b) > 0);
        assert(s.contains(b));
        let m = choose|m: int| 0 <= m < s.len() && s[m] == b;
        if m > 0 {
            assert(seq_le(s[0].key(), s[m].key()));
        } else {
            crate::text::lemma_seq_lt_irreflexive(b.key());
        }
        crate::text::lemma_seq_lt_total(a.key(), b.key());
        assert(s[m].key() == s[0].key());
        assert(a == b);
        let s1 = s.drop_first();
        let t1 = t.drop_first();
        assert(s.remove(0) =~= s1);
        assert(t.remove(0) =~= t1);
        assert(s1.to_multiset() =~= t1.to_multiset());
        assert forall|i: int, j: int| 0 <= i < j < s1.len() implies seq_le(#[trigger] s1[i].key(), #[trigger] s1[j].key()) by {
            assert(s1[i] == s[i + 1] && s1[j] == s[j + 1]);
        }
        assert forall|i: int, j: int| 0 <= i < j < t1.len() implies seq_le(#[trigger] t1[i].key(), #[trigger] t1[j].key()) by {
            assert(t1[i] == t[i + 1] && t1[j] == t[j + 1]);
        }
        assert forall|i: int, j: int|
            0 <= i < s1.len() && 0 <= j < s1.len() && #[trigger] s1[i].key() == #[trigger] s1[j].key() implies s1[i] == s1[j] by {
            assert(s1[i] == s[i + 1] && s1[j] == s[j + 1]);
        }
        lemma_sorted_unique(s1, t1);
        assert(s =~= seq![a] + s1);
        assert(t =~= seq![b] + t1);
    }
}

/// Inserting commutes with a map that keeps keys.
proof fn lemma_insert_map<V: Keyed>(s: Seq<V>, x: V, f: spec_fn(V) -> V)
    requires
        forall|y: V| #[trigger] f(y).key() == y.key(),
    ensures
        insert_by_key(s.map_values(f), f(x)) == insert_by_key(s, x).map_values(f),
    decreases s.len(),
{
    let sm = s.map_values(f);
    assert(f(x).key() == x.key());
    if s.len() == 0 {
        assert(insert_by_key(s, x).map_values(f) =~= seq![f(x)]);
    } else {
        assert(sm.last() == f(s.last()));
        assert(f(s.last()).key() == s.last().key());
        assert(sm.drop_last() =~= s.drop_last().map_values(f));
        if seq_lt(x.key(), s.last().key()) {
            lemma_insert_map(s.drop_last(), x, f);
            assert(insert_by_key(s, x).map_values(f) =~= insert_by_key(s.drop_last(), x).map_values(f).push(f(s.last())));
        } else {
            assert(insert_by_key(s, x).map_values(f) =~= sm.push(f(x)));
        }
    }
}

/// Sorting commutes with a map that keeps keys.
pub proof fn lemma_sort_map<V: Keyed>(s: Seq<V>, f: spec_fn(V) -> V)
    requires
        forall|y: V| #[trigger] f(y).key() == y.key(),
    ensures
        sort_by_key(s.map_values(f)) == sort_by_key(s).map_values(f),
    decreases s.len(),
{
    let sm = s.map_values(f);
    if s.len() == 0 {
        assert(sort_by_key(s).map_values(f) =~= sm);
    } else {
        assert(sm.drop_last() =~= s.drop_last().map_values(f));
        assert(sm.last() == f(s.last()));
        lemma_sort_map(s.drop_last(), f);
        lemma_insert_map(sort_by_key(s.drop_last()), s.last(), f);
    }
}

/// No key occurs twice in `s`.
pub open spec fn keys_distinct<V: Keyed>(s: Seq<V>) -> bool {
    forall|i: int, j: int| 0 <= i < j < s.len() ==> #[trigger] s[i].key() != #[trigger] s[j].key()
}

/// Sorting keeps keys distinct.
pub proof fn lemma_sort_keys_distinct<V: Keyed>(s: Seq<V>)
    requires
        keys_distinct(s),
    ensures
        keys_distinct(sort_by_key(s)),
{
    broadcast use vstd::seq_lib::group_to_multiset_ensures;
    lemma_sort_props(s);
    let t = sort_by_key(s);
    assert forall|i: int, j: int| 0 <= i < j < t.len() implies #[trigger] t[i].key() != #[trigger] t[j].key() by {
        if t[i].key() == t[j].key() {
            assert(t.to_multiset().count(t[i]) > 0);
            assert(t.to_multiset().count(t[j]) > 0);
            assert(s.contains(t[i]));
            assert(s.contains(t[j]));
            let p = choose|p: int| 0 <= p < s.len() && s[p] == t[i];
            let q = choose|q: int| 0 <= q < s.len() && s[q] == t[j];
            assert(p == q);
            let x = t[i];
            // x occurs twice in t but once in s
            assert(t.remove(j).to_multiset() == t.to_multiset().remove(t[j]));
            assert(t.remove(j)[i] == x);
            assert(t.remove(j).contains(x));
            assert(t.remove(j).to_multiset().count(x) > 0);
            assert(s.remove(p).to_multiset() == s.to_multiset().remove(s[p]));
            assert(!s.remove(p).contains(x)) by {
                if s.remove(p).contains(x) {
                    let r = choose|r: int| 0 <= r < s.remove(p).len() && s.remove(p)[r] == x;
                    if r < p {
                        assert(s[r] == x);
                    } else {
                        assert(s[r + 1] == x);
                    }
                }
            }
            assert(s.remove(p).to_multiset().count(x) == 0);
            assert(t.to_multiset().count(x) >= 2);
            assert(s.to_multiset().count(x) == 1);
        }
    }
}

} // verus!
