//! Compare two [`ApiSnapshot`]s item-by-item.
//!
//! Indexing is by `Item::path`. A path present in both snapshots with a
//! different `sig` or `kind` becomes a [`Changed`]; paths only on one side
//! become added/removed. Same path + same sig + same kind = unchanged and
//! is not reported. Duplicate paths: the last item with a path wins, on both
//! sides.

use vstd::prelude::*;
use crate::snapshot::{ApiSnapshot, Item, ItemKind, ItemView, copy_items};
use crate::sorting::{Keyed, KeyedExec, sort_by_key, sort_by_path, views};
use crate::text::str_eq;

verus! {

/// One item whose path exists in both snapshots but whose shape moved.
#[derive(Debug, PartialEq, Eq)]
pub struct Changed {
    /// Canonical path, e.g. `arniko::Alert::new`.
    pub path: String,
    /// Kind before / after (equal when only the signature moved).
    pub old_kind: ItemKind,
    /// Kind before / after (equal when only the signature moved).
    pub new_kind: ItemKind,
    /// Rendered signature before / after.
    pub old_sig: String,
    /// Rendered signature before / after.
    pub new_sig: String,
}

/// Abstract value of a [`Changed`].
pub struct ChangedView {
    pub path: Seq<char>,
    pub old_kind: ItemKind,
    pub new_kind: ItemKind,
    pub old_sig: Seq<char>,
    pub new_sig: Seq<char>,
}

impl View for Changed {
    type V = ChangedView;

    open spec fn view(&self) -> ChangedView {
        ChangedView {
            path: self.path@,
            old_kind: self.old_kind,
            new_kind: self.new_kind,
            old_sig: self.old_sig@,
            new_sig: self.new_sig@,
        }
    }
}

impl Keyed for ChangedView {
    open spec fn key(&self) -> Seq<char> {
        self.path
    }
}

impl KeyedExec for Changed {
    fn key_str(&self) -> (r: &str) {
        self.path.as_str()
    }
}

impl Clone for Changed {
    fn clone(&self) -> (r: Self)
        ensures
            r@ == self@,
    {
        Changed {
            path: self.path.clone(),
            old_kind: self.old_kind,
            new_kind: self.new_kind,
            old_sig: self.old_sig.clone(),
            new_sig: self.new_sig.clone(),
        }
    }
}

/// The raw old-vs-new comparison.
#[derive(Debug, PartialEq, Eq)]
pub struct ApiDiff {
    /// Paths only in the new snapshot.
    pub added: Vec<Item>,
    /// Paths only in the old snapshot.
    pub removed: Vec<Item>,
    /// Paths in both, with a different kind or signature.
    pub changed: Vec<Changed>,
}

/// Abstract value of an [`ApiDiff`].
pub struct ApiDiffView {
    pub added: Seq<ItemView>,
    pub removed: Seq<ItemView>,
    pub changed: Seq<ChangedView>,
}

impl View for ApiDiff {
    type V = ApiDiffView;

    open spec fn view(&self) -> ApiDiffView {
        ApiDiffView {
            added: views(self.added@),
            removed: views(self.removed@),
            changed: views(self.changed@),
        }
    }
}

impl Default for ApiDiff {
    fn default() -> (r: Self)
        ensures
            r@.added.len() == 0,
            r@.removed.len() == 0,
            r@.changed.len() == 0,
    {
        ApiDiff { added: Vec::new(), removed: Vec::new(), changed: Vec::new() }
    }
}

impl ApiDiff {
    /// True when nothing was added, removed, or changed.
    pub fn is_empty(&self) -> (r: bool)
        ensures
            r == (self@.added.len() == 0 && self@.removed.len() == 0 && self@.changed.len() == 0),
    {
        self.added.len() == 0 && self.removed.len() == 0 && self.changed.len() == 0
    }

    /// Total number of reported entries.
    pub fn len(&self) -> (r: usize)
        requires
            self@.added.len() + self@.removed.len() + self@.changed.len() <= usize::MAX,
        ensures
            r == self@.added.len() + self@.removed.len() + self@.changed.len(),
    {
        self.added.len() + self.removed.len() + self.changed.len()
    }
}

/// Index of the last item whose path is `p` among the first `n`, or -1.
pub open spec fn last_index_upto(items: Seq<ItemView>, p: Seq<char>, n: int) -> int
    decreases n,
{
    if n <= 0 {
        -1
    } else if items[n - 1].path == p {
        n - 1
    } else {
        last_index_upto(items, p, n - 1)
    }
}

/// Index of the last item whose path is `p`, or -1 when no item has it:
/// the item that wins for `p`.
pub open spec fn last_index(items: Seq<ItemView>, p: Seq<char>) -> int {
    last_index_upto(items, p, items.len() as int)
}

/// The elements `f(i)`, for the indices `i < n` that `keep` holds of, in
/// index order.
pub open spec fn collect<V>(n: int, keep: spec_fn(int) -> bool, f: spec_fn(int) -> V) -> Seq<V>
    decreases n,
{
    if n <= 0 {
        Seq::empty()
    } else if keep(n - 1) {
        collect(n - 1, keep, f).push(f(n - 1))
    } else {
        collect(n - 1, keep, f)
    }
}

/// Old items that win their path and whose path the new side lacks.
pub open spec fn removed_keep(old: Seq<ItemView>, new: Seq<ItemView>) -> spec_fn(int) -> bool {
    |i: int| last_index(old, old[i].path) == i && last_index(new, old[i].path) < 0
}

/// New items that win their path and whose path the old side lacks.
pub open spec fn added_keep(old: Seq<ItemView>, new: Seq<ItemView>) -> spec_fn(int) -> bool {
    |i: int| last_index(new, new[i].path) == i && last_index(old, new[i].path) < 0
}

/// Old winners whose path the new side has, with another kind or sig there.
pub open spec fn changed_keep(old: Seq<ItemView>, new: Seq<ItemView>) -> spec_fn(int) -> bool {
    |i: int|
        {
            let w = last_index(new, old[i].path);
            &&& last_index(old, old[i].path) == i
            &&& w >= 0
            &&& (old[i].sig != new[w].sig || old[i].kind != new[w].kind)
        }
}

/// The change record of old winner `i` against the new winner of its path.
pub open spec fn changed_at(old: Seq<ItemView>, new: Seq<ItemView>) -> spec_fn(int) -> ChangedView {
    |i: int|
        {
            let w = last_index(new, old[i].path);
            ChangedView {
                path: old[i].path,
                old_kind: old[i].kind,
                new_kind: new[w].kind,
                old_sig: old[i].sig,
                new_sig: new[w].sig,
            }
        }
}

pub open spec fn item_at(s: Seq<ItemView>) -> spec_fn(int) -> ItemView {
    |i: int| s[i]
}

/// Items only in `new`, sorted by path.
pub open spec fn added_spec(old: Seq<ItemView>, new: Seq<ItemView>) -> Seq<ItemView> {
    sort_by_key(collect(new.len() as int, added_keep(old, new), item_at(new)))
}

/// Items only in `old`, sorted by path.
pub open spec fn removed_spec(old: Seq<ItemView>, new: Seq<ItemView>) -> Seq<ItemView> {
    sort_by_key(collect(old.len() as int, removed_keep(old, new), item_at(old)))
}

/// Paths on both sides whose winners differ in kind or sig, sorted by path.
pub open spec fn changed_spec(old: Seq<ItemView>, new: Seq<ItemView>) -> Seq<ChangedView> {
    sort_by_key(collect(old.len() as int, changed_keep(old, new), changed_at(old, new)))
}

proof fn lemma_last_index_upto(items: Seq<ItemView>, p: Seq<char>, n: int)
    requires
        0 <= n <= items.len(),
    ensures
        -1 <= last_index_upto(items, p, n) < n,
        last_index_upto(items, p, n) >= 0 ==> items[last_index_upto(items, p, n)].path == p,
        forall|j: int| last_index_upto(items, p, n) < j < n ==> items[j].path != p,
        last_index_upto(items, p, n) < 0 ==> forall|j: int| 0 <= j < n ==> items[j].path != p,
    decreases n,
{
    if n > 0 {
        lemma_last_index_upto(items, p, n - 1);
    }
}

/// What [`last_index`] says of a path.
pub proof fn lemma_last_index(items: Seq<ItemView>, p: Seq<char>)
    ensures
        -1 <= last_index(items, p) < items.len(),
        last_index(items, p) >= 0 ==> items[last_index(items, p)].path == p,
        forall|j: int| last_index(items, p) < j < items.len() ==> items[j].path != p,
        last_index(items, p) < 0 <==> forall|j: int| 0 <= j < items.len() ==> items[j].path != p,
{
    lemma_last_index_upto(items, p, items.len() as int);
}

/// Exec [`last_index`].
fn find_last(items: &Vec<Item>, p: &str) -> (r: Option<usize>)
    ensures
        r matches Some(j) ==> last_index(views(items@), p@) == j as int,
        r is None ==> last_index(views(items@), p@) == -1,
        r matches Some(j) ==> j < items@.len(),
{
    let ghost s = views(items@);
    proof {
        lemma_last_index(s, p@);
    }
    let mut n = items.len();
    while n > 0
        invariant
            n <= items@.len(),
            s == views(items@),
            last_index(s, p@) == last_index_upto(s, p@, n as int),
        decreases n,
    {
        assert(s[n - 1] == items@[n - 1]@);
        if str_eq(items[n - 1].path.as_str(), p) {
            return Some(n - 1);
        }
        n = n - 1;
    }
    None
}

/// Compare `old` against `new`. Duplicate paths: last item wins.
pub fn diff_snapshots(old: &ApiSnapshot, new: &ApiSnapshot) -> (d: ApiDiff)
    ensures
        d@.added == added_spec(old@.items, new@.items),
        d@.removed == removed_spec(old@.items, new@.items),
        d@.changed == changed_spec(old@.items, new@.items),
{
    let ghost o = old@.items;
    let ghost n = new@.items;
    let mut removed: Vec<Item> = Vec::new();
    let mut changed: Vec<Changed> = Vec::new();
    let mut i: usize = 0;
    while i < old.items.len()
        invariant
            i <= old.items@.len(),
            o == old@.items,
            n == new@.items,
            views(removed@) == collect(i as int, removed_keep(o, n), item_at(o)),
            views(changed@) == collect(i as int, changed_keep(o, n), changed_at(o, n)),
        decreases old.items@.len() - i,
    {
        let item = &old.items[i];
        assert(o[i as int] == item@);
        let winner = find_last(&old.items, item.path.as_str());
        let other = find_last(&new.items, item.path.as_str());
        let ghost before_r = removed@;
        let ghost before_c = changed@;
        match (winner, other) {
            (Some(w), None) => {
                if w == i {
                    removed.push(item.clone());
                }
            },
            (Some(w), Some(k)) => {
                let nitem = &new.items[k];
                assert(n[k as int] == nitem@);
                if w == i && (!str_eq(item.sig.as_str(), nitem.sig.as_str()) || item.kind != nitem.kind) {
                    changed.push(Changed {
                        path: item.path.clone(),
                        old_kind: item.kind,
                        new_kind: nitem.kind,
                        old_sig: item.sig.clone(),
                        new_sig: nitem.sig.clone(),
                    });
                }
            },
            (None, _) => {
                proof {
                    lemma_last_index(o, o[i as int].path);
                }
            },
        }
        proof {
            lemma_last_index(o, o[i as int].path);
            assert forall|k: int| 0 <= k < removed@.len() implies #[trigger] views(removed@)[k] == collect(i + 1, removed_keep(o, n), item_at(o))[k] by {
                if k < before_r.len() {
                    assert(removed@[k] == before_r[k]);
                    assert(views(before_r)[k] == before_r[k]@);
                }
            }
            assert(views(removed@) =~= collect(i + 1, removed_keep(o, n), item_at(o)));
            assert forall|k: int| 0 <= k < changed@.len() implies #[trigger] views(changed@)[k] == collect(i + 1, changed_keep(o, n), changed_at(o, n))[k] by {
                if k < before_c.len() {
                    assert(changed@[k] == before_c[k]);
                    assert(views(before_c)[k] == before_c[k]@);
                }
            }
            assert(views(changed@) =~= collect(i + 1, changed_keep(o, n), changed_at(o, n)));
        }
        i = i + 1;
    }
    let mut added: Vec<Item> = Vec::new();
    let mut j: usize = 0;
    while j < new.items.len()
        invariant
            j <= new.items@.len(),
            o == old@.items,
            n == new@.items,
            views(added@) == collect(j as int, added_keep(o, n), item_at(n)),
        decreases new.items@.len() - j,
    {
        let item = &new.items[j];
        assert(n[j as int] == item@);
        let winner = find_last(&new.items, item.path.as_str());
        let other = find_last(&old.items, item.path.as_str());
        let ghost before_a = added@;
        if other.is_none() {
            if let Some(w) = winner {
                if w == j {
                    added.push(item.clone());
                }
            }
        }
        proof {
            lemma_last_index(n, n[j as int].path);
            assert forall|k: int| 0 <= k < added@.len() implies #[trigger] views(added@)[k] == collect(j + 1, added_keep(o, n), item_at(n))[k] by {
                if k < before_a.len() {
                    assert(added@[k] == before_a[k]);
                    assert(views(before_a)[k] == before_a[k]@);
                }
            }
            assert(views(added@) =~= collect(j + 1, added_keep(o, n), item_at(n)));
        }
        j = j + 1;
    }
    ApiDiff {
        added: sort_by_path(added),
        removed: sort_by_path(removed),
        changed: sort_by_path(changed),
    }
}

} // verus!

verus! {

proof fn lemma_collect_none<V>(n: int, keep: spec_fn(int) -> bool, f: spec_fn(int) -> V)
    requires
        forall|i: int| 0 <= i < n ==> !#[trigger] keep(i),
    ensures
        collect(n, keep, f) == Seq::<V>::empty(),
    decreases n,
{
    if n > 0 {
        lemma_collect_none(n - 1, keep, f);
    }
}

/// Membership in [`collect`].
pub proof fn lemma_collect_contains<V>(n: int, keep: spec_fn(int) -> bool, f: spec_fn(int) -> V, x: V)
    ensures
        collect(n, keep, f).contains(x) <==> exists|i: int| 0 <= i < n && #[trigger] keep(i) && f(i) == x,
    decreases n,
{
    if n > 0 {
        lemma_collect_contains(n - 1, keep, f, x);
        let r = collect(n - 1, keep, f);
        if keep(n - 1) {
            let s = r.push(f(n - 1));
            if s.contains(x) {
                let k = choose|k: int| 0 <= k < s.len() && s[k] == x;
                if k < r.len() {
                    assert(r[k] == x);
                    assert(r.contains(x));
                }
            }
            if exists|i: int| 0 <= i < n && #[trigger] keep(i) && f(i) == x {
                let i = choose|i: int| 0 <= i < n && #[trigger] keep(i) && f(i) == x;
                if i < n - 1 {
                    assert(r.contains(x));
                    let k = choose|k: int| 0 <= k < r.len() && r[k] == x;
                    assert(s[k] == x);
                } else {
                    assert(s[r.len() as int] == x);
                }
            }
        }
    }
}

/// Membership survives the sort.
pub proof fn lemma_sort_contains<V: Keyed>(s: Seq<V>, x: V)
    ensures
        sort_by_key(s).contains(x) <==> s.contains(x),
{
    broadcast use vstd::seq_lib::group_to_multiset_ensures;
    crate::sorting::lemma_sort_props(s);
    s.to_multiset_ensures();
    sort_by_key(s).to_multiset_ensures();
    assert(sort_by_key(s).to_multiset().count(x) == s.to_multiset().count(x));
}

/// A snapshot compared with itself reports nothing: the same path, sig and
/// kind on both sides is unchanged.
pub proof fn law_diff_self_is_empty(s: Seq<ItemView>)
    ensures
        added_spec(s, s).len() == 0,
        removed_spec(s, s).len() == 0,
        changed_spec(s, s).len() == 0,
{
    assert forall|i: int| 0 <= i < s.len() implies !#[trigger] added_keep(s, s)(i) && !removed_keep(s, s)(i) && !changed_keep(s, s)(i) by {
        lemma_last_index(s, s[i].path);
    }
    lemma_collect_none(s.len() as int, added_keep(s, s), item_at(s));
    lemma_collect_none(s.len() as int, removed_keep(s, s), item_at(s));
    lemma_collect_none(s.len() as int, changed_keep(s, s), changed_at(s, s));
}

/// What one side adds, the other side removes: `added` of (a, b) is exactly
/// `removed` of (b, a).
pub proof fn law_added_mirrors_removed(a: Seq<ItemView>, b: Seq<ItemView>)
    ensures
        added_spec(a, b) == removed_spec(b, a),
{
    assert(added_keep(a, b) =~= removed_keep(b, a));
    assert(item_at(b) =~= item_at(b));
}

/// The same change with its two sides exchanged.
pub open spec fn swapped(c: ChangedView) -> ChangedView {
    ChangedView {
        path: c.path,
        old_kind: c.new_kind,
        new_kind: c.old_kind,
        old_sig: c.new_sig,
        new_sig: c.old_sig,
    }
}

/// A change reported from a to b is reported from b to a with its sides
/// exchanged.
pub proof fn law_changed_mirrors(a: Seq<ItemView>, b: Seq<ItemView>, c: ChangedView)
    requires
        changed_spec(a, b).contains(c),
    ensures
        changed_spec(b, a).contains(swapped(c)),
{
    let ca = collect(a.len() as int, changed_keep(a, b), changed_at(a, b));
    let cb = collect(b.len() as int, changed_keep(b, a), changed_at(b, a));
    lemma_sort_contains(ca, c);
    lemma_collect_contains(a.len() as int, changed_keep(a, b), changed_at(a, b), c);
    let i = choose|i: int| 0 <= i < a.len() && #[trigger] changed_keep(a, b)(i) && changed_at(a, b)(i) == c;
    let p = a[i].path;
    let w = last_index(b, p);
    lemma_last_index(b, p);
    lemma_last_index(a, p);
    assert(b[w].path == p);
    assert(changed_keep(b, a)(w));
    assert(changed_at(b, a)(w) == swapped(c));
    lemma_collect_contains(b.len() as int, changed_keep(b, a), changed_at(b, a), swapped(c));
    lemma_sort_contains(cb, swapped(c));
}

/// Each list of a diff comes sorted by path.
pub proof fn law_diff_sorted(a: Seq<ItemView>, b: Seq<ItemView>)
    ensures
        crate::sorting::sorted_by_key(added_spec(a, b)),
        crate::sorting::sorted_by_key(removed_spec(a, b)),
        crate::sorting::sorted_by_key(changed_spec(a, b)),
{
    crate::sorting::lemma_sort_props(collect(b.len() as int, added_keep(a, b), item_at(b)));
    crate::sorting::lemma_sort_props(collect(a.len() as int, removed_keep(a, b), item_at(a)));
    crate::sorting::lemma_sort_props(collect(a.len() as int, changed_keep(a, b), changed_at(a, b)));
}

/// A collection whose kept indices have pairwise distinct keys has
/// distinct keys.
proof fn lemma_collect_keys_distinct<V: Keyed>(n: int, keep: spec_fn(int) -> bool, f: spec_fn(int) -> V)
    requires
        forall|i: int, j: int| 0 <= i < n && 0 <= j < n && keep(i) && keep(j) && #[trigger] f(i).key() == #[trigger] f(j).key() ==> i == j,
    ensures
        crate::sorting::keys_distinct(collect(n, keep, f)),
    decreases n,
{
    if n > 0 {
        lemma_collect_keys_distinct(n - 1, keep, f);
        let r = collect(n - 1, keep, f);
        if keep(n - 1) {
            let s = r.push(f(n - 1));
            assert forall|a: int, b: int| 0 <= a < b < s.len() implies #[trigger] s[a].key() != #[trigger] s[b].key() by {
                if b == s.len() - 1 {
                    assert(r.contains(s[a]));
                    lemma_collect_contains(n - 1, keep, f, s[a]);
                    let i = choose|i: int| 0 <= i < n - 1 && #[trigger] keep(i) && f(i) == s[a];
                    assert(f(i).key() != f(n - 1).key());
                } else {
                    assert(s[a] == r[a] && s[b] == r[b]);
                }
            }
        }
    }
}

/// A diff reports each path at most once: every list has distinct paths;
/// added paths are only in `b`, removed paths only in `a`, changed paths in
/// both; so the three lists together are no longer than the number of
/// distinct paths of the two snapshots.
pub proof fn law_diff_paths_once(a: Seq<ItemView>, b: Seq<ItemView>)
    ensures
        crate::sorting::keys_distinct(added_spec(a, b)),
        crate::sorting::keys_distinct(removed_spec(a, b)),
        crate::sorting::keys_distinct(changed_spec(a, b)),
        forall|x: ItemView| #[trigger] added_spec(a, b).contains(x) ==> last_index(a, x.path) < 0 && last_index(b, x.path) >= 0,
        forall|x: ItemView| #[trigger] removed_spec(a, b).contains(x) ==> last_index(a, x.path) >= 0 && last_index(b, x.path) < 0,
        forall|x: ChangedView| #[trigger] changed_spec(a, b).contains(x) ==> last_index(a, x.path) >= 0 && last_index(b, x.path) >= 0,
        added_spec(a, b).len() + removed_spec(a, b).len() + changed_spec(a, b).len() <= (a.map_values(
            |i: ItemView| i.path,
        ).to_set() + b.map_values(|i: ItemView| i.path).to_set()).len(),
{
    let ca = collect(b.len() as int, added_keep(a, b), item_at(b));
    let cr = collect(a.len() as int, removed_keep(a, b), item_at(a));
    let cc = collect(a.len() as int, changed_keep(a, b), changed_at(a, b));
    assert forall|i: int, j: int|
        0 <= i < b.len() && 0 <= j < b.len() && added_keep(a, b)(i) && added_keep(a, b)(j) && #[trigger] item_at(b)(i).key()
            == #[trigger] item_at(b)(j).key() implies i == j by {}
    assert forall|i: int, j: int|
        0 <= i < a.len() && 0 <= j < a.len() && removed_keep(a, b)(i) && removed_keep(a, b)(j) && #[trigger] item_at(a)(i).key()
            == #[trigger] item_at(a)(j).key() implies i == j by {}
    assert forall|i: int, j: int|
        0 <= i < a.len() && 0 <= j < a.len() && changed_keep(a, b)(i) && changed_keep(a, b)(j) && #[trigger] changed_at(a, b)(
            i,
        ).key() == #[trigger] changed_at(a, b)(j).key() implies i == j by {}
    lemma_collect_keys_distinct(b.len() as int, added_keep(a, b), item_at(b));
    lemma_collect_keys_distinct(a.len() as int, removed_keep(a, b), item_at(a));
    lemma_collect_keys_distinct(a.len() as int, changed_keep(a, b), changed_at(a, b));
    crate::sorting::lemma_sort_keys_distinct(ca);
    crate::sorting::lemma_sort_keys_distinct(cr);
    crate::sorting::lemma_sort_keys_distinct(cc);
    assert forall|x: ItemView| #[trigger] added_spec(a, b).contains(x) implies last_index(a, x.path) < 0 && last_index(b, x.path) >= 0 by {
        lemma_sort_contains(ca, x);
        lemma_collect_contains(b.len() as int, added_keep(a, b), item_at(b), x);
    }
    assert forall|x: ItemView| #[trigger] removed_spec(a, b).contains(x) implies last_index(a, x.path) >= 0 && last_index(b, x.path) < 0 by {
        lemma_sort_contains(cr, x);
        lemma_collect_contains(a.len() as int, removed_keep(a, b), item_at(a), x);
    }
    assert forall|x: ChangedView| #[trigger] changed_spec(a, b).contains(x) implies last_index(a, x.path) >= 0 && last_index(b, x.path) >= 0 by {
        lemma_sort_contains(cc, x);
        lemma_collect_contains(a.len() as int, changed_keep(a, b), changed_at(a, b), x);
    }
    // The reported paths, all three lists together.
    let sa = added_spec(a, b);
    let sr = removed_spec(a, b);
    let sc = changed_spec(a, b);
    let pa = sa.map_values(|x: ItemView| x.path);
    let pr = sr.map_values(|x: ItemView| x.path);
    let pc = sc.map_values(|x: ChangedView| x.path);
    let ps = pa + pr + pc;
    let u = a.map_values(|i: ItemView| i.path).to_set() + b.map_values(|i: ItemView| i.path).to_set();
    assert forall|k: int| 0 <= k < ps.len() implies u.contains(#[trigger] ps[k]) && (last_index(a, ps[k]) >= 0 || last_index(b, ps[k]) >= 0) by {
        if k < pa.len() {
            assert(sa.contains(sa[k]));
            lemma_last_index(b, ps[k]);
            let w = last_index(b, ps[k]);
            assert(b.map_values(|i: ItemView| i.path)[w] == ps[k]);
        } else if k < pa.len() + pr.len() {
            assert(sr.contains(sr[k - pa.len()]));
            lemma_last_index(a, ps[k]);
            let w = last_index(a, ps[k]);
            assert(a.map_values(|i: ItemView| i.path)[w] == ps[k]);
        } else {
            assert(sc.contains(sc[k - pa.len() - pr.len()]));
            lemma_last_index(a, ps[k]);
            let w = last_index(a, ps[k]);
            assert(a.map_values(|i: ItemView| i.path)[w] == ps[k]);
        }
    }
    assert(ps.no_duplicates()) by {
        assert forall|i: int, j: int| 0 <= i < ps.len() && 0 <= j < ps.len() && i != j implies ps[i] != ps[j] by {
            let (lo, hi) = if i < j { (i, j) } else { (j, i) };
            if hi < pa.len() {
                assert(sa[lo].key() != sa[hi].key());
            } else if lo >= pa.len() + pr.len() {
                assert(sc[lo - pa.len() - pr.len()].key() != sc[hi - pa.len() - pr.len()].key());
            } else if lo >= pa.len() && hi < pa.len() + pr.len() {
                assert(sr[lo - pa.len()].key() != sr[hi - pa.len()].key());
            } else if lo < pa.len() {
                assert(sa.contains(sa[lo]));
                if hi < pa.len() + pr.len() {
                    assert(sr.contains(sr[hi - pa.len()]));
                } else {
                    assert(sc.contains(sc[hi - pa.len() - pr.len()]));
                }
            } else {
                assert(sr.contains(sr[lo - pa.len()]));
                assert(sc.contains(sc[hi - pa.len() - pr.len()]));
            }
        }
    }
    ps.unique_seq_to_set();
    assert(ps.to_set().subset_of(u)) by {
        assert forall|p: Seq<char>| ps.to_set().contains(p) implies u.contains(p) by {
            let k = choose|k: int| 0 <= k < ps.len() && ps[k] == p;
        }
    }
    vstd::seq_lib::seq_to_set_is_finite(a.map_values(|i: ItemView| i.path));
    vstd::seq_lib::seq_to_set_is_finite(b.map_values(|i: ItemView| i.path));
    vstd::set_lib::lemma_len_subset(ps.to_set(), u);
}

/// A diff is empty exactly when its length is zero.
pub proof fn law_diff_empty_iff_len_zero(d: ApiDiffView)
    ensures
        (d.added.len() == 0 && d.removed.len() == 0 && d.changed.len() == 0) <==> d.added.len() + d.removed.len()
            + d.changed.len() == 0,
{
}

} // verus!
