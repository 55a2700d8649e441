//! Label each [`ApiDiff`] entry with a break kind + severity.
//!
//! Heuristics are string-based on purpose: real semantic analysis belongs in
//! the producer (rustdoc JSON types), not here. These labels drive the
//! mechanical [`suggest`](crate::suggest) layer and the human triage order.

use vstd::prelude::*;
use crate::diff::{ApiDiff, ApiDiffView, Changed, ChangedView};
use crate::snapshot::{Item, ItemKind, ItemView, has_attr_spec, kind_name, kind_name_spec, strings_view};
use crate::sorting::{Keyed, KeyedExec, sort_by_key, sort_by_path, views};
use crate::text::{chars_eq, chars_of, join_spec, join_strings, occurs_at, occurs_at_exec, push_all, strip_whitespace, strip_whitespace_chars};

verus! {

/// How bad is this for a downstream consumer?
#[derive(Debug, Clone, Copy, PartialEq, Eq, PartialOrd, Ord, Hash, Structural)]
pub enum Severity {
    /// Additive only (new item, new defaulted param): downstream still builds.
    Compatible,
    /// May break (signature widened, kind shuffled): builds, maybe misbehaves.
    Warning,
    /// Will break a build (removed item, removed param, kind changed).
    Breaking,
}

/// The shape of one break.
#[derive(Debug, Clone, Copy, PartialEq, Eq, Hash, Structural)]
pub enum BreakKind {
    /// Path only in the new snapshot. Additive, compatible.
    Added,
    /// Path only in the old snapshot. Downstream refs fail to resolve.
    Removed,
    /// Same path, signature text moved. Could be rename, new/removed arg,
    /// return-type change — `suggest` refines it.
    SignatureChanged,
    /// Same path, `ItemKind` moved (struct -> enum, fn -> const…).
    KindChanged,
}

/// The `Debug` rendering of a severity.
pub open spec fn severity_name_spec(s: Severity) -> Seq<char> {
    match s {
        Severity::Compatible => "Compatible"@,
        Severity::Warning => "Warning"@,
        Severity::Breaking => "Breaking"@,
    }
}

/// The variant name of `s`, as `{:?}` prints it.
pub fn severity_name(s: Severity) -> (r: &'static str)
    ensures
        r@ == severity_name_spec(s),
{
    match s {
        Severity::Compatible => "Compatible",
        Severity::Warning => "Warning",
        Severity::Breaking => "Breaking",
    }
}

/// The `Debug` rendering of a break kind.
pub open spec fn break_kind_name_spec(k: BreakKind) -> Seq<char> {
    match k {
        BreakKind::Added => "Added"@,
        BreakKind::Removed => "Removed"@,
        BreakKind::SignatureChanged => "SignatureChanged"@,
        BreakKind::KindChanged => "KindChanged"@,
    }
}

/// The variant name of `k`, as `{:?}` prints it.
pub fn break_kind_name(k: BreakKind) -> (r: &'static str)
    ensures
        r@ == break_kind_name_spec(k),
{
    match k {
        BreakKind::Added => "Added",
        BreakKind::Removed => "Removed",
        BreakKind::SignatureChanged => "SignatureChanged",
        BreakKind::KindChanged => "KindChanged",
    }
}

/// One diff entry with its label.
#[derive(Debug, PartialEq, Eq)]
pub struct ClassifiedBreak {
    /// Canonical path of the affected item.
    pub path: String,
    /// What shape this break has.
    pub kind: BreakKind,
    /// What kind of item broke (mirrors the `Item`/`Changed` kinds, so
    /// `suggest` can require same-kind renames without re-diffing).
    pub item_kind: ItemKind,
    /// How bad it is for downstream.
    pub severity: Severity,
    /// Old signature (None for pure additions).
    pub old_sig: Option<String>,
    /// New signature (None for pure removals).
    pub new_sig: Option<String>,
    /// One-line human note, e.g. `removed Function arniko::Foo::bar`.
    pub note: String,
}

/// Abstract value of a [`ClassifiedBreak`].
pub struct ClassifiedBreakView {
    pub path: Seq<char>,
    pub kind: BreakKind,
    pub item_kind: ItemKind,
    pub severity: Severity,
    pub old_sig: Option<Seq<char>>,
    pub new_sig: Option<Seq<char>>,
    pub note: Seq<char>,
}

/// The character sequence of an optional string.
pub open spec fn opt_view(o: Option<String>) -> Option<Seq<char>> {
    match o {
        Some(s) => Some(s@),
        None => None,
    }
}

impl View for ClassifiedBreak {
    type V = ClassifiedBreakView;

    open spec fn view(&self) -> ClassifiedBreakView {
        ClassifiedBreakView {
            path: self.path@,
            kind: self.kind,
            item_kind: self.item_kind,
            severity: self.severity,
            old_sig: opt_view(self.old_sig),
            new_sig: opt_view(self.new_sig),
            note: self.note@,
        }
    }
}

impl Keyed for ClassifiedBreakView {
    open spec fn key(&self) -> Seq<char> {
        self.path
    }
}

impl KeyedExec for ClassifiedBreak {
    fn key_str(&self) -> (r: &str) {
        self.path.as_str()
    }
}

/// A copy of an optional string.
pub fn copy_opt(o: &Option<String>) -> (r: Option<String>)
    ensures
        opt_view(r) == opt_view(*o),
{
    match o {
        Some(s) => Some(s.clone()),
        None => None,
    }
}

impl Clone for ClassifiedBreak {
    fn clone(&self) -> (r: Self)
        ensures
            r@ == self@,
    {
        ClassifiedBreak {
            path: self.path.clone(),
            kind: self.kind,
            item_kind: self.item_kind,
            severity: self.severity,
            old_sig: copy_opt(&self.old_sig),
            new_sig: copy_opt(&self.new_sig),
            note: self.note.clone(),
        }
    }
}

/// Severity of a new item: new variants and fields break exhaustive matches
/// and struct literals (`Warning`) unless marked `non_exhaustive` or
/// `deprecated`; every other addition is `Compatible`.
pub open spec fn added_severity(i: ItemView) -> Severity {
    match i.kind {
        ItemKind::Variant | ItemKind::Field => {
            if has_attr_spec(i.attrs, "non_exhaustive"@) || has_attr_spec(i.attrs, "deprecated"@) {
                Severity::Compatible
            } else {
                Severity::Warning
            }
        },
        _ => Severity::Compatible,
    }
}

/// The break recorded for a new item.
pub open spec fn added_break(i: ItemView) -> ClassifiedBreakView {
    ClassifiedBreakView {
        path: i.path,
        kind: BreakKind::Added,
        item_kind: i.kind,
        severity: added_severity(i),
        old_sig: None,
        new_sig: Some(i.sig),
        note: if i.attrs.len() == 0 {
            "added "@ + kind_name_spec(i.kind) + " "@ + i.path
        } else {
            "added "@ + kind_name_spec(i.kind) + " "@ + i.path + " ["@ + join_spec(i.attrs, ", "@)
                + "]"@
        },
    }
}

/// The break recorded for a vanished item: always `Breaking`.
pub open spec fn removed_break(i: ItemView) -> ClassifiedBreakView {
    ClassifiedBreakView {
        path: i.path,
        kind: BreakKind::Removed,
        item_kind: i.kind,
        severity: Severity::Breaking,
        old_sig: Some(i.sig),
        new_sig: None,
        note: if has_attr_spec(i.attrs, "deprecated"@) {
            "removed deprecated "@ + kind_name_spec(i.kind) + " "@ + i.path
        } else {
            "removed "@ + kind_name_spec(i.kind) + " "@ + i.path
        },
    }
}

/// The whitelisted input widenings: (old fragment, new fragment), compared
/// with whitespace removed.
pub open spec fn widening_pairs() -> Seq<(Seq<char>, Seq<char>)> {
    seq![
        ("&str"@, "implInto<String>"@),
        ("&str"@, "implAsRef<str>"@),
        ("&String"@, "implAsRef<str>"@),
        ("&T"@, "implAsRef<T>"@),
        ("T"@, "implInto<T>"@),
        ("&Vec<T>"@, "&[T]"@),
        ("Vec<T>"@, "&[T]"@),
    ]
}

/// `f` stands at `i` of `o` as one whole parameter type: right after a
/// `:` and right before a `,` or `)`.
pub open spec fn param_type_at(o: Seq<char>, f: Seq<char>, i: int) -> bool {
    1 <= i && i + f.len() < o.len() && o[i - 1] == ':' && (o[i + f.len()] == ',' || o[i + f.len()] == ')')
        && occurs_at(o, f, i)
}

/// `n` is `o` with the parameter type `f` at `i` rewritten to `g`, and
/// everything else equal.
pub open spec fn rewrite_at(o: Seq<char>, n: Seq<char>, f: Seq<char>, g: Seq<char>, i: int) -> bool {
    param_type_at(o, f, i) && n == o.take(i) + g + o.skip(i + f.len())
}

/// A signature move that only makes the input more permissive, so old call
/// sites keep compiling: with whitespace removed, the new signature is the
/// old one with exactly one parameter type rewritten along a whitelisted
/// (old, new) pair, and nothing else changed. Any other move is not a
/// widening (unknown shapes fail closed).
pub open spec fn is_widening_spec(old_sig: Seq<char>, new_sig: Seq<char>) -> bool {
    exists|k: int, i: int|
        0 <= k < widening_pairs().len() && #[trigger] rewrite_at(
            strip_whitespace(old_sig),
            strip_whitespace(new_sig),
            widening_pairs()[k].0,
            widening_pairs()[k].1,
            i,
        )
}

/// Severity of a signature move: functions and methods break unless the move
/// is a whitelisted widening; other kinds warn.
pub open spec fn sig_change_severity(c: ChangedView) -> Severity {
    match c.old_kind {
        ItemKind::Function | ItemKind::Method => {
            if is_widening_spec(c.old_sig, c.new_sig) {
                Severity::Compatible
            } else {
                Severity::Breaking
            }
        },
        _ => Severity::Warning,
    }
}

/// The break recorded for a changed item: a kind change is always
/// `Breaking`.
pub open spec fn changed_break(c: ChangedView) -> ClassifiedBreakView {
    ClassifiedBreakView {
        path: c.path,
        kind: if c.old_kind == c.new_kind { BreakKind::SignatureChanged } else { BreakKind::KindChanged },
        item_kind: c.new_kind,
        severity: if c.old_kind == c.new_kind { sig_change_severity(c) } else { Severity::Breaking },
        old_sig: Some(c.old_sig),
        new_sig: Some(c.new_sig),
        note: "changed "@ + c.path + ": `"@ + c.old_sig + "` -> `"@ + c.new_sig + "`"@,
    }
}

/// Every entry of `d` labelled, before sorting: added, then removed, then
/// changed.
pub open spec fn unsorted_breaks(d: ApiDiffView) -> Seq<ClassifiedBreakView> {
    d.added.map_values(|i: ItemView| added_break(i)) + d.removed.map_values(|i: ItemView| removed_break(i))
        + d.changed.map_values(|c: ChangedView| changed_break(c))
}

/// Every entry of `d` labelled, sorted by path.
pub open spec fn classify_spec(d: ApiDiffView) -> Seq<ClassifiedBreakView> {
    sort_by_key(unsorted_breaks(d))
}

/// Exec [`rewrite_at`].
fn rewrite_at_exec(o: &Vec<char>, n: &Vec<char>, f: &Vec<char>, g: &Vec<char>, i: usize) -> (r: bool)
    ensures
        r == rewrite_at(o@, n@, f@, g@, i as int),
{
    if i < 1 || f.len() >= o.len() || i >= o.len() - f.len() {
        return false;
    }
    if o[i - 1] != ':' {
        return false;
    }
    let e = i + f.len();
    if o[e] != ',' && o[e] != ')' {
        return false;
    }
    if !occurs_at_exec(o, f, i) {
        return false;
    }
    let mut w: Vec<char> = Vec::new();
    for j in 0..i
        invariant
            i < o@.len(),
            w@ == o@.take(j as int),
    {
        w.push(o[j]);
        assert(w@ =~= o@.take(j + 1));
    }
    push_all(&mut w, g);
    let ghost head = w@;
    for j in e..o.len()
        invariant
            e <= o@.len(),
            w@ == head + o@.subrange(e as int, j as int),
    {
        w.push(o[j]);
        assert(w@ =~= head + o@.subrange(e as int, j + 1));
    }
    assert(o@.subrange(e as int, o@.len() as int) =~= o@.skip(e as int));
    chars_eq(&w, n)
}

/// Exec [`is_widening_spec`].
fn is_widening(old_sig: &str, new_sig: &str) -> (r: bool)
    ensures
        r == is_widening_spec(old_sig@, new_sig@),
{
    let old_n = strip_whitespace_chars(&chars_of(old_sig));
    let new_n = strip_whitespace_chars(&chars_of(new_sig));
    let allow: [(&str, &str); 7] = [
        ("&str", "implInto<String>"),
        ("&str", "implAsRef<str>"),
        ("&String", "implAsRef<str>"),
        ("&T", "implAsRef<T>"),
        ("T", "implInto<T>"),
        ("&Vec<T>", "&[T]"),
        ("Vec<T>", "&[T]"),
    ];
    assert(allow@.map_values(|p: (&str, &str)| (p.0@, p.1@)) =~= widening_pairs());
    let ghost o = strip_whitespace(old_sig@);
    let ghost n = strip_whitespace(new_sig@);
    for k in 0..7
        invariant
            old_n@ == o,
            new_n@ == n,
            o == strip_whitespace(old_sig@),
            n == strip_whitespace(new_sig@),
            allow@.map_values(|p: (&str, &str)| (p.0@, p.1@)) == widening_pairs(),
            forall|m: int, i: int| 0 <= m < k ==> !#[trigger] rewrite_at(o, n, widening_pairs()[m].0, widening_pairs()[m].1, i),
    {
        let (a, b) = allow[k];
        assert(widening_pairs()[k as int] == (a@, b@));
        let f = chars_of(a);
        let g = chars_of(b);
        for i in 0..old_n.len()
            invariant
                old_n@ == o,
                new_n@ == n,
                o == strip_whitespace(old_sig@),
                n == strip_whitespace(new_sig@),
                0 <= k < widening_pairs().len(),
                f@ == widening_pairs()[k as int].0,
                g@ == widening_pairs()[k as int].1,
                forall|j: int| 0 <= j < i ==> !#[trigger] rewrite_at(o, n, f@, g@, j),
        {
            if rewrite_at_exec(&old_n, &new_n, &f, &g, i) {
                assert(rewrite_at(o, n, widening_pairs()[k as int].0, widening_pairs()[k as int].1, i as int));
                return true;
            }
        }
        assert forall|i: int| !#[trigger] rewrite_at(o, n, widening_pairs()[k as int].0, widening_pairs()[k as int].1, i) by {
            if 0 <= i < old_n@.len() {
                assert(!rewrite_at(o, n, f@, g@, i));
            }
        }
    }
    assert forall|m: int, i: int| 0 <= m < widening_pairs().len() implies !#[trigger] rewrite_at(
        o,
        n,
        widening_pairs()[m].0,
        widening_pairs()[m].1,
        i,
    ) by {}
    false
}

fn classify_added(item: &Item) -> (r: ClassifiedBreak)
    ensures
        r@ == added_break(item@),
{
    let severity = match item.kind {
        ItemKind::Variant | ItemKind::Field => {
            if item.has_attr("non_exhaustive") || item.has_attr("deprecated") {
                Severity::Compatible
            } else {
                Severity::Warning
            }
        },
        _ => Severity::Compatible,
    };
    let mut note = String::from_str("added ");
    note.append(kind_name(item.kind));
    note.append(" ");
    note.append(item.path.as_str());
    if item.attrs.len() != 0 {
        note.append(" [");
        note.append(join_strings(&item.attrs, ", ").as_str());
        note.append("]");
    }
    ClassifiedBreak {
        path: item.path.clone(),
        kind: BreakKind::Added,
        item_kind: item.kind,
        severity,
        old_sig: None,
        new_sig: Some(item.sig.clone()),
        note,
    }
}

fn classify_removed(item: &Item) -> (r: ClassifiedBreak)
    ensures
        r@ == removed_break(item@),
{
    let mut note = if item.has_attr("deprecated") {
        String::from_str("removed deprecated ")
    } else {
        String::from_str("removed ")
    };
    note.append(kind_name(item.kind));
    note.append(" ");
    note.append(item.path.as_str());
    ClassifiedBreak {
        path: item.path.clone(),
        kind: BreakKind::Removed,
        item_kind: item.kind,
        severity: Severity::Breaking,
        old_sig: Some(item.sig.clone()),
        new_sig: None,
        note,
    }
}

fn classify_changed(c: &Changed) -> (r: ClassifiedBreak)
    ensures
        r@ == changed_break(c@),
{
    let (kind, severity) = if c.old_kind == c.new_kind {
        let sev = match c.old_kind {
            ItemKind::Function | ItemKind::Method => {
                if is_widening(c.old_sig.as_str(), c.new_sig.as_str()) {
                    Severity::Compatible
                } else {
                    Severity::Breaking
                }
            },
            _ => Severity::Warning,
        };
        (BreakKind::SignatureChanged, sev)
    } else {
        (BreakKind::KindChanged, Severity::Breaking)
    };
    let mut note = String::from_str("changed ");
    note.append(c.path.as_str());
    note.append(": `");
    note.append(c.old_sig.as_str());
    note.append("` -> `");
    note.append(c.new_sig.as_str());
    note.append("`");
    ClassifiedBreak {
        path: c.path.clone(),
        kind,
        item_kind: c.new_kind,
        severity,
        old_sig: Some(c.old_sig.clone()),
        new_sig: Some(c.new_sig.clone()),
        note,
    }
}

/// Label every entry of `diff`. Output sorted by path for stable goldens.
pub fn classify_diff(diff: &ApiDiff) -> (out: Vec<ClassifiedBreak>)
    ensures
        views(out@) == classify_spec(diff@),
{
    let ghost d = diff@;
    let mut out: Vec<ClassifiedBreak> = Vec::new();
    let ghost a = d.added.map_values(|i: ItemView| added_break(i));
    let ghost r = d.removed.map_values(|i: ItemView| removed_break(i));
    let ghost c = d.changed.map_values(|c: ChangedView| changed_break(c));
    for i in 0..diff.added.len()
        invariant
            d == diff@,
            a == d.added.map_values(|i: ItemView| added_break(i)),
            views(out@) == a.take(i as int),
            out@.len() == i,
    {
        let ghost before = out@;
        let b = classify_added(&diff.added[i]);
        assert(d.added[i as int] == diff.added@[i as int]@);
        out.push(b);
        assert forall|k: int| 0 <= k <= i implies #[trigger] views(out@)[k] == a.take(i + 1)[k] by {
            if k < i {
                assert(out@[k] == before[k]);
                assert(views(before)[k] == before[k]@);
            }
        }
        assert(views(out@) =~= a.take(i + 1));
    }
    assert(a.take(a.len() as int) =~= a);
    let n1 = out.len();
    for i in 0..diff.removed.len()
        invariant
            d == diff@,
            a == d.added.map_values(|i: ItemView| added_break(i)),
            r == d.removed.map_values(|i: ItemView| removed_break(i)),
            n1 == a.len(),
            views(out@) == a + r.take(i as int),
            out@.len() == n1 + i,
    {
        let ghost before = out@;
        let b = classify_removed(&diff.removed[i]);
        assert(d.removed[i as int] == diff.removed@[i as int]@);
        out.push(b);
        assert forall|k: int| 0 <= k <= n1 + i implies #[trigger] views(out@)[k] == (a + r.take(i + 1))[k] by {
            if k < n1 + i {
                assert(out@[k] == before[k]);
                assert(views(before)[k] == before[k]@);
            }
        }
        assert(views(out@) =~= a + r.take(i + 1));
    }
    assert(r.take(r.len() as int) =~= r);
    let n2 = out.len();
    for i in 0..diff.changed.len()
        invariant
            d == diff@,
            a == d.added.map_values(|i: ItemView| added_break(i)),
            r == d.removed.map_values(|i: ItemView| removed_break(i)),
            c == d.changed.map_values(|c: ChangedView| changed_break(c)),
            n2 == a.len() + r.len(),
            views(out@) == a + r + c.take(i as int),
            out@.len() == n2 + i,
    {
        let ghost before = out@;
        let b = classify_changed(&diff.changed[i]);
        assert(d.changed[i as int] == diff.changed@[i as int]@);
        out.push(b);
        assert forall|k: int| 0 <= k <= n2 + i implies #[trigger] views(out@)[k] == (a + r + c.take(i + 1))[k] by {
            if k < n2 + i {
                assert(out@[k] == before[k]);
                assert(views(before)[k] == before[k]@);
            }
        }
        assert(views(out@) =~= a + r + c.take(i + 1));
    }
    assert(c.take(c.len() as int) =~= c);
    sort_by_path(out)
}

} // verus!

verus! {

/// One label per diff entry: nothing is dropped, nothing is invented.
pub proof fn law_classify_one_per_entry(d: ApiDiffView)
    ensures
        classify_spec(d).len() == d.added.len() + d.removed.len() + d.changed.len(),
        crate::sorting::sorted_by_key(classify_spec(d)),
{
    crate::sorting::lemma_sort_props(unsorted_breaks(d));
}

/// Removals and kind changes always break the build; additions never do;
/// every label keeps the kind of item it labels.
pub proof fn law_classify_severity(d: ApiDiffView, b: ClassifiedBreakView)
    requires
        classify_spec(d).contains(b),
    ensures
        b.kind == BreakKind::Removed ==> b.severity == Severity::Breaking && b.new_sig is None,
        b.kind == BreakKind::KindChanged ==> b.severity == Severity::Breaking,
        b.kind == BreakKind::Added ==> b.severity != Severity::Breaking && b.old_sig is None,
{
    crate::diff::lemma_sort_contains(unsorted_breaks(d), b);
    let a = d.added.map_values(|i: ItemView| added_break(i));
    let r = d.removed.map_values(|i: ItemView| removed_break(i));
    let c = d.changed.map_values(|c: ChangedView| changed_break(c));
    let u = unsorted_breaks(d);
    let k = choose|k: int| 0 <= k < u.len() && u[k] == b;
    if k < a.len() {
        assert(u[k] == a[k]);
    } else if k < a.len() + r.len() {
        assert(u[k] == r[k - a.len()]);
    } else {
        assert(u[k] == c[k - a.len() - r.len()]);
    }
}

/// A signature move of a function or a method breaks the build unless it
/// is a whitelisted widening, in which case it stays compatible (Rust has
/// no default arguments); a signature move of any other kind of item only
/// warns.
pub proof fn law_signature_change_severity(d: ApiDiffView, b: ClassifiedBreakView)
    requires
        classify_spec(d).contains(b),
        b.kind == BreakKind::SignatureChanged,
    ensures
        b.old_sig is Some && b.new_sig is Some,
        (b.item_kind == ItemKind::Function || b.item_kind == ItemKind::Method) ==> b.severity == (if is_widening_spec(
            b.old_sig->0,
            b.new_sig->0,
        ) {
            Severity::Compatible
        } else {
            Severity::Breaking
        }),
        !(b.item_kind == ItemKind::Function || b.item_kind == ItemKind::Method) ==> b.severity == Severity::Warning,
{
    crate::diff::lemma_sort_contains(unsorted_breaks(d), b);
    let a = d.added.map_values(|i: ItemView| added_break(i));
    let r = d.removed.map_values(|i: ItemView| removed_break(i));
    let c = d.changed.map_values(|c: ChangedView| changed_break(c));
    let u = unsorted_breaks(d);
    let k = choose|k: int| 0 <= k < u.len() && u[k] == b;
    if k < a.len() {
        assert(u[k] == a[k]);
    } else if k < a.len() + r.len() {
        assert(u[k] == r[k - a.len()]);
    } else {
        assert(u[k] == c[k - a.len() - r.len()]);
    }
}

} // verus!
