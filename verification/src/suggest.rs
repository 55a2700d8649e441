//! Turn a [`ClassifiedBreak`] into a mechanical downstream [`Suggestion`].
//!
//! Suggestions are *edits a script could apply*, not free text: a rename map,
//! an arg add/remove, a new match arm. The consumer (codemod, agent, human)
//! decides how to render them as patches.

use vstd::prelude::*;
use crate::classify::{BreakKind, ClassifiedBreak, ClassifiedBreakView};
use crate::diff::collect;
use crate::distance::{edit_distance, edit_distance_spec};
use crate::snapshot::ItemKind;
use crate::sorting::{Keyed, KeyedExec, sort_by_key, sort_by_path, views};
use crate::text::{
    chars_eq, chars_of, digit, digit_spec, leaf_of, leaf_spec, parent_of, parent_spec, replace_chars,
    replace_spec, str_eq, str_lt, seq_lt,
};

verus! {

/// The edit verb, with the fields the applier needs. The string
/// [`name`](SuggestionAction::name)s are frozen (ledger files depend on
/// them) — add variants, never rename.
#[derive(Debug, PartialEq, Eq)]
pub enum SuggestionAction {
    /// Confident rename: rewrite call sites `from` → `to`. Auto-appliable.
    RenameCall {
        /// Removed path.
        from: String,
        /// Added path.
        to: String,
    },
    /// Possible rename, weak signal: verify sigs first. Never auto.
    ReviewRename {
        /// Removed path.
        from: String,
        /// Added path.
        to: String,
    },
    /// Upstream item is gone: drop or gate downstream uses.
    RemoveItem,
    /// Same path, new signature: update call sites `old` → `new`.
    ReviewSignature {
        /// Previous signature.
        old: String,
        /// New signature.
        new: String,
    },
    /// Same path, new `ItemKind`: rework usage.
    ReviewKind,
    /// New enum variant: add a match arm for `variant` of `enum_path`.
    AddMatchArm {
        /// Path of the enum, e.g. `bro::BackendEvent`.
        enum_path: String,
        /// New variant name, e.g. `Partial`.
        variant: String,
    },
    /// New struct field: check struct literals for `field`.
    ReviewField {
        /// New field path.
        field: String,
    },
    /// Pure addition: nothing to do downstream.
    NoOp,
}

/// Abstract value of a [`SuggestionAction`].
pub enum SuggestionActionView {
    RenameCall { from: Seq<char>, to: Seq<char> },
    ReviewRename { from: Seq<char>, to: Seq<char> },
    RemoveItem,
    ReviewSignature { old: Seq<char>, new: Seq<char> },
    ReviewKind,
    AddMatchArm { enum_path: Seq<char>, variant: Seq<char> },
    ReviewField { field: Seq<char> },
    NoOp,
}

impl View for SuggestionAction {
    type V = SuggestionActionView;

    open spec fn view(&self) -> SuggestionActionView {
        match self {
            SuggestionAction::RenameCall { from, to } => SuggestionActionView::RenameCall { from: from@, to: to@ },
            SuggestionAction::ReviewRename { from, to } => SuggestionActionView::ReviewRename { from: from@, to: to@ },
            SuggestionAction::RemoveItem => SuggestionActionView::RemoveItem,
            SuggestionAction::ReviewSignature { old, new } => SuggestionActionView::ReviewSignature { old: old@, new: new@ },
            SuggestionAction::ReviewKind => SuggestionActionView::ReviewKind,
            SuggestionAction::AddMatchArm { enum_path, variant } => SuggestionActionView::AddMatchArm {
                enum_path: enum_path@,
                variant: variant@,
            },
            SuggestionAction::ReviewField { field } => SuggestionActionView::ReviewField { field: field@ },
            SuggestionAction::NoOp => SuggestionActionView::NoOp,
        }
    }
}

/// The frozen verb of an action.
pub open spec fn action_name_spec(a: SuggestionActionView) -> Seq<char> {
    match a {
        SuggestionActionView::RenameCall { .. } => "rename-call"@,
        SuggestionActionView::ReviewRename { .. } => "review-rename"@,
        SuggestionActionView::RemoveItem => "remove-item"@,
        SuggestionActionView::ReviewSignature { .. } => "review-signature"@,
        SuggestionActionView::ReviewKind => "review-kind"@,
        SuggestionActionView::AddMatchArm { .. } => "add-match-arm"@,
        SuggestionActionView::ReviewField { .. } => "review-field"@,
        SuggestionActionView::NoOp => "no-op"@,
    }
}

impl SuggestionAction {
    /// Frozen string name (ledger files depend on it).
    pub fn name(&self) -> (r: &'static str)
        ensures
            r@ == action_name_spec(self@),
    {
        match self {
            SuggestionAction::RenameCall { .. } => "rename-call",
            SuggestionAction::ReviewRename { .. } => "review-rename",
            SuggestionAction::RemoveItem => "remove-item",
            SuggestionAction::ReviewSignature { .. } => "review-signature",
            SuggestionAction::ReviewKind => "review-kind",
            SuggestionAction::AddMatchArm { .. } => "add-match-arm",
            SuggestionAction::ReviewField { .. } => "review-field",
            SuggestionAction::NoOp => "no-op",
        }
    }
}

impl Clone for SuggestionAction {
    fn clone(&self) -> (r: Self)
        ensures
            r@ == self@,
    {
        match self {
            SuggestionAction::RenameCall { from, to } => SuggestionAction::RenameCall { from: from.clone(), to: to.clone() },
            SuggestionAction::ReviewRename { from, to } => SuggestionAction::ReviewRename { from: from.clone(), to: to.clone() },
            SuggestionAction::RemoveItem => SuggestionAction::RemoveItem,
            SuggestionAction::ReviewSignature { old, new } => SuggestionAction::ReviewSignature { old: old.clone(), new: new.clone() },
            SuggestionAction::ReviewKind => SuggestionAction::ReviewKind,
            SuggestionAction::AddMatchArm { enum_path, variant } => SuggestionAction::AddMatchArm {
                enum_path: enum_path.clone(),
                variant: variant.clone(),
            },
            SuggestionAction::ReviewField { field } => SuggestionAction::ReviewField { field: field.clone() },
            SuggestionAction::NoOp => SuggestionAction::NoOp,
        }
    }
}

/// A mechanical downstream edit, in machine-matchable form.
///
/// `action` is the stable enum downstream matches on; `detail` is the
/// rendered human form; `auto_appliable` gates script application;
/// `confidence` (in percent, 0 to 100) is how sure the engine is that the
/// auto-apply is correct. The ledger's auto-applier must run
/// [`autoimmune_guard`] before applying.
#[derive(Debug, PartialEq, Eq)]
pub struct Suggestion {
    /// Canonical path of the affected upstream item.
    pub path: String,
    /// Structured edit verb. See [`SuggestionAction`].
    pub action: SuggestionAction,
    /// Human-readable detail, e.g. `rename arniko::Foo -> arniko::Bar at call sites`.
    pub detail: String,
    /// True when a script can apply this without judgment (pure rename with
    /// a known target). False means a human/agent must review first.
    pub auto_appliable: bool,
    /// Confidence that the suggestion is correct, in percent (100 = certain).
    pub confidence: u32,
}

/// Abstract value of a [`Suggestion`].
pub struct SuggestionView {
    pub path: Seq<char>,
    pub action: SuggestionActionView,
    pub detail: Seq<char>,
    pub auto_appliable: bool,
    pub confidence: u32,
}

impl View for Suggestion {
    type V = SuggestionView;

    open spec fn view(&self) -> SuggestionView {
        SuggestionView {
            path: self.path@,
            action: self.action@,
            detail: self.detail@,
            auto_appliable: self.auto_appliable,
            confidence: self.confidence,
        }
    }
}

impl Keyed for SuggestionView {
    open spec fn key(&self) -> Seq<char> {
        self.path
    }
}

impl KeyedExec for Suggestion {
    fn key_str(&self) -> (r: &str) {
        self.path.as_str()
    }
}

impl Clone for Suggestion {
    fn clone(&self) -> (r: Self)
        ensures
            r@ == self@,
    {
        Suggestion {
            path: self.path.clone(),
            action: self.action.clone(),
            detail: self.detail.clone(),
            auto_appliable: self.auto_appliable,
            confidence: self.confidence,
        }
    }
}

/// Confidence a producer that states none gets: certain.
pub fn default_confidence() -> (r: u32)
    ensures
        r == 100,
{
    100
}

/// The signature, or `"?"` when absent.
pub open spec fn sig_or_question(o: Option<Seq<char>>) -> Seq<char> {
    match o {
        Some(s) => s,
        None => "?"@,
    }
}

/// The signature, or empty when absent.
pub open spec fn sig_or_empty(o: Option<Seq<char>>) -> Seq<char> {
    match o {
        Some(s) => s,
        None => Seq::empty(),
    }
}

/// The suggestion for one break that is not part of a rename.
pub open spec fn single_suggestion(b: ClassifiedBreakView) -> SuggestionView {
    match b.kind {
        BreakKind::Added => match b.item_kind {
            ItemKind::Variant => SuggestionView {
                path: b.path,
                action: SuggestionActionView::AddMatchArm { enum_path: parent_spec(b.path), variant: leaf_spec(b.path) },
                detail: "add a match arm for new variant "@ + b.path,
                auto_appliable: false,
                confidence: 50,
            },
            ItemKind::Field => SuggestionView {
                path: b.path,
                action: SuggestionActionView::ReviewField { field: b.path },
                detail: "new field "@ + b.path + " may break struct literals"@,
                auto_appliable: false,
                confidence: 50,
            },
            _ => SuggestionView {
                path: b.path,
                action: SuggestionActionView::NoOp,
                detail: "new item "@ + b.path + "; no downstream change needed"@,
                auto_appliable: true,
                confidence: 100,
            },
        },
        BreakKind::Removed => SuggestionView {
            path: b.path,
            action: SuggestionActionView::RemoveItem,
            detail: "drop or gate uses of removed "@ + b.path,
            auto_appliable: false,
            confidence: 0,
        },
        BreakKind::SignatureChanged => SuggestionView {
            path: b.path,
            action: SuggestionActionView::ReviewSignature { old: sig_or_question(b.old_sig), new: sig_or_question(b.new_sig) },
            detail: "update call sites of "@ + b.path + ": `"@ + sig_or_question(b.old_sig) + "` -> `"@
                + sig_or_question(b.new_sig) + "`"@,
            auto_appliable: false,
            confidence: 0,
        },
        BreakKind::KindChanged => SuggestionView {
            path: b.path,
            action: SuggestionActionView::ReviewKind,
            detail: "item "@ + b.path + " changed kind; rework usage"@,
            auto_appliable: false,
            confidence: 0,
        },
    }
}

/// A confident rename folded onto the added item `path`.
pub open spec fn rename_call_suggestion(path: Seq<char>, from: Seq<char>, to: Seq<char>) -> SuggestionView {
    SuggestionView {
        path,
        action: SuggestionActionView::RenameCall { from, to },
        detail: "rename "@ + from + " -> "@ + to + " at call sites"@,
        auto_appliable: true,
        confidence: 100,
    }
}

/// A weak-signal rename: shown for review, never auto-applied.
pub open spec fn rename_review_suggestion(path: Seq<char>, from: Seq<char>, to: Seq<char>) -> SuggestionView {
    SuggestionView {
        path,
        action: SuggestionActionView::ReviewRename { from, to },
        detail: "possible rename "@ + from + " -> "@ + to + "; verify sigs then rename call sites"@,
        auto_appliable: false,
        confidence: 50,
    }
}

/// A rename pair: (removed path, added path, confident).
pub type RenamePair = (Seq<char>, Seq<char>, bool);

/// The views of executable rename pairs.
pub open spec fn pairs_view(p: Seq<(String, String, bool)>) -> Seq<RenamePair> {
    p.map_values(|x: (String, String, bool)| (x.0@, x.1@, x.2))
}

pub open spec fn break_at(bs: Seq<ClassifiedBreakView>) -> spec_fn(int) -> ClassifiedBreakView {
    |i: int| bs[i]
}

pub open spec fn is_added_at(bs: Seq<ClassifiedBreakView>) -> spec_fn(int) -> bool {
    |i: int| bs[i].kind == BreakKind::Added
}

/// The `Added` breaks, in input order.
pub open spec fn added_of(bs: Seq<ClassifiedBreakView>) -> Seq<ClassifiedBreakView> {
    collect(bs.len() as int, is_added_at(bs), break_at(bs))
}

/// Some pair already renames onto `p`.
pub open spec fn used_as_target(pairs: Seq<RenamePair>, p: Seq<char>) -> bool {
    exists|k: int| 0 <= k < pairs.len() && #[trigger] pairs[k].1 == p
}

/// `a` may be what removed `r` was renamed to: same parent module, same
/// item kind, and not already claimed by an earlier rename.
pub open spec fn is_candidate(r: ClassifiedBreakView, a: ClassifiedBreakView, pairs: Seq<RenamePair>) -> bool {
    &&& parent_spec(a.path) == parent_spec(r.path)
    &&& a.item_kind == r.item_kind
    &&& !used_as_target(pairs, a.path)
}

/// Both signatures read the same once the renamed leaf segment is masked.
pub open spec fn sigs_match_spec(old_sig: Seq<char>, new_sig: Seq<char>, from: Seq<char>, to: Seq<char>) -> bool {
    replace_spec(old_sig, leaf_spec(from), seq!['\0']) == replace_spec(new_sig, leaf_spec(to), seq!['\0'])
}

/// Strong rename signal between removed `r` and added `a`.
pub open spec fn confident_match(r: ClassifiedBreakView, a: ClassifiedBreakView) -> bool {
    sigs_match_spec(sig_or_empty(r.old_sig), sig_or_empty(a.new_sig), r.path, a.path)
}

/// Weak rename signal: signatures at most 8 edits apart.
pub open spec fn weak_match(r: ClassifiedBreakView, a: ClassifiedBreakView) -> bool {
    edit_distance_spec(sig_or_empty(r.old_sig), sig_or_empty(a.new_sig)) <= 8
}

/// First candidate at or after `k` with a strong signal.
pub open spec fn first_confident_from(
    adds: Seq<ClassifiedBreakView>,
    r: ClassifiedBreakView,
    pairs: Seq<RenamePair>,
    k: int,
) -> Option<int>
    decreases adds.len() - k,
{
    if k < 0 || k >= adds.len() {
        None
    } else if is_candidate(r, adds[k], pairs) && confident_match(r, adds[k]) {
        Some(k)
    } else {
        first_confident_from(adds, r, pairs, k + 1)
    }
}

/// Among candidates at or after `k` with a weak signal, the first one with
/// the smallest path.
pub open spec fn best_weak_from(
    adds: Seq<ClassifiedBreakView>,
    r: ClassifiedBreakView,
    pairs: Seq<RenamePair>,
    k: int,
) -> Option<int>
    decreases adds.len() - k,
{
    if k < 0 || k >= adds.len() {
        None
    } else {
        let rest = best_weak_from(adds, r, pairs, k + 1);
        if is_candidate(r, adds[k], pairs) && weak_match(r, adds[k]) {
            match rest {
                Some(j) => if seq_lt(adds[j].path, adds[k].path) { Some(j) } else { Some(k) },
                None => Some(k),
            }
        } else {
            rest
        }
    }
}

/// The rename pairs after considering removed break `r`.
pub open spec fn rename_step(pairs: Seq<RenamePair>, r: ClassifiedBreakView, adds: Seq<ClassifiedBreakView>) -> Seq<RenamePair> {
    match first_confident_from(adds, r, pairs, 0) {
        Some(j) => pairs.push((r.path, adds[j].path, true)),
        None => match best_weak_from(adds, r, pairs, 0) {
            Some(j) => pairs.push((r.path, adds[j].path, false)),
            None => pairs,
        },
    }
}

/// Rename pairs found among the first `n` breaks (removals in input order).
pub open spec fn rename_pairs_upto(bs: Seq<ClassifiedBreakView>, n: int) -> Seq<RenamePair>
    decreases n,
{
    if n <= 0 {
        Seq::empty()
    } else {
        let p = rename_pairs_upto(bs, n - 1);
        if bs[n - 1].kind == BreakKind::Removed {
            rename_step(p, bs[n - 1], added_of(bs))
        } else {
            p
        }
    }
}

/// (removed, added, confident) triples that look like renames: same parent
/// module, same item kind, and a similarity signal.
pub open spec fn rename_pairs(bs: Seq<ClassifiedBreakView>) -> Seq<RenamePair> {
    rename_pairs_upto(bs, bs.len() as int)
}

/// First pair at or after `k` renaming onto `p`.
pub open spec fn first_target_from(pairs: Seq<RenamePair>, p: Seq<char>, k: int) -> Option<int>
    decreases pairs.len() - k,
{
    if k < 0 || k >= pairs.len() {
        None
    } else if pairs[k].1 == p {
        Some(k)
    } else {
        first_target_from(pairs, p, k + 1)
    }
}

/// Some pair renames away from `p`.
pub open spec fn is_rename_source(pairs: Seq<RenamePair>, p: Seq<char>) -> bool {
    exists|k: int| 0 <= k < pairs.len() && #[trigger] pairs[k].0 == p
}

/// The suggestion for break `b`, or none when it folds into a rename.
pub open spec fn suggestion_for(b: ClassifiedBreakView, pairs: Seq<RenamePair>) -> Option<SuggestionView> {
    if is_rename_source(pairs, b.path) {
        None
    } else {
        match first_target_from(pairs, b.path, 0) {
            Some(k) => Some(
                if pairs[k].2 {
                    rename_call_suggestion(b.path, pairs[k].0, pairs[k].1)
                } else {
                    rename_review_suggestion(b.path, pairs[k].0, pairs[k].1)
                },
            ),
            None => Some(single_suggestion(b)),
        }
    }
}

/// Suggestions for the first `n` breaks, in input order.
pub open spec fn suggestions_upto(bs: Seq<ClassifiedBreakView>, pairs: Seq<RenamePair>, n: int) -> Seq<SuggestionView>
    decreases n,
{
    if n <= 0 {
        Seq::empty()
    } else {
        let s = suggestions_upto(bs, pairs, n - 1);
        match suggestion_for(bs[n - 1], pairs) {
            Some(x) => s.push(x),
            None => s,
        }
    }
}

/// One suggestion per break (renames folded), sorted by path.
pub open spec fn suggest_spec(bs: Seq<ClassifiedBreakView>) -> Seq<SuggestionView> {
    sort_by_key(suggestions_upto(bs, rename_pairs(bs), bs.len() as int))
}

} // verus!

verus! {

/// `sig`, or `"?"` when absent.
fn sig_or_question_exec(o: &Option<String>) -> (r: String)
    ensures
        r@ == sig_or_question(crate::classify::opt_view(*o)),
{
    match o {
        Some(s) => s.clone(),
        None => String::from_str("?"),
    }
}

/// `sig`, or empty when absent.
fn sig_or_empty_exec(o: &Option<String>) -> (r: String)
    ensures
        r@ == sig_or_empty(crate::classify::opt_view(*o)),
{
    match o {
        Some(s) => s.clone(),
        None => String::new(),
    }
}

/// Split `enum::Path::Variant` into (`enum::Path`, `Variant`).
/// No `::` → (`""`, whole path).
fn split_variant(path: &str) -> (r: (String, String))
    ensures
        r.0@ == parent_spec(path@),
        r.1@ == leaf_spec(path@),
{
    (parent_of(path), leaf_of(path))
}

fn suggest_single(b: &ClassifiedBreak) -> (s: Suggestion)
    ensures
        s@ == single_suggestion(b@),
{
    match b.kind {
        BreakKind::Added => {
            match b.item_kind {
                ItemKind::Variant => {
                    let (enum_path, variant) = split_variant(b.path.as_str());
                    let mut detail = String::from_str("add a match arm for new variant ");
                    detail.append(b.path.as_str());
                    Suggestion {
                        path: b.path.clone(),
                        action: SuggestionAction::AddMatchArm { enum_path, variant },
                        detail,
                        auto_appliable: false,
                        confidence: 50,
                    }
                },
                ItemKind::Field => {
                    let mut detail = String::from_str("new field ");
                    detail.append(b.path.as_str());
                    detail.append(" may break struct literals");
                    Suggestion {
                        path: b.path.clone(),
                        action: SuggestionAction::ReviewField { field: b.path.clone() },
                        detail,
                        auto_appliable: false,
                        confidence: 50,
                    }
                },
                _ => {
                    let mut detail = String::from_str("new item ");
                    detail.append(b.path.as_str());
                    detail.append("; no downstream change needed");
                    Suggestion {
                        path: b.path.clone(),
                        action: SuggestionAction::NoOp,
                        detail,
                        auto_appliable: true,
                        confidence: 100,
                    }
                },
            }
        },
        BreakKind::Removed => {
            let mut detail = String::from_str("drop or gate uses of removed ");
            detail.append(b.path.as_str());
            Suggestion {
                path: b.path.clone(),
                action: SuggestionAction::RemoveItem,
                detail,
                auto_appliable: false,
                confidence: 0,
            }
        },
        BreakKind::SignatureChanged => {
            let old = sig_or_question_exec(&b.old_sig);
            let new = sig_or_question_exec(&b.new_sig);
            let mut detail = String::from_str("update call sites of ");
            detail.append(b.path.as_str());
            detail.append(": `");
            detail.append(old.as_str());
            detail.append("` -> `");
            detail.append(new.as_str());
            detail.append("`");
            Suggestion {
                path: b.path.clone(),
                action: SuggestionAction::ReviewSignature { old, new },
                detail,
                auto_appliable: false,
                confidence: 0,
            }
        },
        BreakKind::KindChanged => {
            let mut detail = String::from_str("item ");
            detail.append(b.path.as_str());
            detail.append(" changed kind; rework usage");
            Suggestion {
                path: b.path.clone(),
                action: SuggestionAction::ReviewKind,
                detail,
                auto_appliable: false,
                confidence: 0,
            }
        },
    }
}

/// A same-kind, same-parent pair with only a weak similarity signal: tell
/// the human it *might* be a rename, but never auto-apply.
fn rename_review_for(b: &ClassifiedBreak, from: &str, to: &str) -> (s: Suggestion)
    ensures
        s@ == rename_review_suggestion(b@.path, from@, to@),
{
    let mut detail = String::from_str("possible rename ");
    detail.append(from);
    detail.append(" -> ");
    detail.append(to);
    detail.append("; verify sigs then rename call sites");
    Suggestion {
        path: b.path.clone(),
        action: SuggestionAction::ReviewRename { from: from.to_owned(), to: to.to_owned() },
        detail,
        auto_appliable: false,
        confidence: 50,
    }
}

fn rename_call_for(b: &ClassifiedBreak, from: &str, to: &str) -> (s: Suggestion)
    ensures
        s@ == rename_call_suggestion(b@.path, from@, to@),
{
    let mut detail = String::from_str("rename ");
    detail.append(from);
    detail.append(" -> ");
    detail.append(to);
    detail.append(" at call sites");
    Suggestion {
        path: b.path.clone(),
        action: SuggestionAction::RenameCall { from: from.to_owned(), to: to.to_owned() },
        detail,
        auto_appliable: true,
        confidence: 100,
    }
}

/// True when both sigs are identical after replacing the leaf path segment
/// (the renamed item's own name) with a placeholder.
fn sigs_match_modulo_rename(old_sig: &str, new_sig: &str, from: &str, to: &str) -> (r: bool)
    ensures
        r == sigs_match_spec(old_sig@, new_sig@, from@, to@),
{
    let mut mask: Vec<char> = Vec::new();
    mask.push('\0');
    assert(mask@ =~= seq!['\0']);
    let a = replace_chars(&chars_of(old_sig), &chars_of(leaf_of(from).as_str()), &mask);
    let b = replace_chars(&chars_of(new_sig), &chars_of(leaf_of(to).as_str()), &mask);
    chars_eq(&a, &b)
}

/// Indices of the `Added` breaks, in order.
fn added_indices(breaks: &[ClassifiedBreak]) -> (idx: Vec<usize>)
    ensures
        idx@.len() == added_of(views(breaks@)).len(),
        forall|k: int| 0 <= k < idx@.len() ==> (#[trigger] idx@[k]) < breaks@.len()
            && breaks@[idx@[k] as int]@ == added_of(views(breaks@))[k],
{
    let ghost bs = views(breaks@);
    let mut idx: Vec<usize> = Vec::new();
    for i in 0..breaks.len()
        invariant
            bs == views(breaks@),
            idx@.len() == collect(i as int, is_added_at(bs), break_at(bs)).len(),
            forall|k: int| 0 <= k < idx@.len() ==> (#[trigger] idx@[k]) < breaks@.len()
                && breaks@[idx@[k] as int]@ == collect(i as int, is_added_at(bs), break_at(bs))[k],
    {
        assert(bs[i as int] == breaks@[i as int]@);
        if breaks[i].kind == BreakKind::Added {
            idx.push(i);
        }
    }
    idx
}

/// Exec [`used_as_target`].
fn is_used_target(pairs: &Vec<(String, String, bool)>, p: &str) -> (r: bool)
    ensures
        r == used_as_target(pairs_view(pairs@), p@),
{
    let ghost pv = pairs_view(pairs@);
    for k in 0..pairs.len()
        invariant
            pv == pairs_view(pairs@),
            forall|m: int| 0 <= m < k ==> pv[m].1 != p@,
    {
        assert(pv[k as int].1 == pairs@[k as int].1@);
        if str_eq(pairs[k].1.as_str(), p) {
            return true;
        }
    }
    false
}

/// Exec [`is_candidate`].
fn is_candidate_exec(r: &ClassifiedBreak, r_parent: &str, a: &ClassifiedBreak, pairs: &Vec<(String, String, bool)>) -> (ok: bool)
    requires
        r_parent@ == parent_spec(r@.path),
    ensures
        ok == is_candidate(r@, a@, pairs_view(pairs@)),
{
    str_eq(parent_of(a.path.as_str()).as_str(), r_parent) && a.item_kind == r.item_kind && !is_used_target(pairs, a.path.as_str())
}

/// Find (removed, added) pairs that look like renames. Requires: same parent
/// module, same `ItemKind`, plus a similarity signal — same sig modulo the
/// last path segment (confident), or sig edit distance ≤ 8 (review only).
fn detect_renames(breaks: &[ClassifiedBreak]) -> (pairs: Vec<(String, String, bool)>)
    ensures
        pairs_view(pairs@) == rename_pairs(views(breaks@)),
{
    let ghost bs = views(breaks@);
    let ghost adds = added_of(bs);
    let idx = added_indices(breaks);
    let mut pairs: Vec<(String, String, bool)> = Vec::new();
    for t in 0..breaks.len()
        invariant
            bs == views(breaks@),
            adds == added_of(bs),
            idx@.len() == adds.len(),
            forall|k: int| 0 <= k < idx@.len() ==> (#[trigger] idx@[k]) < breaks@.len() && breaks@[idx@[k] as int]@ == adds[k],
            pairs_view(pairs@) == rename_pairs_upto(bs, t as int),
    {
        let r = &breaks[t];
        assert(bs[t as int] == r@);
        if r.kind == BreakKind::Removed {
            let ghost pv = pairs_view(pairs@);
            let r_parent = parent_of(r.path.as_str());
            let old_sig = sig_or_empty_exec(&r.old_sig);
            // Confident first: sig equal modulo the renamed leaf segment.
            let mut found: Option<usize> = None;
            let mut j: usize = 0;
            while j < idx.len()
                invariant_except_break
                    found is None,
                    first_confident_from(adds, r@, pv, 0) == first_confident_from(adds, r@, pv, j as int),
                invariant
                    j <= idx@.len(),
                    idx@.len() == adds.len(),
                    forall|k: int| 0 <= k < idx@.len() ==> (#[trigger] idx@[k]) < breaks@.len() && breaks@[idx@[k] as int]@ == adds[k],
                    pv == pairs_view(pairs@),
                    r_parent@ == parent_spec(r@.path),
                    old_sig@ == sig_or_empty(r@.old_sig),
                ensures
                    found is None ==> first_confident_from(adds, r@, pv, 0) is None,
                    found matches Some(f) ==> first_confident_from(adds, r@, pv, 0) == Some(f as int) && f < adds.len(),
                decreases idx@.len() - j,
            {
                let a = &breaks[idx[j]];
                assert(a@ == adds[j as int]);
                if is_candidate_exec(r, r_parent.as_str(), a, &pairs) {
                    let new_sig = sig_or_empty_exec(&a.new_sig);
                    if sigs_match_modulo_rename(old_sig.as_str(), new_sig.as_str(), r.path.as_str(), a.path.as_str()) {
                        assert(first_confident_from(adds, r@, pv, j as int) == Some(j as int));
                        found = Some(j);
                        break;
                    }
                }
                j = j + 1;
            }
            if let Some(f) = found {
                let a = &breaks[idx[f]];
                assert(a@ == adds[f as int]);
                let ghost before = pairs@;
                pairs.push((r.path.clone(), a.path.clone(), true));
                assert(pairs_view(pairs@) =~= pv.push((r@.path, adds[f as int].path, true)));
            } else {
                // Weak signal: small sig edit distance → review, not auto.
                let mut best: Option<usize> = None;
                let mut j: usize = idx.len();
                while j > 0
                    invariant
                        j <= idx@.len(),
                        idx@.len() == adds.len(),
                        forall|k: int| 0 <= k < idx@.len() ==> (#[trigger] idx@[k]) < breaks@.len() && breaks@[idx@[k] as int]@ == adds[k],
                        pv == pairs_view(pairs@),
                        r_parent@ == parent_spec(r@.path),
                        old_sig@ == sig_or_empty(r@.old_sig),
                        best matches Some(b) ==> best_weak_from(adds, r@, pv, j as int) == Some(b as int) && b < adds.len(),
                        best is None ==> best_weak_from(adds, r@, pv, j as int) is None,
                    decreases j,
                {
                    j = j - 1;
                    let a = &breaks[idx[j]];
                    assert(a@ == adds[j as int]);
                    if is_candidate_exec(r, r_parent.as_str(), a, &pairs) {
                        let new_sig = sig_or_empty_exec(&a.new_sig);
                        if edit_distance(old_sig.as_str(), new_sig.as_str()) <= 8 {
                            match best {
                                Some(b) => {
                                    let cur = &breaks[idx[b]];
                                    assert(cur@ == adds[b as int]);
                                    if !str_lt(cur.path.as_str(), a.path.as_str()) {
                                        best = Some(j);
                                    }
                                },
                                None => {
                                    best = Some(j);
                                },
                            }
                        }
                    }
                }
                if let Some(b) = best {
                    let a = &breaks[idx[b]];
                    assert(a@ == adds[b as int]);
                    pairs.push((r.path.clone(), a.path.clone(), false));
                    assert(pairs_view(pairs@) =~= pv.push((r@.path, adds[b as int].path, false)));
                }
            }
        }
    }
    pairs
}

/// Exec [`is_rename_source`].
fn is_rename_source_exec(pairs: &Vec<(String, String, bool)>, p: &str) -> (r: bool)
    ensures
        r == is_rename_source(pairs_view(pairs@), p@),
{
    let ghost pv = pairs_view(pairs@);
    for k in 0..pairs.len()
        invariant
            pv == pairs_view(pairs@),
            forall|m: int| 0 <= m < k ==> pv[m].0 != p@,
    {
        assert(pv[k as int].0 == pairs@[k as int].0@);
        if str_eq(pairs[k].0.as_str(), p) {
            return true;
        }
    }
    false
}

/// Exec [`first_target_from`] from the start.
fn first_target(pairs: &Vec<(String, String, bool)>, p: &str) -> (r: Option<usize>)
    ensures
        r matches Some(k) ==> first_target_from(pairs_view(pairs@), p@, 0) == Some(k as int) && k < pairs@.len(),
        r is None ==> first_target_from(pairs_view(pairs@), p@, 0) is None,
{
    let ghost pv = pairs_view(pairs@);
    let mut k: usize = 0;
    while k < pairs.len()
        invariant
            k <= pairs@.len(),
            pv == pairs_view(pairs@),
            first_target_from(pv, p@, 0) == first_target_from(pv, p@, k as int),
        decreases pairs@.len() - k,
    {
        assert(pv[k as int].1 == pairs@[k as int].1@);
        if str_eq(pairs[k].1.as_str(), p) {
            return Some(k);
        }
        k = k + 1;
    }
    None
}

/// Suggest one edit per classified break.
///
/// Rename detection is conservative: a `Removed` + an `Added` fold into one
/// auto-appliable `rename-call` only when they share the parent module,
/// share the `ItemKind`, and carry a similarity signal (same sig modulo the
/// last path segment). A small sig edit distance only yields a
/// `review-rename`. Anything else stays two separate suggestions.
pub fn suggest_for_breaks(breaks: &[ClassifiedBreak]) -> (out: Vec<Suggestion>)
    ensures
        views(out@) == suggest_spec(views(breaks@)),
{
    let ghost bs = views(breaks@);
    let renames = detect_renames(breaks);
    let ghost pv = pairs_view(renames@);
    let mut out: Vec<Suggestion> = Vec::new();
    for i in 0..breaks.len()
        invariant
            bs == views(breaks@),
            pv == pairs_view(renames@),
            pv == rename_pairs(bs),
            views(out@) == suggestions_upto(bs, pv, i as int),
    {
        let b = &breaks[i];
        assert(bs[i as int] == b@);
        let ghost before = out@;
        if !is_rename_source_exec(&renames, b.path.as_str()) {
            let s = match first_target(&renames, b.path.as_str()) {
                Some(k) => {
                    assert(pv[k as int] == (renames@[k as int].0@, renames@[k as int].1@, renames@[k as int].2));
                    if renames[k].2 {
                        rename_call_for(b, renames[k].0.as_str(), renames[k].1.as_str())
                    } else {
                        rename_review_for(b, renames[k].0.as_str(), renames[k].1.as_str())
                    }
                },
                None => suggest_single(b),
            };
            out.push(s);
            assert forall|k: int| 0 <= k < out@.len() implies #[trigger] views(out@)[k] == suggestions_upto(bs, pv, i + 1)[k] by {
                if k < before.len() {
                    assert(out@[k] == before[k]);
                    assert(views(before)[k] == before[k]@);
                }
            }
            assert(views(out@) =~= suggestions_upto(bs, pv, i + 1));
        }
    }
    sort_by_path(out)
}

} // verus!

verus! {

/// Confidence below which an auto-apply is kept for review.
pub open spec fn guard_threshold() -> u32 {
    50
}

/// What [`autoimmune_guard`] yields: a low-confidence auto-apply is
/// downgraded to review with a note on its detail; anything else is kept.
pub open spec fn guard_spec(s: SuggestionView) -> SuggestionView {
    if s.auto_appliable && s.confidence < guard_threshold() {
        SuggestionView {
            path: s.path,
            action: s.action,
            detail: s.detail + " (low confidence 0."@ + seq![digit_spec((s.confidence / 10) as int), digit_spec((s.confidence % 10) as int)]
                + " — auto-apply kept for review)"@,
            auto_appliable: false,
            confidence: s.confidence,
        }
    } else {
        s
    }
}

/// Anti-autoimmune check: a suggestion marked auto-appliable but with low
/// confidence must be downgraded to review — never auto-applied on a hunch.
/// Returns the corrected suggestion (a copy when unchanged).
pub fn autoimmune_guard(suggestion: &Suggestion) -> (r: Suggestion)
    ensures
        r@ == guard_spec(suggestion@),
{
    if suggestion.auto_appliable && suggestion.confidence < 50 {
        let mut out = suggestion.clone();
        out.auto_appliable = false;
        let c = suggestion.confidence;
        let mut detail = suggestion.detail.clone();
        detail.append(" (low confidence 0.");
        crate::text::push_char(&mut detail, digit(c / 10));
        crate::text::push_char(&mut detail, digit(c % 10));
        detail.append(" — auto-apply kept for review)");
        assert(detail@ =~= suggestion@.detail + " (low confidence 0."@ + seq![digit_spec((c / 10) as int), digit_spec((c % 10) as int)]
            + " — auto-apply kept for review)"@);
        out.detail = detail;
        out
    } else {
        suggestion.clone()
    }
}

/// The guard never lets a low-confidence suggestion through as
/// auto-appliable, never edits the recorded confidence, path or action, and
/// applying it twice changes nothing more than applying it once.
pub proof fn law_guard(s: SuggestionView)
    ensures
        guard_spec(s).auto_appliable ==> guard_spec(s).confidence >= guard_threshold(),
        guard_spec(s).confidence == s.confidence,
        guard_spec(s).path == s.path,
        guard_spec(s).action == s.action,
        guard_spec(guard_spec(s)) == guard_spec(s),
        s.auto_appliable && s.confidence >= guard_threshold() ==> guard_spec(s) == s,
        !s.auto_appliable ==> guard_spec(s) == s,
{
}

proof fn lemma_first_confident(adds: Seq<ClassifiedBreakView>, r: ClassifiedBreakView, pairs: Seq<RenamePair>, k: int)
    requires
        0 <= k,
    ensures
        first_confident_from(adds, r, pairs, k) matches Some(j) ==> k <= j < adds.len()
            && is_candidate(r, adds[j], pairs) && confident_match(r, adds[j]),
    decreases adds.len() - k,
{
    if k < adds.len() && !(is_candidate(r, adds[k], pairs) && confident_match(r, adds[k])) {
        lemma_first_confident(adds, r, pairs, k + 1);
    }
}

proof fn lemma_best_weak(adds: Seq<ClassifiedBreakView>, r: ClassifiedBreakView, pairs: Seq<RenamePair>, k: int)
    requires
        0 <= k,
    ensures
        best_weak_from(adds, r, pairs, k) matches Some(j) ==> k <= j < adds.len()
            && is_candidate(r, adds[j], pairs) && weak_match(r, adds[j]),
    decreases adds.len() - k,
{
    if k < adds.len() {
        lemma_best_weak(adds, r, pairs, k + 1);
    }
}

/// Where a rename pair comes from.
pub open spec fn pair_is_sound(bs: Seq<ClassifiedBreakView>, p: RenamePair) -> bool {
    exists|ri: int, ai: int|
        0 <= ri < bs.len() && 0 <= ai < bs.len() && #[trigger] bs[ri].kind == BreakKind::Removed
            && #[trigger] bs[ai].kind == BreakKind::Added && bs[ri].path == p.0 && bs[ai].path == p.1
            && parent_spec(p.0) == parent_spec(p.1) && bs[ri].item_kind == bs[ai].item_kind
            && (p.2 ==> confident_match(bs[ri], bs[ai])) && (!p.2 ==> weak_match(bs[ri], bs[ai]))
}

proof fn lemma_pairs_upto(bs: Seq<ClassifiedBreakView>, n: int)
    requires
        0 <= n <= bs.len(),
    ensures
        forall|k: int| 0 <= k < rename_pairs_upto(bs, n).len() ==> pair_is_sound(bs, #[trigger] rename_pairs_upto(bs, n)[k]),
        forall|k1: int, k2: int|
            0 <= k1 < k2 < rename_pairs_upto(bs, n).len() ==> #[trigger] rename_pairs_upto(bs, n)[k1].1
                != #[trigger] rename_pairs_upto(bs, n)[k2].1,
    decreases n,
{
    if n > 0 {
        lemma_pairs_upto(bs, n - 1);
        let p = rename_pairs_upto(bs, n - 1);
        let r = bs[n - 1];
        if r.kind == BreakKind::Removed {
            let adds = added_of(bs);
            lemma_first_confident(adds, r, p, 0);
            lemma_best_weak(adds, r, p, 0);
            let q = rename_pairs_upto(bs, n);
            let pick = match first_confident_from(adds, r, p, 0) {
                Some(j) => Some(j),
                None => best_weak_from(adds, r, p, 0),
            };
            if let Some(j) = pick {
                let a = adds[j];
                crate::diff::lemma_collect_contains(bs.len() as int, is_added_at(bs), break_at(bs), a);
                assert(adds.contains(a));
                let ai = choose|ai: int| 0 <= ai < bs.len() && #[trigger] is_added_at(bs)(ai) && break_at(bs)(ai) == a;
                assert(bs[ai] == a);
                assert(q.last().1 == a.path);
                assert(pair_is_sound(bs, q.last())) by {
                    assert(bs[n - 1].kind == BreakKind::Removed);
                    assert(bs[ai].kind == BreakKind::Added);
                }
                assert forall|k: int| 0 <= k < q.len() implies pair_is_sound(bs, #[trigger] q[k]) by {
                    if k < p.len() {
                        assert(q[k] == p[k]);
                    }
                }
                assert forall|k1: int, k2: int| 0 <= k1 < k2 < q.len() implies #[trigger] q[k1].1 != #[trigger] q[k2].1 by {
                    if k2 < p.len() {
                        assert(q[k1] == p[k1] && q[k2] == p[k2]);
                    } else {
                        assert(q[k1] == p[k1]);
                        assert(!used_as_target(p, a.path));
                        if p[k1].1 == a.path {
                            assert(used_as_target(p, a.path));
                        }
                    }
                }
            }
        }
    }
}

/// A rename pair always joins a removed break and an added break under the
/// same parent module with the same item kind (a removed field never pairs
/// with an added method); confident pairs have matching signatures modulo
/// the leaf, the others signatures at most 8 edits apart; and no added item
/// is the target of two renames.
pub proof fn law_rename_pairs_sound(bs: Seq<ClassifiedBreakView>)
    ensures
        forall|k: int| 0 <= k < rename_pairs(bs).len() ==> pair_is_sound(bs, #[trigger] rename_pairs(bs)[k]),
        forall|k1: int, k2: int|
            0 <= k1 < k2 < rename_pairs(bs).len() ==> #[trigger] rename_pairs(bs)[k1].1 != #[trigger] rename_pairs(bs)[k2].1,
{
    lemma_pairs_upto(bs, bs.len() as int);
}

} // verus!

verus! {

proof fn lemma_suggestions_from(bs: Seq<ClassifiedBreakView>, pairs: Seq<RenamePair>, n: int, s: SuggestionView)
    requires
        suggestions_upto(bs, pairs, n).contains(s),
    ensures
        exists|i: int| 0 <= i < n && #[trigger] suggestion_for(bs[i], pairs) == Some(s),
    decreases n,
{
    if n > 0 {
        let prev = suggestions_upto(bs, pairs, n - 1);
        match suggestion_for(bs[n - 1], pairs) {
            Some(x) => {
                if x == s {
                    assert(suggestion_for(bs[n - 1], pairs) == Some(s));
                } else {
                    let k = choose|k: int| 0 <= k < prev.push(x).len() && prev.push(x)[k] == s;
                    assert(prev[k] == s);
                    lemma_suggestions_from(bs, pairs, n - 1, s);
                }
            },
            None => {
                lemma_suggestions_from(bs, pairs, n - 1, s);
            },
        }
    }
}

/// Only two kinds of suggestion are ever auto-appliable: a pure addition
/// (`no-op`) and a confident rename, which always stems from a confident
/// rename pair; every removal, signature or kind change, new variant or new
/// field needs review.
pub proof fn law_auto_only_for_noop_and_confident_rename(bs: Seq<ClassifiedBreakView>, s: SuggestionView)
    requires
        suggest_spec(bs).contains(s),
    ensures
        s.auto_appliable ==> (s.action is NoOp || s.action is RenameCall),
        s.action matches SuggestionActionView::RenameCall { from, to } ==> exists|k: int|
            0 <= k < rename_pairs(bs).len() && #[trigger] rename_pairs(bs)[k] == (from, to, true),
        s.action is ReviewRename ==> !s.auto_appliable,
{
    let pairs = rename_pairs(bs);
    crate::diff::lemma_sort_contains(suggestions_upto(bs, pairs, bs.len() as int), s);
    lemma_suggestions_from(bs, pairs, bs.len() as int, s);
    let i = choose|i: int| 0 <= i < bs.len() && #[trigger] suggestion_for(bs[i], pairs) == Some(s);
    let b = bs[i];
    if !is_rename_source(pairs, b.path) {
        match first_target_from(pairs, b.path, 0) {
            Some(k) => {
                lemma_first_target(pairs, b.path, 0);
            },
            None => {},
        }
    }
}

proof fn lemma_first_target(pairs: Seq<RenamePair>, p: Seq<char>, k: int)
    requires
        0 <= k,
    ensures
        first_target_from(pairs, p, k) matches Some(j) ==> k <= j < pairs.len() && pairs[j].1 == p,
    decreases pairs.len() - k,
{
    if k < pairs.len() && pairs[k].1 != p {
        lemma_first_target(pairs, p, k + 1);
    }
}

/// Suggestions come sorted by path.
pub proof fn law_suggestions_sorted(bs: Seq<ClassifiedBreakView>)
    ensures
        crate::sorting::sorted_by_key(suggest_spec(bs)),
{
    crate::sorting::lemma_sort_props(suggestions_upto(bs, rename_pairs(bs), bs.len() as int));
}

/// A rename-call is only ever suggested for a removed and an added item of
/// the same kind under the same parent whose signatures are identical once
/// each one's own leaf name is masked (as character sequences, not merely of
/// the same length). Two signatures that differ anywhere outside the renamed
/// leaf never yield a rename-call.
pub proof fn law_rename_call_needs_identical_masked_sigs(bs: Seq<ClassifiedBreakView>, s: SuggestionView)
    requires
        suggest_spec(bs).contains(s),
        s.action is RenameCall,
    ensures
        exists|ri: int, ai: int|
            0 <= ri < bs.len() && 0 <= ai < bs.len() && #[trigger] bs[ri].kind == BreakKind::Removed
                && #[trigger] bs[ai].kind == BreakKind::Added && bs[ri].path == s.action->RenameCall_from
                && bs[ai].path == s.action->RenameCall_to && parent_spec(bs[ri].path) == parent_spec(bs[ai].path)
                && bs[ri].item_kind == bs[ai].item_kind && replace_spec(
                sig_or_empty(bs[ri].old_sig),
                leaf_spec(bs[ri].path),
                seq!['\0'],
            ) == replace_spec(sig_or_empty(bs[ai].new_sig), leaf_spec(bs[ai].path), seq!['\0']),
{
    law_auto_only_for_noop_and_confident_rename(bs, s);
    law_rename_pairs_sound(bs);
    let from = s.action->RenameCall_from;
    let to = s.action->RenameCall_to;
    let k = choose|k: int| 0 <= k < rename_pairs(bs).len() && #[trigger] rename_pairs(bs)[k] == (from, to, true);
    assert(pair_is_sound(bs, rename_pairs(bs)[k]));
    let (ri, ai) = choose|ri: int, ai: int|
        0 <= ri < bs.len() && 0 <= ai < bs.len() && #[trigger] bs[ri].kind == BreakKind::Removed
            && #[trigger] bs[ai].kind == BreakKind::Added && bs[ri].path == rename_pairs(bs)[k].0
            && bs[ai].path == rename_pairs(bs)[k].1 && parent_spec(rename_pairs(bs)[k].0) == parent_spec(
            rename_pairs(bs)[k].1,
        ) && bs[ri].item_kind == bs[ai].item_kind && (rename_pairs(bs)[k].2 ==> confident_match(bs[ri], bs[ai]))
            && (!rename_pairs(bs)[k].2 ==> weak_match(bs[ri], bs[ai]));
    assert(confident_match(bs[ri], bs[ai]));
}

} // verus!
