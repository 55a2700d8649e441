//! Embedded contract ledger: the append-only `ledger.jsonl` history of
//! recorded contract changes, and the decisions of the ledger test.
//!
//! The ledger test, per surface: regenerate the surface; diff against the
//! committed `<dir>/<surface>.snapshot.json`.
//!
//! - No diff → pass.
//! - Diff, and `ledger.jsonl` already records the new content hash → pass.
//! - Diff, unrecorded → fail with the classified breaks.
//! - In update mode a drifted (or first) surface is recorded instead: the
//!   new snapshot is written and an entry appended.
//!
//! Reading and writing the files is the caller's part; this module decides.
//! Corrections append, never rewrite.

use vstd::prelude::*;
use crate::classify::{ClassifiedBreak, ClassifiedBreakView, break_kind_name, break_kind_name_spec, classify_diff, classify_spec, severity_name, severity_name_spec};
use crate::diff::{ApiDiffView, added_spec, changed_spec, diff_snapshots, removed_spec};
use crate::snapshot::{ApiSnapshot, ApiSnapshotView, Item, ItemView, copy_items};
use crate::snapshot_file::{SnapshotFile, SnapshotFileView, render_snapshot_file, render_spec};
use crate::sorting::{sort_by_key, views};
use crate::text::{contains_spec, decimal, is_whitespace, is_whitespace_spec, occurs_at, push_decimal, str_eq};

verus! {

/// One recorded contract change (append-only, one JSON object per line).
/// Carries only failure patterns (paths, sigs, hashes) — never user data.
#[derive(Debug)]
pub struct LedgerEntry {
    /// Unix seconds when recorded (ordering + audit).
    pub ts: u64,
    /// Ledger key, e.g. `acp-contract`.
    pub surface: String,
    /// `sha256:` of the previous committed snapshot (empty on first record).
    pub from: String,
    /// `sha256:` of the newly recorded snapshot.
    pub to: String,
    /// Version label at record time (e.g. `1.3.0`).
    pub version: String,
    /// Classified breaks at record time.
    pub breaks: Vec<ClassifiedBreak>,
    /// The migration note.
    pub note: String,
    /// Who recorded it (agent or human).
    pub author: String,
    /// Reference (ticket id), e.g. `BRO-98`.
    pub reference: String,
}

/// Abstract value of a [`LedgerEntry`].
pub struct LedgerEntryView {
    pub ts: u64,
    pub surface: Seq<char>,
    pub from: Seq<char>,
    pub to: Seq<char>,
    pub version: Seq<char>,
    pub breaks: Seq<ClassifiedBreakView>,
    pub note: Seq<char>,
    pub author: Seq<char>,
    pub reference: Seq<char>,
}

impl View for LedgerEntry {
    type V = LedgerEntryView;

    open spec fn view(&self) -> LedgerEntryView {
        LedgerEntryView {
            ts: self.ts,
            surface: self.surface@,
            from: self.from@,
            to: self.to@,
            version: self.version@,
            breaks: views(self.breaks@),
            note: self.note@,
            author: self.author@,
            reference: self.reference@,
        }
    }
}

/// A copy of a list of breaks.
pub fn copy_breaks(v: &[ClassifiedBreak]) -> (r: Vec<ClassifiedBreak>)
    ensures
        views(r@) == views(v@),
{
    let mut out: Vec<ClassifiedBreak> = Vec::new();
    for i in 0..v.len()
        invariant
            views(out@) == views(v@).take(i as int),
            out@.len() == i,
    {
        let ghost before = out@;
        let c = v[i].clone();
        out.push(c);
        assert forall|k: int| 0 <= k <= i implies views(out@)[k] == views(v@).take(i + 1)[k] by {
            if k < i {
                assert(views(out@)[k] == out@[k]@);
                assert(out@[k] == before[k]);
                assert(views(before)[k] == before[k]@);
            } else {
                assert(out@[k] == c);
            }
        }
        assert(views(out@) =~= views(v@).take(i + 1));
    }
    assert(views(v@).take(v@.len() as int) =~= views(v@));
    out
}

impl Clone for LedgerEntry {
    fn clone(&self) -> (r: Self)
        ensures
            r@ == self@,
    {
        LedgerEntry {
            ts: self.ts,
            surface: self.surface.clone(),
            from: self.from.clone(),
            to: self.to.clone(),
            version: self.version.clone(),
            breaks: copy_breaks(&self.breaks),
            note: self.note.clone(),
            author: self.author.clone(),
            reference: self.reference.clone(),
        }
    }
}

/// `base` joined with the relative or absolute `name` (`Path::join` on
/// Unix): an absolute `name` replaces `base`; otherwise a `/` separates them
/// unless `base` is empty or already ends with one.
pub open spec fn join_path_spec(base: Seq<char>, name: Seq<char>) -> Seq<char> {
    if name.len() > 0 && name[0] == '/' {
        name
    } else if base.len() == 0 || base.last() == '/' {
        base + name
    } else {
        base + "/"@ + name
    }
}

/// Exec [`join_path_spec`].
pub fn join_path(base: &str, name: &str) -> (r: String)
    ensures
        r@ == join_path_spec(base@, name@),
{
    let n = crate::text::chars_of(name);
    if n.len() > 0 && n[0] == '/' {
        return name.to_owned();
    }
    let b = crate::text::chars_of(base);
    let mut r = base.to_owned();
    if !(b.len() == 0 || b[b.len() - 1] == '/') {
        r.append("/");
    }
    r.append(name);
    r
}

/// Path of the ledger file for `dir`.
pub fn ledger_path(dir: &str) -> (r: String)
    ensures
        r@ == join_path_spec(dir@, "ledger.jsonl"@),
{
    join_path(dir, "ledger.jsonl")
}

/// Path of the committed snapshot file of surface `name` in `dir`.
pub fn committed_file(dir: &str, name: &str) -> (r: String)
    ensures
        r@ == join_path_spec(dir@, name@ + ".snapshot.json"@),
{
    let mut file = name.to_owned();
    file.append(".snapshot.json");
    join_path(dir, file.as_str())
}

/// Some entry for `surface` records `to_hash` as its new hash.
pub open spec fn is_recorded_spec(entries: Seq<LedgerEntryView>, surface: Seq<char>, to_hash: Seq<char>) -> bool {
    exists|i: int| 0 <= i < entries.len() && #[trigger] entries[i].surface == surface && entries[i].to == to_hash
}

/// True when some entry for `surface` already records `to_hash`.
pub fn is_recorded(entries: &[LedgerEntry], surface: &str, to_hash: &str) -> (r: bool)
    ensures
        r == is_recorded_spec(views(entries@), surface@, to_hash@),
{
    let ghost es = views(entries@);
    for i in 0..entries.len()
        invariant
            es == views(entries@),
            forall|k: int| 0 <= k < i ==> !(#[trigger] es[k].surface == surface@ && es[k].to == to_hash@),
    {
        assert(es[i as int] == entries@[i as int]@);
        if str_eq(entries[i].surface.as_str(), surface) && str_eq(entries[i].to.as_str(), to_hash) {
            assert(es[i as int].surface == surface@ && es[i as int].to == to_hash@);
            return true;
        }
    }
    false
}

/// Number of entries among the first `n` for `surface` recording `to_hash`.
pub open spec fn count_recorded(entries: Seq<LedgerEntryView>, surface: Seq<char>, to_hash: Seq<char>, n: int) -> nat
    decreases n,
{
    if n <= 0 {
        0
    } else {
        count_recorded(entries, surface, to_hash, n - 1) + if entries[n - 1].surface == surface
            && entries[n - 1].to == to_hash {
            1nat
        } else {
            0nat
        }
    }
}

/// How many entries corroborate a given new hash for `surface` (the
/// antibody's corroboration counter — rises as more confirm the same
/// break); saturates at `u32::MAX`.
pub fn corroboration(entries: &[LedgerEntry], surface: &str, to_hash: &str) -> (r: u32)
    ensures
        r == if count_recorded(views(entries@), surface@, to_hash@, entries@.len() as int) > u32::MAX {
            u32::MAX as nat
        } else {
            count_recorded(views(entries@), surface@, to_hash@, entries@.len() as int)
        },
{
    let ghost es = views(entries@);
    let mut n: u32 = 0;
    for i in 0..entries.len()
        invariant
            es == views(entries@),
            n == if count_recorded(es, surface@, to_hash@, i as int) > u32::MAX {
                u32::MAX as nat
            } else {
                count_recorded(es, surface@, to_hash@, i as int)
            },
    {
        assert(es[i as int] == entries@[i as int]@);
        if str_eq(entries[i].surface.as_str(), surface) && str_eq(entries[i].to.as_str(), to_hash) {
            if n < u32::MAX {
                n = n + 1;
            }
        }
    }
    n
}

/// Outcome of checking one surface.
#[derive(Debug)]
pub enum CheckOutcome {
    /// Regenerated surface matches the committed snapshot.
    Clean,
    /// Diffed, but the new hash is already recorded in the ledger.
    Recorded,
    /// Diffed, unrecorded — the test fails with these breaks.
    Unrecorded { breaks: Vec<ClassifiedBreak> },
    /// Update mode: new snapshot written + entry appended.
    Updated { breaks: Vec<ClassifiedBreak> },
    /// First record: no committed snapshot existed; wrote one.
    Initialized,
}

/// What the ledger test does next for one surface.
#[derive(Debug)]
pub enum CheckStep {
    /// Decided without the ledger history.
    Done(CheckOutcome),
    /// No committed snapshot, update mode: record the surface, then report
    /// [`CheckOutcome::Initialized`].
    RecordFirst,
    /// No committed snapshot and not in update mode: an error.
    MissingSnapshot,
    /// The surface drifted, update mode: record the surface (write the new
    /// snapshot, append the entry [`record`] builds), then report
    /// [`CheckOutcome::Updated`] with the entry's breaks.
    RecordDrift,
    /// The surface drifted: read the ledger and call [`check_with_ledger`]
    /// with this new hash and these breaks.
    ConsultLedger { new_hash: String, breaks: Vec<ClassifiedBreak> },
}

/// The snapshot a committed envelope holds.
pub open spec fn committed_snapshot(f: SnapshotFileView) -> ApiSnapshotView {
    ApiSnapshotView { version: f.version, items: f.items }
}

/// The classified difference from the committed envelope to a new snapshot.
pub open spec fn drift_breaks(committed: SnapshotFileView, new_snap: ApiSnapshotView) -> Seq<ClassifiedBreakView> {
    let old = committed_snapshot(committed).items;
    classify_spec(
        ApiDiffView {
            added: added_spec(old, new_snap.items),
            removed: removed_spec(old, new_snap.items),
            changed: changed_spec(old, new_snap.items),
        },
    )
}

/// The regenerated surface matches the committed envelope (items and
/// version; the hash is not consulted).
pub open spec fn matches_committed(committed: SnapshotFileView, surface_name: Seq<char>, new_snap: ApiSnapshotView) -> bool {
    let fresh = render_spec(surface_name, new_snap);
    committed.items == fresh.items && committed.version == fresh.version
}

/// Exec equality of the views of two items.
fn item_eq(x: &Item, y: &Item) -> (r: bool)
    ensures
        r == (x@ == y@),
{
    if !str_eq(x.path.as_str(), y.path.as_str()) || x.kind != y.kind || !str_eq(x.sig.as_str(), y.sig.as_str())
        || x.attrs.len() != y.attrs.len() {
        assert(x@.attrs.len() == x.attrs@.len());
        return false;
    }
    let mut k: usize = 0;
    while k < x.attrs.len()
        invariant
            x.attrs@.len() == y.attrs@.len(),
            k <= x.attrs@.len(),
            x@.attrs.take(k as int) == y@.attrs.take(k as int),
        decreases x.attrs@.len() - k,
    {
        assert(x@.attrs[k as int] == x.attrs@[k as int]@ && y@.attrs[k as int] == y.attrs@[k as int]@);
        if !str_eq(x.attrs[k].as_str(), y.attrs[k].as_str()) {
            assert(x@.attrs[k as int] != y@.attrs[k as int]);
            return false;
        }
        assert(x@.attrs.take(k + 1) =~= x@.attrs.take(k as int).push(x@.attrs[k as int]));
        assert(y@.attrs.take(k + 1) =~= y@.attrs.take(k as int).push(y@.attrs[k as int]));
        k = k + 1;
    }
    assert(x@.attrs =~= x@.attrs.take(k as int));
    assert(y@.attrs =~= y@.attrs.take(k as int));
    true
}

/// Exec equality of the views of two item lists.
fn items_eq(a: &[Item], b: &[Item]) -> (r: bool)
    ensures
        r == (views(a@) == views(b@)),
{
    if a.len() != b.len() {
        return false;
    }
    let mut i: usize = 0;
    while i < a.len()
        invariant
            a@.len() == b@.len(),
            i <= a@.len(),
            views(a@).take(i as int) == views(b@).take(i as int),
        decreases a@.len() - i,
    {
        assert(views(a@)[i as int] == a@[i as int]@ && views(b@)[i as int] == b@[i as int]@);
        if !item_eq(&a[i], &b[i]) {
            return false;
        }
        assert(views(a@).take(i + 1) =~= views(a@).take(i as int).push(views(a@)[i as int]));
        assert(views(b@).take(i + 1) =~= views(b@).take(i as int).push(views(b@)[i as int]));
        i = i + 1;
    }
    assert(views(a@) =~= views(a@).take(i as int));
    assert(views(b@) =~= views(b@).take(i as int));
    true
}

/// The step the ledger test takes for a surface named `surface_name` whose
/// regenerated snapshot is `new_snap`, given the committed envelope (if any)
/// and whether update mode is on.
pub open spec fn check_step_spec(
    surface_name: Seq<char>,
    new_snap: ApiSnapshotView,
    committed: Option<SnapshotFileView>,
    update: bool,
) -> CheckStepView {
    match committed {
        None => if update { CheckStepView::RecordFirst } else { CheckStepView::MissingSnapshot },
        Some(c) => if matches_committed(c, surface_name, new_snap) {
            CheckStepView::Clean
        } else if update {
            CheckStepView::RecordDrift
        } else {
            CheckStepView::ConsultLedger {
                new_hash: render_spec(surface_name, new_snap).content_hash,
                breaks: drift_breaks(c, new_snap),
            }
        },
    }
}

/// Abstract value of the steps [`check`] can take.
pub enum CheckStepView {
    Clean,
    RecordFirst,
    MissingSnapshot,
    RecordDrift,
    ConsultLedger { new_hash: Seq<char>, breaks: Seq<ClassifiedBreakView> },
}

/// The abstract step a [`CheckStep`] stands for.
pub open spec fn step_view(s: CheckStep) -> Option<CheckStepView> {
    match s {
        CheckStep::Done(CheckOutcome::Clean) => Some(CheckStepView::Clean),
        CheckStep::Done(_) => None,
        CheckStep::RecordFirst => Some(CheckStepView::RecordFirst),
        CheckStep::MissingSnapshot => Some(CheckStepView::MissingSnapshot),
        CheckStep::RecordDrift => Some(CheckStepView::RecordDrift),
        CheckStep::ConsultLedger { new_hash, breaks } => Some(
            CheckStepView::ConsultLedger { new_hash: new_hash@, breaks: views(breaks@) },
        ),
    }
}

/// The view of an optional envelope.
pub open spec fn opt_file_view(f: Option<&SnapshotFile>) -> Option<SnapshotFileView> {
    match f {
        Some(x) => Some(x@),
        None => None,
    }
}

/// Check one surface against its committed envelope (the ledger test's
/// decision tree, up to consulting the history).
pub fn check(surface_name: &str, new_snap: &ApiSnapshot, committed: Option<&SnapshotFile>, update: bool) -> (r: CheckStep)
    ensures
        step_view(r) == Some(check_step_spec(surface_name@, new_snap@, opt_file_view(committed), update)),
{
    match committed {
        None => if update {
            CheckStep::RecordFirst
        } else {
            CheckStep::MissingSnapshot
        },
        Some(c) => {
            let new_file = render_snapshot_file(surface_name, new_snap);
            if items_eq(&c.items, &new_file.items) && str_eq(c.version.as_str(), new_file.version.as_str()) {
                return CheckStep::Done(CheckOutcome::Clean);
            }
            if update {
                return CheckStep::RecordDrift;
            }
            let old_snap = ApiSnapshot::new(c.version.as_str(), copy_items(&c.items));
            let breaks = classify_diff(&diff_snapshots(&old_snap, new_snap));
            CheckStep::ConsultLedger { new_hash: new_file.content_hash, breaks }
        },
    }
}

/// The outcome once the history is known: recorded drift passes, unrecorded
/// drift fails with its breaks.
pub fn check_with_ledger(surface_name: &str, new_hash: &str, breaks: Vec<ClassifiedBreak>, entries: &[LedgerEntry]) -> (r: CheckOutcome)
    ensures
        is_recorded_spec(views(entries@), surface_name@, new_hash@) ==> r is Recorded,
        !is_recorded_spec(views(entries@), surface_name@, new_hash@) ==> (r matches CheckOutcome::Unrecorded { breaks: b }
            && views(b@) == views(breaks@)),
{
    if is_recorded(entries, surface_name, new_hash) {
        CheckOutcome::Recorded
    } else {
        CheckOutcome::Unrecorded { breaks }
    }
}

/// The entry `record` appends.
pub open spec fn record_entry_spec(
    surface_name: Seq<char>,
    new_snap: ApiSnapshotView,
    committed: Option<SnapshotFileView>,
    note: Seq<char>,
    author: Seq<char>,
    reference: Seq<char>,
    ts: u64,
) -> LedgerEntryView {
    LedgerEntryView {
        ts,
        surface: surface_name,
        from: match committed {
            Some(c) => c.content_hash,
            None => Seq::empty(),
        },
        to: render_spec(surface_name, new_snap).content_hash,
        version: new_snap.version,
        breaks: match committed {
            Some(c) => drift_breaks(c, new_snap),
            None => Seq::empty(),
        },
        note,
        author,
        reference,
    }
}

/// Record the current shape of a surface: the envelope to write and the
/// ledger entry to append (empty `note` = local iteration). The caller
/// writes both, then reports [`CheckOutcome::Updated`] with the entry's
/// breaks.
pub fn record(
    surface_name: &str,
    new_snap: &ApiSnapshot,
    committed: Option<&SnapshotFile>,
    note: &str,
    author: &str,
    reference: &str,
    ts: u64,
) -> (r: (SnapshotFile, LedgerEntry))
    ensures
        r.0@ == render_spec(surface_name@, new_snap@),
        r.1@ == record_entry_spec(surface_name@, new_snap@, opt_file_view(committed), note@, author@, reference@, ts),
{
    let new_file = render_snapshot_file(surface_name, new_snap);
    let (old_hash, breaks) = match committed {
        None => (String::new(), Vec::new()),
        Some(old) => {
            let old_snap = ApiSnapshot::new(old.version.as_str(), copy_items(&old.items));
            (old.content_hash.clone(), classify_diff(&diff_snapshots(&old_snap, new_snap)))
        },
    };
    proof {
        if committed is None {
            assert(views(breaks@) =~= Seq::<ClassifiedBreakView>::empty());
        }
    }
    let entry = LedgerEntry {
        ts,
        surface: surface_name.to_owned(),
        from: old_hash,
        to: new_file.content_hash.clone(),
        version: new_snap.version.clone(),
        breaks,
        note: note.to_owned(),
        author: author.to_owned(),
        reference: reference.to_owned(),
    };
    (new_file, entry)
}

} // verus!

verus! {

/// Index of the last entry for `surface` among the first `n`, or -1.
pub open spec fn last_entry_upto(entries: Seq<LedgerEntryView>, surface: Seq<char>, n: int) -> int
    decreases n,
{
    if n <= 0 {
        -1
    } else if entries[n - 1].surface == surface {
        n - 1
    } else {
        last_entry_upto(entries, surface, n - 1)
    }
}

/// Index of the last entry for `surface`, or -1.
pub open spec fn last_entry(entries: Seq<LedgerEntryView>, surface: Seq<char>) -> int {
    last_entry_upto(entries, surface, entries.len() as int)
}

/// `s` holds nothing but whitespace (`s.trim().is_empty()`).
pub open spec fn is_blank(s: Seq<char>) -> bool {
    forall|i: int| 0 <= i < s.len() ==> is_whitespace_spec(#[trigger] s[i])
}

/// Exec [`is_blank`].
pub fn is_blank_exec(s: &str) -> (r: bool)
    ensures
        r == is_blank(s@),
{
    let v = crate::text::chars_of(s);
    for i in 0..v.len()
        invariant
            v@ == s@,
            forall|k: int| 0 <= k < i ==> is_whitespace_spec(#[trigger] s@[k]),
    {
        if !is_whitespace(v[i]) {
            return false;
        }
    }
    true
}

/// The entry a migration note appends for `surface` whose committed
/// envelope is `file`: `from` chains off the previous entry for the surface;
/// when that entry was an auto-recorded one (blank note) its breaks are
/// carried over so the note keeps the diff detail.
pub open spec fn note_entry_spec(
    entries: Seq<LedgerEntryView>,
    surface: Seq<char>,
    file: SnapshotFileView,
    note: Seq<char>,
    reference: Seq<char>,
    author: Seq<char>,
    ts: u64,
) -> LedgerEntryView {
    let p = last_entry(entries, surface);
    LedgerEntryView {
        ts,
        surface,
        from: if p >= 0 { entries[p].to } else { Seq::empty() },
        to: file.content_hash,
        version: file.version,
        breaks: if p >= 0 && is_blank(entries[p].note) { entries[p].breaks } else { Seq::empty() },
        note,
        author,
        reference,
    }
}

/// Build the ledger entry for a migration note (see [`note_entry_spec`]).
pub fn note_entry(
    entries: &[LedgerEntry],
    surface: &str,
    file: &SnapshotFile,
    note: &str,
    reference: &str,
    author: &str,
    ts: u64,
) -> (r: LedgerEntry)
    ensures
        r@ == note_entry_spec(views(entries@), surface@, file@, note@, reference@, author@, ts),
{
    let ghost es = views(entries@);
    let mut n = entries.len();
    let mut prev: Option<usize> = None;
    while n > 0
        invariant_except_break
            prev is None,
            last_entry(es, surface@) == last_entry_upto(es, surface@, n as int),
        invariant
            n <= entries@.len(),
            es == views(entries@),
        ensures
            prev matches Some(p) ==> last_entry(es, surface@) == p && p < entries@.len(),
            prev is None ==> last_entry(es, surface@) == -1,
        decreases n,
    {
        assert(es[n - 1] == entries@[n - 1]@);
        if str_eq(entries[n - 1].surface.as_str(), surface) {
            prev = Some(n - 1);
            break;
        }
        n = n - 1;
    }
    let (from, breaks) = match prev {
        Some(p) => {
            assert(es[p as int] == entries@[p as int]@);
            let e = &entries[p];
            let breaks = if is_blank_exec(e.note.as_str()) {
                copy_breaks(&e.breaks)
            } else {
                Vec::new()
            };
            proof {
                if !is_blank(e@.note) {
                    assert(views(breaks@) =~= Seq::<ClassifiedBreakView>::empty());
                }
            }
            (e.to.clone(), breaks)
        },
        None => {
            let breaks: Vec<ClassifiedBreak> = Vec::new();
            assert(views(breaks@) =~= Seq::<ClassifiedBreakView>::empty());
            (String::new(), breaks)
        },
    };
    LedgerEntry {
        ts,
        surface: surface.to_owned(),
        from,
        to: file.content_hash.clone(),
        version: file.version.clone(),
        breaks,
        note: note.to_owned(),
        author: author.to_owned(),
        reference: reference.to_owned(),
    }
}

/// Recording a surface makes its new hash recorded: once the entry that
/// `record` builds is appended, the ledger test's verdict on that same
/// surface shape is "recorded", and earlier records stay recorded (the
/// history is append-only).
pub proof fn law_record_is_recorded(
    entries: Seq<LedgerEntryView>,
    surface_name: Seq<char>,
    new_snap: ApiSnapshotView,
    committed: Option<SnapshotFileView>,
    note: Seq<char>,
    author: Seq<char>,
    reference: Seq<char>,
    ts: u64,
)
    ensures
        is_recorded_spec(
            entries.push(record_entry_spec(surface_name, new_snap, committed, note, author, reference, ts)),
            surface_name,
            render_spec(surface_name, new_snap).content_hash,
        ),
        forall|s: Seq<char>, h: Seq<char>| is_recorded_spec(entries, s, h) ==> #[trigger] is_recorded_spec(
            entries.push(record_entry_spec(surface_name, new_snap, committed, note, author, reference, ts)),
            s,
            h,
        ),
{
    let e = record_entry_spec(surface_name, new_snap, committed, note, author, reference, ts);
    let es = entries.push(e);
    assert(es[entries.len() as int] == e);
    assert(es[entries.len() as int].surface == surface_name && es[entries.len() as int].to == render_spec(surface_name, new_snap).content_hash);
    assert forall|s: Seq<char>, h: Seq<char>| is_recorded_spec(entries, s, h) implies #[trigger] is_recorded_spec(es, s, h) by {
        let i = choose|i: int| 0 <= i < entries.len() && #[trigger] entries[i].surface == s && entries[i].to == h;
        assert(es[i] == entries[i]);
    }
}

/// A surface whose committed envelope is exactly what rendering its
/// current shape gives is clean, in update mode or not.
pub proof fn law_fresh_envelope_is_clean(surface_name: Seq<char>, new_snap: ApiSnapshotView, update: bool)
    ensures
        check_step_spec(surface_name, new_snap, Some(render_spec(surface_name, new_snap)), update) == CheckStepView::Clean,
{
}

/// Each appended entry that records `to_hash` for `surface` raises its
/// corroboration count by one; any other entry leaves it unchanged.
pub proof fn law_corroboration_counts(entries: Seq<LedgerEntryView>, e: LedgerEntryView, surface: Seq<char>, to_hash: Seq<char>)
    ensures
        count_recorded(entries.push(e), surface, to_hash, (entries.len() + 1) as int) == count_recorded(entries, surface, to_hash, entries.len() as int)
            + if e.surface == surface && e.to == to_hash { 1nat } else { 0nat },
{
    lemma_count_prefix(entries, e, surface, to_hash, entries.len() as int);
}

proof fn lemma_count_prefix(entries: Seq<LedgerEntryView>, e: LedgerEntryView, surface: Seq<char>, to_hash: Seq<char>, n: int)
    requires
        0 <= n <= entries.len(),
    ensures
        count_recorded(entries.push(e), surface, to_hash, n) == count_recorded(entries, surface, to_hash, n),
    decreases n,
{
    if n > 0 {
        lemma_count_prefix(entries, e, surface, to_hash, n - 1);
        assert(entries.push(e)[n - 1] == entries[n - 1]);
    }
}

/// The failure line of one unrecorded break.
pub open spec fn break_line(b: ClassifiedBreakView) -> Seq<char> {
    "  ["@ + severity_name_spec(b.severity) + "/"@ + break_kind_name_spec(b.kind) + "] "@ + b.path + " — "@ + b.note + "\n"@
}

/// The failure lines of the first `n` breaks.
pub open spec fn break_lines(bs: Seq<ClassifiedBreakView>, n: int) -> Seq<char>
    decreases n,
{
    if n <= 0 {
        Seq::empty()
    } else {
        break_lines(bs, n - 1) + break_line(bs[n - 1])
    }
}

/// The message the ledger test fails with on unrecorded drift: the count,
/// the two ways to record it, then one line per break.
pub open spec fn unrecorded_message(name: Seq<char>, bs: Seq<ClassifiedBreakView>) -> Seq<char> {
    "api-drift ledger `"@ + name + "`: unrecorded API drift ("@ + decimal(bs.len()) + " break(s))\nrecord it: API_DRIFT_UPDATE=1 cargo test\nor: api-drift note --surface "@
        + name + " \"<migration note>\"\nbreaks:"@ + break_lines(bs, bs.len() as int)
}

/// Check a single surface's outcome as the ledger test does: `Ok` with the
/// line it prints (none when clean), `Err` with the message it fails with
/// (unrecorded drift).
pub fn check_one(surface_name: &str, outcome: &CheckOutcome) -> (r: Result<Option<String>, String>)
    ensures
        match outcome {
            CheckOutcome::Clean => r matches Ok(None),
            CheckOutcome::Recorded => r matches Ok(Some(m))
                && m@ == "api-drift ledger `"@ + surface_name@ + "`: diff recorded in ledger.jsonl"@,
            CheckOutcome::Initialized => r matches Ok(Some(m))
                && m@ == "api-drift ledger `"@ + surface_name@ + "`: first snapshot committed (API_DRIFT_UPDATE=1)"@,
            CheckOutcome::Updated { breaks } => r matches Ok(Some(m))
                && m@ == "api-drift ledger `"@ + surface_name@ + "`: recorded "@ + decimal(breaks@.len())
                + " break(s) with empty note — replace with a real migration note"@,
            CheckOutcome::Unrecorded { breaks } => r matches Err(m) && m@ == unrecorded_message(surface_name@, views(breaks@)),
        },
{
    let mut m = String::new();
    m.append("api-drift ledger `");
    m.append(surface_name);
    match outcome {
        CheckOutcome::Clean => Ok(None),
        CheckOutcome::Recorded => {
            m.append("`: diff recorded in ledger.jsonl");
            Ok(Some(m))
        },
        CheckOutcome::Initialized => {
            m.append("`: first snapshot committed (API_DRIFT_UPDATE=1)");
            Ok(Some(m))
        },
        CheckOutcome::Updated { breaks } => {
            m.append("`: recorded ");
            push_decimal(&mut m, breaks.len() as u64);
            m.append(" break(s) with empty note — replace with a real migration note");
            Ok(Some(m))
        },
        CheckOutcome::Unrecorded { breaks } => {
            m.append("`: unrecorded API drift (");
            push_decimal(&mut m, breaks.len() as u64);
            m.append(" break(s))\nrecord it: API_DRIFT_UPDATE=1 cargo test\nor: api-drift note --surface ");
            m.append(surface_name);
            m.append(" \"<migration note>\"\nbreaks:");
            let ghost bv = views(breaks@);
            let ghost start = m@;
            for i in 0..breaks.len()
                invariant
                    bv == views(breaks@),
                    m@ == start + break_lines(bv, i as int),
            {
                let b = &breaks[i];
                assert(bv[i as int] == b@);
                let ghost before = m@;
                m.append("  [");
                m.append(severity_name(b.severity));
                m.append("/");
                m.append(break_kind_name(b.kind));
                m.append("] ");
                m.append(b.path.as_str());
                m.append(" — ");
                m.append(b.note.as_str());
                m.append("\n");
                assert(m@ =~= before + break_line(bv[i as int]));
                assert(m@ =~= start + break_lines(bv, i + 1));
            }
            assert(m@ =~= unrecorded_message(surface_name@, bv));
            Err(m)
        },
    }
}

/// Update mode records a drifted surface: the ledger test's step is to
/// record it, and the entry it appends carries exactly the classified drift
/// from the committed envelope and the new envelope's hash, which the ledger
/// then records (so the next check of that shape, outside update mode, finds
/// it recorded).
pub proof fn law_update_records_drift(
    entries: Seq<LedgerEntryView>,
    surface_name: Seq<char>,
    new_snap: ApiSnapshotView,
    committed: SnapshotFileView,
    author: Seq<char>,
    ts: u64,
)
    requires
        !matches_committed(committed, surface_name, new_snap),
    ensures
        check_step_spec(surface_name, new_snap, Some(committed), true) == CheckStepView::RecordDrift,
        record_entry_spec(surface_name, new_snap, Some(committed), Seq::empty(), author, Seq::empty(), ts).breaks
            == drift_breaks(committed, new_snap),
        record_entry_spec(surface_name, new_snap, Some(committed), Seq::empty(), author, Seq::empty(), ts).to
            == render_spec(surface_name, new_snap).content_hash,
        is_recorded_spec(
            entries.push(record_entry_spec(surface_name, new_snap, Some(committed), Seq::empty(), author, Seq::empty(), ts)),
            surface_name,
            render_spec(surface_name, new_snap).content_hash,
        ),
{
    law_record_is_recorded(entries, surface_name, new_snap, Some(committed), Seq::empty(), author, Seq::empty(), ts);
}

proof fn lemma_occurs_in_concat(p: Seq<char>, x: Seq<char>, q: Seq<char>, needle: Seq<char>, i: int)
    requires
        occurs_at(x, needle, i),
    ensures
        occurs_at(p + x + q, needle, p.len() + i),
{
    assert((p + x + q).subrange(p.len() + i, p.len() + i + needle.len()) =~= x.subrange(i, i + needle.len()));
}

proof fn lemma_break_lines_contain(bs: Seq<ClassifiedBreakView>, n: int, k: int)
    requires
        0 <= k < n <= bs.len(),
    ensures
        contains_spec(break_lines(bs, n), break_line(bs[k])),
    decreases n,
{
    let prev = break_lines(bs, n - 1);
    let last = break_line(bs[n - 1]);
    if k == n - 1 {
        assert(last.subrange(0, last.len() as int) =~= last);
        lemma_occurs_in_concat(prev, last, Seq::empty(), last, 0);
        assert(prev + last + Seq::<char>::empty() =~= break_lines(bs, n));
    } else {
        lemma_break_lines_contain(bs, n - 1, k);
        let i = choose|i: int| occurs_at(prev, break_line(bs[k]), i);
        lemma_occurs_in_concat(Seq::empty(), prev, last, break_line(bs[k]), i);
        assert(Seq::<char>::empty() + prev + last =~= break_lines(bs, n));
    }
}

/// The message of unrecorded drift names the surface and the number of
/// breaks, and has a line for every break with its severity, kind, path and
/// note.
pub proof fn law_unrecorded_message_names_every_break(name: Seq<char>, bs: Seq<ClassifiedBreakView>)
    ensures
        contains_spec(unrecorded_message(name, bs), name),
        contains_spec(unrecorded_message(name, bs), decimal(bs.len())),
        forall|k: int| 0 <= k < bs.len() ==> contains_spec(unrecorded_message(name, bs), #[trigger] break_line(bs[k])),
{
    let msg = unrecorded_message(name, bs);
    let l1 = "api-drift ledger `"@;
    let l2 = "`: unrecorded API drift ("@;
    let l3 = " break(s))\nrecord it: API_DRIFT_UPDATE=1 cargo test\nor: api-drift note --surface "@;
    let l4 = " \"<migration note>\"\nbreaks:"@;
    let d = decimal(bs.len());
    let bl = break_lines(bs, bs.len() as int);
    assert(name.subrange(0, name.len() as int) =~= name);
    assert(d.subrange(0, d.len() as int) =~= d);
    lemma_occurs_in_concat(l1, name, l2 + d + l3 + name + l4 + bl, name, 0);
    assert(l1 + name + (l2 + d + l3 + name + l4 + bl) =~= msg);
    lemma_occurs_in_concat(l1 + name + l2, d, l3 + name + l4 + bl, d, 0);
    assert(l1 + name + l2 + d + (l3 + name + l4 + bl) =~= msg);
    assert forall|k: int| 0 <= k < bs.len() implies contains_spec(msg, #[trigger] break_line(bs[k])) by {
        lemma_break_lines_contain(bs, bs.len() as int, k);
        let i = choose|i: int| occurs_at(bl, break_line(bs[k]), i);
        let p = l1 + name + l2 + d + l3 + name + l4;
        lemma_occurs_in_concat(p, bl, Seq::empty(), break_line(bs[k]), i);
        assert(p + bl + Seq::<char>::empty() =~= msg);
    }
}

/// The ledger test calls a surface clean exactly when the committed
/// envelope holds the new snapshot's items, sorted by path, equal in path,
/// kind, sig and attributes, and the same version; any other committed
/// envelope is drift (recorded in update mode, else looked up in the
/// ledger).
pub proof fn law_clean_means_unchanged(surface_name: Seq<char>, new_snap: ApiSnapshotView, committed: SnapshotFileView, update: bool)
    ensures
        (check_step_spec(surface_name, new_snap, Some(committed), update) == CheckStepView::Clean) <==> (committed.items
            == sort_by_key(new_snap.items) && committed.version == new_snap.version),
        !(committed.items == sort_by_key(new_snap.items) && committed.version == new_snap.version) ==> check_step_spec(
            surface_name,
            new_snap,
            Some(committed),
            update,
        ) == (if update {
            CheckStepView::RecordDrift
        } else {
            CheckStepView::ConsultLedger {
                new_hash: render_spec(surface_name, new_snap).content_hash,
                breaks: drift_breaks(committed, new_snap),
            }
        }),
{
}

} // verus!
