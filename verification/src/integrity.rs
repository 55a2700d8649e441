//! The integrity check of a ledger directory (the CLI's `check` and the
//! line its `note` prints): which files are committed snapshots, what each
//! one reports, and whether the check fails.
//!
//! Listing the directory, reading and parsing each file is the caller's
//! part; it hands each file's name and parse outcome over.

use vstd::prelude::*;
use crate::ledger::{LedgerEntry, LedgerEntryView};
use crate::snapshot_file::{SnapshotFile, SnapshotFileError, SnapshotFileView};
use crate::sorting::views;
use crate::text::{chars_of, decimal, push_decimal, str_eq, string_from_chars};

verus! {

/// The suffix of a committed snapshot's file name.
pub open spec fn snapshot_suffix() -> Seq<char> {
    ".snapshot.json"@
}

/// `s` ends with `p`.
pub open spec fn ends_with(s: Seq<char>, p: Seq<char>) -> bool {
    p.len() <= s.len() && s.skip(s.len() - p.len()) == p
}

/// `s` with every trailing repetition of a non-empty `p` removed
/// (`str::trim_end_matches`).
pub open spec fn trim_end_all(s: Seq<char>, p: Seq<char>) -> Seq<char>
    decreases s.len(),
{
    if p.len() > 0 && ends_with(s, p) {
        trim_end_all(s.take(s.len() - p.len()), p)
    } else {
        s
    }
}

/// Whether `v` ends with `p`.
fn ends_with_chars(v: &Vec<char>, n: usize, p: &Vec<char>) -> (r: bool)
    requires
        n <= v@.len(),
    ensures
        r == ends_with(v@.take(n as int), p@),
{
    if p.len() > n {
        return false;
    }
    let start = n - p.len();
    let mut k: usize = 0;
    while k < p.len()
        invariant
            start + p@.len() == n,
            n <= v@.len(),
            k <= p@.len(),
            forall|j: int| 0 <= j < k ==> v@[start + j] == p@[j],
        decreases p@.len() - k,
    {
        if v[start + k] != p[k] {
            assert(v@.take(n as int).skip(start as int)[k as int] != p@[k as int]);
            return false;
        }
        k = k + 1;
    }
    assert(v@.take(n as int).skip(start as int) =~= p@);
    true
}

/// The file is a committed snapshot: its name ends with `.snapshot.json`.
pub fn is_snapshot_file_name(name: &str) -> (r: bool)
    ensures
        r == ends_with(name@, snapshot_suffix()),
{
    let v = chars_of(name);
    let p = chars_of(".snapshot.json");
    assert(v@.take(v@.len() as int) =~= v@);
    ends_with_chars(&v, v.len(), &p)
}

/// The surface a committed snapshot's file name stands for: the name with
/// the suffix trimmed off (every trailing repetition of it, as
/// `trim_end_matches` does).
pub fn surface_of_file_name(name: &str) -> (r: String)
    ensures
        r@ == trim_end_all(name@, snapshot_suffix()),
{
    let v = chars_of(name);
    let p = chars_of(".snapshot.json");
    let mut n = v.len();
    assert(v@.take(n as int) =~= v@);
    proof {
        reveal_strlit(".snapshot.json");
    }
    while ends_with_chars(&v, n, &p)
        invariant
            n <= v@.len(),
            p@ == snapshot_suffix(),
            p@.len() > 0,
            trim_end_all(v@.take(n as int), p@) == trim_end_all(v@, p@),
            v@ == name@,
        decreases n,
    {
        assert(v@.take(n as int).take(n - p@.len()) =~= v@.take(n - p@.len()));
        n = n - p.len();
    }
    let mut out: Vec<char> = Vec::new();
    for i in 0..n
        invariant
            n <= v@.len(),
            out@ == v@.take(i as int),
    {
        out.push(v[i]);
        assert(out@ =~= v@.take(i + 1));
    }
    string_from_chars(&out)
}

/// What the integrity check reports for one committed snapshot file.
#[derive(Debug)]
pub struct SurfaceReport {
    pub surface: String,
    pub version: String,
    pub content_hash: String,
    pub ledger_entries: usize,
    /// Why the file failed to parse or verify.
    pub error: Option<String>,
}

/// Abstract value of a [`SurfaceReport`].
pub struct SurfaceReportView {
    pub surface: Seq<char>,
    pub version: Seq<char>,
    pub content_hash: Seq<char>,
    pub ledger_entries: nat,
    pub error: Option<Seq<char>>,
}

impl View for SurfaceReport {
    type V = SurfaceReportView;

    open spec fn view(&self) -> SurfaceReportView {
        SurfaceReportView {
            surface: self.surface@,
            version: self.version@,
            content_hash: self.content_hash@,
            ledger_entries: self.ledger_entries as nat,
            error: match self.error {
                Some(e) => Some(e@),
                None => None,
            },
        }
    }
}

/// How many of the first `n` entries are for `surface`.
pub open spec fn count_surface(entries: Seq<LedgerEntryView>, surface: Seq<char>, n: int) -> nat
    decreases n,
{
    if n <= 0 {
        0
    } else if entries[n - 1].surface == surface {
        count_surface(entries, surface, n - 1) + 1
    } else {
        count_surface(entries, surface, n - 1)
    }
}

/// The report for one committed snapshot file: for a file that parsed and
/// verified, its surface, version and hash and how many ledger entries its
/// surface has; for one that did not, the surface its name stands for and
/// the reason.
pub open spec fn surface_report_spec(
    file_name: Seq<char>,
    parsed: Result<SnapshotFileView, Seq<char>>,
    entries: Seq<LedgerEntryView>,
) -> SurfaceReportView {
    match parsed {
        Ok(f) => SurfaceReportView {
            surface: f.surface,
            version: f.version,
            content_hash: f.content_hash,
            ledger_entries: count_surface(entries, f.surface, entries.len() as int),
            error: None,
        },
        Err(e) => SurfaceReportView {
            surface: trim_end_all(file_name, snapshot_suffix()),
            version: "-"@,
            content_hash: "-"@,
            ledger_entries: 0,
            error: Some(e),
        },
    }
}

/// The view of a parse outcome.
pub open spec fn parsed_view(parsed: Result<&SnapshotFile, String>) -> Result<SnapshotFileView, Seq<char>> {
    match parsed {
        Ok(f) => Ok(f@),
        Err(e) => Err(e@),
    }
}

/// Build the report for one committed snapshot file (see
/// [`surface_report_spec`]); `parsed` is the file parsed and verified, or
/// the message of why not.
pub fn surface_report(file_name: &str, parsed: Result<&SnapshotFile, String>, entries: &[LedgerEntry]) -> (r: SurfaceReport)
    ensures
        r@ == surface_report_spec(file_name@, parsed_view(parsed), views(entries@)),
{
    match parsed {
        Ok(sf) => {
            let ghost es = views(entries@);
            let mut n: usize = 0;
            for i in 0..entries.len()
                invariant
                    es == views(entries@),
                    n == count_surface(es, sf.surface@, i as int),
                    n <= i,
            {
                assert(es[i as int] == entries@[i as int]@);
                if str_eq(entries[i].surface.as_str(), sf.surface.as_str()) {
                    n = n + 1;
                }
            }
            SurfaceReport {
                surface: sf.surface.clone(),
                version: sf.version.clone(),
                content_hash: sf.content_hash.clone(),
                ledger_entries: n,
                error: None,
            }
        },
        Err(e) => SurfaceReport {
            surface: surface_of_file_name(file_name),
            version: "-".to_owned(),
            content_hash: "-".to_owned(),
            ledger_entries: 0,
            error: Some(e),
        },
    }
}

/// The line the check prints for a report.
pub open spec fn report_line_spec(r: SurfaceReportView) -> Seq<char> {
    match r.error {
        None => r.surface + "  "@ + r.version + "  "@ + r.content_hash + "  ("@ + decimal(r.ledger_entries)
            + " ledger entries)"@,
        Some(e) => r.surface + "  ERROR: "@ + e,
    }
}

/// The line the check prints for a report.
pub fn report_line(r: &SurfaceReport) -> (s: String)
    ensures
        s@ == report_line_spec(r@),
{
    let mut s = r.surface.clone();
    match &r.error {
        None => {
            s.append("  ");
            s.append(r.version.as_str());
            s.append("  ");
            s.append(r.content_hash.as_str());
            s.append("  (");
            push_decimal(&mut s, r.ledger_entries as u64);
            s.append(" ledger entries)");
        },
        Some(e) => {
            s.append("  ERROR: ");
            s.append(e.as_str());
        },
    }
    s
}

/// How many reports are failures.
pub open spec fn failures_upto(reports: Seq<SurfaceReportView>, n: int) -> nat
    decreases n,
{
    if n <= 0 {
        0
    } else if reports[n - 1].error is Some {
        failures_upto(reports, n - 1) + 1
    } else {
        failures_upto(reports, n - 1)
    }
}

/// The check's exit code: 1 when any file failed, else 0.
pub fn exit_code(reports: &[SurfaceReport]) -> (code: i32)
    ensures
        code == (if failures_upto(views(reports@), reports@.len() as int) > 0 { 1i32 } else { 0i32 }),
{
    let ghost rv = views(reports@);
    let mut failures: usize = 0;
    for i in 0..reports.len()
        invariant
            rv == views(reports@),
            failures == failures_upto(rv, i as int),
            failures <= i,
    {
        assert(rv[i as int] == reports@[i as int]@);
        if reports[i].error.is_some() {
            failures = failures + 1;
        }
    }
    if failures > 0 {
        1
    } else {
        0
    }
}

/// The line `note` prints once the entry is appended:
/// `recorded <surface>: <from> -> <to> (<version>)`.
pub open spec fn note_line_spec(e: LedgerEntryView) -> Seq<char> {
    "recorded "@ + e.surface + ": "@ + e.from + " -> "@ + e.to + " ("@ + e.version + ")"@
}

/// The line `note` prints once the entry is appended.
pub fn note_line(e: &LedgerEntry) -> (s: String)
    ensures
        s@ == note_line_spec(e@),
{
    let mut s = String::from_str("recorded ");
    s.append(e.surface.as_str());
    s.append(": ");
    s.append(e.from.as_str());
    s.append(" -> ");
    s.append(e.to.as_str());
    s.append(" (");
    s.append(e.version.as_str());
    s.append(")");
    s
}

} // verus!
