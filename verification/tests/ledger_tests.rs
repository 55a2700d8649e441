use api_drift::classify::{BreakKind, ClassifiedBreak, Severity};
use api_drift::ledger::{
    check, check_one, check_with_ledger, committed_file, corroboration, is_recorded, ledger_path, note_entry, record,
    CheckOutcome, CheckStep, LedgerEntry,
};
use api_drift::snapshot::ItemKind;
use api_drift::snapshot_file::{render_snapshot_file, SnapshotFile};
use api_drift::surface::{EnumSurface, Surface};

fn surf(name: &'static str, variants: &[(&str, &str)]) -> EnumSurface {
    EnumSurface::new(name, "m::E", variants)
}

fn entry(surface: &str, to: &str, note: &str, breaks: Vec<ClassifiedBreak>) -> LedgerEntry {
    LedgerEntry {
        ts: 1,
        surface: surface.to_owned(),
        from: String::new(),
        to: to.to_owned(),
        version: "m::E".to_owned(),
        breaks,
        note: note.to_owned(),
        author: "tester".to_owned(),
        reference: "T-1".to_owned(),
    }
}

/// The full decision of the ledger test for one surface over an in-memory
/// committed envelope and history; update mode records.
fn run_check(
    s: &EnumSurface,
    committed: &mut Option<SnapshotFile>,
    entries: &mut Vec<LedgerEntry>,
    update: bool,
) -> Result<CheckOutcome, String> {
    match check(s.name(), &s.snapshot(), committed.as_ref(), update) {
        CheckStep::Done(o) => Ok(o),
        CheckStep::MissingSnapshot => Err(format!("no committed snapshot for `{}`", s.name())),
        CheckStep::RecordFirst => {
            let (file, e) = record(s.name(), &s.snapshot(), committed.as_ref(), "", "unknown", "", 0);
            *committed = Some(file);
            entries.push(e);
            Ok(CheckOutcome::Initialized)
        }
        CheckStep::RecordDrift => {
            let (file, e) = record(s.name(), &s.snapshot(), committed.as_ref(), "", "unknown", "", 0);
            *committed = Some(file);
            let breaks = e.breaks.clone();
            entries.push(e);
            Ok(CheckOutcome::Updated { breaks })
        }
        CheckStep::ConsultLedger { new_hash, breaks } => Ok(check_with_ledger(s.name(), &new_hash, breaks, entries)),
    }
}

#[test]
fn first_record_initializes() {
    let mut committed = None;
    let mut entries = Vec::new();
    let s = surf("e", &[("A", ""), ("B", "")]);
    assert!(run_check(&s, &mut committed, &mut entries, false).is_err());
    let out = run_check(&s, &mut committed, &mut entries, true).unwrap();
    assert!(matches!(out, CheckOutcome::Initialized));
    assert!(matches!(run_check(&s, &mut committed, &mut entries, false).unwrap(), CheckOutcome::Clean));
    assert_eq!(entries.len(), 1);
    assert_eq!(entries[0].from, "");
    assert_eq!(entries[0].to, committed.as_ref().unwrap().content_hash);
}

#[test]
fn unrecorded_drift_is_detected() {
    let mut committed = None;
    let mut entries = Vec::new();
    let a = surf("e", &[("A", "")]);
    run_check(&a, &mut committed, &mut entries, true).unwrap();
    let b = surf("e", &[("A", ""), ("B", "")]);
    match run_check(&b, &mut committed, &mut entries, false).unwrap() {
        CheckOutcome::Unrecorded { breaks } => {
            assert_eq!(breaks.len(), 1);
            assert_eq!(breaks[0].path, "m::E::B");
        }
        other => panic!("expected Unrecorded, got {other:?}"),
    }
}

#[test]
fn recorded_hash_passes_and_corroborates() {
    let mut committed = None;
    let mut entries = Vec::new();
    let a = surf("e", &[("A", "")]);
    run_check(&a, &mut committed, &mut entries, true).unwrap();
    let b = surf("e", &[("A", ""), ("B", "")]);
    let to = render_snapshot_file("e", &b.snapshot()).content_hash;
    entries.push(entry("e", &to, "added B", vec![]));
    assert!(matches!(run_check(&b, &mut committed, &mut entries, false).unwrap(), CheckOutcome::Recorded));
    assert!(is_recorded(&entries, "e", &to));
    assert_eq!(corroboration(&entries, "e", &to), 1);
}

#[test]
fn corroboration_counts_every_matching_entry() {
    let entries = vec![
        entry("e", "h1", "", vec![]),
        entry("f", "h1", "", vec![]),
        entry("e", "h2", "", vec![]),
        entry("e", "h1", "", vec![]),
    ];
    assert_eq!(corroboration(&entries, "e", "h1"), 2);
    assert_eq!(corroboration(&entries, "f", "h1"), 1);
    assert_eq!(corroboration(&entries, "g", "h1"), 0);
    assert!(!is_recorded(&entries, "f", "h2"));
}

#[test]
fn record_chains_from_the_committed_hash() {
    let a = surf("e", &[("A", "")]);
    let (file_a, first) = record("e", &a.snapshot(), None, "", "unknown", "", 5);
    assert_eq!(first.from, "");
    assert!(first.breaks.is_empty());
    let b = surf("e", &[("B", "")]);
    let (file_b, second) = record("e", &b.snapshot(), Some(&file_a), "renamed", "me", "T-2", 6);
    assert_eq!(second.from, file_a.content_hash);
    assert_eq!(second.to, file_b.content_hash);
    assert_eq!(second.ts, 6);
    assert_eq!(second.version, "m::E");
    assert_eq!(second.note, "renamed");
    let paths: Vec<&str> = second.breaks.iter().map(|b| b.path.as_str()).collect();
    assert_eq!(paths, vec!["m::E::A", "m::E::B"]);
    assert!(is_recorded(&[first, second], "e", &file_b.content_hash));
}

#[test]
fn check_one_messages() {
    assert_eq!(check_one("e", &CheckOutcome::Clean), Ok(None));
    assert_eq!(
        check_one("e", &CheckOutcome::Recorded),
        Ok(Some("api-drift ledger `e`: diff recorded in ledger.jsonl".to_owned()))
    );
    assert_eq!(
        check_one("e", &CheckOutcome::Initialized),
        Ok(Some("api-drift ledger `e`: first snapshot committed (API_DRIFT_UPDATE=1)".to_owned()))
    );
    assert_eq!(
        check_one("e", &CheckOutcome::Updated { breaks: vec![] }),
        Ok(Some(
            "api-drift ledger `e`: recorded 0 break(s) with empty note — replace with a real migration note".to_owned()
        ))
    );
    let b = ClassifiedBreak {
        path: "m::E::B".to_owned(),
        kind: BreakKind::Added,
        item_kind: ItemKind::Variant,
        severity: Severity::Warning,
        old_sig: None,
        new_sig: Some("B".to_owned()),
        note: "added Variant m::E::B".to_owned(),
    };
    let msg = check_one("e", &CheckOutcome::Unrecorded { breaks: vec![b] }).unwrap_err();
    assert_eq!(
        msg,
        "api-drift ledger `e`: unrecorded API drift (1 break(s))\nrecord it: API_DRIFT_UPDATE=1 cargo test\nor: api-drift note --surface e \"<migration note>\"\nbreaks:  [Warning/Added] m::E::B — added Variant m::E::B\n"
    );
}

#[test]
fn note_chains_from_the_last_entry_and_carries_blank_note_breaks() {
    let b = ClassifiedBreak {
        path: "m::E::B".to_owned(),
        kind: BreakKind::Added,
        item_kind: ItemKind::Variant,
        severity: Severity::Warning,
        old_sig: None,
        new_sig: Some("B".to_owned()),
        note: "added Variant m::E::B".to_owned(),
    };
    let file = render_snapshot_file("e", &surf("e", &[("A", ""), ("B", "")]).snapshot());
    let entries = vec![entry("e", "h1", "first", vec![]), entry("f", "x", "", vec![]), entry("e", "h2", " \t", vec![b])];
    let e = note_entry(&entries, "e", &file, "add B arm", "T-9", "me", 42);
    assert_eq!(e.from, "h2");
    assert_eq!(e.to, file.content_hash);
    assert_eq!(e.version, "m::E");
    assert_eq!(e.breaks.len(), 1);
    assert_eq!(e.note, "add B arm");
    assert_eq!(e.reference, "T-9");
    assert_eq!(e.author, "me");
    assert_eq!(e.ts, 42);

    let noted = vec![entry("e", "h3", "real note", vec![])];
    let e = note_entry(&noted, "e", &file, "n", "", "", 1);
    assert_eq!(e.from, "h3");
    assert!(e.breaks.is_empty());

    let e = note_entry(&[], "e", &file, "n", "", "", 1);
    assert_eq!(e.from, "");
}

#[test]
fn ledger_files_live_in_the_dir() {
    assert_eq!(ledger_path("api-drift"), "api-drift/ledger.jsonl");
    assert_eq!(ledger_path("api-drift/"), "api-drift/ledger.jsonl");
    assert_eq!(committed_file("d", "item-kind"), "d/item-kind.snapshot.json");
}

#[test]
fn update_mode_records_drift() {
    let mut committed = None;
    let mut entries = Vec::new();
    let a = surf("e", &[("A", "")]);
    run_check(&a, &mut committed, &mut entries, true).unwrap();
    let b = surf("e", &[("A", ""), ("B", "")]);
    assert!(matches!(
        check("e", &b.snapshot(), committed.as_ref(), true),
        CheckStep::RecordDrift
    ));
    match run_check(&b, &mut committed, &mut entries, true).unwrap() {
        CheckOutcome::Updated { breaks } => {
            assert_eq!(breaks.len(), 1);
            assert_eq!(breaks[0].path, "m::E::B");
            assert_eq!(breaks[0].kind, BreakKind::Added);
        }
        other => panic!("expected Updated, got {other:?}"),
    }
    let new_hash = render_snapshot_file("e", &b.snapshot()).content_hash;
    assert_eq!(committed.as_ref().unwrap().content_hash, new_hash);
    assert_eq!(entries.len(), 2);
    assert_eq!(entries[1].to, new_hash);
    assert_eq!(entries[1].from, entries[0].to);
    // Outside update mode the same shape is now clean.
    assert!(matches!(run_check(&b, &mut committed, &mut entries, false).unwrap(), CheckOutcome::Clean));
}
