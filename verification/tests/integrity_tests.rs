use api_drift::integrity::{exit_code, is_snapshot_file_name, note_line, report_line, surface_of_file_name, surface_report};
use api_drift::ledger::LedgerEntry;
use api_drift::snapshot::{ApiSnapshot, Item, ItemKind};
use api_drift::snapshot_file::render_snapshot_file;

fn entry(surface: &str) -> LedgerEntry {
    LedgerEntry {
        ts: 1,
        surface: surface.to_owned(),
        from: "h0".to_owned(),
        to: "h1".to_owned(),
        version: "v1".to_owned(),
        breaks: vec![],
        note: String::new(),
        author: String::new(),
        reference: String::new(),
    }
}

#[test]
fn snapshot_file_names() {
    assert!(is_snapshot_file_name("item-kind.snapshot.json"));
    assert!(!is_snapshot_file_name("ledger.jsonl"));
    assert!(!is_snapshot_file_name(".snapshot.jso"));
    assert_eq!(surface_of_file_name("item-kind.snapshot.json"), "item-kind");
    assert_eq!(surface_of_file_name("x.snapshot.json.snapshot.json"), "x");
    assert_eq!(surface_of_file_name("plain"), "plain");
}

#[test]
fn good_file_reports_its_entries() {
    let file = render_snapshot_file("e", &ApiSnapshot::new("v1", vec![Item::new("m::f", ItemKind::Function, "s")]));
    let entries = vec![entry("e"), entry("f"), entry("e")];
    let r = surface_report("e.snapshot.json", Ok(&file), &entries);
    assert_eq!(r.surface, "e");
    assert_eq!(r.version, "v1");
    assert_eq!(r.content_hash, file.content_hash);
    assert_eq!(r.ledger_entries, 2);
    assert!(r.error.is_none());
    assert_eq!(report_line(&r), format!("e  v1  {}  (2 ledger entries)", file.content_hash));
    assert_eq!(exit_code(&[r]), 0);
}

#[test]
fn bad_file_reports_its_error_and_fails() {
    let r = surface_report("broken.snapshot.json", Err("snapshot format: expected `a`, found `b`".to_owned()), &[]);
    assert_eq!(r.surface, "broken");
    assert_eq!(r.version, "-");
    assert_eq!(r.content_hash, "-");
    assert_eq!(r.ledger_entries, 0);
    assert_eq!(report_line(&r), "broken  ERROR: snapshot format: expected `a`, found `b`");
    assert_eq!(exit_code(&[r]), 1);
    assert_eq!(exit_code(&[]), 0);
}

#[test]
fn note_line_shows_the_chain() {
    assert_eq!(note_line(&entry("e")), "recorded e: h0 -> h1 (v1)");
}
