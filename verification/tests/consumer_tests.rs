use api_drift::classify::{BreakKind, ClassifiedBreak, Severity};
use api_drift::consumer::{entries_after_pin, resolve_source, run, ConsumerConfig, UpstreamPin, UpstreamSource};
use api_drift::ledger::LedgerEntry;
use api_drift::snapshot::ItemKind;
use api_drift::snapshot_file::render_snapshot_file;
use api_drift::surface::{EnumSurface, Surface};
use api_drift::usage::PathOccurrence;

fn make_ledger_entry(
    surface: &str,
    from: &str,
    to: &str,
    breaks: Vec<ClassifiedBreak>,
    note: &str,
    reference: &str,
) -> LedgerEntry {
    LedgerEntry {
        ts: 1_757_894_400,
        surface: surface.to_owned(),
        from: from.to_owned(),
        to: to.to_owned(),
        version: "test".to_owned(),
        breaks,
        note: note.to_owned(),
        author: "test".to_owned(),
        reference: reference.to_owned(),
    }
}

fn brk_added_variant(path: &str) -> ClassifiedBreak {
    ClassifiedBreak {
        path: path.to_owned(),
        kind: BreakKind::Added,
        item_kind: ItemKind::Variant,
        severity: Severity::Warning,
        old_sig: None,
        new_sig: Some(path.rsplit("::").next().unwrap_or(path).to_owned()),
        note: format!("added variant {path}"),
    }
}

fn hash_of(surface: &EnumSurface) -> String {
    render_snapshot_file(surface.name(), &surface.snapshot()).content_hash
}

fn config(pin: &str) -> ConsumerConfig {
    ConsumerConfig {
        upstream: vec![UpstreamPin {
            name: "bro-tui".to_owned(),
            surface: "backend-events".to_owned(),
            source: UpstreamSource::Path { path: "../upstream/api-drift".to_owned() },
            pin: pin.to_owned(),
        }],
    }
}

fn occ(segments: &[&str], line: u32) -> PathOccurrence {
    PathOccurrence {
        segments: segments.iter().map(|s| (*s).to_owned()).collect(),
        file: "src/agent.rs".to_owned(),
        line,
    }
}

#[test]
fn pinned_to_current_head_is_clean() {
    let surface = EnumSurface::new(
        "backend-events",
        "bro_tui::backend::BackendEvent",
        &[
            ("Disconnected", "Disconnected"),
            ("HumanInput", "HumanInput { prompt: String, options: Vec<String> }"),
            ("ModelChanged", "ModelChanged { alias: String, model: String }"),
            ("Output", "Output(String)"),
            ("Permission", "Permission(RequestPermissionRequest)"),
            ("PromptFinished", "PromptFinished"),
            ("PromptStarted", "PromptStarted"),
            ("SessionUpdate", "SessionUpdate(SessionUpdate)"),
            ("Usage", "Usage(Value)"),
        ],
    );
    let current_hash = hash_of(&surface);
    let ledger = vec![make_ledger_entry("backend-events", "", &current_hash, vec![], "BRO-98 initial", "BRO-98")];
    // fn handle(ev: BackendEvent) { match ev { BackendEvent::Output(s) => {} } }
    let occurrences = vec![occ(&["BackendEvent"], 1), occ(&["ev"], 1), occ(&["BackendEvent", "Output"], 1)];
    assert!(run(&config(&current_hash), &[ledger], &occurrences).is_none());
}

#[test]
fn new_variant_after_pin_is_reported_with_call_site() {
    let old_surface = EnumSurface::new(
        "backend-events",
        "bro_tui::backend::BackendEvent",
        &[("Output", "Output(String)"), ("Disconnected", "Disconnected")],
    );
    let old_hash = hash_of(&old_surface);
    let new_surface = EnumSurface::new(
        "backend-events",
        "bro_tui::backend::BackendEvent",
        &[("Output", "Output(String)"), ("Disconnected", "Disconnected"), ("ToolCall", "ToolCall(String)")],
    );
    let new_hash = hash_of(&new_surface);
    let ledger = vec![
        make_ledger_entry("backend-events", "", &old_hash, vec![], "initial", ""),
        make_ledger_entry(
            "backend-events",
            &old_hash,
            &new_hash,
            vec![brk_added_variant("bro_tui::backend::BackendEvent::ToolCall")],
            "BRO-98: add match arm for ToolCall",
            "BRO-98",
        ),
    ];
    let occurrences = vec![
        occ(&["BackendEvent"], 4),
        occ(&["ev"], 5),
        occ(&["BackendEvent", "Output"], 6),
        occ(&["BackendEvent", "Disconnected"], 7),
    ];
    // The consumer has no ToolCall site yet: nothing to report.
    assert!(run(&config(&old_hash), &[ledger], &occurrences).is_none());
}

fn removed_scenario() -> (ConsumerConfig, Vec<LedgerEntry>, Vec<PathOccurrence>) {
    let old_surface = EnumSurface::new(
        "backend-events",
        "bro_tui::backend::BackendEvent",
        &[("Output", "Output(String)"), ("Partial", "Partial(String)")],
    );
    let old_hash = hash_of(&old_surface);
    let new_surface =
        EnumSurface::new("backend-events", "bro_tui::backend::BackendEvent", &[("Output", "Output(String)")]);
    let new_hash = hash_of(&new_surface);
    let removed_break = ClassifiedBreak {
        path: "bro_tui::backend::BackendEvent::Partial".to_owned(),
        kind: BreakKind::Removed,
        item_kind: ItemKind::Variant,
        severity: Severity::Breaking,
        old_sig: Some("Partial(String)".to_owned()),
        new_sig: None,
        note: "removed variant Partial".to_owned(),
    };
    let ledger = vec![
        make_ledger_entry("backend-events", "", &old_hash, vec![], "initial", ""),
        make_ledger_entry(
            "backend-events",
            &old_hash,
            &new_hash,
            vec![removed_break],
            "Partial folded into Output — remove match arm",
            "BRO-99",
        ),
    ];
    let occurrences = vec![
        occ(&["BackendEvent"], 4),
        occ(&["ev"], 5),
        occ(&["BackendEvent", "Output"], 6),
        occ(&["BackendEvent", "Partial"], 7),
    ];
    (config(&old_hash), ledger, occurrences)
}

#[test]
fn removed_variant_at_call_site_panics_with_location() {
    let (cfg, ledger, occurrences) = removed_scenario();
    let msg = run(&cfg, &[ledger], &occurrences).unwrap();
    assert!(msg.contains("bro_tui::backend::BackendEvent::Partial"), "report should name the broken item; got: {msg}");
    assert!(msg.contains("agent.rs"), "report should cite agent.rs; got: {msg}");
    assert!(msg.contains(":7"), "report should cite line 7; got: {msg}");
    assert!(msg.contains("Partial folded into Output"), "report should include the migration note; got: {msg}");
}

#[test]
fn removed_variant_report_is_exact() {
    let (cfg, ledger, occurrences) = removed_scenario();
    let pin: String = cfg.upstream[0].pin.chars().take(16).collect();
    let head: String = ledger[1].to.chars().take(16).collect();
    let msg = run(&cfg, &[ledger], &occurrences).unwrap();
    let expected = format!(
        "api-drift consumer check: breaks affecting used items:\nbro-tui/backend-events  pin {pin}…  → head {head}…  (1 ledger entry/entries, ref BRO-99)\n  Breaking/Removed  bro_tui::backend::BackendEvent::Partial\n    used: src/agent.rs:7\n    note: Partial folded into Output — remove match arm\n"
    );
    assert_eq!(msg, expected);
}

#[test]
fn empty_pin_sees_all_entries() {
    let surface =
        EnumSurface::new("backend-events", "bro_tui::backend::BackendEvent", &[("Output", "Output(String)")]);
    let hash = hash_of(&surface);
    let ledger = vec![make_ledger_entry(
        "backend-events",
        "",
        &hash,
        vec![brk_added_variant("bro_tui::backend::BackendEvent::Output")],
        "initial",
        "T-1",
    )];
    // fn h() { let _ = BackendEvent::Output(s); }
    let occurrences = vec![occ(&["BackendEvent", "Output"], 1), occ(&["s"], 1)];
    assert!(run(&config(""), &[ledger], &occurrences).is_some(), "empty pin should trigger break report");
}

#[test]
fn entries_after_pin_follows_the_chain() {
    let e = |s: &str, to: &str| make_ledger_entry(s, "", to, vec![], "", "");
    let entries = vec![e("a", "h1"), e("b", "x1"), e("a", "h2"), e("a", "h3"), e("b", "x2")];
    let after: Vec<String> = entries_after_pin(&entries, "a", "h1").into_iter().map(|e| e.to).collect();
    assert_eq!(after, vec!["h2", "h3"]);
    assert!(entries_after_pin(&entries, "a", "h3").is_empty());
    assert!(entries_after_pin(&entries, "a", "unknown").is_empty());
    let all: Vec<String> = entries_after_pin(&entries, "b", "").into_iter().map(|e| e.to).collect();
    assert_eq!(all, vec!["x1", "x2"]);
}

#[test]
fn entries_after_pin_uses_the_last_matching_entry() {
    let e = |to: &str| make_ledger_entry("a", "", to, vec![], "", "");
    let entries = vec![e("h1"), e("h2"), e("h1"), e("h3")];
    let after: Vec<String> = entries_after_pin(&entries, "a", "h1").into_iter().map(|e| e.to).collect();
    assert_eq!(after, vec!["h3"]);
}

#[test]
fn resolve_source_joins_the_manifest_dir() {
    let src = UpstreamSource::Path { path: "../up/api-drift".to_owned() };
    assert_eq!(resolve_source("/work/consumer", &src), "/work/consumer/../up/api-drift");
    let abs = UpstreamSource::Path { path: "/abs/api-drift".to_owned() };
    assert_eq!(resolve_source("/work/consumer", &abs), "/abs/api-drift");
}

#[test]
fn only_upstreams_with_hits_get_a_section() {
    let (cfg, ledger, occurrences) = removed_scenario();
    let mut two = cfg;
    two.upstream.push(UpstreamPin {
        name: "other".to_owned(),
        surface: "other-events".to_owned(),
        source: UpstreamSource::Path { path: "x".to_owned() },
        pin: String::new(),
    });
    let msg = run(&two, &[ledger, vec![]], &occurrences).unwrap();
    assert!(!msg.contains("other/other-events"));
    assert_eq!(msg.matches("pin ").count(), 1);
}
