use api_drift::classify::{classify_diff, BreakKind, Severity};
use api_drift::diff::{diff_snapshots, ApiDiff, Changed};
use api_drift::snapshot::{ApiSnapshot, Item, ItemKind};

fn snap(items: Vec<Item>) -> ApiSnapshot {
    ApiSnapshot::new("v", items)
}

#[test]
fn added_is_compatible() {
    let d = diff_snapshots(&snap(vec![]), &snap(vec![Item::new("a::f", ItemKind::Function, "pub fn f()")]));
    let out = classify_diff(&d);
    assert_eq!(out.len(), 1);
    assert_eq!(out[0].kind, BreakKind::Added);
    assert_eq!(out[0].severity, Severity::Compatible);
}

#[test]
fn removed_is_breaking() {
    let d = diff_snapshots(&snap(vec![Item::new("a::f", ItemKind::Function, "pub fn f()")]), &snap(vec![]));
    let out = classify_diff(&d);
    assert_eq!(out[0].kind, BreakKind::Removed);
    assert_eq!(out[0].severity, Severity::Breaking);
}

#[test]
fn sig_change_breaking_unless_widening() {
    let d = diff_snapshots(
        &snap(vec![Item::new("a::f", ItemKind::Function, "pub fn f(x: u8)")]),
        &snap(vec![Item::new("a::f", ItemKind::Function, "pub fn f(x: u8, y: u8)")]),
    );
    let out = classify_diff(&d);
    assert_eq!(out[0].kind, BreakKind::SignatureChanged);
    assert_eq!(out[0].severity, Severity::Breaking);

    let kind = classify_diff(&ApiDiff {
        added: vec![],
        removed: vec![],
        changed: vec![Changed {
            path: "a::T".to_owned(),
            old_kind: ItemKind::Struct,
            new_kind: ItemKind::Enum,
            old_sig: "pub struct T".to_owned(),
            new_sig: "pub enum T".to_owned(),
        }],
    });
    assert_eq!(kind[0].kind, BreakKind::KindChanged);
    assert_eq!(kind[0].severity, Severity::Breaking);
}

#[test]
fn widening_allowlist_stays_compatible() {
    let d = diff_snapshots(
        &snap(vec![Item::new("arniko::Alert::new", ItemKind::Function, "pub fn new(message: &str) -> Self")]),
        &snap(vec![Item::new(
            "arniko::Alert::new",
            ItemKind::Function,
            "pub fn new(message: impl Into<String>) -> Self",
        )]),
    );
    let out = classify_diff(&d);
    assert_eq!(out[0].kind, BreakKind::SignatureChanged);
    assert_eq!(out[0].severity, Severity::Compatible);
}

#[test]
fn added_variant_and_field_are_warning() {
    let d = diff_snapshots(
        &snap(vec![]),
        &snap(vec![
            Item::new("e::E::V", ItemKind::Variant, "V"),
            Item::new("s::S::f", ItemKind::Field, "pub f: u8"),
            Item::new("m::f", ItemKind::Function, "pub fn f()"),
        ]),
    );
    let out = classify_diff(&d);
    let sev = |p: &str| out.iter().find(|b| b.path == p).unwrap().severity;
    assert_eq!(sev("e::E::V"), Severity::Warning);
    assert_eq!(sev("s::S::f"), Severity::Warning);
    assert_eq!(sev("m::f"), Severity::Compatible);
}

#[test]
fn output_sorted_by_path() {
    let d = diff_snapshots(
        &snap(vec![]),
        &snap(vec![Item::new("z::f", ItemKind::Function, "s"), Item::new("a::f", ItemKind::Function, "s")]),
    );
    let out = classify_diff(&d);
    assert_eq!(out[0].path, "a::f");
    assert_eq!(out[1].path, "z::f");
}

#[test]
fn one_break_per_diff_entry() {
    let d = diff_snapshots(
        &snap(vec![
            Item::new("a::gone", ItemKind::Function, "s"),
            Item::new("a::moved", ItemKind::Function, "s1"),
        ]),
        &snap(vec![
            Item::new("a::moved", ItemKind::Function, "s2"),
            Item::new("a::fresh", ItemKind::Function, "s"),
        ]),
    );
    let out = classify_diff(&d);
    assert_eq!(out.len(), d.len());
    let paths: Vec<&str> = out.iter().map(|b| b.path.as_str()).collect();
    assert_eq!(paths, vec!["a::fresh", "a::gone", "a::moved"]);
}

#[test]
fn notes_and_sigs_are_carried() {
    let d = diff_snapshots(
        &snap(vec![Item::new("a::f", ItemKind::Function, "pub fn f()")]),
        &snap(vec![Item::new("a::g", ItemKind::Struct, "pub struct G")]),
    );
    let out = classify_diff(&d);
    assert_eq!(out[0].path, "a::f");
    assert_eq!(out[0].note, "removed Function a::f");
    assert_eq!(out[0].old_sig.as_deref(), Some("pub fn f()"));
    assert_eq!(out[0].new_sig, None);
    assert_eq!(out[1].path, "a::g");
    assert_eq!(out[1].note, "added Struct a::g");
    assert_eq!(out[1].old_sig, None);
    assert_eq!(out[1].new_sig.as_deref(), Some("pub struct G"));
}

#[test]
fn removed_enum_variant_is_breaking_and_added_trait_is_compatible() {
    let d = diff_snapshots(
        &snap(vec![Item::new("e::E::V", ItemKind::Variant, "V")]),
        &snap(vec![Item::new("t::T", ItemKind::Trait, "pub trait T")]),
    );
    let out = classify_diff(&d);
    assert_eq!(out[0].path, "e::E::V");
    assert_eq!(out[0].severity, Severity::Breaking);
    assert_eq!(out[1].path, "t::T");
    assert_eq!(out[1].severity, Severity::Compatible);
}

fn changed(old_sig: &str, new_sig: &str) -> ApiDiff {
    ApiDiff {
        added: vec![],
        removed: vec![],
        changed: vec![Changed {
            path: "a::f".to_owned(),
            old_kind: ItemKind::Function,
            new_kind: ItemKind::Function,
            old_sig: old_sig.to_owned(),
            new_sig: new_sig.to_owned(),
        }],
    }
}

#[test]
fn widening_with_a_removed_parameter_is_breaking() {
    let out = classify_diff(&changed("pub fn f(a: &str, b: u8)", "pub fn f(a: impl Into<String>)"));
    assert_eq!(out[0].severity, Severity::Breaking);
}

#[test]
fn widening_one_parameter_among_several_is_compatible() {
    let out = classify_diff(&changed("pub fn f(a: u8, b: &str) -> bool", "pub fn f(a: u8, b: impl AsRef<str>) -> bool"));
    assert_eq!(out[0].severity, Severity::Compatible);
    let out = classify_diff(&changed("pub fn f(v: Vec<T>)", "pub fn f(v: &[T])"));
    assert_eq!(out[0].severity, Severity::Compatible);
}

#[test]
fn widening_must_be_a_whole_parameter_type() {
    // `&str` in the return type, or inside another type, is not a parameter.
    let out = classify_diff(&changed("pub fn f() -> &str", "pub fn f() -> impl Into<String>"));
    assert_eq!(out[0].severity, Severity::Breaking);
    let out = classify_diff(&changed("pub fn f(a: Option<&str>)", "pub fn f(a: Option<impl Into<String>>)"));
    assert_eq!(out[0].severity, Severity::Breaking);
    // Two moves at once are not a single widening.
    let out = classify_diff(&changed("pub fn f(a: &str, b: &str)", "pub fn f(a: impl Into<String>, b: impl Into<String>)"));
    assert_eq!(out[0].severity, Severity::Breaking);
    // A narrowing is not a widening.
    let out = classify_diff(&changed("pub fn f(a: impl Into<String>)", "pub fn f(a: &str)"));
    assert_eq!(out[0].severity, Severity::Breaking);
}
