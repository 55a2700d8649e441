use api_drift::classify::{BreakKind, ClassifiedBreak, Severity};
use api_drift::snapshot::ItemKind;
use api_drift::suggest::{suggest_for_breaks, Suggestion};

fn brk(path: &str, kind: BreakKind, item_kind: ItemKind) -> ClassifiedBreak {
    ClassifiedBreak {
        path: path.to_owned(),
        kind,
        item_kind,
        severity: Severity::Warning,
        old_sig: None,
        new_sig: None,
        note: path.to_owned(),
    }
}

fn brk_sig(path: &str, kind: BreakKind, item_kind: ItemKind, old_sig: &str, new_sig: &str) -> ClassifiedBreak {
    ClassifiedBreak {
        path: path.to_owned(),
        kind,
        item_kind,
        severity: Severity::Warning,
        old_sig: Some(old_sig.to_owned()),
        new_sig: Some(new_sig.to_owned()),
        note: path.to_owned(),
    }
}

#[test]
fn suggest_rename_pair_folds_to_one_auto_suggestion() {
    let breaks = vec![
        brk_sig("arniko::Alert::old", BreakKind::Removed, ItemKind::Function, "pub fn old(&self)", ""),
        brk_sig("arniko::Alert::new", BreakKind::Added, ItemKind::Function, "", "pub fn new(&self)"),
    ];
    let out = suggest_for_breaks(&breaks);
    assert_eq!(out.len(), 1);
    assert_eq!(out[0].action.name(), "rename-call");
    assert!(out[0].auto_appliable);
}

#[test]
fn suggest_lone_removal_needs_review() {
    let out = suggest_for_breaks(&[brk("arniko::Gone::f", BreakKind::Removed, ItemKind::Function)]);
    assert_eq!(out[0].action.name(), "remove-item");
    assert!(!out[0].auto_appliable);
}

#[test]
fn suggest_addition_is_noop() {
    let out = suggest_for_breaks(&[brk("arniko::Fresh::f", BreakKind::Added, ItemKind::Function)]);
    assert_eq!(out[0].action.name(), "no-op");
    assert!(out[0].auto_appliable);
}

#[test]
fn suggest_different_parents_do_not_fold() {
    let breaks = vec![
        brk("arniko::A::old", BreakKind::Removed, ItemKind::Function),
        brk("arniko::B::new", BreakKind::Added, ItemKind::Function),
    ];
    let out = suggest_for_breaks(&breaks);
    assert_eq!(out.len(), 2);
    assert!(out.iter().all(|s| s.action.name() != "rename-call"));
}

#[test]
fn suggest_field_removed_plus_method_added_does_not_auto_rename() {
    let breaks = vec![
        brk_sig("bro::Event::old_field", BreakKind::Removed, ItemKind::Field, "pub old_field: u8", ""),
        brk_sig("bro::Event::new_method", BreakKind::Added, ItemKind::Method, "", "pub fn new_method(&self)"),
    ];
    let out = suggest_for_breaks(&breaks);
    assert_eq!(out.len(), 2);
    assert!(out.iter().all(|s| s.action.name() != "rename-call"));
    let rm = out.iter().find(|s| s.action.name() == "remove-item").unwrap();
    assert!(!rm.auto_appliable);
}

#[test]
fn suggest_weak_signal_same_kind_is_review_not_auto() {
    let breaks = vec![
        brk_sig(
            "m::old",
            BreakKind::Removed,
            ItemKind::Function,
            "pub fn old(x: u8, y: u8, z: u8) -> Vec<String>",
            "",
        ),
        brk_sig("m::new", BreakKind::Added, ItemKind::Function, "", "pub fn new() -> u32"),
    ];
    let out = suggest_for_breaks(&breaks);
    let folded: Vec<&Suggestion> = out.iter().filter(|s| s.action.name() == "review-rename").collect();
    if folded.is_empty() {
        assert_eq!(out.len(), 2);
    } else {
        assert_eq!(folded.len(), 1);
        assert!(!folded[0].auto_appliable);
    }
    assert!(out.iter().all(|s| s.action.name() != "rename-call"));
}

#[test]
fn suggest_added_variant_suggests_match_arm() {
    let out = suggest_for_breaks(&[brk("bro::BackendEvent::Partial", BreakKind::Added, ItemKind::Variant)]);
    assert_eq!(out[0].action.name(), "add-match-arm");
    assert!(!out[0].auto_appliable);
}

#[test]
fn suggest_added_field_suggests_review() {
    let out = suggest_for_breaks(&[brk("bro::Opts::extra", BreakKind::Added, ItemKind::Field)]);
    assert_eq!(out[0].action.name(), "review-field");
    assert!(!out[0].auto_appliable);
}

#[test]
fn close_names_with_equal_shape_fold_to_review_rename() {
    let breaks = vec![
        brk_sig("m::colour", BreakKind::Removed, ItemKind::Function, "pub fn colour(x: u8)", ""),
        brk_sig("m::color", BreakKind::Added, ItemKind::Function, "", "pub fn color(x: u16)"),
    ];
    let out = suggest_for_breaks(&breaks);
    assert_eq!(out.len(), 1);
    assert_eq!(out[0].action.name(), "review-rename");
    assert!(!out[0].auto_appliable);
}
