use api_drift::classify::{BreakKind, ClassifiedBreak, Severity};
use api_drift::snapshot::ItemKind;
use api_drift::suggest::{autoimmune_guard, default_confidence, suggest_for_breaks, Suggestion, SuggestionAction};

fn brk(path: &str, kind: BreakKind, item_kind: ItemKind) -> ClassifiedBreak {
    ClassifiedBreak {
        path: path.to_owned(),
        kind,
        item_kind,
        severity: Severity::Warning,
        old_sig: None,
        new_sig: None,
        note: path.to_owned(),
    }
}

fn brk_sig(path: &str, kind: BreakKind, item_kind: ItemKind, old_sig: &str, new_sig: &str) -> ClassifiedBreak {
    ClassifiedBreak {
        path: path.to_owned(),
        kind,
        item_kind,
        severity: Severity::Warning,
        old_sig: Some(old_sig.to_owned()),
        new_sig: Some(new_sig.to_owned()),
        note: path.to_owned(),
    }
}

#[test]
fn rename_pair_folds_to_one_auto_suggestion() {
    let breaks = vec![
        brk_sig("arniko::Alert::old", BreakKind::Removed, ItemKind::Function, "pub fn old(&self)", ""),
        brk_sig("arniko::Alert::new", BreakKind::Added, ItemKind::Function, "", "pub fn new(&self)"),
    ];
    let out = suggest_for_breaks(&breaks);
    assert_eq!(out.len(), 1);
    assert!(matches!(out[0].action, SuggestionAction::RenameCall { .. }));
    assert!(out[0].auto_appliable);
}

#[test]
fn lone_removal_needs_review() {
    let out = suggest_for_breaks(&[brk("arniko::Gone::f", BreakKind::Removed, ItemKind::Function)]);
    assert!(matches!(out[0].action, SuggestionAction::RemoveItem));
    assert!(!out[0].auto_appliable);
}

#[test]
fn addition_is_noop() {
    let out = suggest_for_breaks(&[brk("arniko::Fresh::f", BreakKind::Added, ItemKind::Function)]);
    assert!(matches!(out[0].action, SuggestionAction::NoOp));
    assert!(out[0].auto_appliable);
}

#[test]
fn different_parents_do_not_fold() {
    let breaks = vec![
        brk("arniko::A::old", BreakKind::Removed, ItemKind::Function),
        brk("arniko::B::new", BreakKind::Added, ItemKind::Function),
    ];
    let out = suggest_for_breaks(&breaks);
    assert_eq!(out.len(), 2);
    assert!(out.iter().all(|s| !matches!(s.action, SuggestionAction::RenameCall { .. })));
}

#[test]
fn field_removed_plus_method_added_does_not_auto_rename() {
    let breaks = vec![
        brk_sig("bro::Event::old_field", BreakKind::Removed, ItemKind::Field, "pub old_field: u8", ""),
        brk_sig("bro::Event::new_method", BreakKind::Added, ItemKind::Method, "", "pub fn new_method(&self)"),
    ];
    let out = suggest_for_breaks(&breaks);
    assert_eq!(out.len(), 2);
    assert!(out.iter().all(|s| !matches!(s.action, SuggestionAction::RenameCall { .. })));
    let rm = out.iter().find(|s| matches!(s.action, SuggestionAction::RemoveItem)).unwrap();
    assert!(!rm.auto_appliable);
}

#[test]
fn weak_signal_same_kind_is_review_not_auto() {
    let breaks = vec![
        brk_sig(
            "m::old",
            BreakKind::Removed,
            ItemKind::Function,
            "pub fn old(x: u8, y: u8, z: u8) -> Vec<String>",
            "",
        ),
        brk_sig("m::new", BreakKind::Added, ItemKind::Function, "", "pub fn new() -> u32"),
    ];
    let out = suggest_for_breaks(&breaks);
    let folded: Vec<&Suggestion> =
        out.iter().filter(|s| matches!(s.action, SuggestionAction::ReviewRename { .. })).collect();
    if folded.is_empty() {
        assert_eq!(out.len(), 2);
    } else {
        assert_eq!(folded.len(), 1);
        assert!(!folded[0].auto_appliable);
    }
    assert!(out.iter().all(|s| !matches!(s.action, SuggestionAction::RenameCall { .. })));
}

#[test]
fn added_variant_suggests_match_arm() {
    let out = suggest_for_breaks(&[brk("bro::BackendEvent::Partial", BreakKind::Added, ItemKind::Variant)]);
    assert!(matches!(out[0].action, SuggestionAction::AddMatchArm { .. }));
    assert!(!out[0].auto_appliable);
}

#[test]
fn added_field_suggests_review() {
    let out = suggest_for_breaks(&[brk("bro::Opts::extra", BreakKind::Added, ItemKind::Field)]);
    assert!(matches!(out[0].action, SuggestionAction::ReviewField { .. }));
    assert!(!out[0].auto_appliable);
}

#[test]
fn action_names_frozen() {
    let cases = vec![
        (SuggestionAction::RenameCall { from: "a".to_owned(), to: "b".to_owned() }, "rename-call"),
        (SuggestionAction::ReviewRename { from: "a".to_owned(), to: "b".to_owned() }, "review-rename"),
        (SuggestionAction::RemoveItem, "remove-item"),
        (SuggestionAction::ReviewSignature { old: "o".to_owned(), new: "n".to_owned() }, "review-signature"),
        (SuggestionAction::ReviewKind, "review-kind"),
        (SuggestionAction::AddMatchArm { enum_path: "e::E".to_owned(), variant: "V".to_owned() }, "add-match-arm"),
        (SuggestionAction::ReviewField { field: "s::S::f".to_owned() }, "review-field"),
        (SuggestionAction::NoOp, "no-op"),
    ];
    for (action, name) in cases {
        assert_eq!(action.name(), name);
    }
}

#[test]
fn match_arm_carries_enum_and_variant() {
    let out = suggest_for_breaks(&[brk("bro::BackendEvent::Partial", BreakKind::Added, ItemKind::Variant)]);
    assert!(
        matches!(
            &out[0].action,
            SuggestionAction::AddMatchArm { enum_path, variant }
            if enum_path == "bro::BackendEvent" && variant == "Partial"
        ),
        "unexpected: {:?}",
        out[0].action
    );
}

#[test]
fn rename_call_carries_from_to() {
    let breaks = vec![
        brk_sig("m::old", BreakKind::Removed, ItemKind::Function, "pub fn old(&self)", ""),
        brk_sig("m::new", BreakKind::Added, ItemKind::Function, "", "pub fn new(&self)"),
    ];
    let out = suggest_for_breaks(&breaks);
    assert!(
        matches!(
            &out[0].action,
            SuggestionAction::RenameCall { from, to }
            if from == "m::old" && to == "m::new"
        ),
        "unexpected: {:?}",
        out[0].action
    );
}

fn sug(auto: bool, confidence: u32) -> Suggestion {
    Suggestion {
        path: "m::f".to_owned(),
        action: SuggestionAction::RenameCall { from: "m::f".to_owned(), to: "m::g".to_owned() },
        detail: "rename m::f -> m::g".to_owned(),
        auto_appliable: auto,
        confidence,
    }
}

#[test]
fn confident_rename_has_full_confidence() {
    let breaks = vec![
        brk_sig("m::old", BreakKind::Removed, ItemKind::Function, "pub fn old(&self)", ""),
        brk_sig("m::new", BreakKind::Added, ItemKind::Function, "", "pub fn new(&self)"),
    ];
    let out = suggest_for_breaks(&breaks);
    assert_eq!(out[0].confidence, 100);
}

#[test]
fn autoimmune_guard_downgrades_low_confidence_auto() {
    let guarded = autoimmune_guard(&sug(true, 30));
    assert!(!guarded.auto_appliable);
    assert!(guarded.detail.contains("kept for review"));
    assert_eq!(guarded.confidence, 30);
}

#[test]
fn autoimmune_guard_leaves_high_confidence_and_review_alone() {
    let confident = autoimmune_guard(&sug(true, 100));
    assert!(confident.auto_appliable);

    let review = autoimmune_guard(&sug(false, 30));
    assert!(!review.auto_appliable);
    assert!(!review.detail.contains("kept for review"));
}

#[test]
fn autoimmune_guard_renders_the_confidence_with_two_decimals() {
    let guarded = autoimmune_guard(&sug(true, 7));
    assert_eq!(guarded.detail, "rename m::f -> m::g (low confidence 0.07 — auto-apply kept for review)");
    let guarded = autoimmune_guard(&sug(true, 49));
    assert_eq!(guarded.detail, "rename m::f -> m::g (low confidence 0.49 — auto-apply kept for review)");
    assert!(autoimmune_guard(&sug(true, 50)).auto_appliable);
}

#[test]
fn autoimmune_guard_is_idempotent() {
    let once = autoimmune_guard(&sug(true, 10));
    let twice = autoimmune_guard(&once);
    assert_eq!(once, twice);
}

#[test]
fn default_confidence_is_certain() {
    assert_eq!(default_confidence(), 100);
}

#[test]
fn suggestions_are_sorted_and_carry_details() {
    let breaks = vec![
        brk_sig("z::f", BreakKind::SignatureChanged, ItemKind::Function, "pub fn f()", "pub fn f(x: u8)"),
        brk("a::gone", BreakKind::Removed, ItemKind::Function),
        brk("m::T", BreakKind::KindChanged, ItemKind::Struct),
    ];
    let out = suggest_for_breaks(&breaks);
    let paths: Vec<&str> = out.iter().map(|s| s.path.as_str()).collect();
    assert_eq!(paths, vec!["a::gone", "m::T", "z::f"]);
    assert_eq!(out[0].detail, "drop or gate uses of removed a::gone");
    assert!(matches!(out[1].action, SuggestionAction::ReviewKind));
    assert_eq!(out[1].detail, "item m::T changed kind; rework usage");
    assert!(matches!(
        &out[2].action,
        SuggestionAction::ReviewSignature { old, new } if old == "pub fn f()" && new == "pub fn f(x: u8)"
    ));
    assert_eq!(out[2].detail, "update call sites of z::f: `pub fn f()` -> `pub fn f(x: u8)`");
}

#[test]
fn rename_detail_names_both_paths() {
    let breaks = vec![
        brk_sig("m::old", BreakKind::Removed, ItemKind::Function, "pub fn old(&self)", ""),
        brk_sig("m::new", BreakKind::Added, ItemKind::Function, "", "pub fn new(&self)"),
    ];
    let out = suggest_for_breaks(&breaks);
    assert_eq!(out[0].path, "m::new");
    assert_eq!(out[0].detail, "rename m::old -> m::new at call sites");
}
