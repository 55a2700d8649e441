use api_drift::diff::{diff_snapshots, ApiDiff};
use api_drift::snapshot::{ApiSnapshot, Item, ItemKind};

fn item(path: &str, sig: &str) -> Item {
    Item::new(path, ItemKind::Function, sig)
}

#[test]
fn identical_snapshots_diff_empty() {
    let a = ApiSnapshot::new("v1", vec![item("a::f", "pub fn f()")]);
    let b = ApiSnapshot::new("v2", vec![item("a::f", "pub fn f()")]);
    let d = diff_snapshots(&a, &b);
    assert!(d.is_empty());
    assert_eq!(d.len(), 0);
}

#[test]
fn detects_added_removed_changed() {
    let old = ApiSnapshot::new(
        "v1",
        vec![
            item("a::gone", "pub fn gone()"),
            item("a::same", "pub fn same()"),
            item("a::moved", "pub fn moved(x: u8)"),
        ],
    );
    let neo = ApiSnapshot::new(
        "v2",
        vec![
            item("a::same", "pub fn same()"),
            item("a::moved", "pub fn moved(x: u8, y: u8)"),
            item("a::fresh", "pub fn fresh()"),
        ],
    );
    let d = diff_snapshots(&old, &neo);
    assert_eq!(d.added.len(), 1);
    assert_eq!(d.removed.len(), 1);
    assert_eq!(d.changed.len(), 1);
    assert_eq!(d.added[0].path, "a::fresh");
    assert_eq!(d.removed[0].path, "a::gone");
    assert_eq!(d.changed[0].path, "a::moved");
}

#[test]
fn kind_change_reports_changed() {
    let old = ApiSnapshot::new("v1", vec![Item::new("a::T", ItemKind::Struct, "pub struct T")]);
    let neo = ApiSnapshot::new("v2", vec![Item::new("a::T", ItemKind::Enum, "pub enum T")]);
    let d = diff_snapshots(&old, &neo);
    assert_eq!(d.changed.len(), 1);
    assert_eq!(d.changed[0].old_kind, ItemKind::Struct);
    assert_eq!(d.changed[0].new_kind, ItemKind::Enum);
}

#[test]
fn output_is_sorted_by_path() {
    let old = ApiSnapshot::new("v1", vec![]);
    let neo = ApiSnapshot::new("v2", vec![item("z::f", "s"), item("a::f", "s"), item("m::f", "s")]);
    let d = diff_snapshots(&old, &neo);
    let paths: Vec<&str> = d.added.iter().map(|i| i.path.as_str()).collect();
    assert_eq!(paths, vec!["a::f", "m::f", "z::f"]);
}

#[test]
fn old_side_duplicates_last_wins() {
    let old = ApiSnapshot::new("v1", vec![item("a::f", "sig-stale"), item("a::f", "sig-final")]);
    let neo = ApiSnapshot::new("v2", vec![item("a::f", "sig-final")]);
    let d = diff_snapshots(&old, &neo);
    assert!(d.is_empty(), "stale old dupe must not report: {d:?}");
}

#[test]
fn new_side_duplicates_last_wins() {
    let old = ApiSnapshot::new("v1", vec![item("a::f", "sig-final")]);
    let neo = ApiSnapshot::new("v2", vec![item("a::f", "sig-final"), item("a::f", "sig-new")]);
    let d = diff_snapshots(&old, &neo);
    assert_eq!(d.changed.len(), 1);
    assert_eq!(d.changed[0].old_sig, "sig-final");
    assert_eq!(d.changed[0].new_sig, "sig-new");
    assert!(d.added.is_empty() && d.removed.is_empty());
}

#[test]
fn diff_of_a_snapshot_with_itself_is_empty() {
    let a = ApiSnapshot::new(
        "v",
        vec![item("m::b", "s1"), item("m::a", "s2"), Item::new("m::a", ItemKind::Struct, "s3")],
    );
    let d = diff_snapshots(&a, &a);
    assert!(d.is_empty());
}

#[test]
fn swapping_sides_swaps_added_and_removed() {
    let a = ApiSnapshot::new("v1", vec![item("a::x", "s"), item("a::y", "old")]);
    let b = ApiSnapshot::new("v2", vec![item("a::y", "new"), item("a::z", "s")]);
    let ab = diff_snapshots(&a, &b);
    let ba = diff_snapshots(&b, &a);
    assert_eq!(ab.added, ba.removed);
    assert_eq!(ab.removed, ba.added);
    assert_eq!(ab.changed.len(), 1);
    assert_eq!(ba.changed[0].old_sig, ab.changed[0].new_sig);
    assert_eq!(ba.changed[0].new_sig, ab.changed[0].old_sig);
}

#[test]
fn empty_diff_has_length_zero() {
    let d = ApiDiff::default();
    assert!(d.is_empty());
    assert_eq!(d.len(), 0);
}

#[test]
fn diff_length_counts_all_three_lists() {
    let a = ApiSnapshot::new("v1", vec![item("a::gone", "s"), item("a::moved", "s1")]);
    let b = ApiSnapshot::new("v2", vec![item("a::moved", "s2"), item("a::fresh", "s"), item("a::other", "s")]);
    let d = diff_snapshots(&a, &b);
    assert_eq!(d.len(), 4);
    assert!(!d.is_empty());
}

#[test]
fn each_path_is_reported_at_most_once() {
    let a = ApiSnapshot::new("v1", vec![item("a::x", "1"), item("a::x", "2"), item("a::y", "s"), item("a::gone", "s")]);
    let b = ApiSnapshot::new("v2", vec![item("a::x", "3"), item("a::y", "s"), item("a::y", "t"), item("a::new", "s"), item("a::new", "s")]);
    let d = diff_snapshots(&a, &b);
    let mut paths: Vec<&str> = d
        .added
        .iter()
        .map(|i| i.path.as_str())
        .chain(d.removed.iter().map(|i| i.path.as_str()))
        .chain(d.changed.iter().map(|c| c.path.as_str()))
        .collect();
    assert_eq!(paths.len(), d.len());
    paths.sort();
    assert_eq!(paths, vec!["a::gone", "a::new", "a::x", "a::y"]);
}
