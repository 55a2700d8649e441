use api_drift::snapshot::{ApiSnapshot, Item, ItemKind};
use api_drift::snapshot_file::{
    check_snapshot_file, content_hash, render_snapshot_file, schema_hash, SnapshotFileError, SNAPSHOT_FORMAT_V1,
};

fn snap() -> ApiSnapshot {
    ApiSnapshot::new(
        "demo 0.1.0",
        vec![
            Item::new("demo::b", ItemKind::Function, "pub fn b()"),
            Item::new("demo::a", ItemKind::Struct, "pub struct A"),
        ],
    )
}

#[test]
fn round_trip_verifies() {
    let file = render_snapshot_file("rust-public", &snap());
    assert_eq!(file.items[0].path, "demo::a");
    assert!(file.content_hash.starts_with("sha256:"));
    let back = check_snapshot_file(file.clone()).unwrap();
    assert_eq!(back, file);
    assert_eq!(back.version, "demo 0.1.0");
}

#[test]
fn tampered_items_fail_hash() {
    let mut file = render_snapshot_file("rust-public", &snap());
    file.items[1].sig = "pub fn b(x: u8)".to_owned();
    let err = check_snapshot_file(file).unwrap_err();
    assert!(matches!(err, SnapshotFileError::HashMismatch(_, _)));
}

#[test]
fn wrong_format_rejected() {
    let mut file = render_snapshot_file("rust-public", &snap());
    file.format = "api-drift/snapshot/v0".to_owned();
    file.content_hash = content_hash(&file.items);
    let err = check_snapshot_file(file).unwrap_err();
    assert!(matches!(err, SnapshotFileError::BadFormat(_, _)));
}

#[test]
fn hash_stable_across_item_order_and_attr_order() {
    let a = ApiSnapshot::new(
        "v",
        vec![
            Item::new("m::f", ItemKind::Function, "s").with_attrs(&["b", "a"]),
            Item::new("m::g", ItemKind::Function, "s"),
        ],
    );
    let b = ApiSnapshot::new(
        "v",
        vec![
            Item::new("m::g", ItemKind::Function, "s"),
            Item::new("m::f", ItemKind::Function, "s").with_attrs(&["a", "b"]),
        ],
    );
    assert_eq!(content_hash(&a.items), content_hash(&b.items));
}

#[test]
fn schema_hash_is_stable_and_responsive() {
    let a = schema_hash(r#"{"type":"object","properties":{"id":{"type":"string"}}}"#);
    let b = schema_hash(r#"{"type":"object","properties":{"id":{"type":"string"}}}"#);
    let c = schema_hash(r#"{"type":"object","properties":{"id":{"type":"integer"}}}"#);
    assert_eq!(a, b);
    assert_ne!(a, c);
    assert!(a.starts_with("sha256:"));
}

#[test]
fn schema_hash_of_empty_text_is_the_sha256_of_nothing() {
    assert_eq!(
        schema_hash(""),
        "sha256:e3b0c44298fc1c149afbf4c8996fb92427ae41e4649b934ca495991b7852b855"
    );
    assert_eq!(
        schema_hash("abc"),
        "sha256:ba7816bf8f01cfea414140de5dae2223b00361a396177a9cb410ff61f20015ad"
    );
}

#[test]
fn content_hash_of_one_item_hashes_its_canonical_line() {
    // The canonical content of one item is `path \0 kind \0 sig \0 attrs \0`.
    let items = vec![Item::new("m::f", ItemKind::Function, "s").with_attrs(&["b", "a"])];
    assert_eq!(content_hash(&items), schema_hash("m::f\0Function\0s\0a,b\0"));
    let two = vec![Item::new("m::g", ItemKind::Const, "c"), Item::new("m::f", ItemKind::Function, "s")];
    assert_eq!(content_hash(&two), schema_hash("m::f\0Function\0s\0\0\nm::g\0Const\0c\0\0"));
}

#[test]
fn rendered_file_is_sorted_and_tagged() {
    let file = render_snapshot_file("rust-public", &snap());
    assert_eq!(file.format, SNAPSHOT_FORMAT_V1);
    assert_eq!(file.surface, "rust-public");
    assert_eq!(file.items[1].path, "demo::b");
    assert_eq!(file.content_hash, content_hash(&snap().items));
}

#[test]
fn error_messages_name_both_values() {
    let mut file = render_snapshot_file("rust-public", &snap());
    file.format = "x".to_owned();
    let err = check_snapshot_file(file).unwrap_err();
    assert_eq!(err.message(), "snapshot format: expected `api-drift/snapshot/v1`, found `x`");

    let mut file = render_snapshot_file("rust-public", &snap());
    let good = file.content_hash.clone();
    file.content_hash = "sha256:00".to_owned();
    let err = check_snapshot_file(file).unwrap_err();
    match &err {
        SnapshotFileError::HashMismatch(recomputed, stored) => {
            assert_eq!(recomputed, &good);
            assert_eq!(stored, "sha256:00");
        }
        other => panic!("expected HashMismatch, got {other:?}"),
    }
    assert_eq!(
        err.message(),
        format!("snapshot content hash mismatch: expected `{good}`, found `sha256:00`")
    );
}

#[test]
fn hashes_are_sha256_tags() {
    for h in [content_hash(&snap().items), render_snapshot_file("s", &snap()).content_hash, schema_hash("x"), content_hash(&[])] {
        assert_eq!(h.len(), 71);
        assert!(h.starts_with("sha256:"));
        assert!(h[7..].chars().all(|c| c.is_ascii_digit() || ('a'..='f').contains(&c)));
    }
}
