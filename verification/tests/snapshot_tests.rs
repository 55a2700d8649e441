use api_drift::snapshot::{ApiSnapshot, Item, ItemKind};

#[test]
fn get_finds_by_path() {
    let s = ApiSnapshot::new(
        "arniko 0.2.99",
        vec![Item::new("arniko::Alert::new", ItemKind::Function, "pub fn new")],
    );
    assert!(s.get("arniko::Alert::new").is_some());
    assert!(s.get("arniko::Missing").is_none());
}

#[test]
fn len_and_is_empty() {
    assert!(ApiSnapshot::new("v0", vec![]).is_empty());
    let s = ApiSnapshot::new("v1", vec![Item::new("a::b", ItemKind::Struct, "pub struct B")]);
    assert_eq!(s.len(), 1);
    assert!(!s.is_empty());
}

#[test]
fn get_returns_the_first_item_with_the_path() {
    let s = ApiSnapshot::new(
        "v",
        vec![
            Item::new("a::f", ItemKind::Function, "first"),
            Item::new("a::f", ItemKind::Function, "second"),
        ],
    );
    assert_eq!(s.get("a::f").unwrap().sig, "first");
}

#[test]
fn item_new_has_no_attrs() {
    let it = Item::new("a::f", ItemKind::Function, "pub fn f()");
    assert_eq!(it.path, "a::f");
    assert_eq!(it.kind, ItemKind::Function);
    assert_eq!(it.sig, "pub fn f()");
    assert!(it.attrs.is_empty());
}

#[test]
fn attrs_builder_and_lookup() {
    let it = Item::new("m::f", ItemKind::Function, "s").with_attr("deprecated").with_attrs(&["a", "b"]);
    assert!(it.has_attr("deprecated"));
    assert!(it.has_attr("a"));
    assert!(!it.has_attr("non_exhaustive"));
}

#[test]
fn with_attrs_appends_in_order() {
    let it = Item::new("m::f", ItemKind::Function, "s").with_attrs(&["x", "y"]).with_attr("z");
    assert_eq!(it.attrs, vec!["x".to_owned(), "y".to_owned(), "z".to_owned()]);
}
