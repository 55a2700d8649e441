use api_drift::snapshot::ItemKind;
use api_drift::surface::{EnumSurface, Surface};

#[test]
fn enum_surface_lists_variants() {
    let s = EnumSurface::new("backend-events", "bro::BackendEvent", &[("Output", "Output(String)"), ("Done", "")]);
    assert_eq!(s.name(), "backend-events");
    assert_eq!(s.enum_path(), "bro::BackendEvent");
    let snap = s.snapshot();
    assert_eq!(snap.version, "bro::BackendEvent");
    assert_eq!(snap.items.len(), 2);
    assert_eq!(snap.items[0].path, "bro::BackendEvent::Output");
    assert_eq!(snap.items[0].kind, ItemKind::Variant);
    assert_eq!(snap.items[0].sig, "Output(String)");
    assert_eq!(snap.items[1].path, "bro::BackendEvent::Done");
    assert_eq!(snap.items[1].sig, "Done");
}

#[test]
fn dogfood_item_kind_surface() {
    let s = EnumSurface::new(
        "item-kind",
        "api_drift::snapshot::ItemKind",
        &[
            ("Function", ""),
            ("Method", ""),
            ("Struct", ""),
            ("Enum", ""),
            ("Trait", ""),
            ("Field", ""),
            ("Variant", ""),
            ("Const", ""),
            ("Static", ""),
            ("Module", ""),
            ("Other", ""),
        ],
    );
    assert_eq!(s.snapshot().len(), 11);
    assert_eq!(s.snapshot().items[10].path, "api_drift::snapshot::ItemKind::Other");
}
