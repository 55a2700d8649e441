use api_drift::diff::diff_snapshots;
use api_drift::json::{compact, JsonValue};
use api_drift::producer::{parse_doc, snapshot_from_rustdoc_str, ProducerError};
use api_drift::snapshot::ItemKind;

fn mini_doc() -> String {
    [
        r#"{"index":{"#,
        r#""10":{"visibility":"public","inner":{"function":{"sig":"fn a()"}}},"#,
        r#""20":{"visibility":"public","inner":{"struct":{"fields":[]}}},"#,
        r#""30":{"visibility":"default","inner":{"function":{"sig":"fn priv()"}}},"#,
        r#""40":{"visibility":"public","inner":{"module":{"items":[]}}},"#,
        r#""50":{"visibility":"public","inner":{"function":{"sig":"fn ext()"}}},"#,
        r#""60":{"visibility":"public","inner":{"weird_future_kind":{}}},"#,
        r#""70":{"visibility":"public"}"#,
        r#"},"paths":{"#,
        r#""10":{"crate_id":0,"path":["demo","a"]},"#,
        r#""20":{"crate_id":0,"path":["demo","T"]},"#,
        r#""30":{"crate_id":0,"path":["demo","priv"]},"#,
        r#""40":{"crate_id":0,"path":["demo","sub"]},"#,
        r#""50":{"crate_id":99,"path":["std","ext"]},"#,
        r#""60":{"crate_id":0,"path":["demo","future"]},"#,
        r#""70":{"crate_id":0,"path":["demo","noshape"]}"#,
        r#"}}"#,
    ]
    .concat()
}

#[test]
fn keeps_public_in_crate_known_kinds() {
    let s = snapshot_from_rustdoc_str(&mini_doc(), "demo 0.1.0").unwrap();
    let paths: Vec<&str> = s.items.iter().map(|i| i.path.as_str()).collect();
    assert_eq!(paths, vec!["demo::T", "demo::a"]);
    assert_eq!(s.version, "demo 0.1.0");
}

#[test]
fn sig_change_in_payload_flips_diff() {
    let a = snapshot_from_rustdoc_str(&mini_doc(), "v1").unwrap();
    let evolved = mini_doc().replace("fn a()", "fn a(x: u8)");
    let b = snapshot_from_rustdoc_str(&evolved, "v2").unwrap();
    let d = diff_snapshots(&a, &b);
    assert_eq!(d.changed.len(), 1);
    assert_eq!(d.changed[0].path, "demo::a");
    assert!(d.added.is_empty() && d.removed.is_empty());
}

#[test]
fn bad_shape_errors_not_panics() {
    let err = snapshot_from_rustdoc_str(r#"{"no": "tables"}"#, "v").unwrap_err();
    assert!(matches!(err, ProducerError::BadShape(_)));
    assert!(snapshot_from_rustdoc_str("not json", "v").is_err());
}

#[test]
fn not_json_is_a_json_error() {
    let err = snapshot_from_rustdoc_str("not json", "v").unwrap_err();
    assert!(matches!(err, ProducerError::Json(_)));
    assert!(err.message().starts_with("parse rustdoc JSON: "));
}

#[test]
fn bad_shape_names_the_missing_table() {
    match snapshot_from_rustdoc_str(r#"{"paths": {}}"#, "v").unwrap_err() {
        ProducerError::BadShape(m) => assert_eq!(m, "missing `index` object"),
        other => panic!("unexpected: {other:?}"),
    }
    match snapshot_from_rustdoc_str(r#"{"index": {}, "paths": []}"#, "v").unwrap_err() {
        ProducerError::BadShape(m) => assert_eq!(m, "missing `paths` object"),
        other => panic!("unexpected: {other:?}"),
    }
    let err = snapshot_from_rustdoc_str(r#"{"index": 3}"#, "v").unwrap_err();
    assert_eq!(err.message(), "unexpected rustdoc JSON shape: missing `index` object");
}

#[test]
fn sig_is_the_compact_payload_and_kinds_map() {
    let doc = [
        r#"{"index":{"#,
        r#""1":{"visibility":"public","inner":{"function":{"sig": {"inputs": [["x", null]], "output": true}}}},"#,
        r#""2":{"visibility":"public","inner":{"struct_field":"u8"}},"#,
        r#""3":{"visibility":"public","inner":{"variant":{"kind":"plain"}}},"#,
        r#""4":{"visibility":"public","inner":{"constant":{"value":"1.5e3"}}},"#,
        r#""5":{"visibility":"public","inner":{"trait":{}, "enum":{}}}"#,
        r#"},"paths":{"#,
        r#""1":{"crate_id":0,"path":["d","f"]},"#,
        r#""2":{"crate_id":0,"path":["d","S","x"]},"#,
        r#""3":{"crate_id":0,"path":["d","E","V"]},"#,
        r#""4":{"crate_id":0,"path":["d","C"]},"#,
        r#""5":{"crate_id":0,"path":["d","two"]}"#,
        r#"}}"#,
    ]
    .concat();
    let s = snapshot_from_rustdoc_str(&doc, "v").unwrap();
    let got: Vec<(&str, ItemKind, &str)> = s.items.iter().map(|i| (i.path.as_str(), i.kind, i.sig.as_str())).collect();
    assert_eq!(
        got,
        vec![
            ("d::C", ItemKind::Const, r#"{"value":"1.5e3"}"#),
            ("d::E::V", ItemKind::Variant, r#"{"kind":"plain"}"#),
            ("d::S::x", ItemKind::Field, r#""u8""#),
            ("d::f", ItemKind::Function, r#"{"sig":{"inputs":[["x",null]],"output":true}}"#),
        ]
    );
}

#[test]
fn path_segments_that_are_not_strings_are_skipped() {
    let doc = r#"{"index":{"1":{"visibility":"public","inner":{"enum":{}}}},"paths":{"1":{"crate_id":0,"path":["d",7,"E"]}}}"#;
    let s = snapshot_from_rustdoc_str(doc, "v").unwrap();
    assert_eq!(s.items.len(), 1);
    assert_eq!(s.items[0].path, "d::E");
    assert_eq!(s.items[0].kind, ItemKind::Enum);
}

#[test]
fn crate_id_must_be_the_integer_zero() {
    let doc = r#"{"index":{"1":{"visibility":"public","inner":{"enum":{}}},"2":{"visibility":"public","inner":{"enum":{}}}},"paths":{"1":{"crate_id":0.0,"path":["d","E"]},"2":{"crate_id":"0","path":["d","F"]}}}"#;
    let s = snapshot_from_rustdoc_str(doc, "v").unwrap();
    assert!(s.items.is_empty());
}

#[test]
fn compact_keeps_member_order_and_escapes_strings() {
    let v = JsonValue::Object(vec![
        ("z".to_owned(), JsonValue::Str("a\"b\\c\nd\u{1}".to_owned())),
        ("a".to_owned(), JsonValue::Array(vec![JsonValue::Null, JsonValue::Bool(false), JsonValue::Number("-2.5".to_owned(), None)])),
    ]);
    assert_eq!(compact(&v), r#"{"z":"a\"b\\c\nd\u0001","a":[null,false,-2.5]}"#);
}

#[test]
fn parse_doc_reads_the_model() {
    let root = JsonValue::Object(vec![
        (
            "index".to_owned(),
            JsonValue::Object(vec![(
                "9".to_owned(),
                JsonValue::Object(vec![
                    ("visibility".to_owned(), JsonValue::Str("public".to_owned())),
                    ("inner".to_owned(), JsonValue::Object(vec![("trait".to_owned(), JsonValue::Array(vec![]))])),
                ]),
            )]),
        ),
        (
            "paths".to_owned(),
            JsonValue::Object(vec![(
                "9".to_owned(),
                JsonValue::Object(vec![
                    ("crate_id".to_owned(), JsonValue::Number("0".to_owned(), Some(0))),
                    (
                        "path".to_owned(),
                        JsonValue::Array(vec![JsonValue::Str("k".to_owned()), JsonValue::Str("Tr".to_owned())]),
                    ),
                ]),
            )]),
        ),
    ]);
    let s = parse_doc(&root, "v9").unwrap();
    assert_eq!(s.version, "v9");
    assert_eq!(s.items.len(), 1);
    assert_eq!(s.items[0].path, "k::Tr");
    assert_eq!(s.items[0].kind, ItemKind::Trait);
    assert_eq!(s.items[0].sig, "[]");
}
