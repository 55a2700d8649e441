use api_drift::classify::classify_diff;
use api_drift::diff::diff_snapshots;
use api_drift::producer::snapshot_from_rustdoc_str;
use api_drift::suggest::suggest_for_breaks;
use serde_json::Value;

fn fn_node(sig: &str) -> Value {
    let mut function = serde_json::Map::new();
    function.insert("sig".to_owned(), Value::String(sig.to_owned()));
    let mut inner = serde_json::Map::new();
    inner.insert("function".to_owned(), Value::Object(function));
    let mut node = serde_json::Map::new();
    node.insert("visibility".to_owned(), Value::String("public".to_owned()));
    node.insert("inner".to_owned(), Value::Object(inner));
    Value::Object(node)
}

fn doc(items: &[(&str, &str, Value)]) -> String {
    let mut index = serde_json::Map::new();
    let mut paths = serde_json::Map::new();
    for (id, path, node) in items {
        index.insert((*id).to_owned(), node.clone());
        let segs: Vec<Value> = path.split("::").map(|s| Value::String(s.to_owned())).collect();
        let mut entry = serde_json::Map::new();
        entry.insert("crate_id".to_owned(), Value::from(0u64));
        entry.insert("path".to_owned(), Value::Array(segs));
        paths.insert((*id).to_owned(), Value::Object(entry));
    }
    let mut root = serde_json::Map::new();
    root.insert("index".to_owned(), Value::Object(index));
    root.insert("paths".to_owned(), Value::Object(paths));
    Value::Object(root).to_string()
}

fn v98() -> String {
    doc(&[
        ("1", "arniko::Alert::new", fn_node("pub fn new(message: &str) -> Self")),
        ("2", "arniko::badge", fn_node("pub fn badge(text: &str) -> String")),
        ("3", "arniko::legacy", fn_node("pub fn legacy()")),
    ])
}

fn v99() -> String {
    doc(&[
        ("1", "arniko::Alert::new", fn_node("pub fn new(message: impl Into<String>) -> Self")),
        ("2", "arniko::tag", fn_node("pub fn tag(text: &str) -> String")),
        ("4", "arniko::Sparkline::render", fn_node("pub fn render(&self) -> String")),
    ])
}

#[test]
fn arniko_098_to_099_demo() {
    let old = snapshot_from_rustdoc_str(&v98(), "arniko 0.2.98").unwrap();
    let new = snapshot_from_rustdoc_str(&v99(), "arniko 0.2.99").unwrap();
    assert_eq!(old.len(), 3);
    assert_eq!(new.len(), 3);

    let diff = diff_snapshots(&old, &new);
    assert_eq!(diff.changed.len(), 1);
    assert_eq!(diff.removed.len(), 2);
    assert_eq!(diff.added.len(), 2);

    let breaks = classify_diff(&diff);
    assert_eq!(breaks.len(), 5);

    let fixes = suggest_for_breaks(&breaks);
    assert_eq!(fixes.len(), 4);
    let rename = fixes.iter().find(|s| s.action.name() == "rename-call").unwrap();
    assert!(rename.auto_appliable);
    assert!(rename.detail.contains("arniko::badge -> arniko::tag"));

    for b in &breaks {
        println!("[{:?}/{:?}] {} — {}", b.severity, b.kind, b.path, b.note);
    }
    for s in &fixes {
        println!("suggest {} [{}]: {}", s.path, s.action.name(), s.detail);
    }
}
