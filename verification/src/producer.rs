//! rustdoc JSON → [`ApiSnapshot`] producer.
//!
//! Input is a rustdoc JSON document as emitted by
//! `cargo +nightly rustdoc -- -Z unstable-options --output-format json`.
//!
//! Only in-crate (`crate_id == 0`) public items listed in the `paths` table
//! become [`Item`]s. Signature strings are the compact rendering of the raw
//! `inner` payload, so any semantic move flips the sig.
//!
//! Limitations (documented, not silent):
//!
//! - Methods surface as `ItemKind::Function` (rustdoc lists them as
//!   `function` nodes; no Method split yet).
//! - `sig` is compact JSON, not `pub fn …` rendering — machine-diffable,
//!   human-ugly.
//! - Unknown `inner` shapes are skipped, never an error (newer rustdoc
//!   degrades to fewer items, not failure).

use vstd::prelude::*;
use crate::json::{JsonValue, JsonView, compact, compact_spec, json_parse_spec, members_view, parse_json};
use crate::snapshot::{ApiSnapshot, ApiSnapshotView, Item, ItemKind, ItemView};
use crate::sorting::{sort_by_key, sort_by_path, views};
use crate::text::{join_spec, join_strings, str_eq};

verus! {

/// `std::io::Error`, carried through as an opaque value.
#[verifier::external_type_specification]
#[verifier::external_body]
pub struct ExIoError(std::io::Error);

/// What went wrong reading a rustdoc JSON document.
#[derive(Debug)]
pub enum ProducerError {
    /// File could not be read.
    Io(std::io::Error),
    /// File is not valid JSON.
    Json(serde_json::Error),
    /// JSON parses but has no usable `index`/`paths` tables.
    BadShape(String),
}

/// The message of a `std::io::Error` (its `Display`). Nothing is stated of
/// the text.
#[verifier::external_body]
fn io_error_message(e: &std::io::Error) -> String {
    e.to_string()
}

impl ProducerError {
    /// The error's message (what its display shows).
    pub fn message(&self) -> (r: String)
        ensures
            match self {
                ProducerError::Io(_) => r@.take(19) == "read rustdoc JSON: "@,
                ProducerError::Json(_) => r@.take(20) == "parse rustdoc JSON: "@,
                ProducerError::BadShape(m) => r@ == "unexpected rustdoc JSON shape: "@ + m@,
            },
    {
        match self {
            ProducerError::Io(e) => {
                let mut r = String::from_str("read rustdoc JSON: ");
                proof {
                    reveal_strlit("read rustdoc JSON: ");
                }
                let ghost head = r@;
                r.append(io_error_message(e).as_str());
                assert(r@.take(19) =~= head);
                r
            },
            ProducerError::Json(e) => {
                let mut r = String::from_str("parse rustdoc JSON: ");
                proof {
                    reveal_strlit("parse rustdoc JSON: ");
                }
                let ghost head = r@;
                r.append(crate::json::json_error_message(e).as_str());
                assert(r@.take(20) =~= head);
                r
            },
            ProducerError::BadShape(m) => {
                let mut r = String::from_str("unexpected rustdoc JSON shape: ");
                r.append(m.as_str());
                r
            },
        }
    }
}

/// The first of the first `n` members of `m` named `key`.
pub open spec fn member_upto(m: Seq<(Seq<char>, JsonView)>, key: Seq<char>, n: int) -> Option<JsonView>
    decreases n,
{
    if n <= 0 {
        None
    } else {
        let r = member_upto(m, key, n - 1);
        if r is Some {
            r
        } else if m[n - 1].0 == key {
            Some(m[n - 1].1)
        } else {
            None
        }
    }
}

/// The member `key` of an object (`None` for anything else).
pub open spec fn get(v: JsonView, key: Seq<char>) -> Option<JsonView> {
    match v {
        JsonView::Object(m) => member_upto(m, key, m.len() as int),
        _ => None,
    }
}

/// The last of the first `n` members of `m` named `key` (a later member
/// with the same name replaces an earlier one, as in a map).
pub open spec fn last_member_upto(m: Seq<(Seq<char>, JsonView)>, key: Seq<char>, n: int) -> Option<JsonView>
    decreases n,
{
    if n <= 0 {
        None
    } else if m[n - 1].0 == key {
        Some(m[n - 1].1)
    } else {
        last_member_upto(m, key, n - 1)
    }
}

/// The strings among the first `n` elements, in order.
pub open spec fn str_elems(a: Seq<JsonView>, n: int) -> Seq<Seq<char>>
    decreases n,
{
    if n <= 0 {
        Seq::empty()
    } else {
        match a[n - 1] {
            JsonView::Str(s) => str_elems(a, n - 1).push(s),
            _ => str_elems(a, n - 1),
        }
    }
}

/// The `::`-joined string segments of a `paths` entry's `path` array
/// (empty when it has none).
pub open spec fn dotted_path(p: JsonView) -> Seq<char> {
    match get(p, "path"@) {
        Some(JsonView::Array(segs)) => join_spec(str_elems(segs, segs.len() as int), "::"@),
        _ => Seq::empty(),
    }
}

/// A `paths` entry whose `crate_id` is the integer 0.
pub open spec fn in_crate(p: JsonView) -> bool {
    match get(p, "crate_id"@) {
        Some(JsonView::Number(_, Some(n))) => n == 0,
        _ => false,
    }
}

/// The item kind an `inner` key stands for.
pub open spec fn kind_of_key(k: Seq<char>) -> Option<ItemKind> {
    if k == "function"@ {
        Some(ItemKind::Function)
    } else if k == "struct"@ {
        Some(ItemKind::Struct)
    } else if k == "enum"@ {
        Some(ItemKind::Enum)
    } else if k == "trait"@ {
        Some(ItemKind::Trait)
    } else if k == "struct_field"@ {
        Some(ItemKind::Field)
    } else if k == "variant"@ {
        Some(ItemKind::Variant)
    } else if k == "constant"@ {
        Some(ItemKind::Const)
    } else {
        None
    }
}

/// The item an `index` entry `(id, node)` yields: a public node whose id
/// the `paths` table lists in this crate under a non-empty path, with an
/// `inner` object of exactly one member of a known kind. Its sig is the
/// compact rendering of that member's payload.
pub open spec fn node_item(id: Seq<char>, node: JsonView, paths: Seq<(Seq<char>, JsonView)>) -> Option<ItemView> {
    if get(node, "visibility"@) != Some(JsonView::Str("public"@)) {
        None
    } else {
        match last_member_upto(paths, id, paths.len() as int) {
            None => None,
            Some(p) => if !in_crate(p) || dotted_path(p).len() == 0 {
                None
            } else {
                match get(node, "inner"@) {
                    Some(JsonView::Object(inner)) => if inner.len() != 1 {
                        None
                    } else {
                        match kind_of_key(inner[0].0) {
                            Some(kind) => Some(
                                ItemView { path: dotted_path(p), kind, sig: compact_spec(inner[0].1), attrs: Seq::empty() },
                            ),
                            None => None,
                        }
                    },
                    _ => None,
                }
            },
        }
    }
}

/// The items of the first `n` `index` entries, in document order.
pub open spec fn index_items(index: Seq<(Seq<char>, JsonView)>, paths: Seq<(Seq<char>, JsonView)>, n: int) -> Seq<ItemView>
    decreases n,
{
    if n <= 0 {
        Seq::empty()
    } else {
        match node_item(index[n - 1].0, index[n - 1].1, paths) {
            Some(it) => index_items(index, paths, n - 1).push(it),
            None => index_items(index, paths, n - 1),
        }
    }
}

/// The snapshot a parsed document yields (labelled `version`, items sorted
/// by path), or the `BadShape` message when it lacks an `index` or a
/// `paths` object.
pub open spec fn parse_doc_spec(root: JsonView, version: Seq<char>) -> Result<ApiSnapshotView, Seq<char>> {
    match get(root, "index"@) {
        Some(JsonView::Object(index)) => match get(root, "paths"@) {
            Some(JsonView::Object(paths)) => Ok(
                ApiSnapshotView { version, items: sort_by_key(index_items(index, paths, index.len() as int)) },
            ),
            _ => Err("missing `paths` object"@),
        },
        _ => Err("missing `index` object"@),
    }
}

/// The member `key` of `v` when `v` is an object.
fn json_get<'a>(v: &'a JsonValue, key: &str) -> (r: Option<&'a JsonValue>)
    ensures
        match r {
            Some(x) => get(v@, key@) == Some(x@),
            None => get(v@, key@) is None,
        },
{
    match v {
        JsonValue::Object(m) => {
            let ghost mv = v@->Object_0;
            let mut i: usize = 0;
            while i < m.len()
                invariant
                    *v == JsonValue::Object(*m),
                    v@ is Object,
                    mv == v@->Object_0,
                    mv.len() == m@.len(),
                    forall|k: int| 0 <= k < m@.len() ==> #[trigger] mv[k] == (m@[k].0@, m@[k].1@),
                    i <= m@.len(),
                    member_upto(mv, key@, i as int) is None,
                decreases m@.len() - i,
            {
                assert(mv[i as int] == (m@[i as int].0@, m@[i as int].1@));
                if str_eq(m[i].0.as_str(), key) {
                    assert(member_upto(mv, key@, i + 1) == Some(mv[i as int].1));
                    proof { lemma_member_prefix(mv, key@, i + 1); }
                    return Some(&m[i].1);
                }
                i = i + 1;
            }
            None
        },
        _ => None,
    }
}

/// Once found among the first `n` members, the first member named `key`
/// stays the answer.
proof fn lemma_member_prefix(m: Seq<(Seq<char>, JsonView)>, key: Seq<char>, n: int)
    requires
        0 <= n <= m.len(),
        member_upto(m, key, n) is Some,
    ensures
        member_upto(m, key, m.len() as int) == member_upto(m, key, n),
    decreases m.len() - n,
{
    if n < m.len() {
        assert(member_upto(m, key, n + 1) == member_upto(m, key, n));
        lemma_member_prefix(m, key, n + 1);
    }
}

/// The `::`-joined string segments of a `paths` entry.
fn dotted_path_exec(p: &JsonValue) -> (r: String)
    ensures
        r@ == dotted_path(p@),
{
    let found = json_get(p, "path");
    match found {
        Some(JsonValue::Array(segs)) => {
            let ghost av = get(p@, "path"@)->0->Array_0;
            assert(av =~= Seq::new(segs@.len(), |i: int| if 0 <= i < segs@.len() { crate::json::json_view(segs@[i]) } else { JsonView::Null }));
            let mut strs: Vec<String> = Vec::new();
            for i in 0..segs.len()
                invariant
                    av.len() == segs@.len(),
                    forall|k: int| 0 <= k < segs@.len() ==> #[trigger] av[k] == segs@[k]@,
                    strs@.map_values(|s: String| s@) == str_elems(av, i as int),
            {
                assert(av[i as int] == segs@[i as int]@);
                let ghost before = strs@.map_values(|s: String| s@);
                match &segs[i] {
                    JsonValue::Str(s) => {
                        strs.push(s.clone());
                        assert(strs@.map_values(|s: String| s@) =~= before.push(s@));
                    },
                    _ => {},
                }
            }
            join_strings(&strs, "::")
        },
        _ => String::new(),
    }
}

/// Whether a `paths` entry's `crate_id` is the integer 0.
fn in_crate_exec(p: &JsonValue) -> (r: bool)
    ensures
        r == in_crate(p@),
{
    match json_get(p, "crate_id") {
        Some(JsonValue::Number(_, Some(n))) => *n == 0,
        _ => false,
    }
}

/// The item kind an `inner` key stands for.
fn kind_of_key_exec(k: &str) -> (r: Option<ItemKind>)
    ensures
        r == kind_of_key(k@),
{
    if str_eq(k, "function") {
        Some(ItemKind::Function)
    } else if str_eq(k, "struct") {
        Some(ItemKind::Struct)
    } else if str_eq(k, "enum") {
        Some(ItemKind::Enum)
    } else if str_eq(k, "trait") {
        Some(ItemKind::Trait)
    } else if str_eq(k, "struct_field") {
        Some(ItemKind::Field)
    } else if str_eq(k, "variant") {
        Some(ItemKind::Variant)
    } else if str_eq(k, "constant") {
        Some(ItemKind::Const)
    } else {
        None
    }
}

/// The last member of `m` named `key` (a later member replaces an earlier
/// one, as in a map).
fn last_member<'a>(m: &'a Vec<(String, JsonValue)>, key: &str) -> (r: Option<&'a JsonValue>)
    ensures
        match r {
            Some(x) => last_member_upto(members_view(m@), key@, m@.len() as int) == Some(x@),
            None => last_member_upto(members_view(m@), key@, m@.len() as int) is None,
        },
{
    let ghost mv = members_view(m@);
    let mut n = m.len();
    while n > 0
        invariant
            mv == members_view(m@),
            n <= m@.len(),
            last_member_upto(mv, key@, m@.len() as int) == last_member_upto(mv, key@, n as int),
        decreases n,
    {
        if str_eq(m[n - 1].0.as_str(), key) {
            return Some(&m[n - 1].1);
        }
        n = n - 1;
    }
    None
}

/// The item an `index` entry yields, if any (see [`node_item`]).
fn node_item_exec(id: &str, node: &JsonValue, paths: &Vec<(String, JsonValue)>) -> (r: Option<Item>)
    ensures
        match r {
            Some(it) => node_item(id@, node@, members_view(paths@)) == Some(it@),
            None => node_item(id@, node@, members_view(paths@)) is None,
        },
{
    let ghost pv = members_view(paths@);
    match json_get(node, "visibility") {
        Some(JsonValue::Str(s)) => {
            if !str_eq(s.as_str(), "public") {
                return None;
            }
        },
        _ => {
            return None;
        },
    }
    let p = match last_member(paths, id) {
        Some(p) => p,
        None => {
            return None;
        },
    };
    let path = dotted_path_exec(p);
    if !in_crate_exec(p) || path.as_str().is_empty() {
        return None;
    }
    let found = json_get(node, "inner");
    match found {
        Some(inner_value) => {
            proof {
                crate::json::lemma_container_view(*inner_value);
            }
            match inner_value {
                JsonValue::Object(inner) => {
                    if inner.len() != 1 {
                        return None;
                    }
                    let ghost iv = members_view(inner@);
                    assert(iv[0] == (inner@[0].0@, inner@[0].1@));
                    match kind_of_key_exec(inner[0].0.as_str()) {
                        Some(kind) => {
                            let sig = compact(&inner[0].1);
                            let it = Item { path, kind, sig, attrs: Vec::new() };
                            assert(it@.attrs =~= Seq::<Seq<char>>::empty());
                            Some(it)
                        },
                        None => None,
                    }
                },
                _ => None,
            }
        },
        None => None,
    }
}

/// The snapshot a parsed document yields (see [`parse_doc_spec`]).
pub fn parse_doc(root: &JsonValue, version: &str) -> (r: Result<ApiSnapshot, ProducerError>)
    ensures
        match parse_doc_spec(root@, version@) {
            Ok(s) => r matches Ok(x) && x@ == s,
            Err(m) => r matches Err(ProducerError::BadShape(mm)) && mm@ == m,
        },
{
    let index_found = json_get(root, "index");
    let index = match index_found {
        Some(JsonValue::Object(index)) => index,
        _ => {
            return Err(ProducerError::BadShape("missing `index` object".to_owned()));
        },
    };
    let paths_found = json_get(root, "paths");
    let paths = match paths_found {
        Some(JsonValue::Object(paths)) => paths,
        _ => {
            return Err(ProducerError::BadShape("missing `paths` object".to_owned()));
        },
    };
    proof {
        crate::json::lemma_container_view(*index_found->0);
        crate::json::lemma_container_view(*paths_found->0);
    }
    let ghost iv = members_view(index@);
    let ghost pv = members_view(paths@);
    assert(get(root@, "index"@) == Some(JsonView::Object(iv)));
    assert(get(root@, "paths"@) == Some(JsonView::Object(pv)));
    let mut items: Vec<Item> = Vec::new();
    for i in 0..index.len()
        invariant
            iv == members_view(index@),
            pv == members_view(paths@),
            views(items@) == index_items(iv, pv, i as int),
    {
        assert(iv[i as int] == (index@[i as int].0@, index@[i as int].1@));
        let ghost before = views(items@);
        match node_item_exec(index[i].0.as_str(), &index[i].1, paths) {
            Some(it) => {
                items.push(it);
                assert(views(items@) =~= before.push(it@));
            },
            None => {},
        }
    }
    let sorted = sort_by_path(items);
    Ok(ApiSnapshot::new(version, sorted))
}

/// Same as reading a rustdoc JSON file, from an in-memory document: parse
/// it, then build the snapshot labelled `version`.
pub fn snapshot_from_rustdoc_str(doc: &str, version: &str) -> (r: Result<ApiSnapshot, ProducerError>)
    ensures
        match json_parse_spec(doc@) {
            None => r matches Err(ProducerError::Json(_)),
            Some(root) => match parse_doc_spec(root, version@) {
                Ok(s) => r matches Ok(x) && x@ == s,
                Err(m) => r matches Err(ProducerError::BadShape(mm)) && mm@ == m,
            },
        },
{
    match parse_json(doc) {
        Ok(root) => parse_doc(&root, version),
        Err(e) => Err(ProducerError::Json(e)),
    }
}

/// Every item the first `n` index entries yield has a non-empty path, no
/// attributes, and one of the kinds an `inner` key maps to.
proof fn lemma_index_items_shape(index: Seq<(Seq<char>, JsonView)>, paths: Seq<(Seq<char>, JsonView)>, n: int)
    ensures
        forall|k: int| 0 <= k < index_items(index, paths, n).len() ==> {
            let it = #[trigger] index_items(index, paths, n)[k];
            &&& it.path.len() > 0
            &&& it.attrs.len() == 0
            &&& it.kind != ItemKind::Method && it.kind != ItemKind::Static && it.kind != ItemKind::Module
                && it.kind != ItemKind::Other
        },
    decreases n,
{
    if n > 0 {
        lemma_index_items_shape(index, paths, n - 1);
    }
}

/// A rustdoc document is refused only when it lacks its `index` or `paths`
/// object; anything else inside it is skipped, never an error. The items
/// come sorted by path, each with a non-empty path, no attributes, and a
/// kind rustdoc's `inner` keys name (never `Method`, `Static`, `Module` or
/// `Other`).
pub proof fn law_producer_shape(root: JsonView, version: Seq<char>)
    ensures
        parse_doc_spec(root, version) is Err <==> !(get(root, "index"@) matches Some(JsonView::Object(_)))
            || !(get(root, "paths"@) matches Some(JsonView::Object(_))),
        parse_doc_spec(root, version) matches Ok(s) ==> {
            &&& s.version == version
            &&& crate::sorting::sorted_by_key(s.items)
            &&& forall|k: int| 0 <= k < s.items.len() ==> {
                let it = #[trigger] s.items[k];
                &&& it.path.len() > 0
                &&& it.attrs.len() == 0
                &&& it.kind != ItemKind::Method && it.kind != ItemKind::Static && it.kind != ItemKind::Module
                    && it.kind != ItemKind::Other
            }
        },
{
    broadcast use vstd::seq_lib::group_to_multiset_ensures;
    if let (Some(JsonView::Object(index)), Some(JsonView::Object(paths))) = (get(root, "index"@), get(root, "paths"@)) {
        let items = index_items(index, paths, index.len() as int);
        crate::sorting::lemma_sort_props(items);
        lemma_index_items_shape(index, paths, index.len() as int);
        let s = sort_by_key(items);
        assert forall|k: int| 0 <= k < s.len() implies items.contains(#[trigger] s[k]) by {
            assert(s.to_multiset().count(s[k]) > 0);
        }
    }
}

} // verus!
