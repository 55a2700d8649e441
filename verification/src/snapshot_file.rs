//! Snapshot file format v1: the committed contract.
//!
//! A `*.snapshot.json` file is what the embedded ledger commits per surface:
//! a versioned envelope around an [`ApiSnapshot`] plus the sha256 content
//! hash that ledger entries and consumer pins reference.
//!
//! ```json
//! {"format": "api-drift/snapshot/v1",
//!  "surface": "rust-public",
//!  "version": "arniko 0.2.99",
//!  "items": [{"path": "…", "kind": "Function", "sig": "…", "attrs": []}],
//!  "content_hash": "sha256:…"}
//! ```
//!
//! Rules: `format` must equal [`SNAPSHOT_FORMAT_V1`] on parse; `items` are
//! sorted by path on render; `content_hash` is recomputed by
//! [`content_hash`] and verified on parse (mismatch = error, not warning — a
//! tampered contract must fail closed).

use vstd::prelude::*;
use vstd::utf8::encode_utf8;
use crate::digest::{hex_encode, hex_lower, is_sha256_tag, lemma_sha256_tag, sha256_digest, sha256_spec};
use crate::snapshot::{ApiSnapshot, Item, ItemView, copy_items, copy_strings, kind_name, kind_name_spec, strings_view};
use crate::sorting::{Keyed, sort_by_key, sort_by_path, views};
use crate::text::{join_spec, join_strings, str_eq};

verus! {

/// The only accepted `format` string for v1 files.
pub const SNAPSHOT_FORMAT_V1: &'static str = "api-drift/snapshot/v1";

/// Committed envelope: format tag + surface name + snapshot + hash.
#[derive(Debug, PartialEq, Eq)]
pub struct SnapshotFile {
    /// Always [`SNAPSHOT_FORMAT_V1`].
    pub format: String,
    /// Surface name, e.g. `rust-public`, `acp-contract`.
    pub surface: String,
    /// Version label from the snapshot (e.g. `arniko 0.2.99`).
    pub version: String,
    /// Sorted-by-path items.
    pub items: Vec<Item>,
    /// `sha256:` hex of the canonical content (see [`content_hash`]).
    pub content_hash: String,
}

/// Abstract value of a [`SnapshotFile`].
pub struct SnapshotFileView {
    pub format: Seq<char>,
    pub surface: Seq<char>,
    pub version: Seq<char>,
    pub items: Seq<ItemView>,
    pub content_hash: Seq<char>,
}

impl View for SnapshotFile {
    type V = SnapshotFileView;

    open spec fn view(&self) -> SnapshotFileView {
        SnapshotFileView {
            format: self.format@,
            surface: self.surface@,
            version: self.version@,
            items: views(self.items@),
            content_hash: self.content_hash@,
        }
    }
}

impl Clone for SnapshotFile {
    fn clone(&self) -> (r: Self)
        ensures
            r@ == self@,
    {
        SnapshotFile {
            format: self.format.clone(),
            surface: self.surface.clone(),
            version: self.version.clone(),
            items: copy_items(&self.items),
            content_hash: self.content_hash.clone(),
        }
    }
}

/// What went wrong reading or writing a snapshot file.
#[derive(Debug)]
pub enum SnapshotFileError {
    /// Underlying JSON error (not JSON, or not the envelope's shape).
    Json(serde_json::Error),
    /// `format` tag mismatch (expected, found).
    BadFormat(String, String),
    /// `content_hash` does not recompute (recomputed, stored).
    HashMismatch(String, String),
}

impl SnapshotFileError {
    /// The error's message (what its display shows).
    pub fn message(&self) -> (r: String)
        ensures
            match self {
                SnapshotFileError::Json(_) => r@.take(20) == "snapshot file JSON: "@,
                SnapshotFileError::BadFormat(expected, found) => r@ == "snapshot format: expected `"@ + expected@
                    + "`, found `"@ + found@ + "`"@,
                SnapshotFileError::HashMismatch(expected, found) => r@ == "snapshot content hash mismatch: expected `"@
                    + expected@ + "`, found `"@ + found@ + "`"@,
            },
    {
        match self {
            SnapshotFileError::Json(e) => {
                let mut r = String::from_str("snapshot file JSON: ");
                proof {
                    reveal_strlit("snapshot file JSON: ");
                }
                let ghost head = r@;
                r.append(crate::json::json_error_message(e).as_str());
                assert(r@.take(20) =~= head);
                r
            },
            SnapshotFileError::BadFormat(expected, found) => {
                let mut r = String::from_str("snapshot format: expected `");
                r.append(expected.as_str());
                r.append("`, found `");
                r.append(found.as_str());
                r.append("`");
                r
            },
            SnapshotFileError::HashMismatch(expected, found) => {
                let mut r = String::from_str("snapshot content hash mismatch: expected `");
                r.append(expected.as_str());
                r.append("`, found `");
                r.append(found.as_str());
                r.append("`");
                r
            },
        }
    }
}

/// Canonical text of one item: `path \0 kind \0 sig \0 attrs(sorted, comma-joined) \0`.
pub open spec fn canonical_entry(i: ItemView) -> Seq<char> {
    i.path + "\0"@ + kind_name_spec(i.kind) + "\0"@ + i.sig + "\0"@ + join_spec(sort_by_key(i.attrs), ","@) + "\0"@
}

/// Canonical content of a snapshot: its items sorted by path, one canonical
/// entry each, joined by newlines.
pub open spec fn canonical_content(items: Seq<ItemView>) -> Seq<char> {
    join_spec(sort_by_key(items).map_values(|i: ItemView| canonical_entry(i)), "\n"@)
}

/// `sha256:` followed by the lowercase hex sha256 of the UTF-8 canonical
/// content.
pub open spec fn content_hash_spec(items: Seq<ItemView>) -> Seq<char> {
    "sha256:"@ + hex_lower(sha256_spec(encode_utf8(canonical_content(items))))
}

fn canonical_entry_exec(it: &Item) -> (r: String)
    ensures
        r@ == canonical_entry(it@),
{
    let attrs = sort_by_path(copy_strings(&it.attrs));
    proof {
        let v = attrs@.map_values(|p: String| p@);
        assert(crate::sorting::views(attrs@) =~= v);
        assert(strings_view(it.attrs@) =~= crate::sorting::views(it.attrs@));
    }
    let mut r = it.path.clone();
    r.append("\0");
    r.append(kind_name(it.kind));
    r.append("\0");
    r.append(it.sig.as_str());
    r.append("\0");
    r.append(join_strings(&attrs, ",").as_str());
    r.append("\0");
    r
}

/// sha256 over the canonical content: for each item (sorted by path)
/// `path \0 kind \0 sig \0 attr1,attr2(sorted) \0`, joined by `\n`.
/// Returns the `sha256:<hex>` string stored in the file.
pub fn content_hash(items: &[Item]) -> (r: String)
    ensures
        r@ == content_hash_spec(views(items@)),
        is_sha256_tag(r@),
{
    let sorted = sort_by_path(copy_items(items));
    let ghost es = views(sorted@).map_values(|i: ItemView| canonical_entry(i));
    let mut text = String::new();
    for i in 0..sorted.len()
        invariant
            es == views(sorted@).map_values(|i: ItemView| canonical_entry(i)),
            text@ == join_spec(es.take(i as int), "\n"@),
    {
        assert(es.take(i + 1).drop_last() =~= es.take(i as int));
        assert(views(sorted@)[i as int] == sorted@[i as int]@);
        assert(es.take(i + 1).last() == canonical_entry(sorted@[i as int]@));
        if i > 0 {
            text.append("\n");
        } else {
            assert(text@ =~= Seq::<char>::empty());
        }
        text.append(canonical_entry_exec(&sorted[i]).as_str());
        if i == 0 {
            assert(text@ =~= es.take(1)[0]);
        }
    }
    assert(es.take(sorted@.len() as int) =~= es);
    let bytes = text.as_str().as_bytes();
    let digest = sha256_digest(bytes);
    let hex = hex_encode(digest.as_slice());
    let mut out = String::from_str("sha256:");
    out.append(hex.as_str());
    proof {
        lemma_sha256_tag(digest@);
    }
    out
}

/// `sha256:` followed by the lowercase hex sha256 of the UTF-8 text.
pub open spec fn schema_hash_spec(text: Seq<char>) -> Seq<char> {
    "sha256:"@ + hex_lower(sha256_spec(encode_utf8(text)))
}

/// sha256 over a canonical schema (or any contract text). The caller
/// canonicalizes first (stable key order + formatting): two
/// logically-identical schemas with different formatting hash differently,
/// on purpose — drift should be visible.
pub fn schema_hash(text: &str) -> (r: String)
    ensures
        r@ == schema_hash_spec(text@),
        is_sha256_tag(r@),
{
    let digest = sha256_digest(text.as_bytes());
    let hex = hex_encode(digest.as_slice());
    let mut out = String::from_str("sha256:");
    out.append(hex.as_str());
    proof {
        lemma_sha256_tag(digest@);
    }
    out
}

/// The envelope `render_snapshot_file` builds.
pub open spec fn render_spec(surface: Seq<char>, snap: crate::snapshot::ApiSnapshotView) -> SnapshotFileView {
    SnapshotFileView {
        format: SNAPSHOT_FORMAT_V1@,
        surface,
        version: snap.version,
        items: sort_by_key(snap.items),
        content_hash: content_hash_spec(sort_by_key(snap.items)),
    }
}

/// Build the committed envelope for `surface` from a snapshot.
pub fn render_snapshot_file(surface: &str, snap: &ApiSnapshot) -> (r: SnapshotFile)
    ensures
        r@ == render_spec(surface@, snap@),
        is_sha256_tag(r@.content_hash),
{
    let items = sort_by_path(copy_items(&snap.items));
    let content_hash = content_hash(&items);
    SnapshotFile {
        format: SNAPSHOT_FORMAT_V1.to_owned(),
        surface: surface.to_owned(),
        version: snap.version.clone(),
        items,
        content_hash,
    }
}

/// A file passes the check: v1 format tag and a content hash that
/// recomputes.
pub open spec fn file_is_valid(f: SnapshotFileView) -> bool {
    f.format == SNAPSHOT_FORMAT_V1@ && f.content_hash == content_hash_spec(f.items)
}

/// Verify an envelope: the format tag must be v1 and the hash must
/// recompute. Returns the envelope unchanged when both hold.
pub fn check_snapshot_file(file: SnapshotFile) -> (r: Result<SnapshotFile, SnapshotFileError>)
    ensures
        r is Ok <==> file_is_valid(file@),
        r matches Ok(f) ==> f@ == file@,
        r matches Err(SnapshotFileError::BadFormat(expected, found)) ==> file@.format != SNAPSHOT_FORMAT_V1@
            && expected@ == SNAPSHOT_FORMAT_V1@ && found@ == file@.format,
        r matches Err(SnapshotFileError::HashMismatch(recomputed, stored)) ==> file@.format == SNAPSHOT_FORMAT_V1@
            && recomputed@ == content_hash_spec(file@.items) && stored@ == file@.content_hash
            && recomputed@ != stored@,
        !(r matches Err(SnapshotFileError::Json(_))),
{
    if !str_eq(file.format.as_str(), SNAPSHOT_FORMAT_V1) {
        return Err(SnapshotFileError::BadFormat(SNAPSHOT_FORMAT_V1.to_owned(), file.format.clone()));
    }
    let recomputed = content_hash(&file.items);
    if !str_eq(recomputed.as_str(), file.content_hash.as_str()) {
        let stored = file.content_hash.clone();
        return Err(SnapshotFileError::HashMismatch(recomputed, stored));
    }
    Ok(file)
}

/// A freshly rendered envelope always passes the check: rendering sorts the
/// items and hashes exactly what it stores.
pub proof fn law_rendered_file_is_valid(surface: Seq<char>, snap: crate::snapshot::ApiSnapshotView)
    ensures
        file_is_valid(render_spec(surface, snap)),
        crate::sorting::sorted_by_key(render_spec(surface, snap).items),
{
    crate::sorting::lemma_sort_idempotent(snap.items);
    crate::sorting::lemma_sort_props(snap.items);
}

/// An item with its attributes in sorted order (what the canonical text
/// sees of it).
pub open spec fn with_sorted_attrs(i: ItemView) -> ItemView {
    ItemView { path: i.path, kind: i.kind, sig: i.sig, attrs: sort_by_key(i.attrs) }
}

/// Sorting the attributes of every item first leaves the content hash as it
/// is.
proof fn lemma_hash_of_sorted_attrs(a: Seq<ItemView>)
    ensures
        content_hash_spec(a.map_values(|i: ItemView| with_sorted_attrs(i))) == content_hash_spec(a),
{
    let f = |i: ItemView| with_sorted_attrs(i);
    let ce = |i: ItemView| canonical_entry(i);
    assert forall|y: ItemView| #[trigger] f(y).key() == y.key() by {}
    crate::sorting::lemma_sort_map(a, f);
    let sa = sort_by_key(a);
    assert forall|k: int| 0 <= k < sa.len() implies #[trigger] canonical_entry(f(sa[k])) == canonical_entry(sa[k]) by {
        crate::sorting::lemma_sort_idempotent(sa[k].attrs);
    }
    assert(sa.map_values(f).map_values(ce) =~= sa.map_values(ce));
}

/// Two item lists whose items are the same once their attributes are
/// sorted, with no path twice, hash alike.
proof fn lemma_hash_of_permutation(a: Seq<ItemView>, b: Seq<ItemView>)
    requires
        a.to_multiset() == b.to_multiset(),
        forall|i: int, j: int| 0 <= i < a.len() && 0 <= j < a.len() && i != j ==> #[trigger] a[i].path != #[trigger] a[j].path,
    ensures
        sort_by_key(a) == sort_by_key(b),
        content_hash_spec(a) == content_hash_spec(b),
{
    broadcast use vstd::seq_lib::group_to_multiset_ensures;
    crate::sorting::lemma_sort_props(a);
    crate::sorting::lemma_sort_props(b);
    let sa = sort_by_key(a);
    assert forall|i: int, j: int|
        0 <= i < sa.len() && 0 <= j < sa.len() && #[trigger] sa[i].key() == #[trigger] sa[j].key() implies sa[i] == sa[j] by {
        assert(sa.to_multiset().count(sa[i]) > 0);
        assert(sa.to_multiset().count(sa[j]) > 0);
        assert(a.contains(sa[i]));
        assert(a.contains(sa[j]));
        let p = choose|p: int| 0 <= p < a.len() && a[p] == sa[i];
        let q = choose|q: int| 0 <= q < a.len() && a[q] == sa[j];
        assert(a[p].path == a[q].path);
    }
    crate::sorting::lemma_sorted_unique(sa, sort_by_key(b));
}

/// The content hash does not depend on the order of the items nor on the
/// order of each item's attributes: two item lists that hold the same items
/// once attributes are sorted, with no path twice, hash alike. (Duplicate
/// paths are left out: their relative order survives the stable sort.)
pub proof fn law_content_hash_ignores_order(a: Seq<ItemView>, b: Seq<ItemView>)
    requires
        a.map_values(|i: ItemView| with_sorted_attrs(i)).to_multiset() == b.map_values(|i: ItemView| with_sorted_attrs(i)).to_multiset(),
        forall|i: int, j: int| 0 <= i < a.len() && 0 <= j < a.len() && i != j ==> #[trigger] a[i].path != #[trigger] a[j].path,
    ensures
        content_hash_spec(a) == content_hash_spec(b),
{
    let na = a.map_values(|i: ItemView| with_sorted_attrs(i));
    let nb = b.map_values(|i: ItemView| with_sorted_attrs(i));
    lemma_hash_of_sorted_attrs(a);
    lemma_hash_of_sorted_attrs(b);
    assert forall|i: int, j: int| 0 <= i < na.len() && 0 <= j < na.len() && i != j implies #[trigger] na[i].path != #[trigger] na[j].path by {
        assert(na[i].path == a[i].path && na[j].path == a[j].path);
    }
    lemma_hash_of_permutation(na, nb);
}

} // verus!
