//! Versioned inventory of a crate's public surface.
//!
//! An [`ApiSnapshot`] is what a producer (rustdoc JSON reader, an enum
//! surface, a hand-written contract list) hands to [`crate::diff`]. It is
//! deliberately coarse: path + kind + signature string (+ attributes that
//! change the severity, such as `non_exhaustive` or `deprecated`).

use vstd::prelude::*;
use crate::sorting::{Keyed, KeyedExec, views};
use crate::text::str_eq;

verus! {

/// What kind of public item this is. Used by `classify` to tell a
/// struct-field removal apart from a function-signature change.
#[derive(Debug, Clone, Copy, PartialEq, Eq, Hash, Structural)]
pub enum ItemKind {
    Function,
    Method,
    Struct,
    Enum,
    Trait,
    Field,
    Variant,
    Const,
    Static,
    Module,
    /// Anything else (type alias, macro…). Kept so producers never have to drop an item.
    Other,
}

/// The `Debug` rendering of a kind: its variant name.
pub open spec fn kind_name_spec(k: ItemKind) -> Seq<char> {
    match k {
        ItemKind::Function => "Function"@,
        ItemKind::Method => "Method"@,
        ItemKind::Struct => "Struct"@,
        ItemKind::Enum => "Enum"@,
        ItemKind::Trait => "Trait"@,
        ItemKind::Field => "Field"@,
        ItemKind::Variant => "Variant"@,
        ItemKind::Const => "Const"@,
        ItemKind::Static => "Static"@,
        ItemKind::Module => "Module"@,
        ItemKind::Other => "Other"@,
    }
}

/// The variant name of `k`, as `{:?}` prints it.
pub fn kind_name(k: ItemKind) -> (r: &'static str)
    ensures
        r@ == kind_name_spec(k),
{
    match k {
        ItemKind::Function => "Function",
        ItemKind::Method => "Method",
        ItemKind::Struct => "Struct",
        ItemKind::Enum => "Enum",
        ItemKind::Trait => "Trait",
        ItemKind::Field => "Field",
        ItemKind::Variant => "Variant",
        ItemKind::Const => "Const",
        ItemKind::Static => "Static",
        ItemKind::Module => "Module",
        ItemKind::Other => "Other",
    }
}

/// One public item in a crate's surface.
#[derive(Debug, PartialEq, Eq, Hash)]
pub struct Item {
    /// Canonical path, e.g. `arniko::Alert::new`.
    pub path: String,
    /// What kind of item it is.
    pub kind: ItemKind,
    /// Rendered signature, e.g. `pub fn new(message: &str) -> Self`.
    /// Compared verbatim by `diff`; interpreted by `classify`.
    pub sig: String,
    /// Attributes that change how a change is judged (`non_exhaustive`,
    /// `deprecated`, …). Empty for most items.
    pub attrs: Vec<String>,
}

/// Abstract value of an [`Item`].
pub struct ItemView {
    pub path: Seq<char>,
    pub kind: ItemKind,
    pub sig: Seq<char>,
    pub attrs: Seq<Seq<char>>,
}

/// The character sequences of a list of strings.
pub open spec fn strings_view(s: Seq<String>) -> Seq<Seq<char>> {
    s.map_values(|x: String| x@)
}

impl View for Item {
    type V = ItemView;

    open spec fn view(&self) -> ItemView {
        ItemView {
            path: self.path@,
            kind: self.kind,
            sig: self.sig@,
            attrs: strings_view(self.attrs@),
        }
    }
}

impl Keyed for ItemView {
    open spec fn key(&self) -> Seq<char> {
        self.path
    }
}

impl KeyedExec for Item {
    fn key_str(&self) -> (r: &str) {
        self.path.as_str()
    }
}

/// A copy of a list of strings.
pub fn copy_strings(v: &Vec<String>) -> (r: Vec<String>)
    ensures
        strings_view(r@) == strings_view(v@),
{
    let mut out: Vec<String> = Vec::new();
    for i in 0..v.len()
        invariant
            strings_view(out@) == strings_view(v@).take(i as int),
            out@.len() == i,
    {
        let ghost before = out@;
        let c = v[i].clone();
        out.push(c);
        assert forall|k: int| 0 <= k <= i implies strings_view(out@)[k] == strings_view(v@).take(i + 1)[k] by {
            if k < i {
                assert(strings_view(out@)[k] == out@[k]@);
                assert(out@[k] == before[k]);
                assert(strings_view(before)[k] == before[k]@);
            } else {
                assert(out@[k] == c);
            }
        }
        assert(strings_view(out@) =~= strings_view(v@).take(i + 1));
    }
    assert(strings_view(v@).take(v@.len() as int) =~= strings_view(v@));
    out
}

impl Clone for Item {
    fn clone(&self) -> (r: Self)
        ensures
            r@ == self@,
    {
        Item {
            path: self.path.clone(),
            kind: self.kind,
            sig: self.sig.clone(),
            attrs: copy_strings(&self.attrs),
        }
    }
}

/// `attrs` lists `attr`.
pub open spec fn has_attr_spec(attrs: Seq<Seq<char>>, attr: Seq<char>) -> bool {
    exists|i: int| 0 <= i < attrs.len() && attrs[i] == attr
}

impl Item {
    /// Build an item from anything string-like, with no attributes.
    pub fn new(path: &str, kind: ItemKind, sig: &str) -> (r: Self)
        ensures
            r@.path == path@,
            r@.kind == kind,
            r@.sig == sig@,
            r@.attrs.len() == 0,
    {
        let r = Item {
            path: path.to_owned(),
            kind,
            sig: sig.to_owned(),
            attrs: Vec::new(),
        };
        assert(r@.attrs =~= Seq::<Seq<char>>::empty());
        r
    }

    /// The same item with `attr` appended to its attributes.
    pub fn with_attr(self, attr: &str) -> (r: Self)
        ensures
            r@.path == self@.path,
            r@.kind == self@.kind,
            r@.sig == self@.sig,
            r@.attrs == self@.attrs.push(attr@),
    {
        let mut r = self;
        let ghost before = r.attrs@;
        r.attrs.push(attr.to_owned());
        assert(strings_view(r.attrs@) =~= strings_view(before).push(attr@));
        r
    }

    /// The same item with every one of `attrs` appended, in order.
    pub fn with_attrs(self, attrs: &[&str]) -> (r: Self)
        ensures
            r@.path == self@.path,
            r@.kind == self@.kind,
            r@.sig == self@.sig,
            r@.attrs == self@.attrs + attrs@.map_values(|a: &str| a@),
    {
        let ghost start = self@;
        let mut r = self;
        for i in 0..attrs.len()
            invariant
                r@.path == start.path,
                r@.kind == start.kind,
                r@.sig == start.sig,
                r@.attrs == start.attrs + attrs@.map_values(|a: &str| a@).take(i as int),
        {
            r = r.with_attr(attrs[i]);
            assert(attrs@.map_values(|a: &str| a@).take(i + 1) =~= attrs@.map_values(|a: &str| a@).take(i as int).push(attrs[i as int]@));
            assert(r@.attrs =~= start.attrs + attrs@.map_values(|a: &str| a@).take(i + 1));
        }
        assert(attrs@.map_values(|a: &str| a@).take(attrs@.len() as int) =~= attrs@.map_values(|a: &str| a@));
        r
    }

    /// True when `attr` is one of this item's attributes.
    pub fn has_attr(&self, attr: &str) -> (r: bool)
        ensures
            r == has_attr_spec(self@.attrs, attr@),
    {
        for i in 0..self.attrs.len()
            invariant
                forall|k: int| 0 <= k < i ==> self@.attrs[k] != attr@,
        {
            assert(self@.attrs[i as int] == self.attrs@[i as int]@);
            if str_eq(self.attrs[i].as_str(), attr) {
                return true;
            }
        }
        false
    }
}

/// A versioned inventory of one crate release.
#[derive(Debug, PartialEq, Eq)]
pub struct ApiSnapshot {
    /// Human label, e.g. `arniko 0.2.99` or a git rev.
    pub version: String,
    /// The public surface. Order is insignificant; `diff` indexes by `path`.
    /// Duplicate paths: last one wins in `diff` (producers should dedupe).
    pub items: Vec<Item>,
}

/// Abstract value of an [`ApiSnapshot`].
pub struct ApiSnapshotView {
    pub version: Seq<char>,
    pub items: Seq<ItemView>,
}

impl View for ApiSnapshot {
    type V = ApiSnapshotView;

    open spec fn view(&self) -> ApiSnapshotView {
        ApiSnapshotView { version: self.version@, items: views(self.items@) }
    }
}

/// A copy of a list of items.
pub fn copy_items(v: &[Item]) -> (r: Vec<Item>)
    ensures
        views(r@) == views(v@),
{
    let mut out: Vec<Item> = Vec::new();
    for i in 0..v.len()
        invariant
            views(out@) == views(v@).take(i as int),
            out@.len() == i,
    {
        let ghost before = out@;
        let c = v[i].clone();
        out.push(c);
        assert forall|k: int| 0 <= k <= i implies views(out@)[k] == views(v@).take(i + 1)[k] by {
            if k < i {
                assert(views(out@)[k] == out@[k]@);
                assert(out@[k] == before[k]);
                assert(views(before)[k] == before[k]@);
            } else {
                assert(out@[k] == c);
            }
        }
        assert(views(out@) =~= views(v@).take(i + 1));
    }
    assert(views(v@).take(v@.len() as int) =~= views(v@));
    out
}

impl Clone for ApiSnapshot {
    fn clone(&self) -> (r: Self)
        ensures
            r@ == self@,
    {
        ApiSnapshot { version: self.version.clone(), items: copy_items(&self.items) }
    }
}

impl ApiSnapshot {
    /// Build a snapshot from a version label and an item list.
    pub fn new(version: &str, items: Vec<Item>) -> (r: Self)
        ensures
            r@.version == version@,
            r@.items == views(items@),
    {
        ApiSnapshot { version: version.to_owned(), items }
    }

    /// Look up one item by path: the first item with that path.
    pub fn get(&self, path: &str) -> (r: Option<&Item>)
        ensures
            r matches Some(it) ==> exists|i: int|
                0 <= i < self.items@.len() && self.items@[i] == *it && it@.path == path@
                    && forall|j: int| 0 <= j < i ==> self.items@[j]@.path != path@,
            r is None ==> forall|j: int| 0 <= j < self.items@.len() ==> self.items@[j]@.path != path@,
    {
        for i in 0..self.items.len()
            invariant
                forall|j: int| 0 <= j < i ==> self.items@[j]@.path != path@,
        {
            if str_eq(self.items[i].path.as_str(), path) {
                return Some(&self.items[i]);
            }
        }
        None
    }

    /// Number of inventoried items.
    pub fn len(&self) -> (r: usize)
        ensures
            r == self@.items.len(),
    {
        self.items.len()
    }

    /// True when the snapshot inventories nothing.
    pub fn is_empty(&self) -> (r: bool)
        ensures
            r == (self@.items.len() == 0),
    {
        self.items.len() == 0
    }
}

} // verus!
