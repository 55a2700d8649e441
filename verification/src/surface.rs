//! Surfaces: any contract that can produce an [`ApiSnapshot`].
//!
//! A crate's Rust `pub` items are one surface. Others matter as much to
//! consumers: protocol methods and their schemas, enum variants (the
//! `BackendEvent` case), CLI flags, config keys. Every one is a [`Surface`]
//! that produces an `ApiSnapshot`; the core does not care which.

use vstd::prelude::*;
use crate::snapshot::{ApiSnapshot, Item, ItemKind, ItemView, copy_items};
use crate::sorting::views;

verus! {

/// A named contract whose current shape can be inventoried.
///
/// `name` is the stable identifier the ledger keys files on
/// (`<name>.snapshot.json`); it must not change once committed. `snapshot`
/// regenerates the current contract shape at test time.
pub trait Surface {
    /// Stable ledger key, e.g. `rust-public`, `acp-contract`, `item-kind`.
    fn name(&self) -> &str;
    /// The contract's current shape.
    fn snapshot(&self) -> ApiSnapshot;
}

/// A [`Surface`] over the variants of one public enum — the
/// `bro_tui::backend::BackendEvent` case. Each variant becomes a
/// [`ItemKind::Variant`] item with path `<enum>::<variant>`; the sig is the
/// variant's constructor text when the caller supplies one, else the bare
/// name.
///
/// Not reflection: the variant list is written next to the enum. A new
/// variant without updating the list is exactly the drift the ledger test
/// then catches.
#[derive(Debug)]
pub struct EnumSurface {
    surface_name: &'static str,
    enum_path: &'static str,
    variants: Vec<Item>,
}

/// The item an enum surface lists for variant `name` with constructor `sig`.
pub open spec fn variant_item(enum_path: Seq<char>, name: Seq<char>, sig: Seq<char>) -> ItemView {
    ItemView {
        path: enum_path + "::"@ + name,
        kind: ItemKind::Variant,
        sig: if sig.len() == 0 { name } else { sig },
        attrs: Seq::empty(),
    }
}

/// Abstract value of an [`EnumSurface`].
pub struct EnumSurfaceView {
    pub name: Seq<char>,
    pub enum_path: Seq<char>,
    pub variants: Seq<ItemView>,
}

impl View for EnumSurface {
    type V = EnumSurfaceView;

    closed spec fn view(&self) -> EnumSurfaceView {
        EnumSurfaceView { name: self.surface_name@, enum_path: self.enum_path@, variants: views(self.variants@) }
    }
}

impl Clone for EnumSurface {
    fn clone(&self) -> (r: Self)
        ensures
            r@ == self@,
    {
        EnumSurface {
            surface_name: self.surface_name,
            enum_path: self.enum_path,
            variants: copy_items(&self.variants),
        }
    }
}

impl EnumSurface {
    /// Build from a variant list: `(variant_name, constructor_sig)`. Empty
    /// sigs render as the bare variant name.
    pub fn new(surface_name: &'static str, enum_path: &'static str, variants: &[(&str, &str)]) -> (r: Self)
        ensures
            r@.name == surface_name@,
            r@.enum_path == enum_path@,
            r@.variants == variants@.map_values(|v: (&str, &str)| variant_item(enum_path@, v.0@, v.1@)),
    {
        let ghost want = variants@.map_values(|v: (&str, &str)| variant_item(enum_path@, v.0@, v.1@));
        let mut items: Vec<Item> = Vec::new();
        for i in 0..variants.len()
            invariant
                want == variants@.map_values(|v: (&str, &str)| variant_item(enum_path@, v.0@, v.1@)),
                views(items@) == want.take(i as int),
                items@.len() == i,
        {
            let (n, sig) = variants[i];
            let mut path = String::from_str(enum_path);
            path.append("::");
            path.append(n);
            let item = if sig.is_empty() {
                Item::new(path.as_str(), ItemKind::Variant, n)
            } else {
                Item::new(path.as_str(), ItemKind::Variant, sig)
            };
            let ghost before = items@;
            items.push(item);
            proof {
                assert(item@.attrs =~= Seq::<Seq<char>>::empty());
                assert(item@ == want[i as int]);
                assert forall|k: int| 0 <= k <= i implies #[trigger] views(items@)[k] == want.take(i + 1)[k] by {
                    if k < i {
                        assert(items@[k] == before[k]);
                        assert(views(before)[k] == before[k]@);
                    }
                }
                assert(views(items@) =~= want.take(i + 1));
            }
        }
        assert(want.take(variants@.len() as int) =~= want);
        EnumSurface { surface_name, enum_path, variants: items }
    }

    /// The enum path this surface covers.
    pub fn enum_path(&self) -> (r: &str)
        ensures
            r@ == self@.enum_path,
    {
        self.enum_path
    }
}

impl Surface for EnumSurface {
    fn name(&self) -> (r: &str)
        ensures
            r@ == self@.name,
    {
        self.surface_name
    }

    fn snapshot(&self) -> (r: ApiSnapshot)
        ensures
            r@.version == self@.enum_path,
            r@.items == self@.variants,
    {
        ApiSnapshot::new(self.enum_path, copy_items(&self.variants))
    }
}

} // verus!
