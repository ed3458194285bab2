use vstd::prelude::*;

verus! {

/// A stored bundle: several inventory items sold together at one price (in öre).
#[derive(Clone, Debug, PartialEq, Eq)]
pub struct InventoryBundle {
    pub id: i32,
    pub name: String,
    pub price: i32,
    pub image_url: Option<String>,
}

/// The columns of a bundle that is to be stored or updated.
#[derive(Clone, Debug, PartialEq, Eq)]
pub struct NewInventoryBundle {
    pub name: String,
    pub price: i32,
    pub image_url: Option<String>,
}

/// A stored membership of an item in a bundle.
#[derive(Clone, Copy, Debug, PartialEq, Eq)]
pub struct InventoryBundleItem {
    pub id: i32,
    pub bundle_id: i32,
    pub item_id: i32,
}

/// A membership of an item in a bundle that is to be stored.
#[derive(Clone, Copy, Debug, PartialEq, Eq)]
pub struct NewInventoryBundleItem {
    pub bundle_id: i32,
    pub item_id: i32,
}

} // verus!
