use vstd::prelude::*;

verus! {

/// How an inventory item is removed.
#[derive(Clone, Copy, Debug, PartialEq, Eq)]
pub enum ItemRemoval {
    /// Delete the item's row.
    Delete,
    /// Keep the row, which transactions still refer to, and mark it deleted.
    MarkDeleted,
}

/// An item that some transaction refers to is only marked as deleted; any
/// other item is deleted outright.
pub fn item_removal(referenced_by_transaction: bool) -> (res: ItemRemoval)
    ensures
        res == (if referenced_by_transaction { ItemRemoval::MarkDeleted } else { ItemRemoval::Delete }),
{
    if referenced_by_transaction {
        ItemRemoval::MarkDeleted
    } else {
        ItemRemoval::Delete
    }
}

} // verus!
