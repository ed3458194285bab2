use strecklistan::inventory::{item_removal, ItemRemoval};

#[test]
fn referenced_items_are_only_marked_deleted() {
    assert_eq!(item_removal(true), ItemRemoval::MarkDeleted);
    assert_eq!(item_removal(false), ItemRemoval::Delete);
}
