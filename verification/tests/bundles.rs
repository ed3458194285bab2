use strecklistan::bundles::{bundle_item_rows, group_bundles, index_by_id, new_bundle_row, InventoryBundleObj, NewInventoryBundleObj};
use strecklistan::models::{InventoryBundle, InventoryBundleItem, NewInventoryBundle, NewInventoryBundleItem};

fn bundle(id: i32, name: &str, price: i32) -> InventoryBundle {
    InventoryBundle { id, name: name.to_string(), price, image_url: None }
}

fn member(id: i32, bundle_id: i32, item_id: i32) -> Option<InventoryBundleItem> {
    Some(InventoryBundleItem { id, bundle_id, item_id })
}

#[test]
fn joined_rows_group_into_bundles() {
    let rows = vec![
        (bundle(1, "Fika", 1500), member(10, 1, 100)),
        (bundle(1, "Fika", 1500), member(11, 1, 101)),
        (bundle(2, "Empty", 500), None),
        (bundle(3, "Pair", 2000), member(12, 3, 102)),
    ];
    let res = group_bundles(rows);
    assert_eq!(
        res,
        vec![
            InventoryBundleObj { id: 1, name: "Fika".to_string(), price: 1500, image_url: None, item_ids: vec![100, 101] },
            InventoryBundleObj { id: 2, name: "Empty".to_string(), price: 500, image_url: None, item_ids: vec![] },
            InventoryBundleObj { id: 3, name: "Pair".to_string(), price: 2000, image_url: None, item_ids: vec![102] },
        ]
    );
}

#[test]
fn only_consecutive_rows_share_a_bundle() {
    let rows = vec![
        (bundle(1, "A", 1), member(10, 1, 100)),
        (bundle(2, "B", 2), member(11, 2, 101)),
        (bundle(1, "A", 1), member(12, 1, 102)),
    ];
    let res = group_bundles(rows);
    assert_eq!(res.len(), 3);
    assert_eq!(res[0].item_ids, vec![100]);
    assert_eq!(res[2].item_ids, vec![102]);
}

#[test]
fn no_rows_no_bundles() {
    assert_eq!(group_bundles(Vec::new()), Vec::new());
}

#[test]
fn later_entries_replace_earlier_ones_by_id() {
    let map = index_by_id(vec![(1, "a"), (2, "b"), (1, "c")]);
    assert_eq!(map.len(), 2);
    assert_eq!(map[&1], "c");
    assert_eq!(map[&2], "b");
}

#[test]
fn new_bundle_splits_columns_and_items() {
    let obj = NewInventoryBundleObj { name: "Fika".to_string(), price: 1500, image_url: Some("x.png".to_string()), item_ids: vec![3, 4] };
    let (row, items) = new_bundle_row(obj);
    assert_eq!(row, NewInventoryBundle { name: "Fika".to_string(), price: 1500, image_url: Some("x.png".to_string()) });
    assert_eq!(items, vec![3, 4]);
}

#[test]
fn bundle_items_point_at_the_bundle() {
    assert_eq!(
        bundle_item_rows(9, &vec![3, 4]),
        vec![NewInventoryBundleItem { bundle_id: 9, item_id: 3 }, NewInventoryBundleItem { bundle_id: 9, item_id: 4 }]
    );
    assert_eq!(bundle_item_rows(9, &vec![]), vec![]);
}

#[test]
fn posted_bundle_reads_back() {
    let posted = NewInventoryBundleObj { name: "Fika".to_string(), price: 1500, image_url: None, item_ids: vec![7, 3] };
    let (row, item_ids) = new_bundle_row(posted.clone());
    let items = bundle_item_rows(42, &item_ids);
    let stored = InventoryBundle { id: 42, name: row.name.clone(), price: row.price, image_url: row.image_url.clone() };
    let rows: Vec<_> = items
        .iter()
        .enumerate()
        .map(|(k, m)| (stored.clone(), Some(InventoryBundleItem { id: 100 + k as i32, bundle_id: m.bundle_id, item_id: m.item_id })))
        .collect();
    let map = index_by_id(group_bundles(rows).into_iter().map(|b| (b.id, b)).collect());
    assert_eq!(map.len(), 1);
    assert_eq!(
        map[&42],
        InventoryBundleObj { id: 42, name: posted.name, price: posted.price, image_url: posted.image_url, item_ids: posted.item_ids }
    );
}

#[test]
fn posted_bundle_without_items_reads_back_empty() {
    let rows = vec![(bundle(8, "Solo", 100), None)];
    assert_eq!(
        group_bundles(rows),
        vec![InventoryBundleObj { id: 8, name: "Solo".to_string(), price: 100, image_url: None, item_ids: vec![] }]
    );
}

#[test]
fn posted_bundle_reads_back_among_others() {
    let rows = vec![
        (bundle(1, "A", 1), member(10, 1, 100)),
        (bundle(42, "Fika", 1500), member(11, 42, 7)),
        (bundle(42, "Fika", 1500), member(12, 42, 3)),
        (bundle(2, "B", 2), None),
    ];
    let map = index_by_id(group_bundles(rows).into_iter().map(|b| (b.id, b)).collect());
    assert_eq!(map.len(), 3);
    assert_eq!(
        map[&42],
        InventoryBundleObj { id: 42, name: "Fika".to_string(), price: 1500, image_url: None, item_ids: vec![7, 3] }
    );
}
