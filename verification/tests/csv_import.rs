use strecklistan::csv_import::{
    amounts_fit, check_csv_headers, check_header_fields, import_accounts, plan_item_import,
    plan_stock_transactions, require_csv_upload, split_by_direction, stock_adjustment, total_amount,
    CsvImportError, CsvImportItem, ImportAccounts, ItemImport, NewStockItem, StockAdjustment, StockedItem,
};

fn row(name: &str, price: Option<i32>, stock: i32) -> CsvImportItem {
    CsvImportItem { name: name.to_string(), price, stock }
}

fn adj(item_id: i32, price: Option<i32>, change: i32) -> StockAdjustment {
    StockAdjustment { item_id, name: format!("item{}", item_id), price, change }
}

#[test]
fn accounts_must_both_be_configured() {
    assert_eq!(import_accounts(None, Some(2)), Err(CsvImportError::AssetAccountNotConfigured));
    assert_eq!(import_accounts(None, None), Err(CsvImportError::AssetAccountNotConfigured));
    assert_eq!(import_accounts(Some(1), None), Err(CsvImportError::ExpenseAccountNotConfigured));
    assert_eq!(import_accounts(Some(1), Some(2)), Ok(ImportAccounts { asset: 1, expense: 2 }));
}

#[test]
fn upload_must_be_declared_csv() {
    assert_eq!(require_csv_upload(true), Ok(()));
    assert_eq!(require_csv_upload(false), Err(CsvImportError::NotCsvFile));
}

#[test]
fn headers_must_be_name_price_stock() {
    assert_eq!(check_csv_headers("name,price,stock\nCola,1200,5\n"), Ok(()));
    assert_eq!(check_csv_headers("name,price,stock"), Ok(()));
    assert_eq!(check_csv_headers("name,stock,price\n"), Err(CsvImportError::InvalidHeaders));
    assert_eq!(check_csv_headers("name,price\n"), Err(CsvImportError::InvalidHeaders));
    assert_eq!(check_csv_headers(""), Err(CsvImportError::InvalidHeaders));
    assert_eq!(check_csv_headers("\"name\",\"price\",\"stock\"\n"), Ok(()));
}

#[test]
fn header_fields_are_compared_exactly() {
    let ok = vec!["name".to_string(), "price".to_string(), "stock".to_string()];
    assert_eq!(check_header_fields(&ok), Ok(()));
    let upper = vec!["Name".to_string(), "price".to_string(), "stock".to_string()];
    assert_eq!(check_header_fields(&upper), Err(CsvImportError::InvalidHeaders));
    let extra = vec!["name".to_string(), "price".to_string(), "stock".to_string(), "x".to_string()];
    assert_eq!(check_header_fields(&extra), Err(CsvImportError::InvalidHeaders));
}

#[test]
fn error_status_and_messages() {
    assert_eq!(CsvImportError::AssetAccountNotConfigured.status(), 500);
    assert_eq!(CsvImportError::AssetAccountNotConfigured.message(), "CSV_IMPORT_ASSET_ACCOUNT is not configured");
    assert_eq!(CsvImportError::ExpenseAccountNotConfigured.status(), 500);
    assert_eq!(CsvImportError::ExpenseAccountNotConfigured.message(), "CSV_IMPORT_EXPENSE_ACCOUNT is not configured");
    assert_eq!(CsvImportError::NotCsvFile.status(), 400);
    assert_eq!(CsvImportError::NotCsvFile.message(), "Invalid file: must be a CSV");
    assert_eq!(CsvImportError::UnreadableFile.status(), 500);
    assert_eq!(CsvImportError::UnreadableFile.message(), "Failed to read file");
    assert_eq!(CsvImportError::UnreadableContent.status(), 500);
    assert_eq!(CsvImportError::UnreadableContent.message(), "Failed to parse CSV content");
    assert_eq!(CsvImportError::InvalidFormat.status(), 400);
    assert_eq!(CsvImportError::InvalidFormat.message(), "Invalid CSV format");
    assert_eq!(CsvImportError::InvalidHeaders.status(), 400);
    assert_eq!(CsvImportError::InvalidHeaders.message(), "Invalid CSV headers: expected 'name,price,stock'");
    let data = CsvImportError::InvalidData { detail: "bad stock".to_string() };
    assert_eq!(data.status(), 400);
    assert_eq!(data.message(), "Invalid CSV data: bad stock");
}

#[test]
fn existing_item_gets_a_new_price_only_when_it_differs() {
    let stored = StockedItem { id: 4, price: Some(1000), stock: 7 };
    assert_eq!(
        plan_item_import(&row("Cola", Some(1200), 9), Some(stored)),
        ItemImport { existing_id: Some(4), insert: None, set_price: Some(1200), current_stock: 7 }
    );
    assert_eq!(
        plan_item_import(&row("Cola", Some(1000), 9), Some(stored)),
        ItemImport { existing_id: Some(4), insert: None, set_price: None, current_stock: 7 }
    );
    assert_eq!(
        plan_item_import(&row("Cola", None, 9), Some(stored)),
        ItemImport { existing_id: Some(4), insert: None, set_price: None, current_stock: 7 }
    );
    let unpriced = StockedItem { id: 5, price: None, stock: 0 };
    assert_eq!(
        plan_item_import(&row("Cola", Some(1), 9), Some(unpriced)),
        ItemImport { existing_id: Some(5), insert: None, set_price: Some(1), current_stock: 0 }
    );
}

#[test]
fn missing_item_is_inserted_with_no_stock() {
    assert_eq!(
        plan_item_import(&row("New", Some(500), 3), None),
        ItemImport {
            existing_id: None,
            insert: Some(NewStockItem { name: "New".to_string(), price: Some(500) }),
            set_price: None,
            current_stock: 0,
        }
    );
}

#[test]
fn adjustment_brings_stock_to_the_file_value() {
    let a = stock_adjustment(row("Cola", Some(1200), 9), 4, 7).unwrap();
    assert_eq!(a, StockAdjustment { item_id: 4, name: "Cola".to_string(), price: Some(1200), change: 2 });
    assert_eq!(7 + a.change, 9);
    let b = stock_adjustment(row("Cola", None, 1), 4, 7).unwrap();
    assert_eq!(b.change, -6);
    assert_eq!(stock_adjustment(row("Cola", Some(1200), 7), 4, 7), None);
}

#[test]
fn adjustments_split_by_direction_in_order() {
    let (inc, red) = split_by_direction(vec![adj(1, None, 2), adj(2, None, -1), adj(3, None, 5), adj(4, None, 0)]);
    assert_eq!(inc.iter().map(|a| a.item_id).collect::<Vec<_>>(), vec![1, 3]);
    assert_eq!(red.iter().map(|a| a.item_id).collect::<Vec<_>>(), vec![2, 4]);
}

#[test]
fn total_amount_counts_priced_items_by_moved_count() {
    assert_eq!(total_amount(&vec![adj(1, Some(100), 2), adj(2, None, 5), adj(3, Some(250), -4)]), 1200);
    assert_eq!(total_amount(&vec![]), 0);
}

#[test]
fn amounts_fit_detects_overflow() {
    assert!(amounts_fit(&vec![adj(1, Some(100), 2), adj(2, Some(100), -3)]));
    assert!(!amounts_fit(&vec![adj(1, Some(i32::MAX), 2)]));
    assert!(!amounts_fit(&vec![adj(1, Some(1), i32::MIN)]));
    assert!(amounts_fit(&vec![adj(1, None, i32::MIN)]));
    assert!(!amounts_fit(&vec![adj(1, Some(i32::MAX), 1), adj(2, Some(1), 1)]));
    // the two directions are summed separately
    assert!(amounts_fit(&vec![adj(1, Some(i32::MAX), 1), adj(2, Some(1), -1)]));
}

#[test]
fn transactions_book_increases_and_decreases_oppositely() {
    let accounts = ImportAccounts { asset: 1, expense: 2 };
    let adjustments = vec![adj(1, Some(100), 2), adj(2, Some(50), -3), adj(3, None, 4)];
    let plan = plan_stock_transactions(adjustments, accounts, "Inventory import", Some("Inventory shrinkage"));
    assert_eq!(plan.len(), 2);
    assert_eq!(plan[0].description, "Inventory import");
    assert_eq!((plan[0].debited_account, plan[0].credited_account), (2, 1));
    assert_eq!(plan[0].amount, 200);
    assert_eq!(plan[0].adjustments.iter().map(|a| a.item_id).collect::<Vec<_>>(), vec![1, 3]);
    assert_eq!(plan[1].description, "Inventory shrinkage");
    assert_eq!((plan[1].debited_account, plan[1].credited_account), (1, 2));
    assert_eq!(plan[1].amount, 150);
    assert_eq!(plan[1].adjustments.iter().map(|a| a.item_id).collect::<Vec<_>>(), vec![2]);
}

#[test]
fn decreases_use_the_import_description_by_default() {
    let accounts = ImportAccounts { asset: 1, expense: 2 };
    let plan = plan_stock_transactions(vec![adj(2, Some(50), -1)], accounts, "Inventory import", None);
    assert_eq!(plan.len(), 1);
    assert_eq!(plan[0].description, "Inventory import");
    assert_eq!((plan[0].debited_account, plan[0].credited_account), (1, 2));
}

#[test]
fn no_adjustments_no_transactions() {
    let accounts = ImportAccounts { asset: 1, expense: 2 };
    assert!(plan_stock_transactions(vec![], accounts, "d", None).is_empty());
}

#[test]
fn rows_append_their_adjustments() {
    let mut adjustments = Vec::new();
    let plan = plan_item_import(&row("Cola", Some(1200), 9), Some(StockedItem { id: 4, price: Some(1200), stock: 7 }));
    strecklistan::csv_import::record_row_adjustment(&mut adjustments, row("Cola", Some(1200), 9), 4, &plan);
    let plan = plan_item_import(&row("Juice", None, 2), None);
    assert_eq!(plan.insert, Some(NewStockItem { name: "Juice".to_string(), price: None }));
    strecklistan::csv_import::record_row_adjustment(&mut adjustments, row("Juice", None, 2), 6, &plan);
    let plan = plan_item_import(&row("Tea", None, 3), Some(StockedItem { id: 5, price: None, stock: 3 }));
    strecklistan::csv_import::record_row_adjustment(&mut adjustments, row("Tea", None, 3), 5, &plan);
    assert_eq!(
        adjustments,
        vec![
            StockAdjustment { item_id: 4, name: "Cola".to_string(), price: Some(1200), change: 2 },
            StockAdjustment { item_id: 6, name: "Juice".to_string(), price: None, change: 2 },
        ]
    );
}

#[test]
fn importing_the_same_file_again_books_nothing() {
    let file = vec![row("Cola", Some(1200), 9), row("Tea", None, 3)];
    // the stored items after the first import of `file`
    let stored = vec![
        StockedItem { id: 4, price: Some(1200), stock: 9 },
        StockedItem { id: 5, price: Some(800), stock: 3 },
    ];
    let mut adjustments = Vec::new();
    for (item, stored) in file.into_iter().zip(stored) {
        let plan = plan_item_import(&item, Some(stored));
        assert_eq!(plan.insert, None);
        assert_eq!(plan.set_price, None);
        assert_eq!(plan.existing_id, Some(stored.id));
        strecklistan::csv_import::record_row_adjustment(&mut adjustments, item, stored.id, &plan);
    }
    assert!(adjustments.is_empty());
    let accounts = ImportAccounts { asset: 1, expense: 2 };
    assert!(plan_stock_transactions(adjustments, accounts, "Inventory import", None).is_empty());
}

#[test]
fn first_import_then_second_import_books_nothing() {
    let file = vec![row("Cola", Some(1200), 9), row("Tea", None, 3), row("New", Some(50), 4)];
    let mut stored = vec![
        Some(StockedItem { id: 4, price: Some(1000), stock: 7 }),
        Some(StockedItem { id: 5, price: Some(800), stock: 0 }),
        None,
    ];
    // first import: apply the plans as the database would
    let mut first = Vec::new();
    for (k, item) in file.iter().enumerate() {
        let plan = plan_item_import(item, stored[k]);
        let id = plan.existing_id.unwrap_or(10 + k as i32);
        let price = match (&plan.insert, plan.set_price) {
            (Some(new_item), _) => new_item.price,
            (None, Some(p)) => Some(p),
            (None, None) => stored[k].unwrap().price,
        };
        strecklistan::csv_import::record_row_adjustment(&mut first, item.clone(), id, &plan);
        stored[k] = Some(StockedItem { id, price, stock: item.stock });
    }
    assert_eq!(first.len(), 3);
    assert_eq!(stored[1].unwrap().price, Some(800));
    // second import of the same file
    let mut second = Vec::new();
    for (k, item) in file.iter().enumerate() {
        let plan = plan_item_import(item, stored[k]);
        assert_eq!(plan.set_price, None);
        assert_eq!(plan.insert, None);
        strecklistan::csv_import::record_row_adjustment(&mut second, item.clone(), stored[k].unwrap().id, &plan);
    }
    assert!(second.is_empty());
}
