use vstd::prelude::*;

verus! {

/// One row of an inventory CSV file: the item's name, its price in öre
/// (an empty field means no price) and how many are in stock.
#[derive(Clone, Debug, PartialEq, Eq)]
pub struct CsvImportItem {
    pub name: String,
    pub price: Option<i32>,
    pub stock: i32,
}

/// An inventory item as it is stored, as far as an import needs it.
#[derive(Clone, Copy, Debug, PartialEq, Eq)]
pub struct StockedItem {
    pub id: i32,
    pub price: Option<i32>,
    pub stock: i32,
}

/// An inventory item that an import inserts.
#[derive(Clone, Debug, PartialEq, Eq)]
pub struct NewStockItem {
    pub name: String,
    pub price: Option<i32>,
}

/// What an import does with the stored item that a CSV row names.
#[derive(Clone, Debug, PartialEq, Eq)]
pub struct ItemImport {
    /// The stored item, or `None` when a new item is to be inserted.
    pub existing_id: Option<i32>,
    /// The item to insert when there is no stored item.
    pub insert: Option<NewStockItem>,
    /// The price to store on the existing item, if it changes.
    pub set_price: Option<i32>,
    /// The stock the item has before the import.
    pub current_stock: i32,
}

/// A change of stock that the import books for one item.
#[derive(Clone, Debug, PartialEq, Eq)]
pub struct StockAdjustment {
    pub item_id: i32,
    pub name: String,
    pub price: Option<i32>,
    pub change: i32,
}

pub open spec fn spec_plan_item_import(row: CsvImportItem, existing: Option<StockedItem>) -> ItemImport {
    match existing {
        Some(item) => ItemImport {
            existing_id: Some(item.id),
            insert: None,
            set_price: if row.price is Some && row.price != item.price { row.price } else { None },
            current_stock: item.stock,
        },
        None => ItemImport {
            existing_id: None,
            insert: Some(NewStockItem { name: row.name, price: row.price }),
            set_price: None,
            current_stock: 0,
        },
    }
}

/// Decides what to do for a CSV row whose name matched `existing` (or no
/// stored item): an existing item gets the row's price if the row has one
/// that differs from the stored one; a missing item is inserted with the
/// row's name and price and starts with no stock.
pub fn plan_item_import(item: &CsvImportItem, existing: Option<StockedItem>) -> (res: ItemImport)
    ensures
        res == spec_plan_item_import(*item, existing),
{
    match existing {
        Some(stored) => {
            let set_price = if item.price.is_some() && !option_eq(item.price, stored.price) {
                item.price
            } else {
                None
            };
            ItemImport { existing_id: Some(stored.id), insert: None, set_price, current_stock: stored.stock }
        },
        None => ItemImport {
            existing_id: None,
            insert: Some(NewStockItem { name: item.name.clone(), price: item.price }),
            set_price: None,
            current_stock: 0,
        },
    }
}

fn option_eq(a: Option<i32>, b: Option<i32>) -> (res: bool)
    ensures
        res == (a == b),
{
    match (a, b) {
        (Some(x), Some(y)) => x == y,
        (None, None) => true,
        _ => false,
    }
}

pub open spec fn spec_stock_adjustment(item: CsvImportItem, item_id: i32, current_stock: i32) -> Option<StockAdjustment> {
    if item.stock == current_stock {
        None
    } else {
        Some(StockAdjustment {
            item_id,
            name: item.name,
            price: item.price,
            change: (item.stock - current_stock) as i32,
        })
    }
}

/// The stock change that brings `current_stock` to the row's stock, or
/// `None` when there is nothing to change.
pub fn stock_adjustment(item: CsvImportItem, item_id: i32, current_stock: i32) -> (res: Option<StockAdjustment>)
    requires
        i32::MIN <= item.stock - current_stock <= i32::MAX,
    ensures
        res == spec_stock_adjustment(item, item_id, current_stock),
{
    let change = item.stock - current_stock;
    if change != 0 {
        Some(StockAdjustment { item_id, name: item.name, price: item.price, change })
    } else {
        None
    }
}

/// The adjustments that an optional adjustment contributes.
pub open spec fn option_seq(a: Option<StockAdjustment>) -> Seq<StockAdjustment> {
    match a {
        Some(a) => seq![a],
        None => Seq::empty(),
    }
}

/// Books the stock change of one imported row: appends to `adjustments` the
/// change that brings `plan.current_stock` to the row's stock, if any.
pub fn record_row_adjustment(
    adjustments: &mut Vec<StockAdjustment>,
    item: CsvImportItem,
    item_id: i32,
    plan: &ItemImport,
)
    requires
        i32::MIN <= item.stock - plan.current_stock <= i32::MAX,
    ensures
        final(adjustments)@ == old(adjustments)@ + option_seq(
            spec_stock_adjustment(item, item_id, plan.current_stock),
        ),
{
    match stock_adjustment(item, item_id, plan.current_stock) {
        Some(a) => {
            adjustments.push(a);
        },
        None => {},
    }
    proof {
        assert(adjustments@ =~= old(adjustments)@ + option_seq(
            spec_stock_adjustment(item, item_id, plan.current_stock),
        ));
    }
}

/// Whether an adjustment adds to the stock.
pub open spec fn is_increase(a: StockAdjustment) -> bool {
    a.change > 0
}

/// Whether an adjustment takes from the stock.
pub open spec fn is_reduction(a: StockAdjustment) -> bool {
    !(a.change > 0)
}

/// The adjustments that add to the stock, in their original order.
pub open spec fn increases(s: Seq<StockAdjustment>) -> Seq<StockAdjustment> {
    s.filter(|a: StockAdjustment| is_increase(a))
}

/// The other adjustments, in their original order.
pub open spec fn reductions(s: Seq<StockAdjustment>) -> Seq<StockAdjustment> {
    s.filter(|a: StockAdjustment| is_reduction(a))
}

pub open spec fn abs(x: int) -> int {
    if x < 0 { -x } else { x }
}

/// What an adjustment is worth: its price times the number of items moved,
/// or nothing if the item has no price.
pub open spec fn adjustment_cost(a: StockAdjustment) -> int {
    match a.price {
        Some(p) => p * abs(a.change as int),
        None => 0,
    }
}

/// The worth of all adjustments of `s`.
pub open spec fn total_cost(s: Seq<StockAdjustment>) -> int
    decreases s.len(),
{
    if s.len() == 0 {
        0
    } else {
        total_cost(s.drop_last()) + adjustment_cost(s.last())
    }
}

/// Summing the worth of `s` in order stays within `i32`: no count of a
/// priced item is `i32::MIN`, and no single worth and no running total
/// overflows.
pub open spec fn cost_fits(s: Seq<StockAdjustment>) -> bool {
    forall|k: int|
        #![trigger s[k]]
        0 <= k < s.len() ==> {
            &&& (s[k].price is Some ==> s[k].change != i32::MIN)
            &&& i32::MIN <= adjustment_cost(s[k]) <= i32::MAX
            &&& i32::MIN <= total_cost(s.take(k + 1)) <= i32::MAX
        }
}

proof fn lemma_filter_take_step(s: Seq<StockAdjustment>, i: int)
    requires
        0 <= i < s.len(),
    ensures
        increases(s.take(i + 1)) == if is_increase(s[i]) {
            increases(s.take(i)).push(s[i])
        } else {
            increases(s.take(i))
        },
        reductions(s.take(i + 1)) == if is_reduction(s[i]) {
            reductions(s.take(i)).push(s[i])
        } else {
            reductions(s.take(i))
        },
{
    reveal_with_fuel(Seq::filter, 1);
    assert(s.take(i + 1).drop_last() =~= s.take(i));
    assert(s.take(i + 1).last() == s[i]);
}

/// Splits `adjustments` into those that add to the stock and the others,
/// each in its original order.
pub fn split_by_direction(adjustments: Vec<StockAdjustment>) -> (res: (Vec<StockAdjustment>, Vec<StockAdjustment>))
    ensures
        res.0@ == increases(adjustments@),
        res.1@ == reductions(adjustments@),
{
    let ghost all = adjustments@;
    let mut inc: Vec<StockAdjustment> = Vec::new();
    let mut dec: Vec<StockAdjustment> = Vec::new();
    proof {
        reveal_with_fuel(Seq::filter, 1);
        assert(all.take(0) =~= Seq::<StockAdjustment>::empty());
    }
    for a in it: adjustments.into_iter()
        invariant
            it.seq() == all,
            inc@ == increases(all.take(it.index() as int)),
            dec@ == reductions(all.take(it.index() as int)),
    {
        proof {
            lemma_filter_take_step(all, it.index() as int);
        }
        if a.change > 0 {
            inc.push(a);
        } else {
            dec.push(a);
        }
    }
    proof {
        assert(all.take(all.len() as int) =~= all);
    }
    (inc, dec)
}

/// The worth of `adjustments`: the sum, over the items that have a price, of
/// that price times the number of items moved.
pub fn total_amount(adjustments: &Vec<StockAdjustment>) -> (res: i32)
    requires
        cost_fits(adjustments@),
    ensures
        res == total_cost(adjustments@),
{
    let mut sum: i32 = 0;
    let mut i: usize = 0;
    proof {
        assert(adjustments@.take(0) =~= Seq::<StockAdjustment>::empty());
    }
    while i < adjustments.len()
        invariant
            i <= adjustments@.len(),
            cost_fits(adjustments@),
            sum == total_cost(adjustments@.take(i as int)),
        decreases adjustments@.len() - i,
    {
        let a = &adjustments[i];
        proof {
            assert(adjustments@.take(i + 1).drop_last() =~= adjustments@.take(i as int));
            assert(adjustments@.take(i + 1).last() == adjustments@[i as int]);
        }
        match a.price {
            Some(p) => {
                let count: i32 = if a.change < 0 { -a.change } else { a.change };
                let cost: i32 = p * count;
                sum = sum + cost;
            },
            None => {},
        }
        i = i + 1;
    }
    proof {
        assert(adjustments@.take(adjustments@.len() as int) =~= adjustments@);
    }
    sum
}

/// Why an inventory CSV upload is refused.
#[derive(Clone, Debug, PartialEq, Eq)]
pub enum CsvImportError {
    /// The account that receives imported stock is not configured.
    AssetAccountNotConfigured,
    /// The account that pays for imported stock is not configured.
    ExpenseAccountNotConfigured,
    /// The uploaded file is not declared as CSV.
    NotCsvFile,
    /// The uploaded file could not be opened.
    UnreadableFile,
    /// The uploaded file is not text.
    UnreadableContent,
    /// The upload is not well-formed CSV.
    InvalidFormat,
    /// The header row is not `name,price,stock`.
    InvalidHeaders,
    /// A row could not be read as an item; `detail` says why.
    InvalidData { detail: String },
}

/// Whether an error is the server's fault rather than the upload's.
pub open spec fn spec_is_server_error(e: CsvImportError) -> bool {
    match e {
        CsvImportError::AssetAccountNotConfigured
        | CsvImportError::ExpenseAccountNotConfigured
        | CsvImportError::UnreadableFile
        | CsvImportError::UnreadableContent => true,
        _ => false,
    }
}

pub open spec fn spec_error_message(e: CsvImportError) -> Seq<char> {
    match e {
        CsvImportError::AssetAccountNotConfigured => "CSV_IMPORT_ASSET_ACCOUNT is not configured"@,
        CsvImportError::ExpenseAccountNotConfigured => "CSV_IMPORT_EXPENSE_ACCOUNT is not configured"@,
        CsvImportError::NotCsvFile => "Invalid file: must be a CSV"@,
        CsvImportError::UnreadableFile => "Failed to read file"@,
        CsvImportError::UnreadableContent => "Failed to parse CSV content"@,
        CsvImportError::InvalidFormat => "Invalid CSV format"@,
        CsvImportError::InvalidHeaders => "Invalid CSV headers: expected 'name,price,stock'"@,
        CsvImportError::InvalidData { detail } => "Invalid CSV data: "@ + detail@,
    }
}

impl CsvImportError {
    /// The HTTP status that answers the refused upload.
    pub fn status(&self) -> (res: u16)
        ensures
            res == (if spec_is_server_error(*self) { 500u16 } else { 400u16 }),
    {
        match self {
            CsvImportError::AssetAccountNotConfigured
            | CsvImportError::ExpenseAccountNotConfigured
            | CsvImportError::UnreadableFile
            | CsvImportError::UnreadableContent => 500,
            _ => 400,
        }
    }

    /// The text that answers the refused upload.
    pub fn message(&self) -> (res: String)
        ensures
            res@ == spec_error_message(*self),
    {
        match self {
            CsvImportError::AssetAccountNotConfigured => String::from_str(
                "CSV_IMPORT_ASSET_ACCOUNT is not configured",
            ),
            CsvImportError::ExpenseAccountNotConfigured => String::from_str(
                "CSV_IMPORT_EXPENSE_ACCOUNT is not configured",
            ),
            CsvImportError::NotCsvFile => String::from_str("Invalid file: must be a CSV"),
            CsvImportError::UnreadableFile => String::from_str("Failed to read file"),
            CsvImportError::UnreadableContent => String::from_str("Failed to parse CSV content"),
            CsvImportError::InvalidFormat => String::from_str("Invalid CSV format"),
            CsvImportError::InvalidHeaders => String::from_str(
                "Invalid CSV headers: expected 'name,price,stock'",
            ),
            CsvImportError::InvalidData { detail } => {
                let mut res = String::from_str("Invalid CSV data: ");
                res.append(detail.as_str());
                res
            },
        }
    }
}

/// The two accounts between which imported stock is booked.
#[derive(Clone, Copy, Debug, PartialEq, Eq)]
pub struct ImportAccounts {
    /// Holds the value of the stock.
    pub asset: i32,
    /// Pays for stock that comes in and receives the value of stock that goes.
    pub expense: i32,
}

/// Both configured accounts, or the error for the first one missing.
pub fn import_accounts(asset: Option<i32>, expense: Option<i32>) -> (res: Result<ImportAccounts, CsvImportError>)
    ensures
        asset is None ==> res == Err::<ImportAccounts, CsvImportError>(CsvImportError::AssetAccountNotConfigured),
        asset is Some && expense is None ==> res == Err::<ImportAccounts, CsvImportError>(CsvImportError::ExpenseAccountNotConfigured),
        asset is Some && expense is Some ==> res == Ok::<ImportAccounts, CsvImportError>(
            ImportAccounts { asset: asset->0, expense: expense->0 },
        ),
{
    match asset {
        None => Err(CsvImportError::AssetAccountNotConfigured),
        Some(asset) => match expense {
            None => Err(CsvImportError::ExpenseAccountNotConfigured),
            Some(expense) => Ok(ImportAccounts { asset, expense }),
        },
    }
}

/// Refuses an upload that is not declared as CSV.
pub fn require_csv_upload(declared_csv: bool) -> (res: Result<(), CsvImportError>)
    ensures
        declared_csv ==> res is Ok,
        !declared_csv ==> res == Err::<(), CsvImportError>(CsvImportError::NotCsvFile),
{
    if declared_csv {
        Ok(())
    } else {
        Err(CsvImportError::NotCsvFile)
    }
}

/// The header row an inventory CSV file must have.
pub open spec fn expected_csv_headers() -> Seq<Seq<char>> {
    seq!["name"@, "price"@, "stock"@]
}

pub open spec fn field_views(fields: Seq<String>) -> Seq<Seq<char>> {
    fields.map_values(|f: String| f@)
}

/// The fields of the header row of `text` read as CSV (comma-separated, with
/// a header row), or `None` when `text` is not valid CSV.
pub uninterp spec fn csv_header_fields(text: Seq<char>) -> Option<Seq<Seq<char>>>;

/// Reads the header row of `text` with `csv::Reader::from_reader` and
/// `Reader::headers`. The contract claims only that the result is a function
/// of the text: the fields of the header record, or `None` when the reader
/// reports an error.
#[verifier::external_body]
fn read_csv_headers(text: &str) -> (res: Option<Vec<String>>)
    ensures
        match res {
            Some(fields) => csv_header_fields(text@) == Some(field_views(fields@)),
            None => csv_header_fields(text@) is None,
        },
{
    let mut reader = csv::Reader::from_reader(text.as_bytes());
    match reader.headers() {
        Ok(record) => Some(record.iter().map(|field| field.to_string()).collect()),
        Err(_) => None,
    }
}

/// What the header check answers for the header row `headers` (`None` when
/// the text is not valid CSV).
pub open spec fn spec_check_headers(headers: Option<Seq<Seq<char>>>) -> Result<(), CsvImportError> {
    match headers {
        None => Err(CsvImportError::InvalidFormat),
        Some(h) => if h == expected_csv_headers() {
            Ok(())
        } else {
            Err(CsvImportError::InvalidHeaders)
        },
    }
}

/// Accepts an uploaded inventory CSV text only if it is valid CSV whose
/// header row is `name,price,stock`.
pub fn check_csv_headers(text: &str) -> (res: Result<(), CsvImportError>)
    ensures
        res == spec_check_headers(csv_header_fields(text@)),
{
    match read_csv_headers(text) {
        None => Err(CsvImportError::InvalidFormat),
        Some(fields) => check_header_fields(&fields),
    }
}

/// The header check on an already read header row.
pub fn check_header_fields(fields: &Vec<String>) -> (res: Result<(), CsvImportError>)
    ensures
        res == spec_check_headers(Some(field_views(fields@))),
{
    if has_expected_headers(fields) {
        Ok(())
    } else {
        Err(CsvImportError::InvalidHeaders)
    }
}

/// Whether `fields` is exactly the header row `name,price,stock`.
pub fn has_expected_headers(fields: &Vec<String>) -> (res: bool)
    ensures
        res == (field_views(fields@) == expected_csv_headers()),
{
    proof {
        reveal_strlit("name");
        reveal_strlit("price");
        reveal_strlit("stock");
    }
    if fields.len() != 3 {
        proof {
            assert(field_views(fields@).len() != expected_csv_headers().len());
        }
        return false;
    }
    let name = String::from_str("name");
    let price = String::from_str("price");
    let stock = String::from_str("stock");
    let res = fields[0] == name && fields[1] == price && fields[2] == stock;
    proof {
        if res {
            assert(field_views(fields@) =~= expected_csv_headers());
        } else {
            assert(field_views(fields@)[0] == fields@[0]@);
            assert(field_views(fields@)[1] == fields@[1]@);
            assert(field_views(fields@)[2] == fields@[2]@);
        }
    }
    res
}

/// A transaction that books a group of stock adjustments.
#[derive(Debug)]
pub struct StockTransaction {
    pub description: String,
    pub debited_account: i32,
    pub credited_account: i32,
    pub amount: i32,
    pub adjustments: Vec<StockAdjustment>,
}

/// The mathematical content of a `StockTransaction`.
pub struct StockTransactionView {
    pub description: Seq<char>,
    pub debited_account: i32,
    pub credited_account: i32,
    pub amount: int,
    pub adjustments: Seq<StockAdjustment>,
}

impl View for StockTransaction {
    type V = StockTransactionView;

    open spec fn view(&self) -> StockTransactionView {
        StockTransactionView {
            description: self.description@,
            debited_account: self.debited_account,
            credited_account: self.credited_account,
            amount: self.amount as int,
            adjustments: self.adjustments@,
        }
    }
}

pub open spec fn transaction_views(s: Seq<StockTransaction>) -> Seq<StockTransactionView> {
    s.map_values(|t: StockTransaction| t@)
}

/// Whether the worth of both groups of `adjustments` can be summed without
/// overflow.
pub open spec fn transactions_fit(adjustments: Seq<StockAdjustment>) -> bool {
    cost_fits(increases(adjustments)) && cost_fits(reductions(adjustments))
}

/// The transactions that book `adjustments`: one for the increases, debited
/// to the expense account and credited to the asset account, then one for
/// the rest the other way round, described by `decrease_description` when
/// there is one; a group without adjustments gets no transaction.
pub open spec fn spec_stock_transactions(
    adjustments: Seq<StockAdjustment>,
    accounts: ImportAccounts,
    description: Seq<char>,
    decrease_description: Option<Seq<char>>,
) -> Seq<StockTransactionView> {
    let inc = increases(adjustments);
    let red = reductions(adjustments);
    let first = if inc.len() > 0 {
        seq![
            StockTransactionView {
                description,
                debited_account: accounts.expense,
                credited_account: accounts.asset,
                amount: total_cost(inc),
                adjustments: inc,
            },
        ]
    } else {
        Seq::empty()
    };
    let second = if red.len() > 0 {
        seq![
            StockTransactionView {
                description: match decrease_description {
                    Some(d) => d,
                    None => description,
                },
                debited_account: accounts.asset,
                credited_account: accounts.expense,
                amount: total_cost(red),
                adjustments: red,
            },
        ]
    } else {
        Seq::empty()
    };
    first + second
}

pub open spec fn option_str_view(s: Option<&str>) -> Option<Seq<char>> {
    match s {
        Some(d) => Some(d@),
        None => None,
    }
}

/// Whether `x` can be added to a group whose worth is `total` without any
/// overflow.
pub open spec fn next_cost_fits(total: int, x: StockAdjustment) -> bool {
    &&& (x.price is Some ==> x.change != i32::MIN)
    &&& i32::MIN <= adjustment_cost(x) <= i32::MAX
    &&& i32::MIN <= total + adjustment_cost(x) <= i32::MAX
}

proof fn lemma_cost_fits_push(t: Seq<StockAdjustment>, x: StockAdjustment)
    ensures
        cost_fits(t.push(x)) == (cost_fits(t) && next_cost_fits(total_cost(t), x)),
        total_cost(t.push(x)) == total_cost(t) + adjustment_cost(x),
{
    let u = t.push(x);
    assert(u.drop_last() =~= t);
    assert(u.take(u.len() as int) =~= u);
    assert forall|k: int| 0 <= k < t.len() implies #[trigger] u.take(k + 1) == t.take(k + 1) by {
        assert(u.take(k + 1) =~= t.take(k + 1));
    }
    if cost_fits(u) {
        assert forall|k: int| 0 <= k < t.len() implies {
            &&& (#[trigger] t[k]).price is Some ==> t[k].change != i32::MIN
            &&& i32::MIN <= adjustment_cost(t[k]) <= i32::MAX
            &&& i32::MIN <= total_cost(t.take(k + 1)) <= i32::MAX
        } by {
            assert(u[k] == t[k]);
        }
        assert(u[t.len() as int] == x);
    }
    if cost_fits(t) && next_cost_fits(total_cost(t), x) {
        assert forall|k: int| 0 <= k < u.len() implies {
            &&& (#[trigger] u[k]).price is Some ==> u[k].change != i32::MIN
            &&& i32::MIN <= adjustment_cost(u[k]) <= i32::MAX
            &&& i32::MIN <= total_cost(u.take(k + 1)) <= i32::MAX
        } by {
            if k < t.len() {
                assert(u[k] == t[k]);
            }
        }
    }
}

/// The worth of one adjustment, or `None` when computing it overflows.
fn checked_cost(a: &StockAdjustment) -> (res: Option<i32>)
    ensures
        res is Some <==> ((a.price is Some ==> a.change != i32::MIN) && i32::MIN <= adjustment_cost(*a) <= i32::MAX),
        res is Some ==> res->0 == adjustment_cost(*a),
{
    match a.price {
        None => Some(0),
        Some(p) => {
            if a.change == i32::MIN {
                return None;
            }
            let count: i32 = if a.change < 0 { -a.change } else { a.change };
            assert(i64::MIN <= (p as int) * (count as int) <= i64::MAX) by (nonlinear_arith)
                requires
                    i32::MIN <= p <= i32::MAX,
                    0 <= count <= i32::MAX,
            {
            }
            let wide: i64 = (p as i64) * (count as i64);
            if wide < i32::MIN as i64 || wide > i32::MAX as i64 {
                None
            } else {
                Some(wide as i32)
            }
        },
    }
}

/// Whether both groups of `adjustments` can be booked without overflow,
/// that is, whether `plan_stock_transactions` may be called on them.
pub fn amounts_fit(adjustments: &Vec<StockAdjustment>) -> (res: bool)
    ensures
        res == transactions_fit(adjustments@),
{
    let ghost all = adjustments@;
    let mut inc_total: i32 = 0;
    let mut red_total: i32 = 0;
    let mut inc_ok = true;
    let mut red_ok = true;
    let mut i: usize = 0;
    proof {
        reveal_with_fuel(Seq::filter, 1);
        assert(all.take(0) =~= Seq::<StockAdjustment>::empty());
    }
    while i < adjustments.len()
        invariant
            all == adjustments@,
            i <= all.len(),
            inc_ok == cost_fits(increases(all.take(i as int))),
            red_ok == cost_fits(reductions(all.take(i as int))),
            inc_ok ==> inc_total == total_cost(increases(all.take(i as int))),
            red_ok ==> red_total == total_cost(reductions(all.take(i as int))),
        decreases all.len() - i,
    {
        let a = &adjustments[i];
        proof {
            lemma_filter_take_step(all, i as int);
            lemma_cost_fits_push(increases(all.take(i as int)), all[i as int]);
            lemma_cost_fits_push(reductions(all.take(i as int)), all[i as int]);
        }
        if a.change > 0 {
            if inc_ok {
                match checked_cost(a) {
                    Some(c) => {
                        let t: i64 = inc_total as i64 + c as i64;
                        if t < i32::MIN as i64 || t > i32::MAX as i64 {
                            inc_ok = false;
                        } else {
                            inc_total = t as i32;
                        }
                    },
                    None => {
                        inc_ok = false;
                    },
                }
            }
        } else {
            if red_ok {
                match checked_cost(a) {
                    Some(c) => {
                        let t: i64 = red_total as i64 + c as i64;
                        if t < i32::MIN as i64 || t > i32::MAX as i64 {
                            red_ok = false;
                        } else {
                            red_total = t as i32;
                        }
                    },
                    None => {
                        red_ok = false;
                    },
                }
            }
        }
        i = i + 1;
    }
    proof {
        assert(all.take(all.len() as int) =~= all);
    }
    inc_ok && red_ok
}

/// Groups the stock changes of an import into the transactions that book them.
pub fn plan_stock_transactions(
    adjustments: Vec<StockAdjustment>,
    accounts: ImportAccounts,
    description: &str,
    decrease_description: Option<&str>,
) -> (res: Vec<StockTransaction>)
    requires
        transactions_fit(adjustments@),
    ensures
        transaction_views(res@) == spec_stock_transactions(
            adjustments@,
            accounts,
            description@,
            option_str_view(decrease_description),
        ),
{
    let ghost all = adjustments@;
    let (inc, red) = split_by_direction(adjustments);
    let mut res: Vec<StockTransaction> = Vec::new();
    if inc.len() > 0 {
        let amount = total_amount(&inc);
        res.push(
            StockTransaction {
                description: String::from_str(description),
                debited_account: accounts.expense,
                credited_account: accounts.asset,
                amount,
                adjustments: inc,
            },
        );
    }
    let ghost after_first = res@;
    if red.len() > 0 {
        let amount = total_amount(&red);
        let text = match decrease_description {
            Some(d) => String::from_str(d),
            None => String::from_str(description),
        };
        res.push(
            StockTransaction {
                description: text,
                debited_account: accounts.asset,
                credited_account: accounts.expense,
                amount,
                adjustments: red,
            },
        );
    }
    proof {
        let spec = spec_stock_transactions(all, accounts, description@, option_str_view(decrease_description));
        assert(transaction_views(res@) =~= spec);
    }
    res
}

/// Importing a row brings the item's stock to the row's stock: the booked
/// change added to the stock before the import gives the stock in the file.
pub proof fn lemma_import_reaches_file_stock(
    item: CsvImportItem,
    existing: Option<StockedItem>,
    item_id: i32,
)
    requires
        i32::MIN <= item.stock - spec_plan_item_import(item, existing).current_stock <= i32::MAX,
    ensures
        ({
            let before = spec_plan_item_import(item, existing).current_stock;
            match spec_stock_adjustment(item, item_id, before) {
                Some(a) => before + a.change == item.stock && a.change != 0,
                None => before == item.stock,
            }
        }),
{
}

/// The adjustments booked for `rows`, row `i` having matched the stored item
/// `stored[i]` (or none) and been stored under the id `ids[i]`.
pub open spec fn booked_adjustments(
    rows: Seq<CsvImportItem>,
    stored: Seq<Option<StockedItem>>,
    ids: Seq<i32>,
) -> Seq<StockAdjustment>
    decreases rows.len(),
{
    if rows.len() == 0 {
        Seq::empty()
    } else {
        let i = rows.len() - 1;
        booked_adjustments(rows.drop_last(), stored, ids) + option_seq(
            spec_stock_adjustment(rows[i], ids[i], spec_plan_item_import(rows[i], stored[i]).current_stock),
        )
    }
}

/// Whether the stored item already has the row's stock, and the row's price
/// whenever the row has one.
pub open spec fn row_is_current(row: CsvImportItem, stored: Option<StockedItem>) -> bool {
    match stored {
        Some(item) => item.stock == row.stock && (row.price is None || row.price == item.price),
        None => false,
    }
}

/// A row whose item is already at the row's stock and price changes nothing:
/// no price update and no stock adjustment.
pub proof fn lemma_current_row_changes_nothing(row: CsvImportItem, stored: Option<StockedItem>, item_id: i32)
    requires
        row_is_current(row, stored),
    ensures
        spec_plan_item_import(row, stored).set_price is None,
        spec_plan_item_import(row, stored).existing_id == Some(stored->0.id),
        spec_stock_adjustment(row, item_id, spec_plan_item_import(row, stored).current_stock) is None,
{
}

/// Importing a file again books nothing: when every row's item is already at
/// the row's stock and price (as after importing the same file), no price is
/// updated, no item is inserted, no adjustment is booked and no transaction
/// is planned.
pub proof fn lemma_reimport_books_nothing(
    rows: Seq<CsvImportItem>,
    stored: Seq<Option<StockedItem>>,
    ids: Seq<i32>,
    accounts: ImportAccounts,
    description: Seq<char>,
    decrease_description: Option<Seq<char>>,
)
    requires
        stored.len() >= rows.len(),
        ids.len() >= rows.len(),
        forall|i: int| 0 <= i < rows.len() ==> row_is_current(#[trigger] rows[i], stored[i]),
    ensures
        forall|i: int|
            0 <= i < rows.len() ==> (#[trigger] spec_plan_item_import(rows[i], stored[i])).set_price is None
                && spec_plan_item_import(rows[i], stored[i]).existing_id is Some,
        booked_adjustments(rows, stored, ids) == Seq::<StockAdjustment>::empty(),
        spec_stock_transactions(booked_adjustments(rows, stored, ids), accounts, description, decrease_description)
            == Seq::<StockTransactionView>::empty(),
    decreases rows.len(),
{
    if rows.len() > 0 {
        let i = rows.len() - 1;
        assert(row_is_current(rows[i], stored[i]));
        assert forall|j: int| 0 <= j < rows.drop_last().len() implies row_is_current(#[trigger] rows.drop_last()[j], stored[j]) by {
            assert(rows.drop_last()[j] == rows[j]);
        }
        lemma_reimport_books_nothing(rows.drop_last(), stored, ids, accounts, description, decrease_description);
        assert(booked_adjustments(rows, stored, ids) =~= Seq::<StockAdjustment>::empty());
    }
    let none = booked_adjustments(rows, stored, ids);
    lemma_transactions_opposite(none, accounts, description, decrease_description);
    assert(spec_stock_transactions(none, accounts, description, decrease_description) =~= Seq::<StockTransactionView>::empty());
}

/// The stored item after importing `row` into `stored` (or into a new item)
/// stored under `item_id`: the planned price update or the inserted price,
/// and the stock before the import plus the booked change.
pub open spec fn after_import(row: CsvImportItem, stored: Option<StockedItem>, item_id: i32) -> StockedItem {
    let plan = spec_plan_item_import(row, stored);
    StockedItem {
        id: item_id,
        price: match plan.insert {
            Some(new_item) => new_item.price,
            None => match plan.set_price {
                Some(p) => Some(p),
                None => stored->0.price,
            },
        },
        stock: match spec_stock_adjustment(row, item_id, plan.current_stock) {
            Some(a) => (plan.current_stock + a.change) as i32,
            None => plan.current_stock,
        },
    }
}

/// Importing a row leaves its item current: at the row's stock, and at the
/// row's price whenever the row has one. An empty price never clears a
/// stored price.
pub proof fn lemma_import_leaves_row_current(row: CsvImportItem, stored: Option<StockedItem>, item_id: i32)
    requires
        i32::MIN <= row.stock - spec_plan_item_import(row, stored).current_stock <= i32::MAX,
    ensures
        row_is_current(row, Some(after_import(row, stored, item_id))),
        stored is Some && row.price is None ==> after_import(row, stored, item_id).price == stored->0.price,
{
}

/// Importing the same file a second time books nothing: when each row again
/// matches the item it was imported into the first time, no price is
/// updated, no item is inserted, no adjustment is booked and no transaction
/// is planned.
pub proof fn lemma_second_import_books_nothing(
    rows: Seq<CsvImportItem>,
    stored: Seq<Option<StockedItem>>,
    ids: Seq<i32>,
    accounts: ImportAccounts,
    description: Seq<char>,
    decrease_description: Option<Seq<char>>,
)
    requires
        stored.len() == rows.len(),
        ids.len() == rows.len(),
        forall|i: int|
            0 <= i < rows.len() ==> i32::MIN <= (#[trigger] rows[i]).stock - spec_plan_item_import(
                rows[i],
                stored[i],
            ).current_stock <= i32::MAX,
    ensures
        ({
            let again = Seq::new(rows.len(), |i: int| Some(after_import(rows[i], stored[i], ids[i])));
            &&& forall|i: int|
                0 <= i < rows.len() ==> (#[trigger] spec_plan_item_import(rows[i], again[i])).set_price is None
                    && spec_plan_item_import(rows[i], again[i]).insert is None
            &&& booked_adjustments(rows, again, ids) == Seq::<StockAdjustment>::empty()
            &&& spec_stock_transactions(booked_adjustments(rows, again, ids), accounts, description, decrease_description)
                == Seq::<StockTransactionView>::empty()
        }),
{
    let again = Seq::new(rows.len(), |i: int| Some(after_import(rows[i], stored[i], ids[i])));
    assert forall|i: int| 0 <= i < rows.len() implies row_is_current(#[trigger] rows[i], again[i]) by {
        lemma_import_leaves_row_current(rows[i], stored[i], ids[i]);
    }
    lemma_reimport_books_nothing(rows, again, ids, accounts, description, decrease_description);
}

/// The CSV row that exporting the stored item `item` named `name` gives.
pub open spec fn exported_row(name: String, item: StockedItem) -> CsvImportItem {
    CsvImportItem { name, price: item.price, stock: item.stock }
}

/// Importing the rows of an export books nothing: each exported row is
/// current for the item it was exported from.
pub proof fn lemma_export_then_import_books_nothing(
    names: Seq<String>,
    items: Seq<StockedItem>,
    accounts: ImportAccounts,
    description: Seq<char>,
    decrease_description: Option<Seq<char>>,
)
    requires
        names.len() == items.len(),
    ensures
        ({
            let rows = Seq::new(items.len(), |i: int| exported_row(names[i], items[i]));
            let stored = Seq::new(items.len(), |i: int| Some(items[i]));
            let ids = Seq::new(items.len(), |i: int| items[i].id);
            &&& forall|i: int|
                0 <= i < rows.len() ==> (#[trigger] spec_plan_item_import(rows[i], stored[i])).set_price is None
                    && spec_plan_item_import(rows[i], stored[i]).existing_id == Some(items[i].id)
            &&& booked_adjustments(rows, stored, ids) == Seq::<StockAdjustment>::empty()
            &&& spec_stock_transactions(booked_adjustments(rows, stored, ids), accounts, description, decrease_description)
                == Seq::<StockTransactionView>::empty()
        }),
{
    let rows = Seq::new(items.len(), |i: int| exported_row(names[i], items[i]));
    let stored = Seq::new(items.len(), |i: int| Some(items[i]));
    let ids = Seq::new(items.len(), |i: int| items[i].id);
    assert forall|i: int| 0 <= i < rows.len() implies row_is_current(#[trigger] rows[i], stored[i]) by {}
    lemma_reimport_books_nothing(rows, stored, ids, accounts, description, decrease_description);
}

/// Every adjustment is booked in exactly one of the two groups: increases
/// only hold additions, the other group only removals, and together they
/// hold as many adjustments as there are.
pub proof fn lemma_groups_split_adjustments(s: Seq<StockAdjustment>)
    ensures
        increases(s).len() + reductions(s).len() == s.len(),
        forall|i: int| 0 <= i < increases(s).len() ==> #[trigger] increases(s)[i].change > 0,
        forall|i: int| 0 <= i < reductions(s).len() ==> #[trigger] reductions(s)[i].change <= 0,
        forall|i: int| 0 <= i < s.len() && s[i].change > 0 ==> #[trigger] increases(s).contains(s[i]),
        forall|i: int| 0 <= i < s.len() && s[i].change <= 0 ==> #[trigger] reductions(s).contains(s[i]),
    decreases s.len(),
{
    broadcast use vstd::seq_lib::group_filter_ensures;

    reveal_with_fuel(Seq::filter, 1);
    if s.len() > 0 {
        lemma_groups_split_adjustments(s.drop_last());
    }
    assert forall|i: int| 0 <= i < increases(s).len() implies #[trigger] increases(s)[i].change > 0 by {
        s.lemma_filter_pred(|a: StockAdjustment| is_increase(a), i);
    }
    assert forall|i: int| 0 <= i < reductions(s).len() implies #[trigger] reductions(s)[i].change <= 0 by {
        s.lemma_filter_pred(|a: StockAdjustment| is_reduction(a), i);
    }
    assert forall|i: int| 0 <= i < s.len() && s[i].change > 0 implies #[trigger] increases(s).contains(s[i]) by {
        s.lemma_filter_contains(|a: StockAdjustment| is_increase(a), i);
    }
    assert forall|i: int| 0 <= i < s.len() && s[i].change <= 0 implies #[trigger] reductions(s).contains(s[i]) by {
        s.lemma_filter_contains(|a: StockAdjustment| is_reduction(a), i);
    }
}

/// The transactions of an import book stock in opposite directions between
/// the same two accounts, and there is at most one of each kind.
pub proof fn lemma_transactions_opposite(
    adjustments: Seq<StockAdjustment>,
    accounts: ImportAccounts,
    description: Seq<char>,
    decrease_description: Option<Seq<char>>,
)
    ensures
        ({
            let t = spec_stock_transactions(adjustments, accounts, description, decrease_description);
            &&& t.len() <= 2
            &&& adjustments.len() == 0 ==> t.len() == 0
            &&& forall|i: int| 0 <= i < t.len() ==> {
                ||| (#[trigger] t[i]).debited_account == accounts.expense && t[i].credited_account == accounts.asset
                ||| t[i].debited_account == accounts.asset && t[i].credited_account == accounts.expense
            }
        }),
{
    lemma_groups_split_adjustments(adjustments);
}

/// A row matched to a stored item starts from the stored stock, and the
/// change booked for it is the row's stock minus the stored stock, in either
/// direction; a row without a stored item starts from no stock and is
/// inserted under its own name and price.
pub proof fn lemma_plan_starts_from_stored_stock(row: CsvImportItem, existing: Option<StockedItem>, item_id: i32)
    requires
        i32::MIN <= row.stock - (if existing is Some { existing->0.stock as int } else { 0 }) <= i32::MAX,
    ensures
        ({
            let plan = spec_plan_item_import(row, existing);
            let before: int = match existing {
                Some(item) => item.stock as int,
                None => 0,
            };
            &&& plan.current_stock == before
            &&& match existing {
                Some(item) => plan.existing_id == Some(item.id) && plan.insert is None,
                None => plan.existing_id is None && plan.insert == Some(
                    NewStockItem { name: row.name, price: row.price },
                ),
            }
            &&& row.stock == before ==> spec_stock_adjustment(row, item_id, plan.current_stock) is None
            &&& row.stock != before ==> {
                &&& spec_stock_adjustment(row, item_id, plan.current_stock) is Some
                &&& spec_stock_adjustment(row, item_id, plan.current_stock)->0.change == row.stock - before
            }
        }),
{
}

/// A stored price changes only to the row's price, and only when the row has
/// a price that differs from it; a new item is never given a price update.
pub proof fn lemma_plan_price_update(row: CsvImportItem, existing: Option<StockedItem>)
    ensures
        ({
            let plan = spec_plan_item_import(row, existing);
            &&& plan.set_price is Some ==> plan.set_price == row.price
            &&& existing is None ==> plan.set_price is None
            &&& existing is Some ==> (plan.set_price is Some <==> (row.price is Some && row.price != existing->0.price))
        }),
{
}

/// An adjustment is booked exactly when the stock changes, and whatever the
/// direction of the change it carries the row's item id, name and price and
/// the difference between the row's stock and the stock before; its worth is
/// that price times the number of items moved.
pub proof fn lemma_adjustment_carries_row(item: CsvImportItem, item_id: i32, current_stock: i32)
    requires
        i32::MIN <= item.stock - current_stock <= i32::MAX,
    ensures
        spec_stock_adjustment(item, item_id, current_stock) is Some <==> item.stock != current_stock,
        spec_stock_adjustment(item, item_id, current_stock) is Some ==> {
            let a = spec_stock_adjustment(item, item_id, current_stock)->0;
            &&& a.item_id == item_id
            &&& a.name == item.name
            &&& a.price == item.price
            &&& a.change == item.stock - current_stock
            &&& adjustment_cost(a) == match item.price {
                Some(p) => if item.stock < current_stock {
                    p * (current_stock - item.stock)
                } else {
                    p * (item.stock - current_stock)
                },
                None => 0,
            }
        },
{
}

/// The worth of a group is additive, and one adjustment is worth its price
/// times the number of items it moves, whichever way.
pub proof fn lemma_total_cost_sums_moved_worth(a: Seq<StockAdjustment>, b: Seq<StockAdjustment>, x: StockAdjustment)
    ensures
        total_cost(a + b) == total_cost(a) + total_cost(b),
        total_cost(seq![x]) == match x.price {
            Some(p) => if x.change < 0 {
                p * (-x.change)
            } else {
                p * x.change
            },
            None => 0,
        },
    decreases b.len(),
{
    if b.len() == 0 {
        assert(a + b =~= a);
    } else {
        lemma_total_cost_sums_moved_worth(a, b.drop_last(), x);
        assert((a + b).drop_last() =~= a + b.drop_last());
        assert((a + b).last() == b.last());
    }
    let one = seq![x];
    assert(one.drop_last() =~= Seq::<StockAdjustment>::empty());
    assert(one.last() == x);
    assert(total_cost(one.drop_last()) == 0);
    assert(total_cost(one) == adjustment_cost(x));
    if x.change < 0 {
        assert(abs(x.change as int) == -x.change);
    } else {
        assert(abs(x.change as int) == x.change);
    }
}

/// How an import's changes are booked: the increases, if any, in a first
/// transaction under `description`, debited to the expense account and
/// credited to the asset account; the other changes, if any, in a last
/// transaction debited to the asset account and credited to the expense
/// account, under `decrease_description` whenever one is given (whether or not
/// there are increases) and under `description` otherwise; each worth the sum
/// of its adjustments' worth, and nothing else.
pub proof fn lemma_transactions_booking(
    adjustments: Seq<StockAdjustment>,
    accounts: ImportAccounts,
    description: Seq<char>,
    decrease_description: Option<Seq<char>>,
)
    ensures
        ({
            let t = spec_stock_transactions(adjustments, accounts, description, decrease_description);
            let inc = increases(adjustments);
            let red = reductions(adjustments);
            &&& t.len() == (if inc.len() > 0 { 1int } else { 0 }) + (if red.len() > 0 { 1int } else { 0 })
            &&& inc.len() > 0 ==> {
                &&& t[0].description == description
                &&& t[0].debited_account == accounts.expense
                &&& t[0].credited_account == accounts.asset
                &&& t[0].adjustments == inc
                &&& t[0].amount == total_cost(inc)
                &&& forall|k: int| 0 <= k < t[0].adjustments.len() ==> (#[trigger] t[0].adjustments[k]).change > 0
            }
            &&& red.len() > 0 ==> {
                let last = t[t.len() - 1];
                &&& last.description == match decrease_description {
                    Some(dd) => dd,
                    None => description,
                }
                &&& last.debited_account == accounts.asset
                &&& last.credited_account == accounts.expense
                &&& last.adjustments == red
                &&& last.amount == total_cost(red)
                &&& forall|k: int| 0 <= k < last.adjustments.len() ==> (#[trigger] last.adjustments[k]).change <= 0
            }
            &&& inc.len() + red.len() == adjustments.len()
        }),
{
    lemma_groups_split_adjustments(adjustments);
}

/// An upload passes the header check exactly when it is valid CSV whose
/// header row is the three fields `name`, `price`, `stock` in this order; text
/// that is not CSV is refused as badly formatted, other header rows as wrong
/// headers.
pub proof fn lemma_header_check(headers: Option<Seq<Seq<char>>>)
    ensures
        spec_check_headers(headers) is Ok <==> headers == Some(seq!["name"@, "price"@, "stock"@]),
        headers is None ==> spec_check_headers(headers) == Err::<(), CsvImportError>(CsvImportError::InvalidFormat),
        headers is Some && headers != Some(seq!["name"@, "price"@, "stock"@]) ==> spec_check_headers(headers)
            == Err::<(), CsvImportError>(CsvImportError::InvalidHeaders),
{
}

/// A refused upload is answered as the server's fault (500) exactly when an
/// account is not configured or the file could not be read; every other
/// refusal is the upload's fault (400).
pub proof fn lemma_error_blame(e: CsvImportError)
    ensures
        spec_is_server_error(e) <==> (e == CsvImportError::AssetAccountNotConfigured || e
            == CsvImportError::ExpenseAccountNotConfigured || e == CsvImportError::UnreadableFile || e
            == CsvImportError::UnreadableContent),
{
}

} // verus!
