use bookstore_rust::models::{
    Category, Customer, Product, ProductCategory, Sale, SaleCreateForm, SaleHeader,
};
use bookstore_rust::order::{order_by_amount_desc, order_by_text};
use bookstore_rust::sales::QueryError;
use bookstore_rust::seed::{sample_sales, SampleLine};
use bookstore_rust::store::Snapshot;
use bookstore_rust::transactions::{PlannedLine, SaleError, StockReturn};

fn make_book(id: i64, name: &str, price: Option<i32>, stock: i32) -> Product {
    Product {
        id,
        name: name.to_string(),
        description: None,
        price,
        stock,
        published_date: None,
    }
}

fn make_customer(id: i64, name: &str) -> Customer {
    Customer { id, name: name.to_string(), email: None, member_number: None }
}

fn make_line(id: i64, header: i64, product: i64, quantity: i32, price: i32) -> Sale {
    Sale { id, sale_header_id: header, product_id: product, quantity, sale_price: price }
}

/// A small shop: three books, two customers and two recorded sales.
fn shop() -> Snapshot {
    Snapshot {
        categories: vec![Category { id: 1, name: "小説".to_string() }],
        products: vec![
            make_book(1, "Rustプログラミング", Some(3000), 50),
            make_book(2, "実践Rust入門", Some(3500), 30),
            make_book(3, "アクターモデル詳解", Some(2800), 20),
        ],
        product_categories: vec![ProductCategory { product_id: 1, category_id: 1 }],
        customers: vec![make_customer(1, "山田太郎"), make_customer(2, "鈴木花子")],
        headers: vec![
            SaleHeader { id: 1, customer_id: 1, sale_date: "2024-03-15".to_string() },
            SaleHeader { id: 2, customer_id: 2, sale_date: "2024-03-20".to_string() },
        ],
        sales: vec![
            make_line(1, 1, 1, 2, 3000),
            make_line(2, 1, 2, 1, 3500),
            make_line(3, 2, 3, 3, 2800),
        ],
        header_seq: 2,
        sale_seq: 3,
    }
}

/// The six tables of `a` and `b` hold the same rows.
fn same_tables(a: &Snapshot, b: &Snapshot) -> bool {
    a.categories == b.categories
        && a.products == b.products
        && a.product_categories == b.product_categories
        && a.customers == b.customers
        && a.headers == b.headers
        && a.sales == b.sales
}

fn form(customer_id: i64, slots: [(i64, i32); 3]) -> SaleCreateForm {
    SaleCreateForm {
        sale_date: "2024-05-01".to_string(),
        customer_id,
        product_id_1: slots[0].0,
        quantity_1: slots[0].1,
        product_id_2: slots[1].0,
        quantity_2: slots[1].1,
        product_id_3: slots[2].0,
        quantity_3: slots[2].1,
    }
}

fn stock_of(s: &Snapshot, id: i64) -> i32 {
    s.products.iter().find(|p| p.id == id).unwrap().stock
}

#[test]
fn create_sale_records_header_lines_and_stock() {
    let mut s = shop();
    let plan = s.create_sale(&form(1, [(1, 2), (2, 1), (3, 0)])).unwrap();
    assert_eq!(plan.header_id, 3);
    assert_eq!(plan.customer_id, 1);
    assert_eq!(plan.sale_date, "2024-05-01");
    assert_eq!(
        plan.lines,
        vec![
            PlannedLine { product_id: 1, quantity: 2, sale_price: 3000 },
            PlannedLine { product_id: 2, quantity: 1, sale_price: 3500 },
        ]
    );
    assert_eq!(stock_of(&s, 1), 48);
    assert_eq!(stock_of(&s, 2), 29);
    assert_eq!(stock_of(&s, 3), 20);
    assert_eq!(s.headers.len(), 3);
    assert_eq!(s.headers[2], SaleHeader { id: 3, customer_id: 1, sale_date: "2024-05-01".to_string() });
    assert_eq!(s.sales.len(), 5);
    assert_eq!(s.sales[3], make_line(4, 3, 1, 2, 3000));
    assert_eq!(s.sales[4], make_line(5, 3, 2, 1, 3500));
    let d = s.sale_detail(3).unwrap();
    assert_eq!(d.total_amount, 9500);
    assert_eq!(d.items.iter().map(|i| i.subtotal).sum::<i32>(), 9500);
    assert_eq!(s.sale_detail(1), shop().sale_detail(1));
    assert_eq!(s.sale_detail(2), shop().sale_detail(2));
    assert_eq!(d.customer_name, "山田太郎");
    assert!(s.is_well_formed());
}

#[test]
fn create_sale_unknown_customer_changes_nothing() {
    let mut s = shop();
    assert_eq!(s.create_sale(&form(9, [(1, 1), (0, 0), (0, 0)])), Err(SaleError::UnknownCustomer));
    assert_eq!(s, shop());
}

#[test]
fn create_sale_unknown_book_changes_nothing() {
    let mut s = shop();
    assert_eq!(s.create_sale(&form(1, [(1, 1), (42, 1), (0, 0)])), Err(SaleError::UnknownProduct));
    assert_eq!(s, shop());
}

#[test]
fn create_sale_unknown_book_in_unused_slot_is_ignored() {
    let mut s = shop();
    let plan = s.create_sale(&form(1, [(1, 1), (42, 0), (-1, 5)])).unwrap();
    assert_eq!(plan.lines.len(), 1);
    assert_eq!(stock_of(&s, 1), 49);
}

#[test]
fn create_sale_without_used_slots_records_header_only() {
    let mut s = shop();
    let plan = s.create_sale(&form(2, [(0, 3), (2, 0), (0, 0)])).unwrap();
    assert!(plan.lines.is_empty());
    assert_eq!(s.headers.len(), 3);
    assert_eq!(s.sales.len(), 3);
    assert_eq!(s.sale_detail(3).unwrap().total_amount, 0);
}

#[test]
fn create_sale_short_stock_is_refused() {
    let mut s = shop();
    assert_eq!(
        s.create_sale(&form(1, [(1, 1), (3, 25), (0, 0)])),
        Err(SaleError::InsufficientStock)
    );
    assert_eq!(s, shop());
}

#[test]
fn create_sale_exact_stock_goes_to_zero() {
    let mut s = shop();
    let plan = s.create_sale(&form(1, [(3, 20), (0, 0), (0, 0)])).unwrap();
    assert_eq!(plan.lines.len(), 1);
    assert_eq!(stock_of(&s, 3), 0);
}

#[test]
fn create_sale_same_book_twice_checks_stock_left() {
    let mut s = shop();
    assert_eq!(
        s.create_sale(&form(1, [(1, 30), (1, 30), (0, 0)])),
        Err(SaleError::InsufficientStock)
    );
    assert_eq!(s, shop());
    let plan = s.create_sale(&form(1, [(1, 30), (1, 20), (0, 0)])).unwrap();
    assert_eq!(plan.lines.len(), 2);
    assert_eq!(stock_of(&s, 1), 0);
}

#[test]
fn stock_plus_sold_is_kept_by_create_and_delete() {
    fn stock_and_sold(s: &Snapshot, id: i64) -> i64 {
        let sold: i64 = s.sales.iter().filter(|l| l.product_id == id).map(|l| l.quantity as i64).sum();
        stock_of(s, id) as i64 + sold
    }
    let mut s = shop();
    let before: Vec<i64> = (1..=3).map(|id| stock_and_sold(&s, id)).collect();
    let plan = s.create_sale(&form(2, [(1, 5), (3, 20), (1, 1)])).unwrap();
    assert_eq!((1..=3).map(|id| stock_and_sold(&s, id)).collect::<Vec<_>>(), before);
    s.delete_sale(1).unwrap();
    assert_eq!((1..=3).map(|id| stock_and_sold(&s, id)).collect::<Vec<_>>(), before);
    assert!(s.sales.iter().all(|l| l.sale_header_id != 1));
    s.delete_sale(plan.header_id).unwrap();
    assert_eq!((1..=3).map(|id| stock_and_sold(&s, id)).collect::<Vec<_>>(), before);
}

#[test]
fn create_sale_book_without_price_is_sold_at_zero() {
    let mut s = shop();
    s.products.push(make_book(4, "非売品", None, 5));
    let plan = s.create_sale(&form(2, [(4, 2), (0, 0), (0, 0)])).unwrap();
    assert_eq!(plan.lines[0].sale_price, 0);
    assert_eq!(stock_of(&s, 4), 3);
    assert_eq!(s.sale_detail(3).unwrap().total_amount, 0);
}

#[test]
fn create_sale_ids_exhausted() {
    let mut s = shop();
    s.headers.push(SaleHeader { id: i64::MAX, customer_id: 1, sale_date: "2024-04-01".to_string() });
    s.header_seq = i64::MAX;
    let before = s.headers.len();
    assert_eq!(s.create_sale(&form(1, [(1, 1), (0, 0), (0, 0)])), Err(SaleError::IdsExhausted));
    assert_eq!(s.headers.len(), before);
    assert_eq!(stock_of(&s, 1), 50);
}

#[test]
fn create_sale_takes_ids_after_the_largest() {
    let mut s = shop();
    s.headers[1].id = 10;
    s.sales[2] = make_line(7, 10, 3, 3, 2800);
    let plan = s.create_sale(&form(2, [(2, 1), (3, 1), (0, 0)])).unwrap();
    assert_eq!(plan.header_id, 11);
    assert_eq!(s.sales[3].id, 8);
    assert_eq!(s.sales[4].id, 9);
}

#[test]
fn delete_sale_returns_stock_and_removes_rows() {
    let mut s = shop();
    let returns = s.delete_sale(1).unwrap();
    assert_eq!(
        returns,
        vec![
            StockReturn { product_id: 1, quantity: 2 },
            StockReturn { product_id: 2, quantity: 1 },
        ]
    );
    assert_eq!(stock_of(&s, 1), 52);
    assert_eq!(stock_of(&s, 2), 31);
    assert_eq!(stock_of(&s, 3), 20);
    assert_eq!(s.headers.len(), 1);
    assert_eq!(s.sales, vec![make_line(3, 2, 3, 3, 2800)]);
    assert_eq!(s.sale_detail(1), Err(QueryError::NotFound));
    assert!(s.is_well_formed());
}

#[test]
fn delete_missing_sale_changes_nothing() {
    let mut s = shop();
    assert_eq!(s.delete_sale(99), Ok(vec![]));
    assert_eq!(s, shop());
}

#[test]
fn delete_sale_stock_out_of_range_changes_nothing() {
    let mut s = shop();
    s.products[1].stock = i32::MAX;
    let before_stock = stock_of(&s, 2);
    assert_eq!(s.delete_sale(1), Err(SaleError::StockOutOfRange));
    assert_eq!(stock_of(&s, 2), before_stock);
    assert_eq!(stock_of(&s, 1), 50);
    assert_eq!(s.headers.len(), 2);
    assert_eq!(s.sales.len(), 3);
}

#[test]
fn delete_undoes_create_on_concrete_store() {
    let mut s = shop();
    let plan = s.create_sale(&form(2, [(1, 4), (3, 2), (2, 1)])).unwrap();
    assert_ne!(s, shop());
    let returns = s.delete_sale(plan.header_id).unwrap();
    assert_eq!(returns.len(), 3);
    assert!(same_tables(&s, &shop()));
    assert_eq!((s.header_seq, s.sale_seq), (3, 6));
}

#[test]
fn create_sale_never_reuses_a_deleted_id() {
    let mut s = shop();
    s.delete_sale(2).unwrap();
    let plan = s.create_sale(&form(1, [(1, 1), (0, 0), (0, 0)])).unwrap();
    assert_eq!(plan.header_id, 3);
    assert_eq!(s.sales[2].id, 4);
    assert_eq!((s.header_seq, s.sale_seq), (3, 4));
}

#[test]
fn create_sale_without_lines_keeps_line_counter() {
    let mut s = shop();
    s.create_sale(&form(1, [(0, 0), (0, 0), (0, 0)])).unwrap();
    assert_eq!((s.header_seq, s.sale_seq), (3, 3));
}

#[test]
fn sample_sales_need_five_customers_and_ten_books() {
    let customers: Vec<i64> = (1..=5).collect();
    let books: Vec<i64> = (1..=10).collect();
    assert_eq!(sample_sales(&customers[..4].to_vec(), &books), None);
    assert_eq!(sample_sales(&customers, &books[..9].to_vec()), None);
    assert!(sample_sales(&customers, &books).is_some());
}

#[test]
fn sample_sales_follow_the_given_ids() {
    let customers = vec![10, 20, 30, 40, 50];
    let books: Vec<i64> = (101..=110).collect();
    let v = sample_sales(&customers, &books).unwrap();
    assert_eq!(v.len(), 7);
    assert_eq!(v[0].customer_id, 10);
    assert_eq!(v[0].sale_date, "2024-03-15");
    assert_eq!(
        v[0].lines,
        vec![
            SampleLine { product_id: 101, quantity: 2, sale_price: 3000 },
            SampleLine { product_id: 102, quantity: 1, sale_price: 3500 },
        ]
    );
    assert_eq!(v[6].customer_id, 20);
    assert_eq!(v[6].sale_date, "2024-04-25");
    assert_eq!(
        v[6].lines,
        vec![
            SampleLine { product_id: 102, quantity: 2, sale_price: 3500 },
            SampleLine { product_id: 103, quantity: 2, sale_price: 2800 },
            SampleLine { product_id: 107, quantity: 1, sale_price: 3800 },
        ]
    );
    let total: i64 = v
        .iter()
        .flat_map(|s| s.lines.iter())
        .map(|l| l.quantity as i64 * l.sale_price as i64)
        .sum();
    assert_eq!(total, 73600);
    let lines: usize = v.iter().map(|s| s.lines.len()).sum();
    assert_eq!(lines, 14);
}

#[test]
fn amount_order_is_descending_and_stable() {
    assert_eq!(order_by_amount_desc(&vec![5, 9, 5, 1, 9]), vec![1, 4, 0, 2, 3]);
    assert_eq!(order_by_amount_desc(&vec![]), Vec::<usize>::new());
    assert_eq!(order_by_amount_desc(&vec![-3, 0]), vec![1, 0]);
}

#[test]
fn text_order_both_directions_and_stable() {
    let keys: Vec<String> = ["b", "a", "c", "a"].iter().map(|k| k.to_string()).collect();
    assert_eq!(order_by_text(&keys, false), vec![1, 3, 0, 2]);
    assert_eq!(order_by_text(&keys, true), vec![2, 0, 1, 3]);
    let dates: Vec<String> =
        ["2024-04-01", "2024-03-20", "2024-04-25"].iter().map(|k| k.to_string()).collect();
    assert_eq!(order_by_text(&dates, true), vec![2, 0, 1]);
}

#[test]
fn sale_list_same_date_in_table_order() {
    let mut s = shop();
    s.headers[1].sale_date = "2024-03-15".to_string();
    let ids: Vec<i64> = s.sale_list().unwrap().iter().map(|d| d.id).collect();
    assert_eq!(ids, vec![1, 2]);
}
