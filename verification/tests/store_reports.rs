use bookstore_rust::models::{
    Category, Customer, Product, ProductCategory, Sale, SaleHeader,
};
use bookstore_rust::sales::QueryError;
use bookstore_rust::store::Snapshot;

fn cat(id: i64, name: &str) -> Category {
    Category { id, name: name.to_string() }
}

fn book(id: i64, name: &str, description: &str, price: i32, stock: i32, date: &str) -> Product {
    Product {
        id,
        name: name.to_string(),
        description: Some(description.to_string()),
        price: Some(price),
        stock,
        published_date: Some(date.to_string()),
    }
}

fn person(id: i64, name: &str, email: &str, number: &str) -> Customer {
    Customer {
        id,
        name: name.to_string(),
        email: Some(email.to_string()),
        member_number: Some(number.to_string()),
    }
}

fn header(id: i64, customer_id: i64, date: &str) -> SaleHeader {
    SaleHeader { id, customer_id, sale_date: date.to_string() }
}

fn line(id: i64, header: i64, product: i64, quantity: i32, price: i32) -> Sale {
    Sale { id, sale_header_id: header, product_id: product, quantity, sale_price: price }
}

/// The store as the program fills it on its first start.
fn seeded_store() -> Snapshot {
    let categories = vec![
        cat(1, "小説"),
        cat(2, "ビジネス書"),
        cat(3, "コミック"),
        cat(4, "雑誌"),
        cat(5, "教育・参考書"),
    ];
    let products = vec![
        book(1, "Rustプログラミング", "Rust言語の入門書", 3000, 50, "2024-01-15"),
        book(2, "実践Rust入門", "Rustの実践的な使い方", 3500, 30, "2024-02-20"),
        book(3, "アクターモデル詳解", "並行処理の基礎", 2800, 20, "2024-03-10"),
        book(4, "Webアプリ開発", "Actix Webで作るWebアプリ", 3200, 40, "2024-04-01"),
        book(5, "データベース設計", "SQLと設計の基礎", 2500, 60, "2024-01-25"),
        book(6, "アルゴリズム図鑑", "図解で学ぶアルゴリズム", 2700, 45, "2024-02-15"),
        book(7, "デザインパターン", "GoFパターンをRustで", 3800, 25, "2024-03-25"),
        book(8, "テスト駆動開発", "TDDの実践", 2900, 35, "2024-04-10"),
        book(9, "リファクタリング", "コード改善の技法", 3300, 28, "2024-01-30"),
        book(10, "クリーンアーキテクチャ", "ソフトウェア構造設計", 4200, 22, "2024-03-05"),
    ];
    let links = vec![(1, 5), (2, 5), (3, 5), (4, 5), (5, 5), (6, 5), (7, 2), (8, 2), (9, 2), (10, 2)]
        .into_iter()
        .map(|(p, c)| ProductCategory { product_id: p, category_id: c })
        .collect();
    let customers = vec![
        person(1, "山田太郎", "yamada@example.com", "M001"),
        person(2, "鈴木花子", "suzuki@example.com", "M002"),
        person(3, "佐藤次郎", "sato@example.com", "M003"),
        person(4, "田中美咲", "tanaka@example.com", "M004"),
        person(5, "伊藤健太", "ito@example.com", "M005"),
    ];
    let headers = vec![
        header(1, 1, "2024-03-15"),
        header(2, 2, "2024-03-20"),
        header(3, 3, "2024-04-01"),
        header(4, 4, "2024-04-10"),
        header(5, 5, "2024-04-15"),
        header(6, 1, "2024-04-20"),
        header(7, 2, "2024-04-25"),
    ];
    let sales = vec![
        line(1, 1, 1, 2, 3000),
        line(2, 1, 2, 1, 3500),
        line(3, 2, 3, 3, 2800),
        line(4, 3, 4, 2, 3200),
        line(5, 3, 5, 1, 2500),
        line(6, 3, 6, 1, 2700),
        line(7, 4, 7, 3, 3800),
        line(8, 4, 8, 2, 2900),
        line(9, 5, 9, 1, 3300),
        line(10, 5, 10, 1, 4200),
        line(11, 6, 1, 1, 3000),
        line(12, 7, 2, 2, 3500),
        line(13, 7, 3, 2, 2800),
        line(14, 7, 7, 1, 3800),
    ];
    Snapshot {
        categories,
        products,
        product_categories: links,
        customers,
        headers,
        sales,
        header_seq: 7,
        sale_seq: 14,
    }
}

#[test]
fn seeded_store_is_well_formed() {
    assert!(seeded_store().is_well_formed());
}

#[test]
fn dangling_line_is_not_well_formed() {
    let mut s = seeded_store();
    s.sales.push(line(15, 99, 1, 1, 3000));
    assert!(!s.is_well_formed());
    let mut s = seeded_store();
    s.sales.push(line(15, 1, 99, 1, 3000));
    assert!(!s.is_well_formed());
}

#[test]
fn duplicate_ids_are_not_well_formed() {
    let mut s = seeded_store();
    s.customers.push(person(1, "重複", "x@example.com", "M999"));
    assert!(!s.is_well_formed());
    let mut s = seeded_store();
    s.categories.push(cat(6, "小説"));
    assert!(!s.is_well_formed());
    let mut s = seeded_store();
    s.product_categories.push(ProductCategory { product_id: 1, category_id: 5 });
    assert!(!s.is_well_formed());
}

#[test]
fn header_without_customer_is_not_well_formed() {
    let mut s = seeded_store();
    s.headers.push(header(8, 42, "2024-05-01"));
    assert!(!s.is_well_formed());
}

#[test]
fn sale_detail_of_first_sale() {
    let s = seeded_store();
    let d = s.sale_detail(1).unwrap();
    assert_eq!(d.id, 1);
    assert_eq!(d.customer_id, 1);
    assert_eq!(d.customer_name, "山田太郎");
    assert_eq!(d.sale_date, "2024-03-15");
    assert_eq!(d.items.len(), 2);
    assert_eq!(d.items[0].product_name, "Rustプログラミング");
    assert_eq!(d.items[0].quantity, 2);
    assert_eq!(d.items[0].sale_price, 3000);
    assert_eq!(d.items[0].subtotal, 6000);
    assert_eq!(d.items[1].product_name, "実践Rust入門");
    assert_eq!(d.items[1].subtotal, 3500);
    assert_eq!(d.total_amount, 9500);
}

#[test]
fn sale_detail_totals_match_the_sample_comments() {
    let s = seeded_store();
    let totals: Vec<i32> = (1..=7).map(|id| s.sale_detail(id).unwrap().total_amount).collect();
    assert_eq!(totals, vec![9500, 8400, 11600, 17200, 7500, 3000, 16400]);
}

#[test]
fn sale_detail_of_missing_sale() {
    assert_eq!(seeded_store().sale_detail(99), Err(QueryError::NotFound));
}

#[test]
fn sale_detail_without_lines() {
    let mut s = seeded_store();
    s.headers.push(header(8, 3, "2024-05-01"));
    let d = s.sale_detail(8).unwrap();
    assert!(d.items.is_empty());
    assert_eq!(d.total_amount, 0);
    assert_eq!(d.customer_name, "佐藤次郎");
}

#[test]
fn sale_detail_subtotal_overflow() {
    let mut s = seeded_store();
    s.sales.push(line(15, 2, 1, 100_000, 100_000));
    assert_eq!(s.sale_detail(2), Err(QueryError::Arithmetic));
    assert!(s.sale_list().is_err());
}

#[test]
fn sale_detail_running_total_overflow() {
    let mut s = seeded_store();
    s.sales.push(line(15, 2, 1, 1, 2_147_480_000));
    assert_eq!(s.sale_detail(2), Err(QueryError::Arithmetic));
    assert_eq!(s.sale_list(), Err(QueryError::Arithmetic));
}

#[test]
fn sale_list_latest_first() {
    let s = seeded_store();
    let v = s.sale_list().unwrap();
    let ids: Vec<i64> = v.iter().map(|d| d.id).collect();
    assert_eq!(ids, vec![7, 6, 5, 4, 3, 2, 1]);
    assert_eq!(v[0].customer_name, "鈴木花子");
    assert_eq!(v[0].total_amount, 16400);
    assert_eq!(v[0].items.len(), 3);
}

#[test]
fn sales_ranking_by_amount() {
    let s = seeded_store();
    let r = s.sales_ranking().unwrap();
    assert_eq!(r.len(), 10);
    let rows: Vec<(i32, i64, i64, i64, i64)> = r
        .iter()
        .map(|x| (x.rank, x.product_id, x.total_amount, x.total_quantity, x.sale_count))
        .collect();
    assert_eq!(
        rows,
        vec![
            (1, 7, 15200, 4, 2),
            (2, 3, 14000, 5, 2),
            (3, 2, 10500, 3, 2),
            (4, 1, 9000, 3, 2),
            (5, 4, 6400, 2, 1),
            (6, 8, 5800, 2, 1),
            (7, 10, 4200, 1, 1),
            (8, 9, 3300, 1, 1),
            (9, 6, 2700, 1, 1),
            (10, 5, 2500, 1, 1),
        ]
    );
    assert_eq!(r[0].product_name, "デザインパターン");
}

#[test]
fn sales_ranking_books_without_sales() {
    let mut s = seeded_store();
    s.products.push(book(11, "新刊", "未販売", 1000, 5, "2024-06-01"));
    let r = s.sales_ranking().unwrap();
    assert_eq!(r.len(), 11);
    let last = &r[10];
    assert_eq!((last.rank, last.product_id, last.total_amount, last.total_quantity, last.sale_count), (11, 11, 0, 0, 0));
}

#[test]
fn sales_ranking_overflow() {
    let mut s = seeded_store();
    s.sales.push(line(15, 1, 1, i32::MAX, i32::MAX));
    s.sales.push(line(16, 1, 1, i32::MAX, i32::MAX));
    s.sales.push(line(17, 1, 1, i32::MAX, i32::MAX));
    assert_eq!(s.sales_ranking(), Err(QueryError::Overflow));
    assert_eq!(s.dashboard(), Err(QueryError::Overflow));
    assert_eq!(s.store_totals(), None);
}

#[test]
fn store_totals_of_seeded_store() {
    assert_eq!(seeded_store().store_totals(), Some((73600, 23)));
}

#[test]
fn dashboard_of_seeded_store() {
    let s = seeded_store();
    let d = s.dashboard().unwrap();
    assert_eq!(d.total_sales, 73600);
    assert_eq!(d.total_quantity, 23);
    assert_eq!(d.ranking.len(), 10);
    assert_eq!(d.ranking[0].product_id, 7);
    assert_eq!(d.ranking[9].product_id, 5);
    let cats: Vec<(&str, i64, i64)> = d
        .category_sales
        .iter()
        .map(|c| (c.category_name.as_str(), c.total_amount, c.product_count))
        .collect();
    assert_eq!(
        cats,
        vec![
            ("教育・参考書", 45100, 15),
            ("ビジネス書", 28500, 8),
            ("小説", 0, 0),
            ("コミック", 0, 0),
            ("雑誌", 0, 0),
        ]
    );
    let custs: Vec<(&str, i64, i64)> = d
        .customer_sales
        .iter()
        .map(|c| (c.customer_name.as_str(), c.total_amount, c.sale_count))
        .collect();
    assert_eq!(
        custs,
        vec![
            ("鈴木花子", 24800, 2),
            ("田中美咲", 17200, 1),
            ("山田太郎", 12500, 2),
            ("佐藤次郎", 11600, 1),
            ("伊藤健太", 7500, 1),
        ]
    );
}

#[test]
fn dashboard_ranking_keeps_ten() {
    let mut s = seeded_store();
    s.products.push(book(11, "新刊", "未販売", 1000, 5, "2024-06-01"));
    s.products.push(book(12, "特売", "一冊", 100, 5, "2024-06-02"));
    s.sales.push(line(15, 6, 12, 1, 100));
    let d = s.dashboard().unwrap();
    assert_eq!(d.ranking.len(), 10);
    assert!(d.ranking.iter().all(|r| r.product_id != 11 && r.product_id != 12));
    assert_eq!(d.total_sales, 73700);
}

#[test]
fn customer_with_sale_without_lines_counts_the_sale() {
    let mut s = seeded_store();
    s.headers.push(header(8, 5, "2024-05-01"));
    let c = s.customer_sales().unwrap();
    let ito = c.iter().find(|x| x.customer_name == "伊藤健太").unwrap();
    assert_eq!((ito.total_amount, ito.sale_count), (7500, 2));
}

#[test]
fn empty_store_reports() {
    let s = Snapshot {
        categories: vec![cat(1, "小説"), cat(2, "ビジネス書")],
        products: vec![],
        product_categories: vec![],
        customers: vec![],
        headers: vec![],
        sales: vec![],
        header_seq: 0,
        sale_seq: 0,
    };
    let d = s.dashboard().unwrap();
    assert_eq!((d.total_sales, d.total_quantity), (0, 0));
    assert!(d.ranking.is_empty());
    assert!(d.customer_sales.is_empty());
    let summary = s.category_summary().unwrap();
    assert_eq!(summary.len(), 2);
    assert_eq!((summary[0].category_id, summary[0].category_name.as_str()), (1, "小説"));
    assert_eq!(summary[0].total_amount, 0);
    assert_eq!(summary[0].product_count, 0);
    assert!(summary[0].products.is_empty());
    assert_eq!((summary[1].category_id, summary[1].category_name.as_str()), (2, "ビジネス書"));
    assert_eq!(summary[1].total_amount, 0);
    assert_eq!(summary[1].product_count, 0);
    assert!(summary[1].products.is_empty());
}

#[test]
fn category_summary_in_table_order() {
    let s = seeded_store();
    let v = s.category_summary().unwrap();
    let names: Vec<&str> = v.iter().map(|c| c.category_name.as_str()).collect();
    assert_eq!(names, vec!["小説", "ビジネス書", "コミック", "雑誌", "教育・参考書"]);
    let biz = &v[1];
    assert_eq!(biz.category_id, 2);
    assert_eq!(biz.total_amount, 28500);
    assert_eq!(biz.product_count, 4);
    let books: Vec<(i64, i64)> = biz.products.iter().map(|p| (p.product_id, p.total_amount)).collect();
    assert_eq!(books, vec![(7, 15200), (8, 5800), (10, 4200), (9, 3300)]);
    let edu = &v[4];
    assert_eq!(edu.total_amount, 45100);
    assert_eq!(edu.product_count, 6);
    assert_eq!(edu.products[0].product_name, "アクターモデル詳解");
    assert_eq!(v[0].product_count, 0);
    assert!(v[0].products.is_empty());
}

#[test]
fn category_summary_book_in_two_categories() {
    let mut s = seeded_store();
    s.product_categories.push(ProductCategory { product_id: 7, category_id: 1 });
    let v = s.category_summary().unwrap();
    let novel = v.iter().find(|c| c.category_id == 1).unwrap();
    assert_eq!(novel.total_amount, 15200);
    assert_eq!(novel.product_count, 1);
    let d = s.dashboard().unwrap();
    let novel_sales = d.category_sales.iter().find(|c| c.category_name == "小説").unwrap();
    assert_eq!((novel_sales.total_amount, novel_sales.product_count), (15200, 4));
}

#[test]
fn category_summary_overflowing_total() {
    let mut s = seeded_store();
    // book 7 alone reaches about 9.2e18, its category's sum leaves i64
    s.sales.push(line(15, 4, 7, i32::MAX, i32::MAX));
    s.sales.push(line(16, 4, 7, i32::MAX, i32::MAX));
    s.sales.push(line(17, 4, 8, i32::MAX, i32::MAX));
    assert_eq!(s.category_summary(), Err(QueryError::Arithmetic));
}

#[test]
fn category_summary_overflowing_book() {
    let mut s = seeded_store();
    s.sales.push(line(15, 4, 7, i32::MAX, i32::MAX));
    s.sales.push(line(16, 4, 7, i32::MAX, i32::MAX));
    s.sales.push(line(17, 4, 7, i32::MAX, i32::MAX));
    assert_eq!(s.category_summary(), Err(QueryError::Overflow));
}

#[test]
fn category_summary_first_failing_category_decides() {
    // "小説" (id 1) comes before "ビジネス書" (id 2): its overflowing book is met first
    let mut s = seeded_store();
    s.sales.push(line(15, 4, 7, i32::MAX, i32::MAX));
    s.sales.push(line(16, 4, 7, i32::MAX, i32::MAX));
    s.sales.push(line(17, 4, 8, i32::MAX, i32::MAX));
    s.products.push(book(11, "大長編", "", 1, 1, "2024-06-01"));
    s.product_categories.push(ProductCategory { product_id: 11, category_id: 1 });
    for k in 0..3 {
        s.sales.push(line(18 + k, 4, 11, i32::MAX, i32::MAX));
    }
    assert_eq!(s.category_summary(), Err(QueryError::Overflow));
}

#[test]
fn products_page_lists_categories() {
    let s = seeded_store();
    let page = s.products_page();
    assert_eq!(page.products.len(), 10);
    assert_eq!(page.products[0].name, "Rustプログラミング");
    assert_eq!(page.products[0].categories, vec!["教育・参考書".to_string()]);
    assert_eq!(page.products[6].categories, vec!["ビジネス書".to_string()]);
    assert_eq!(page.products[0].price, Some(3000));
    assert_eq!(page.products[0].stock, 50);
}

#[test]
fn products_page_book_without_category() {
    let mut s = seeded_store();
    s.products.push(Product {
        id: 11,
        name: "無分類".to_string(),
        description: None,
        price: None,
        stock: 0,
        published_date: None,
    });
    let page = s.products_page();
    assert!(page.products[10].categories.is_empty());
    assert_eq!(page.products[10].price, None);
}

#[test]
fn customers_page_in_table_order() {
    let s = seeded_store();
    let page = s.customers_page();
    assert_eq!(page.customers, s.customers);
}

#[test]
fn sales_create_page_customers_by_name() {
    let s = seeded_store();
    let page = s.sales_create_page();
    let names: Vec<&str> = page.customers.iter().map(|c| c.name.as_str()).collect();
    assert_eq!(names, vec!["伊藤健太", "佐藤次郎", "山田太郎", "田中美咲", "鈴木花子"]);
    assert_eq!(page.products.len(), 10);
}

#[test]
fn sales_page_and_detail_page() {
    let s = seeded_store();
    let page = s.sales_page().unwrap();
    assert_eq!(page.sales.len(), 7);
    assert_eq!(page.sales[6].id, 1);
    let detail = s.sale_detail_page(3).unwrap();
    assert_eq!(detail.sale.total_amount, 11600);
    assert_eq!(detail.sale.items.len(), 3);
    assert_eq!(s.sale_detail_page(0), Err(QueryError::NotFound));
}

#[test]
fn unknown_names_for_missing_rows() {
    // rows that the schema would refuse still get a name when built by hand
    let s = Snapshot {
        categories: vec![],
        products: vec![book(1, "本", "", 100, 1, "2024-01-01")],
        product_categories: vec![],
        customers: vec![person(1, "客", "a@example.com", "M1")],
        headers: vec![header(1, 1, "2024-01-01")],
        sales: vec![line(1, 1, 1, 1, 100)],
        header_seq: 1,
        sale_seq: 1,
    };
    let d = s.sale_detail(1).unwrap();
    assert_eq!(d.customer_name, "客");
    assert_eq!(d.items[0].product_name, "本");
}

#[test]
fn totals_add_up_over_books_and_customers() {
    let s = seeded_store();
    let (total, quantity) = s.store_totals().unwrap();
    let ranking = s.sales_ranking().unwrap();
    assert_eq!(ranking.iter().map(|r| r.total_amount).sum::<i64>(), total);
    assert_eq!(ranking.iter().map(|r| r.total_quantity).sum::<i64>(), quantity);
    let customers = s.customer_sales().unwrap();
    assert_eq!(customers.iter().map(|c| c.total_amount).sum::<i64>(), total);
}

#[test]
fn sales_ranking_unsold_books_last_even_below_negative_totals() {
    let mut s = seeded_store();
    s.products.push(book(11, "新刊", "未販売", 1000, 5, "2024-06-01"));
    s.products.push(book(12, "返品", "返品のみ", 1000, 5, "2024-06-02"));
    s.sales.push(line(15, 6, 12, -1, 1000));
    let r = s.sales_ranking().unwrap();
    let tail: Vec<(i32, i64, i64)> =
        r[10..].iter().map(|x| (x.rank, x.product_id, x.total_amount)).collect();
    assert_eq!(tail, vec![(11, 12, -1000), (12, 11, 0)]);
    let d = s.dashboard().unwrap();
    assert_eq!(d.ranking.len(), 10);
}

#[test]
fn sales_ranking_equal_amounts_in_table_order() {
    let mut s = seeded_store();
    s.products.push(book(11, "新刊A", "", 1000, 5, "2024-06-01"));
    s.products.push(book(12, "新刊B", "", 1000, 5, "2024-06-01"));
    s.sales.push(line(15, 6, 12, 1, 2500));
    s.sales.push(line(16, 6, 11, 1, 2500));
    let r = s.sales_ranking().unwrap();
    let ids: Vec<i64> = r.iter().map(|x| x.product_id).collect();
    assert_eq!(&ids[9..], &[5, 11, 12]);
}

#[test]
fn dashboard_ranking_is_start_of_full_ranking() {
    let s = seeded_store();
    let d = s.dashboard().unwrap();
    let all = s.sales_ranking().unwrap();
    assert_eq!(d.ranking.len(), 10);
    assert!(d.ranking.iter().zip(all.iter()).all(|(a, b)| a == b));
}

#[test]
fn sales_page_equals_sale_list_and_details() {
    let mut s = seeded_store();
    s.headers[1].sale_date = "2024-04-25".to_string();
    let page = s.sales_page().unwrap();
    let list = s.sale_list().unwrap();
    assert_eq!(page.sales, list);
    let ids: Vec<i64> = list.iter().map(|d| d.id).collect();
    assert_eq!(ids, vec![2, 7, 6, 5, 4, 3, 1]);
    for d in &list {
        assert_eq!(&s.sale_detail(d.id).unwrap(), d);
    }
}

#[test]
fn product_lists_of_both_pages_agree() {
    let s = seeded_store();
    assert_eq!(s.products_page().products, s.sales_create_page().products);
}
