//! The bookstore's database as plain values: one vector per table, the
//! constraints that the schema puts on them, and the sums that the reports
//! are made of.
use vstd::prelude::*;

use crate::models::{Category, Customer, Product, ProductCategory, Sale, SaleHeader};

verus! {

/// All tables of the store, in the order in which the database returns their rows.
#[derive(Debug, PartialEq, Eq)]
pub struct Snapshot {
    pub categories: Vec<Category>,
    pub products: Vec<Product>,
    pub product_categories: Vec<ProductCategory>,
    pub customers: Vec<Customer>,
    pub headers: Vec<SaleHeader>,
    pub sales: Vec<Sale>,
    /// The largest sale id the database has handed out so far (its
    /// AUTOINCREMENT counter for sales; 0 before the first).
    pub header_seq: i64,
    /// The largest sale-line id the database has handed out so far.
    pub sale_seq: i64,
}

/// The tables as sequences, with the two id counters.
#[verifier::ext_equal]
pub struct StoreView {
    pub categories: Seq<Category>,
    pub products: Seq<Product>,
    pub product_categories: Seq<ProductCategory>,
    pub customers: Seq<Customer>,
    pub headers: Seq<SaleHeader>,
    pub sales: Seq<Sale>,
    pub header_seq: i64,
    pub sale_seq: i64,
}

/// The six tables of `a` and `b` hold the same rows (the id counters aside).
pub open spec fn same_tables(a: StoreView, b: StoreView) -> bool {
    &&& a.categories == b.categories
    &&& a.products == b.products
    &&& a.product_categories == b.product_categories
    &&& a.customers == b.customers
    &&& a.headers == b.headers
    &&& a.sales == b.sales
}

impl View for Snapshot {
    type V = StoreView;

    open spec fn view(&self) -> StoreView {
        StoreView {
            categories: self.categories@,
            products: self.products@,
            product_categories: self.product_categories@,
            customers: self.customers@,
            headers: self.headers@,
            sales: self.sales@,
            header_seq: self.header_seq,
            sale_seq: self.sale_seq,
        }
    }
}

/// No value occurs twice in `s`.
pub open spec fn distinct(s: Seq<i64>) -> bool {
    forall|i: int, j: int| 0 <= i < s.len() && 0 <= j < s.len() && i != j ==> s[i] != s[j]
}

/// No text occurs twice in `s`.
pub open spec fn distinct_texts(s: Seq<Seq<char>>) -> bool {
    forall|i: int, j: int| 0 <= i < s.len() && 0 <= j < s.len() && i != j ==> s[i] != s[j]
}

pub open spec fn category_ids(s: Seq<Category>) -> Seq<i64> {
    Seq::new(s.len(), |k: int| s[k].id)
}

pub open spec fn category_names(s: Seq<Category>) -> Seq<Seq<char>> {
    Seq::new(s.len(), |k: int| s[k].name@)
}

pub open spec fn product_ids(s: Seq<Product>) -> Seq<i64> {
    Seq::new(s.len(), |k: int| s[k].id)
}

pub open spec fn customer_ids(s: Seq<Customer>) -> Seq<i64> {
    Seq::new(s.len(), |k: int| s[k].id)
}

pub open spec fn header_ids(s: Seq<SaleHeader>) -> Seq<i64> {
    Seq::new(s.len(), |k: int| s[k].id)
}

pub open spec fn sale_ids(s: Seq<Sale>) -> Seq<i64> {
    Seq::new(s.len(), |k: int| s[k].id)
}

impl StoreView {
    pub open spec fn has_category(self, id: i64) -> bool {
        category_ids(self.categories).contains(id)
    }

    pub open spec fn has_product(self, id: i64) -> bool {
        product_ids(self.products).contains(id)
    }

    pub open spec fn has_customer(self, id: i64) -> bool {
        customer_ids(self.customers).contains(id)
    }

    pub open spec fn has_header(self, id: i64) -> bool {
        header_ids(self.headers).contains(id)
    }

    /// What the schema guarantees and the logic relies on: no primary key and
    /// no category name occurs twice, and every reference names an existing row.
    pub open spec fn well_formed(self) -> bool {
        &&& distinct(category_ids(self.categories))
        &&& distinct_texts(category_names(self.categories))
        &&& distinct(product_ids(self.products))
        &&& distinct(customer_ids(self.customers))
        &&& distinct(header_ids(self.headers))
        &&& distinct(sale_ids(self.sales))
        &&& forall|i: int, j: int|
            0 <= i < self.product_categories.len() && 0 <= j < self.product_categories.len()
                && i != j ==> self.product_categories[i] != self.product_categories[j]
        &&& forall|i: int|
            #![trigger self.product_categories[i]]
            0 <= i < self.product_categories.len() ==> self.has_product(
                self.product_categories[i].product_id,
            ) && self.has_category(self.product_categories[i].category_id)
        &&& forall|i: int|
            #![trigger self.headers[i]]
            0 <= i < self.headers.len() ==> self.has_customer(self.headers[i].customer_id)
        &&& forall|i: int|
            #![trigger self.sales[i]]
            0 <= i < self.sales.len() ==> self.has_header(self.sales[i].sale_header_id)
                && self.has_product(self.sales[i].product_id)
    }
}

/// Sum of `f` over the elements of `s`.
pub open spec fn sum_of<T>(s: Seq<T>, f: spec_fn(T) -> int) -> int
    decreases s.len(),
{
    if s.len() == 0 {
        0
    } else {
        sum_of(s.drop_last(), f) + f(s.last())
    }
}

/// Amount of one sale line, as SQLite computes `quantity * sale_price`.
pub open spec fn line_amount(s: Sale) -> int {
    s.quantity * s.sale_price
}

pub open spec fn amount_w() -> spec_fn(Sale) -> int {
    |s: Sale| line_amount(s)
}

pub open spec fn quantity_w() -> spec_fn(Sale) -> int {
    |s: Sale| s.quantity as int
}

pub open spec fn product_amount_w(pid: i64) -> spec_fn(Sale) -> int {
    |s: Sale|
        if s.product_id == pid {
            line_amount(s)
        } else {
            0
        }
}

pub open spec fn product_quantity_w(pid: i64) -> spec_fn(Sale) -> int {
    |s: Sale|
        if s.product_id == pid {
            s.quantity as int
        } else {
            0
        }
}

pub open spec fn product_lines_w(pid: i64) -> spec_fn(Sale) -> int {
    |s: Sale|
        if s.product_id == pid {
            1
        } else {
            0
        }
}

/// Sales amount of one book: the sum of `quantity * sale_price` over its sale lines.
pub open spec fn product_amount(sales: Seq<Sale>, pid: i64) -> int {
    sum_of(sales, product_amount_w(pid))
}

/// Copies sold of one book.
pub open spec fn product_quantity(sales: Seq<Sale>, pid: i64) -> int {
    sum_of(sales, product_quantity_w(pid))
}

/// Number of sale lines of one book.
pub open spec fn product_lines(sales: Seq<Sale>, pid: i64) -> int {
    sum_of(sales, product_lines_w(pid))
}

/// The value fits in a signed 64-bit integer.
pub open spec fn fits64(x: int) -> bool {
    i64::MIN <= x <= i64::MAX
}

/// The value fits in a signed 32-bit integer.
pub open spec fn fits32(x: int) -> bool {
    i32::MIN <= x <= i32::MAX
}

/// `sum_of` over a prefix one element longer.
pub proof fn lemma_sum_of_take<T>(s: Seq<T>, f: spec_fn(T) -> int, i: int)
    requires
        0 <= i < s.len(),
    ensures
        sum_of(s.take(i + 1), f) == sum_of(s.take(i), f) + f(s[i]),
{
    assert(s.take(i + 1).drop_last() =~= s.take(i));
}

/// Ids of a table, one per row.
pub(crate) fn collect_category_ids(rows: &Vec<Category>) -> (r: Vec<i64>)
    ensures
        r@ == category_ids(rows@),
{
    let mut r: Vec<i64> = Vec::new();
    for i in 0..rows.len()
        invariant
            r@ =~= category_ids(rows@).take(i as int),
    {
        r.push(rows[i].id);
    }
    assert(r@ =~= category_ids(rows@));
    r
}

pub(crate) fn collect_product_ids(rows: &Vec<Product>) -> (r: Vec<i64>)
    ensures
        r@ == product_ids(rows@),
{
    let mut r: Vec<i64> = Vec::new();
    for i in 0..rows.len()
        invariant
            r@ =~= product_ids(rows@).take(i as int),
    {
        r.push(rows[i].id);
    }
    assert(r@ =~= product_ids(rows@));
    r
}

pub(crate) fn collect_customer_ids(rows: &Vec<Customer>) -> (r: Vec<i64>)
    ensures
        r@ == customer_ids(rows@),
{
    let mut r: Vec<i64> = Vec::new();
    for i in 0..rows.len()
        invariant
            r@ =~= customer_ids(rows@).take(i as int),
    {
        r.push(rows[i].id);
    }
    assert(r@ =~= customer_ids(rows@));
    r
}

pub(crate) fn collect_header_ids(rows: &Vec<SaleHeader>) -> (r: Vec<i64>)
    ensures
        r@ == header_ids(rows@),
{
    let mut r: Vec<i64> = Vec::new();
    for i in 0..rows.len()
        invariant
            r@ =~= header_ids(rows@).take(i as int),
    {
        r.push(rows[i].id);
    }
    assert(r@ =~= header_ids(rows@));
    r
}

pub(crate) fn collect_sale_ids(rows: &Vec<Sale>) -> (r: Vec<i64>)
    ensures
        r@ == sale_ids(rows@),
{
    let mut r: Vec<i64> = Vec::new();
    for i in 0..rows.len()
        invariant
            r@ =~= sale_ids(rows@).take(i as int),
    {
        r.push(rows[i].id);
    }
    assert(r@ =~= sale_ids(rows@));
    r
}

/// Whether `x` occurs in `v`.
pub fn contains_id(v: &Vec<i64>, x: i64) -> (r: bool)
    ensures
        r == v@.contains(x),
{
    for i in 0..v.len()
        invariant
            forall|k: int| 0 <= k < i ==> v@[k] != x,
    {
        if v[i] == x {
            assert(v@[i as int] == x);
            return true;
        }
    }
    false
}

/// Whether no value occurs twice in `v`.
pub fn all_distinct(v: &Vec<i64>) -> (r: bool)
    ensures
        r == distinct(v@),
{
    for i in 0..v.len()
        invariant
            forall|a: int, b: int| 0 <= a < i && 0 <= b < v@.len() && a != b ==> v@[a] != v@[b],
    {
        for j in 0..v.len()
            invariant
                i < v@.len(),
                forall|a: int, b: int|
                    0 <= a < i && 0 <= b < v@.len() && a != b ==> v@[a] != v@[b],
                forall|b: int| 0 <= b < j && b != i ==> v@[i as int] != v@[b],
        {
            if j != i && v[i] == v[j] {
                assert(v@[i as int] == v@[j as int]);
                return false;
            }
        }
    }
    true
}

/// Whether no category name occurs twice.
fn distinct_category_names(rows: &Vec<Category>) -> (r: bool)
    ensures
        r == distinct_texts(category_names(rows@)),
{
    for i in 0..rows.len()
        invariant
            forall|a: int, b: int|
                0 <= a < i && 0 <= b < rows@.len() && a != b ==> rows@[a].name@ != rows@[b].name@,
    {
        for j in 0..rows.len()
            invariant
                i < rows@.len(),
                forall|a: int, b: int|
                    0 <= a < i && 0 <= b < rows@.len() && a != b ==> rows@[a].name@
                        != rows@[b].name@,
                forall|b: int| 0 <= b < j && b != i ==> rows@[i as int].name@ != rows@[b].name@,
        {
            if j != i && rows[i].name == rows[j].name {
                assert(category_names(rows@)[i as int] == category_names(rows@)[j as int]);
                return false;
            }
        }
    }
    proof {
        let names = category_names(rows@);
        assert forall|a: int, b: int|
            0 <= a < names.len() && 0 <= b < names.len() && a != b implies names[a]
            != names[b] by {
            assert(rows@[a].name@ != rows@[b].name@);
        }
    }
    true
}

/// Whether no link between a book and a category occurs twice.
fn links_distinct(pcs: &Vec<ProductCategory>) -> (r: bool)
    ensures
        r == (forall|a: int, b: int|
            0 <= a < pcs@.len() && 0 <= b < pcs@.len() && a != b ==> pcs@[a] != pcs@[b]),
{
    for i in 0..pcs.len()
        invariant
            forall|a: int, b: int|
                0 <= a < i && 0 <= b < pcs@.len() && a != b ==> pcs@[a] != pcs@[b],
    {
        for j in 0..pcs.len()
            invariant
                i < pcs@.len(),
                forall|a: int, b: int|
                    0 <= a < i && 0 <= b < pcs@.len() && a != b ==> pcs@[a] != pcs@[b],
                forall|b: int| 0 <= b < j && b != i ==> pcs@[i as int] != pcs@[b],
        {
            if j != i && pcs[i].product_id == pcs[j].product_id && pcs[i].category_id
                == pcs[j].category_id {
                assert(pcs@[i as int] == pcs@[j as int]);
                return false;
            }
        }
    }
    true
}

/// Whether every link names an existing book and an existing category.
fn links_resolve(pcs: &Vec<ProductCategory>, prod_ids: &Vec<i64>, cat_ids: &Vec<i64>) -> (r: bool)
    ensures
        r == (forall|a: int|
            #![trigger pcs@[a]]
            0 <= a < pcs@.len() ==> prod_ids@.contains(pcs@[a].product_id)
                && cat_ids@.contains(pcs@[a].category_id)),
{
    for i in 0..pcs.len()
        invariant
            forall|a: int|
                #![trigger pcs@[a]]
                0 <= a < i ==> prod_ids@.contains(pcs@[a].product_id)
                    && cat_ids@.contains(pcs@[a].category_id),
    {
        if !contains_id(prod_ids, pcs[i].product_id) || !contains_id(cat_ids, pcs[i].category_id) {
            return false;
        }
    }
    true
}

/// Whether every sale header names an existing customer.
fn headers_resolve(headers: &Vec<SaleHeader>, cust_ids: &Vec<i64>) -> (r: bool)
    ensures
        r == (forall|a: int|
            #![trigger headers@[a]]
            0 <= a < headers@.len() ==> cust_ids@.contains(headers@[a].customer_id)),
{
    for i in 0..headers.len()
        invariant
            forall|a: int|
                #![trigger headers@[a]]
                0 <= a < i ==> cust_ids@.contains(headers@[a].customer_id),
    {
        if !contains_id(cust_ids, headers[i].customer_id) {
            return false;
        }
    }
    true
}

/// Whether every sale line names an existing sale and an existing book.
fn lines_resolve(sales: &Vec<Sale>, head_ids: &Vec<i64>, prod_ids: &Vec<i64>) -> (r: bool)
    ensures
        r == (forall|a: int|
            #![trigger sales@[a]]
            0 <= a < sales@.len() ==> head_ids@.contains(sales@[a].sale_header_id)
                && prod_ids@.contains(sales@[a].product_id)),
{
    for i in 0..sales.len()
        invariant
            forall|a: int|
                #![trigger sales@[a]]
                0 <= a < i ==> head_ids@.contains(sales@[a].sale_header_id)
                    && prod_ids@.contains(sales@[a].product_id),
    {
        if !contains_id(head_ids, sales[i].sale_header_id) || !contains_id(prod_ids, sales[i].product_id) {
            return false;
        }
    }
    true
}

impl Snapshot {
    /// Whether the tables meet the schema's constraints (`well_formed`).
    pub fn is_well_formed(&self) -> (r: bool)
        ensures
            r == self@.well_formed(),
    {
        let cat_ids = collect_category_ids(&self.categories);
        let prod_ids = collect_product_ids(&self.products);
        let cust_ids = collect_customer_ids(&self.customers);
        let head_ids = collect_header_ids(&self.headers);
        let line_ids = collect_sale_ids(&self.sales);
        let a = all_distinct(&cat_ids);
        let b = distinct_category_names(&self.categories);
        let c = all_distinct(&prod_ids);
        let d = all_distinct(&cust_ids);
        let e = all_distinct(&head_ids);
        let f = all_distinct(&line_ids);
        let g = links_distinct(&self.product_categories);
        let h = links_resolve(&self.product_categories, &prod_ids, &cat_ids);
        let k = headers_resolve(&self.headers, &cust_ids);
        let l = lines_resolve(&self.sales, &head_ids, &prod_ids);
        proof {
            let v = self@;
            assert(cust_ids@ == customer_ids(v.customers));
            assert(prod_ids@ == product_ids(v.products));
            assert(cat_ids@ == category_ids(v.categories));
            assert(head_ids@ == header_ids(v.headers));
            if h {
                assert forall|i: int| #![trigger v.product_categories[i]]
                    0 <= i < v.product_categories.len() implies v.has_product(
                    v.product_categories[i].product_id,
                ) && v.has_category(v.product_categories[i].category_id) by {
                    assert(self.product_categories@[i] == v.product_categories[i]);
                }
            } else {
                let i = choose|i: int| #![trigger self.product_categories@[i]]
                    0 <= i < self.product_categories@.len() && !(prod_ids@.contains(
                    self.product_categories@[i].product_id,
                ) && cat_ids@.contains(self.product_categories@[i].category_id));
                assert(v.product_categories[i] == self.product_categories@[i]);
            }
            if l {
                assert forall|i: int| #![trigger v.sales[i]]
                    0 <= i < v.sales.len() implies v.has_header(v.sales[i].sale_header_id)
                        && v.has_product(v.sales[i].product_id) by {
                    assert(self.sales@[i] == v.sales[i]);
                }
            } else {
                let i = choose|i: int| #![trigger self.sales@[i]]
                    0 <= i < self.sales@.len() && !(head_ids@.contains(self.sales@[i].sale_header_id)
                        && prod_ids@.contains(self.sales@[i].product_id));
                assert(v.sales[i] == self.sales@[i]);
            }
            assert(h == (forall|i: int|
            #![trigger v.product_categories[i]]
            0 <= i < v.product_categories.len() ==> v.has_product(
                v.product_categories[i].product_id,
            ) && v.has_category(v.product_categories[i].category_id)));
            assert(k == (forall|i: int|
            #![trigger v.headers[i]]
            0 <= i < v.headers.len() ==> v.has_customer(v.headers[i].customer_id)));
            assert(l == (forall|i: int|
            #![trigger v.sales[i]]
            0 <= i < v.sales.len() ==> v.has_header(v.sales[i].sale_header_id)
                && v.has_product(v.sales[i].product_id)));
        }
        proof {
            let v = self@;
            assert(a == distinct(category_ids(v.categories)));
            assert(b == distinct_texts(category_names(v.categories)));
            assert(c == distinct(product_ids(v.products)));
            assert(d == distinct(customer_ids(v.customers)));
            assert(e == distinct(header_ids(v.headers)));
            assert(f == distinct(sale_ids(v.sales)));
            assert(v.product_categories == self.product_categories@);
            if !g {
                let (i, j) = choose|i: int, j: int|
                    0 <= i < self.product_categories@.len() && 0 <= j < self.product_categories@.len()
                        && i != j && self.product_categories@[i] == self.product_categories@[j];
                assert(v.product_categories[i] == v.product_categories[j]);
            }
            assert(g == (forall|i: int, j: int|
            0 <= i < v.product_categories.len() && 0 <= j < v.product_categories.len()
                && i != j ==> v.product_categories[i] != v.product_categories[j]));
        }
        a && b && c && d && e && f && g && h && k && l
    }
}

} // verus!
