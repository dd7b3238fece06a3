//! Sales reports: the ranking of books, sales per category and per customer,
//! the category summary and the store's totals.
use vstd::prelude::*;

use crate::models::{
    CategoryProduct, CategorySales, CategorySummary, CustomerSales, Product, ProductCategory, Sale,
    SaleHeader, SalesRanking,
};
use crate::order::{is_permutation, order_by_amount_desc, widen};
use crate::sales::QueryError;
use crate::store::{
    amount_w, fits64, header_ids, lemma_sum_of_take, line_amount,
    product_amount, product_amount_w, product_lines, product_lines_w, product_quantity,
    product_quantity_w, quantity_w, sum_of, Snapshot, StoreView,
};

verus! {

/// Bound on the size of one line amount: `|quantity * price| <= 2^62`.
pub proof fn lemma_line_amount_bound(s: Sale)
    ensures
        -0x4000_0000_0000_0000 <= line_amount(s) <= 0x4000_0000_0000_0000,
{
    let q = s.quantity as int;
    let p = s.sale_price as int;
    assert(-0x4000_0000_0000_0000 <= q * p <= 0x4000_0000_0000_0000) by (nonlinear_arith)
        requires
            -2147483648 <= q <= 2147483647,
            -2147483648 <= p <= 2147483647,
    ;
}

/// Amount, copies and number of lines of book `pid`, summed over all sale lines.
fn product_sums(sales: &Vec<Sale>, pid: i64) -> (r: (i128, i128, i128))
    ensures
        r.0 == product_amount(sales@, pid),
        r.1 == product_quantity(sales@, pid),
        r.2 == product_lines(sales@, pid),
{
    let mut amount: i128 = 0;
    let mut quantity: i128 = 0;
    let mut lines: i128 = 0;
    for i in 0..sales.len()
        invariant
            amount == sum_of(sales@.take(i as int), product_amount_w(pid)),
            quantity == sum_of(sales@.take(i as int), product_quantity_w(pid)),
            lines == sum_of(sales@.take(i as int), product_lines_w(pid)),
            -0x4000_0000_0000_0000 * i <= amount <= 0x4000_0000_0000_0000 * i,
            -0x8000_0000 * i <= quantity <= 0x8000_0000 * i,
            0 <= lines <= i,
    {
        let s = sales[i];
        proof {
            lemma_sum_of_take(sales@, product_amount_w(pid), i as int);
            lemma_sum_of_take(sales@, product_quantity_w(pid), i as int);
            lemma_sum_of_take(sales@, product_lines_w(pid), i as int);
            lemma_line_amount_bound(s);
        }
        if s.product_id == pid {
            amount = amount + (s.quantity as i128) * (s.sale_price as i128);
            quantity = quantity + s.quantity as i128;
            lines = lines + 1;
        }
    }
    proof {
        assert(sales@.take(sales@.len() as int) =~= sales@);
    }
    (amount, quantity, lines)
}

/// Every book's sales amount, copies sold and number of lines fit in `i64`.
pub open spec fn product_sums_fit(v: StoreView) -> bool {
    forall|k: int|
        #![trigger v.products[k]]
        0 <= k < v.products.len() ==> fits64(product_amount(v.sales, v.products[k].id)) && fits64(
            product_quantity(v.sales, v.products[k].id),
        ) && fits64(product_lines(v.sales, v.products[k].id))
}

/// `r` shows the sales of book `p`.
pub open spec fn ranking_row_matches(r: SalesRanking, p: Product, sales: Seq<Sale>) -> bool {
    &&& r.product_id == p.id
    &&& r.product_name == p.name
    &&& r.total_amount == product_amount(sales, p.id)
    &&& r.total_quantity == product_quantity(sales, p.id)
    &&& r.sale_count == product_lines(sales, p.id)
}

/// What book `pid` is ranked by: its sales amount; when `unsold_last`, a book
/// without sale lines ranks below every book with some.
pub open spec fn rank_key(sales: Seq<Sale>, pid: i64, unsold_last: bool) -> int {
    if unsold_last && product_lines(sales, pid) == 0 {
        i64::MIN - 1
    } else {
        product_amount(sales, pid)
    }
}

/// `v` is the first `limit` rows of a ranking of all books by `rank_key`,
/// largest first and equal keys in table order, ranked 1, 2, 3, ...
pub open spec fn is_ranking(v: Seq<SalesRanking>, s: StoreView, limit: nat, unsold_last: bool) -> bool {
    exists|p: Seq<usize>|
        {
            &&& is_permutation(p, s.products.len())
            &&& v.len() == (if limit < s.products.len() {
                limit
            } else {
                s.products.len()
            })
            &&& forall|i: int|
                0 <= i < v.len() ==> ranking_row_matches(
                    #[trigger] v[i],
                    s.products[p[i] as int],
                    s.sales,
                ) && v[i].rank == (i + 1) as i32
            &&& forall|i: int, j: int|
                0 <= i < j < p.len() ==> rank_key(s.sales, s.products[p[i] as int].id, unsold_last)
                    >= rank_key(s.sales, s.products[p[j] as int].id, unsold_last)
            &&& forall|i: int, j: int|
                0 <= i < j < p.len() && rank_key(s.sales, s.products[p[i] as int].id, unsold_last)
                    == rank_key(s.sales, s.products[p[j] as int].id, unsold_last) ==> p[i] < p[j]
        }
}

/// The ranking of books by `rank_key`, cut after `limit` rows.
pub(crate) fn top_ranking(snap: &Snapshot, limit: usize, unsold_last: bool) -> (r: Result<
    Vec<SalesRanking>,
    QueryError,
>)
    ensures
        (r is Ok) == product_sums_fit(snap@),
        r is Err ==> r == Err::<Vec<SalesRanking>, QueryError>(QueryError::Overflow),
        r matches Ok(v) ==> is_ranking(v@, snap@, limit as nat, unsold_last),
{
    let n = snap.products.len();
    let mut amounts: Vec<i64> = Vec::new();
    let mut quantities: Vec<i64> = Vec::new();
    let mut counts: Vec<i64> = Vec::new();
    let mut keys: Vec<i128> = Vec::new();
    for k in 0..n
        invariant
            n == snap.products@.len(),
            keys@.len() == k,
            forall|a: int|
                #![trigger keys@[a]]
                0 <= a < k ==> keys@[a] == rank_key(snap.sales@, snap.products@[a].id, unsold_last),
            amounts@.len() == k,
            quantities@.len() == k,
            counts@.len() == k,
            forall|a: int|
                #![trigger snap.products@[a]]
                0 <= a < k ==> amounts@[a] == product_amount(snap.sales@, snap.products@[a].id)
                    && quantities@[a] == product_quantity(snap.sales@, snap.products@[a].id)
                    && counts@[a] == product_lines(snap.sales@, snap.products@[a].id),
    {
        let (a, q, c) = product_sums(&snap.sales, snap.products[k].id);
        if a < i64::MIN as i128 || a > i64::MAX as i128 || q < i64::MIN as i128 || q
            > i64::MAX as i128 || c < i64::MIN as i128 || c > i64::MAX as i128 {
            proof {
                assert(snap@.products[k as int] == snap.products@[k as int]);
            }
            return Err(QueryError::Overflow);
        }
        amounts.push(a as i64);
        quantities.push(q as i64);
        counts.push(c as i64);
        if unsold_last && c == 0 {
            keys.push(i64::MIN as i128 - 1);
        } else {
            keys.push(a);
        }
    }
    let perm = order_by_amount_desc(&keys);
    let len = if limit < n {
        limit
    } else {
        n
    };
    let mut rows: Vec<SalesRanking> = Vec::new();
    for i in 0..len
        invariant
            n == snap.products@.len(),
            len <= n,
            amounts@.len() == n,
            quantities@.len() == n,
            counts@.len() == n,
            forall|a: int|
                #![trigger snap.products@[a]]
                0 <= a < n ==> amounts@[a] == product_amount(snap.sales@, snap.products@[a].id)
                    && quantities@[a] == product_quantity(snap.sales@, snap.products@[a].id)
                    && counts@[a] == product_lines(snap.sales@, snap.products@[a].id),
            is_permutation(perm@, n as nat),
            rows@.len() == i,
            forall|a: int|
                0 <= a < i ==> ranking_row_matches(
                    #[trigger] rows@[a],
                    snap.products@[perm@[a] as int],
                    snap.sales@,
                ) && rows@[a].rank == (a + 1) as i32,
    {
        let k = perm[i];
        let p = &snap.products[k];
        proof {
            assert(snap.products@[k as int] == *p);
        }
        #[verifier::truncate]
        let rank = (i + 1) as i32;
        rows.push(
            SalesRanking {
                rank,
                product_id: p.id,
                product_name: p.name.clone(),
                total_amount: amounts[k],
                total_quantity: quantities[k],
                sale_count: counts[k],
            },
        );
    }
    proof {
        assert forall|k: int|
            #![trigger snap@.products[k]]
            0 <= k < snap@.products.len() implies fits64(
            product_amount(snap@.sales, snap@.products[k].id),
        ) && fits64(product_quantity(snap@.sales, snap@.products[k].id)) && fits64(
            product_lines(snap@.sales, snap@.products[k].id),
        ) by {
            assert(snap.products@[k] == snap@.products[k]);
        }
        assert forall|i: int, j: int| 0 <= i < j < perm@.len() implies rank_key(
            snap@.sales,
            snap@.products[perm@[i] as int].id,
            unsold_last,
        ) >= rank_key(snap@.sales, snap@.products[perm@[j] as int].id, unsold_last) && (rank_key(
            snap@.sales,
            snap@.products[perm@[i] as int].id,
            unsold_last,
        ) == rank_key(snap@.sales, snap@.products[perm@[j] as int].id, unsold_last) ==> perm@[i]
            < perm@[j]) by {
            assert(keys@[perm@[i] as int] == rank_key(snap.sales@, snap.products@[perm@[i] as int].id, unsold_last));
            assert(keys@[perm@[j] as int] == rank_key(snap.sales@, snap.products@[perm@[j] as int].id, unsold_last));
        }
        assert(is_permutation(perm@, snap@.products.len()));
    }
    Ok(rows)
}

impl Snapshot {
    /// Every book ranked by sales amount, largest first and equal amounts in
    /// table order, books without sale lines last (as SQL orders a `NULL`
    /// sum), with its copies sold and number of sale lines; a book without sales
    /// has zero everywhere.
    ///
    /// Fails with `Overflow` when some book's amount, copies or line count
    /// leaves the `i64` range.
    pub fn sales_ranking(&self) -> (r: Result<Vec<SalesRanking>, QueryError>)
        ensures
            (r is Ok) == product_sums_fit(self@),
            r is Err ==> r == Err::<Vec<SalesRanking>, QueryError>(QueryError::Overflow),
            r matches Ok(v) ==> is_ranking(v@, self@, self@.products.len(), true),
    {
        top_ranking(self, self.products.len(), true)
    }
}

/// Book `pid` belongs to category `cid`.
pub open spec fn in_category(pcs: Seq<ProductCategory>, pid: i64, cid: i64) -> bool {
    exists|k: int| 0 <= k < pcs.len() && pcs[k].product_id == pid && pcs[k].category_id == cid
}

pub open spec fn category_amount_w(pcs: Seq<ProductCategory>, cid: i64) -> spec_fn(Sale) -> int {
    |s: Sale|
        if in_category(pcs, s.product_id, cid) {
            line_amount(s)
        } else {
            0
        }
}

pub open spec fn category_quantity_w(pcs: Seq<ProductCategory>, cid: i64) -> spec_fn(Sale) -> int {
    |s: Sale|
        if in_category(pcs, s.product_id, cid) {
            s.quantity as int
        } else {
            0
        }
}

/// Sales amount of category `cid`: the amounts of the sale lines of its books.
pub open spec fn category_amount(v: StoreView, cid: i64) -> int {
    sum_of(v.sales, category_amount_w(v.product_categories, cid))
}

/// Copies sold of the books of category `cid`.
pub open spec fn category_quantity(v: StoreView, cid: i64) -> int {
    sum_of(v.sales, category_quantity_w(v.product_categories, cid))
}

/// The customer of the sale with id `hid`, if that sale exists.
pub open spec fn header_customer(headers: Seq<SaleHeader>, hid: i64) -> Option<i64> {
    if exists|k: int| 0 <= k < headers.len() && headers[k].id == hid {
        Some(headers[choose|k: int| 0 <= k < headers.len() && headers[k].id == hid].customer_id)
    } else {
        None
    }
}

pub open spec fn customer_amount_w(headers: Seq<SaleHeader>, cid: i64) -> spec_fn(Sale) -> int {
    |s: Sale|
        if header_customer(headers, s.sale_header_id) == Some(cid) {
            line_amount(s)
        } else {
            0
        }
}

pub open spec fn customer_sales_w(cid: i64) -> spec_fn(SaleHeader) -> int {
    |h: SaleHeader|
        if h.customer_id == cid {
            1
        } else {
            0
        }
}

/// Purchases of customer `cid`: the amounts of the lines of their sales.
pub open spec fn customer_amount(v: StoreView, cid: i64) -> int {
    sum_of(v.sales, customer_amount_w(v.headers, cid))
}

/// Number of sales of customer `cid`.
pub open spec fn customer_sale_count(v: StoreView, cid: i64) -> int {
    sum_of(v.headers, customer_sales_w(cid))
}

/// Sales amount of the whole store.
pub open spec fn store_amount(v: StoreView) -> int {
    sum_of(v.sales, amount_w())
}

/// Copies sold by the whole store.
pub open spec fn store_quantity(v: StoreView) -> int {
    sum_of(v.sales, quantity_w())
}

/// Whether book `pid` belongs to category `cid`.
fn in_category_exec(pcs: &Vec<ProductCategory>, pid: i64, cid: i64) -> (r: bool)
    ensures
        r == in_category(pcs@, pid, cid),
{
    for k in 0..pcs.len()
        invariant
            forall|a: int|
                0 <= a < k ==> !(pcs@[a].product_id == pid && pcs@[a].category_id == cid),
    {
        if pcs[k].product_id == pid && pcs[k].category_id == cid {
            assert(pcs@[k as int].product_id == pid && pcs@[k as int].category_id == cid);
            return true;
        }
    }
    false
}

/// Amount and copies of the sale lines of the books of category `cid`.
fn category_sums(snap: &Snapshot, cid: i64) -> (r: (i128, i128))
    ensures
        r.0 == category_amount(snap@, cid),
        r.1 == category_quantity(snap@, cid),
{
    let ghost pcs = snap@.product_categories;
    let mut amount: i128 = 0;
    let mut quantity: i128 = 0;
    for i in 0..snap.sales.len()
        invariant
            pcs == snap.product_categories@,
            amount == sum_of(snap.sales@.take(i as int), category_amount_w(pcs, cid)),
            quantity == sum_of(snap.sales@.take(i as int), category_quantity_w(pcs, cid)),
            -0x4000_0000_0000_0000 * i <= amount <= 0x4000_0000_0000_0000 * i,
            -0x8000_0000 * i <= quantity <= 0x8000_0000 * i,
    {
        let s = snap.sales[i];
        proof {
            lemma_sum_of_take(snap.sales@, category_amount_w(pcs, cid), i as int);
            lemma_sum_of_take(snap.sales@, category_quantity_w(pcs, cid), i as int);
            lemma_line_amount_bound(s);
        }
        if in_category_exec(&snap.product_categories, s.product_id, cid) {
            amount = amount + (s.quantity as i128) * (s.sale_price as i128);
            quantity = quantity + s.quantity as i128;
        }
    }
    proof {
        assert(snap.sales@.take(snap.sales@.len() as int) =~= snap.sales@);
    }
    (amount, quantity)
}

/// The customer of the sale with id `hid`, if that sale exists.
fn header_customer_exec(headers: &Vec<SaleHeader>, hid: i64) -> (r: Option<i64>)
    requires
        crate::store::distinct(header_ids(headers@)),
    ensures
        r == header_customer(headers@, hid),
{
    for k in 0..headers.len()
        invariant
            crate::store::distinct(header_ids(headers@)),
            forall|a: int| 0 <= a < k ==> headers@[a].id != hid,
    {
        if headers[k].id == hid {
            proof {
                assert(headers@[k as int].id == hid);
                let c = choose|a: int| 0 <= a < headers@.len() && headers@[a].id == hid;
                assert(header_ids(headers@)[c] == header_ids(headers@)[k as int]);
                assert(c == k);
            }
            return Some(headers[k].customer_id);
        }
    }
    None
}

/// Purchases and number of sales of customer `cid`; `owners[k]` is the
/// customer of sale line `k`.
fn customer_sums(snap: &Snapshot, owners: &Vec<Option<i64>>, cid: i64) -> (r: (i128, i128))
    requires
        owners@.len() == snap.sales@.len(),
        forall|k: int|
            0 <= k < owners@.len() ==> #[trigger] owners@[k] == header_customer(
                snap.headers@,
                snap.sales@[k].sale_header_id,
            ),
    ensures
        r.0 == customer_amount(snap@, cid),
        r.1 == customer_sale_count(snap@, cid),
{
    let ghost headers = snap@.headers;
    let mut amount: i128 = 0;
    for i in 0..snap.sales.len()
        invariant
            headers == snap.headers@,
            owners@.len() == snap.sales@.len(),
            forall|k: int|
                0 <= k < owners@.len() ==> #[trigger] owners@[k] == header_customer(
                    snap.headers@,
                    snap.sales@[k].sale_header_id,
                ),
            amount == sum_of(snap.sales@.take(i as int), customer_amount_w(headers, cid)),
            -0x4000_0000_0000_0000 * i <= amount <= 0x4000_0000_0000_0000 * i,
    {
        let s = snap.sales[i];
        proof {
            lemma_sum_of_take(snap.sales@, customer_amount_w(headers, cid), i as int);
            lemma_line_amount_bound(s);
            assert(owners@[i as int] == header_customer(headers, s.sale_header_id));
        }
        if owners[i] == Some(cid) {
            amount = amount + (s.quantity as i128) * (s.sale_price as i128);
        }
    }
    let mut count: i128 = 0;
    for i in 0..snap.headers.len()
        invariant
            count == sum_of(snap.headers@.take(i as int), customer_sales_w(cid)),
            0 <= count <= i,
    {
        proof {
            lemma_sum_of_take(snap.headers@, customer_sales_w(cid), i as int);
        }
        if snap.headers[i].customer_id == cid {
            count = count + 1;
        }
    }
    proof {
        assert(snap.sales@.take(snap.sales@.len() as int) =~= snap.sales@);
        assert(snap.headers@.take(snap.headers@.len() as int) =~= snap.headers@);
    }
    (amount, count)
}

/// Every category's amount and copies fit in `i64`.
pub open spec fn category_sums_fit(v: StoreView) -> bool {
    forall|k: int|
        #![trigger v.categories[k]]
        0 <= k < v.categories.len() ==> fits64(category_amount(v, v.categories[k].id)) && fits64(
            category_quantity(v, v.categories[k].id),
        )
}

/// Every customer's purchases and number of sales fit in `i64`.
pub open spec fn customer_sums_fit(v: StoreView) -> bool {
    forall|k: int|
        #![trigger v.customers[k]]
        0 <= k < v.customers.len() ==> fits64(customer_amount(v, v.customers[k].id)) && fits64(
            customer_sale_count(v, v.customers[k].id),
        )
}

/// `v` lists every category with its amount and copies sold, largest amount first.
pub open spec fn is_category_sales(v: Seq<CategorySales>, s: StoreView) -> bool {
    exists|p: Seq<usize>|
        {
            &&& is_permutation(p, s.categories.len())
            &&& v.len() == p.len()
            &&& forall|i: int|
                #![trigger v[i]]
                0 <= i < v.len() ==> v[i].category_name == s.categories[p[i] as int].name
                    && v[i].total_amount == category_amount(s, s.categories[p[i] as int].id)
                    && v[i].product_count == category_quantity(s, s.categories[p[i] as int].id)
            &&& forall|i: int, j: int|
                0 <= i < j < p.len() ==> category_amount(s, s.categories[p[i] as int].id)
                    >= category_amount(s, s.categories[p[j] as int].id)
        }
}

/// `v` lists every customer with their purchases and number of sales, largest amount first.
pub open spec fn is_customer_sales(v: Seq<CustomerSales>, s: StoreView) -> bool {
    exists|p: Seq<usize>|
        {
            &&& is_permutation(p, s.customers.len())
            &&& v.len() == p.len()
            &&& forall|i: int|
                #![trigger v[i]]
                0 <= i < v.len() ==> v[i].customer_name == s.customers[p[i] as int].name
                    && v[i].total_amount == customer_amount(s, s.customers[p[i] as int].id)
                    && v[i].sale_count == customer_sale_count(s, s.customers[p[i] as int].id)
            &&& forall|i: int, j: int|
                0 <= i < j < p.len() ==> customer_amount(s, s.customers[p[i] as int].id)
                    >= customer_amount(s, s.customers[p[j] as int].id)
        }
}

impl Snapshot {
    /// Sales of every category (amount and copies), largest amount first.
    ///
    /// Fails with `Overflow` when some category's amount or copies leave the `i64` range.
    pub fn category_sales(&self) -> (r: Result<Vec<CategorySales>, QueryError>)
        ensures
            (r is Ok) == category_sums_fit(self@),
            r is Err ==> r == Err::<Vec<CategorySales>, QueryError>(QueryError::Overflow),
            r matches Ok(v) ==> is_category_sales(v@, self@),
    {
        let n = self.categories.len();
        let mut amounts: Vec<i64> = Vec::new();
        let mut quantities: Vec<i64> = Vec::new();
        for k in 0..n
            invariant
                n == self.categories@.len(),
                amounts@.len() == k,
                quantities@.len() == k,
                forall|a: int|
                    #![trigger self.categories@[a]]
                    0 <= a < k ==> amounts@[a] == category_amount(self@, self.categories@[a].id)
                        && quantities@[a] == category_quantity(self@, self.categories@[a].id),
        {
            let (a, q) = category_sums(self, self.categories[k].id);
            if a < i64::MIN as i128 || a > i64::MAX as i128 || q < i64::MIN as i128 || q
                > i64::MAX as i128 {
                proof {
                    assert(self@.categories[k as int] == self.categories@[k as int]);
                }
                return Err(QueryError::Overflow);
            }
            amounts.push(a as i64);
            quantities.push(q as i64);
        }
        let keys = widen(&amounts);
        let perm = order_by_amount_desc(&keys);
        let mut rows: Vec<CategorySales> = Vec::new();
        for i in 0..n
            invariant
                n == self.categories@.len(),
                amounts@.len() == n,
                quantities@.len() == n,
                forall|a: int|
                    #![trigger self.categories@[a]]
                    0 <= a < n ==> amounts@[a] == category_amount(self@, self.categories@[a].id)
                        && quantities@[a] == category_quantity(self@, self.categories@[a].id),
                is_permutation(perm@, n as nat),
                rows@.len() == i,
                forall|a: int|
                    #![trigger rows@[a]]
                    0 <= a < i ==> rows@[a].category_name == self.categories@[perm@[a] as int].name
                        && rows@[a].total_amount == category_amount(
                        self@,
                        self.categories@[perm@[a] as int].id,
                    ) && rows@[a].product_count == category_quantity(
                        self@,
                        self.categories@[perm@[a] as int].id,
                    ),
        {
            let k = perm[i];
            proof {
                assert(self.categories@[k as int] == self.categories[k as int]);
            }
            rows.push(
                CategorySales {
                    category_name: self.categories[k].name.clone(),
                    total_amount: amounts[k],
                    product_count: quantities[k],
                },
            );
        }
        proof {
            assert forall|k: int|
                #![trigger self@.categories[k]]
                0 <= k < self@.categories.len() implies fits64(
                category_amount(self@, self@.categories[k].id),
            ) && fits64(category_quantity(self@, self@.categories[k].id)) by {
                assert(self.categories@[k] == self@.categories[k]);
            }
            assert forall|i: int, j: int| 0 <= i < j < perm@.len() implies category_amount(
                self@,
                self@.categories[perm@[i] as int].id,
            ) >= category_amount(self@, self@.categories[perm@[j] as int].id) by {
                assert(self.categories@[perm@[i] as int] == self@.categories[perm@[i] as int]);
                assert(self.categories@[perm@[j] as int] == self@.categories[perm@[j] as int]);
            }
            assert(is_permutation(perm@, self@.categories.len()));
            assert forall|i: int|
                #![trigger rows@[i]]
                0 <= i < rows@.len() implies rows@[i].category_name == self@.categories[perm@[i] as int].name
                    && rows@[i].total_amount == category_amount(self@, self@.categories[perm@[i] as int].id)
                    && rows@[i].product_count == category_quantity(self@, self@.categories[perm@[i] as int].id) by {
                assert(self.categories@[perm@[i] as int] == self@.categories[perm@[i] as int]);
            }
        }
        Ok(rows)
    }

    /// Purchases of every customer (amount and number of sales), largest amount first.
    ///
    /// Fails with `Overflow` when some customer's amount or count leaves the `i64` range.
    pub fn customer_sales(&self) -> (r: Result<Vec<CustomerSales>, QueryError>)
        requires
            self@.well_formed(),
        ensures
            (r is Ok) == customer_sums_fit(self@),
            r is Err ==> r == Err::<Vec<CustomerSales>, QueryError>(QueryError::Overflow),
            r matches Ok(v) ==> is_customer_sales(v@, self@),
    {
        let mut owners: Vec<Option<i64>> = Vec::new();
        for k in 0..self.sales.len()
            invariant
                self@.well_formed(),
                owners@.len() == k,
                forall|a: int|
                    0 <= a < k ==> #[trigger] owners@[a] == header_customer(
                        self.headers@,
                        self.sales@[a].sale_header_id,
                    ),
        {
            owners.push(header_customer_exec(&self.headers, self.sales[k].sale_header_id));
        }
        let n = self.customers.len();
        let mut amounts: Vec<i64> = Vec::new();
        let mut counts: Vec<i64> = Vec::new();
        for k in 0..n
            invariant
                n == self.customers@.len(),
                owners@.len() == self.sales@.len(),
                forall|a: int|
                    0 <= a < owners@.len() ==> #[trigger] owners@[a] == header_customer(
                        self.headers@,
                        self.sales@[a].sale_header_id,
                    ),
                amounts@.len() == k,
                counts@.len() == k,
                forall|a: int|
                    #![trigger self.customers@[a]]
                    0 <= a < k ==> amounts@[a] == customer_amount(self@, self.customers@[a].id)
                        && counts@[a] == customer_sale_count(self@, self.customers@[a].id),
        {
            let (a, c) = customer_sums(self, &owners, self.customers[k].id);
            if a < i64::MIN as i128 || a > i64::MAX as i128 || c < i64::MIN as i128 || c
                > i64::MAX as i128 {
                proof {
                    assert(self@.customers[k as int] == self.customers@[k as int]);
                }
                return Err(QueryError::Overflow);
            }
            amounts.push(a as i64);
            counts.push(c as i64);
        }
        let keys = widen(&amounts);
        let perm = order_by_amount_desc(&keys);
        let mut rows: Vec<CustomerSales> = Vec::new();
        for i in 0..n
            invariant
                n == self.customers@.len(),
                amounts@.len() == n,
                counts@.len() == n,
                forall|a: int|
                    #![trigger self.customers@[a]]
                    0 <= a < n ==> amounts@[a] == customer_amount(self@, self.customers@[a].id)
                        && counts@[a] == customer_sale_count(self@, self.customers@[a].id),
                is_permutation(perm@, n as nat),
                rows@.len() == i,
                forall|a: int|
                    #![trigger rows@[a]]
                    0 <= a < i ==> rows@[a].customer_name == self.customers@[perm@[a] as int].name
                        && rows@[a].total_amount == customer_amount(
                        self@,
                        self.customers@[perm@[a] as int].id,
                    ) && rows@[a].sale_count == customer_sale_count(
                        self@,
                        self.customers@[perm@[a] as int].id,
                    ),
        {
            let k = perm[i];
            proof {
                assert(self.customers@[k as int] == self.customers[k as int]);
            }
            rows.push(
                CustomerSales {
                    customer_name: self.customers[k].name.clone(),
                    total_amount: amounts[k],
                    sale_count: counts[k],
                },
            );
        }
        proof {
            assert forall|k: int|
                #![trigger self@.customers[k]]
                0 <= k < self@.customers.len() implies fits64(
                customer_amount(self@, self@.customers[k].id),
            ) && fits64(customer_sale_count(self@, self@.customers[k].id)) by {
                assert(self.customers@[k] == self@.customers[k]);
            }
            assert forall|i: int, j: int| 0 <= i < j < perm@.len() implies customer_amount(
                self@,
                self@.customers[perm@[i] as int].id,
            ) >= customer_amount(self@, self@.customers[perm@[j] as int].id) by {
                assert(self.customers@[perm@[i] as int] == self@.customers[perm@[i] as int]);
                assert(self.customers@[perm@[j] as int] == self@.customers[perm@[j] as int]);
            }
        }
        Ok(rows)
    }

    /// Sales amount and copies sold of the whole store; `None` when one of
    /// them leaves the `i64` range.
    pub fn store_totals(&self) -> (r: Option<(i64, i64)>)
        ensures
            r is Some == (fits64(store_amount(self@)) && fits64(store_quantity(self@))),
            r matches Some(t) ==> t.0 == store_amount(self@) && t.1 == store_quantity(self@),
    {
        let mut amount: i128 = 0;
        let mut quantity: i128 = 0;
        for i in 0..self.sales.len()
            invariant
                amount == sum_of(self.sales@.take(i as int), amount_w()),
                quantity == sum_of(self.sales@.take(i as int), quantity_w()),
                -0x4000_0000_0000_0000 * i <= amount <= 0x4000_0000_0000_0000 * i,
                -0x8000_0000 * i <= quantity <= 0x8000_0000 * i,
        {
            let s = self.sales[i];
            proof {
                lemma_sum_of_take(self.sales@, amount_w(), i as int);
                lemma_sum_of_take(self.sales@, quantity_w(), i as int);
                lemma_line_amount_bound(s);
            }
            amount = amount + (s.quantity as i128) * (s.sale_price as i128);
            quantity = quantity + s.quantity as i128;
        }
        proof {
            assert(self.sales@.take(self.sales@.len() as int) =~= self.sales@);
        }
        if amount < i64::MIN as i128 || amount > i64::MAX as i128 || quantity < i64::MIN as i128
            || quantity > i64::MAX as i128 {
            None
        } else {
            Some((amount as i64, quantity as i64))
        }
    }
}

pub open spec fn in_category_pred(pcs: Seq<ProductCategory>, cid: i64) -> spec_fn(Product) -> bool {
    |p: Product| in_category(pcs, p.id, cid)
}

/// The books of category `cid`, in table order.
pub open spec fn category_products(v: StoreView, cid: i64) -> Seq<Product> {
    v.products.filter(in_category_pred(v.product_categories, cid))
}

pub open spec fn book_amount_w(sales: Seq<Sale>) -> spec_fn(Product) -> int {
    |p: Product| product_amount(sales, p.id)
}

/// Every book of category `cid` has a sales amount that fits in `i64`.
pub open spec fn category_products_fit(v: StoreView, cid: i64) -> bool {
    let cp = category_products(v, cid);
    forall|k: int| 0 <= k < cp.len() ==> fits64(product_amount(v.sales, #[trigger] cp[k].id))
}

/// Sum of the sales amounts of the books of category `cid`.
pub open spec fn summary_total(v: StoreView, cid: i64) -> int {
    sum_of(category_products(v, cid), book_amount_w(v.sales))
}

/// The summary of category `cid` can be computed.
pub open spec fn summary_fine(v: StoreView, cid: i64) -> bool {
    category_products_fit(v, cid) && fits64(summary_total(v, cid))
}

/// `r` summarizes category `c`: its books ranked by sales amount (largest
/// first), the sum of their amounts and their number.
pub open spec fn summary_matches(r: CategorySummary, c: crate::models::Category, v: StoreView) -> bool {
    let cp = category_products(v, c.id);
    &&& r.category_id == c.id
    &&& r.category_name == c.name
    &&& r.total_amount == summary_total(v, c.id)
    &&& r.product_count == cp.len() as i64
    &&& exists|q: Seq<usize>|
        {
            &&& is_permutation(q, cp.len())
            &&& r.products@.len() == q.len()
            &&& forall|i: int|
                #![trigger r.products@[i]]
                0 <= i < q.len() ==> r.products@[i].product_id == cp[q[i] as int].id
                    && r.products@[i].product_name == cp[q[i] as int].name
                    && r.products@[i].total_amount == product_amount(v.sales, cp[q[i] as int].id)
            &&& forall|i: int, j: int|
                0 <= i < j < q.len() ==> product_amount(v.sales, cp[q[i] as int].id)
                    >= product_amount(v.sales, cp[q[j] as int].id)
        }
}

/// The summary of category `c`.
fn summarize_category(snap: &Snapshot, c: &crate::models::Category) -> (r: Result<
    CategorySummary,
    QueryError,
>)
    ensures
        !category_products_fit(snap@, c.id) ==> r == Err::<CategorySummary, QueryError>(
            QueryError::Overflow,
        ),
        category_products_fit(snap@, c.id) && !fits64(summary_total(snap@, c.id)) ==> r == Err::<
            CategorySummary,
            QueryError,
        >(QueryError::Arithmetic),
        summary_fine(snap@, c.id) ==> r is Ok,
        r matches Ok(x) ==> summary_matches(x, *c, snap@),
{
    let ghost pred = in_category_pred(snap@.product_categories, c.id);
    let ghost cp = category_products(snap@, c.id);
    let mut members: Vec<usize> = Vec::new();
    let n = snap.products.len();
    for i in 0..n
        invariant
            n == snap.products@.len(),
            pred == in_category_pred(snap@.product_categories, c.id),
            members@.len() == snap.products@.take(i as int).filter(pred).len(),
            forall|j: int|
                0 <= j < members@.len() ==> #[trigger] members@[j] < n
                    && snap.products@[members@[j] as int] == snap.products@.take(i as int).filter(
                    pred,
                )[j],
    {
        proof {
            crate::sales::lemma_filter_take_step(snap.products@, pred, i as int);
        }
        if in_category_exec(&snap.product_categories, snap.products[i].id, c.id) {
            members.push(i);
        }
    }
    proof {
        assert(snap.products@.take(n as int) =~= snap.products@);
    }
    let m = members.len();
    let mut amounts: Vec<i64> = Vec::new();
    let mut total: i128 = 0;
    for j in 0..m
        invariant
            m == members@.len(),
            m == cp.len(),
            cp == category_products(snap@, c.id),
            forall|a: int|
                0 <= a < m ==> #[trigger] members@[a] < snap.products@.len()
                    && snap.products@[members@[a] as int] == cp[a],
            amounts@.len() == j,
            forall|a: int| 0 <= a < j ==> #[trigger] amounts@[a] == product_amount(snap.sales@, cp[a].id),
            total == sum_of(cp.take(j as int), book_amount_w(snap.sales@)),
            -0x8000_0000_0000_0000 * j <= total <= 0x8000_0000_0000_0000 * j,
    {
        let k = members[j];
        let (a, _, _) = product_sums(&snap.sales, snap.products[k].id);
        proof {
            lemma_sum_of_take(cp, book_amount_w(snap.sales@), j as int);
        }
        if a < i64::MIN as i128 || a > i64::MAX as i128 {
            proof {
                assert(snap.products@[k as int] == cp[j as int]);
                assert(!fits64(product_amount(snap@.sales, cp[j as int].id)));
            }
            return Err(QueryError::Overflow);
        }
        amounts.push(a as i64);
        total = total + a;
    }
    proof {
        assert(cp.take(m as int) =~= cp);
        assert forall|k: int| 0 <= k < cp.len() implies fits64(
            product_amount(snap@.sales, #[trigger] cp[k].id),
        ) by {
            assert(amounts@[k] == product_amount(snap.sales@, cp[k].id));
        }
    }
    if total < i64::MIN as i128 || total > i64::MAX as i128 {
        return Err(QueryError::Arithmetic);
    }
    let keys = widen(&amounts);
    let q = order_by_amount_desc(&keys);
    let mut rows: Vec<CategoryProduct> = Vec::new();
    for i in 0..m
        invariant
            m == members@.len(),
            m == cp.len(),
            cp == category_products(snap@, c.id),
            forall|a: int|
                0 <= a < m ==> #[trigger] members@[a] < snap.products@.len()
                    && snap.products@[members@[a] as int] == cp[a],
            amounts@.len() == m,
            forall|a: int| 0 <= a < m ==> #[trigger] amounts@[a] == product_amount(snap.sales@, cp[a].id),
            is_permutation(q@, m as nat),
            rows@.len() == i,
            forall|a: int|
                #![trigger rows@[a]]
                0 <= a < i ==> rows@[a].product_id == cp[q@[a] as int].id
                    && rows@[a].product_name == cp[q@[a] as int].name
                    && rows@[a].total_amount == product_amount(snap.sales@, cp[q@[a] as int].id),
    {
        let j = q[i];
        let k = members[j];
        proof {
            assert(snap.products@[k as int] == cp[j as int]);
        }
        rows.push(
            CategoryProduct {
                product_id: snap.products[k].id,
                product_name: snap.products[k].name.clone(),
                total_amount: amounts[j],
            },
        );
    }
    #[verifier::truncate]
    let count = m as i64;
    let r = CategorySummary {
        category_id: c.id,
        category_name: c.name.clone(),
        total_amount: total as i64,
        product_count: count,
        products: rows,
    };
    proof {
        assert forall|a: int, b: int| 0 <= a < b < q@.len() implies product_amount(
            snap@.sales,
            cp[q@[a] as int].id,
        ) >= product_amount(snap@.sales, cp[q@[b] as int].id) by {
            assert(amounts@[q@[a] as int] >= amounts@[q@[b] as int]);
        }
        assert(is_permutation(q@, cp.len()));
    }
    Ok(r)
}

impl Snapshot {
    /// For every category, in table order: its books ranked by sales amount
    /// (largest first), the sum of their amounts and the number of its books.
    ///
    /// Categories are handled in table order and the first that fails decides:
    /// `Overflow` when one of its books' amounts leaves the `i64` range,
    /// `Arithmetic` when the sum of its books' amounts does.
    pub fn category_summary(&self) -> (r: Result<Vec<CategorySummary>, QueryError>)
        requires
            self@.well_formed(),
        ensures
            (r is Ok) == (forall|k: int|
                0 <= k < self@.categories.len() ==> summary_fine(
                    self@,
                    #[trigger] self@.categories[k].id,
                )),
            r is Err ==> r == Err::<Vec<CategorySummary>, QueryError>(QueryError::Overflow) || r
                == Err::<Vec<CategorySummary>, QueryError>(QueryError::Arithmetic),
            r == Err::<Vec<CategorySummary>, QueryError>(QueryError::Overflow) ==> exists|k: int|
                0 <= k < self@.categories.len() && !category_products_fit(
                    self@,
                    #[trigger] self@.categories[k].id,
                ) && forall|e: int|
                    0 <= e < k ==> summary_fine(self@, #[trigger] self@.categories[e].id),
            r == Err::<Vec<CategorySummary>, QueryError>(QueryError::Arithmetic) ==> exists|k: int|
                0 <= k < self@.categories.len() && category_products_fit(
                    self@,
                    #[trigger] self@.categories[k].id,
                ) && !fits64(summary_total(self@, self@.categories[k].id)) && forall|e: int|
                    0 <= e < k ==> summary_fine(self@, #[trigger] self@.categories[e].id),
            r matches Ok(v) ==> {
                &&& v@.len() == self@.categories.len()
                &&& forall|i: int|
                    0 <= i < v@.len() ==> summary_matches(
                        #[trigger] v@[i],
                        self@.categories[i],
                        self@,
                    )
            },
    {
        let n = self.categories.len();
        let mut out: Vec<CategorySummary> = Vec::new();
        for i in 0..n
            invariant
                n == self.categories@.len(),
                out@.len() == i,
                forall|a: int|
                    0 <= a < i ==> summary_matches(#[trigger] out@[a], self@.categories[a], self@),
                forall|a: int| 0 <= a < i ==> summary_fine(self@, #[trigger] self@.categories[a].id),
        {
            proof {
                assert(self@.categories[i as int] == self.categories@[i as int]);
            }
            match summarize_category(self, &self.categories[i]) {
                Ok(x) => {
                    out.push(x);
                },
                Err(e) => {
                    return Err(e);
                },
            }
        }
        Ok(out)
    }
}

} // verus!
