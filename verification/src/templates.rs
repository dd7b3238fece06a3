//! What each page shows, built from the store's tables.
use vstd::prelude::*;

use crate::models::{
    CategorySales, Customer, CustomerSales, Product, ProductCategory, ProductWithCategories,
    SaleDetail, SalesRanking,
};
use crate::order::{is_permutation, order_by_text, text_before, text_lt};
use crate::reports::{
    category_sums_fit, customer_sums_fit, is_category_sales, is_customer_sales, is_ranking,
    product_sums_fit, store_amount, store_quantity,
};
use crate::sales::{amounts_fit, detail_matches, is_sale_list, lines_of, QueryError};
use crate::store::{category_ids, distinct, fits64, header_ids, Snapshot, StoreView};

verus! {

/// The dashboard: the store's totals, the ten best-selling books, and sales
/// per category and per customer.
#[derive(Debug, PartialEq, Eq)]
pub struct DashboardTemplate {
    pub total_sales: i64,
    pub total_quantity: i64,
    pub ranking: Vec<SalesRanking>,
    pub category_sales: Vec<CategorySales>,
    pub customer_sales: Vec<CustomerSales>,
}

/// The list of books with their categories.
#[derive(Debug, PartialEq, Eq)]
pub struct ProductsTemplate {
    pub products: Vec<ProductWithCategories>,
}

/// The list of customers.
#[derive(Debug, PartialEq, Eq)]
pub struct CustomersTemplate {
    pub customers: Vec<Customer>,
}

/// The list of sales.
#[derive(Debug, PartialEq, Eq)]
pub struct SalesTemplate {
    pub sales: Vec<SaleDetail>,
}

/// One sale in detail.
#[derive(Debug, PartialEq, Eq)]
pub struct SalesDetailTemplate {
    pub sale: SaleDetail,
}

/// The form that records a sale: the customers and the books to choose from.
#[derive(Debug, PartialEq, Eq)]
pub struct SalesCreateTemplate {
    pub customers: Vec<Customer>,
    pub products: Vec<ProductWithCategories>,
}

/// Number of books the dashboard's ranking shows.
pub const DASHBOARD_RANKING_SIZE: usize = 10;

pub open spec fn link_pred(pid: i64) -> spec_fn(ProductCategory) -> bool {
    |pc: ProductCategory| pc.product_id == pid
}

/// The links of book `pid` to its categories, in table order.
pub open spec fn links_of(pcs: Seq<ProductCategory>, pid: i64) -> Seq<ProductCategory> {
    pcs.filter(link_pred(pid))
}

/// The name of the category with id `cid`, if there is one.
pub open spec fn category_name_for(v: StoreView, cid: i64) -> Seq<char> {
    v.categories[choose|k: int| 0 <= k < v.categories.len() && v.categories[k].id == cid].name@
}

/// `w` is book `p` with the names of its categories.
pub open spec fn with_categories_matches(w: ProductWithCategories, p: Product, v: StoreView) -> bool {
    let links = links_of(v.product_categories, p.id);
    &&& w.id == p.id
    &&& w.name == p.name
    &&& w.description == p.description
    &&& w.price == p.price
    &&& w.stock == p.stock
    &&& w.published_date == p.published_date
    &&& w.categories@.len() == links.len()
    &&& forall|k: int|
        0 <= k < links.len() ==> (#[trigger] w.categories@[k])@ == category_name_for(
            v,
            links[k].category_id,
        )
}

/// `ws` is every book, in table order, with the names of its categories.
pub open spec fn is_product_list(ws: Seq<ProductWithCategories>, v: StoreView) -> bool {
    &&& ws.len() == v.products.len()
    &&& forall|i: int| 0 <= i < ws.len() ==> with_categories_matches(#[trigger] ws[i], v.products[i], v)
}

/// The name of the category with id `cid`; the category must exist.
fn category_name(snap: &Snapshot, cid: i64) -> (r: String)
    requires
        snap@.well_formed(),
        snap@.has_category(cid),
    ensures
        r@ == category_name_for(snap@, cid),
{
    proof {
        let a = choose|a: int| 0 <= a < category_ids(snap@.categories).len() && category_ids(snap@.categories)[a] == cid;
        assert(snap@.categories[a].id == cid);
    }
    let mut k: usize = 0;
    while k < snap.categories.len()
        invariant
            snap@.well_formed(),
            snap@.has_category(cid),
            k <= snap.categories@.len(),
            forall|a: int| 0 <= a < k ==> snap.categories@[a].id != cid,
        decreases snap.categories@.len() - k,
    {
        if snap.categories[k].id == cid {
            proof {
                assert(snap@.categories[k as int].id == cid);
                let c = choose|a: int| 0 <= a < snap@.categories.len() && snap@.categories[a].id == cid;
                assert(category_ids(snap@.categories)[c] == category_ids(snap@.categories)[k as int]);
                assert(c == k);
            }
            return snap.categories[k].name.clone();
        }
        k = k + 1;
    }
    proof {
        let a = choose|a: int| 0 <= a < category_ids(snap@.categories).len() && category_ids(snap@.categories)[a] == cid;
        assert(snap.categories@[a].id == cid);
    }
    snap.categories[0].name.clone()
}

/// Book `p` with the names of its categories.
fn with_categories(snap: &Snapshot, p: &Product) -> (r: ProductWithCategories)
    requires
        snap@.well_formed(),
    ensures
        with_categories_matches(r, *p, snap@),
{
    let ghost pred = link_pred(p.id);
    let mut names: Vec<String> = Vec::new();
    let pcs = &snap.product_categories;
    for i in 0..pcs.len()
        invariant
            snap@.well_formed(),
            pcs == &snap.product_categories,
            pred == link_pred(p.id),
            names@.len() == pcs@.take(i as int).filter(pred).len(),
            forall|k: int|
                0 <= k < names@.len() ==> (#[trigger] names@[k])@ == category_name_for(
                    snap@,
                    pcs@.take(i as int).filter(pred)[k].category_id,
                ),
    {
        proof {
            crate::sales::lemma_filter_take_step(pcs@, pred, i as int);
            assert(snap@.product_categories[i as int] == pcs@[i as int]);
        }
        if pcs[i].product_id == p.id {
            let name = category_name(snap, pcs[i].category_id);
            names.push(name);
        }
    }
    proof {
        assert(pcs@.take(pcs@.len() as int) =~= pcs@);
    }
    ProductWithCategories {
        id: p.id,
        name: p.name.clone(),
        description: crate::models::copy_opt_text(&p.description),
        price: p.price,
        stock: p.stock,
        published_date: crate::models::copy_opt_text(&p.published_date),
        categories: names,
    }
}

/// Every book, in table order, with the names of its categories.
pub fn product_list(snap: &Snapshot) -> (r: Vec<ProductWithCategories>)
    requires
        snap@.well_formed(),
    ensures
        is_product_list(r@, snap@),
{
    let mut out: Vec<ProductWithCategories> = Vec::new();
    for i in 0..snap.products.len()
        invariant
            snap@.well_formed(),
            out@.len() == i,
            forall|a: int|
                0 <= a < i ==> with_categories_matches(#[trigger] out@[a], snap@.products[a], snap@),
    {
        out.push(with_categories(snap, &snap.products[i]));
    }
    out
}

impl Snapshot {
    /// The dashboard: total amount and copies of all sales, the ten books with
    /// the largest sales amounts (a book without sales counting 0, equal
    /// amounts in table order), and every category and every customer with
    /// their sales, largest amount first.
    ///
    /// Fails with `Overflow` when one of these sums leaves the `i64` range.
    pub fn dashboard(&self) -> (r: Result<DashboardTemplate, QueryError>)
        requires
            self@.well_formed(),
        ensures
            (r is Ok) == (fits64(store_amount(self@)) && fits64(store_quantity(self@))
                && product_sums_fit(self@) && category_sums_fit(self@) && customer_sums_fit(
                self@,
            )),
            r is Err ==> r == Err::<DashboardTemplate, QueryError>(QueryError::Overflow),
            r matches Ok(d) ==> {
                &&& d.total_sales == store_amount(self@)
                &&& d.total_quantity == store_quantity(self@)
                &&& is_ranking(d.ranking@, self@, DASHBOARD_RANKING_SIZE as nat, false)
                &&& is_category_sales(d.category_sales@, self@)
                &&& is_customer_sales(d.customer_sales@, self@)
            },
    {
        let (total_sales, total_quantity) = match self.store_totals() {
            Some(t) => t,
            None => {
                return Err(QueryError::Overflow);
            },
        };
        let ranking = match crate::reports::top_ranking(self, DASHBOARD_RANKING_SIZE, false) {
            Ok(v) => v,
            Err(e) => {
                return Err(e);
            },
        };
        let category_sales = match self.category_sales() {
            Ok(v) => v,
            Err(e) => {
                return Err(e);
            },
        };
        let customer_sales = match self.customer_sales() {
            Ok(v) => v,
            Err(e) => {
                return Err(e);
            },
        };
        Ok(DashboardTemplate { total_sales, total_quantity, ranking, category_sales, customer_sales })
    }

    /// The list of books, in table order, each with the names of its categories.
    pub fn products_page(&self) -> (r: ProductsTemplate)
        requires
            self@.well_formed(),
        ensures
            is_product_list(r.products@, self@),
    {
        ProductsTemplate { products: product_list(self) }
    }

    /// The list of customers, in table order.
    pub fn customers_page(&self) -> (r: CustomersTemplate)
        ensures
            r.customers@ == self@.customers,
    {
        let mut out: Vec<Customer> = Vec::new();
        for i in 0..self.customers.len()
            invariant
                out@ =~= self.customers@.take(i as int),
        {
            out.push(self.customers[i].clone());
        }
        proof {
            assert(self.customers@.take(self.customers@.len() as int) =~= self.customers@);
        }
        CustomersTemplate { customers: out }
    }

    /// The list of sales, latest first (see `sale_list`).
    pub fn sales_page(&self) -> (r: Result<SalesTemplate, QueryError>)
        requires
            self@.well_formed(),
        ensures
            (r is Ok) == (forall|k: int|
                0 <= k < self@.headers.len() ==> amounts_fit(
                    lines_of(self@.sales, #[trigger] self@.headers[k].id),
                )),
            r is Err ==> r == Err::<SalesTemplate, QueryError>(QueryError::Arithmetic),
            r matches Ok(t) ==> is_sale_list(t.sales@, self@),
    {
        match self.sale_list() {
            Ok(v) => Ok(SalesTemplate { sales: v }),
            Err(e) => Err(e),
        }
    }

    /// One sale in detail (see `sale_detail`).
    pub fn sale_detail_page(&self, id: i64) -> (r: Result<SalesDetailTemplate, QueryError>)
        requires
            self@.well_formed(),
        ensures
            !self@.has_header(id) ==> r == Err::<SalesDetailTemplate, QueryError>(
                QueryError::NotFound,
            ),
            forall|k: int|
                0 <= k < self@.headers.len() && #[trigger] self@.headers[k].id == id ==> {
                    &&& (r is Ok) == amounts_fit(lines_of(self@.sales, id))
                    &&& !amounts_fit(lines_of(self@.sales, id)) ==> r == Err::<
                        SalesDetailTemplate,
                        QueryError,
                    >(QueryError::Arithmetic)
                    &&& r matches Ok(t) ==> detail_matches(t.sale, self@.headers[k], self@)
                },
    {
        match self.sale_detail(id) {
            Ok(d) => Ok(SalesDetailTemplate { sale: d }),
            Err(e) => Err(e),
        }
    }

    /// The form that records a sale: every customer, by name (customers of the
    /// same name in table order), and every book with the names of its categories.
    pub fn sales_create_page(&self) -> (r: SalesCreateTemplate)
        requires
            self@.well_formed(),
        ensures
            exists|p: Seq<usize>|
                {
                    &&& is_permutation(p, self@.customers.len())
                    &&& r.customers@.len() == p.len()
                    &&& forall|i: int|
                        0 <= i < p.len() ==> #[trigger] r.customers@[i] == self@.customers[p[i] as int]
                    &&& forall|i: int, j: int|
                        0 <= i < j < p.len() ==> !text_lt(
                            self@.customers[p[j] as int].name@,
                            self@.customers[p[i] as int].name@,
                        )
                    &&& forall|i: int, j: int|
                        0 <= i < j < p.len() && self@.customers[p[i] as int].name@
                            == self@.customers[p[j] as int].name@ ==> p[i] < p[j]
                },
            is_product_list(r.products@, self@),
    {
        let mut names: Vec<String> = Vec::new();
        for k in 0..self.customers.len()
            invariant
                names@.len() == k,
                forall|a: int| 0 <= a < k ==> #[trigger] names@[a] == self.customers@[a].name,
        {
            names.push(self.customers[k].name.clone());
        }
        let perm = order_by_text(&names, false);
        let mut customers: Vec<Customer> = Vec::new();
        for i in 0..perm.len()
            invariant
                names@.len() == self.customers@.len(),
                is_permutation(perm@, names@.len()),
                customers@.len() == i,
                forall|a: int|
                    0 <= a < i ==> #[trigger] customers@[a] == self.customers@[perm@[a] as int],
        {
            customers.push(self.customers[perm[i]].clone());
        }
        proof {
            assert forall|i: int, j: int| 0 <= i < j < perm@.len() implies !text_lt(
                self@.customers[perm@[j] as int].name@,
                self@.customers[perm@[i] as int].name@,
            ) by {
                assert(!text_before(names@[perm@[j] as int]@, names@[perm@[i] as int]@, false));
            }
            assert forall|i: int, j: int|
                0 <= i < j < perm@.len() && self@.customers[perm@[i] as int].name@
                    == self@.customers[perm@[j] as int].name@ implies perm@[i] < perm@[j] by {
                assert(names@[perm@[i] as int] == self@.customers[perm@[i] as int].name);
                assert(names@[perm@[j] as int] == self@.customers[perm@[j] as int].name);
            }
        }
        SalesCreateTemplate { customers, products: product_list(self) }
    }
}

} // verus!
