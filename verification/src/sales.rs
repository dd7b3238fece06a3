//! Sales as shown to the user: a sale with its customer's name, its lines with
//! the books' names, subtotals and total.
use vstd::prelude::*;

use crate::models::{Customer, Product, Sale, SaleDetail, SaleHeader, SaleItem};
use crate::order::{is_permutation, order_by_text, text_lt};
use crate::store::{
    amount_w, customer_ids, distinct, fits32, header_ids, line_amount, product_ids, sum_of, Snapshot,
    StoreView,
};

verus! {

/// Why a report cannot be produced.
#[derive(Debug, Clone, Copy, PartialEq, Eq)]
pub enum QueryError {
    /// The requested row does not exist (the database answers "no rows").
    NotFound,
    /// A sum that the database computes leaves the 64-bit range (SQLite's
    /// "integer overflow").
    Overflow,
    /// A subtotal or total that the handler itself computes leaves the range
    /// of its type (an arithmetic overflow in the handler).
    Arithmetic,
}

/// The name shown for a customer or a book that cannot be found.
pub open spec fn unknown_name() -> Seq<char> {
    "\u{4e0d}\u{660e}"@
}

pub open spec fn header_pred(hid: i64) -> spec_fn(Sale) -> bool {
    |s: Sale| s.sale_header_id == hid
}

/// The lines of one sale, in table order.
pub open spec fn lines_of(sales: Seq<Sale>, hid: i64) -> Seq<Sale> {
    sales.filter(header_pred(hid))
}

/// The name of the customer with id `cid`, or `unknown_name()`.
pub open spec fn customer_name_for(customers: Seq<Customer>, cid: i64) -> Seq<char> {
    if exists|k: int| 0 <= k < customers.len() && customers[k].id == cid {
        customers[choose|k: int| 0 <= k < customers.len() && customers[k].id == cid].name@
    } else {
        unknown_name()
    }
}

/// The name of the book with id `pid`, or `unknown_name()`.
pub open spec fn product_name_for(products: Seq<Product>, pid: i64) -> Seq<char> {
    if exists|k: int| 0 <= k < products.len() && products[k].id == pid {
        products[choose|k: int| 0 <= k < products.len() && products[k].id == pid].name@
    } else {
        unknown_name()
    }
}

/// `it` shows sale line `s`.
pub open spec fn item_matches(it: SaleItem, s: Sale, products: Seq<Product>) -> bool {
    &&& it.product_id == s.product_id
    &&& it.product_name@ == product_name_for(products, s.product_id)
    &&& it.quantity == s.quantity
    &&& it.sale_price == s.sale_price
    &&& it.subtotal == line_amount(s)
}

/// Every subtotal of `lines`, and every running total of them, fits in `i32`.
pub open spec fn amounts_fit(lines: Seq<Sale>) -> bool {
    &&& forall|k: int| 0 <= k < lines.len() ==> fits32(line_amount(#[trigger] lines[k]))
    &&& forall|k: int|
        0 <= k <= lines.len() ==> fits32(#[trigger] sum_of(lines.take(k), amount_w()))
}

/// `d` shows the sale with header `h`.
pub open spec fn detail_matches(d: SaleDetail, h: SaleHeader, v: StoreView) -> bool {
    let lines = lines_of(v.sales, h.id);
    &&& d.id == h.id
    &&& d.customer_id == h.customer_id
    &&& d.customer_name@ == customer_name_for(v.customers, h.customer_id)
    &&& d.sale_date == h.sale_date
    &&& d.items@.len() == lines.len()
    &&& forall|k: int|
        0 <= k < lines.len() ==> item_matches(#[trigger] d.items@[k], lines[k], v.products)
    &&& d.total_amount == sum_of(lines, amount_w())
}

/// `v` shows every sale, latest date first, sales of the same date in table order.
pub open spec fn is_sale_list(v: Seq<SaleDetail>, s: StoreView) -> bool {
    exists|p: Seq<usize>|
        {
            &&& is_permutation(p, s.headers.len())
            &&& v.len() == p.len()
            &&& forall|i: int|
                0 <= i < p.len() ==> detail_matches(#[trigger] v[i], s.headers[p[i] as int], s)
            &&& forall|i: int, j: int|
                0 <= i < j < p.len() ==> !text_lt(
                    s.headers[p[i] as int].sale_date@,
                    s.headers[p[j] as int].sale_date@,
                )
            &&& forall|i: int, j: int|
                0 <= i < j < p.len() && s.headers[p[i] as int].sale_date@
                    == s.headers[p[j] as int].sale_date@ ==> p[i] < p[j]
        }
}

/// Filtering a sequence is filtering its two halves.
pub proof fn lemma_filter_split<A>(s: Seq<A>, p: spec_fn(A) -> bool, i: int)
    requires
        0 <= i <= s.len(),
    ensures
        s.filter(p) == s.take(i).filter(p) + s.skip(i).filter(p),
{
    assert(s =~= s.take(i) + s.skip(i));
    Seq::filter_distributes_over_add(s.take(i), s.skip(i), p);
}

/// Filtering a prefix one element longer.
pub proof fn lemma_filter_take_step<A>(s: Seq<A>, p: spec_fn(A) -> bool, i: int)
    requires
        0 <= i < s.len(),
    ensures
        s.take(i + 1).filter(p) == (if p(s[i]) {
            s.take(i).filter(p).push(s[i])
        } else {
            s.take(i).filter(p)
        }),
{
    reveal(Seq::filter);
    assert(s.take(i + 1).drop_last() =~= s.take(i));
}

/// The filtered prefix `s.take(i + 1)` is a prefix of the filtered whole, and
/// when `s[i]` is kept it is the element right after the filtered `s.take(i)`.
pub proof fn lemma_filter_prefix<A>(s: Seq<A>, p: spec_fn(A) -> bool, i: int)
    requires
        0 <= i < s.len(),
    ensures
        s.take(i + 1).filter(p).len() <= s.filter(p).len(),
        s.filter(p).take(s.take(i + 1).filter(p).len() as int) == s.take(i + 1).filter(p),
        p(s[i]) ==> s.filter(p)[s.take(i).filter(p).len() as int] == s[i],
{
    lemma_filter_split(s, p, i + 1);
    lemma_filter_take_step(s, p, i);
    let a = s.take(i + 1).filter(p);
    let b = s.skip(i + 1).filter(p);
    assert((a + b).take(a.len() as int) =~= a);
    if p(s[i]) {
        assert((a + b)[s.take(i).filter(p).len() as int] == a[s.take(i).filter(p).len() as int]);
    }
}

/// The name of the customer with id `cid`, or the unknown name.
fn customer_name(customers: &Vec<Customer>, cid: i64) -> (r: String)
    requires
        distinct(customer_ids(customers@)),
    ensures
        r@ == customer_name_for(customers@, cid),
{
    for k in 0..customers.len()
        invariant
            distinct(customer_ids(customers@)),
            forall|a: int| 0 <= a < k ==> customers@[a].id != cid,
    {
        if customers[k].id == cid {
            proof {
                assert(customers@[k as int].id == cid);
                assert(exists|a: int| 0 <= a < customers@.len() && customers@[a].id == cid);
                let c = choose|a: int| 0 <= a < customers@.len() && customers@[a].id == cid;
                assert(customer_ids(customers@)[c] == customer_ids(customers@)[k as int]);
                assert(c == k);
            }
            return customers[k].name.clone();
        }
    }
    "\u{4e0d}\u{660e}".to_owned()
}

/// The name of the book with id `pid`, or the unknown name.
pub fn product_name(products: &Vec<Product>, pid: i64) -> (r: String)
    requires
        distinct(product_ids(products@)),
    ensures
        r@ == product_name_for(products@, pid),
{
    for k in 0..products.len()
        invariant
            distinct(product_ids(products@)),
            forall|a: int| 0 <= a < k ==> products@[a].id != pid,
    {
        if products[k].id == pid {
            proof {
                assert(products@[k as int].id == pid);
                assert(exists|a: int| 0 <= a < products@.len() && products@[a].id == pid);
                let c = choose|a: int| 0 <= a < products@.len() && products@[a].id == pid;
                assert(product_ids(products@)[c] == product_ids(products@)[k as int]);
                assert(c == k);
            }
            return products[k].name.clone();
        }
    }
    "\u{4e0d}\u{660e}".to_owned()
}

/// The sale with header `h`, shown; `None` when a subtotal or running total
/// leaves the `i32` range.
fn build_detail(snap: &Snapshot, h: &SaleHeader) -> (r: Option<SaleDetail>)
    requires
        snap@.well_formed(),
    ensures
        r.is_some() == amounts_fit(lines_of(snap@.sales, h.id)),
        r matches Some(d) ==> detail_matches(d, *h, snap@),
{
    let ghost p = header_pred(h.id);
    let ghost full = lines_of(snap@.sales, h.id);
    let customer_name = customer_name(&snap.customers, h.customer_id);
    let mut items: Vec<SaleItem> = Vec::new();
    let mut total: i32 = 0;
    let n = snap.sales.len();
    for i in 0..n
        invariant
            n == snap.sales@.len(),
            snap@.well_formed(),
            p == header_pred(h.id),
            full == lines_of(snap@.sales, h.id),
            items@.len() == snap.sales@.take(i as int).filter(p).len(),
            forall|k: int|
                0 <= k < items@.len() ==> item_matches(
                    #[trigger] items@[k],
                    snap.sales@.take(i as int).filter(p)[k],
                    snap.products@,
                ),
            total == sum_of(snap.sales@.take(i as int).filter(p), amount_w()),
            amounts_fit(snap.sales@.take(i as int).filter(p)),
    {
        proof {
            lemma_filter_take_step(snap.sales@, p, i as int);
            lemma_filter_prefix(snap.sales@, p, i as int);
        }
        let s = snap.sales[i];
        if s.sale_header_id == h.id {
            let ghost before = snap.sales@.take(i as int).filter(p);
            let ghost after = snap.sales@.take(i as int + 1).filter(p);
            assert(after == before.push(s));
            proof {
                let q = s.quantity as int;
                let pr = s.sale_price as int;
                assert(-4611686018427387904 <= q * pr <= 4611686018427387904) by (nonlinear_arith)
                    requires
                        -2147483648 <= q <= 2147483647,
                        -2147483648 <= pr <= 2147483647,
                ;
            }
            let sub = (s.quantity as i64) * (s.sale_price as i64);
            if sub < i32::MIN as i64 || sub > i32::MAX as i64 {
                proof {
                    let k = before.len() as int;
                    assert(full[k] == s);
                }
                return None;
            }
            let next = total as i64 + sub;
            if next < i32::MIN as i64 || next > i32::MAX as i64 {
                proof {
                    let k = before.len() as int;
                    assert(full.take(k + 1) == after);
                    assert(after.drop_last() =~= before);
                    assert(sum_of(full.take(k + 1), amount_w()) == next);
                }
                return None;
            }
            let name = product_name(&snap.products, s.product_id);
            items.push(
                SaleItem {
                    product_id: s.product_id,
                    product_name: name,
                    quantity: s.quantity,
                    sale_price: s.sale_price,
                    subtotal: sub as i32,
                },
            );
            total = next as i32;
            proof {
                assert(after.drop_last() =~= before);
                assert forall|k: int| 0 <= k <= after.len() implies fits32(
                    #[trigger] sum_of(after.take(k), amount_w()),
                ) by {
                    if k < after.len() {
                        assert(after.take(k) =~= before.take(k));
                    } else {
                        assert(after.take(k) =~= after);
                    }
                }
                assert forall|k: int| 0 <= k < items@.len() implies item_matches(
                    #[trigger] items@[k],
                    after[k],
                    snap.products@,
                ) by {
                    if k < before.len() {
                        assert(after[k] == before[k]);
                    }
                }
            }
        }
    }
    proof {
        assert(snap.sales@.take(n as int) =~= snap.sales@);
    }
    Some(
        SaleDetail {
            id: h.id,
            customer_id: h.customer_id,
            customer_name,
            sale_date: h.sale_date.clone(),
            items,
            total_amount: total,
        },
    )
}

impl Snapshot {
    /// The sale with id `id`, with its customer's name, its lines and its total.
    ///
    /// Fails with `NotFound` when no sale has that id, and with `Arithmetic`
    /// when a line's subtotal or the running total leaves the `i32` range.
    pub fn sale_detail(&self, id: i64) -> (r: Result<SaleDetail, QueryError>)
        requires
            self@.well_formed(),
        ensures
            !self@.has_header(id) ==> r == Err::<SaleDetail, QueryError>(QueryError::NotFound),
            forall|k: int|
                0 <= k < self@.headers.len() && #[trigger] self@.headers[k].id == id ==> {
                    &&& (r is Ok) == amounts_fit(lines_of(self@.sales, id))
                    &&& !amounts_fit(lines_of(self@.sales, id)) ==> r == Err::<
                        SaleDetail,
                        QueryError,
                    >(QueryError::Arithmetic)
                    &&& r matches Ok(d) ==> detail_matches(d, self@.headers[k], self@)
                },
    {
        for k in 0..self.headers.len()
            invariant
                self@.well_formed(),
                forall|a: int| 0 <= a < k ==> self.headers@[a].id != id,
        {
            if self.headers[k].id == id {
                proof {
                    assert(header_ids(self@.headers)[k as int] == id);
                    assert forall|a: int|
                        0 <= a < self@.headers.len() && #[trigger] self@.headers[a].id == id implies a
                        == k by {
                        if a != k {
                            assert(header_ids(self@.headers)[a] == header_ids(self@.headers)[k as int]);
                        }
                    }
                }
                return match build_detail(self, &self.headers[k]) {
                    Some(d) => Ok(d),
                    None => Err(QueryError::Arithmetic),
                };
            }
        }
        proof {
            if self@.has_header(id) {
                let a = choose|a: int| 0 <= a < header_ids(self@.headers).len() && header_ids(self@.headers)[a] == id;
                assert(self.headers@[a].id == id);
            }
        }
        Err(QueryError::NotFound)
    }

    /// Every sale, latest date first (sales of the same date in table order),
    /// each with its customer's name, its lines and its total.
    ///
    /// Fails with `Arithmetic` when, in some sale, a line's subtotal or the
    /// running total leaves the `i32` range.
    pub fn sale_list(&self) -> (r: Result<Vec<SaleDetail>, QueryError>)
        requires
            self@.well_formed(),
        ensures
            (r is Ok) == (forall|k: int|
                0 <= k < self@.headers.len() ==> amounts_fit(
                    lines_of(self@.sales, #[trigger] self@.headers[k].id),
                )),
            r is Err ==> r == Err::<Vec<SaleDetail>, QueryError>(QueryError::Arithmetic),
            r matches Ok(v) ==> is_sale_list(v@, self@),
    {
        let mut dates: Vec<String> = Vec::new();
        for k in 0..self.headers.len()
            invariant
                dates@.len() == k,
                forall|a: int| 0 <= a < k ==> #[trigger] dates@[a] == self.headers@[a].sale_date,
        {
            dates.push(self.headers[k].sale_date.clone());
        }
        let perm = order_by_text(&dates, true);
        proof {
            assert forall|a: int, b: int| 0 <= a < b < perm@.len() implies !text_lt(
                dates@[perm@[a] as int]@,
                dates@[perm@[b] as int]@,
            ) by {
                assert(!crate::order::text_before(
                    dates@[perm@[b] as int]@,
                    dates@[perm@[a] as int]@,
                    true,
                ));
            }
        }
        let mut out: Vec<SaleDetail> = Vec::new();
        for i in 0..perm.len()
            invariant
                self@.well_formed(),
                dates@.len() == self.headers@.len(),
                forall|a: int| 0 <= a < dates@.len() ==> #[trigger] dates@[a] == self.headers@[a].sale_date,
                is_permutation(perm@, dates@.len()),
                forall|a: int, b: int|
                    0 <= a < b < perm@.len() ==> !text_lt(
                        dates@[perm@[a] as int]@,
                        dates@[perm@[b] as int]@,
                    ),
                forall|a: int, b: int|
                    0 <= a < b < perm@.len() && dates@[perm@[a] as int]@ == dates@[perm@[b] as int]@
                        ==> perm@[a] < perm@[b],
                out@.len() == i,
                forall|a: int|
                    0 <= a < i ==> amounts_fit(
                        lines_of(self@.sales, #[trigger] self@.headers[perm@[a] as int].id),
                    ),
                forall|a: int|
                    0 <= a < i ==> detail_matches(
                        #[trigger] out@[a],
                        self@.headers[perm@[a] as int],
                        self@,
                    ),
        {
            let idx = perm[i];
            match build_detail(self, &self.headers[idx]) {
                Some(d) => {
                    out.push(d);
                },
                None => {
                    return Err(QueryError::Arithmetic);
                },
            }
        }
        proof {
            assert forall|k: int|
                0 <= k < self@.headers.len() implies amounts_fit(
                lines_of(self@.sales, #[trigger] self@.headers[k].id),
            ) by {
                assert(perm@.contains(k as usize));
                let a = choose|a: int| 0 <= a < perm@.len() && perm@[a] == k as usize;
                assert(perm@[a] as int == k);
            }
            assert forall|i: int, j: int| 0 <= i < j < perm@.len() implies !text_lt(
                self@.headers[perm@[i] as int].sale_date@,
                self@.headers[perm@[j] as int].sale_date@,
            ) by {
                assert(dates@[perm@[i] as int] == self@.headers[perm@[i] as int].sale_date);
                assert(dates@[perm@[j] as int] == self@.headers[perm@[j] as int].sale_date);
            }
            assert forall|i: int, j: int|
                0 <= i < j < perm@.len() && self@.headers[perm@[i] as int].sale_date@
                    == self@.headers[perm@[j] as int].sale_date@ implies perm@[i] < perm@[j] by {
                assert(dates@[perm@[i] as int] == self@.headers[perm@[i] as int].sale_date);
                assert(dates@[perm@[j] as int] == self@.headers[perm@[j] as int].sale_date);
            }
        }
        Ok(out)
    }
}

} // verus!
