//! Recording and deleting a sale: what changes in the tables, and the
//! statements that carry the change to the database.
use vstd::prelude::*;

use crate::models::{Product, Sale, SaleCreateForm, SaleHeader};
use crate::sales::lines_of;
use crate::store::{
    contains_id, customer_ids, distinct, header_ids, product_ids, sale_ids, Snapshot, StoreView,
};

verus! {

/// One line that recording a sale writes: the book, how many copies (taken
/// from its stock), and the unit price charged.
#[derive(Debug, Clone, Copy, PartialEq, Eq)]
pub struct PlannedLine {
    pub product_id: i64,
    pub quantity: i32,
    pub sale_price: i32,
}

/// What recording a sale writes: its header, then its lines in order.
#[derive(Debug, PartialEq, Eq)]
pub struct SalePlan {
    pub header_id: i64,
    pub customer_id: i64,
    pub sale_date: String,
    pub lines: Vec<PlannedLine>,
}

/// Copies that deleting a sale puts back into a book's stock.
#[derive(Debug, Clone, Copy, PartialEq, Eq)]
pub struct StockReturn {
    pub product_id: i64,
    pub quantity: i32,
}

/// Why a sale cannot be recorded or deleted.
#[derive(Debug, Clone, Copy, PartialEq, Eq)]
pub enum SaleError {
    /// The form names a customer that does not exist.
    UnknownCustomer,
    /// The form names a book that does not exist.
    UnknownProduct,
    /// No id is left for the new sale or one of its lines.
    IdsExhausted,
    /// A slot asks for more copies than its book has left in stock after the
    /// earlier slots took theirs.
    InsufficientStock,
    /// Putting copies back would take a stock beyond the `i32` range.
    StockOutOfRange,
}

/// A form slot is used when both its book id and its quantity are positive.
pub open spec fn keep_slot(pid: i64, q: i32) -> Seq<(i64, i32)> {
    if pid > 0 && q > 0 {
        seq![(pid, q)]
    } else {
        seq![]
    }
}

/// The used slots of the form, in order.
pub open spec fn selected_lines(f: SaleCreateForm) -> Seq<(i64, i32)> {
    keep_slot(f.product_id_1, f.quantity_1) + keep_slot(f.product_id_2, f.quantity_2) + keep_slot(
        f.product_id_3,
        f.quantity_3,
    )
}

/// The largest id in `ids`, or 0 for none.
pub open spec fn max_id(ids: Seq<i64>) -> int
    decreases ids.len(),
{
    if ids.len() == 0 {
        0
    } else {
        let m = max_id(ids.drop_last());
        if ids.last() > m {
            ids.last() as int
        } else {
            m
        }
    }
}

/// The larger of two ids.
pub open spec fn larger(a: int, b: int) -> int {
    if a > b {
        a
    } else {
        b
    }
}

/// The id that a new sale gets: one more than any sale id handed out so far
/// (AUTOINCREMENT never gives an id twice).
pub open spec fn new_header_id(v: StoreView) -> int {
    larger(max_id(header_ids(v.headers)), v.header_seq as int) + 1
}

/// The id that the first new sale line gets; the others follow.
pub open spec fn first_line_id(v: StoreView) -> int {
    larger(max_id(sale_ids(v.sales)), v.sale_seq as int) + 1
}

/// Index of the book with id `pid`.
pub open spec fn product_index(products: Seq<Product>, pid: i64) -> int {
    choose|k: int| 0 <= k < products.len() && products[k].id == pid
}

/// The unit price charged for book `pid`: its price, or 0 when it has none.
pub open spec fn price_for(products: Seq<Product>, pid: i64) -> i32 {
    match products[product_index(products, pid)].price {
        Some(p) => p,
        None => 0,
    }
}

/// Book `p` with stock `s`.
pub open spec fn with_stock(p: Product, s: i32) -> Product {
    Product {
        id: p.id,
        name: p.name,
        description: p.description,
        price: p.price,
        stock: s,
        published_date: p.published_date,
    }
}

/// The books after `q` copies of book `pid` are taken from stock where the
/// stock covers them (`stock = stock - q WHERE id = pid AND stock >= q`).
pub open spec fn take_stock(products: Seq<Product>, pid: i64, q: i32) -> Seq<Product> {
    Seq::new(
        products.len(),
        |k: int|
            if products[k].id == pid && products[k].stock >= q {
                with_stock(products[k], (products[k].stock - q) as i32)
            } else {
                products[k]
            },
    )
}

/// The books after `q` copies of book `pid` are put back (`stock = stock + q WHERE id = pid`).
pub open spec fn return_stock(products: Seq<Product>, pid: i64, q: i32) -> Seq<Product> {
    Seq::new(
        products.len(),
        |k: int|
            if products[k].id == pid {
                with_stock(products[k], (products[k].stock + q) as i32)
            } else {
                products[k]
            },
    )
}

/// Putting `q` copies of book `pid` back keeps its stock in the `i32` range.
pub open spec fn return_fits(products: Seq<Product>, pid: i64, q: i32) -> bool {
    forall|k: int|
        0 <= k < products.len() && #[trigger] products[k].id == pid ==> i32::MIN
            <= products[k].stock + q <= i32::MAX
}

/// The lines that recording `lines` writes, and the books after it, line by line.
pub open spec fn plan_lines(products: Seq<Product>, lines: Seq<(i64, i32)>) -> (
    Seq<PlannedLine>,
    Seq<Product>,
)
    decreases lines.len(),
{
    if lines.len() == 0 {
        (seq![], products)
    } else {
        let before = plan_lines(products, lines.drop_last());
        let (pid, q) = lines.last();
        let ps = before.1;
        let line = PlannedLine {
            product_id: pid,
            quantity: q,
            sale_price: price_for(ps, pid),
        };
        (before.0.push(line), take_stock(ps, pid, q))
    }
}

/// Every slot of `lines` finds its quantity in stock once the earlier slots
/// have taken theirs.
pub open spec fn slots_covered(products: Seq<Product>, lines: Seq<(i64, i32)>) -> bool
    decreases lines.len(),
{
    if lines.len() == 0 {
        true
    } else {
        let ps = plan_lines(products, lines.drop_last()).1;
        let (pid, q) = lines.last();
        slots_covered(products, lines.drop_last()) && ps[product_index(ps, pid)].stock >= q
    }
}

/// The books after the lines `lines` are deleted, line by line.
pub open spec fn returned_stock(products: Seq<Product>, lines: Seq<Sale>) -> Seq<Product>
    decreases lines.len(),
{
    if lines.len() == 0 {
        products
    } else {
        let ps = returned_stock(products, lines.drop_last());
        return_stock(ps, lines.last().product_id, lines.last().quantity)
    }
}

/// Every step of putting back the copies of `lines` stays in the `i32` range.
pub open spec fn returns_fit(products: Seq<Product>, lines: Seq<Sale>) -> bool
    decreases lines.len(),
{
    if lines.len() == 0 {
        true
    } else {
        let ps = returned_stock(products, lines.drop_last());
        returns_fit(products, lines.drop_last()) && return_fits(
            ps,
            lines.last().product_id,
            lines.last().quantity,
        )
    }
}

/// Why the form cannot be recorded, if it cannot: its customer must exist,
/// every book it selects must exist, ids must be left for the new rows, and
/// each slot's book must have its quantity in stock.
pub open spec fn create_error(v: StoreView, f: SaleCreateForm) -> Option<SaleError> {
    let sel = selected_lines(f);
    if !v.has_customer(f.customer_id) {
        Some(SaleError::UnknownCustomer)
    } else if exists|k: int| 0 <= k < sel.len() && !v.has_product(#[trigger] sel[k].0) {
        Some(SaleError::UnknownProduct)
    } else if new_header_id(v) > i64::MAX || first_line_id(v) + sel.len() - 1 > i64::MAX {
        Some(SaleError::IdsExhausted)
    } else if !slots_covered(v.products, sel) {
        Some(SaleError::InsufficientStock)
    } else {
        None
    }
}

/// The new sale lines: one per used slot, with the prices of `plan`.
pub open spec fn new_sales(v: StoreView, f: SaleCreateForm) -> Seq<Sale> {
    let sel = selected_lines(f);
    let plan = plan_lines(v.products, sel).0;
    Seq::new(
        sel.len(),
        |k: int|
            Sale {
                id: (first_line_id(v) + k) as i64,
                sale_header_id: new_header_id(v) as i64,
                product_id: sel[k].0,
                quantity: sel[k].1,
                sale_price: plan[k].sale_price,
            },
    )
}

/// The tables after the form is recorded.
pub open spec fn created(v: StoreView, f: SaleCreateForm) -> StoreView {
    StoreView {
        categories: v.categories,
        products: plan_lines(v.products, selected_lines(f)).1,
        product_categories: v.product_categories,
        customers: v.customers,
        headers: v.headers.push(
            SaleHeader {
                id: new_header_id(v) as i64,
                customer_id: f.customer_id,
                sale_date: f.sale_date,
            },
        ),
        sales: v.sales + new_sales(v, f),
        header_seq: new_header_id(v) as i64,
        sale_seq: if selected_lines(f).len() == 0 {
            v.sale_seq
        } else {
            (first_line_id(v) + selected_lines(f).len() - 1) as i64
        },
    }
}

pub open spec fn other_header_pred(id: i64) -> spec_fn(SaleHeader) -> bool {
    |h: SaleHeader| h.id != id
}

pub open spec fn other_line_pred(id: i64) -> spec_fn(Sale) -> bool {
    |s: Sale| s.sale_header_id != id
}

/// The tables after the sale `id` is deleted: its copies are back in stock,
/// and its lines and header are gone.
pub open spec fn deleted(v: StoreView, id: i64) -> StoreView {
    StoreView {
        categories: v.categories,
        products: returned_stock(v.products, lines_of(v.sales, id)),
        product_categories: v.product_categories,
        customers: v.customers,
        headers: v.headers.filter(other_header_pred(id)),
        sales: v.sales.filter(other_line_pred(id)),
        header_seq: v.header_seq,
        sale_seq: v.sale_seq,
    }
}

/// The larger of two ids.
fn larger_of(a: i64, b: i64) -> (r: i64)
    ensures
        r == larger(a as int, b as int),
{
    if a > b {
        a
    } else {
        b
    }
}

/// The largest id in `v`, or 0.
fn max_of(v: &Vec<i64>) -> (r: i64)
    ensures
        r == max_id(v@),
{
    let mut m: i64 = 0;
    for i in 0..v.len()
        invariant
            m == max_id(v@.take(i as int)),
    {
        proof {
            assert(v@.take(i as int + 1).drop_last() =~= v@.take(i as int));
        }
        if v[i] > m {
            m = v[i];
        }
    }
    proof {
        assert(v@.take(v@.len() as int) =~= v@);
    }
    m
}

/// Every id in `ids` is at most `max_id(ids)`, which is at least 0.
pub proof fn lemma_max_id(ids: Seq<i64>)
    ensures
        max_id(ids) >= 0,
        forall|k: int| 0 <= k < ids.len() ==> ids[k] <= max_id(ids),
    decreases ids.len(),
{
    if ids.len() > 0 {
        lemma_max_id(ids.drop_last());
        assert forall|k: int| 0 <= k < ids.len() implies ids[k] <= max_id(ids) by {
            if k < ids.len() - 1 {
                assert(ids[k] == ids.drop_last()[k]);
            }
        }
    }
}

/// Index of the book with id `pid`, if there is one.
fn find_product(products: &Vec<Product>, pid: i64) -> (r: Option<usize>)
    requires
        distinct(product_ids(products@)),
    ensures
        r is None ==> !product_ids(products@).contains(pid),
        r matches Some(k) ==> k < products@.len() && k == product_index(products@, pid)
            && products@[k as int].id == pid,
{
    for k in 0..products.len()
        invariant
            distinct(product_ids(products@)),
            forall|a: int| 0 <= a < k ==> products@[a].id != pid,
    {
        if products[k].id == pid {
            proof {
                assert(products@[k as int].id == pid);
                let c = product_index(products@, pid);
                assert(product_ids(products@)[c] == product_ids(products@)[k as int]);
            }
            return Some(k);
        }
    }
    proof {
        if product_ids(products@).contains(pid) {
            let a = choose|a: int| 0 <= a < product_ids(products@).len() && product_ids(products@)[a] == pid;
            assert(products@[a].id == pid);
        }
    }
    None
}

/// The used slots of the form, in order.
fn form_lines(f: &SaleCreateForm) -> (r: Vec<(i64, i32)>)
    ensures
        r@ == selected_lines(*f),
{
    let mut r: Vec<(i64, i32)> = Vec::new();
    if f.product_id_1 > 0 && f.quantity_1 > 0 {
        r.push((f.product_id_1, f.quantity_1));
    }
    if f.product_id_2 > 0 && f.quantity_2 > 0 {
        r.push((f.product_id_2, f.quantity_2));
    }
    if f.product_id_3 > 0 && f.quantity_3 > 0 {
        r.push((f.product_id_3, f.quantity_3));
    }
    assert(r@ =~= selected_lines(*f));
    r
}

/// `take_stock` keeps every id, so it keeps them distinct and keeps where each book is.
pub proof fn lemma_take_stock_ids(products: Seq<Product>, pid: i64, q: i32)
    ensures
        product_ids(take_stock(products, pid, q)) == product_ids(products),
{
    assert(product_ids(take_stock(products, pid, q)) =~= product_ids(products));
}

/// `return_stock` keeps every id.
pub proof fn lemma_return_stock_ids(products: Seq<Product>, pid: i64, q: i32)
    ensures
        product_ids(return_stock(products, pid, q)) == product_ids(products),
{
    assert(product_ids(return_stock(products, pid, q)) =~= product_ids(products));
}

/// Recording keeps every book id.
pub proof fn lemma_plan_lines_ids(products: Seq<Product>, lines: Seq<(i64, i32)>)
    ensures
        plan_lines(products, lines).1.len() == products.len(),
        product_ids(plan_lines(products, lines).1) == product_ids(products),
        plan_lines(products, lines).0.len() == lines.len(),
    decreases lines.len(),
{
    if lines.len() > 0 {
        lemma_plan_lines_ids(products, lines.drop_last());
        let ps = plan_lines(products, lines.drop_last()).1;
        lemma_take_stock_ids(ps, lines.last().0, lines.last().1);
    }
}

/// Putting copies back keeps every book id.
pub proof fn lemma_returned_stock_ids(products: Seq<Product>, lines: Seq<Sale>)
    ensures
        returned_stock(products, lines).len() == products.len(),
        product_ids(returned_stock(products, lines)) == product_ids(products),
    decreases lines.len(),
{
    if lines.len() > 0 {
        lemma_returned_stock_ids(products, lines.drop_last());
        let ps = returned_stock(products, lines.drop_last());
        lemma_return_stock_ids(ps, lines.last().product_id, lines.last().quantity);
    }
}

impl Snapshot {
    /// Records the sale that the form describes.
    ///
    /// For each used slot, in order, a line is written with the book's price
    /// (0 when it has none), and the book's stock is reduced by the quantity.
    /// A slot whose book has fewer copies left than it asks for (after the
    /// earlier slots took theirs) refuses the whole sale. On success the tables
    /// become `created(old, form)` and the result says what to write; on
    /// failure (`create_error`) nothing changes.
    pub fn create_sale(&mut self, form: &SaleCreateForm) -> (r: Result<SalePlan, SaleError>)
        requires
            old(self)@.well_formed(),
        ensures
            create_error(old(self)@, *form) matches Some(e) ==> r == Err::<SalePlan, SaleError>(e)
                && final(self)@ == old(self)@,
            create_error(old(self)@, *form) is None ==> r is Ok,
            r matches Ok(plan) ==> {
                &&& final(self)@ == created(old(self)@, *form)
                &&& plan.header_id == new_header_id(old(self)@)
                &&& plan.customer_id == form.customer_id
                &&& plan.sale_date == form.sale_date
                &&& plan.lines@ == plan_lines(old(self)@.products, selected_lines(*form)).0
            },
    {
        let ghost v = self@;
        let cust_ids = crate::store::collect_customer_ids(&self.customers);
        if !contains_id(&cust_ids, form.customer_id) {
            return Err(SaleError::UnknownCustomer);
        }
        let sel = form_lines(form);
        for k in 0..sel.len()
            invariant
                self@ == v,
                v.well_formed(),
                sel@ == selected_lines(*form),
                v.has_customer(form.customer_id),
                forall|a: int| 0 <= a < k ==> v.has_product(#[trigger] sel@[a].0),
        {
            match find_product(&self.products, sel[k].0) {
                None => {
                    return Err(SaleError::UnknownProduct);
                },
                Some(i) => {
                    proof {
                        assert(product_ids(self.products@)[i as int] == sel@[k as int].0);
                    }
                },
            }
        }
        let head_ids = crate::store::collect_header_ids(&self.headers);
        let line_ids = crate::store::collect_sale_ids(&self.sales);
        let max_head = larger_of(max_of(&head_ids), self.header_seq);
        let max_line = larger_of(max_of(&line_ids), self.sale_seq);
        proof {
            lemma_max_id(head_ids@);
            lemma_max_id(line_ids@);
        }
        if max_head == i64::MAX || max_line > i64::MAX - sel.len() as i64 {
            return Err(SaleError::IdsExhausted);
        }
        let header_id = max_head + 1;
        let mut ps = copy_products(&self.products);
        let mut news: Vec<Sale> = Vec::new();
        let mut lines: Vec<PlannedLine> = Vec::new();
        for k in 0..sel.len()
            invariant
                self@ == v,
                v.well_formed(),
                sel@ == selected_lines(*form),
                sel@.len() <= 3,
                forall|a: int| 0 <= a < sel@.len() ==> v.has_product(#[trigger] sel@[a].0),
                v.has_customer(form.customer_id),
                header_id == new_header_id(v),
                header_id <= i64::MAX,
                max_line + 1 == first_line_id(v),
                max_line + sel@.len() <= i64::MAX,
                slots_covered(v.products, sel@.take(k as int)),
                ps@ == plan_lines(v.products, sel@.take(k as int)).1,
                lines@ == plan_lines(v.products, sel@.take(k as int)).0,
                news@ == Seq::new(
                    k as nat,
                    |a: int|
                        Sale {
                            id: (first_line_id(v) + a) as i64,
                            sale_header_id: new_header_id(v) as i64,
                            product_id: sel@[a].0,
                            quantity: sel@[a].1,
                            sale_price: plan_lines(v.products, sel@).0[a].sale_price,
                        },
                ),
        {
            let ghost before = ps@;
            proof {
                assert(sel@.take(k as int + 1).drop_last() =~= sel@.take(k as int));
                lemma_plan_lines_ids(v.products, sel@.take(k as int));
                assert(v.has_product(sel@[k as int].0));
            }
            let (pid, q) = sel[k];
            let idx = match find_product(&ps, pid) {
                Some(i) => i,
                None => {
                    proof {
                        assert(product_ids(before) == product_ids(v.products));
                    }
                    return Err(SaleError::UnknownProduct);
                },
            };
            let price = match ps[idx].price {
                Some(p) => p,
                None => 0,
            };
            if ps[idx].stock < q {
                proof {
                    assert(sel@.take(k as int + 1).last() == (pid, q));
                    assert(!slots_covered(v.products, sel@.take(k as int + 1)));
                    if slots_covered(v.products, sel@) {
                        lemma_covered_prefix(v.products, sel@, k as int + 1);
                    }
                }
                return Err(SaleError::InsufficientStock);
            }
            let s = ps[idx].stock - q;
            ps[idx].stock = s;
            proof {
                lemma_plan_step(v.products, sel@, k as int, idx as int);
                assert(ps@ =~= plan_lines(v.products, sel@.take(k as int + 1)).1);
                // the price of line `k` is the same in the full plan
                lemma_plan_prefix(v.products, sel@, k as int + 1);
            }
            lines.push(PlannedLine { product_id: pid, quantity: q, sale_price: price });
            news.push(
                Sale {
                    id: max_line + (k as i64 + 1),
                    sale_header_id: header_id,
                    product_id: pid,
                    quantity: q,
                    sale_price: price,
                },
            );
            proof {
                assert(news@ =~= Seq::new(
                    (k + 1) as nat,
                    |a: int|
                        Sale {
                            id: (first_line_id(v) + a) as i64,
                            sale_header_id: new_header_id(v) as i64,
                            product_id: sel@[a].0,
                            quantity: sel@[a].1,
                            sale_price: plan_lines(v.products, sel@).0[a].sale_price,
                        },
                ));
            }
        }
        proof {
            assert(sel@.take(sel@.len() as int) =~= sel@);
            assert(news@ =~= new_sales(v, *form));
        }
        self.products = ps;
        for j in 0..news.len()
            invariant
                self.sales@ == v.sales + news@.take(j as int),
                self.categories@ == v.categories,
                self.product_categories@ == v.product_categories,
                self.customers@ == v.customers,
                self.headers@ == v.headers,
                self.header_seq == v.header_seq,
                self.sale_seq == v.sale_seq,
                self.products@ == plan_lines(v.products, selected_lines(*form)).1,
                news@ == new_sales(v, *form),
        {
            proof {
                assert(news@.take(j as int + 1) =~= news@.take(j as int).push(news@[j as int]));
            }
            self.sales.push(news[j]);
        }
        proof {
            assert(news@.take(news@.len() as int) =~= news@);
        }
        self.headers.push(
            SaleHeader { id: header_id, customer_id: form.customer_id, sale_date: form.sale_date.clone() },
        );
        self.header_seq = header_id;
        if sel.len() > 0 {
            self.sale_seq = max_line + sel.len() as i64;
        }
        proof {
            assert(self@ =~= created(v, *form));
        }
        Ok(SalePlan {
            header_id,
            customer_id: form.customer_id,
            sale_date: form.sale_date.clone(),
            lines,
        })
    }
}

/// One more slot, whose book (at `idx`) has its quantity left in stock: the
/// plan grows by that line and the book's stock drops by the quantity.
pub proof fn lemma_plan_step(products: Seq<Product>, lines: Seq<(i64, i32)>, k: int, idx: int)
    requires
        0 <= k < lines.len(),
        distinct(product_ids(products)),
        slots_covered(products, lines.take(k)),
        0 <= idx < products.len(),
        plan_lines(products, lines.take(k)).1[idx].id == lines[k].0,
        plan_lines(products, lines.take(k)).1[idx].stock >= lines[k].1,
    ensures
        ({
            let before = plan_lines(products, lines.take(k)).1;
            let (pid, q) = lines[k];
            &&& plan_lines(products, lines.take(k + 1)).1 == before.update(
                idx,
                with_stock(before[idx], (before[idx].stock - q) as i32),
            )
            &&& plan_lines(products, lines.take(k + 1)).0 == plan_lines(products, lines.take(k)).0.push(
                PlannedLine { product_id: pid, quantity: q, sale_price: price_for(before, pid) },
            )
            &&& slots_covered(products, lines.take(k + 1))
            &&& idx == product_index(before, pid)
        }),
{
    let before = plan_lines(products, lines.take(k)).1;
    let (pid, q) = lines[k];
    assert(lines.take(k + 1).drop_last() =~= lines.take(k));
    lemma_plan_lines_ids(products, lines.take(k));
    lemma_take_stock_ids(before, pid, q);
    let c = product_index(before, pid);
    assert(product_ids(before)[idx] == pid);
    assert(0 <= c < before.len() && before[c].id == pid);
    assert(product_ids(before)[c] == product_ids(before)[idx]);
    assert forall|a: int| 0 <= a < before.len() implies take_stock(before, pid, q)[a]
        == before.update(idx, with_stock(before[idx], (before[idx].stock - q) as i32))[a] by {
        if a != idx && before[a].id == pid {
            assert(product_ids(before)[a] == product_ids(before)[idx]);
        }
    }
    assert(take_stock(before, pid, q) =~= before.update(
        idx,
        with_stock(before[idx], (before[idx].stock - q) as i32),
    ));
}

/// Covering a list of slots covers each of its prefixes.
pub proof fn lemma_covered_prefix(products: Seq<Product>, lines: Seq<(i64, i32)>, n: int)
    requires
        0 <= n <= lines.len(),
        slots_covered(products, lines),
    ensures
        slots_covered(products, lines.take(n)),
    decreases lines.len(),
{
    if n < lines.len() {
        assert(lines.drop_last().take(n) =~= lines.take(n));
        lemma_covered_prefix(products, lines.drop_last(), n);
    } else {
        assert(lines.take(n) =~= lines);
    }
}

/// The plan of a prefix of the lines is a prefix of the plan.
pub proof fn lemma_plan_prefix(products: Seq<Product>, lines: Seq<(i64, i32)>, n: int)
    requires
        0 <= n <= lines.len(),
    ensures
        plan_lines(products, lines).0.len() == lines.len(),
        forall|k: int|
            0 <= k < n ==> #[trigger] plan_lines(products, lines).0[k] == plan_lines(
                products,
                lines.take(n),
            ).0[k],
    decreases lines.len(),
{
    lemma_plan_lines_ids(products, lines);
    lemma_plan_lines_ids(products, lines.take(n));
    if n < lines.len() {
        assert(lines.drop_last().take(n) =~= lines.take(n));
        lemma_plan_prefix(products, lines.drop_last(), n);
        lemma_plan_lines_ids(products, lines.drop_last());
    } else {
        assert(lines.take(n) =~= lines);
    }
}

/// The copies put back for deleted lines: each line's book and quantity.
pub open spec fn returns_of(lines: Seq<Sale>) -> Seq<StockReturn> {
    Seq::new(
        lines.len(),
        |k: int| StockReturn { product_id: lines[k].product_id, quantity: lines[k].quantity },
    )
}

/// `ps` after `q` copies of book `pid` are put back; `None` when a stock would
/// leave the `i32` range.
fn put_back(ps: &mut Vec<Product>, pid: i64, q: i32) -> (ok: bool)
    ensures
        ok == return_fits(old(ps)@, pid, q),
        ok ==> final(ps)@ == return_stock(old(ps)@, pid, q),
{
    let ghost before = ps@;
    let n = ps.len();
    for k in 0..n
        invariant
            before == old(ps)@,
            n == before.len(),
            ps@.len() == n,
            forall|a: int| 0 <= a < k ==> ps@[a] == return_stock(before, pid, q)[a],
            forall|a: int| k <= a < n ==> ps@[a] == before[a],
            forall|a: int|
                0 <= a < k && #[trigger] before[a].id == pid ==> i32::MIN <= before[a].stock + q
                    <= i32::MAX,
    {
        if ps[k].id == pid {
            if ps[k].stock as i64 + q as i64 > i32::MAX as i64 || (ps[k].stock as i64 + q as i64)
                < i32::MIN as i64 {
                proof {
                    assert(ps@[k as int] == before[k as int]);
                    assert(before[k as int].id == pid);
                    assert(!(i32::MIN <= before[k as int].stock + q <= i32::MAX));
                }
                return false;
            }
            let s = ps[k].stock + q;
            ps[k].stock = s;
        }
    }
    proof {
        assert(ps@ =~= return_stock(before, pid, q));
    }
    true
}

/// A copy of the books.
fn copy_products(ps: &Vec<Product>) -> (r: Vec<Product>)
    ensures
        r@ == ps@,
{
    let mut r: Vec<Product> = Vec::new();
    for i in 0..ps.len()
        invariant
            r@ =~= ps@.take(i as int),
    {
        r.push(ps[i].clone());
    }
    assert(ps@.take(ps@.len() as int) =~= ps@);
    r
}

impl Snapshot {
    /// Deletes the sale with id `id`: each of its lines, in table order, puts
    /// its copies back into its book's stock; then its lines and its header
    /// are removed. A sale that does not exist leaves the tables as they are.
    ///
    /// On success the tables become `deleted(old, id)` and the result lists the
    /// copies put back; when a stock would leave the `i32` range nothing changes.
    pub fn delete_sale(&mut self, id: i64) -> (r: Result<Vec<StockReturn>, SaleError>)
        ensures
            (r is Ok) == returns_fit(old(self)@.products, lines_of(old(self)@.sales, id)),
            r is Err ==> r == Err::<Vec<StockReturn>, SaleError>(SaleError::StockOutOfRange)
                && final(self)@ == old(self)@,
            r matches Ok(rs) ==> final(self)@ == deleted(old(self)@, id) && rs@ == returns_of(
                lines_of(old(self)@.sales, id),
            ),
    {
        let ghost v = self@;
        let ghost hp = crate::sales::header_pred(id);
        let mut lines: Vec<Sale> = Vec::new();
        let mut kept_sales: Vec<Sale> = Vec::new();
        for i in 0..self.sales.len()
            invariant
                self@ == v,
                hp == crate::sales::header_pred(id),
                lines@ == self.sales@.take(i as int).filter(hp),
                kept_sales@ == self.sales@.take(i as int).filter(other_line_pred(id)),
        {
            proof {
                crate::sales::lemma_filter_take_step(self.sales@, hp, i as int);
                crate::sales::lemma_filter_take_step(self.sales@, other_line_pred(id), i as int);
            }
            if self.sales[i].sale_header_id == id {
                lines.push(self.sales[i]);
            } else {
                kept_sales.push(self.sales[i]);
            }
        }
        proof {
            assert(self.sales@.take(self.sales@.len() as int) =~= self.sales@);
        }
        let mut ps = copy_products(&self.products);
        let mut put_backs: Vec<StockReturn> = Vec::new();
        for j in 0..lines.len()
            invariant
                self@ == v,
                lines@ == lines_of(v.sales, id),
                ps@ == returned_stock(v.products, lines@.take(j as int)),
                returns_fit(v.products, lines@.take(j as int)),
                put_backs@ == returns_of(lines@.take(j as int)),
        {
            proof {
                assert(lines@.take(j as int + 1).drop_last() =~= lines@.take(j as int));
            }
            let l = lines[j];
            if !put_back(&mut ps, l.product_id, l.quantity) {
                proof {
                    if returns_fit(v.products, lines@) {
                        lemma_returns_fit_prefix(v.products, lines@, j as int + 1);
                    }
                }
                return Err(SaleError::StockOutOfRange);
            }
            put_backs.push(StockReturn { product_id: l.product_id, quantity: l.quantity });
            proof {
                assert(put_backs@ =~= returns_of(lines@.take(j as int + 1)));
            }
        }
        proof {
            assert(lines@.take(lines@.len() as int) =~= lines@);
        }
        let mut kept_headers: Vec<SaleHeader> = Vec::new();
        for i in 0..self.headers.len()
            invariant
                self@ == v,
                kept_headers@ == self.headers@.take(i as int).filter(other_header_pred(id)),
        {
            proof {
                crate::sales::lemma_filter_take_step(self.headers@, other_header_pred(id), i as int);
            }
            if self.headers[i].id != id {
                kept_headers.push(self.headers[i].clone());
            }
        }
        proof {
            assert(self.headers@.take(self.headers@.len() as int) =~= self.headers@);
        }
        self.products = ps;
        self.sales = kept_sales;
        self.headers = kept_headers;
        proof {
            assert(self@ =~= deleted(v, id));
        }
        Ok(put_backs)
    }
}

/// When putting back the copies of a prefix fails, putting back all of them fails.
pub proof fn lemma_returns_fit_prefix(products: Seq<Product>, lines: Seq<Sale>, n: int)
    requires
        0 <= n <= lines.len(),
        returns_fit(products, lines),
    ensures
        returns_fit(products, lines.take(n)),
    decreases lines.len(),
{
    if n < lines.len() {
        assert(lines.drop_last().take(n) =~= lines.take(n));
        lemma_returns_fit_prefix(products, lines.drop_last(), n);
    } else {
        assert(lines.take(n) =~= lines);
    }
}

} // verus!
