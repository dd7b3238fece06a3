//! Properties that hold across the store's operations.
use vstd::prelude::*;

use crate::models::{
    Product, ProductWithCategories, Sale, SaleCreateForm, SaleDetail, SaleHeader, SaleItem,
    SalesRanking,
};
use crate::order::{
    is_permutation, lemma_sorted_permutation_unique, lemma_text_lt_irreflexive, lemma_text_lt_total,
    lemma_text_lt_transitive, text_lt,
};
use crate::reports::{is_ranking, rank_key, ranking_row_matches};
use crate::sales::{detail_matches, header_pred, is_sale_list, item_matches, lines_of};
use crate::templates::{is_product_list, with_categories_matches};
use crate::store::{
    amount_w, distinct, header_ids, lemma_sum_of_take, line_amount, product_amount, product_ids,
    product_lines, product_quantity, product_quantity_w, sale_ids, same_tables, sum_of, StoreView,
};
use crate::transactions::{
    created, deleted, first_line_id, lemma_returned_stock_ids, product_index, slots_covered, lemma_max_id, lemma_plan_lines_ids, max_id, new_header_id,
    new_sales, other_header_pred, other_line_pred, plan_lines, return_fits, return_stock,
    returned_stock, returns_fit, selected_lines, take_stock, with_stock,
};

verus! {

/// Copies of book `pid` that the slots `lines` ask for.
pub open spec fn requested(lines: Seq<(i64, i32)>, pid: i64) -> int {
    sum_of(lines, requested_w(pid))
}

pub open spec fn requested_w(pid: i64) -> spec_fn((i64, i32)) -> int {
    |l: (i64, i32)|
        if l.0 == pid {
            l.1 as int
        } else {
            0
        }
}

/// Every book has in stock all the copies that the form asks of it.
pub open spec fn stock_covers(v: StoreView, f: SaleCreateForm) -> bool {
    forall|k: int|
        0 <= k < v.products.len() && requested(selected_lines(f), v.products[k].id) > 0
            ==> #[trigger] v.products[k].stock >= requested(selected_lines(f), v.products[k].id)
}

/// Filtering keeps nothing when no element passes.
pub proof fn lemma_filter_none<A>(s: Seq<A>, p: spec_fn(A) -> bool)
    requires
        forall|i: int| 0 <= i < s.len() ==> !p(#[trigger] s[i]),
    ensures
        s.filter(p) == Seq::<A>::empty(),
    decreases s.len(),
{
    reveal(Seq::filter);
    if s.len() > 0 {
        lemma_filter_none(s.drop_last(), p);
    }
    assert(s.filter(p) =~= Seq::<A>::empty());
}

/// Filtering keeps everything when every element passes.
pub proof fn lemma_filter_all<A>(s: Seq<A>, p: spec_fn(A) -> bool)
    requires
        forall|i: int| 0 <= i < s.len() ==> p(#[trigger] s[i]),
    ensures
        s.filter(p) == s,
    decreases s.len(),
{
    reveal(Seq::filter);
    if s.len() > 0 {
        lemma_filter_all(s.drop_last(), p);
        assert(s.drop_last().push(s.last()) =~= s);
    } else {
        assert(s.filter(p) =~= s);
    }
}

/// Taking the requested copies, slot by slot, when stock covers them: each
/// book's stock drops by what the slots ask of it.
pub proof fn lemma_take_all(products: Seq<Product>, lines: Seq<(i64, i32)>)
    requires
        forall|i: int| 0 <= i < lines.len() ==> #[trigger] lines[i].1 > 0,
        forall|k: int|
            0 <= k < products.len() && requested(lines, products[k].id) > 0
                ==> #[trigger] products[k].stock >= requested(lines, products[k].id),
    ensures
        plan_lines(products, lines).1 == Seq::new(
            products.len(),
            |k: int|
                with_stock(
                    products[k],
                    (products[k].stock - requested(lines, products[k].id)) as i32,
                ),
        ),
    decreases lines.len(),
{
    if lines.len() == 0 {
        assert forall|k: int| 0 <= k < products.len() implies with_stock(
            products[k],
            (products[k].stock - requested(lines, products[k].id)) as i32,
        ) == products[k] by {}
        assert(plan_lines(products, lines).1 =~= Seq::new(
            products.len(),
            |k: int|
                with_stock(
                    products[k],
                    (products[k].stock - requested(lines, products[k].id)) as i32,
                ),
        ));
    } else {
        let init = lines.drop_last();
        let (pid, q) = lines.last();
        assert forall|k: int|
            0 <= k < products.len() && requested(init, products[k].id) > 0 implies #[trigger] products[k].stock
            >= requested(init, products[k].id) by {
            assert(requested(lines, products[k].id) == requested(init, products[k].id)
                + requested_w(products[k].id)(lines.last()));
            assert(lines[lines.len() - 1].1 > 0);
        }
        lemma_take_all(products, init);
        let ps = plan_lines(products, init).1;
        assert forall|k: int| 0 <= k < products.len() implies take_stock(ps, pid, q)[k]
            == with_stock(
            products[k],
            (products[k].stock - requested(lines, products[k].id)) as i32,
        ) by {
            assert(requested(lines, products[k].id) == requested(init, products[k].id)
                + requested_w(products[k].id)(lines.last()));
            assert(lines[lines.len() - 1].1 > 0);
            lemma_requested_nonneg(init, products[k].id);
            assert(ps[k] == with_stock(
                products[k],
                (products[k].stock - requested(init, products[k].id)) as i32,
            ));
        }
        assert(take_stock(ps, pid, q) =~= Seq::new(
            products.len(),
            |k: int|
                with_stock(
                    products[k],
                    (products[k].stock - requested(lines, products[k].id)) as i32,
                ),
        ));
    }
}

/// Copies asked for by slots of positive quantity are not negative.
pub proof fn lemma_requested_nonneg(lines: Seq<(i64, i32)>, pid: i64)
    requires
        forall|i: int| 0 <= i < lines.len() ==> #[trigger] lines[i].1 > 0,
    ensures
        requested(lines, pid) >= 0,
    decreases lines.len(),
{
    if lines.len() > 0 {
        lemma_requested_nonneg(lines.drop_last(), pid);
    }
}

/// Putting back the copies of `lines`, line by line, when every quantity is
/// positive and no final stock leaves the `i32` range: each book's stock rises
/// by the copies of its lines, and no step leaves the range.
pub proof fn lemma_return_all(products: Seq<Product>, lines: Seq<Sale>)
    requires
        forall|i: int| 0 <= i < lines.len() ==> #[trigger] lines[i].quantity > 0,
        forall|k: int|
            0 <= k < products.len() ==> #[trigger] products[k].stock + product_quantity(
                lines,
                products[k].id,
            ) <= i32::MAX,
    ensures
        returns_fit(products, lines),
        returned_stock(products, lines) == Seq::new(
            products.len(),
            |k: int|
                with_stock(
                    products[k],
                    (products[k].stock + product_quantity(lines, products[k].id)) as i32,
                ),
        ),
    decreases lines.len(),
{
    if lines.len() == 0 {
        assert(returned_stock(products, lines) =~= Seq::new(
            products.len(),
            |k: int|
                with_stock(
                    products[k],
                    (products[k].stock + product_quantity(lines, products[k].id)) as i32,
                ),
        ));
    } else {
        let init = lines.drop_last();
        let l = lines.last();
        assert forall|k: int| 0 <= k < products.len() implies #[trigger] products[k].stock
            + product_quantity(init, products[k].id) <= i32::MAX by {
            assert(product_quantity(lines, products[k].id) == product_quantity(
                init,
                products[k].id,
            ) + product_quantity_w(products[k].id)(l));
            lemma_quantity_nonneg(init, products[k].id);
        }
        lemma_return_all(products, init);
        let ps = returned_stock(products, init);
        assert forall|k: int| 0 <= k < ps.len() && #[trigger] ps[k].id == l.product_id implies i32::MIN
            <= ps[k].stock + l.quantity <= i32::MAX by {
            assert(product_quantity(lines, products[k].id) == product_quantity(
                init,
                products[k].id,
            ) + product_quantity_w(products[k].id)(l));
            lemma_quantity_nonneg(init, products[k].id);
        }
        assert(return_fits(ps, l.product_id, l.quantity));
        assert forall|k: int| 0 <= k < products.len() implies return_stock(
            ps,
            l.product_id,
            l.quantity,
        )[k] == with_stock(
            products[k],
            (products[k].stock + product_quantity(lines, products[k].id)) as i32,
        ) by {
            assert(product_quantity(lines, products[k].id) == product_quantity(
                init,
                products[k].id,
            ) + product_quantity_w(products[k].id)(l));
            lemma_quantity_nonneg(init, products[k].id);
        }
        assert(return_stock(ps, l.product_id, l.quantity) =~= Seq::new(
            products.len(),
            |k: int|
                with_stock(
                    products[k],
                    (products[k].stock + product_quantity(lines, products[k].id)) as i32,
                ),
        ));
    }
}

/// Copies of a book summed over lines of positive quantity are not negative.
pub proof fn lemma_quantity_nonneg(lines: Seq<Sale>, pid: i64)
    requires
        forall|i: int| 0 <= i < lines.len() ==> #[trigger] lines[i].quantity > 0,
    ensures
        product_quantity(lines, pid) >= 0,
    decreases lines.len(),
{
    if lines.len() > 0 {
        lemma_quantity_nonneg(lines.drop_last(), pid);
    }
}

/// The copies that the new lines carry are the copies that the slots ask for.
pub proof fn lemma_new_lines_quantity(lines: Seq<(i64, i32)>, sales: Seq<Sale>, pid: i64)
    requires
        lines.len() == sales.len(),
        forall|i: int|
            0 <= i < lines.len() ==> #[trigger] sales[i].product_id == lines[i].0
                && sales[i].quantity == lines[i].1,
    ensures
        product_quantity(sales, pid) == requested(lines, pid),
    decreases lines.len(),
{
    if lines.len() > 0 {
        lemma_new_lines_quantity(lines.drop_last(), sales.drop_last(), pid);
        assert(sales.drop_last().len() == lines.drop_last().len());
        assert forall|i: int| 0 <= i < lines.drop_last().len() implies #[trigger] sales.drop_last()[i].product_id
            == lines.drop_last()[i].0 && sales.drop_last()[i].quantity == lines.drop_last()[i].1 by {
            assert(sales[i].product_id == lines[i].0);
        }
        lemma_new_lines_quantity(lines.drop_last(), sales.drop_last(), pid);
        assert(sales[sales.len() - 1].product_id == lines[lines.len() - 1].0);
    }
}

/// The lines of the new sale are exactly the new lines.
proof fn lemma_created_lines(v: StoreView, f: SaleCreateForm)
    requires
        v.well_formed(),
        new_header_id(v) <= i64::MAX,
    ensures
        lines_of(created(v, f).sales, new_header_id(v) as i64) == new_sales(v, f),
        created(v, f).sales.filter(other_line_pred(new_header_id(v) as i64)) == v.sales,
{
    let hid = new_header_id(v) as i64;
    let news = new_sales(v, f);
    lemma_max_id(header_ids(v.headers));
    assert forall|i: int| 0 <= i < v.sales.len() implies !header_pred(hid)(
        #[trigger] v.sales[i],
    ) && other_line_pred(hid)(v.sales[i]) by {
        let s = v.sales[i];
        assert(v.has_header(s.sale_header_id));
        let a = choose|a: int|
            0 <= a < header_ids(v.headers).len() && header_ids(v.headers)[a] == s.sale_header_id;
        assert(header_ids(v.headers)[a] <= max_id(header_ids(v.headers)));
    }
    lemma_filter_none(v.sales, header_pred(hid));
    lemma_filter_all(news, header_pred(hid));
    Seq::filter_distributes_over_add(v.sales, news, header_pred(hid));
    assert(v.sales.filter(header_pred(hid)) + news =~= news);
    lemma_filter_all(v.sales, other_line_pred(hid));
    lemma_filter_none(news, other_line_pred(hid));
    Seq::filter_distributes_over_add(v.sales, news, other_line_pred(hid));
    assert(v.sales + news.filter(other_line_pred(hid)) =~= v.sales);
}

/// Removing the new header gives back the old headers.
proof fn lemma_created_headers(v: StoreView, f: SaleCreateForm)
    requires
        v.well_formed(),
        new_header_id(v) <= i64::MAX,
    ensures
        created(v, f).headers.filter(other_header_pred(new_header_id(v) as i64)) == v.headers,
{
    let hid = new_header_id(v) as i64;
    lemma_max_id(header_ids(v.headers));
    assert forall|i: int| 0 <= i < v.headers.len() implies other_header_pred(hid)(
        #[trigger] v.headers[i],
    ) by {
        assert(header_ids(v.headers)[i] <= max_id(header_ids(v.headers)));
    }
    lemma_filter_all(v.headers, other_header_pred(hid));
    let h = SaleHeader { id: hid, customer_id: f.customer_id, sale_date: f.sale_date };
    assert(v.headers.push(h) =~= v.headers + seq![h]);
    lemma_filter_none(seq![h], other_header_pred(hid));
    Seq::filter_distributes_over_add(v.headers, seq![h], other_header_pred(hid));
    assert(v.headers + seq![h].filter(other_header_pred(hid)) =~= v.headers);
}

/// Putting back the copies of the new lines restores every stock.
proof fn lemma_created_stock(v: StoreView, f: SaleCreateForm)
    requires
        v.well_formed(),
        stock_covers(v, f),
    ensures
        returns_fit(created(v, f).products, new_sales(v, f)),
        returned_stock(created(v, f).products, new_sales(v, f)) == v.products,
{
    let sel = selected_lines(f);
    let news = new_sales(v, f);
    assert forall|i: int| 0 <= i < sel.len() implies #[trigger] sel[i].1 > 0 by {}
    lemma_take_all(v.products, sel);
    lemma_plan_lines_ids(v.products, sel);
    let taken = plan_lines(v.products, sel).1;
    assert forall|i: int| 0 <= i < sel.len() implies #[trigger] news[i].product_id == sel[i].0
        && news[i].quantity == sel[i].1 by {}
    assert forall|k: int| 0 <= k < taken.len() implies #[trigger] taken[k].stock + product_quantity(
        news,
        taken[k].id,
    ) <= i32::MAX by {
        lemma_new_lines_quantity(sel, news, v.products[k].id);
        lemma_requested_nonneg(sel, v.products[k].id);
        if requested(sel, v.products[k].id) > 0 {
            assert(v.products[k].stock >= requested(sel, v.products[k].id));
        }
    }
    assert forall|i: int| 0 <= i < news.len() implies #[trigger] news[i].quantity > 0 by {
        assert(sel[i].1 > 0);
    }
    lemma_return_all(taken, news);
    assert forall|k: int| 0 <= k < v.products.len() implies returned_stock(taken, news)[k]
        == v.products[k] by {
        lemma_new_lines_quantity(sel, news, v.products[k].id);
        lemma_requested_nonneg(sel, v.products[k].id);
    }
    assert(returned_stock(taken, news) =~= v.products);
}

/// When every slot finds its quantity in stock after the earlier slots took
/// theirs, every book has in stock all the copies the slots ask of it.
pub proof fn lemma_covered_slots_cover_stock(products: Seq<Product>, lines: Seq<(i64, i32)>)
    requires
        distinct(product_ids(products)),
        forall|i: int| 0 <= i < lines.len() ==> #[trigger] lines[i].1 > 0,
        slots_covered(products, lines),
    ensures
        forall|k: int|
            0 <= k < products.len() && requested(lines, products[k].id) > 0
                ==> #[trigger] products[k].stock >= requested(lines, products[k].id),
    decreases lines.len(),
{
    if lines.len() > 0 {
        let init = lines.drop_last();
        let (pid, q) = lines.last();
        assert forall|i: int| 0 <= i < init.len() implies #[trigger] init[i].1 > 0 by {
            assert(init[i] == lines[i]);
        }
        lemma_covered_slots_cover_stock(products, init);
        lemma_take_all(products, init);
        lemma_plan_lines_ids(products, init);
        let ps = plan_lines(products, init).1;
        assert forall|k: int|
            0 <= k < products.len() && requested(lines, products[k].id) > 0 implies #[trigger] products[k].stock
            >= requested(lines, products[k].id) by {
            assert(requested(lines, products[k].id) == requested(init, products[k].id)
                + requested_w(products[k].id)(lines.last()));
            lemma_requested_nonneg(init, products[k].id);
            if products[k].id == pid {
                assert(ps[k].id == pid);
                let c = product_index(ps, pid);
                assert(0 <= c < ps.len() && ps[c].id == pid);
                assert(product_ids(ps)[c] == product_ids(ps)[k]);
                assert(ps[k].stock >= q);
            }
        }
    }
}

/// A form that can be recorded asks of each book no more than its stock.
pub proof fn lemma_recordable_covers_stock(v: StoreView, f: SaleCreateForm)
    requires
        v.well_formed(),
        crate::transactions::create_error(v, f) is None,
    ensures
        stock_covers(v, f),
{
    let sel = selected_lines(f);
    assert(slots_covered(v.products, sel));
    assert forall|i: int| 0 <= i < sel.len() implies #[trigger] sel[i].1 > 0 by {}
    lemma_covered_slots_cover_stock(v.products, sel);
}

/// Deleting a sale right after recording it gives back the tables as they
/// were, when the store is well formed and the form can be recorded: the
/// stocks are restored, and the sale's header and lines are gone. Only the
/// id counters remember the sale.
pub proof fn lemma_delete_undoes_create(v: StoreView, f: SaleCreateForm)
    requires
        v.well_formed(),
        crate::transactions::create_error(v, f) is None,
    ensures
        returns_fit(created(v, f).products, lines_of(created(v, f).sales, new_header_id(v) as i64)),
        same_tables(deleted(created(v, f), new_header_id(v) as i64), v),
{
    lemma_max_id(header_ids(v.headers));
    assert(new_header_id(v) <= i64::MAX);
    lemma_created_lines(v, f);
    lemma_recordable_covers_stock(v, f);
    lemma_created_stock(v, f);
    lemma_undo_tables(v, f);
}

/// The tables after recording a sale and deleting it again.
proof fn lemma_undo_tables(v: StoreView, f: SaleCreateForm)
    requires
        v.well_formed(),
        new_header_id(v) <= i64::MAX,
        returned_stock(created(v, f).products, new_sales(v, f)) == v.products,
        lines_of(created(v, f).sales, new_header_id(v) as i64) == new_sales(v, f),
        created(v, f).sales.filter(other_line_pred(new_header_id(v) as i64)) == v.sales,
    ensures
        same_tables(deleted(created(v, f), new_header_id(v) as i64), v),
{
    let hid = new_header_id(v) as i64;
    lemma_created_headers(v, f);
    let c = created(v, f);
    let d = deleted(c, hid);
    assert(d.products == returned_stock(c.products, lines_of(c.sales, hid)));
    assert(d.products == v.products);
    assert(d.headers == v.headers);
    assert(d.sales == v.sales);
    assert(d.categories == v.categories);
    assert(d.customers == v.customers);
    assert(d.product_categories == v.product_categories);
}

/// A sum over two sequences put together is the sum of the two sums.
pub proof fn lemma_sum_of_concat<T>(a: Seq<T>, b: Seq<T>, f: spec_fn(T) -> int)
    ensures
        sum_of(a + b, f) == sum_of(a, f) + sum_of(b, f),
    decreases b.len(),
{
    if b.len() > 0 {
        assert((a + b).drop_last() =~= a + b.drop_last());
        lemma_sum_of_concat(a, b.drop_last(), f);
    } else {
        assert(a + b =~= a);
    }
}

/// A sum splits into the sum over the elements that pass `p` and the sum
/// over those that pass its negation `q`.
pub proof fn lemma_sum_of_partition<T>(
    s: Seq<T>,
    p: spec_fn(T) -> bool,
    q: spec_fn(T) -> bool,
    f: spec_fn(T) -> int,
)
    requires
        forall|x: T| #[trigger] q(x) == !p(x),
    ensures
        sum_of(s, f) == sum_of(s.filter(p), f) + sum_of(s.filter(q), f),
    decreases s.len(),
{
    reveal(Seq::filter);
    if s.len() > 0 {
        let init = s.drop_last();
        let x = s.last();
        lemma_sum_of_partition(init, p, q, f);
        if p(x) {
            assert(s.filter(p) == init.filter(p).push(x));
            assert(init.filter(p).push(x).drop_last() =~= init.filter(p));
            assert(s.filter(q) == init.filter(q));
        } else {
            assert(s.filter(q) == init.filter(q).push(x));
            assert(init.filter(q).push(x).drop_last() =~= init.filter(q));
            assert(s.filter(p) == init.filter(p));
        }
    }
}

/// Putting back the copies of `lines` when every step stays in the `i32`
/// range: each book's stock rises by the copies of its lines.
pub proof fn lemma_returned_stock_adds(products: Seq<Product>, lines: Seq<Sale>)
    requires
        returns_fit(products, lines),
    ensures
        returned_stock(products, lines).len() == products.len(),
        forall|k: int|
            0 <= k < products.len() ==> (#[trigger] returned_stock(products, lines)[k]).stock
                == products[k].stock + product_quantity(lines, products[k].id)
                && returned_stock(products, lines)[k].id == products[k].id,
    decreases lines.len(),
{
    lemma_returned_stock_ids(products, lines);
    if lines.len() > 0 {
        let init = lines.drop_last();
        let l = lines.last();
        lemma_returned_stock_adds(products, init);
        let ps = returned_stock(products, init);
        assert forall|k: int| 0 <= k < products.len() implies (#[trigger] returned_stock(
            products,
            lines,
        )[k]).stock == products[k].stock + product_quantity(lines, products[k].id)
            && returned_stock(products, lines)[k].id == products[k].id by {
            assert(product_quantity(lines, products[k].id) == product_quantity(
                init,
                products[k].id,
            ) + product_quantity_w(products[k].id)(l));
            assert(returned_stock(products, lines) == return_stock(ps, l.product_id, l.quantity));
            if ps[k].id == l.product_id {
                assert(return_fits(ps, l.product_id, l.quantity));
            }
        }
    }
}

/// Copies of the book at `k` in stock plus copies recorded as sold.
pub open spec fn stock_and_sold(v: StoreView, k: int) -> int {
    v.products[k].stock + product_quantity(v.sales, v.products[k].id)
}

/// Recording a sale takes from stock exactly the copies it records as sold:
/// for every book, stock plus copies sold stays the same.
pub proof fn lemma_create_keeps_stock_and_sold(v: StoreView, f: SaleCreateForm)
    requires
        v.well_formed(),
        crate::transactions::create_error(v, f) is None,
    ensures
        created(v, f).products.len() == v.products.len(),
        forall|k: int|
            0 <= k < v.products.len() ==> #[trigger] stock_and_sold(created(v, f), k)
                == stock_and_sold(v, k),
{
    let sel = selected_lines(f);
    let news = new_sales(v, f);
    lemma_recordable_covers_stock(v, f);
    assert forall|i: int| 0 <= i < sel.len() implies #[trigger] sel[i].1 > 0 by {}
    lemma_take_all(v.products, sel);
    lemma_plan_lines_ids(v.products, sel);
    let c = created(v, f);
    assert forall|i: int| 0 <= i < sel.len() implies #[trigger] news[i].product_id == sel[i].0
        && news[i].quantity == sel[i].1 by {}
    assert forall|k: int| 0 <= k < v.products.len() implies #[trigger] stock_and_sold(c, k)
        == stock_and_sold(v, k) by {
        let id = v.products[k].id;
        lemma_requested_nonneg(sel, id);
        lemma_new_lines_quantity(sel, news, id);
        lemma_sum_of_concat(v.sales, news, product_quantity_w(id));
        assert(c.sales == v.sales + news);
        assert(c.products[k] == with_stock(
            v.products[k],
            (v.products[k].stock - requested(sel, id)) as i32,
        ));
        if requested(sel, id) > 0 {
            assert(v.products[k].stock >= requested(sel, id));
        }
    }
}

/// Deleting a sale puts back into stock exactly the copies its lines had
/// recorded as sold (for every book, stock plus copies sold stays the same),
/// and no line of the deleted sale is left.
pub proof fn lemma_delete_keeps_stock_and_sold(v: StoreView, id: i64)
    requires
        returns_fit(v.products, lines_of(v.sales, id)),
    ensures
        deleted(v, id).products.len() == v.products.len(),
        forall|k: int|
            0 <= k < v.products.len() ==> #[trigger] stock_and_sold(deleted(v, id), k)
                == stock_and_sold(v, k),
        forall|i: int|
            0 <= i < deleted(v, id).sales.len() ==> (#[trigger] deleted(v, id).sales[i]).sale_header_id
                != id,
{
    let lines = lines_of(v.sales, id);
    let d = deleted(v, id);
    lemma_returned_stock_adds(v.products, lines);
    assert forall|s: Sale| #[trigger] other_line_pred(id)(s) == !header_pred(id)(s) by {}
    assert forall|k: int| 0 <= k < v.products.len() implies #[trigger] stock_and_sold(d, k)
        == stock_and_sold(v, k) by {
        let pid = v.products[k].id;
        lemma_sum_of_partition(v.sales, header_pred(id), other_line_pred(id), product_quantity_w(pid));
    }
    assert forall|i: int| 0 <= i < d.sales.len() implies (#[trigger] d.sales[i]).sale_header_id
        != id by {
        v.sales.lemma_filter_pred(other_line_pred(id), i);
    }
}

/// Two shown sales say the same: the same ids, customer, date, items and
/// total, the names read as the same text.
pub open spec fn details_agree(a: SaleDetail, b: SaleDetail) -> bool {
    &&& a.id == b.id
    &&& a.customer_id == b.customer_id
    &&& a.customer_name@ == b.customer_name@
    &&& a.sale_date == b.sale_date
    &&& a.items@.len() == b.items@.len()
    &&& forall|k: int|
        0 <= k < a.items@.len() ==> {
            let x = #[trigger] a.items@[k];
            let y = b.items@[k];
            &&& x.product_id == y.product_id
            &&& x.product_name@ == y.product_name@
            &&& x.quantity == y.quantity
            &&& x.sale_price == y.sale_price
            &&& x.subtotal == y.subtotal
        }
    &&& a.total_amount == b.total_amount
}

/// Two shown lists of sales say the same, entry by entry.
pub open spec fn sale_lists_agree(a: Seq<SaleDetail>, b: Seq<SaleDetail>) -> bool {
    &&& a.len() == b.len()
    &&& forall|i: int| 0 <= i < a.len() ==> details_agree(#[trigger] a[i], b[i])
}

/// Two views of the sale with the same id say the same.
pub proof fn lemma_details_of_one_sale_agree(
    a: SaleDetail,
    b: SaleDetail,
    v: StoreView,
    i: int,
    j: int,
)
    requires
        v.well_formed(),
        0 <= i < v.headers.len(),
        0 <= j < v.headers.len(),
        v.headers[i].id == v.headers[j].id,
        detail_matches(a, v.headers[i], v),
        detail_matches(b, v.headers[j], v),
    ensures
        details_agree(a, b),
{
    assert(header_ids(v.headers)[i] == header_ids(v.headers)[j]);
    let lines = lines_of(v.sales, v.headers[i].id);
    assert forall|k: int| 0 <= k < a.items@.len() implies {
        let x = #[trigger] a.items@[k];
        let y = b.items@[k];
        &&& x.product_id == y.product_id
        &&& x.product_name@ == y.product_name@
        &&& x.quantity == y.quantity
        &&& x.sale_price == y.sale_price
        &&& x.subtotal == y.subtotal
    } by {
        assert(item_matches(a.items@[k], lines[k], v.products));
        assert(item_matches(b.items@[k], lines[k], v.products));
    }
}

/// The sales page and the sales list show the same sales in the same order:
/// any two lists of every sale, latest first and same dates in table order,
/// agree entry by entry.
pub proof fn lemma_sale_lists_agree(a: Seq<SaleDetail>, b: Seq<SaleDetail>, v: StoreView)
    requires
        v.well_formed(),
        is_sale_list(a, v),
        is_sale_list(b, v),
    ensures
        sale_lists_agree(a, b),
{
    let p = choose|p: Seq<usize>|
        {
            &&& is_permutation(p, v.headers.len())
            &&& a.len() == p.len()
            &&& forall|i: int|
                0 <= i < p.len() ==> detail_matches(#[trigger] a[i], v.headers[p[i] as int], v)
            &&& forall|i: int, j: int|
                0 <= i < j < p.len() ==> !text_lt(
                    v.headers[p[i] as int].sale_date@,
                    v.headers[p[j] as int].sale_date@,
                )
            &&& forall|i: int, j: int|
                0 <= i < j < p.len() && v.headers[p[i] as int].sale_date@
                    == v.headers[p[j] as int].sale_date@ ==> p[i] < p[j]
        };
    let q = choose|p: Seq<usize>|
        {
            &&& is_permutation(p, v.headers.len())
            &&& b.len() == p.len()
            &&& forall|i: int|
                0 <= i < p.len() ==> detail_matches(#[trigger] b[i], v.headers[p[i] as int], v)
            &&& forall|i: int, j: int|
                0 <= i < j < p.len() ==> !text_lt(
                    v.headers[p[i] as int].sale_date@,
                    v.headers[p[j] as int].sale_date@,
                )
            &&& forall|i: int, j: int|
                0 <= i < j < p.len() && v.headers[p[i] as int].sale_date@
                    == v.headers[p[j] as int].sale_date@ ==> p[i] < p[j]
        };
    let n = v.headers.len();
    let lt = |x: usize, y: usize|
        text_lt(v.headers[y as int].sale_date@, v.headers[x as int].sale_date@) || (
        v.headers[x as int].sale_date@ == v.headers[y as int].sale_date@ && x < y);
    assert forall|x: usize, y: usize| #[trigger] lt(x, y) implies !lt(y, x) by {
        let dx = v.headers[x as int].sale_date@;
        let dy = v.headers[y as int].sale_date@;
        if text_lt(dy, dx) && text_lt(dx, dy) {
            lemma_text_lt_transitive(dx, dy, dx);
            lemma_text_lt_irreflexive(dx);
        }
        if dx == dy {
            lemma_text_lt_irreflexive(dx);
        }
    }
    assert forall|i: int, j: int| 0 <= i < j < n implies #[trigger] lt(p[i], p[j]) by {
        let di = v.headers[p[i] as int].sale_date@;
        let dj = v.headers[p[j] as int].sale_date@;
        if di != dj {
            lemma_text_lt_total(di, dj);
        }
    }
    assert forall|i: int, j: int| 0 <= i < j < n implies #[trigger] lt(q[i], q[j]) by {
        let di = v.headers[q[i] as int].sale_date@;
        let dj = v.headers[q[j] as int].sale_date@;
        if di != dj {
            lemma_text_lt_total(di, dj);
        }
    }
    lemma_sorted_permutation_unique(p, q, n, lt);
    assert forall|i: int| 0 <= i < a.len() implies details_agree(#[trigger] a[i], b[i]) by {
        lemma_details_of_one_sale_agree(a[i], b[i], v, p[i] as int, q[i] as int);
    }
}

/// A sale's detail page shows what the sales list shows for that sale.
pub proof fn lemma_detail_agrees_with_list_entry(
    d: SaleDetail,
    k: int,
    list: Seq<SaleDetail>,
    i: int,
    v: StoreView,
)
    requires
        v.well_formed(),
        0 <= k < v.headers.len(),
        detail_matches(d, v.headers[k], v),
        is_sale_list(list, v),
        0 <= i < list.len(),
        list[i].id == v.headers[k].id,
    ensures
        details_agree(d, list[i]),
{
    let p = choose|p: Seq<usize>|
        {
            &&& is_permutation(p, v.headers.len())
            &&& list.len() == p.len()
            &&& forall|i: int|
                0 <= i < p.len() ==> detail_matches(#[trigger] list[i], v.headers[p[i] as int], v)
            &&& forall|i: int, j: int|
                0 <= i < j < p.len() ==> !text_lt(
                    v.headers[p[i] as int].sale_date@,
                    v.headers[p[j] as int].sale_date@,
                )
            &&& forall|i: int, j: int|
                0 <= i < j < p.len() && v.headers[p[i] as int].sale_date@
                    == v.headers[p[j] as int].sale_date@ ==> p[i] < p[j]
        };
    assert(detail_matches(list[i], v.headers[p[i] as int], v));
    lemma_details_of_one_sale_agree(d, list[i], v, k, p[i] as int);
}

/// Two shown lists of books say the same, entry by entry (category names
/// read as the same text).
pub open spec fn product_lists_agree(a: Seq<ProductWithCategories>, b: Seq<ProductWithCategories>) -> bool {
    &&& a.len() == b.len()
    &&& forall|i: int|
        0 <= i < a.len() ==> {
            let x = #[trigger] a[i];
            let y = b[i];
            &&& x.id == y.id
            &&& x.name == y.name
            &&& x.description == y.description
            &&& x.price == y.price
            &&& x.stock == y.stock
            &&& x.published_date == y.published_date
            &&& x.categories@.len() == y.categories@.len()
            &&& forall|k: int| 0 <= k < x.categories@.len() ==> (#[trigger] x.categories@[k])@ == y.categories@[k]@
        }
}

/// The books page and the sale form list the same books.
pub proof fn lemma_product_lists_agree(
    a: Seq<ProductWithCategories>,
    b: Seq<ProductWithCategories>,
    v: StoreView,
)
    requires
        is_product_list(a, v),
        is_product_list(b, v),
    ensures
        product_lists_agree(a, b),
{
    assert forall|i: int| 0 <= i < a.len() implies {
        let x = #[trigger] a[i];
        let y = b[i];
        &&& x.id == y.id
        &&& x.name == y.name
        &&& x.description == y.description
        &&& x.price == y.price
        &&& x.stock == y.stock
        &&& x.published_date == y.published_date
        &&& x.categories@.len() == y.categories@.len()
        &&& forall|k: int| 0 <= k < x.categories@.len() ==> (#[trigger] x.categories@[k])@ == y.categories@[k]@
    } by {
        assert(with_categories_matches(a[i], v.products[i], v));
        assert(with_categories_matches(b[i], v.products[i], v));
    }
}

/// The ranking order: `x` before `y` by key, largest first, equal keys in table order.
pub open spec fn rank_before(v: StoreView, unsold_last: bool) -> spec_fn(usize, usize) -> bool {
    |x: usize, y: usize|
        rank_key(v.sales, v.products[x as int].id, unsold_last) > rank_key(
            v.sales,
            v.products[y as int].id,
            unsold_last,
        ) || (rank_key(v.sales, v.products[x as int].id, unsold_last) == rank_key(
            v.sales,
            v.products[y as int].id,
            unsold_last,
        ) && x < y)
}

/// A ranking's permutation lists the books in `rank_before` order.
proof fn lemma_ranking_sorted(r: Seq<SalesRanking>, v: StoreView, limit: nat, unsold_last: bool) -> (p: Seq<usize>)
    requires
        is_ranking(r, v, limit, unsold_last),
    ensures
        is_permutation(p, v.products.len()),
        r.len() == (if limit < v.products.len() { limit } else { v.products.len() }),
        forall|i: int|
            0 <= i < r.len() ==> ranking_row_matches(#[trigger] r[i], v.products[p[i] as int], v.sales)
                && r[i].rank == (i + 1) as i32,
        forall|a: int, b: int|
            0 <= a < b < v.products.len() ==> #[trigger] rank_before(v, unsold_last)(p[a], p[b]),
{
    let p = choose|p: Seq<usize>|
        {
            &&& is_permutation(p, v.products.len())
            &&& r.len() == (if limit < v.products.len() {
                limit
            } else {
                v.products.len()
            })
            &&& forall|i: int|
                0 <= i < r.len() ==> ranking_row_matches(
                    #[trigger] r[i],
                    v.products[p[i] as int],
                    v.sales,
                ) && r[i].rank == (i + 1) as i32
            &&& forall|i: int, j: int|
                0 <= i < j < p.len() ==> rank_key(v.sales, v.products[p[i] as int].id, unsold_last)
                    >= rank_key(v.sales, v.products[p[j] as int].id, unsold_last)
            &&& forall|i: int, j: int|
                0 <= i < j < p.len() && rank_key(v.sales, v.products[p[i] as int].id, unsold_last)
                    == rank_key(v.sales, v.products[p[j] as int].id, unsold_last) ==> p[i] < p[j]
        };
    p
}

/// The dashboard's ranking is the start of the full ranking, whenever the
/// two orders agree on where books without sales go: each book with sales
/// has a positive amount, or an amount of 0 and an earlier place in the table
/// than each book without sales. (Otherwise the dashboard, which counts an
/// unsold book as 0, places it above a book whose sales add up to 0 or less,
/// while the full ranking puts every unsold book last.)
pub proof fn lemma_dashboard_ranking_is_top_of_ranking(
    top: Seq<SalesRanking>,
    all: Seq<SalesRanking>,
    v: StoreView,
    limit: nat,
)
    requires
        is_ranking(top, v, limit, false),
        is_ranking(all, v, v.products.len(), true),
        forall|a: int, b: int|
            0 <= a < v.products.len() && 0 <= b < v.products.len() && product_lines(
                v.sales,
                #[trigger] v.products[a].id,
            ) > 0 && product_lines(v.sales, #[trigger] v.products[b].id) == 0 ==> product_amount(
                v.sales,
                v.products[a].id,
            ) > 0 || (product_amount(v.sales, v.products[a].id) == 0 && a < b),
    ensures
        top == all.take(top.len() as int),
{
    let n = v.products.len();
    let p = lemma_ranking_sorted(top, v, limit, false);
    let q = lemma_ranking_sorted(all, v, n, true);
    let lt = rank_before(v, false);
    assert forall|x: usize, y: usize| #[trigger] lt(x, y) implies !lt(y, x) by {}
    assert forall|a: int, b: int| 0 <= a < b < n implies #[trigger] lt(q[a], q[b]) by {
        assert(rank_before(v, true)(q[a], q[b]));
        let x = q[a] as int;
        let y = q[b] as int;
        let ix = v.products[x].id;
        let iy = v.products[y].id;
        lemma_lines_nonneg(v.sales, ix);
        lemma_lines_nonneg(v.sales, iy);
        lemma_no_lines_no_amount(v.sales, ix);
        lemma_no_lines_no_amount(v.sales, iy);
        if product_lines(v.sales, ix) > 0 && product_lines(v.sales, iy) == 0 {
            assert(product_amount(v.sales, ix) > 0 || (product_amount(v.sales, ix) == 0 && x < y));
        }
    }
    lemma_sorted_permutation_unique(p, q, n, lt);
    assert forall|i: int| 0 <= i < top.len() implies top[i] == all[i] by {
        assert(ranking_row_matches(top[i], v.products[p[i] as int], v.sales));
        assert(ranking_row_matches(all[i], v.products[q[i] as int], v.sales));
    }
    assert(top =~= all.take(top.len() as int));
}

/// A book without sale lines has no sales amount.
proof fn lemma_no_lines_no_amount(sales: Seq<Sale>, pid: i64)
    ensures
        product_lines(sales, pid) == 0 ==> product_amount(sales, pid) == 0,
    decreases sales.len(),
{
    if sales.len() > 0 {
        lemma_no_lines_no_amount(sales.drop_last(), pid);
        lemma_lines_nonneg(sales.drop_last(), pid);
    }
}

/// A count of lines is not negative.
proof fn lemma_lines_nonneg(sales: Seq<Sale>, pid: i64)
    ensures
        product_lines(sales, pid) >= 0,
    decreases sales.len(),
{
    if sales.len() > 0 {
        lemma_lines_nonneg(sales.drop_last(), pid);
    }
}

/// Appending lines of sale `hid` leaves the lines of every other sale as they were.
pub proof fn lemma_append_keeps_other_lines(sales: Seq<Sale>, news: Seq<Sale>, hid: i64, id: i64)
    requires
        id != hid,
        forall|i: int| 0 <= i < news.len() ==> (#[trigger] news[i]).sale_header_id == hid,
    ensures
        lines_of(sales + news, id) == lines_of(sales, id),
{
    lemma_filter_none(news, header_pred(id));
    Seq::filter_distributes_over_add(sales, news, header_pred(id));
    assert(sales.filter(header_pred(id)) + news.filter(header_pred(id)) =~= sales.filter(
        header_pred(id),
    ));
}

/// The recorded sale's header is in the new tables.
proof fn lemma_created_has_header(v: StoreView, f: SaleCreateForm)
    requires
        new_header_id(v) <= i64::MAX,
    ensures
        created(v, f).has_header(new_header_id(v) as i64),
{
    let c = created(v, f);
    assert(header_ids(c.headers)[v.headers.len() as int] == new_header_id(v) as i64);
}

/// Recording a sale leaves the lines of every other sale as they were.
proof fn lemma_created_other_lines(v: StoreView, f: SaleCreateForm, id: i64)
    requires
        new_header_id(v) <= i64::MAX,
        id != new_header_id(v),
    ensures
        lines_of(created(v, f).sales, id) == lines_of(v.sales, id),
{
    let hid = new_header_id(v) as i64;
    let news = new_sales(v, f);
    assert forall|i: int| 0 <= i < news.len() implies (#[trigger] news[i]).sale_header_id == hid by {}
    lemma_append_keeps_other_lines(v.sales, news, hid, id);
}

/// Reading a sale back after recording it: the new sale exists, its lines are
/// the form's used slots in order, each with the price the book had, and the
/// lines of every other sale are as they were.
pub proof fn lemma_recorded_sale_reads_back(v: StoreView, f: SaleCreateForm)
    requires
        v.well_formed(),
        crate::transactions::create_error(v, f) is None,
    ensures
        created(v, f).has_header(new_header_id(v) as i64),
        lines_of(created(v, f).sales, new_header_id(v) as i64) == new_sales(v, f),
        forall|id: i64|
            id != new_header_id(v) ==> #[trigger] lines_of(created(v, f).sales, id) == lines_of(
                v.sales,
                id,
            ),
{
    lemma_max_id(header_ids(v.headers));
    assert(new_header_id(v) <= i64::MAX);
    lemma_created_lines(v, f);
    lemma_created_has_header(v, f);
    assert forall|id: i64| id != new_header_id(v) implies #[trigger] lines_of(
        created(v, f).sales,
        id,
    ) == lines_of(v.sales, id) by {
        lemma_created_other_lines(v, f, id);
    }
}

pub open spec fn subtotal_w() -> spec_fn(SaleItem) -> int {
    |it: SaleItem| it.subtotal as int
}

/// Items whose subtotals are the amounts of `lines` add up to the lines' amount.
pub proof fn lemma_items_add_up(items: Seq<SaleItem>, lines: Seq<Sale>)
    requires
        items.len() == lines.len(),
        forall|k: int| 0 <= k < items.len() ==> (#[trigger] items[k]).subtotal == line_amount(lines[k]),
    ensures
        sum_of(items, subtotal_w()) == sum_of(lines, amount_w()),
    decreases items.len(),
{
    if items.len() > 0 {
        lemma_items_add_up(items.drop_last(), lines.drop_last());
    }
}

/// A sale's total is the sum of its items' subtotals.
pub proof fn lemma_detail_total_is_sum_of_subtotals(d: SaleDetail, h: SaleHeader, v: StoreView)
    requires
        detail_matches(d, h, v),
    ensures
        d.total_amount == sum_of(d.items@, subtotal_w()),
{
    let lines = lines_of(v.sales, h.id);
    assert forall|k: int| 0 <= k < d.items@.len() implies (#[trigger] d.items@[k]).subtotal
        == line_amount(lines[k]) by {
        assert(item_matches(d.items@[k], lines[k], v.products));
    }
    lemma_items_add_up(d.items@, lines);
}

/// No two elements of `s` have the same key.
pub open spec fn distinct_by<A>(s: Seq<A>, key: spec_fn(A) -> i64) -> bool {
    forall|i: int, j: int| 0 <= i < s.len() && 0 <= j < s.len() && i != j ==> key(s[i]) != key(s[j])
}

pub open spec fn header_key() -> spec_fn(SaleHeader) -> i64 {
    |h: SaleHeader| h.id
}

pub open spec fn line_key() -> spec_fn(Sale) -> i64 {
    |s: Sale| s.id
}

/// Filtering keeps keys distinct.
pub proof fn lemma_filter_distinct_by<A>(s: Seq<A>, p: spec_fn(A) -> bool, key: spec_fn(A) -> i64)
    requires
        distinct_by(s, key),
    ensures
        distinct_by(s.filter(p), key),
    decreases s.len(),
{
    reveal(Seq::filter);
    if s.len() > 0 {
        let rest = s.drop_last();
        assert(distinct_by(rest, key)) by {
            assert forall|i: int, j: int|
                0 <= i < rest.len() && 0 <= j < rest.len() && i != j implies key(rest[i]) != key(
                rest[j],
            ) by {
                assert(rest[i] == s[i] && rest[j] == s[j]);
            }
        }
        lemma_filter_distinct_by(rest, p, key);
        if p(s.last()) {
            let fr = rest.filter(p);
            assert forall|i: int| 0 <= i < fr.len() implies key(fr[i]) != key(s.last()) by {
                assert(fr.contains(fr[i]));
                rest.lemma_filter_contains_rev(p, fr[i]);
                let j = choose|j: int| 0 <= j < rest.len() && rest[j] == fr[i];
                assert(s[j] == rest[j]);
                assert(s[s.len() - 1] == s.last());
            }
        }
    }
}

/// Recording a sale keeps the store well formed.
pub proof fn lemma_create_keeps_well_formed(v: StoreView, f: SaleCreateForm)
    requires
        v.well_formed(),
        crate::transactions::create_error(v, f) is None,
    ensures
        created(v, f).well_formed(),
{
    let c = created(v, f);
    let sel = selected_lines(f);
    let news = new_sales(v, f);
    let hid = new_header_id(v);
    lemma_max_id(header_ids(v.headers));
    lemma_max_id(sale_ids(v.sales));
    lemma_plan_lines_ids(v.products, sel);
    assert(product_ids(c.products) == product_ids(v.products));
    // headers: the new id is above every old one
    let h = SaleHeader { id: hid as i64, customer_id: f.customer_id, sale_date: f.sale_date };
    assert forall|k: int| 0 <= k < v.headers.len() implies header_ids(c.headers)[k] == header_ids(
        v.headers,
    )[k] by {}
    assert(header_ids(c.headers)[v.headers.len() as int] == hid);
    assert forall|i: int, j: int|
        0 <= i < c.headers.len() && 0 <= j < c.headers.len() && i != j implies header_ids(
        c.headers,
    )[i] != header_ids(c.headers)[j] by {
        if i < v.headers.len() && j < v.headers.len() {
        } else if i < v.headers.len() {
            assert(header_ids(v.headers)[i] <= max_id(header_ids(v.headers)));
        } else {
            assert(header_ids(v.headers)[j] <= max_id(header_ids(v.headers)));
        }
    }
    assert forall|i: int| #![trigger c.headers[i]] 0 <= i < c.headers.len() implies c.has_customer(
        c.headers[i].customer_id,
    ) by {
        if i < v.headers.len() {
            assert(c.headers[i] == v.headers[i]);
        }
    }
    // sales: the new ids follow every old one
    let n = v.sales.len();
    assert forall|i: int, j: int|
        0 <= i < c.sales.len() && 0 <= j < c.sales.len() && i != j implies sale_ids(c.sales)[i]
        != sale_ids(c.sales)[j] by {
        if i < n && j < n {
            assert(sale_ids(c.sales)[i] == sale_ids(v.sales)[i]);
            assert(sale_ids(c.sales)[j] == sale_ids(v.sales)[j]);
        } else if i < n {
            assert(sale_ids(c.sales)[i] == sale_ids(v.sales)[i]);
            assert(sale_ids(v.sales)[i] <= max_id(sale_ids(v.sales)));
            assert(c.sales[j] == news[j - n]);
        } else if j < n {
            assert(sale_ids(c.sales)[j] == sale_ids(v.sales)[j]);
            assert(sale_ids(v.sales)[j] <= max_id(sale_ids(v.sales)));
            assert(c.sales[i] == news[i - n]);
        } else {
            assert(c.sales[i] == news[i - n]);
            assert(c.sales[j] == news[j - n]);
        }
    }
    assert(c.has_header(hid as i64));
    assert forall|i: int| #![trigger c.sales[i]] 0 <= i < c.sales.len() implies c.has_header(
        c.sales[i].sale_header_id,
    ) && c.has_product(c.sales[i].product_id) by {
        if i < n {
            assert(c.sales[i] == v.sales[i]);
            assert(v.has_header(v.sales[i].sale_header_id));
            let a = choose|a: int|
                0 <= a < header_ids(v.headers).len() && header_ids(v.headers)[a]
                    == v.sales[i].sale_header_id;
            assert(header_ids(c.headers)[a] == header_ids(v.headers)[a]);
        } else {
            assert(c.sales[i] == news[i - n]);
            assert(v.has_product(sel[i - n].0));
        }
    }
    assert forall|i: int|
        #![trigger c.product_categories[i]]
        0 <= i < c.product_categories.len() implies c.has_product(
        c.product_categories[i].product_id,
    ) && c.has_category(c.product_categories[i].category_id) by {
        assert(v.has_product(v.product_categories[i].product_id));
    }
}

/// Deleting a sale keeps the store well formed.
pub proof fn lemma_delete_keeps_well_formed(v: StoreView, id: i64)
    requires
        v.well_formed(),
    ensures
        deleted(v, id).well_formed(),
{
    let d = deleted(v, id);
    let hp = other_header_pred(id);
    let lp = other_line_pred(id);
    crate::transactions::lemma_returned_stock_ids(v.products, lines_of(v.sales, id));
    assert(product_ids(d.products) == product_ids(v.products));
    // distinct ids survive filtering
    assert(distinct_by(v.headers, header_key())) by {
        assert forall|i: int, j: int|
            0 <= i < v.headers.len() && 0 <= j < v.headers.len() && i != j implies header_key()(
            v.headers[i],
        ) != header_key()(v.headers[j]) by {
            assert(header_ids(v.headers)[i] != header_ids(v.headers)[j]);
        }
    }
    lemma_filter_distinct_by(v.headers, hp, header_key());
    assert forall|i: int, j: int|
        0 <= i < d.headers.len() && 0 <= j < d.headers.len() && i != j implies header_ids(
        d.headers,
    )[i] != header_ids(d.headers)[j] by {
        assert(header_key()(d.headers[i]) != header_key()(d.headers[j]));
    }
    assert(distinct_by(v.sales, line_key())) by {
        assert forall|i: int, j: int|
            0 <= i < v.sales.len() && 0 <= j < v.sales.len() && i != j implies line_key()(
            v.sales[i],
        ) != line_key()(v.sales[j]) by {
            assert(sale_ids(v.sales)[i] != sale_ids(v.sales)[j]);
        }
    }
    lemma_filter_distinct_by(v.sales, lp, line_key());
    assert forall|i: int, j: int|
        0 <= i < d.sales.len() && 0 <= j < d.sales.len() && i != j implies sale_ids(d.sales)[i]
        != sale_ids(d.sales)[j] by {
        assert(line_key()(d.sales[i]) != line_key()(d.sales[j]));
    }
    // the remaining headers and lines still point at existing rows
    assert forall|i: int| #![trigger d.headers[i]] 0 <= i < d.headers.len() implies d.has_customer(
        d.headers[i].customer_id,
    ) by {
        assert(d.headers.contains(d.headers[i]));
        v.headers.lemma_filter_contains_rev(hp, d.headers[i]);
        let j = choose|j: int| 0 <= j < v.headers.len() && v.headers[j] == d.headers[i];
        assert(v.has_customer(v.headers[j].customer_id));
    }
    assert forall|i: int| #![trigger d.sales[i]] 0 <= i < d.sales.len() implies d.has_header(
        d.sales[i].sale_header_id,
    ) && d.has_product(d.sales[i].product_id) by {
        let s = d.sales[i];
        assert(d.sales.contains(s));
        v.sales.lemma_filter_contains_rev(lp, s);
        v.sales.lemma_filter_pred(lp, i);
        let j = choose|j: int| 0 <= j < v.sales.len() && v.sales[j] == s;
        assert(v.has_header(v.sales[j].sale_header_id) && v.has_product(v.sales[j].product_id));
        let a = choose|a: int|
            0 <= a < header_ids(v.headers).len() && header_ids(v.headers)[a] == s.sale_header_id;
        assert(hp(v.headers[a]));
        v.headers.lemma_filter_contains(hp, a);
        let b = choose|b: int| 0 <= b < d.headers.len() && d.headers[b] == v.headers[a];
        assert(header_ids(d.headers)[b] == s.sale_header_id);
    }
    assert forall|i: int|
        #![trigger d.product_categories[i]]
        0 <= i < d.product_categories.len() implies d.has_product(
        d.product_categories[i].product_id,
    ) && d.has_category(d.product_categories[i].category_id) by {
        assert(v.has_product(v.product_categories[i].product_id));
    }
}

pub open spec fn pick_w<T>(key: spec_fn(T) -> int, f: spec_fn(T) -> int, k: int) -> spec_fn(T) -> int {
    |x: T|
        if key(x) == k {
            f(x)
        } else {
            0
        }
}

/// For each group `u`, the sum of `f` over the elements of `s` whose key is `u`'s id.
pub open spec fn group_w<T, U>(
    s: Seq<T>,
    key: spec_fn(T) -> int,
    id: spec_fn(U) -> int,
    f: spec_fn(T) -> int,
) -> spec_fn(U) -> int {
    |u: U| sum_of(s, pick_w(key, f, id(u)))
}

pub open spec fn hit_w<U>(id: spec_fn(U) -> int, k: int, c: int) -> spec_fn(U) -> int {
    |u: U|
        if id(u) == k {
            c
        } else {
            0
        }
}

/// A sum of zeros is zero.
pub proof fn lemma_sum_of_zero<U>(s: Seq<U>, g: spec_fn(U) -> int)
    requires
        forall|i: int| 0 <= i < s.len() ==> g(#[trigger] s[i]) == 0,
    ensures
        sum_of(s, g) == 0,
    decreases s.len(),
{
    if s.len() > 0 {
        lemma_sum_of_zero(s.drop_last(), g);
    }
}

/// Sums add up pointwise.
pub proof fn lemma_sum_of_add<U>(s: Seq<U>, f: spec_fn(U) -> int, g: spec_fn(U) -> int, h: spec_fn(U) -> int)
    requires
        forall|i: int| 0 <= i < s.len() ==> h(#[trigger] s[i]) == f(s[i]) + g(s[i]),
    ensures
        sum_of(s, h) == sum_of(s, f) + sum_of(s, g),
    decreases s.len(),
{
    if s.len() > 0 {
        lemma_sum_of_add(s.drop_last(), f, g, h);
    }
}

/// When exactly one group has id `k`, summing `c` over the groups with id `k` gives `c`.
pub proof fn lemma_sum_of_hit<U>(groups: Seq<U>, id: spec_fn(U) -> int, k: int, c: int)
    requires
        forall|i: int, j: int|
            0 <= i < groups.len() && 0 <= j < groups.len() && i != j ==> id(groups[i]) != id(
                groups[j],
            ),
        exists|j: int| 0 <= j < groups.len() && id(groups[j]) == k,
    ensures
        sum_of(groups, hit_w(id, k, c)) == c,
    decreases groups.len(),
{
    let n = groups.len();
    let init = groups.drop_last();
    if id(groups[n - 1]) == k {
        assert forall|i: int| 0 <= i < init.len() implies hit_w(id, k, c)(#[trigger] init[i]) == 0 by {
            assert(init[i] == groups[i]);
        }
        lemma_sum_of_zero(init, hit_w(id, k, c));
    } else {
        let j = choose|j: int| 0 <= j < groups.len() && id(groups[j]) == k;
        assert(init[j] == groups[j]);
        assert forall|a: int, b: int|
            0 <= a < init.len() && 0 <= b < init.len() && a != b implies id(init[a]) != id(
            init[b],
        ) by {
            assert(init[a] == groups[a] && init[b] == groups[b]);
        }
        lemma_sum_of_hit(init, id, k, c);
    }
}

/// Summing per group and then over the groups gives the plain sum, when the
/// groups have distinct ids and every element's key is the id of a group.
pub proof fn lemma_regroup<T, U>(
    s: Seq<T>,
    groups: Seq<U>,
    key: spec_fn(T) -> int,
    id: spec_fn(U) -> int,
    f: spec_fn(T) -> int,
    w: spec_fn(T) -> int,
)
    requires
        forall|i: int, j: int|
            0 <= i < groups.len() && 0 <= j < groups.len() && i != j ==> id(groups[i]) != id(
                groups[j],
            ),
        forall|i: int|
            0 <= i < s.len() ==> 0 <= w(#[trigger] s[i]) < groups.len() && id(groups[w(s[i])])
                == key(s[i]),
    ensures
        sum_of(groups, group_w(s, key, id, f)) == sum_of(s, f),
    decreases s.len(),
{
    if s.len() == 0 {
        lemma_sum_of_zero(groups, group_w(s, key, id, f));
    } else {
        let init = s.drop_last();
        let x = s.last();
        assert forall|i: int| 0 <= i < init.len() implies 0 <= w(#[trigger] init[i]) < groups.len()
            && id(groups[w(init[i])]) == key(init[i]) by {
            assert(init[i] == s[i]);
        }
        lemma_regroup(init, groups, key, id, f, w);
        assert forall|i: int| 0 <= i < groups.len() implies group_w(s, key, id, f)(
            #[trigger] groups[i],
        ) == group_w(init, key, id, f)(groups[i]) + hit_w(id, key(x), f(x))(groups[i]) by {}
        lemma_sum_of_add(groups, group_w(init, key, id, f), hit_w(id, key(x), f(x)), group_w(s, key, id, f));
        assert(s[s.len() - 1] == x);
        assert(id(groups[w(x)]) == key(x));
        lemma_sum_of_hit(groups, id, key(x), f(x));
    }
}

pub open spec fn book_key() -> spec_fn(Sale) -> int {
    |s: Sale| s.product_id as int
}

pub open spec fn book_id() -> spec_fn(Product) -> int {
    |p: Product| p.id as int
}

pub open spec fn book_quantity_w(sales: Seq<Sale>) -> spec_fn(Product) -> int {
    |p: Product| product_quantity(sales, p.id)
}

/// The store's total amount and copies are the sums, over every book, of the
/// book's sales amount and copies sold (so the full ranking adds up to the
/// dashboard's totals), when the store is well formed.
pub proof fn lemma_books_add_up(v: StoreView)
    requires
        v.well_formed(),
    ensures
        sum_of(v.products, crate::reports::book_amount_w(v.sales)) == crate::reports::store_amount(v),
        sum_of(v.products, book_quantity_w(v.sales)) == crate::reports::store_quantity(v),
{
    assert forall|i: int, j: int|
        0 <= i < v.products.len() && 0 <= j < v.products.len() && i != j implies book_id()(
        v.products[i],
    ) != book_id()(v.products[j]) by {
        assert(product_ids(v.products)[i] != product_ids(v.products)[j]);
    }
    let w = |x: Sale| choose|j: int| 0 <= j < v.products.len() && v.products[j].id == x.product_id;
    assert forall|i: int| 0 <= i < v.sales.len() implies 0 <= w(#[trigger] v.sales[i]) < v.products.len()
        && book_id()(v.products[w(v.sales[i])]) == book_key()(v.sales[i]) by {
        assert(v.has_product(v.sales[i].product_id));
        let j = choose|j: int| 0 <= j < product_ids(v.products).len() && product_ids(v.products)[j] == v.sales[i].product_id;
        assert(v.products[j].id == v.sales[i].product_id);
    }
    let amount = crate::store::amount_w();
    let quantity = crate::store::quantity_w();
    lemma_regroup(v.sales, v.products, book_key(), book_id(), amount, w);
    lemma_regroup(v.sales, v.products, book_key(), book_id(), quantity, w);
    assert forall|p: Product| #[trigger] crate::reports::book_amount_w(v.sales)(p) == group_w(
        v.sales,
        book_key(),
        book_id(),
        amount,
    )(p) by {
        assert(crate::store::product_amount_w(p.id) =~= pick_w(book_key(), amount, p.id as int));
    }
    assert forall|p: Product| #[trigger] book_quantity_w(v.sales)(p) == group_w(
        v.sales,
        book_key(),
        book_id(),
        quantity,
    )(p) by {
        assert(product_quantity_w(p.id) =~= pick_w(book_key(), quantity, p.id as int));
    }
    assert(crate::reports::book_amount_w(v.sales) =~= group_w(v.sales, book_key(), book_id(), amount));
    assert(book_quantity_w(v.sales) =~= group_w(v.sales, book_key(), book_id(), quantity));
}

pub open spec fn owner_key(headers: Seq<SaleHeader>) -> spec_fn(Sale) -> int {
    |s: Sale|
        match crate::reports::header_customer(headers, s.sale_header_id) {
            Some(c) => c as int,
            None => i64::MIN - 1,
        }
}

pub open spec fn customer_id_w() -> spec_fn(crate::models::Customer) -> int {
    |c: crate::models::Customer| c.id as int
}

pub open spec fn customer_total_w(v: StoreView) -> spec_fn(crate::models::Customer) -> int {
    |c: crate::models::Customer| crate::reports::customer_amount(v, c.id)
}

/// The store's total amount is the sum, over every customer, of the
/// customer's purchases (so the dashboard's customer table adds up to its
/// total), when the store is well formed.
pub proof fn lemma_customers_add_up(v: StoreView)
    requires
        v.well_formed(),
    ensures
        sum_of(v.customers, customer_total_w(v)) == crate::reports::store_amount(v),
{
    let key = owner_key(v.headers);
    assert forall|i: int, j: int|
        0 <= i < v.customers.len() && 0 <= j < v.customers.len() && i != j implies customer_id_w()(
        v.customers[i],
    ) != customer_id_w()(v.customers[j]) by {
        assert(crate::store::customer_ids(v.customers)[i] != crate::store::customer_ids(v.customers)[j]);
    }
    let w = |x: Sale| choose|j: int| 0 <= j < v.customers.len() && customer_id_w()(v.customers[j]) == key(x);
    assert forall|i: int| 0 <= i < v.sales.len() implies 0 <= w(#[trigger] v.sales[i]) < v.customers.len()
        && customer_id_w()(v.customers[w(v.sales[i])]) == key(v.sales[i]) by {
        let s = v.sales[i];
        assert(v.has_header(s.sale_header_id));
        let a = choose|a: int| 0 <= a < header_ids(v.headers).len() && header_ids(v.headers)[a] == s.sale_header_id;
        assert(v.headers[a].id == s.sale_header_id);
        let h = choose|k: int| 0 <= k < v.headers.len() && v.headers[k].id == s.sale_header_id;
        assert(v.has_customer(v.headers[h].customer_id));
        let j = choose|j: int|
            0 <= j < crate::store::customer_ids(v.customers).len() && crate::store::customer_ids(v.customers)[j]
                == v.headers[h].customer_id;
        assert(customer_id_w()(v.customers[j]) == key(s));
    }
    let amount = crate::store::amount_w();
    lemma_regroup(v.sales, v.customers, key, customer_id_w(), amount, w);
    assert forall|c: crate::models::Customer| #[trigger] customer_total_w(v)(c) == group_w(
        v.sales,
        key,
        customer_id_w(),
        amount,
    )(c) by {
        assert(crate::reports::customer_amount_w(v.headers, c.id) =~= pick_w(key, amount, c.id as int));
    }
    assert(customer_total_w(v) =~= group_w(v.sales, key, customer_id_w(), amount));
}

} // verus!
