//! What each operation is for, stated directly over its inputs: the used
//! slots of a sale form, the prices charged, the books of a category summary,
//! the categories of a book, the text order, and the sample data.
use vstd::prelude::*;

use crate::models::{
    CategorySummary, Product, ProductWithCategories, Sale, SaleCreateForm, SaleDetail, SaleHeader,
    SaleItem, SalesRanking, CategorySales, CustomerSales,
};
use crate::order::{lemma_text_lt_skip, text_lt};
use crate::sales::{detail_matches, header_pred, item_matches, lines_of};
use crate::reports::{
    category_amount, category_amount_w, category_quantity, category_quantity_w, customer_amount,
    customer_amount_w, customer_sale_count, customer_sales_w, header_customer, is_category_sales,
    is_customer_sales, store_amount, store_quantity, is_ranking, rank_key, ranking_row_matches, category_products, in_category_pred, summary_matches};
use crate::seed::{sample_matches, SampleLine, SampleSale};
use crate::store::{
    customer_ids, distinct, header_ids, product_amount, product_amount_w, product_ids, product_lines,
    product_lines_w, product_quantity, product_quantity_w, sale_ids, sum_of, StoreView,
};
use crate::templates::{link_pred, links_of, with_categories_matches};
use crate::laws::{requested, requested_w};
use crate::transactions::{deleted, returns_fit};
use crate::transactions::{
    create_error, created, first_line_id, keep_slot, lemma_max_id, lemma_plan_lines_ids, lemma_plan_prefix, lemma_take_stock_ids, new_sales, plan_lines,
    new_header_id, price_for, product_index, selected_lines, take_stock,
};

verus! {

/// 1 for a used form slot (book id and quantity both positive), else 0.
pub open spec fn used(pid: i64, q: i32) -> int {
    if pid > 0 && q > 0 {
        1
    } else {
        0
    }
}

/// Every used slot of the form becomes a line of the new sale, in slot order,
/// whatever the other slots hold; unused slots are skipped.
pub proof fn lemma_every_used_slot_is_recorded(v: StoreView, f: SaleCreateForm)
    ensures
        new_sales(v, f).len() == used(f.product_id_1, f.quantity_1) + used(f.product_id_2, f.quantity_2)
            + used(f.product_id_3, f.quantity_3),
        f.product_id_1 > 0 && f.quantity_1 > 0 ==> new_sales(v, f)[0].product_id == f.product_id_1
            && new_sales(v, f)[0].quantity == f.quantity_1,
        f.product_id_2 > 0 && f.quantity_2 > 0 ==> new_sales(v, f)[used(
            f.product_id_1,
            f.quantity_1,
        )].product_id == f.product_id_2 && new_sales(v, f)[used(f.product_id_1, f.quantity_1)].quantity
            == f.quantity_2,
        f.product_id_3 > 0 && f.quantity_3 > 0 ==> new_sales(v, f)[used(f.product_id_1, f.quantity_1)
            + used(f.product_id_2, f.quantity_2)].product_id == f.product_id_3 && new_sales(v, f)[used(
            f.product_id_1,
            f.quantity_1,
        ) + used(f.product_id_2, f.quantity_2)].quantity == f.quantity_3,
{
    let sel = selected_lines(f);
    assert(sel.len() == used(f.product_id_1, f.quantity_1) + used(f.product_id_2, f.quantity_2)
        + used(f.product_id_3, f.quantity_3));
}

/// Copies of book `pid` that the form's used slots ask for.
pub open spec fn asked(f: SaleCreateForm, pid: i64) -> int {
    (if f.product_id_1 == pid && f.product_id_1 > 0 && f.quantity_1 > 0 {
        f.quantity_1 as int
    } else {
        0
    }) + (if f.product_id_2 == pid && f.product_id_2 > 0 && f.quantity_2 > 0 {
        f.quantity_2 as int
    } else {
        0
    }) + (if f.product_id_3 == pid && f.product_id_3 > 0 && f.quantity_3 > 0 {
        f.quantity_3 as int
    } else {
        0
    })
}

/// What the slots ask of a book, summed slot by slot, is what the form asks.
proof fn lemma_requested_is_asked(f: SaleCreateForm, pid: i64)
    ensures
        requested(selected_lines(f), pid) == asked(f, pid),
{
    let sel = selected_lines(f);
    reveal_with_fuel(crate::store::sum_of, 4);
    let a = keep_slot(f.product_id_1, f.quantity_1);
    let b = keep_slot(f.product_id_2, f.quantity_2);
    let c = keep_slot(f.product_id_3, f.quantity_3);
    crate::laws::lemma_sum_of_concat(a + b, c, requested_w(pid));
    crate::laws::lemma_sum_of_concat(a, b, requested_w(pid));
    assert(sel == a + b + c);
}

/// Recording a sale takes from each book exactly the copies the form asks
/// of it (which it has in stock), and changes nothing else about the books.
pub proof fn lemma_recording_takes_asked_copies(v: StoreView, f: SaleCreateForm)
    requires
        v.well_formed(),
        create_error(v, f) is None,
    ensures
        created(v, f).products.len() == v.products.len(),
        forall|k: int|
            0 <= k < v.products.len() ==> {
                let p = v.products[k];
                let q = #[trigger] created(v, f).products[k];
                &&& q.stock == p.stock - asked(f, p.id)
                &&& asked(f, p.id) > 0 ==> p.stock >= asked(f, p.id)
                &&& q.id == p.id
                &&& q.name == p.name
                &&& q.description == p.description
                &&& q.price == p.price
                &&& q.published_date == p.published_date
            },
{
    let sel = selected_lines(f);
    crate::laws::lemma_recordable_covers_stock(v, f);
    assert forall|i: int| 0 <= i < sel.len() implies #[trigger] sel[i].1 > 0 by {}
    crate::laws::lemma_take_all(v.products, sel);
    lemma_plan_lines_ids(v.products, sel);
    assert forall|k: int| 0 <= k < v.products.len() implies {
        let p = v.products[k];
        let q = #[trigger] created(v, f).products[k];
        &&& q.stock == p.stock - asked(f, p.id)
        &&& asked(f, p.id) > 0 ==> p.stock >= asked(f, p.id)
        &&& q.id == p.id
        &&& q.name == p.name
        &&& q.description == p.description
        &&& q.price == p.price
        &&& q.published_date == p.published_date
    } by {
        let id = v.products[k].id;
        lemma_requested_is_asked(f, id);
        crate::laws::lemma_requested_nonneg(sel, id);
        assert(created(v, f).products == plan_lines(v.products, sel).1);
        assert(created(v, f).products[k] == crate::transactions::with_stock(
            v.products[k],
            (v.products[k].stock - requested(sel, id)) as i32,
        ));
        if requested(sel, id) > 0 {
            assert(v.products[k].stock >= requested(sel, id));
        }
        assert(requested(sel, id) >= 0);
        assert(created(v, f).products[k].stock == v.products[k].stock - asked(f, id));
        assert(created(v, f).products[k].id == id);
    }
}

/// A form that asks for copies of some book, more than it has in stock, is refused.
pub proof fn lemma_short_stock_is_refused(v: StoreView, f: SaleCreateForm, k: int)
    requires
        v.well_formed(),
        0 <= k < v.products.len(),
        asked(f, v.products[k].id) > 0,
        asked(f, v.products[k].id) > v.products[k].stock,
    ensures
        create_error(v, f) is Some,
{
    if create_error(v, f) is None {
        lemma_recording_takes_asked_copies(v, f);
        assert(created(v, f).products[k].id == v.products[k].id);
    }
}

/// A new sale and its lines get ids no sale or line has had: above every
/// existing id and above the database's counters.
pub proof fn lemma_new_ids_are_fresh(v: StoreView, f: SaleCreateForm)
    requires
        create_error(v, f) is None,
    ensures
        new_header_id(v) > v.header_seq,
        forall|k: int| 0 <= k < v.headers.len() ==> new_header_id(v) > (#[trigger] v.headers[k]).id,
        forall|j: int|
            0 <= j < new_sales(v, f).len() ==> (#[trigger] new_sales(v, f)[j]).id > v.sale_seq,
        forall|j: int, k: int|
            0 <= j < new_sales(v, f).len() && 0 <= k < v.sales.len() ==> (#[trigger] new_sales(
                v,
                f,
            )[j]).id != (#[trigger] v.sales[k]).id,
        forall|j: int, l: int|
            0 <= j < l < new_sales(v, f).len() ==> (#[trigger] new_sales(v, f)[j]).id != (
            #[trigger] new_sales(v, f)[l]).id,
{
    lemma_max_id(header_ids(v.headers));
    lemma_max_id(sale_ids(v.sales));
    let n = new_sales(v, f).len();
    assert(first_line_id(v) + n - 1 <= i64::MAX);
    assert forall|k: int| 0 <= k < v.headers.len() implies new_header_id(v) > (
    #[trigger] v.headers[k]).id by {
        assert(header_ids(v.headers)[k] == v.headers[k].id);
    }
    assert forall|j: int, k: int|
        0 <= j < new_sales(v, f).len() && 0 <= k < v.sales.len() implies (#[trigger] new_sales(
            v,
            f,
        )[j]).id != (#[trigger] v.sales[k]).id by {
        assert(sale_ids(v.sales)[k] == v.sales[k].id);
    }
}

/// Taking copies from stock keeps every book's price.
proof fn lemma_plan_keeps_prices(products: Seq<Product>, lines: Seq<(i64, i32)>)
    ensures
        plan_lines(products, lines).1.len() == products.len(),
        forall|m: int|
            0 <= m < products.len() ==> (#[trigger] plan_lines(products, lines).1[m]).price
                == products[m].price && plan_lines(products, lines).1[m].id == products[m].id,
    decreases lines.len(),
{
    lemma_plan_lines_ids(products, lines);
    if lines.len() > 0 {
        lemma_plan_keeps_prices(products, lines.drop_last());
        let ps = plan_lines(products, lines.drop_last()).1;
        lemma_take_stock_ids(ps, lines.last().0, lines.last().1);
        assert forall|m: int| 0 <= m < products.len() implies (#[trigger] plan_lines(
            products,
            lines,
        ).1[m]).price == products[m].price && plan_lines(products, lines).1[m].id
            == products[m].id by {
            assert(plan_lines(products, lines).1 == take_stock(ps, lines.last().0, lines.last().1));
            assert(ps[m].price == products[m].price);
        }
    }
}

/// Each line of a recorded sale is charged its book's price (0 for a book
/// without a price), as the book was before the sale.
pub proof fn lemma_lines_charge_book_price(v: StoreView, f: SaleCreateForm, k: int, m: int)
    requires
        v.well_formed(),
        0 <= k < new_sales(v, f).len(),
        0 <= m < v.products.len(),
        v.products[m].id == new_sales(v, f)[k].product_id,
    ensures
        new_sales(v, f)[k].sale_price == (match v.products[m].price {
            Some(p) => p,
            None => 0,
        }),
{
    let sel = selected_lines(f);
    let pid = sel[k].0;
    lemma_plan_prefix(v.products, sel, k + 1);
    assert(sel.take(k + 1).drop_last() =~= sel.take(k));
    assert(sel.take(k + 1).last() == sel[k]);
    lemma_plan_keeps_prices(v.products, sel.take(k));
    let ps = plan_lines(v.products, sel.take(k)).1;
    assert(plan_lines(v.products, sel).0[k] == plan_lines(v.products, sel.take(k + 1)).0[k]);
    lemma_plan_lines_ids(v.products, sel.take(k));
    assert(plan_lines(v.products, sel.take(k + 1)).0[k].sale_price == price_for(ps, pid));
    assert(ps[m].id == pid);
    let c = product_index(ps, pid);
    assert(product_ids(ps)[c] == product_ids(ps)[m]);
    assert(distinct(product_ids(v.products)));
}

/// Every book linked to a category is listed in its summary, each entry is a
/// book linked to the category, and the count is the number of entries.
pub proof fn lemma_summary_lists_every_linked_book(
    x: CategorySummary,
    c: crate::models::Category,
    v: StoreView,
)
    requires
        summary_matches(x, c, v),
        v.products.len() <= usize::MAX,
    ensures
        forall|k: int, l: int|
            0 <= k < v.products.len() && 0 <= l < v.product_categories.len()
                && v.product_categories[l].product_id == v.products[k].id
                && v.product_categories[l].category_id == c.id ==> exists|j: int|
                0 <= j < x.products@.len() && #[trigger] x.products@[j].product_id
                    == v.products[k].id,
        forall|j: int|
            0 <= j < x.products@.len() ==> exists|l: int|
                0 <= l < v.product_categories.len() && v.product_categories[l].product_id
                    == (#[trigger] x.products@[j]).product_id && v.product_categories[l].category_id
                    == c.id,
        x.product_count == x.products@.len() as i64,
{
    let cp = category_products(v, c.id);
    let pred = in_category_pred(v.product_categories, c.id);
    v.products.lemma_filter_len(pred);
    let q = choose|q: Seq<usize>|
        {
            &&& crate::order::is_permutation(q, cp.len())
            &&& x.products@.len() == q.len()
            &&& forall|i: int|
                #![trigger x.products@[i]]
                0 <= i < q.len() ==> x.products@[i].product_id == cp[q[i] as int].id
                    && x.products@[i].product_name == cp[q[i] as int].name
                    && x.products@[i].total_amount == crate::store::product_amount(
                    v.sales,
                    cp[q[i] as int].id,
                )
            &&& forall|i: int, j: int|
                0 <= i < j < q.len() ==> crate::store::product_amount(v.sales, cp[q[i] as int].id)
                    >= crate::store::product_amount(v.sales, cp[q[j] as int].id)
        };
    assert forall|k: int, l: int|
        0 <= k < v.products.len() && 0 <= l < v.product_categories.len()
            && v.product_categories[l].product_id == v.products[k].id
            && v.product_categories[l].category_id == c.id implies exists|j: int|
        0 <= j < x.products@.len() && #[trigger] x.products@[j].product_id == v.products[k].id by {
        assert(pred(v.products[k]));
        v.products.lemma_filter_contains(pred, k);
        let a = choose|a: int| 0 <= a < cp.len() && cp[a] == v.products[k];
        assert(0 <= a < cp.len());
        assert(q.contains(a as usize));
        let j = choose|j: int| 0 <= j < q.len() && q[j] == a as usize;
        assert(q[j] as int == a);
        assert(x.products@[j].product_id == cp[q[j] as int].id);
        assert(x.products@[j].product_id == v.products[k].id);
    }
    assert forall|j: int| 0 <= j < x.products@.len() implies exists|l: int|
        0 <= l < v.product_categories.len() && v.product_categories[l].product_id
            == (#[trigger] x.products@[j]).product_id && v.product_categories[l].category_id
            == c.id by {
        let a = q[j] as int;
        assert(x.products@[j].product_id == cp[a].id);
        v.products.lemma_filter_pred(pred, a);
        assert(pred(cp[a]));
    }
}

/// `n` is the name of a category that book `pid` is linked to.
pub open spec fn names_a_link(v: StoreView, pid: i64, n: Seq<char>) -> bool {
    exists|l: int|
        0 <= l < v.product_categories.len() && v.product_categories[l].product_id == pid && n
            == crate::templates::category_name_for(v, v.product_categories[l].category_id)
}

/// A book's list of categories has one name per link of that book: the name
/// of each linked category occurs in it, each name in it is the name of a
/// linked category, and there are as many names as links.
pub proof fn lemma_book_lists_all_its_categories(w: ProductWithCategories, p: Product, v: StoreView)
    requires
        with_categories_matches(w, p, v),
    ensures
        w.categories@.len() == v.product_categories.filter(
            |l: crate::models::ProductCategory| l.product_id == p.id,
        ).len(),
        forall|l: int|
            0 <= l < v.product_categories.len() && v.product_categories[l].product_id == p.id
                ==> exists|j: int|
                0 <= j < w.categories@.len() && (#[trigger] w.categories@[j])@
                    == crate::templates::category_name_for(v, v.product_categories[l].category_id),
        forall|j: int|
            0 <= j < w.categories@.len() ==> names_a_link(v, p.id, (#[trigger] w.categories@[j])@),
{
    let pcs = v.product_categories;
    let pred = link_pred(p.id);
    let links = links_of(pcs, p.id);
    assert(pred =~= (|l: crate::models::ProductCategory| l.product_id == p.id));
    assert forall|l: int|
        0 <= l < pcs.len() && pcs[l].product_id == p.id implies exists|j: int|
        0 <= j < w.categories@.len() && (#[trigger] w.categories@[j])@
            == crate::templates::category_name_for(v, pcs[l].category_id) by {
        assert(pred(pcs[l]));
        pcs.lemma_filter_contains(pred, l);
        let j = choose|j: int| 0 <= j < links.len() && links[j] == pcs[l];
        assert(w.categories@[j]@ == crate::templates::category_name_for(v, links[j].category_id));
    }
    assert forall|j: int| 0 <= j < w.categories@.len() implies names_a_link(
        v,
        p.id,
        (#[trigger] w.categories@[j])@,
    ) by {
        pcs.lemma_filter_pred(pred, j);
        assert(links.contains(links[j]));
        pcs.lemma_filter_contains_rev(pred, links[j]);
        let l = choose|l: int| 0 <= l < pcs.len() && pcs[l] == links[j];
        assert(w.categories@[j]@ == crate::templates::category_name_for(v, links[j].category_id));
        assert(0 <= l < pcs.len() && pcs[l].product_id == p.id && w.categories@[j]@
            == crate::templates::category_name_for(v, pcs[l].category_id));
    }
}

/// The text order is lexicographic: where two texts first differ, the one
/// with the smaller character comes first, whatever their lengths; a proper
/// prefix comes before the longer text; equal texts are not ordered.
pub proof fn lemma_text_order_is_lexicographic(a: Seq<char>, b: Seq<char>, i: int)
    requires
        0 <= i <= a.len(),
        i <= b.len(),
        forall|k: int| 0 <= k < i ==> a[k] == b[k],
    ensures
        i < a.len() && i < b.len() && (a[i] as int) < (b[i] as int) ==> text_lt(a, b),
        i < a.len() && i < b.len() && (b[i] as int) < (a[i] as int) ==> !text_lt(a, b),
        i == a.len() && i < b.len() ==> text_lt(a, b),
        i == b.len() ==> !text_lt(a, b),
{
    lemma_text_lt_skip(a, b, i);
    let sa = a.skip(i);
    let sb = b.skip(i);
    if i < a.len() {
        assert(sa[0] == a[i]);
    }
    if i < b.len() {
        assert(sb[0] == b[i]);
    }
}

/// The seven sample sales, whatever ids the customers and books have: the
/// buyers (by position: 0, 1, 2, 3, 4, 0, 1), the dates, and the lines (book
/// by position, quantity and price).
pub proof fn lemma_sample_sales_are_fixed(s: Seq<SampleSale>, customers: Seq<i64>, products: Seq<i64>)
    requires
        s.len() == 7,
        forall|i: int| 0 <= i < 7 ==> sample_matches(#[trigger] s[i], i, customers, products),
    ensures
        s[0].customer_id == customers[0] && s[0].sale_date@ == "2024-03-15"@,
        s[1].customer_id == customers[1] && s[1].sale_date@ == "2024-03-20"@,
        s[2].customer_id == customers[2] && s[2].sale_date@ == "2024-04-01"@,
        s[3].customer_id == customers[3] && s[3].sale_date@ == "2024-04-10"@,
        s[4].customer_id == customers[4] && s[4].sale_date@ == "2024-04-15"@,
        s[5].customer_id == customers[0] && s[5].sale_date@ == "2024-04-20"@,
        s[6].customer_id == customers[1] && s[6].sale_date@ == "2024-04-25"@,
        s[0].lines@ == seq![
            SampleLine { product_id: products[0], quantity: 2, sale_price: 3000 },
            SampleLine { product_id: products[1], quantity: 1, sale_price: 3500 },
        ],
        s[1].lines@ == seq![SampleLine { product_id: products[2], quantity: 3, sale_price: 2800 }],
        s[2].lines@ == seq![
            SampleLine { product_id: products[3], quantity: 2, sale_price: 3200 },
            SampleLine { product_id: products[4], quantity: 1, sale_price: 2500 },
            SampleLine { product_id: products[5], quantity: 1, sale_price: 2700 },
        ],
        s[3].lines@ == seq![
            SampleLine { product_id: products[6], quantity: 3, sale_price: 3800 },
            SampleLine { product_id: products[7], quantity: 2, sale_price: 2900 },
        ],
        s[4].lines@ == seq![
            SampleLine { product_id: products[8], quantity: 1, sale_price: 3300 },
            SampleLine { product_id: products[9], quantity: 1, sale_price: 4200 },
        ],
        s[5].lines@ == seq![SampleLine { product_id: products[0], quantity: 1, sale_price: 3000 }],
        s[6].lines@ == seq![
            SampleLine { product_id: products[1], quantity: 2, sale_price: 3500 },
            SampleLine { product_id: products[2], quantity: 2, sale_price: 2800 },
            SampleLine { product_id: products[6], quantity: 1, sale_price: 3800 },
        ],
{
    assert(sample_matches(s[0], 0, customers, products));
    assert(sample_matches(s[1], 1, customers, products));
    assert(sample_matches(s[2], 2, customers, products));
    assert(sample_matches(s[3], 3, customers, products));
    assert(sample_matches(s[4], 4, customers, products));
    assert(sample_matches(s[5], 5, customers, products));
    assert(sample_matches(s[6], 6, customers, products));
    assert(s[0].lines@ =~= seq![
        SampleLine { product_id: products[0], quantity: 2, sale_price: 3000 },
        SampleLine { product_id: products[1], quantity: 1, sale_price: 3500 },
    ]);
    assert(s[1].lines@ =~= seq![SampleLine { product_id: products[2], quantity: 3, sale_price: 2800 }]);
    assert(s[2].lines@ =~= seq![
        SampleLine { product_id: products[3], quantity: 2, sale_price: 3200 },
        SampleLine { product_id: products[4], quantity: 1, sale_price: 2500 },
        SampleLine { product_id: products[5], quantity: 1, sale_price: 2700 },
    ]);
    assert(s[3].lines@ =~= seq![
        SampleLine { product_id: products[6], quantity: 3, sale_price: 3800 },
        SampleLine { product_id: products[7], quantity: 2, sale_price: 2900 },
    ]);
    assert(s[4].lines@ =~= seq![
        SampleLine { product_id: products[8], quantity: 1, sale_price: 3300 },
        SampleLine { product_id: products[9], quantity: 1, sale_price: 4200 },
    ]);
    assert(s[5].lines@ =~= seq![SampleLine { product_id: products[0], quantity: 1, sale_price: 3000 }]);
    assert(s[6].lines@ =~= seq![
        SampleLine { product_id: products[1], quantity: 2, sale_price: 3500 },
        SampleLine { product_id: products[2], quantity: 2, sale_price: 2800 },
        SampleLine { product_id: products[6], quantity: 1, sale_price: 3800 },
    ]);
}

/// `it` shows sale line `s`: its book, quantity, price and their product.
pub open spec fn item_shows_line(it: SaleItem, s: Sale) -> bool {
    &&& it.product_id == s.product_id
    &&& it.quantity == s.quantity
    &&& it.sale_price == s.sale_price
    &&& it.subtotal == s.quantity * s.sale_price
}

/// A sale's detail lists each of its lines once, in table order, and nothing
/// else; its customer's name is shown, or 「不明」 when the customer is missing.
pub proof fn lemma_detail_shows_every_line(d: SaleDetail, h: SaleHeader, v: StoreView)
    requires
        v.well_formed(),
        detail_matches(d, h, v),
    ensures
        d.items@.len() == v.sales.filter(|s: Sale| s.sale_header_id == h.id).len(),
        forall|j: int|
            0 <= j < d.items@.len() ==> item_shows_line(
                #[trigger] d.items@[j],
                v.sales.filter(|s: Sale| s.sale_header_id == h.id)[j],
            ),
        forall|l: int|
            0 <= l < v.sales.len() && v.sales[l].sale_header_id == h.id ==> exists|j: int|
                0 <= j < d.items@.len() && item_shows_line(#[trigger] d.items@[j], v.sales[l]),
        forall|k: int|
            0 <= k < v.customers.len() && v.customers[k].id == h.customer_id ==> d.customer_name@
                == (#[trigger] v.customers[k]).name@,
        (forall|k: int| 0 <= k < v.customers.len() ==> (#[trigger] v.customers[k]).id != h.customer_id)
            ==> d.customer_name@ == "\u{4e0d}\u{660e}"@,
{
    let p = header_pred(h.id);
    let lines = lines_of(v.sales, h.id);
    assert(p =~= (|s: Sale| s.sale_header_id == h.id));
    assert forall|j: int| 0 <= j < d.items@.len() implies item_shows_line(
        #[trigger] d.items@[j],
        v.sales.filter(|s: Sale| s.sale_header_id == h.id)[j],
    ) by {
        assert(item_matches(d.items@[j], lines[j], v.products));
    }
    assert forall|l: int| 0 <= l < v.sales.len() && v.sales[l].sale_header_id == h.id implies exists|j: int|
        0 <= j < d.items@.len() && item_shows_line(#[trigger] d.items@[j], v.sales[l]) by {
        assert(p(v.sales[l]));
        v.sales.lemma_filter_contains(p, l);
        let j = choose|j: int| 0 <= j < lines.len() && lines[j] == v.sales[l];
        assert(item_matches(d.items@[j], lines[j], v.products));
        assert(item_shows_line(d.items@[j], v.sales[l]));
    }
    assert forall|k: int|
        0 <= k < v.customers.len() && v.customers[k].id == h.customer_id implies d.customer_name@
        == (#[trigger] v.customers[k]).name@ by {
        let c = choose|c: int| 0 <= c < v.customers.len() && v.customers[c].id == h.customer_id;
        assert(customer_ids(v.customers)[c] == customer_ids(v.customers)[k]);
    }
    reveal_strlit("\u{4e0d}\u{660e}");
}

/// A weighted sum that counts only the elements passing `p` is the sum over
/// those elements.
pub proof fn lemma_sum_of_filter<T>(
    s: Seq<T>,
    p: spec_fn(T) -> bool,
    f: spec_fn(T) -> int,
    g: spec_fn(T) -> int,
)
    requires
        forall|x: T| #[trigger] g(x) == (if p(x) {
            f(x)
        } else {
            0
        }),
    ensures
        sum_of(s, g) == sum_of(s.filter(p), f),
    decreases s.len(),
{
    reveal(Seq::filter);
    if s.len() > 0 {
        lemma_sum_of_filter(s.drop_last(), p, f, g);
        if p(s.last()) {
            assert(s.filter(p).drop_last() =~= s.drop_last().filter(p));
        }
    }
}

/// Summing 1 over a sequence counts it.
proof fn lemma_sum_of_ones<T>(s: Seq<T>)
    ensures
        sum_of(s, |x: T| 1int) == s.len(),
    decreases s.len(),
{
    if s.len() > 0 {
        lemma_sum_of_ones(s.drop_last());
    }
}

/// The sale lines of book `pid`, in table order.
pub open spec fn lines_of_book(v: StoreView, pid: i64) -> Seq<Sale> {
    v.sales.filter(|s: Sale| s.product_id == pid)
}

/// A book's sales amount, copies and line count, summed over its lines.
proof fn lemma_book_sums(v: StoreView, pid: i64)
    ensures
        product_amount(v.sales, pid) == sum_of(lines_of_book(v, pid), |s: Sale| s.quantity * s.sale_price),
        product_quantity(v.sales, pid) == sum_of(lines_of_book(v, pid), |s: Sale| s.quantity as int),
        product_lines(v.sales, pid) == lines_of_book(v, pid).len(),
{
    let p = |s: Sale| s.product_id == pid;
    lemma_sum_of_filter(v.sales, p, |s: Sale| s.quantity * s.sale_price, product_amount_w(pid));
    lemma_sum_of_filter(v.sales, p, |s: Sale| s.quantity as int, product_quantity_w(pid));
    lemma_sum_of_filter(v.sales, p, |s: Sale| 1int, product_lines_w(pid));
    lemma_sum_of_ones(v.sales.filter(p));
}

/// Some row of `r` shows book `pid`.
pub open spec fn lists_book(r: Seq<SalesRanking>, pid: i64) -> bool {
    exists|i: int| 0 <= i < r.len() && r[i].product_id == pid
}

/// Each row of a ranking shows a book of the store with its sales summed over
/// its sale lines, ranked 1, 2, 3, ...; rows come by amount, largest first
/// (after every book with sales when unsold books go last), and a ranking no
/// longer than the store lists every book.
pub proof fn lemma_ranking_rows_add_up(r: Seq<SalesRanking>, v: StoreView, limit: nat, unsold_last: bool)
    requires
        is_ranking(r, v, limit, unsold_last),
        v.products.len() <= usize::MAX,
    ensures
        forall|i: int|
            0 <= i < r.len() ==> {
                let row = #[trigger] r[i];
                &&& row.rank == (i + 1) as i32
                &&& row.total_amount == sum_of(
                    lines_of_book(v, row.product_id),
                    |s: Sale| s.quantity * s.sale_price,
                )
                &&& row.total_quantity == sum_of(
                    lines_of_book(v, row.product_id),
                    |s: Sale| s.quantity as int,
                )
                &&& row.sale_count == lines_of_book(v, row.product_id).len()
                &&& exists|k: int|
                    0 <= k < v.products.len() && v.products[k].id == row.product_id
                        && v.products[k].name == row.product_name
            },
        !unsold_last ==> forall|i: int, j: int|
            0 <= i < j < r.len() ==> (#[trigger] r[i]).total_amount >= (#[trigger] r[j]).total_amount,
        unsold_last ==> forall|i: int, j: int|
            0 <= i < j < r.len() && (#[trigger] r[j]).sale_count > 0 ==> (#[trigger] r[i]).sale_count > 0
                && r[i].total_amount >= r[j].total_amount,
        limit >= v.products.len() ==> forall|k: int|
            0 <= k < v.products.len() ==> lists_book(r, (#[trigger] v.products[k]).id),
{
    let p = choose|p: Seq<usize>|
        {
            &&& crate::order::is_permutation(p, v.products.len())
            &&& r.len() == (if limit < v.products.len() {
                limit
            } else {
                v.products.len()
            })
            &&& forall|i: int|
                0 <= i < r.len() ==> ranking_row_matches(
                    #[trigger] r[i],
                    v.products[p[i] as int],
                    v.sales,
                ) && r[i].rank == (i + 1) as i32
            &&& forall|i: int, j: int|
                0 <= i < j < p.len() ==> rank_key(v.sales, v.products[p[i] as int].id, unsold_last)
                    >= rank_key(v.sales, v.products[p[j] as int].id, unsold_last)
            &&& forall|i: int, j: int|
                0 <= i < j < p.len() && rank_key(v.sales, v.products[p[i] as int].id, unsold_last)
                    == rank_key(v.sales, v.products[p[j] as int].id, unsold_last) ==> p[i] < p[j]
        };
    assert forall|i: int| 0 <= i < r.len() implies {
        let row = #[trigger] r[i];
        &&& row.rank == (i + 1) as i32
        &&& row.total_amount == sum_of(
            lines_of_book(v, row.product_id),
            |s: Sale| s.quantity * s.sale_price,
        )
        &&& row.total_quantity == sum_of(
            lines_of_book(v, row.product_id),
            |s: Sale| s.quantity as int,
        )
        &&& row.sale_count == lines_of_book(v, row.product_id).len()
        &&& exists|k: int|
            0 <= k < v.products.len() && v.products[k].id == row.product_id
                && v.products[k].name == row.product_name
    } by {
        assert(ranking_row_matches(r[i], v.products[p[i] as int], v.sales));
        lemma_book_sums(v, r[i].product_id);
        assert(v.products[p[i] as int].id == r[i].product_id);
    }
    assert forall|i: int, j: int| 0 <= i < j < r.len() implies rank_key(
        v.sales,
        r[i].product_id,
        unsold_last,
    ) >= rank_key(v.sales, r[j].product_id, unsold_last) by {
        assert(ranking_row_matches(r[i], v.products[p[i] as int], v.sales));
        assert(ranking_row_matches(r[j], v.products[p[j] as int], v.sales));
    }
    if !unsold_last {
        assert forall|i: int, j: int| 0 <= i < j < r.len() implies (#[trigger] r[i]).total_amount
            >= (#[trigger] r[j]).total_amount by {
            assert(ranking_row_matches(r[i], v.products[p[i] as int], v.sales));
            assert(ranking_row_matches(r[j], v.products[p[j] as int], v.sales));
        }
    }
    if unsold_last {
        assert forall|i: int, j: int|
            0 <= i < j < r.len() && (#[trigger] r[j]).sale_count > 0 implies (#[trigger] r[i]).sale_count > 0
            && r[i].total_amount >= r[j].total_amount by {
            assert(ranking_row_matches(r[i], v.products[p[i] as int], v.sales));
            assert(ranking_row_matches(r[j], v.products[p[j] as int], v.sales));
            assert(rank_key(v.sales, r[i].product_id, true) >= rank_key(v.sales, r[j].product_id, true));
        }
    }
    if limit >= v.products.len() {
        assert forall|k: int| 0 <= k < v.products.len() implies lists_book(
            r,
            (#[trigger] v.products[k]).id,
        ) by {
            assert(p.contains(k as usize));
            let i = choose|i: int| 0 <= i < p.len() && p[i] == k as usize;
            assert(r.len() == v.products.len());
            assert(p[i] as int == k);
            assert(ranking_row_matches(r[i], v.products[p[i] as int], v.sales));
            assert(r[i].product_id == v.products[k].id);
        }
    }
}

/// The store's totals are the sums of `quantity * sale_price` and of
/// `quantity` over every sale line.
pub proof fn lemma_store_totals_are_sums(v: StoreView)
    ensures
        store_amount(v) == sum_of(v.sales, |s: Sale| s.quantity * s.sale_price),
        store_quantity(v) == sum_of(v.sales, |s: Sale| s.quantity as int),
{
    assert(crate::store::amount_w() =~= (|s: Sale| s.quantity * s.sale_price));
    assert(crate::store::quantity_w() =~= (|s: Sale| s.quantity as int));
}

/// The sale lines of books linked to category `cid`, in table order.
pub open spec fn lines_of_category(v: StoreView, cid: i64) -> Seq<Sale> {
    v.sales.filter(
        |s: Sale|
            exists|l: int|
                0 <= l < v.product_categories.len() && v.product_categories[l].product_id
                    == s.product_id && v.product_categories[l].category_id == cid,
    )
}

/// A category's sales amount and copies, summed over the lines of its books.
proof fn lemma_category_sums(v: StoreView, cid: i64)
    ensures
        category_amount(v, cid) == sum_of(lines_of_category(v, cid), |s: Sale| s.quantity * s.sale_price),
        category_quantity(v, cid) == sum_of(lines_of_category(v, cid), |s: Sale| s.quantity as int),
{
    let p = |s: Sale|
        exists|l: int|
            0 <= l < v.product_categories.len() && v.product_categories[l].product_id == s.product_id
                && v.product_categories[l].category_id == cid;
    lemma_sum_of_filter(
        v.sales,
        p,
        |s: Sale| s.quantity * s.sale_price,
        category_amount_w(v.product_categories, cid),
    );
    lemma_sum_of_filter(
        v.sales,
        p,
        |s: Sale| s.quantity as int,
        category_quantity_w(v.product_categories, cid),
    );
}

/// `row` shows category `k`: its name, and the sums of `quantity * sale_price`
/// and of `quantity` over the lines of its books.
pub open spec fn shows_category(row: CategorySales, v: StoreView, k: int) -> bool {
    &&& row.category_name == v.categories[k].name
    &&& row.total_amount == sum_of(
        lines_of_category(v, v.categories[k].id),
        |s: Sale| s.quantity * s.sale_price,
    )
    &&& row.product_count == sum_of(
        lines_of_category(v, v.categories[k].id),
        |s: Sale| s.quantity as int,
    )
}

/// `row` shows one of the categories.
pub open spec fn shows_some_category(row: CategorySales, v: StoreView) -> bool {
    exists|k: int| 0 <= k < v.categories.len() && shows_category(row, v, k)
}

/// The dashboard's category table: one row per category, each with the sum
/// of `quantity * sale_price` and of `quantity` over the lines of its books,
/// largest amount first.
pub proof fn lemma_category_rows_are_sums(rows: Seq<CategorySales>, v: StoreView)
    requires
        is_category_sales(rows, v),
    ensures
        rows.len() == v.categories.len(),
        forall|i: int| 0 <= i < rows.len() ==> shows_some_category(#[trigger] rows[i], v),
        forall|i: int, j: int|
            0 <= i < j < rows.len() ==> (#[trigger] rows[i]).total_amount >= (#[trigger] rows[j]).total_amount,
{
    let p = choose|p: Seq<usize>|
        {
            &&& crate::order::is_permutation(p, v.categories.len())
            &&& rows.len() == p.len()
            &&& forall|i: int|
                #![trigger rows[i]]
                0 <= i < rows.len() ==> rows[i].category_name == v.categories[p[i] as int].name
                    && rows[i].total_amount == category_amount(v, v.categories[p[i] as int].id)
                    && rows[i].product_count == category_quantity(v, v.categories[p[i] as int].id)
            &&& forall|i: int, j: int|
                0 <= i < j < p.len() ==> category_amount(v, v.categories[p[i] as int].id)
                    >= category_amount(v, v.categories[p[j] as int].id)
        };
    assert forall|i: int| 0 <= i < rows.len() implies shows_some_category(#[trigger] rows[i], v) by {
        let k = p[i] as int;
        lemma_category_sums(v, v.categories[k].id);
        assert(shows_category(rows[i], v, k));
    }
    assert forall|i: int, j: int| 0 <= i < j < rows.len() implies (#[trigger] rows[i]).total_amount
        >= (#[trigger] rows[j]).total_amount by {}
}

/// The sale lines of customer `cid`'s sales, in table order.
pub open spec fn lines_of_customer(v: StoreView, cid: i64) -> Seq<Sale> {
    v.sales.filter(
        |s: Sale|
            exists|h: int|
                0 <= h < v.headers.len() && v.headers[h].id == s.sale_header_id
                    && v.headers[h].customer_id == cid,
    )
}

/// A customer's purchases summed over the lines of their sales, and their
/// number of sales.
proof fn lemma_customer_sums(v: StoreView, cid: i64)
    requires
        v.well_formed(),
    ensures
        customer_amount(v, cid) == sum_of(lines_of_customer(v, cid), |s: Sale| s.quantity * s.sale_price),
        customer_sale_count(v, cid) == v.headers.filter(|h: SaleHeader| h.customer_id == cid).len(),
{
    let p = |s: Sale|
        exists|h: int|
            0 <= h < v.headers.len() && v.headers[h].id == s.sale_header_id && v.headers[h].customer_id
                == cid;
    assert forall|s: Sale| #[trigger] customer_amount_w(v.headers, cid)(s) == (if p(s) {
        s.quantity * s.sale_price
    } else {
        0
    }) by {
        if p(s) {
            let h = choose|h: int|
                0 <= h < v.headers.len() && v.headers[h].id == s.sale_header_id
                    && v.headers[h].customer_id == cid;
            let c = choose|k: int| 0 <= k < v.headers.len() && v.headers[k].id == s.sale_header_id;
            assert(header_ids(v.headers)[c] == header_ids(v.headers)[h]);
        } else if header_customer(v.headers, s.sale_header_id) == Some(cid) {
            let c = choose|k: int| 0 <= k < v.headers.len() && v.headers[k].id == s.sale_header_id;
            assert(v.headers[c].customer_id == cid);
        }
    }
    lemma_sum_of_filter(
        v.sales,
        p,
        |s: Sale| s.quantity * s.sale_price,
        customer_amount_w(v.headers, cid),
    );
    let q = |h: SaleHeader| h.customer_id == cid;
    lemma_sum_of_filter(v.headers, q, |h: SaleHeader| 1int, customer_sales_w(cid));
    lemma_sum_of_ones(v.headers.filter(q));
}

/// `row` shows customer `k`: their name, the sum of `quantity * sale_price`
/// over the lines of their sales, and their number of sales.
pub open spec fn shows_customer(row: CustomerSales, v: StoreView, k: int) -> bool {
    &&& row.customer_name == v.customers[k].name
    &&& row.total_amount == sum_of(
        lines_of_customer(v, v.customers[k].id),
        |s: Sale| s.quantity * s.sale_price,
    )
    &&& row.sale_count == v.headers.filter(|h: SaleHeader| h.customer_id == v.customers[k].id).len()
}

/// `row` shows one of the customers.
pub open spec fn shows_some_customer(row: CustomerSales, v: StoreView) -> bool {
    exists|k: int| 0 <= k < v.customers.len() && shows_customer(row, v, k)
}

/// The dashboard's customer table: one row per customer, each with the sum of
/// `quantity * sale_price` over the lines of their sales and their number of
/// sales, largest amount first.
pub proof fn lemma_customer_rows_are_sums(rows: Seq<CustomerSales>, v: StoreView)
    requires
        v.well_formed(),
        is_customer_sales(rows, v),
    ensures
        rows.len() == v.customers.len(),
        forall|i: int| 0 <= i < rows.len() ==> shows_some_customer(#[trigger] rows[i], v),
        forall|i: int, j: int|
            0 <= i < j < rows.len() ==> (#[trigger] rows[i]).total_amount >= (#[trigger] rows[j]).total_amount,
{
    let p = choose|p: Seq<usize>|
        {
            &&& crate::order::is_permutation(p, v.customers.len())
            &&& rows.len() == p.len()
            &&& forall|i: int|
                #![trigger rows[i]]
                0 <= i < rows.len() ==> rows[i].customer_name == v.customers[p[i] as int].name
                    && rows[i].total_amount == customer_amount(v, v.customers[p[i] as int].id)
                    && rows[i].sale_count == customer_sale_count(v, v.customers[p[i] as int].id)
            &&& forall|i: int, j: int|
                0 <= i < j < p.len() ==> customer_amount(v, v.customers[p[i] as int].id)
                    >= customer_amount(v, v.customers[p[j] as int].id)
        };
    assert forall|i: int| 0 <= i < rows.len() implies shows_some_customer(#[trigger] rows[i], v) by {
        let k = p[i] as int;
        lemma_customer_sums(v, v.customers[k].id);
        assert(shows_customer(rows[i], v, k));
    }
    assert forall|i: int, j: int| 0 <= i < j < rows.len() implies (#[trigger] rows[i]).total_amount
        >= (#[trigger] rows[j]).total_amount by {}
}

/// A category summary's amounts: each listed book's amount is the sum of
/// `quantity * sale_price` over its lines, the books come largest amount
/// first, and the total is the sum of those amounts over the category's books.
pub proof fn lemma_summary_amounts_are_sums(x: CategorySummary, c: crate::models::Category, v: StoreView)
    requires
        summary_matches(x, c, v),
    ensures
        x.category_id == c.id,
        x.category_name == c.name,
        forall|j: int|
            0 <= j < x.products@.len() ==> (#[trigger] x.products@[j]).total_amount == sum_of(
                lines_of_book(v, x.products@[j].product_id),
                |s: Sale| s.quantity * s.sale_price,
            ),
        forall|i: int, j: int|
            0 <= i < j < x.products@.len() ==> (#[trigger] x.products@[i]).total_amount
                >= (#[trigger] x.products@[j]).total_amount,
        x.total_amount == sum_of(
            v.products.filter(
                |p: Product|
                    exists|l: int|
                        0 <= l < v.product_categories.len() && v.product_categories[l].product_id
                            == p.id && v.product_categories[l].category_id == c.id,
            ),
            |p: Product| sum_of(lines_of_book(v, p.id), |s: Sale| s.quantity * s.sale_price),
        ),
{
    let cp = category_products(v, c.id);
    let q = choose|q: Seq<usize>|
        {
            &&& crate::order::is_permutation(q, cp.len())
            &&& x.products@.len() == q.len()
            &&& forall|i: int|
                #![trigger x.products@[i]]
                0 <= i < q.len() ==> x.products@[i].product_id == cp[q[i] as int].id
                    && x.products@[i].product_name == cp[q[i] as int].name
                    && x.products@[i].total_amount == product_amount(v.sales, cp[q[i] as int].id)
            &&& forall|i: int, j: int|
                0 <= i < j < q.len() ==> product_amount(v.sales, cp[q[i] as int].id)
                    >= product_amount(v.sales, cp[q[j] as int].id)
        };
    assert forall|j: int| 0 <= j < x.products@.len() implies (#[trigger] x.products@[j]).total_amount
        == sum_of(lines_of_book(v, x.products@[j].product_id), |s: Sale| s.quantity * s.sale_price) by {
        lemma_book_sums(v, x.products@[j].product_id);
    }
    let book_total = |p: Product| sum_of(lines_of_book(v, p.id), |s: Sale| s.quantity * s.sale_price);
    assert forall|p: Product| #[trigger] crate::reports::book_amount_w(v.sales)(p) == book_total(p) by {
        lemma_book_sums(v, p.id);
    }
    assert(crate::reports::book_amount_w(v.sales) =~= book_total);
    assert(in_category_pred(v.product_categories, c.id) =~= (|p: Product|
        exists|l: int|
            0 <= l < v.product_categories.len() && v.product_categories[l].product_id == p.id
                && v.product_categories[l].category_id == c.id));
}

/// Filtering twice keeps what passes both tests.
pub proof fn lemma_filter_filter<A>(s: Seq<A>, p: spec_fn(A) -> bool, q: spec_fn(A) -> bool, r: spec_fn(A) -> bool)
    requires
        forall|x: A| #[trigger] r(x) == (p(x) && q(x)),
    ensures
        s.filter(p).filter(q) == s.filter(r),
    decreases s.len(),
{
    reveal(Seq::filter);
    if s.len() > 0 {
        lemma_filter_filter(s.drop_last(), p, q, r);
        if p(s.last()) {
            assert(s.filter(p) == s.drop_last().filter(p).push(s.last()));
            assert(s.filter(p).drop_last() =~= s.drop_last().filter(p));
        }
    }
}

/// Recording a sale: the new header carries the form's customer and date and
/// follows the old headers; the new lines follow the old lines and belong to
/// the new sale; categories, links and customers are untouched.
pub proof fn lemma_recorded_rows(v: StoreView, f: SaleCreateForm)
    requires
        create_error(v, f) is None,
    ensures
        created(v, f).headers.len() == v.headers.len() + 1,
        created(v, f).headers.take(v.headers.len() as int) == v.headers,
        created(v, f).headers.last().id == new_header_id(v),
        created(v, f).headers.last().customer_id == f.customer_id,
        created(v, f).headers.last().sale_date == f.sale_date,
        created(v, f).sales.take(v.sales.len() as int) == v.sales,
        created(v, f).sales.len() == v.sales.len() + new_sales(v, f).len(),
        forall|j: int|
            v.sales.len() <= j < created(v, f).sales.len() ==> (#[trigger] created(v, f).sales[j]).sale_header_id
                == new_header_id(v),
        created(v, f).categories == v.categories,
        created(v, f).product_categories == v.product_categories,
        created(v, f).customers == v.customers,
{
    lemma_max_id(header_ids(v.headers));
    lemma_max_id(sale_ids(v.sales));
    assert(new_header_id(v) <= i64::MAX);
    let c = created(v, f);
    assert(c.headers.take(v.headers.len() as int) =~= v.headers);
    assert(c.sales.take(v.sales.len() as int) =~= v.sales);
    assert forall|j: int| v.sales.len() <= j < c.sales.len() implies (#[trigger] c.sales[j]).sale_header_id
        == new_header_id(v) by {
        assert(c.sales[j] == new_sales(v, f)[j - v.sales.len()]);
    }
}

/// Deleting sale `id`: every other header and line stays, in order; the
/// sale's header and lines are gone; each book's stock grows by the copies of
/// the sale's lines of that book, and nothing else about the books changes.
pub proof fn lemma_deletion_rows(v: StoreView, id: i64)
    requires
        returns_fit(v.products, lines_of(v.sales, id)),
    ensures
        deleted(v, id).headers == v.headers.filter(|h: SaleHeader| h.id != id),
        deleted(v, id).sales == v.sales.filter(|s: Sale| s.sale_header_id != id),
        deleted(v, id).categories == v.categories,
        deleted(v, id).product_categories == v.product_categories,
        deleted(v, id).customers == v.customers,
        deleted(v, id).products.len() == v.products.len(),
        forall|k: int|
            0 <= k < v.products.len() ==> {
                let p = v.products[k];
                let q = #[trigger] deleted(v, id).products[k];
                &&& q.stock == p.stock + sum_of(
                    v.sales.filter(|s: Sale| s.sale_header_id == id && s.product_id == p.id),
                    |s: Sale| s.quantity as int,
                )
                &&& q.id == p.id
                &&& q.name == p.name
                &&& q.description == p.description
                &&& q.price == p.price
                &&& q.published_date == p.published_date
            },
{
    let lines = lines_of(v.sales, id);
    assert(crate::transactions::other_header_pred(id) =~= (|h: SaleHeader| h.id != id));
    assert(crate::transactions::other_line_pred(id) =~= (|s: Sale| s.sale_header_id != id));
    crate::laws::lemma_returned_stock_adds(v.products, lines);
    assert forall|k: int| 0 <= k < v.products.len() implies {
        let p = v.products[k];
        let q = #[trigger] deleted(v, id).products[k];
        &&& q.stock == p.stock + sum_of(
            v.sales.filter(|s: Sale| s.sale_header_id == id && s.product_id == p.id),
            |s: Sale| s.quantity as int,
        )
        &&& q.id == p.id
        &&& q.name == p.name
        &&& q.description == p.description
        &&& q.price == p.price
        &&& q.published_date == p.published_date
    } by {
        let pid = v.products[k].id;
        let bp = |s: Sale| s.product_id == pid;
        lemma_sum_of_filter(lines, bp, |s: Sale| s.quantity as int, product_quantity_w(pid));
        lemma_filter_filter(
            v.sales,
            header_pred(id),
            bp,
            |s: Sale| s.sale_header_id == id && s.product_id == pid,
        );
        lemma_returned_fields(v.products, lines, k);
    }
}

/// Putting copies back changes only the stocks.
proof fn lemma_returned_fields(products: Seq<Product>, lines: Seq<Sale>, k: int)
    requires
        0 <= k < products.len(),
    ensures
        crate::transactions::returned_stock(products, lines)[k].name == products[k].name,
        crate::transactions::returned_stock(products, lines)[k].description == products[k].description,
        crate::transactions::returned_stock(products, lines)[k].price == products[k].price,
        crate::transactions::returned_stock(products, lines)[k].published_date
            == products[k].published_date,
    decreases lines.len(),
{
    crate::transactions::lemma_returned_stock_ids(products, lines);
    if lines.len() > 0 {
        lemma_returned_fields(products, lines.drop_last(), k);
        crate::transactions::lemma_returned_stock_ids(products, lines.drop_last());
    }
}

} // verus!
