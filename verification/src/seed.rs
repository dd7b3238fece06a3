//! The sample sales that a new, empty store is filled with.
use vstd::prelude::*;

verus! {

/// One line of a sample sale.
#[derive(Debug, Clone, Copy, PartialEq, Eq)]
pub struct SampleLine {
    pub product_id: i64,
    pub quantity: i32,
    pub sale_price: i32,
}

/// A sample sale: who bought, when, and what.
#[derive(Debug, PartialEq, Eq)]
pub struct SampleSale {
    pub customer_id: i64,
    pub sale_date: String,
    pub lines: Vec<SampleLine>,
}

/// Number of sample sales.
pub open spec fn sample_count() -> nat {
    7
}

/// Which customer (by position) makes sample sale `i`.
pub open spec fn sample_customer(i: int) -> int {
    if i == 0 || i == 5 {
        0
    } else if i == 1 || i == 6 {
        1
    } else if i == 2 {
        2
    } else if i == 3 {
        3
    } else {
        4
    }
}

/// The date of sample sale `i`.
pub open spec fn sample_date(i: int) -> Seq<char> {
    if i == 0 {
        "2024-03-15"@
    } else if i == 1 {
        "2024-03-20"@
    } else if i == 2 {
        "2024-04-01"@
    } else if i == 3 {
        "2024-04-10"@
    } else if i == 4 {
        "2024-04-15"@
    } else if i == 5 {
        "2024-04-20"@
    } else {
        "2024-04-25"@
    }
}

/// The lines of sample sale `i`: (book position, quantity, unit price).
pub open spec fn sample_picks(i: int) -> Seq<(int, int, int)> {
    if i == 0 {
        seq![(0, 2, 3000), (1, 1, 3500)]
    } else if i == 1 {
        seq![(2, 3, 2800)]
    } else if i == 2 {
        seq![(3, 2, 3200), (4, 1, 2500), (5, 1, 2700)]
    } else if i == 3 {
        seq![(6, 3, 3800), (7, 2, 2900)]
    } else if i == 4 {
        seq![(8, 1, 3300), (9, 1, 4200)]
    } else if i == 5 {
        seq![(0, 1, 3000)]
    } else {
        seq![(1, 2, 3500), (2, 2, 2800), (6, 1, 3800)]
    }
}

/// `s` is sample sale `i`, with customers and books taken by position from
/// `customers` and `products`.
pub open spec fn sample_matches(s: SampleSale, i: int, customers: Seq<i64>, products: Seq<i64>) -> bool {
    let picks = sample_picks(i);
    &&& s.customer_id == customers[sample_customer(i)]
    &&& s.sale_date@ == sample_date(i)
    &&& s.lines@.len() == picks.len()
    &&& forall|k: int|
        0 <= k < picks.len() ==> #[trigger] s.lines@[k] == (SampleLine {
            product_id: products[picks[k].0],
            quantity: picks[k].1 as i32,
            sale_price: picks[k].2 as i32,
        })
}

/// A sample sale from positions into `products`.
fn sample_sale(
    customer_id: i64,
    date: &str,
    picks: Vec<(usize, i32, i32)>,
    products: &Vec<i64>,
) -> (r: SampleSale)
    requires
        forall|k: int| 0 <= k < picks@.len() ==> #[trigger] picks@[k].0 < products@.len(),
    ensures
        r.customer_id == customer_id,
        r.sale_date@ == date@,
        r.lines@.len() == picks@.len(),
        forall|k: int|
            0 <= k < picks@.len() ==> #[trigger] r.lines@[k] == (SampleLine {
                product_id: products@[picks@[k].0 as int],
                quantity: picks@[k].1,
                sale_price: picks@[k].2,
            }),
{
    let mut lines: Vec<SampleLine> = Vec::new();
    for k in 0..picks.len()
        invariant
            forall|a: int| 0 <= a < picks@.len() ==> #[trigger] picks@[a].0 < products@.len(),
            lines@.len() == k,
            forall|a: int|
                0 <= a < k ==> #[trigger] lines@[a] == (SampleLine {
                    product_id: products@[picks@[a].0 as int],
                    quantity: picks@[a].1,
                    sale_price: picks@[a].2,
                }),
    {
        let (p, q, price) = picks[k];
        lines.push(SampleLine { product_id: products[p], quantity: q, sale_price: price });
    }
    SampleSale { customer_id, sale_date: date.to_owned(), lines }
}

/// The seven sample sales, made from the first five customers and the first
/// ten books (by position); `None` when there are fewer of either.
pub fn sample_sales(customers: &Vec<i64>, products: &Vec<i64>) -> (r: Option<Vec<SampleSale>>)
    ensures
        r is Some == (customers@.len() >= 5 && products@.len() >= 10),
        r matches Some(v) ==> v@.len() == sample_count() && forall|i: int|
            0 <= i < v@.len() ==> sample_matches(#[trigger] v@[i], i, customers@, products@),
{
    if customers.len() < 5 || products.len() < 10 {
        return None;
    }
    let mut v: Vec<SampleSale> = Vec::new();
    v.push(sample_sale(customers[0], "2024-03-15", vec![(0, 2, 3000), (1, 1, 3500)], products));
    v.push(sample_sale(customers[1], "2024-03-20", vec![(2, 3, 2800)], products));
    v.push(
        sample_sale(
            customers[2],
            "2024-04-01",
            vec![(3, 2, 3200), (4, 1, 2500), (5, 1, 2700)],
            products,
        ),
    );
    v.push(sample_sale(customers[3], "2024-04-10", vec![(6, 3, 3800), (7, 2, 2900)], products));
    v.push(sample_sale(customers[4], "2024-04-15", vec![(8, 1, 3300), (9, 1, 4200)], products));
    v.push(sample_sale(customers[0], "2024-04-20", vec![(0, 1, 3000)], products));
    v.push(
        sample_sale(
            customers[1],
            "2024-04-25",
            vec![(1, 2, 3500), (2, 2, 2800), (6, 1, 3800)],
            products,
        ),
    );
    proof {
        assert forall|i: int| 0 <= i < v@.len() implies sample_matches(
            #[trigger] v@[i],
            i,
            customers@,
            products@,
        ) by {
            let picks = sample_picks(i);
            assert forall|k: int| 0 <= k < picks.len() implies #[trigger] v@[i].lines@[k]
                == SampleLine {
                product_id: products@[picks[k].0],
                quantity: picks[k].1 as i32,
                sale_price: picks[k].2 as i32,
            } by {}
        }
    }
    Some(v)
}

} // verus!
