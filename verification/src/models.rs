//! The bookstore's records: the rows of its tables and the rows of its reports.
use vstd::prelude::*;

verus! {

/// A book category (`categories` table).
#[derive(Debug, PartialEq, Eq)]
pub struct Category {
    pub id: i64,
    pub name: String,
}

/// A book (`products` table). `price` may be unset.
#[derive(Debug, PartialEq, Eq)]
pub struct Product {
    pub id: i64,
    pub name: String,
    pub description: Option<String>,
    pub price: Option<i32>,
    pub stock: i32,
    pub published_date: Option<String>,
}

/// A link between a book and one of its categories (`product_categories` table).
#[derive(Debug, Clone, Copy, PartialEq, Eq)]
pub struct ProductCategory {
    pub product_id: i64,
    pub category_id: i64,
}

/// A book together with the names of its categories.
#[derive(Debug, PartialEq, Eq)]
pub struct ProductWithCategories {
    pub id: i64,
    pub name: String,
    pub description: Option<String>,
    pub price: Option<i32>,
    pub stock: i32,
    pub published_date: Option<String>,
    pub categories: Vec<String>,
}

/// A customer (`customers` table).
#[derive(Debug, PartialEq, Eq)]
pub struct Customer {
    pub id: i64,
    pub name: String,
    pub email: Option<String>,
    pub member_number: Option<String>,
}

/// The header of one sale: who bought, and when (`sale_headers` table).
#[derive(Debug, PartialEq, Eq)]
pub struct SaleHeader {
    pub id: i64,
    pub customer_id: i64,
    pub sale_date: String,
}

/// One line of a sale: a book, how many, and the unit price paid (`sales` table).
#[derive(Debug, Clone, Copy, PartialEq, Eq)]
pub struct Sale {
    pub id: i64,
    pub sale_header_id: i64,
    pub product_id: i64,
    pub quantity: i32,
    pub sale_price: i32,
}

/// A sale with its customer's name, its lines and its total.
#[derive(Debug, PartialEq, Eq)]
pub struct SaleDetail {
    pub id: i64,
    pub customer_id: i64,
    pub customer_name: String,
    pub sale_date: String,
    pub items: Vec<SaleItem>,
    pub total_amount: i32,
}

/// One line of a sale as shown: the book's name and the line's subtotal.
#[derive(Debug, PartialEq, Eq)]
pub struct SaleItem {
    pub product_id: i64,
    pub product_name: String,
    pub quantity: i32,
    pub sale_price: i32,
    pub subtotal: i32,
}

/// A book's place in the sales ranking.
#[derive(Debug, PartialEq, Eq)]
pub struct SalesRanking {
    pub rank: i32,
    pub product_id: i64,
    pub product_name: String,
    pub total_amount: i64,
    pub total_quantity: i64,
    pub sale_count: i64,
}

/// Sales of one category, with the sales of each of its books.
#[derive(Debug, PartialEq, Eq)]
pub struct CategorySummary {
    pub category_id: i64,
    pub category_name: String,
    pub total_amount: i64,
    pub product_count: i64,
    pub products: Vec<CategoryProduct>,
}

/// Sales of one book within a category summary.
#[derive(Debug, PartialEq, Eq)]
pub struct CategoryProduct {
    pub product_id: i64,
    pub product_name: String,
    pub total_amount: i64,
}

/// Sales of one category on the dashboard.
#[derive(Debug, PartialEq, Eq)]
pub struct CategorySales {
    pub category_name: String,
    pub total_amount: i64,
    pub product_count: i64,
}

/// Purchases of one customer on the dashboard.
#[derive(Debug, PartialEq, Eq)]
pub struct CustomerSales {
    pub customer_name: String,
    pub total_amount: i64,
    pub sale_count: i64,
}

/// The form that records a new sale: a date, a customer and up to three
/// (book, quantity) slots; a slot with a book id or quantity of zero or less
/// is left unused.
#[derive(Debug, PartialEq, Eq)]
pub struct SaleCreateForm {
    pub sale_date: String,
    pub customer_id: i64,
    pub product_id_1: i64,
    pub quantity_1: i32,
    pub product_id_2: i64,
    pub quantity_2: i32,
    pub product_id_3: i64,
    pub quantity_3: i32,
}

/// A copy of an optional text.
pub fn copy_opt_text(t: &Option<String>) -> (r: Option<String>)
    ensures
        r == *t,
{
    match t {
        Some(s) => Some(s.clone()),
        None => None,
    }
}

impl Clone for Category {
    fn clone(&self) -> (r: Self)
        ensures
            r == *self,
    {
        Category { id: self.id, name: self.name.clone() }
    }
}

impl Clone for Product {
    fn clone(&self) -> (r: Self)
        ensures
            r == *self,
    {
        Product {
            id: self.id,
            name: self.name.clone(),
            description: copy_opt_text(&self.description),
            price: self.price,
            stock: self.stock,
            published_date: copy_opt_text(&self.published_date),
        }
    }
}

impl Clone for Customer {
    fn clone(&self) -> (r: Self)
        ensures
            r == *self,
    {
        Customer {
            id: self.id,
            name: self.name.clone(),
            email: copy_opt_text(&self.email),
            member_number: copy_opt_text(&self.member_number),
        }
    }
}

impl Clone for SaleHeader {
    fn clone(&self) -> (r: Self)
        ensures
            r == *self,
    {
        SaleHeader {
            id: self.id,
            customer_id: self.customer_id,
            sale_date: self.sale_date.clone(),
        }
    }
}

} // verus!
