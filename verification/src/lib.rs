use vstd::prelude::*;

pub mod guarantees;
pub mod laws;
pub mod models;
pub mod order;
pub mod reports;
pub mod sales;
pub mod seed;
pub mod store;
pub mod templates;
pub mod transactions;

verus! {
} // verus!
