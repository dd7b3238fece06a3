# bookstore_rust

A small bookstore back office (books, categories, customers, sales) whose
logic is a Verus-verified library, with a thin actix-web + SQLite program
around it.

## Layout

- `src/` — the verified library.
  - `store.rs`: the database as plain values (`Snapshot`, one vector per
    table and the two AUTOINCREMENT counters of sales and sale lines), its
    view (`StoreView`), the schema's constraints
    (`well_formed`) and the sums the reports are built from.
  - `order.rs`: stable orderings of row indices by amount (largest first)
    and by text (byte order, ascending or descending).
  - `sales.rs`: a sale as shown to the user (`sale_detail`, `sale_list`).
  - `reports.rs`: the ranking of books, sales per category and per
    customer, the store's totals and the category summary.
  - `templates.rs`: what each page shows.
  - `transactions.rs`: recording and deleting a sale — the new tables and
    the rows to write.
  - `seed.rs`: the sample sales a new database is filled with.
  - `laws.rs`: properties across operations (deleting a recorded sale
    restores the tables, both operations keep the store well formed and keep
    stock plus copies sold per book, a recorded sale reads back as written,
    totals add up over books and customers, the pages that show the same
    data agree, the dashboard's ranking is the start of the full ranking).
- `tests/` — tests of the library on concrete stores.
- `app/` — the web program: routes, SQLite access, HTML rendering and JSON.
  Each request reads the tables into a `Snapshot`, checks the schema's
  constraints, asks the library, and writes back what it decided.
