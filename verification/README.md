# strecklistan

The verified core of Strecklistan's inventory backend and card-payment
component.

- `src/` is the library. Each module states its behaviour in contracts and
  proves laws about it:
  - `izettle` — the payment component as a state machine with the messages
    it reacts to and the commands it issues;
  - `events` — which events a range around "now" loads and how they are put
    in order;
  - `bundles` — grouping joined bundle rows into bundles, and the rows that
    store a bundle;
  - `csv_import` — checking an inventory CSV upload and planning the stock
    transactions it books;
  - `inventory`, `models`, `csv_response` — item removal, stored records and
    the CSV download.
- `app/` drives the library: it performs the database, HTTP and payment
  service work behind small traits, holds the serde and rocket glue, and
  the floating-point price conversions.
- `tests/` runs the library on concrete values.
