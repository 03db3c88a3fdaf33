# finance-tracker-api

A tracker for bank and credit-card transactions, written in Rust and verified
with Verus.

- `src/` is the library. Its executable functions carry contracts that Verus
  proves: reading the columns of bank exports, fingerprints and duplicates,
  seeding and applying merchant rules, and the state and the texts of the
  terminal interface. `laws.rs` and `tui_laws.rs` hold what is proved across
  calls.
- `app/` is the program around it: the command line, the SQLite file, the CSV
  files and the drawing.
- `tests/` runs the library on concrete values.

The functions that stand for code outside the library, and whose contracts are
taken on trust, are in `text.rs`, `date.rs`, `digest.rs` and `csv_import.rs`;
each says what it claims.

## Usage

```
finance-tracker-api import --source wells <file.csv>
finance-tracker-api import --source amex  <file.csv>
finance-tracker-api seed-monarch <monarch_export.csv>
finance-tracker-api categorize
finance-tracker-api categorize-txn <id> "<category>"
finance-tracker-api rule add "<pattern>" "<category>"
finance-tracker-api tui [database]
```
