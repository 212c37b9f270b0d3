# dirhamly

A small personal-finance ledger: incomes and expenses in Moroccan dirhams,
kept in a SQLite file, listed as a table and exported as CSV or as the
data of a PDF report (the PDF template itself is not part of this
project).

`src/` is the verified library (Verus):

- `amount` — decimal amounts (mantissa and scale); sums, differences,
  comparison, printing and parsing go through `rust_decimal`.
- `date` — calendar dates and their `YYYY-MM-DD` text, through `chrono`.
- `kinds` — transaction types, export formats, removal arguments.
- `models` — the transaction.
- `report` — the report: totals, balance, rows, and the expenses by
  category from the largest to the smallest.
- `laws` — what every report satisfies where no sum needs rounding.
- `invariance` — what a report does not depend on: transactions without an
  id, and the order of the transactions.
- `csv_read` — the CSV file read back as RFC 4180 describes it gives each
  row's fields.
- `store` — the columns stored for a transaction, the transaction read back
  from them, and the query that selects transactions.
- `format` — the listing table, the CSV file and the export summary.
- `text` — digits, padding and small string helpers.

`app/` is the command-line program: argument parsing (`clap`), the SQLite
store (`rusqlite`), printing and file output.
