//! The text that the ledger shows and exports: the table of transactions,
//! the CSV file of a report and the summary printed after an export.

use vstd::prelude::*;
use crate::amount::{amount_text_2dp, amount_text_signed_2dp, decimal_display};
use crate::date::date_to_string;
use crate::kinds::tx_type_text;
use crate::models::Transaction;
use crate::report::{Report, ReportTransaction};
use crate::text::{i64_text, int_text, push_char, repeat_char, string_of, u64_text};

verus! {

/// `s` followed by spaces up to `width` characters (`{:<width}`).
pub open spec fn pad_right(s: Seq<char>, width: nat) -> Seq<char> {
    if s.len() >= width {
        s
    } else {
        s + repeat_char(' ', (width - s.len()) as nat)
    }
}

/// `s` preceded by spaces up to `width` characters (`{:>width}`).
pub open spec fn pad_left(s: Seq<char>, width: nat) -> Seq<char> {
    if s.len() >= width {
        s
    } else {
        repeat_char(' ', (width - s.len()) as nat) + s
    }
}

/// The first `n` characters of `s` (all of them when it is shorter).
pub open spec fn truncate(s: Seq<char>, n: nat) -> Seq<char> {
    if s.len() <= n {
        s
    } else {
        s.take(n as int)
    }
}

/// Width of the id column.
pub const ID_W: usize = 6;
/// Width of the date column.
pub const DATE_W: usize = 12;
/// Width of the type column.
pub const TYPE_W: usize = 10;
/// Width of the amount column.
pub const AMOUNT_W: usize = 14;
/// Width of the category column.
pub const CAT_W: usize = 16;
/// Width of the description column.
pub const DESC_W: usize = 40;

/// The gap between two columns.
pub open spec fn gap() -> Seq<char> {
    "  "@
}

/// The header line of the table.
pub open spec fn table_header() -> Seq<char> {
    pad_right("ID"@, 6) + gap() + pad_right("Date"@, 12) + gap() + pad_right("Type"@, 10) + gap() + pad_left(
        "Amount (MAD)"@,
        14,
    ) + gap() + pad_right("Category"@, 16) + gap() + pad_right("Description"@, 40)
}

/// The line under the header: the box-drawing character `─` as wide as the
/// columns and their separators (109 characters).
pub open spec fn table_rule() -> Seq<char> {
    repeat_char('\u{2500}', 109)
}

/// The text of an id, `-` where there is none.
pub open spec fn id_text(id: Option<i64>) -> Seq<char> {
    match id {
        Some(i) => int_text(i as int),
        None => "-"@,
    }
}

/// The line of the table for one transaction: each cell padded to the
/// width of its column, so that every column starts under its header.
pub open spec fn table_row(t: Transaction) -> Seq<char> {
    pad_right(id_text(t.id), 6) + gap() + pad_right(t.date.text(), 12) + gap() + pad_right(tx_type_text(t.tx_type), 10) + gap()
        + pad_left(decimal_display(t.amount.m(), t.amount.s(), Some(2), true), 14) + gap() + pad_right(
        t.category@,
        16,
    ) + gap() + pad_right(truncate(t.description@, 40), 40)
}

/// The lines that show a list of transactions.
pub open spec fn table_lines(txs: Seq<Transaction>) -> Seq<Seq<char>> {
    if txs.len() == 0 {
        seq!["No transactions found."@]
    } else {
        seq![table_header(), table_rule()] + txs.map_values(|t: Transaction| table_row(t))
    }
}

/// The texts of a list of strings.
pub open spec fn line_texts(v: Seq<String>) -> Seq<Seq<char>> {
    v.map_values(|s: String| s@)
}

/// Appends spaces to `s` until it is `width` characters long.
fn pad_right_in_place(s: &mut String, width: usize)
    ensures
        final(s)@ == pad_right(old(s)@, width as nat),
{
    let n = s.as_str().unicode_len();
    if n < width {
        let mut k: usize = n;
        while k < width
            invariant
                n <= k <= width,
                n == old(s)@.len(),
                s@ == old(s)@ + repeat_char(' ', (k - n) as nat),
            decreases width - k,
        {
            push_char(s, ' ');
            assert(old(s)@ + repeat_char(' ', (k + 1 - n) as nat) =~= (old(s)@ + repeat_char(' ', (k - n) as nat)).push(' '));
            k = k + 1;
        }
    }
}

/// Appends `t` padded on the right to `width` characters.
fn append_padded_right(line: &mut String, t: &str, width: usize)
    ensures
        final(line)@ == old(line)@ + pad_right(t@, width as nat),
{
    let mut cell = string_of(t);
    pad_right_in_place(&mut cell, width);
    line.append(cell.as_str());
}

/// Appends `t` padded on the left to `width` characters.
fn append_padded_left(line: &mut String, t: &str, width: usize)
    ensures
        final(line)@ == old(line)@ + pad_left(t@, width as nat),
{
    let n = t.unicode_len();
    let mut cell = String::new();
    if n < width {
        let mut k: usize = n;
        while k < width
            invariant
                n <= k <= width,
                cell@ == repeat_char(' ', (k - n) as nat),
            decreases width - k,
        {
            push_char(&mut cell, ' ');
            assert(repeat_char(' ', (k + 1 - n) as nat) =~= repeat_char(' ', (k - n) as nat).push(' '));
            k = k + 1;
        }
    }
    cell.append(t);
    line.append(cell.as_str());
}

/// The first `n` characters of `t`.
fn truncated(t: &str, n: usize) -> (r: String)
    ensures
        r@ == truncate(t@, n as nat),
{
    let len = t.unicode_len();
    let stop = if len <= n {
        len
    } else {
        n
    };
    let mut r = String::new();
    let mut i: usize = 0;
    while i < stop
        invariant
            len == t@.len(),
            stop <= len,
            i <= stop,
            r@ == t@.take(i as int),
        decreases stop - i,
    {
        push_char(&mut r, t.get_char(i));
        assert(t@.take(i + 1) =~= t@.take(i as int).push(t@[i as int]));
        i = i + 1;
    }
    assert(len <= n ==> t@.take(len as int) =~= t@);
    r
}

/// The header line of the table.
fn header_line() -> (r: String)
    ensures
        r@ == table_header(),
{
    let mut line = String::new();
    append_padded_right(&mut line, "ID", ID_W);
    line.append("  ");
    append_padded_right(&mut line, "Date", DATE_W);
    line.append("  ");
    append_padded_right(&mut line, "Type", TYPE_W);
    line.append("  ");
    append_padded_left(&mut line, "Amount (MAD)", AMOUNT_W);
    line.append("  ");
    append_padded_right(&mut line, "Category", CAT_W);
    line.append("  ");
    append_padded_right(&mut line, "Description", DESC_W);
    assert(line@ =~= table_header());
    line
}

/// The rule under the header.
fn rule_line() -> (r: String)
    ensures
        r@ == table_rule(),
{
    let total_width: usize = ID_W + DATE_W + TYPE_W + AMOUNT_W + CAT_W + DESC_W + 11;
    let mut line = String::new();
    let mut k: usize = 0;
    while k < total_width
        invariant
            total_width == 109,
            k <= total_width,
            line@ == repeat_char('\u{2500}', k as nat),
        decreases total_width - k,
    {
        push_char(&mut line, '\u{2500}');
        assert(repeat_char('\u{2500}', (k + 1) as nat) =~= repeat_char('\u{2500}', k as nat).push('\u{2500}'));
        k = k + 1;
    }
    line
}

/// The line of the table for one transaction.
fn row_line(t: &Transaction) -> (r: String)
    ensures
        r@ == table_row(*t),
{
    let id = match t.id {
        Some(i) => i64_text(i),
        None => string_of("-"),
    };
    let date = date_to_string(&t.date);
    let kind = t.tx_type.to_string();
    let amount = amount_text_signed_2dp(&t.amount);
    let description = truncated(t.description.as_str(), DESC_W);
    let mut line = String::new();
    append_padded_right(&mut line, id.as_str(), ID_W);
    line.append("  ");
    append_padded_right(&mut line, date.as_str(), DATE_W);
    line.append("  ");
    append_padded_right(&mut line, kind.as_str(), TYPE_W);
    line.append("  ");
    append_padded_left(&mut line, amount.as_str(), AMOUNT_W);
    line.append("  ");
    append_padded_right(&mut line, t.category.as_str(), CAT_W);
    line.append("  ");
    append_padded_right(&mut line, description.as_str(), DESC_W);
    assert(line@ =~= table_row(*t));
    line
}

/// The lines that show a list of transactions: a notice where there are
/// none, otherwise a header, a rule and one line per transaction.
pub fn format_list(transactions: &[Transaction]) -> (r: Vec<String>)
    ensures
        line_texts(r@) == table_lines(transactions@),
{
    let mut lines: Vec<String> = Vec::new();
    if transactions.len() == 0 {
        lines.push(string_of("No transactions found."));
        assert(line_texts(lines@) =~= table_lines(transactions@));
        return lines;
    }
    lines.push(header_line());
    lines.push(rule_line());
    let n = transactions.len();
    let mut i: usize = 0;
    while i < n
        invariant
            n == transactions@.len(),
            n > 0,
            i <= n,
            line_texts(lines@) == seq![table_header(), table_rule()] + transactions@.take(i as int).map_values(
                |t: Transaction| table_row(t),
            ),
        decreases n - i,
    {
        let line = row_line(&transactions[i]);
        let ghost old_lines = lines@;
        lines.push(line);
        assert(line_texts(lines@) =~= line_texts(old_lines).push(table_row(transactions@[i as int])));
        assert(transactions@.take(i + 1) =~= transactions@.take(i as int).push(transactions@[i as int]));
        assert(transactions@.take(i + 1).map_values(|t: Transaction| table_row(t)) =~= transactions@.take(
            i as int,
        ).map_values(|t: Transaction| table_row(t)).push(table_row(transactions@[i as int])));
        assert(line_texts(lines@) =~= seq![table_header(), table_rule()] + transactions@.take(i + 1).map_values(
            |t: Transaction| table_row(t),
        ));
        i = i + 1;
    }
    assert(transactions@.take(n as int) =~= transactions@);
    lines
}

/// `s` with each `"` doubled (`str::replace('"', "\"\"")`).
pub open spec fn csv_escape(s: Seq<char>) -> Seq<char>
    decreases s.len(),
{
    if s.len() == 0 {
        Seq::empty()
    } else if s.last() == '"' {
        csv_escape(s.drop_last()) + seq!['"', '"']
    } else {
        csv_escape(s.drop_last()).push(s.last())
    }
}

/// `s` between double quotes.
pub open spec fn quoted(s: Seq<char>) -> Seq<char> {
    seq!['"'] + s + seq!['"']
}

/// The header line of the CSV file.
pub open spec fn csv_header() -> Seq<char> {
    "ID,Type,Category,Amount_MAD,Date,Description"@
}

/// The CSV line of a report row: the id, the type, the category (escaped),
/// the amount with two decimals, the date and the description (escaped); all
/// but the id and the amount between quotes.
pub open spec fn csv_row(r: ReportTransaction) -> Seq<char> {
    int_text(r.id as int) + ","@ + quoted(r.tx_type@) + ","@ + quoted(csv_escape(r.category@)) + ","@
        + decimal_display(r.amount.m(), r.amount.s(), Some(2), false) + ","@ + quoted(r.date@) + ","@
        + quoted(csv_escape(r.description@))
}

/// The CSV file of report rows: the header, then one line per row, each
/// ended by a newline.
pub open spec fn csv_text(rows: Seq<ReportTransaction>) -> Seq<char>
    decreases rows.len(),
{
    if rows.len() == 0 {
        csv_header() + seq!['\n']
    } else {
        csv_text(rows.drop_last()) + csv_row(rows.last()) + seq!['\n']
    }
}

/// `t` with each `"` doubled.
fn escaped(t: &str) -> (r: String)
    ensures
        r@ == csv_escape(t@),
{
    let n = t.unicode_len();
    let mut r = String::new();
    let mut i: usize = 0;
    while i < n
        invariant
            n == t@.len(),
            i <= n,
            r@ == csv_escape(t@.take(i as int)),
        decreases n - i,
    {
        let c = t.get_char(i);
        assert(t@.take(i + 1).drop_last() =~= t@.take(i as int));
        if c == '"' {
            push_char(&mut r, '"');
            push_char(&mut r, '"');
        } else {
            push_char(&mut r, c);
        }
        assert(r@ =~= csv_escape(t@.take(i + 1)));
        i = i + 1;
    }
    assert(t@.take(n as int) =~= t@);
    r
}

/// Appends `t` between double quotes.
fn append_quoted(line: &mut String, t: &str)
    ensures
        final(line)@ == old(line)@ + quoted(t@),
{
    push_char(line, '"');
    line.append(t);
    push_char(line, '"');
    assert(line@ =~= old(line)@ + quoted(t@));
}

/// The CSV line of a report row.
fn csv_line(row: &ReportTransaction) -> (r: String)
    ensures
        r@ == csv_row(*row),
{
    let mut line = i64_text(row.id);
    line.append(",");
    append_quoted(&mut line, row.tx_type.as_str());
    line.append(",");
    let category = escaped(row.category.as_str());
    append_quoted(&mut line, category.as_str());
    line.append(",");
    let amount = amount_text_2dp(&row.amount);
    line.append(amount.as_str());
    line.append(",");
    append_quoted(&mut line, row.date.as_str());
    line.append(",");
    let description = escaped(row.description.as_str());
    append_quoted(&mut line, description.as_str());
    assert(line@ =~= csv_row(*row));
    line
}

/// The CSV file of a report: a header line and one line per recorded
/// transaction.
pub fn report_csv(report: &Report) -> (r: String)
    ensures
        r@ == csv_text(report.transactions@),
{
    let rows = &report.transactions;
    let mut out = string_of("ID,Type,Category,Amount_MAD,Date,Description");
    push_char(&mut out, '\n');
    let n = rows.len();
    let mut i: usize = 0;
    while i < n
        invariant
            n == rows@.len(),
            i <= n,
            out@ == csv_text(rows@.take(i as int)),
        decreases n - i,
    {
        let line = csv_line(&rows[i]);
        out.append(line.as_str());
        push_char(&mut out, '\n');
        assert(rows@.take(i + 1).drop_last() =~= rows@.take(i as int));
        assert(out@ =~= csv_text(rows@.take(i + 1)));
        i = i + 1;
    }
    assert(rows@.take(n as int) =~= rows@);
    out
}

/// The lines printed after a CSV export: where the file went, the totals
/// with two decimals (income and balance with an explicit sign) and the
/// number of transactions.
pub open spec fn export_summary_lines(report: Report) -> Seq<Seq<char>> {
    seq![
        "CSV exported \u{2192} report.csv"@,
        "  Total income   : "@ + decimal_display(report.total_income.m(), report.total_income.s(), Some(2), true)
            + " MAD"@,
        "  Total expenses : "@ + decimal_display(report.total_expenses.m(), report.total_expenses.s(), Some(2), false)
            + " MAD"@,
        "  Balance        : "@ + decimal_display(report.balance.m(), report.balance.s(), Some(2), true) + " MAD"@,
        "  Transactions   : "@ + int_text(report.transaction_count as int),
    ]
}

/// The lines printed after a CSV export.
pub fn export_summary(report: &Report) -> (r: Vec<String>)
    ensures
        line_texts(r@) == export_summary_lines(*report),
{
    let mut lines: Vec<String> = Vec::new();
    lines.push(string_of("CSV exported \u{2192} report.csv"));
    let mut income = string_of("  Total income   : ");
    income.append(amount_text_signed_2dp(&report.total_income).as_str());
    income.append(" MAD");
    lines.push(income);
    let mut expenses = string_of("  Total expenses : ");
    expenses.append(amount_text_2dp(&report.total_expenses).as_str());
    expenses.append(" MAD");
    lines.push(expenses);
    let mut balance = string_of("  Balance        : ");
    balance.append(amount_text_signed_2dp(&report.balance).as_str());
    balance.append(" MAD");
    lines.push(balance);
    let mut count = string_of("  Transactions   : ");
    count.append(u64_text(report.transaction_count as u64).as_str());
    lines.push(count);
    assert(line_texts(lines@) =~= export_summary_lines(*report));
    lines
}

} // verus!
