//! The CSV file of a report read back as RFC 4180 describes it: fields
//! separated by commas, a field between double quotes may hold commas,
//! line breaks and doubled quotes, and each record ends with a line break
//! (here a single `\n`).

use vstd::prelude::*;
use crate::amount::{decimal_display, lemma_scale_nonnegative};
use crate::format::{csv_escape, csv_header, csv_row, csv_text, quoted};
use crate::date::{date_text, two_digits, valid_ymd, year_text};
use crate::kinds::tx_type_text;
use crate::models::Transaction;
use crate::report::{is_report_of, recorded, row_of, Report, ReportTransaction};
use crate::text::{digit_char, digits, int_text, repeat_char, zero_pad_left};

verus! {

/// What a reader has read so far: the finished records, the finished fields
/// of the current record, the current field, and where it stands: `0` out
/// of quotes, `1` inside quotes, `2` just after a quote inside quotes.
pub type CsvState = (Seq<Seq<Seq<char>>>, Seq<Seq<char>>, Seq<char>, int);

/// A reader that has read nothing.
pub open spec fn csv_start() -> CsvState {
    (Seq::empty(), Seq::empty(), Seq::empty(), 0)
}

/// One character read out of quotes: a comma ends the field, a line break
/// ends the record, a quote opens a quoted part, anything else is kept.
pub open spec fn unquoted_step(st: CsvState, c: char) -> CsvState {
    if c == ',' {
        (st.0, st.1.push(st.2), Seq::empty(), 0)
    } else if c == '\n' {
        (st.0.push(st.1.push(st.2)), Seq::empty(), Seq::empty(), 0)
    } else if c == '"' {
        (st.0, st.1, st.2, 1)
    } else {
        (st.0, st.1, st.2.push(c), 0)
    }
}

/// One character read: inside quotes everything is kept but a quote; a
/// quote followed by a quote is one quote of the field; a quote followed by
/// anything else closes the quoted part.
pub open spec fn csv_step(st: CsvState, c: char) -> CsvState {
    if st.3 == 1 {
        if c == '"' {
            (st.0, st.1, st.2, 2)
        } else {
            (st.0, st.1, st.2.push(c), 1)
        }
    } else if st.3 == 2 && c == '"' {
        (st.0, st.1, st.2.push('"'), 1)
    } else {
        unquoted_step(st, c)
    }
}

/// The reader after reading `s`.
pub open spec fn csv_run(st: CsvState, s: Seq<char>) -> CsvState
    decreases s.len(),
{
    if s.len() == 0 {
        st
    } else {
        csv_step(csv_run(st, s.drop_last()), s.last())
    }
}

/// The records of a CSV text.
pub open spec fn csv_records(s: Seq<char>) -> Seq<Seq<Seq<char>>> {
    csv_run(csv_start(), s).0
}

/// Reading `a + b` is reading `a`, then `b`.
proof fn lemma_run_concat(st: CsvState, a: Seq<char>, b: Seq<char>)
    ensures
        csv_run(st, a + b) == csv_run(csv_run(st, a), b),
    decreases b.len(),
{
    if b.len() == 0 {
        assert(a + b =~= a);
    } else {
        lemma_run_concat(st, a, b.drop_last());
        assert((a + b).drop_last() =~= a + b.drop_last());
        assert((a + b).last() == b.last());
    }
}

/// Reading one character is one step.
proof fn lemma_run_one(st: CsvState, c: char)
    ensures
        csv_run(st, seq![c]) == csv_step(st, c),
{
    assert(seq![c].drop_last() =~= Seq::<char>::empty());
    assert(csv_run(st, Seq::<char>::empty()) == st);
    assert(seq![c].last() == c);
}

/// A character that neither separates nor quotes.
pub open spec fn is_plain_char(c: char) -> bool {
    c != ',' && c != '\n' && c != '"'
}

/// A text without commas, line breaks or quotes.
pub open spec fn plain(s: Seq<char>) -> bool {
    forall|i: int| 0 <= i < s.len() ==> is_plain_char(#[trigger] s[i])
}

/// A character of a number: a digit, a sign or a point.
pub open spec fn is_numeric_char(c: char) -> bool {
    ('0' <= c && c <= '9') || c == '-' || c == '+' || c == '.'
}

/// A text made of the characters of numbers.
pub open spec fn numeric(s: Seq<char>) -> bool {
    forall|i: int| 0 <= i < s.len() ==> is_numeric_char(#[trigger] s[i])
}

/// The text of a number is plain.
proof fn lemma_numeric_plain(s: Seq<char>)
    requires
        numeric(s),
    ensures
        plain(s),
{
    assert forall|i: int| 0 <= i < s.len() implies is_plain_char(#[trigger] s[i]) by {
        assert(is_numeric_char(s[i]));
    }
}

/// Joining two numeric texts gives a numeric text.
proof fn lemma_numeric_concat(a: Seq<char>, b: Seq<char>)
    requires
        numeric(a),
        numeric(b),
    ensures
        numeric(a + b),
{
    assert forall|i: int| 0 <= i < (a + b).len() implies is_numeric_char(#[trigger] (a + b)[i]) by {
        if i < a.len() {
            assert((a + b)[i] == a[i]);
        } else {
            assert((a + b)[i] == b[i - a.len()]);
        }
    }
}

/// Decimal digits are numeric.
proof fn lemma_digits_numeric(n: nat)
    ensures
        numeric(digits(n)),
    decreases n,
{
    if n > 0 {
        lemma_digits_numeric(n / 10);
        let d = (n % 10) as int;
        assert(digit_char(d) as int == 48 + d);
        lemma_numeric_concat(digits(n / 10), seq![digit_char(d)]);
        assert(digits(n) == digits(n / 10) + seq![digit_char(d)]);
    }
}

/// Zeros are numeric.
proof fn lemma_zeros_numeric(n: nat)
    ensures
        numeric(repeat_char('0', n)),
{
}

/// The text of an integer is plain.
proof fn lemma_int_text_plain(n: int)
    ensures
        plain(int_text(n)),
{
    if n < 0 {
        lemma_digits_numeric((-n) as nat);
        lemma_numeric_concat(seq!['-'], digits((-n) as nat));
        lemma_numeric_plain(int_text(n));
    } else if n == 0 {
        lemma_numeric_plain(int_text(n));
    } else {
        lemma_digits_numeric(n as nat);
        lemma_numeric_plain(int_text(n));
    }
}

/// The text of a decimal is plain.
proof fn lemma_display_plain(m: int, scale: int, precision: Option<nat>, plus: bool)
    requires
        0 <= scale,
    ensures
        plain(decimal_display(m, scale, precision, plus)),
{
    let a = if m < 0 {
        -m
    } else {
        m
    };
    lemma_digits_numeric(a as nat);
    let dg = digits(a as nat);
    let d = zero_pad_left(dg, scale as nat);
    if dg.len() < scale as nat {
        lemma_zeros_numeric((scale as nat - dg.len()) as nat);
        lemma_numeric_concat(repeat_char('0', (scale as nat - dg.len()) as nat), dg);
    }
    assert(numeric(d));
    assert(d.len() >= scale);
    let whole = d.len() - scale;
    let prec: nat = match precision {
        Some(p) => p,
        None => scale as nat,
    };
    let frac = d.subrange(whole, d.len() as int);
    assert(numeric(frac)) by {
        assert forall|i: int| 0 <= i < frac.len() implies is_numeric_char(#[trigger] frac[i]) by {
            assert(frac[i] == d[whole + i]);
        }
    }
    let frac_shown = if prec <= frac.len() {
        frac.take(prec as int)
    } else {
        frac + repeat_char('0', (prec - frac.len()) as nat)
    };
    if prec <= frac.len() {
        assert(numeric(frac_shown)) by {
            assert forall|i: int| 0 <= i < frac_shown.len() implies is_numeric_char(#[trigger] frac_shown[i]) by {
                assert(frac_shown[i] == frac[i]);
            }
        }
    } else {
        lemma_zeros_numeric((prec - frac.len()) as nat);
        lemma_numeric_concat(frac, repeat_char('0', (prec - frac.len()) as nat));
    }
    let front = if whole == 0 {
        seq!['0']
    } else {
        d.take(whole)
    };
    assert(numeric(front)) by {
        if whole != 0 {
            assert forall|i: int| 0 <= i < front.len() implies is_numeric_char(#[trigger] front[i]) by {
                assert(front[i] == d[i]);
            }
        }
    }
    let tail = if prec > 0 {
        seq!['.'] + frac_shown
    } else {
        Seq::empty()
    };
    if prec > 0 {
        lemma_numeric_concat(seq!['.'], frac_shown);
    }
    lemma_numeric_concat(front, tail);
    let body = if whole + prec == 0 {
        seq!['0']
    } else {
        front + tail
    };
    let sign = if m < 0 {
        seq!['-']
    } else if plus {
        seq!['+']
    } else {
        Seq::empty()
    };
    assert(numeric(sign));
    lemma_numeric_concat(sign, body);
    assert(decimal_display(m, scale, precision, plus) == sign + body);
    lemma_numeric_plain(sign + body);
}

/// Reading a plain text out of quotes adds it to the field.
proof fn lemma_run_plain(st: CsvState, s: Seq<char>)
    requires
        st.3 == 0,
        plain(s),
    ensures
        csv_run(st, s) == (st.0, st.1, st.2 + s, 0int),
    decreases s.len(),
{
    if s.len() == 0 {
        assert(st.2 + s =~= st.2);
    } else {
        let p = s.drop_last();
        assert(plain(p)) by {
            assert forall|i: int| 0 <= i < p.len() implies is_plain_char(#[trigger] p[i]) by {
                assert(p[i] == s[i]);
            }
        }
        lemma_run_plain(st, p);
        assert(is_plain_char(s[s.len() - 1]));
        assert((st.2 + p).push(s.last()) =~= st.2 + s);
    }
}

/// A text without quotes is its own escape.
proof fn lemma_escape_identity(x: Seq<char>)
    requires
        forall|i: int| 0 <= i < x.len() ==> #[trigger] x[i] != '"',
    ensures
        csv_escape(x) == x,
    decreases x.len(),
{
    if x.len() > 0 {
        let p = x.drop_last();
        assert forall|i: int| 0 <= i < p.len() implies #[trigger] p[i] != '"' by {
            assert(p[i] == x[i]);
        }
        lemma_escape_identity(p);
        assert(x[x.len() - 1] != '"');
        assert(p.push(x.last()) =~= x);
    }
}

/// Reading an escaped text inside quotes adds the text to the field.
proof fn lemma_run_escaped(st: CsvState, x: Seq<char>)
    requires
        st.3 == 1,
    ensures
        csv_run(st, csv_escape(x)) == (st.0, st.1, st.2 + x, 1int),
    decreases x.len(),
{
    if x.len() == 0 {
        assert(st.2 + x =~= st.2);
    } else {
        let p = x.drop_last();
        let c = x.last();
        lemma_run_escaped(st, p);
        let mid = csv_run(st, csv_escape(p));
        if c == '"' {
            let two = seq!['"', '"'];
            lemma_run_concat(st, csv_escape(p), two);
            assert(two.drop_last() =~= seq!['"']);
            lemma_run_one(mid, '"');
            assert(csv_run(mid, two) == csv_step(csv_run(mid, seq!['"']), '"'));
        } else {
            lemma_run_concat(st, csv_escape(p), seq![c]);
            assert(csv_escape(p).push(c) =~= csv_escape(p) + seq![c]);
            lemma_run_one(mid, c);
        }
        assert((st.2 + p).push(c) =~= st.2 + x);
    }
}

/// Reading a quoted, escaped text from the start of a field gives the text
/// as the field, just after the closing quote.
proof fn lemma_run_quoted(st: CsvState, x: Seq<char>)
    requires
        st.3 == 0,
        st.2 == Seq::<char>::empty(),
    ensures
        csv_run(st, quoted(csv_escape(x))) == (st.0, st.1, x, 2int),
{
    let open = seq!['"'];
    let e = csv_escape(x);
    lemma_run_one(st, '"');
    let s1 = csv_run(st, open);
    lemma_run_escaped(s1, x);
    lemma_run_concat(st, open, e);
    let s2 = csv_run(st, open + e);
    lemma_run_concat(st, open + e, seq!['"']);
    lemma_run_one(s2, '"');
    assert(st.2 + x =~= x);
}

/// After a field, a comma ends it.
proof fn lemma_run_comma(st: CsvState)
    requires
        st.3 == 0 || st.3 == 2,
    ensures
        csv_run(st, ","@) == (st.0, st.1.push(st.2), Seq::<char>::empty(), 0int),
{
    reveal_strlit(",");
    assert(","@ =~= seq![',']);
    lemma_run_one(st, ',');
}

/// After a field, a line break ends it and its record.
proof fn lemma_run_newline(st: CsvState)
    requires
        st.3 == 0 || st.3 == 2,
    ensures
        csv_run(st, seq!['\n']) == (st.0.push(st.1.push(st.2)), Seq::<Seq<char>>::empty(), Seq::<char>::empty(), 0int),
{
    lemma_run_one(st, '\n');
}

/// A text without double quotes.
pub open spec fn no_quote(s: Seq<char>) -> bool {
    forall|i: int| 0 <= i < s.len() ==> #[trigger] s[i] != '"'
}

/// The fields of the header record.
pub open spec fn csv_header_fields() -> Seq<Seq<char>> {
    seq!["ID"@, "Type"@, "Category"@, "Amount_MAD"@, "Date"@, "Description"@]
}

/// The fields of the record of a report row: the id, the type, the
/// category, the amount with two decimals, the date and the description.
pub open spec fn csv_fields(r: ReportTransaction) -> Seq<Seq<char>> {
    seq![
        int_text(r.id as int),
        r.tx_type@,
        r.category@,
        decimal_display(r.amount.m(), r.amount.s(), Some(2), false),
        r.date@,
        r.description@,
    ]
}

/// Reading the line of a row, from the start of a record, adds the row's
/// record.
proof fn lemma_run_row(st: CsvState, r: ReportTransaction)
    requires
        st.1 == Seq::<Seq<char>>::empty(),
        st.2 == Seq::<char>::empty(),
        st.3 == 0,
        no_quote(r.tx_type@),
        no_quote(r.date@),
    ensures
        csv_run(csv_run(st, csv_row(r)), seq!['\n']) == (
            st.0.push(csv_fields(r)),
            Seq::<Seq<char>>::empty(),
            Seq::<char>::empty(),
            0int,
        ),
{
    let id = int_text(r.id as int);
    let amt = decimal_display(r.amount.m(), r.amount.s(), Some(2), false);
    let cat = r.category@;
    let desc = r.description@;
    lemma_int_text_plain(r.id as int);
    lemma_scale_nonnegative(r.amount);
    lemma_display_plain(r.amount.m(), r.amount.s(), Some(2), false);
    lemma_escape_identity(r.tx_type@);
    lemma_escape_identity(r.date@);
    let p1 = id;
    let p2 = p1 + ","@;
    let p3 = p2 + quoted(r.tx_type@);
    let p4 = p3 + ","@;
    let p5 = p4 + quoted(csv_escape(cat));
    let p6 = p5 + ","@;
    let p7 = p6 + amt;
    let p8 = p7 + ","@;
    let p9 = p8 + quoted(r.date@);
    let p10 = p9 + ","@;
    let p11 = p10 + quoted(csv_escape(desc));
    assert(csv_row(r) == p11);
    lemma_run_plain(st, p1);
    let s1 = csv_run(st, p1);
    assert(st.2 + p1 =~= p1);
    lemma_run_concat(st, p1, ","@);
    lemma_run_comma(s1);
    let s2 = csv_run(st, p2);
    lemma_run_concat(st, p2, quoted(r.tx_type@));
    lemma_run_quoted(s2, r.tx_type@);
    let s3 = csv_run(st, p3);
    lemma_run_concat(st, p3, ","@);
    lemma_run_comma(s3);
    let s4 = csv_run(st, p4);
    lemma_run_concat(st, p4, quoted(csv_escape(cat)));
    lemma_run_quoted(s4, cat);
    let s5 = csv_run(st, p5);
    lemma_run_concat(st, p5, ","@);
    lemma_run_comma(s5);
    let s6 = csv_run(st, p6);
    lemma_run_concat(st, p6, amt);
    lemma_run_plain(s6, amt);
    let s7 = csv_run(st, p7);
    assert(s6.2 + amt =~= amt);
    lemma_run_concat(st, p7, ","@);
    lemma_run_comma(s7);
    let s8 = csv_run(st, p8);
    lemma_run_concat(st, p8, quoted(r.date@));
    lemma_run_quoted(s8, r.date@);
    let s9 = csv_run(st, p9);
    lemma_run_concat(st, p9, ","@);
    lemma_run_comma(s9);
    let s10 = csv_run(st, p10);
    lemma_run_concat(st, p10, quoted(csv_escape(desc)));
    lemma_run_quoted(s10, desc);
    let s11 = csv_run(st, p11);
    lemma_run_newline(s11);
    assert(s11.1.push(s11.2) =~= csv_fields(r));
}

/// Reading the header line, from the start, gives the header record.
proof fn lemma_run_header()
    ensures
        csv_run(csv_run(csv_start(), csv_header()), seq!['\n']) == (
            seq![csv_header_fields()],
            Seq::<Seq<char>>::empty(),
            Seq::<char>::empty(),
            0int,
        ),
{
    reveal_strlit("ID,Type,Category,Amount_MAD,Date,Description");
    reveal_strlit("ID");
    reveal_strlit("Type");
    reveal_strlit("Category");
    reveal_strlit("Amount_MAD");
    reveal_strlit("Date");
    reveal_strlit("Description");
    reveal_strlit(",");
    let st = csv_start();
    let w1 = "ID"@;
    let w2 = "Type"@;
    let w3 = "Category"@;
    let w4 = "Amount_MAD"@;
    let w5 = "Date"@;
    let w6 = "Description"@;
    let p1 = w1;
    let p2 = p1 + ","@;
    let p3 = p2 + w2;
    let p4 = p3 + ","@;
    let p5 = p4 + w3;
    let p6 = p5 + ","@;
    let p7 = p6 + w4;
    let p8 = p7 + ","@;
    let p9 = p8 + w5;
    let p10 = p9 + ","@;
    let p11 = p10 + w6;
    assert(csv_header() =~= p11);
    assert(plain(w1) && plain(w2) && plain(w3) && plain(w4) && plain(w5) && plain(w6));
    lemma_run_plain(st, p1);
    let s1 = csv_run(st, p1);
    assert(st.2 + p1 =~= p1);
    lemma_run_concat(st, p1, ","@);
    lemma_run_comma(s1);
    let s2 = csv_run(st, p2);
    lemma_run_concat(st, p2, w2);
    lemma_run_plain(s2, w2);
    let s3 = csv_run(st, p3);
    assert(s2.2 + w2 =~= w2);
    lemma_run_concat(st, p3, ","@);
    lemma_run_comma(s3);
    let s4 = csv_run(st, p4);
    lemma_run_concat(st, p4, w3);
    lemma_run_plain(s4, w3);
    let s5 = csv_run(st, p5);
    assert(s4.2 + w3 =~= w3);
    lemma_run_concat(st, p5, ","@);
    lemma_run_comma(s5);
    let s6 = csv_run(st, p6);
    lemma_run_concat(st, p6, w4);
    lemma_run_plain(s6, w4);
    let s7 = csv_run(st, p7);
    assert(s6.2 + w4 =~= w4);
    lemma_run_concat(st, p7, ","@);
    lemma_run_comma(s7);
    let s8 = csv_run(st, p8);
    lemma_run_concat(st, p8, w5);
    lemma_run_plain(s8, w5);
    let s9 = csv_run(st, p9);
    assert(s8.2 + w5 =~= w5);
    lemma_run_concat(st, p9, ","@);
    lemma_run_comma(s9);
    let s10 = csv_run(st, p10);
    lemma_run_concat(st, p10, w6);
    lemma_run_plain(s10, w6);
    let s11 = csv_run(st, p11);
    assert(s10.2 + w6 =~= w6);
    lemma_run_newline(s11);
    assert(s11.1.push(s11.2) =~= csv_header_fields());
    assert(s11.0.push(s11.1.push(s11.2)) =~= seq![csv_header_fields()]);
}

/// Read as RFC 4180 describes, the CSV text of report rows whose type and
/// date hold no double quote gives the header record, then each row's
/// record, in order: id, type, category, amount with two decimals, date,
/// description, with the category and description as they are, commas,
/// quotes and line breaks included.
pub proof fn law_csv_read_back(rows: Seq<ReportTransaction>)
    requires
        forall|i: int| 0 <= i < rows.len() ==> no_quote((#[trigger] rows[i]).tx_type@) && no_quote(rows[i].date@),
    ensures
        csv_run(csv_start(), csv_text(rows)) == (
            seq![csv_header_fields()] + rows.map_values(|r: ReportTransaction| csv_fields(r)),
            Seq::<Seq<char>>::empty(),
            Seq::<char>::empty(),
            0int,
        ),
        csv_records(csv_text(rows)) == seq![csv_header_fields()] + rows.map_values(
            |r: ReportTransaction| csv_fields(r),
        ),
    decreases rows.len(),
{
    if rows.len() == 0 {
        lemma_run_concat(csv_start(), csv_header(), seq!['\n']);
        lemma_run_header();
        assert(seq![csv_header_fields()] + rows.map_values(|r: ReportTransaction| csv_fields(r)) =~= seq![
            csv_header_fields(),
        ]);
    } else {
        let pre = rows.drop_last();
        let last = rows.last();
        assert forall|i: int| 0 <= i < pre.len() implies no_quote((#[trigger] pre[i]).tx_type@) && no_quote(
            pre[i].date@,
        ) by {
            assert(pre[i] == rows[i]);
        }
        assert(no_quote(last.tx_type@) && no_quote(last.date@)) by {
            assert(last == rows[rows.len() - 1]);
        }
        law_csv_read_back(pre);
        let t = csv_text(pre);
        lemma_run_concat(csv_start(), t + csv_row(last), seq!['\n']);
        lemma_run_concat(csv_start(), t, csv_row(last));
        lemma_run_row(csv_run(csv_start(), t), last);
        assert((seq![csv_header_fields()] + pre.map_values(|r: ReportTransaction| csv_fields(r))).push(
            csv_fields(last),
        ) =~= seq![csv_header_fields()] + rows.map_values(|r: ReportTransaction| csv_fields(r)));
    }
}

/// Every transaction's date is a date that `NaiveDate` can hold (always so
/// for dates built by this library).
pub open spec fn dates_valid(txs: Seq<Transaction>) -> bool {
    forall|i: int| 0 <= i < txs.len() ==> valid_ymd((#[trigger] txs[i]).date.y(), txs[i].date.m(), txs[i].date.d())
}

/// The text of a valid date is numeric.
proof fn lemma_date_text_numeric(y: int, m: int, d: int)
    requires
        valid_ymd(y, m, d),
    ensures
        numeric(date_text(y, m, d)),
{
    let ay = if y < 0 {
        -y
    } else {
        y
    };
    lemma_digits_numeric(ay as nat);
    let dg = digits(ay as nat);
    if dg.len() < 4 {
        lemma_zeros_numeric((4 - dg.len()) as nat);
        lemma_numeric_concat(repeat_char('0', (4 - dg.len()) as nat), dg);
    }
    let z = zero_pad_left(dg, 4);
    assert(numeric(z));
    if !(0 <= y <= 9999) {
        if y < 0 {
            lemma_numeric_concat(seq!['-'], z);
        } else {
            lemma_numeric_concat(seq!['+'], z);
        }
    }
    assert(numeric(year_text(y)));
    assert(digit_char(m / 10) as int == 48 + m / 10);
    assert(digit_char(m % 10) as int == 48 + m % 10);
    assert(digit_char(d / 10) as int == 48 + d / 10);
    assert(digit_char(d % 10) as int == 48 + d % 10);
    assert(numeric(two_digits(m)));
    assert(numeric(two_digits(d)));
    lemma_numeric_concat(year_text(y), seq!['-']);
    lemma_numeric_concat(year_text(y) + seq!['-'], two_digits(m));
    lemma_numeric_concat(year_text(y) + seq!['-'] + two_digits(m), seq!['-']);
    lemma_numeric_concat(year_text(y) + seq!['-'] + two_digits(m) + seq!['-'], two_digits(d));
}

/// The recorded transactions are transactions of the list.
proof fn lemma_recorded_from(s: Seq<Transaction>)
    ensures
        forall|i: int| 0 <= i < recorded(s).len() ==> s.contains(#[trigger] recorded(s)[i]),
    decreases s.len(),
{
    if s.len() > 0 {
        let p = s.drop_last();
        lemma_recorded_from(p);
        assert forall|i: int| 0 <= i < recorded(s).len() implies s.contains(#[trigger] recorded(s)[i]) by {
            if i < recorded(p).len() {
                assert(recorded(s)[i] == recorded(p)[i]);
                let k = choose|k: int| 0 <= k < p.len() && p[k] == recorded(p)[i];
                assert(s[k] == p[k]);
            } else {
                assert(recorded(s)[i] == s.last());
                assert(s[s.len() - 1] == s.last());
            }
        }
    }
}

/// Read as RFC 4180 describes, the CSV file of a report gives the header
/// record, then the record of each recorded transaction, in order.
pub proof fn law_report_csv_read_back(r: Report, txs: Seq<Transaction>)
    requires
        is_report_of(r, txs),
        dates_valid(txs),
    ensures
        csv_records(csv_text(r.transactions@)) == seq![csv_header_fields()] + r.transactions@.map_values(
            |row: ReportTransaction| csv_fields(row),
        ),
{
    reveal_strlit("income");
    reveal_strlit("expense");
    lemma_recorded_from(txs);
    let rows = r.transactions@;
    assert forall|i: int| 0 <= i < rows.len() implies no_quote((#[trigger] rows[i]).tx_type@) && no_quote(
        rows[i].date@,
    ) by {
        let t = recorded(txs)[i];
        assert(row_of(rows[i], t));
        assert(txs.contains(t));
        let k = choose|k: int| 0 <= k < txs.len() && txs[k] == t;
        assert(valid_ymd(txs[k].date.y(), txs[k].date.m(), txs[k].date.d()));
        lemma_date_text_numeric(t.date.y(), t.date.m(), t.date.d());
        lemma_numeric_plain(t.date.text());
        assert forall|j: int| 0 <= j < rows[i].date@.len() implies #[trigger] rows[i].date@[j] != '"' by {
            assert(is_plain_char(t.date.text()[j]));
        }
        assert forall|j: int| 0 <= j < rows[i].tx_type@.len() implies #[trigger] rows[i].tx_type@[j] != '"' by {
            assert(rows[i].tx_type@ == tx_type_text(t.tx_type));
        }
    }
    law_csv_read_back(rows);
}

} // verus!
