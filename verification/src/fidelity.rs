//! What the ledger's rows and texts hold of the transactions they show: a
//! report row keeps every field of its transaction, the stored type column
//! is the one the type filter looks for, and every number shown as text
//! reads back as that number.

use vstd::prelude::*;
use crate::amount::{decimal_display, lemma_scale_nonnegative, pow10, units_of};
use crate::csv_read::{csv_fields, csv_records, dates_valid, law_report_csv_read_back};
use crate::date::{date_text, two_digits, valid_ymd, year_text, Date};
use crate::format::{export_summary_lines, csv_text, gap, id_text, pad_left, pad_right, table_header, table_lines, table_row, table_rule, truncate};
use crate::invariance::{
    category_weight, kind_weight, lemma_category_weights, lemma_pow10_positive, lemma_recorded_count,
    lemma_units_sum_weight, weight,
};
use crate::laws::{amounts_valid, law_report_sums, no_rounding};
use crate::kinds::{tx_type_text, TransactionType};
use crate::models::Transaction;
use crate::report::{breakdown_view, category_totals, is_report_of, recorded, row_of, Report};
use crate::store::{filters_category, query_params, stored_texts};
use crate::text::{digit_char, digits, int_text, repeat_char, zero_pad_left};

verus! {

/// The number that a text of decimal digits writes (zero for no digits).
pub open spec fn digits_value(s: Seq<char>) -> int
    decreases s.len(),
{
    if s.len() == 0 {
        0
    } else {
        digits_value(s.drop_last()) * 10 + (s.last() as int - 48)
    }
}

/// The number that a decimal text writes: its digits, negated after a
/// leading `-`.
pub open spec fn decimal_value(s: Seq<char>) -> int {
    if s.len() > 0 && s[0] == '-' {
        -digits_value(s.drop_first())
    } else {
        digits_value(s)
    }
}

/// Whether every character is a decimal digit.
pub open spec fn all_digits(s: Seq<char>) -> bool {
    forall|i: int| 0 <= i < s.len() ==> '0' <= #[trigger] s[i] <= '9'
}

/// The digits of a natural number write it.
proof fn lemma_digits_value(n: nat)
    ensures
        digits_value(digits(n)) == n,
        all_digits(digits(n)),
        n > 0 ==> digits(n).len() > 0,
    decreases n,
{
    if n > 0 {
        lemma_digits_value(n / 10);
        let d = digits(n / 10);
        let c = digit_char((n % 10) as int);
        assert(c as int == 48 + n % 10);
        assert(digits(n) == d.push(c));
        assert(d.push(c).drop_last() =~= d);
        assert forall|i: int| 0 <= i < d.push(c).len() implies '0' <= #[trigger] d.push(c)[i] <= '9' by {
            if i < d.len() {
                assert(d.push(c)[i] == d[i]);
            }
        }
    }
}

/// The text of every integer reads back as that integer: it is its decimal
/// digits, with a `-` in front exactly when it is negative, and never empty.
pub proof fn law_int_text_reads_back(n: int)
    ensures
        decimal_value(int_text(n)) == n,
        int_text(n).len() > 0,
        (int_text(n)[0] == '-') == (n < 0),
        n < 0 ==> all_digits(int_text(n).drop_first()),
        n >= 0 ==> all_digits(int_text(n)),
{
    if n < 0 {
        lemma_digits_value((-n) as nat);
        let d = digits((-n) as nat);
        assert((seq!['-'] + d).drop_first() =~= d);
        assert((seq!['-'] + d)[0] == '-');
        assert(decimal_value(seq!['-'] + d) == -digits_value(d));
    } else if n == 0 {
        assert(seq!['0'].drop_last() =~= Seq::<char>::empty());
        assert(digits_value(Seq::<char>::empty()) == 0);
        assert(('0' as int) == 48);
        assert(digits_value(seq!['0']) == 0);
    } else {
        lemma_digits_value(n as nat);
        assert('0' <= int_text(n)[0] <= '9');
        assert(int_text(n)[0] != '-');
    }
}

/// Every row of a report keeps its transaction whole: the rows are the
/// transactions that carry an id, in their order, each transaction with an
/// id as often as in the list; and each row holds that transaction's id,
/// its type as `income` or `expense`, its category and description
/// unchanged whatever their length, its amount and its `YYYY-MM-DD` date.
pub proof fn law_report_rows_keep_transactions(txs: Seq<Transaction>, r: Report)
    requires
        is_report_of(r, txs),
    ensures
        r.transactions@.len() == recorded(txs).len(),
        r.transaction_count == recorded(txs).len(),
        forall|v: Transaction|
            #[trigger] recorded(txs).to_multiset().count(v) == (if v.id is Some {
                txs.to_multiset().count(v)
            } else {
                0
            }),
        forall|i: int|
            0 <= i < r.transactions@.len() ==> {
                let row = #[trigger] r.transactions@[i];
                let t = recorded(txs)[i];
                &&& t.id == Some(row.id)
                &&& t.tx_type == TransactionType::Income ==> row.tx_type@ == "income"@
                &&& t.tx_type == TransactionType::Expense ==> row.tx_type@ == "expense"@
                &&& row.category@ == t.category@
                &&& row.description@ == t.description@
                &&& row.description@.len() == t.description@.len()
                &&& row.amount.pair() == t.amount.pair()
                &&& row.date@ == date_text(t.date.y(), t.date.m(), t.date.d())
            },
{
    lemma_recorded_count(txs);
    assert forall|i: int| 0 <= i < r.transactions@.len() implies {
        let row = #[trigger] r.transactions@[i];
        let t = recorded(txs)[i];
        &&& t.id == Some(row.id)
        &&& t.tx_type == TransactionType::Income ==> row.tx_type@ == "income"@
        &&& t.tx_type == TransactionType::Expense ==> row.tx_type@ == "expense"@
        &&& row.category@ == t.category@
        &&& row.description@ == t.description@
        &&& row.description@.len() == t.description@.len()
        &&& row.amount.pair() == t.amount.pair()
        &&& row.date@ == date_text(t.date.y(), t.date.m(), t.date.d())
    } by {
        assert(row_of(r.transactions@[i], recorded(txs)[i]));
    }
}

/// The lower-case name of a transaction type, as written out.
pub open spec fn lower_name(t: TransactionType) -> Seq<char> {
    if t == TransactionType::Income {
        "income"@
    } else {
        "expense"@
    }
}

/// The stored type column of a transaction is the lower-case name of its
/// type; the type filter's parameter, which follows the date parameters
/// that are given, is the lower-case name of the requested type; so a
/// stored transaction matches the filter exactly when its type is the
/// requested one.
pub proof fn law_type_filter_finds_stored_type(
    x: Transaction,
    t: TransactionType,
    from: Option<Date>,
    to: Option<Date>,
    category: Option<String>,
)
    ensures
        stored_texts(x).0 == lower_name(x.tx_type),
        ({
            let k: int = (if from is Some { 1int } else { 0int }) + (if to is Some { 1int } else { 0int });
            &&& query_params(from, to, Some(t), category).len() > k
            &&& query_params(from, to, Some(t), category)[k] == lower_name(t)
            &&& (stored_texts(x).0 == query_params(from, to, Some(t), category)[k]) <==> x.tx_type == t
        }),
        query_params(None, None, Some(t), None) == seq![lower_name(t)],
{
    reveal_strlit("income");
    reveal_strlit("expense");
    assert("income"@ != "expense"@) by {
        assert("income"@.len() != "expense"@.len());
    }
    let a: Seq<Seq<char>> = match from {
        Some(d) => seq![d.text()],
        None => Seq::empty(),
    };
    let b: Seq<Seq<char>> = match to {
        Some(d) => seq![d.text()],
        None => Seq::empty(),
    };
    let c: Seq<Seq<char>> = seq![tx_type_text(t)];
    let e: Seq<Seq<char>> = if filters_category(category) {
        seq![category.unwrap()@]
    } else {
        Seq::empty()
    };
    let q = query_params(from, to, Some(t), category);
    assert(q == a + b + c + e);
    let k: int = a.len() as int + b.len() as int;
    assert(q[k] == c[0]);
    assert(query_params(None, None, Some(t), None) =~= seq![lower_name(t)]);
}

/// The first `k` characters of a concatenation, where the front is that
/// long, are those of the front.
proof fn lemma_take_concat(x: Seq<char>, y: Seq<char>, k: int)
    requires
        0 <= k <= x.len(),
    ensures
        (x + y).take(k) == x.take(k),
{
    assert((x + y).take(k) =~= x.take(k));
}

/// The id cell of a listed row is the text of the transaction's own id,
/// followed by a space: the first word of the row reads back as the id.
pub proof fn law_listing_shows_id(t: Transaction, i: i64)
    requires
        t.id == Some(i),
    ensures
        table_row(t).take(int_text(i as int).len() as int) == int_text(i as int),
        table_row(t)[int_text(i as int).len() as int] == ' ',
        decimal_value(table_row(t).take(int_text(i as int).len() as int)) == i,
{
    reveal_strlit("  ");
    law_int_text_reads_back(i as int);
    let s = int_text(i as int);
    let n = s.len() as int;
    let cell = pad_right(s, 6);
    let h = cell + gap();
    let c1 = h + pad_right(t.date.text(), 12);
    let c2 = c1 + gap();
    let c3 = c2 + pad_right(tx_type_text(t.tx_type), 10);
    let c4 = c3 + gap();
    let c5 = c4 + pad_left(decimal_display(t.amount.m(), t.amount.s(), Some(2), true), 14);
    let c6 = c5 + gap();
    let c7 = c6 + pad_right(t.category@, 16);
    let c8 = c7 + gap();
    let c9 = c8 + pad_right(truncate(t.description@, 40), 40);
    assert(table_row(t) == c9);
    assert(cell.len() >= n);
    assert(h.len() >= n + 1);
    let k = n + 1;
    lemma_take_concat(c8, pad_right(truncate(t.description@, 40), 40), k);
    lemma_take_concat(c7, gap(), k);
    lemma_take_concat(c6, pad_right(t.category@, 16), k);
    lemma_take_concat(c5, gap(), k);
    lemma_take_concat(c4, pad_left(decimal_display(t.amount.m(), t.amount.s(), Some(2), true), 14), k);
    lemma_take_concat(c3, gap(), k);
    lemma_take_concat(c2, pad_right(tx_type_text(t.tx_type), 10), k);
    lemma_take_concat(c1, gap(), k);
    lemma_take_concat(h, pad_right(t.date.text(), 12), k);
    let front = h.take(k);
    assert(c9.take(k) == front);
    assert(front.take(n) =~= s) by {
        assert(cell.take(n) =~= s);
        assert forall|j: int| 0 <= j < n implies front[j] == s[j] by {
            assert(front[j] == h[j]);
            assert(h[j] == cell[j]);
        }
    }
    assert(front[n] == ' ') by {
        if n < 6 {
            assert(h[n] == cell[n]);
        } else {
            assert(h[n] == gap()[0]);
        }
    }
    assert(c9.take(n) =~= front.take(n));
    assert(c9[n] == front[n]);
}

/// The count line of the export summary reads back as the number of data
/// records of the exported CSV file, that is, of the report's rows.
pub proof fn law_summary_counts_rows(r: Report, txs: Seq<Transaction>)
    requires
        is_report_of(r, txs),
        dates_valid(txs),
    ensures
        export_summary_lines(r).len() == 5,
        export_summary_lines(r)[4].take(19) == "  Transactions   : "@,
        decimal_value(export_summary_lines(r)[4].skip(19)) == r.transactions@.len(),
        decimal_value(export_summary_lines(r)[4].skip(19)) == csv_records(csv_text(r.transactions@)).len() - 1,
{
    reveal_strlit("  Transactions   : ");
    law_report_csv_read_back(r, txs);
    law_int_text_reads_back(r.transaction_count as int);
    let line = export_summary_lines(r)[4];
    assert(line.skip(19) =~= int_text(r.transaction_count as int));
    assert(line.take(19) =~= "  Transactions   : "@);
}

/// The query's parameters are, in order: the start date's text (where
/// given), the end date's text (where given), the type's lower-case name
/// (where given) and the category (where given and not empty: see
/// `filters_category`), and nothing else. A stored transaction's date column equals a date parameter exactly
/// when it has that date, and its category column equals the category
/// parameter exactly when it has that category.
pub proof fn law_query_params_are_stored_columns(
    x: Transaction,
    from: Option<Date>,
    to: Option<Date>,
    tx_type: Option<TransactionType>,
    category: Option<String>,
)
    requires
        valid_ymd(x.date.y(), x.date.m(), x.date.d()),
        from matches Some(f) ==> valid_ymd(f.y(), f.m(), f.d()),
        to matches Some(d) ==> valid_ymd(d.y(), d.m(), d.d()),
    ensures
        ({
            let q = query_params(from, to, tx_type, category);
            let nf: int = if from is Some { 1 } else { 0 };
            let nt: int = if to is Some { 1 } else { 0 };
            let ny: int = if tx_type is Some { 1 } else { 0 };
            let nc: int = if filters_category(category) { 1 } else { 0 };
            &&& q.len() == nf + nt + ny + nc
            &&& from matches Some(f) ==> q[0] == date_text(f.y(), f.m(), f.d()) && (stored_texts(x).4 == q[0] <==> (
                x.date.y() == f.y() && x.date.m() == f.m() && x.date.d() == f.d()))
            &&& to matches Some(d) ==> q[nf] == date_text(d.y(), d.m(), d.d()) && (stored_texts(x).4 == q[nf] <==> (
                x.date.y() == d.y() && x.date.m() == d.m() && x.date.d() == d.d()))
            &&& tx_type matches Some(t) ==> q[nf + nt] == lower_name(t)
            &&& filters_category(category) ==> q[nf + nt + ny] == category.unwrap()@ && (stored_texts(x).2 == q[nf
                + nt + ny] <==> x.category@ == category.unwrap()@)
        }),
{
    reveal_strlit("income");
    reveal_strlit("expense");
    let a: Seq<Seq<char>> = match from {
        Some(d) => seq![d.text()],
        None => Seq::empty(),
    };
    let b: Seq<Seq<char>> = match to {
        Some(d) => seq![d.text()],
        None => Seq::empty(),
    };
    let c: Seq<Seq<char>> = match tx_type {
        Some(t) => seq![tx_type_text(t)],
        None => Seq::empty(),
    };
    let e: Seq<Seq<char>> = if filters_category(category) {
        seq![category.unwrap()@]
    } else {
        Seq::empty()
    };
    let q = query_params(from, to, tx_type, category);
    assert(q == a + b + c + e);
    if let Some(f) = from {
        if date_text(x.date.y(), x.date.m(), x.date.d()) == date_text(f.y(), f.m(), f.d()) {
            lemma_date_text_injective(x.date.y(), x.date.m(), x.date.d(), f.y(), f.m(), f.d());
        }
        assert(q[0] == a[0]);
    }
    if let Some(d) = to {
        if date_text(x.date.y(), x.date.m(), x.date.d()) == date_text(d.y(), d.m(), d.d()) {
            lemma_date_text_injective(x.date.y(), x.date.m(), x.date.d(), d.y(), d.m(), d.d());
        }
        assert(q[a.len() as int] == b[0]);
    }
    if let Some(t) = tx_type {
        assert(q[a.len() + b.len() as int] == c[0]);
    }
    if filters_category(category) {
        assert(q[a.len() + b.len() + c.len() as int] == e[0]);
    }
}

/// Leading zeros do not change the number that digits write.
proof fn lemma_leading_zeros(k: nat, s: Seq<char>)
    ensures
        digits_value(repeat_char('0', k) + s) == digits_value(s),
    decreases s.len(),
{
    let z = repeat_char('0', k);
    if s.len() == 0 {
        assert(z + s =~= z);
        lemma_zeros_value(k);
    } else {
        lemma_leading_zeros(k, s.drop_last());
        assert((z + s).drop_last() =~= z + s.drop_last());
        assert((z + s).last() == s.last());
    }
}

/// Zeros write zero.
proof fn lemma_zeros_value(k: nat)
    ensures
        digits_value(repeat_char('0', k)) == 0,
    decreases k,
{
    if k > 0 {
        lemma_zeros_value((k - 1) as nat);
        assert(repeat_char('0', k).drop_last() =~= repeat_char('0', (k - 1) as nat));
        assert(('0' as int) == 48);
    }
}

/// The number that a year's text writes: its digits, after an optional
/// sign.
pub open spec fn year_value(s: Seq<char>) -> int {
    if s.len() > 0 && s[0] == '-' {
        -digits_value(s.drop_first())
    } else if s.len() > 0 && s[0] == '+' {
        digits_value(s.drop_first())
    } else {
        digits_value(s)
    }
}

/// The text of every year reads back as that year.
proof fn lemma_year_text_value(y: int)
    ensures
        year_value(year_text(y)) == y,
{
    let a: nat = if y < 0 {
        (-y) as nat
    } else {
        y as nat
    };
    lemma_digits_value(a);
    let d = digits(a);
    let z = zero_pad_left(d, 4);
    if d.len() < 4 {
        lemma_leading_zeros((4 - d.len()) as nat, d);
    }
    assert(digits_value(z) == a);
    if 0 <= y <= 9999 {
        if d.len() > 0 {
            assert('0' <= d[0] <= '9');
        }
        if z.len() > 0 && d.len() < 4 {
            assert(z[0] == '0');
        } else if z.len() > 0 {
            assert(z[0] == d[0]);
        }
        assert(year_text(y) == z);
    } else if y < 0 {
        assert((seq!['-'] + z).drop_first() =~= z);
        assert((seq!['-'] + z)[0] == '-');
    } else {
        assert((seq!['+'] + z).drop_first() =~= z);
        assert((seq!['+'] + z)[0] == '+');
    }
}

/// Two valid dates have the same text only when they are the same date.
proof fn lemma_date_text_injective(y1: int, m1: int, d1: int, y2: int, m2: int, d2: int)
    requires
        valid_ymd(y1, m1, d1),
        valid_ymd(y2, m2, d2),
        date_text(y1, m1, d1) == date_text(y2, m2, d2),
    ensures
        y1 == y2 && m1 == m2 && d1 == d2,
{
    let t1 = year_text(y1);
    let t2 = year_text(y2);
    let r1 = seq!['-'] + two_digits(m1) + seq!['-'] + two_digits(d1);
    let r2 = seq!['-'] + two_digits(m2) + seq!['-'] + two_digits(d2);
    let s = date_text(y1, m1, d1);
    assert(s =~= t1 + r1);
    assert(date_text(y2, m2, d2) =~= t2 + r2);
    assert(r1.len() == 6 && r2.len() == 6);
    assert(t1.len() == t2.len());
    assert(t1 =~= s.take(t1.len() as int));
    assert(t2 =~= s.take(t1.len() as int));
    lemma_year_text_value(y1);
    lemma_year_text_value(y2);
    assert(r1 =~= s.skip(t1.len() as int));
    assert(r2 =~= s.skip(t1.len() as int));
    assert(r1[1] == r2[1] && r1[2] == r2[2] && r1[4] == r2[4] && r1[5] == r2[5]);
    assert(digit_char(m1 / 10) as int == 48 + m1 / 10);
    assert(digit_char(m2 / 10) as int == 48 + m2 / 10);
    assert(digit_char(m1 % 10) as int == 48 + m1 % 10);
    assert(digit_char(m2 % 10) as int == 48 + m2 % 10);
    assert(digit_char(d1 / 10) as int == 48 + d1 / 10);
    assert(digit_char(d2 / 10) as int == 48 + d2 / 10);
    assert(digit_char(d1 % 10) as int == 48 + d1 % 10);
    assert(digit_char(d2 % 10) as int == 48 + d2 % 10);
}

/// Pieces of text joined one after the other.
pub open spec fn joined(p: Seq<Seq<char>>) -> Seq<char>
    decreases p.len(),
{
    if p.len() == 0 {
        Seq::empty()
    } else {
        joined(p.drop_last()) + p.last()
    }
}

/// Piece `k` of joined pieces stands right after the pieces before it.
proof fn lemma_joined_piece(p: Seq<Seq<char>>, k: int)
    requires
        0 <= k < p.len(),
    ensures
        joined(p.take(k)).len() + p[k].len() <= joined(p).len(),
        joined(p).subrange(joined(p.take(k)).len() as int, joined(p.take(k)).len() + p[k].len() as int) == p[k],
    decreases p.len(),
{
    let q = p.drop_last();
    if k == p.len() - 1 {
        assert(p.take(k) =~= q);
        assert(joined(p).subrange(joined(q).len() as int, joined(q).len() + p[k].len() as int) =~= p[k]);
    } else {
        lemma_joined_piece(q, k);
        assert(q.take(k) =~= p.take(k));
        let a = joined(q.take(k)).len() as int;
        assert(joined(p).subrange(a, a + p[k].len() as int) =~= joined(q).subrange(a, a + q[k].len() as int));
    }
}

/// The first characters of a cell padded on the right are the text.
proof fn lemma_pad_right_front(s: Seq<char>, w: nat)
    requires
        s.len() <= w,
    ensures
        pad_right(s, w).len() == w,
        pad_right(s, w).subrange(0, s.len() as int) == s,
{
    assert(pad_right(s, w).subrange(0, s.len() as int) =~= s);
}

/// The last characters of a cell padded on the left are the text.
proof fn lemma_pad_left_back(s: Seq<char>, w: nat)
    requires
        s.len() <= w,
    ensures
        pad_left(s, w).len() == w,
        pad_left(s, w).subrange(w - s.len(), w as int) == s,
{
    assert(pad_left(s, w).subrange(w - s.len(), w as int) =~= s);
}

/// The text of a listed id: the id's digits, or `-` where there is none.
pub open spec fn shown_id(id: Option<i64>) -> Seq<char> {
    match id {
        Some(i) => int_text(i as int),
        None => "-"@,
    }
}

/// Where piece `k` of two joined lists stands at `off`, its characters are
/// those of the joined text from `off`.
proof fn lemma_piece_at(p: Seq<Seq<char>>, k: int, off: int)
    requires
        0 <= k < p.len(),
        joined(p.take(k)).len() == off,
    ensures
        off + p[k].len() <= joined(p).len(),
        forall|a: int, b: int|
            0 <= a <= b <= p[k].len() ==> #[trigger] joined(p).subrange(off + a, off + b) == p[k].subrange(a, b),
{
    lemma_joined_piece(p, k);
    let j = joined(p);
    assert forall|a: int, b: int| 0 <= a <= b <= p[k].len() implies #[trigger] j.subrange(off + a, off + b)
        == p[k].subrange(a, b) by {
        assert(j.subrange(off + a, off + b) =~= j.subrange(off, off + p[k].len()).subrange(a, b));
    }
}

/// The lengths of the first pieces of a listed row or of the header.
proof fn lemma_listing_offsets(p: Seq<Seq<char>>)
    requires
        p.len() == 11,
        p[0].len() == 6,
        p[1].len() == 2,
        p[2].len() == 12,
        p[3].len() == 2,
        p[4].len() == 10,
        p[5].len() == 2,
        p[6].len() == 14,
        p[7].len() == 2,
        p[8].len() == 16,
        p[9].len() == 2,
        p[10].len() == 40,
    ensures
        joined(p.take(0)).len() == 0,
        joined(p.take(2)).len() == 8,
        joined(p.take(4)).len() == 22,
        joined(p.take(6)).len() == 34,
        joined(p.take(8)).len() == 50,
        joined(p.take(10)).len() == 68,
        joined(p).len() == 108,
{
    reveal_with_fuel(joined, 12);
    assert(p.take(0) =~= Seq::<Seq<char>>::empty());
    assert(p.take(2).drop_last() =~= p.take(1));
    assert(p.take(1).drop_last() =~= p.take(0));
    assert(p.take(4).drop_last() =~= p.take(3));
    assert(p.take(3).drop_last() =~= p.take(2));
    assert(p.take(6).drop_last() =~= p.take(5));
    assert(p.take(5).drop_last() =~= p.take(4));
    assert(p.take(8).drop_last() =~= p.take(7));
    assert(p.take(7).drop_last() =~= p.take(6));
    assert(p.take(10).drop_last() =~= p.take(9));
    assert(p.take(9).drop_last() =~= p.take(8));
    assert(p.drop_last() =~= p.take(10));
}

/// Reads each cell of a listed row and of the header at its offset.
proof fn lemma_listing_cells(p: Seq<Seq<char>>, h: Seq<Seq<char>>, t: Transaction)
    requires
        p.len() == 11,
        h.len() == 11,
        forall|k: int| 0 <= k < 11 ==> (#[trigger] p[k]).len() == h[k].len(),
        h[0].len() == 6,
        h[1].len() == 2,
        h[2].len() == 12,
        h[3].len() == 2,
        h[4].len() == 10,
        h[5].len() == 2,
        h[6].len() == 14,
        h[7].len() == 2,
        h[8].len() == 16,
        h[9].len() == 2,
        h[10].len() == 40,
    ensures
        joined(p).len() == joined(h).len(),
        forall|a: int, b: int| 0 <= a <= b <= 6 ==> #[trigger] joined(p).subrange(a, b) == p[0].subrange(a, b),
        forall|a: int, b: int| 0 <= a <= b <= 12 ==> #[trigger] joined(p).subrange(8 + a, 8 + b) == p[2].subrange(a, b),
        forall|a: int, b: int| 0 <= a <= b <= 10 ==> #[trigger] joined(p).subrange(22 + a, 22 + b) == p[4].subrange(a, b),
        forall|a: int, b: int| 0 <= a <= b <= 14 ==> #[trigger] joined(p).subrange(34 + a, 34 + b) == p[6].subrange(a, b),
        forall|a: int, b: int| 0 <= a <= b <= 16 ==> #[trigger] joined(p).subrange(50 + a, 50 + b) == p[8].subrange(a, b),
        forall|a: int, b: int| 0 <= a <= b <= 40 ==> #[trigger] joined(p).subrange(68 + a, 68 + b) == p[10].subrange(a, b),
        forall|a: int, b: int| 0 <= a <= b <= 6 ==> #[trigger] joined(h).subrange(a, b) == h[0].subrange(a, b),
        forall|a: int, b: int| 0 <= a <= b <= 12 ==> #[trigger] joined(h).subrange(8 + a, 8 + b) == h[2].subrange(a, b),
        forall|a: int, b: int| 0 <= a <= b <= 10 ==> #[trigger] joined(h).subrange(22 + a, 22 + b) == h[4].subrange(a, b),
        forall|a: int, b: int| 0 <= a <= b <= 14 ==> #[trigger] joined(h).subrange(34 + a, 34 + b) == h[6].subrange(a, b),
        forall|a: int, b: int| 0 <= a <= b <= 16 ==> #[trigger] joined(h).subrange(50 + a, 50 + b) == h[8].subrange(a, b),
        forall|a: int, b: int| 0 <= a <= b <= 40 ==> #[trigger] joined(h).subrange(68 + a, 68 + b) == h[10].subrange(a, b),
{
    assert(p[0].len() == 6 && p[1].len() == 2 && p[2].len() == 12 && p[3].len() == 2 && p[4].len() == 10);
    assert(p[5].len() == 2 && p[6].len() == 14 && p[7].len() == 2 && p[8].len() == 16 && p[9].len() == 2);
    assert(p[10].len() == 40);
    lemma_listing_offsets(p);
    lemma_listing_offsets(h);
    lemma_piece_at(p, 0, 0);
    lemma_piece_at(p, 2, 8);
    lemma_piece_at(p, 4, 22);
    lemma_piece_at(p, 6, 34);
    lemma_piece_at(p, 8, 50);
    lemma_piece_at(p, 10, 68);
    lemma_piece_at(h, 0, 0);
    lemma_piece_at(h, 2, 8);
    lemma_piece_at(h, 4, 22);
    lemma_piece_at(h, 6, 34);
    lemma_piece_at(h, 8, 50);
    lemma_piece_at(h, 10, 68);
    assert forall|a: int, b: int| 0 <= a <= b <= 6 implies #[trigger] joined(p).subrange(a, b) == p[0].subrange(a, b) by {
        assert(joined(p).subrange(0 + a, 0 + b) == p[0].subrange(a, b));
    }
    assert forall|a: int, b: int| 0 <= a <= b <= 6 implies #[trigger] joined(h).subrange(a, b) == h[0].subrange(a, b) by {
        assert(joined(h).subrange(0 + a, 0 + b) == h[0].subrange(a, b));
    }
}

/// Where each value fits its column, every cell of a listed row starts
/// where its header does: the id and the date at the left of their columns,
/// the type's lower-case name, the amount with a sign and two decimals
/// ending where its header ends, the category, and the first 40 characters
/// of the description; a row is as long as the header.
pub proof fn law_listing_columns(t: Transaction)
    requires
        shown_id(t.id).len() <= 6,
        0 <= t.date.y() <= 9999,
        valid_ymd(t.date.y(), t.date.m(), t.date.d()),
        decimal_display(t.amount.m(), t.amount.s(), Some(2), true).len() <= 14,
        t.category@.len() <= 16,
    ensures
        table_row(t).len() == table_header().len(),
        table_row(t).subrange(0, shown_id(t.id).len() as int) == shown_id(t.id),
        table_header().subrange(0, 2) == "ID"@,
        table_row(t).subrange(8, 18) == date_text(t.date.y(), t.date.m(), t.date.d()),
        table_header().subrange(8, 12) == "Date"@,
        table_row(t).subrange(22, 22 + lower_name(t.tx_type).len() as int) == lower_name(t.tx_type),
        table_header().subrange(22, 26) == "Type"@,
        ({
            let a = decimal_display(t.amount.m(), t.amount.s(), Some(2), true);
            table_row(t).subrange(48 - a.len(), 48) == a
        }),
        ({
            let a = decimal_display(t.amount.m(), t.amount.s(), Some(2), true);
            hundredths_value(table_row(t).subrange(48 - a.len(), 48)) == hundredths(t.amount.m(), t.amount.s())
        }),
        table_header().subrange(36, 48) == "Amount (MAD)"@,
        table_row(t).subrange(50, 50 + t.category@.len() as int) == t.category@,
        table_header().subrange(50, 58) == "Category"@,
        ({
            let n: int = if t.description@.len() <= 40 { t.description@.len() as int } else { 40 };
            table_row(t).subrange(68, 68 + n) == t.description@.take(n)
        }),
        table_header().subrange(68, 79) == "Description"@,
{
    reveal_strlit("  ");
    reveal_strlit("ID");
    reveal_strlit("Date");
    reveal_strlit("Type");
    reveal_strlit("Amount (MAD)");
    reveal_strlit("Category");
    reveal_strlit("Description");
    reveal_strlit("income");
    reveal_strlit("expense");
    reveal_strlit("-");
    reveal_with_fuel(joined, 12);
    let id = shown_id(t.id);
    let date = date_text(t.date.y(), t.date.m(), t.date.d());
    let ty = tx_type_text(t.tx_type);
    let amt = decimal_display(t.amount.m(), t.amount.s(), Some(2), true);
    let cat = t.category@;
    let desc = truncate(t.description@, 40);
    assert(lower_name(t.tx_type) == ty);
    assert(date.len() == 10) by {
        crate::laws::lemma_four_digits(t.date.y());
        assert(year_text(t.date.y()).len() == 4);
    }
    let g = gap();
    let p = seq![
        pad_right(id, 6),
        g,
        pad_right(date, 12),
        g,
        pad_right(ty, 10),
        g,
        pad_left(amt, 14),
        g,
        pad_right(cat, 16),
        g,
        pad_right(desc, 40),
    ];
    let h = seq![
        pad_right("ID"@, 6),
        g,
        pad_right("Date"@, 12),
        g,
        pad_right("Type"@, 10),
        g,
        pad_left("Amount (MAD)"@, 14),
        g,
        pad_right("Category"@, 16),
        g,
        pad_right("Description"@, 40),
    ];
    assert(id_text(t.id) == id);
    assert(table_row(t) =~= joined(p));
    assert(table_header() =~= joined(h));
    lemma_pad_right_front(id, 6);
    lemma_pad_right_front(date, 12);
    lemma_pad_right_front(ty, 10);
    lemma_pad_left_back(amt, 14);
    lemma_pad_right_front(cat, 16);
    lemma_pad_right_front(desc, 40);
    lemma_pad_right_front("ID"@, 6);
    lemma_pad_right_front("Date"@, 12);
    lemma_pad_right_front("Type"@, 10);
    lemma_pad_left_back("Amount (MAD)"@, 14);
    lemma_pad_right_front("Category"@, 16);
    lemma_pad_right_front("Description"@, 40);
    lemma_listing_cells(p, h, t);
    lemma_scale_nonnegative(t.amount);
    law_amount_text_reads_back(t.amount.m(), t.amount.s(), true);
    assert(table_row(t).subrange(48 - amt.len(), 48) == amt) by {
        assert(joined(p).subrange(34 + (14 - amt.len() as int), 34 + 14int) == p[6].subrange(14 - amt.len() as int, 14));
    }
}

/// Digits joined: the front's number shifted by the back's length, plus the
/// back's number.
proof fn lemma_digits_value_concat(x: Seq<char>, y: Seq<char>)
    ensures
        digits_value(x + y) == digits_value(x) * pow10(y.len()) + digits_value(y),
    decreases y.len(),
{
    if y.len() == 0 {
        assert(x + y =~= x);
        assert(pow10(0) == 1);
        assert(digits_value(y) == 0);
    } else {
        lemma_digits_value_concat(x, y.drop_last());
        assert(digits_value(x + y) == digits_value((x + y).drop_last()) * 10 + ((x + y).last() as int - 48));
        assert(digits_value(y) == digits_value(y.drop_last()) * 10 + (y.last() as int - 48));
        assert((x + y).drop_last() =~= x + y.drop_last());
        assert((x + y).last() == y.last());
        let p = pow10(y.drop_last().len());
        assert(pow10(y.len()) == 10 * p);
        assert((digits_value(x) * p + digits_value(y.drop_last())) * 10 + (y.last() as int - 48) == digits_value(x)
            * (10 * p) + (digits_value(y.drop_last()) * 10 + (y.last() as int - 48))) by (nonlinear_arith);
    }
}

/// Digits write a number below 10 to the power of their count.
proof fn lemma_digits_value_bound(x: Seq<char>)
    requires
        all_digits(x),
    ensures
        0 <= digits_value(x) < pow10(x.len()),
    decreases x.len(),
{
    if x.len() > 0 {
        let q = x.drop_last();
        assert(all_digits(q)) by {
            assert forall|i: int| 0 <= i < q.len() implies '0' <= #[trigger] q[i] <= '9' by {
                assert(q[i] == x[i]);
            }
        }
        lemma_digits_value_bound(q);
        assert('0' <= x[x.len() - 1] <= '9');
        let v = digits_value(q);
        let p = pow10(q.len());
        assert(pow10(x.len()) == 10 * p);
        assert(v * 10 + (x.last() as int - 48) < 10 * p) by (nonlinear_arith)
            requires
                0 <= v < p,
                0 <= x.last() as int - 48 <= 9,
        ;
    }
}

/// The first `k` digits write the number divided by 10 to the power of the
/// digits left out.
proof fn lemma_digits_value_take(d: Seq<char>, k: int)
    requires
        all_digits(d),
        0 <= k <= d.len(),
    ensures
        digits_value(d.take(k)) == digits_value(d) / (pow10((d.len() - k) as nat) as int),
{
    let front = d.take(k);
    let back = d.skip(k);
    assert(d =~= front + back);
    lemma_digits_value_concat(front, back);
    assert(all_digits(back)) by {
        assert forall|i: int| 0 <= i < back.len() implies '0' <= #[trigger] back[i] <= '9' by {
            assert(back[i] == d[k + i]);
        }
    }
    lemma_digits_value_bound(back);
    lemma_pow10_positive(back.len());
    vstd::arithmetic::div_mod::lemma_fundamental_div_mod_converse(
        digits_value(d),
        pow10(back.len()) as int,
        digits_value(front),
        digits_value(back),
    );
}

/// The number, in hundredths, that a decimal of mantissa `m` and scale
/// `scale` shows with two decimals: the digits after the second decimal are
/// cut off (towards zero).
pub open spec fn hundredths(m: int, scale: int) -> int {
    if scale >= 2 {
        if m >= 0 {
            m / (pow10((scale - 2) as nat) as int)
        } else {
            -((-m) / (pow10((scale - 2) as nat) as int))
        }
    } else {
        m * pow10((2 - scale) as nat)
    }
}

/// The digits of an unsigned text with two decimals, without its point.
pub open spec fn unpointed(u: Seq<char>) -> Seq<char> {
    u.take(u.len() - 3) + u.skip(u.len() - 2)
}

/// The number, in hundredths, that a text with an optional sign, digits, a
/// point and two decimals writes.
pub open spec fn hundredths_value(t: Seq<char>) -> int {
    if t.len() > 0 && t[0] == '-' {
        -digits_value(unpointed(t.drop_first()))
    } else if t.len() > 0 && t[0] == '+' {
        digits_value(unpointed(t.drop_first()))
    } else {
        digits_value(unpointed(t))
    }
}

/// Removing the point of `front.fs` with two decimals `fs` gives
/// `front` then `fs`.
proof fn lemma_unpointed(front: Seq<char>, fs: Seq<char>)
    requires
        fs.len() == 2,
    ensures
        unpointed(front + seq!['.'] + fs) == front + fs,
{
    let u = front + seq!['.'] + fs;
    assert(u.take(u.len() - 3) =~= front);
    assert(u.skip(u.len() - 2) =~= fs);
}

/// Zeros write zero, and the digits of a number padded with zeros on the
/// left are all digits.
proof fn lemma_padded_digits(a: nat, w: nat)
    ensures
        all_digits(zero_pad_left(digits(a), w)),
        digits_value(zero_pad_left(digits(a), w)) == a,
        zero_pad_left(digits(a), w).len() >= w,
{
    lemma_digits_value(a);
    let d = digits(a);
    if d.len() < w {
        let z = repeat_char('0', (w - d.len()) as nat);
        lemma_leading_zeros((w - d.len()) as nat, d);
        assert forall|i: int| 0 <= i < (z + d).len() implies '0' <= #[trigger] (z + d)[i] <= '9' by {
            if i < z.len() {
                assert((z + d)[i] == '0');
            } else {
                assert((z + d)[i] == d[i - z.len()]);
            }
        }
    }
}

/// The text of an amount with two decimals reads back as the amount cut to
/// hundredths; it starts with `-` exactly for a negative amount and with
/// `+` exactly where a sign is asked for a non-negative one, and its point
/// stands before the last two digits.
pub proof fn law_amount_text_reads_back(m: int, scale: int, plus: bool)
    requires
        0 <= scale,
    ensures
        hundredths_value(decimal_display(m, scale, Some(2), plus)) == hundredths(m, scale),
        (decimal_display(m, scale, Some(2), plus)[0] == '-') == (m < 0),
        (decimal_display(m, scale, Some(2), plus)[0] == '+') == (m >= 0 && plus),
        decimal_display(m, scale, Some(2), plus)[decimal_display(m, scale, Some(2), plus).len() - 3] == '.',
{
    let a: nat = if m < 0 {
        (-m) as nat
    } else {
        m as nat
    };
    assert(a == crate::amount::abs(m));
    lemma_padded_digits(a, scale as nat);
    let d = zero_pad_left(digits(a), scale as nat);
    let whole = d.len() - scale;
    let frac = d.subrange(whole, d.len() as int);
    let fs = if 2 <= frac.len() {
        frac.take(2)
    } else {
        frac + repeat_char('0', (2 - frac.len()) as nat)
    };
    let front = if whole == 0 {
        seq!['0']
    } else {
        d.take(whole)
    };
    let body = front + (seq!['.'] + fs);
    let sign = if m < 0 {
        seq!['-']
    } else if plus {
        seq!['+']
    } else {
        Seq::<char>::empty()
    };
    let t = decimal_display(m, scale, Some(2), plus);
    assert(t == sign + body);
    assert(fs.len() == 2);
    assert(body =~= front + seq!['.'] + fs);
    lemma_unpointed(front, fs);
    assert('0' <= front[0] <= '9') by {
        if whole != 0 {
            assert(front[0] == d[0]);
        }
    }
    assert(body[0] == front[0]);
    assert(body[body.len() - 3] == '.');
    lemma_digits_value_concat(front, fs);
    assert(digits_value(seq!['0']) == 0) by {
        assert(seq!['0'].drop_last() =~= Seq::<char>::empty());
        assert(digits_value(Seq::<char>::empty()) == 0);
        assert(('0' as int) == 48);
        assert(seq!['0'].last() == '0');
    }
    // The number written by the digits without the point.
    let v = digits_value(front + fs);
    if scale >= 2 {
        let k = whole + 2;
        lemma_digits_value_take(d, k);
        assert(d.take(k) =~= d.take(whole) + frac.take(2));
        if whole == 0 {
            lemma_digits_value_concat(d.take(0), frac.take(2));
            assert(d.take(0) =~= Seq::<char>::empty());
            assert(digits_value(Seq::<char>::empty()) == 0);
        } else {
            lemma_digits_value_concat(d.take(whole), frac.take(2));
        }
        assert(v == (a as int) / (pow10((scale - 2) as nat) as int));
    } else {
        let z = repeat_char('0', (2 - frac.len()) as nat);
        lemma_zeros_value((2 - frac.len()) as nat);
        lemma_digits_value_concat(d, z);
        assert(d =~= d.take(whole) + frac);
        lemma_digits_value_concat(d.take(whole), frac);
        lemma_digits_value_concat(frac, z);
        if whole == 0 {
            assert(d.take(whole) =~= Seq::<char>::empty());
            assert(digits_value(Seq::<char>::empty()) == 0);
        }
        assert(pow10((2 - scale) as nat) == pow10(z.len()));
        assert(frac.len() == scale);
        let pz = pow10(z.len());
        let pf = pow10(frac.len());
        crate::laws::lemma_pow10_add(frac.len(), z.len());
        assert(v == (digits_value(d.take(whole)) * pf + digits_value(frac)) * pz) by (nonlinear_arith)
            requires
                v == digits_value(front) * pow10(fs.len()) + digits_value(fs),
                digits_value(fs) == digits_value(frac) * pz + 0,
                fs == frac + z,
                digits_value(front) == digits_value(d.take(whole)),
                pow10(fs.len()) == pf * pz,
        ;
        assert(v == a * pow10((2 - scale) as nat));
        assert(m < 0 ==> -v == m * pow10((2 - scale) as nat)) by (nonlinear_arith)
            requires
                v == a * pow10((2 - scale) as nat),
                m < 0 ==> a == -m,
        ;
        assert(m >= 0 ==> v == m * pow10((2 - scale) as nat));
    }
    assert(digits_value(unpointed(body)) == v);
    if m < 0 {
        assert((sign + body).drop_first() =~= body);
        assert((sign + body)[0] == '-');
    } else if plus {
        assert((sign + body).drop_first() =~= body);
        assert((sign + body)[0] == '+');
    } else {
        assert(sign + body =~= body);
    }
}

/// A labelled line: the label, the text, then ` MAD`.
proof fn lemma_labelled_line(label: Seq<char>, x: Seq<char>)
    requires
        label.len() == 19,
        x.len() > 0,
    ensures
        ({
            let l = label + x + " MAD"@;
            &&& l.take(19) == label
            &&& l.skip(l.len() - 4) == " MAD"@
            &&& l.subrange(19, l.len() - 4) == x
            &&& l[19] == x[0]
        }),
{
    reveal_strlit(" MAD");
    let l = label + x + " MAD"@;
    assert(l.take(19) =~= label);
    assert(l.skip(l.len() - 4) =~= " MAD"@);
    assert(l.subrange(19, l.len() - 4) =~= x);
}

/// The amount lines of the export summary: after its label, each line
/// shows the report's total income, total expenses and balance, which read
/// back as those amounts cut to hundredths, followed by ` MAD`; income and
/// balance always carry a sign.
pub proof fn law_summary_totals(r: Report)
    ensures
        ({
            let l = export_summary_lines(r);
            &&& l.len() == 5
            &&& l[1].take(19) == "  Total income   : "@ && l[1].skip(l[1].len() - 4) == " MAD"@
            &&& hundredths_value(l[1].subrange(19, l[1].len() - 4)) == hundredths(r.total_income.m(), r.total_income.s())
            &&& (l[1][19] == '-' || l[1][19] == '+')
            &&& l[2].take(19) == "  Total expenses : "@ && l[2].skip(l[2].len() - 4) == " MAD"@
            &&& hundredths_value(l[2].subrange(19, l[2].len() - 4)) == hundredths(
                r.total_expenses.m(),
                r.total_expenses.s(),
            )
            &&& l[3].take(19) == "  Balance        : "@ && l[3].skip(l[3].len() - 4) == " MAD"@
            &&& hundredths_value(l[3].subrange(19, l[3].len() - 4)) == hundredths(r.balance.m(), r.balance.s())
            &&& (l[3][19] == '-' || l[3][19] == '+')
        }),
{
    reveal_strlit("  Total income   : ");
    reveal_strlit("  Total expenses : ");
    reveal_strlit("  Balance        : ");
    lemma_scale_nonnegative(r.total_income);
    lemma_scale_nonnegative(r.total_expenses);
    lemma_scale_nonnegative(r.balance);
    let ti = decimal_display(r.total_income.m(), r.total_income.s(), Some(2), true);
    let te = decimal_display(r.total_expenses.m(), r.total_expenses.s(), Some(2), false);
    let tb = decimal_display(r.balance.m(), r.balance.s(), Some(2), true);
    law_amount_text_reads_back(r.total_income.m(), r.total_income.s(), true);
    law_amount_text_reads_back(r.total_expenses.m(), r.total_expenses.s(), false);
    law_amount_text_reads_back(r.balance.m(), r.balance.s(), true);
    lemma_labelled_line("  Total income   : "@, ti);
    lemma_labelled_line("  Total expenses : "@, te);
    lemma_labelled_line("  Balance        : "@, tb);
}

/// Each data record of a report's CSV file, read as RFC 4180 describes,
/// holds its recorded transaction: the id, which reads back as the id; the
/// type's lower-case name; the category and the description unchanged; the
/// amount, which reads back as the amount cut to hundredths; and the date.
pub proof fn law_csv_records_hold_transactions(r: Report, txs: Seq<Transaction>)
    requires
        is_report_of(r, txs),
        dates_valid(txs),
    ensures
        csv_records(csv_text(r.transactions@)).len() == recorded(txs).len() + 1,
        forall|i: int|
            0 <= i < recorded(txs).len() ==> {
                let rec = #[trigger] csv_records(csv_text(r.transactions@))[i + 1];
                let t = recorded(txs)[i];
                &&& rec.len() == 6
                &&& t.id == Some(decimal_value(rec[0]) as i64)
                &&& decimal_value(rec[0]) == r.transactions@[i].id
                &&& rec[1] == lower_name(t.tx_type)
                &&& rec[2] == t.category@
                &&& hundredths_value(rec[3]) == hundredths(t.amount.m(), t.amount.s())
                &&& rec[4] == date_text(t.date.y(), t.date.m(), t.date.d())
                &&& rec[5] == t.description@
            },
{
    law_report_csv_read_back(r, txs);
    law_report_rows_keep_transactions(txs, r);
    reveal_strlit("income");
    reveal_strlit("expense");
    let rows = r.transactions@;
    let recs = csv_records(csv_text(rows));
    assert forall|i: int| 0 <= i < recorded(txs).len() implies {
        let rec = #[trigger] csv_records(csv_text(r.transactions@))[i + 1];
        let t = recorded(txs)[i];
        &&& rec.len() == 6
        &&& t.id == Some(decimal_value(rec[0]) as i64)
        &&& decimal_value(rec[0]) == r.transactions@[i].id
        &&& rec[1] == lower_name(t.tx_type)
        &&& rec[2] == t.category@
        &&& hundredths_value(rec[3]) == hundredths(t.amount.m(), t.amount.s())
        &&& rec[4] == date_text(t.date.y(), t.date.m(), t.date.d())
        &&& rec[5] == t.description@
    } by {
        let row = rows[i];
        assert(recs[i + 1] == csv_fields(row));
        law_int_text_reads_back(row.id as int);
        lemma_scale_nonnegative(row.amount);
        law_amount_text_reads_back(row.amount.m(), row.amount.s(), false);
        assert(row_of(row, recorded(txs)[i]));
    }
}

/// Where no sum needs rounding, the report's totals are the sums of the
/// amounts of the transactions that carry an id, incomes and expenses apart;
/// each breakdown entry is the sum of the recorded expenses of its category;
/// and the entries go from the largest value to the smallest.
pub proof fn law_totals_are_sums(txs: Seq<Transaction>, r: Report)
    requires
        amounts_valid(txs),
        no_rounding(txs),
        is_report_of(r, txs),
    ensures
        r.total_income.units() == weight(txs, kind_weight(TransactionType::Income)),
        r.total_expenses.units() == weight(txs, kind_weight(TransactionType::Expense)),
        r.balance.units() == weight(txs, kind_weight(TransactionType::Income)) - weight(
            txs,
            kind_weight(TransactionType::Expense),
        ),
        forall|i: int|
            0 <= i < r.category_breakdown@.len() ==> (#[trigger] r.category_breakdown@[i]).amount.units() == weight(
                txs,
                category_weight(r.category_breakdown@[i].category@),
            ),
        forall|i: int, j: int|
            0 <= i < j < r.category_breakdown@.len() ==> (#[trigger] r.category_breakdown@[i]).amount.units() >= (
            #[trigger] r.category_breakdown@[j]).amount.units(),
{
    broadcast use vstd::seq_lib::group_to_multiset_ensures;

    law_report_sums(txs, r);
    lemma_units_sum_weight(txs, TransactionType::Income);
    lemma_units_sum_weight(txs, TransactionType::Expense);
    let v = breakdown_view(r.category_breakdown@);
    assert forall|i: int, j: int| 0 <= i < j < r.category_breakdown@.len() implies (
    #[trigger] r.category_breakdown@[i]).amount.units() >= (#[trigger] r.category_breakdown@[j]).amount.units() by {
        assert(units_of(v[i].1) >= units_of(v[j].1));
    }
    if r.total_expenses.m() != 0 {
        lemma_category_weights(txs);
        let c = category_totals(txs).unwrap();
        assert forall|i: int| 0 <= i < r.category_breakdown@.len() implies (
        #[trigger] r.category_breakdown@[i]).amount.units() == weight(
            txs,
            category_weight(r.category_breakdown@[i].category@),
        ) by {
            let e = v[i];
            assert(v.contains(e));
            assert(v.to_multiset().count(e) > 0);
            assert(c.contains(e));
            let k = choose|k: int| 0 <= k < c.len() && c[k] == e;
            assert(units_of(c[k].1) == weight(txs, category_weight(c[k].0)));
        }
    }
}

/// The lines of a listing: a notice alone where there is nothing to list;
/// otherwise the header, the rule, then one row per transaction, in the
/// order of the list.
pub proof fn law_listing_rows_in_order(txs: Seq<Transaction>)
    ensures
        txs.len() == 0 ==> table_lines(txs) == seq!["No transactions found."@],
        txs.len() > 0 ==> table_lines(txs).len() == txs.len() + 2 && table_lines(txs)[0] == table_header()
            && table_lines(txs)[1] == table_rule(),
        forall|k: int| 0 <= k < txs.len() ==> #[trigger] table_lines(txs)[k + 2] == table_row(txs[k]),
{
    assert forall|k: int| 0 <= k < txs.len() implies #[trigger] table_lines(txs)[k + 2] == table_row(txs[k]) by {
        let rows = txs.map_values(|t: Transaction| table_row(t));
        assert(table_lines(txs) == seq![table_header(), table_rule()] + rows);
        assert(table_lines(txs)[k + 2] == rows[k]);
    }
}

} // verus!
