//! How transactions are kept in the SQL store: the text columns written for
//! a transaction, the transaction read back from them, and the query that
//! selects transactions by date, type and category.

use vstd::prelude::*;
use crate::amount::{amount_text, decimal_display, decimal_from_str, parse_amount, valid_parts};
use crate::date::{date_to_string, naive_date_parse, parse_date, valid_ymd, Date};
use crate::kinds::{parse_tx_type, tx_type_text, TransactionType};
use crate::models::Transaction;
use crate::text::string_of;

verus! {

/// The text columns of a stored transaction (all but the id).
pub struct TransactionRow {
    pub tx_type: String,
    pub amount: String,
    pub category: String,
    pub description: String,
    pub date: String,
}

/// The texts of the columns of a row.
pub open spec fn row_texts(row: TransactionRow) -> (Seq<char>, Seq<char>, Seq<char>, Seq<char>, Seq<char>) {
    (row.tx_type@, row.amount@, row.category@, row.description@, row.date@)
}

/// The texts stored for transaction `t`: its type's name, its amount as
/// `Decimal` prints it, its category, its description and its date as
/// `YYYY-MM-DD`.
pub open spec fn stored_texts(t: Transaction) -> (Seq<char>, Seq<char>, Seq<char>, Seq<char>, Seq<char>) {
    (
        tx_type_text(t.tx_type),
        decimal_display(t.amount.m(), t.amount.s(), None, false),
        t.category@,
        t.description@,
        t.date.text(),
    )
}

/// The columns written for a transaction.
pub fn transaction_row(t: &Transaction) -> (r: TransactionRow)
    ensures
        row_texts(r) == stored_texts(*t),
{
    TransactionRow {
        tx_type: t.tx_type.to_string(),
        amount: amount_text(&t.amount),
        category: t.category.clone(),
        description: t.description.clone(),
        date: date_to_string(&t.date),
    }
}

/// Why a stored row does not make a transaction.
#[derive(Debug)]
pub enum RowError {
    /// The type column names no transaction type.
    InvalidTxType(String),
    /// The amount column is no decimal; the text of the parse error.
    InvalidAmount(String),
    /// The date column is no `YYYY-MM-DD` date; the text of the parse error.
    InvalidDate(String),
}

impl RowError {
    /// The message: `Invalid tx_type: `, `Invalid amount: ` or
    /// `Invalid date format: ` followed by the cause.
    pub fn message(&self) -> (r: String)
        ensures
            r@ == row_error_message(*self),
    {
        match self {
            RowError::InvalidTxType(e) => {
                let mut r = string_of("Invalid tx_type: ");
                r.append(e.as_str());
                r
            },
            RowError::InvalidAmount(e) => {
                let mut r = string_of("Invalid amount: ");
                r.append(e.as_str());
                r
            },
            RowError::InvalidDate(e) => {
                let mut r = string_of("Invalid date format: ");
                r.append(e.as_str());
                r
            },
        }
    }
}

/// The message of a row error.
pub open spec fn row_error_message(e: RowError) -> Seq<char> {
    match e {
        RowError::InvalidTxType(c) => "Invalid tx_type: "@ + c@,
        RowError::InvalidAmount(c) => "Invalid amount: "@ + c@,
        RowError::InvalidDate(c) => "Invalid date format: "@ + c@,
    }
}

/// The text of the error of a transaction type that matches no variant.
pub open spec fn no_variant_text() -> Seq<char> {
    "Matching variant not found"@
}

/// The transaction read from row `row` with id `id`: the type, then the
/// amount, then the date are parsed, and the first that fails gives the
/// error.
pub open spec fn row_reads_as(id: i64, row: TransactionRow, r: Result<Transaction, RowError>) -> bool {
    match parse_tx_type(row.tx_type@) {
        None => r matches Err(RowError::InvalidTxType(e)) && e@ == no_variant_text(),
        Some(kind) => match decimal_from_str(row.amount@) {
            Err(msg) => r matches Err(RowError::InvalidAmount(e)) && e@ == msg,
            Ok(parts) => match naive_date_parse(row.date@) {
                Err(msg) => r matches Err(RowError::InvalidDate(e)) && e@ == msg,
                Ok(ymd) => r matches Ok(t) && {
                    &&& t.id == Some(id)
                    &&& t.tx_type == kind
                    &&& t.amount.pair() == parts
                    &&& t.category@ == row.category@
                    &&& t.description@ == row.description@
                    &&& (t.date.y(), t.date.m(), t.date.d()) == ymd
                },
            },
        },
    }
}

/// Transaction `t` with id `id`.
pub open spec fn same_transaction(x: Transaction, t: Transaction, id: i64) -> bool {
    &&& x.id == Some(id)
    &&& x.tx_type == t.tx_type
    &&& x.amount.pair() == t.amount.pair()
    &&& x.category@ == t.category@
    &&& x.description@ == t.description@
    &&& x.date.y() == t.date.y()
    &&& x.date.m() == t.date.m()
    &&& x.date.d() == t.date.d()
}

/// Reads a transaction back from its id and its stored columns. The columns
/// that `transaction_row` writes for a transaction read back as that
/// transaction, with the id.
pub fn transaction_from_row(id: i64, row: &TransactionRow) -> (r: Result<Transaction, RowError>)
    ensures
        row_reads_as(id, *row, r),
        forall|t: Transaction|
            valid_parts(t.amount.m(), t.amount.s()) && valid_ymd(t.date.y(), t.date.m(), t.date.d())
                && #[trigger] stored_texts(t) == row_texts(*row) ==> (r matches Ok(x) && same_transaction(x, t, id)),
{
    proof {
        reveal_strlit("income");
        reveal_strlit("expense");
        assert forall|t: Transaction| #[trigger] stored_texts(t) == row_texts(*row) implies parse_tx_type(
            row.tx_type@,
        ) == Some(t.tx_type) by {
            crate::kinds::lemma_tx_type_text_round_trip(t.tx_type);
        }
    }
    let tx_type = match TransactionType::parse(row.tx_type.as_str()) {
        Some(k) => k,
        None => {
            return Err(RowError::InvalidTxType(string_of("Matching variant not found")));
        },
    };
    let amount = match parse_amount(row.amount.as_str()) {
        Ok(a) => a,
        Err(e) => {
            return Err(RowError::InvalidAmount(e));
        },
    };
    let date = match parse_date(row.date.as_str()) {
        Ok(d) => d,
        Err(e) => {
            return Err(RowError::InvalidDate(e));
        },
    };
    Ok(Transaction {
        id: Some(id),
        tx_type,
        amount,
        category: row.category.clone(),
        description: row.description.clone(),
        date,
    })
}

/// The query that selects transactions, and the values of its `?`
/// placeholders in order.
pub struct TransactionQuery {
    pub sql: String,
    pub params: Vec<String>,
}

/// The text that a query starts with.
pub open spec fn base_query() -> Seq<char> {
    "SELECT id, tx_type, amount, category, description, date \n             FROM transactions \n             WHERE 1=1"@
}

/// `text` where `present` holds, else nothing.
pub open spec fn when(present: bool, text: Seq<char>) -> Seq<char> {
    if present {
        text
    } else {
        Seq::empty()
    }
}

/// Whether a category filter is given: a category that is not empty.
pub open spec fn filters_category(category: Option<String>) -> bool {
    category matches Some(c) && c@.len() > 0
}

/// The SQL text of the query with the given filters.
pub open spec fn query_text(from: bool, to: bool, has_type: bool, has_category: bool) -> Seq<char> {
    base_query() + when(from, " AND date >= ?"@) + when(to, " AND date <= ?"@) + when(
        has_type,
        " AND tx_type = ?"@,
    ) + when(has_category, " AND category = ?"@) + " ORDER BY date DESC"@
}

/// The values of the placeholders: the start date, the end date, the type's
/// name and the category, each where it filters.
pub open spec fn query_params(
    from: Option<Date>,
    to: Option<Date>,
    tx_type: Option<TransactionType>,
    category: Option<String>,
) -> Seq<Seq<char>> {
    (match from {
        Some(d) => seq![d.text()],
        None => Seq::empty(),
    }) + (match to {
        Some(d) => seq![d.text()],
        None => Seq::empty(),
    }) + (match tx_type {
        Some(t) => seq![tx_type_text(t)],
        None => Seq::empty(),
    }) + (if filters_category(category) {
        seq![category.unwrap()@]
    } else {
        Seq::empty()
    })
}

/// The number of times `c` occurs in `s`.
pub open spec fn count_char(s: Seq<char>, c: char) -> nat
    decreases s.len(),
{
    if s.len() == 0 {
        0
    } else {
        count_char(s.drop_last(), c) + if s.last() == c {
            1nat
        } else {
            0nat
        }
    }
}

/// The texts of a list of strings.
pub open spec fn texts(v: Seq<String>) -> Seq<Seq<char>> {
    v.map_values(|s: String| s@)
}

/// The query that selects the transactions dated from `from` to `to`
/// (both included, where given), of type `tx_type` and of category
/// `category` (where given and not empty), latest first.
pub fn transactions_query(
    from: Option<Date>,
    to: Option<Date>,
    tx_type: Option<TransactionType>,
    category: Option<String>,
) -> (r: TransactionQuery)
    ensures
        r.sql@ == query_text(from is Some, to is Some, tx_type is Some, filters_category(category)),
        texts(r.params@) == query_params(from, to, tx_type, category),
{
    let mut sql = string_of(
        "SELECT id, tx_type, amount, category, description, date \n             FROM transactions \n             WHERE 1=1",
    );
    let mut params: Vec<String> = Vec::new();
    match from {
        Some(d) => {
            sql.append(" AND date >= ?");
            params.push(date_to_string(&d));
        },
        None => {},
    }
    assert(texts(params@) =~= (match from {
        Some(d) => seq![d.text()],
        None => Seq::<Seq<char>>::empty(),
    }));
    let ghost p1 = texts(params@);
    match to {
        Some(d) => {
            sql.append(" AND date <= ?");
            params.push(date_to_string(&d));
        },
        None => {},
    }
    assert(texts(params@) =~= p1 + (match to {
        Some(d) => seq![d.text()],
        None => Seq::<Seq<char>>::empty(),
    }));
    let ghost p2 = texts(params@);
    match tx_type {
        Some(t) => {
            sql.append(" AND tx_type = ?");
            params.push(t.to_string());
        },
        None => {},
    }
    assert(texts(params@) =~= p2 + (match tx_type {
        Some(t) => seq![tx_type_text(t)],
        None => Seq::<Seq<char>>::empty(),
    }));
    let ghost p3 = texts(params@);
    match category {
        Some(c) => {
            if !c.as_str().is_empty() {
                sql.append(" AND category = ?");
                params.push(c);
            }
        },
        None => {},
    }
    assert(texts(params@) =~= p3 + (if filters_category(category) {
        seq![category.unwrap()@]
    } else {
        Seq::<Seq<char>>::empty()
    }));
    sql.append(" ORDER BY date DESC");
    assert(sql@ =~= query_text(from is Some, to is Some, tx_type is Some, filters_category(category)));
    TransactionQuery { sql, params }
}

/// Counting over a concatenation adds the counts.
pub proof fn lemma_count_char_append(a: Seq<char>, b: Seq<char>, c: char)
    ensures
        count_char(a + b, c) == count_char(a, c) + count_char(b, c),
    decreases b.len(),
{
    if b.len() == 0 {
        assert(a + b =~= a);
    } else {
        lemma_count_char_append(a, b.drop_last(), c);
        assert((a + b).drop_last() =~= a + b.drop_last());
    }
}

/// A text that ends with `?` and holds no other `?`.
proof fn lemma_count_one_at_end(s: Seq<char>)
    requires
        s.len() > 0,
        s.last() == '?',
        forall|i: int| 0 <= i < s.len() - 1 ==> s[i] != '?',
    ensures
        count_char(s, '?') == 1,
{
    lemma_count_none(s.drop_last());
}

/// A text without `?`.
proof fn lemma_count_none(s: Seq<char>)
    requires
        forall|i: int| 0 <= i < s.len() ==> s[i] != '?',
    ensures
        count_char(s, '?') == 0,
    decreases s.len(),
{
    if s.len() > 0 {
        lemma_count_none(s.drop_last());
    }
}

/// The query has one `?` placeholder for each parameter.
pub proof fn law_query_placeholders(
    from: Option<Date>,
    to: Option<Date>,
    tx_type: Option<TransactionType>,
    category: Option<String>,
)
    ensures
        count_char(query_text(from is Some, to is Some, tx_type is Some, filters_category(category)), '?')
            == query_params(from, to, tx_type, category).len(),
{
    reveal_strlit("SELECT id, tx_type, amount, category, description, date \n             FROM transactions \n             WHERE 1=1");
    reveal_strlit(" AND date >= ?");
    reveal_strlit(" AND date <= ?");
    reveal_strlit(" AND tx_type = ?");
    reveal_strlit(" AND category = ?");
    reveal_strlit(" ORDER BY date DESC");
    let q = '?';
    lemma_count_none(base_query());
    lemma_count_none(" ORDER BY date DESC"@);
    lemma_count_none(Seq::<char>::empty());
    lemma_count_one_at_end(" AND date >= ?"@);
    lemma_count_one_at_end(" AND date <= ?"@);
    lemma_count_one_at_end(" AND tx_type = ?"@);
    lemma_count_one_at_end(" AND category = ?"@);
    let a = base_query();
    let b = when(from is Some, " AND date >= ?"@);
    let c = when(to is Some, " AND date <= ?"@);
    let d = when(tx_type is Some, " AND tx_type = ?"@);
    let e = when(filters_category(category), " AND category = ?"@);
    let f = " ORDER BY date DESC"@;
    lemma_count_char_append(a, b, q);
    lemma_count_char_append(a + b, c, q);
    lemma_count_char_append(a + b + c, d, q);
    lemma_count_char_append(a + b + c + d, e, q);
    lemma_count_char_append(a + b + c + d + e, f, q);
}

} // verus!
