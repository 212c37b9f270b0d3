//! The kinds of transaction, the export formats and the arguments of a
//! removal, with their texts.

use vstd::prelude::*;
use crate::text::{eq_ignore_ascii_case, equal_ignoring_ascii_case, string_of};

verus! {

/// Whether a transaction brings money in or takes it out.
#[derive(Clone, Copy, PartialEq, Eq, Structural, Debug)]
pub enum TransactionType {
    Income,
    Expense,
}

/// The lower-case name of a transaction type.
pub open spec fn tx_type_text(t: TransactionType) -> Seq<char> {
    match t {
        TransactionType::Income => "income"@,
        TransactionType::Expense => "expense"@,
    }
}

/// The transaction type that a text names, ignoring ASCII case.
pub open spec fn parse_tx_type(s: Seq<char>) -> Option<TransactionType> {
    if eq_ignore_ascii_case(s, "income"@) {
        Some(TransactionType::Income)
    } else if eq_ignore_ascii_case(s, "expense"@) {
        Some(TransactionType::Expense)
    } else {
        None
    }
}

impl TransactionType {
    /// The lower-case name: `income` or `expense`.
    pub fn to_string(&self) -> (r: String)
        ensures
            r@ == tx_type_text(*self),
    {
        match self {
            TransactionType::Income => string_of("income"),
            TransactionType::Expense => string_of("expense"),
        }
    }

    /// The transaction type named by `s`, whatever its ASCII case; `None`
    /// where `s` names none.
    pub fn parse(s: &str) -> (r: Option<TransactionType>)
        ensures
            r == parse_tx_type(s@),
    {
        if equal_ignoring_ascii_case(s, "income") {
            Some(TransactionType::Income)
        } else if equal_ignoring_ascii_case(s, "expense") {
            Some(TransactionType::Expense)
        } else {
            None
        }
    }
}

/// The format of an export.
#[derive(Clone, Copy, PartialEq, Eq, Structural, Debug)]
pub enum ExportFormat {
    Csv,
    Pdf,
}

/// The lower-case name of an export format.
pub open spec fn export_format_text(f: ExportFormat) -> Seq<char> {
    match f {
        ExportFormat::Csv => "csv"@,
        ExportFormat::Pdf => "pdf"@,
    }
}

/// The export format that a text names exactly.
pub open spec fn parse_export_format(s: Seq<char>) -> Option<ExportFormat> {
    if s == "csv"@ {
        Some(ExportFormat::Csv)
    } else if s == "pdf"@ {
        Some(ExportFormat::Pdf)
    } else {
        None
    }
}

impl ExportFormat {
    /// The lower-case name: `csv` or `pdf`.
    pub fn to_string(&self) -> (r: String)
        ensures
            r@ == export_format_text(*self),
    {
        match self {
            ExportFormat::Csv => string_of("csv"),
            ExportFormat::Pdf => string_of("pdf"),
        }
    }

    /// The export format named by `s` (case matters); `None` where `s` names
    /// none.
    pub fn parse(s: &str) -> (r: Option<ExportFormat>)
        ensures
            r == parse_export_format(s@),
    {
        let owned = string_of(s);
        let csv = string_of("csv");
        let pdf = string_of("pdf");
        if owned == csv {
            Some(ExportFormat::Csv)
        } else if owned == pdf {
            Some(ExportFormat::Pdf)
        } else {
            None
        }
    }
}

/// The arguments of a removal: the id of the transaction to remove.
#[derive(Clone, Copy, PartialEq, Eq, Structural, Debug)]
pub struct RemoveArgs {
    pub id: i64,
}

/// Every transaction type's name parses back to that type.
pub proof fn lemma_tx_type_text_round_trip(t: TransactionType)
    ensures
        parse_tx_type(tx_type_text(t)) == Some(t),
{
    reveal_strlit("income");
    reveal_strlit("expense");
    assert(!eq_ignore_ascii_case("expense"@, "income"@));
}

/// Every export format's name parses back to that format.
pub proof fn lemma_export_format_text_round_trip(f: ExportFormat)
    ensures
        parse_export_format(export_format_text(f)) == Some(f),
{
    reveal_strlit("csv");
    reveal_strlit("pdf");
    assert("pdf"@ != "csv"@) by {
        assert("pdf"@[0] != "csv"@[0]);
    }
}

} // verus!
