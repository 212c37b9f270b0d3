use chrono::NaiveDate;

use dirhamly::date::Date;
use dirhamly::kinds::{ExportFormat, RemoveArgs, TransactionType};

#[test]
fn transaction_type_names() {
    assert_eq!(TransactionType::Income.to_string(), "income");
    assert_eq!(TransactionType::Expense.to_string(), "expense");
}

#[test]
fn transaction_type_parse_ignores_ascii_case() {
    assert_eq!(TransactionType::parse("income"), Some(TransactionType::Income));
    assert_eq!(TransactionType::parse("Income"), Some(TransactionType::Income));
    assert_eq!(TransactionType::parse("EXPENSE"), Some(TransactionType::Expense));
    assert_eq!(TransactionType::parse("expenses"), None);
    assert_eq!(TransactionType::parse(""), None);
}

#[test]
fn transaction_type_round_trip() {
    for t in [TransactionType::Income, TransactionType::Expense] {
        assert_eq!(TransactionType::parse(&t.to_string()), Some(t));
    }
}

#[test]
fn export_format_names_and_parse() {
    assert_eq!(ExportFormat::Csv.to_string(), "csv");
    assert_eq!(ExportFormat::Pdf.to_string(), "pdf");
    assert_eq!(ExportFormat::parse("csv"), Some(ExportFormat::Csv));
    assert_eq!(ExportFormat::parse("pdf"), Some(ExportFormat::Pdf));
    assert_eq!(ExportFormat::parse("PDF"), None);
    for f in [ExportFormat::Csv, ExportFormat::Pdf] {
        assert_eq!(ExportFormat::parse(&f.to_string()), Some(f));
    }
}

#[test]
fn remove_args_hold_the_id() {
    let a = RemoveArgs { id: 12 };
    let b = a;
    assert_eq!(b.id, 12);
    assert_eq!(a, b);
}

#[test]
fn dates_follow_the_gregorian_calendar() {
    assert!(Date::from_ymd(2024, 2, 29).is_some());
    assert!(Date::from_ymd(2023, 2, 29).is_none());
    assert!(Date::from_ymd(1900, 2, 29).is_none());
    assert!(Date::from_ymd(2000, 2, 29).is_some());
    assert!(Date::from_ymd(2025, 4, 31).is_none());
    assert!(Date::from_ymd(2025, 13, 1).is_none());
    assert!(Date::from_ymd(2025, 0, 1).is_none());
    assert!(Date::from_ymd(262142, 12, 31).is_some());
    assert!(Date::from_ymd(262143, 1, 1).is_none());
    assert!(Date::from_ymd(-262143, 1, 1).is_some());
    assert!(Date::from_ymd(-262144, 1, 1).is_none());
    let d = Date::from_ymd(2025, 4, 12).unwrap();
    assert_eq!((d.year(), d.month(), d.day()), (2025, 4, 12));
}

#[test]
fn dates_agree_with_chrono() {
    for (y, m, d) in [(2024, 2, 29), (2023, 2, 29), (-4, 2, 29), (-1, 2, 29), (0, 2, 29), (2100, 2, 29)] {
        assert_eq!(Date::from_ymd(y, m, d).is_some(), NaiveDate::from_ymd_opt(y, m, d).is_some());
    }
}
