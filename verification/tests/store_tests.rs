use std::str::FromStr;

use chrono::NaiveDate;
use rust_decimal::Decimal;

use dirhamly::amount::Amount;
use dirhamly::date::Date;
use dirhamly::kinds::TransactionType;
use dirhamly::models::Transaction;
use dirhamly::store::{transaction_from_row, transaction_row, transactions_query, RowError, TransactionRow};

fn sample() -> Transaction {
    Transaction::new(
        TransactionType::Expense,
        Amount::new(25050, 2).unwrap(),
        "Food".to_string(),
        "Groceries \"bio\"".to_string(),
        Date::from_ymd(2025, 4, 12).unwrap(),
    )
}

fn row(kind: &str, amount: &str, date: &str) -> TransactionRow {
    TransactionRow {
        tx_type: kind.to_string(),
        amount: amount.to_string(),
        category: "Food".to_string(),
        description: "Lunch".to_string(),
        date: date.to_string(),
    }
}

#[test]
fn new_transaction_has_no_id() {
    let t = sample();
    assert_eq!(t.id, None);
    assert_eq!(t.tx_type, TransactionType::Expense);
    assert_eq!(t.category, "Food");
}

#[test]
fn stored_columns_are_texts() {
    let r = transaction_row(&sample());
    assert_eq!(r.tx_type, "expense");
    assert_eq!(r.amount, "250.50");
    assert_eq!(r.category, "Food");
    assert_eq!(r.description, "Groceries \"bio\"");
    assert_eq!(r.date, "2025-04-12");
}

#[test]
fn stored_columns_match_the_outside_texts() {
    let t = sample();
    let r = transaction_row(&t);
    assert_eq!(r.amount, Decimal::from_i128_with_scale(25050, 2).to_string());
    assert_eq!(r.date, NaiveDate::from_ymd_opt(2025, 4, 12).unwrap().to_string());
}

#[test]
fn stored_row_reads_back_as_the_transaction() {
    let t = sample();
    let back = transaction_from_row(42, &transaction_row(&t)).unwrap();
    assert_eq!(back.id, Some(42));
    assert_eq!(back.tx_type, t.tx_type);
    assert_eq!((back.amount.mantissa(), back.amount.scale()), (25050, 2));
    assert_eq!(back.category, t.category);
    assert_eq!(back.description, t.description);
    assert_eq!((back.date.year(), back.date.month(), back.date.day()), (2025, 4, 12));
}

#[test]
fn stored_row_round_trip_keeps_negative_and_small_amounts() {
    for (m, s) in [(-1234i128, 3u32), (0, 0), (5, 28), (7, 0)] {
        let mut t = sample();
        t.amount = Amount::new(m, s).unwrap();
        t.date = Date::from_ymd(-44, 3, 15).unwrap();
        let back = transaction_from_row(1, &transaction_row(&t)).unwrap();
        assert_eq!((back.amount.mantissa(), back.amount.scale()), (m, s));
        assert_eq!((back.date.year(), back.date.month(), back.date.day()), (-44, 3, 15));
    }
}

#[test]
fn row_type_is_read_ignoring_case() {
    let t = transaction_from_row(1, &row("INCOME", "10", "2024-02-29")).unwrap();
    assert_eq!(t.tx_type, TransactionType::Income);
    assert_eq!((t.amount.mantissa(), t.amount.scale()), (10, 0));
}

#[test]
fn row_with_unknown_type_is_refused() {
    match transaction_from_row(1, &row("transfer", "10", "2024-02-29")) {
        Err(e) => {
            assert!(matches!(e, RowError::InvalidTxType(_)));
            assert_eq!(e.message(), "Invalid tx_type: Matching variant not found");
        },
        Ok(_) => panic!("accepted an unknown type"),
    }
}

#[test]
fn row_with_bad_amount_is_refused() {
    match transaction_from_row(1, &row("income", "12x", "2024-02-29")) {
        Err(RowError::InvalidAmount(e)) => {
            assert_eq!(e, Decimal::from_str("12x").unwrap_err().to_string());
        },
        _ => panic!("accepted a bad amount"),
    }
}

#[test]
fn row_with_bad_date_is_refused() {
    match transaction_from_row(1, &row("income", "12", "2023-02-29")) {
        Err(e) => {
            let cause = NaiveDate::parse_from_str("2023-02-29", "%Y-%m-%d").unwrap_err().to_string();
            assert_eq!(e.message(), format!("Invalid date format: {}", cause));
        },
        Ok(_) => panic!("accepted a bad date"),
    }
}

#[test]
fn row_errors_come_in_order_type_amount_date() {
    assert!(matches!(transaction_from_row(1, &row("x", "y", "z")), Err(RowError::InvalidTxType(_))));
    assert!(matches!(transaction_from_row(1, &row("expense", "y", "z")), Err(RowError::InvalidAmount(_))));
    assert!(matches!(transaction_from_row(1, &row("expense", "1", "z")), Err(RowError::InvalidDate(_))));
}

const BASE: &str = "SELECT id, tx_type, amount, category, description, date \n             FROM transactions \n             WHERE 1=1";

#[test]
fn query_without_filters() {
    let q = transactions_query(None, None, None, None);
    assert_eq!(q.sql, format!("{} ORDER BY date DESC", BASE));
    assert!(q.params.is_empty());
}

#[test]
fn query_with_every_filter() {
    let q = transactions_query(
        Date::from_ymd(2025, 1, 1),
        Date::from_ymd(2025, 12, 31),
        Some(TransactionType::Expense),
        Some("Food".to_string()),
    );
    assert_eq!(
        q.sql,
        format!(
            "{} AND date >= ? AND date <= ? AND tx_type = ? AND category = ? ORDER BY date DESC",
            BASE
        )
    );
    assert_eq!(q.params, vec!["2025-01-01", "2025-12-31", "expense", "Food"]);
    assert_eq!(q.sql.matches('?').count(), q.params.len());
}

#[test]
fn query_ignores_an_empty_category() {
    let q = transactions_query(None, Date::from_ymd(2025, 6, 30), None, Some(String::new()));
    assert_eq!(q.sql, format!("{} AND date <= ? ORDER BY date DESC", BASE));
    assert_eq!(q.params, vec!["2025-06-30"]);
}

#[test]
fn stored_dates_sort_as_dates() {
    let dates = [(2024, 12, 31), (2025, 1, 1), (2025, 1, 10), (2025, 2, 1), (999, 5, 5), (0, 1, 1)];
    for a in dates {
        for b in dates {
            let ta = transactions_query(Date::from_ymd(a.0, a.1, a.2), None, None, None).params[0].clone();
            let tb = transactions_query(Date::from_ymd(b.0, b.1, b.2), None, None, None).params[0].clone();
            assert_eq!(ta < tb, a < b, "{} {}", ta, tb);
        }
    }
}

#[test]
fn stored_dates_beyond_year_9999_carry_a_sign() {
    let q = transactions_query(Date::from_ymd(10000, 1, 1), Date::from_ymd(-1, 12, 31), None, None);
    assert_eq!(q.params, vec!["+10000-01-01", "-0001-12-31"]);
}

#[test]
fn stored_row_round_trip_keeps_the_extreme_years() {
    for (y, m, d) in [(10000, 1, 1), (262142, 12, 31), (-262143, 1, 1), (0, 2, 29)] {
        let mut t = sample();
        t.date = Date::from_ymd(y, m, d).unwrap();
        t.amount = Amount::new(79228162514264337593543950335, 0).unwrap();
        let back = transaction_from_row(7, &transaction_row(&t)).unwrap();
        assert_eq!((back.date.year(), back.date.month(), back.date.day()), (y, m, d));
        assert_eq!((back.amount.mantissa(), back.amount.scale()), (79228162514264337593543950335, 0));
    }
}
