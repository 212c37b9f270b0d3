use rust_decimal::Decimal;
use dirhamly::amount::Amount;
use dirhamly::date::Date;
use dirhamly::kinds::TransactionType;
use dirhamly::models::Transaction;
use dirhamly::report::{generate_report, try_generate_report, Report};

fn amount(m: i128, s: u32) -> Amount {
    Amount::new(m, s).unwrap()
}

fn date(y: i32, m: u32, d: u32) -> Date {
    Date::from_ymd(y, m, d).unwrap()
}

fn tx(id: Option<i64>, kind: TransactionType, m: i128, s: u32, category: &str, description: &str) -> Transaction {
    Transaction {
        id,
        tx_type: kind,
        amount: amount(m, s),
        category: category.to_string(),
        description: description.to_string(),
        date: date(2025, 4, 12),
    }
}

fn parts(a: &Amount) -> (i128, u32) {
    (a.mantissa(), a.scale())
}

fn sample() -> Vec<Transaction> {
    vec![
        tx(Some(1), TransactionType::Income, 100000, 2, "Salary", "April pay"),
        tx(Some(2), TransactionType::Expense, 25050, 2, "Food", "Groceries"),
        tx(None, TransactionType::Expense, 99, 0, "Food", "Not stored"),
        tx(Some(3), TransactionType::Expense, 10025, 2, "Rent", "Room"),
        tx(Some(4), TransactionType::Expense, 4950, 2, "Food", "Market"),
    ]
}

#[test]
fn report_totals_and_balance() {
    let r = generate_report(&sample());
    assert_eq!(parts(&r.total_income), (100000, 2));
    assert_eq!(parts(&r.total_expenses), (40025, 2));
    assert_eq!(parts(&r.balance), (59975, 2));
}

#[test]
fn report_skips_transactions_without_id() {
    let r = generate_report(&sample());
    assert_eq!(r.transaction_count, 4);
    let ids: Vec<i64> = r.transactions.iter().map(|t| t.id).collect();
    assert_eq!(ids, vec![1, 2, 3, 4]);
}

#[test]
fn report_rows_hold_texts() {
    let r = generate_report(&sample());
    let row = &r.transactions[1];
    assert_eq!(row.tx_type, "expense");
    assert_eq!(row.category, "Food");
    assert_eq!(row.description, "Groceries");
    assert_eq!(row.date, "2025-04-12");
    assert_eq!(parts(&row.amount), (25050, 2));
    assert_eq!(r.transactions[0].tx_type, "income");
}

#[test]
fn report_breakdown_by_category_largest_first() {
    let r = generate_report(&sample());
    let cats: Vec<(String, (i128, u32))> =
        r.category_breakdown.iter().map(|c| (c.category.clone(), parts(&c.amount))).collect();
    assert_eq!(cats, vec![("Food".to_string(), (30000, 2)), ("Rent".to_string(), (10025, 2))]);
}

#[test]
fn report_breakdown_sums_to_total_expenses() {
    let r = generate_report(&sample());
    let mut sum: i128 = 0;
    for c in &r.category_breakdown {
        assert_eq!(c.amount.scale(), 2);
        sum += c.amount.mantissa();
    }
    assert_eq!(sum, r.total_expenses.mantissa());
}

#[test]
fn report_of_nothing_is_zero() {
    let r: Report = generate_report(&[]);
    assert_eq!(parts(&r.total_income), (0, 0));
    assert_eq!(parts(&r.total_expenses), (0, 0));
    assert_eq!(parts(&r.balance), (0, 0));
    assert_eq!(r.transaction_count, 0);
    assert!(r.transactions.is_empty());
    assert!(r.category_breakdown.is_empty());
}

#[test]
fn report_without_expenses_has_no_breakdown() {
    let txs = vec![tx(Some(1), TransactionType::Income, 5, 0, "Gift", "")];
    let r = generate_report(&txs);
    assert_eq!(parts(&r.total_income), (5, 0));
    assert_eq!(parts(&r.balance), (5, 0));
    assert!(r.category_breakdown.is_empty());
}

#[test]
fn report_with_zero_expenses_has_no_breakdown() {
    let txs = vec![tx(Some(1), TransactionType::Expense, 0, 2, "Food", "")];
    let r = generate_report(&txs);
    assert_eq!(r.total_expenses.mantissa(), 0);
    assert!(r.category_breakdown.is_empty());
    assert_eq!(r.transaction_count, 1);
}

#[test]
fn report_sums_at_the_larger_scale() {
    let txs = vec![
        tx(Some(1), TransactionType::Expense, 15, 1, "A", ""),
        tx(Some(2), TransactionType::Expense, 225, 2, "A", ""),
    ];
    let r = generate_report(&txs);
    assert_eq!(parts(&r.total_expenses), (375, 2));
    assert_eq!(parts(&r.balance), (-375, 2));
    assert_eq!(parts(&r.category_breakdown[0].amount), (375, 2));
}

#[test]
fn report_negative_expense_lowers_the_total() {
    let txs = vec![
        tx(Some(1), TransactionType::Expense, 10, 0, "Food", ""),
        tx(Some(2), TransactionType::Expense, -4, 0, "Refund", ""),
    ];
    let r = generate_report(&txs);
    assert_eq!(parts(&r.total_expenses), (6, 0));
    let cats: Vec<(String, i128)> =
        r.category_breakdown.iter().map(|c| (c.category.clone(), c.amount.mantissa())).collect();
    assert_eq!(cats, vec![("Food".to_string(), 10), ("Refund".to_string(), -4)]);
}

#[test]
fn report_equal_category_totals_keep_first_seen_order() {
    let txs = vec![
        tx(Some(1), TransactionType::Expense, 7, 0, "B", ""),
        tx(Some(2), TransactionType::Expense, 7, 0, "A", ""),
        tx(Some(3), TransactionType::Expense, 9, 0, "C", ""),
    ];
    let r = generate_report(&txs);
    let cats: Vec<String> = r.category_breakdown.iter().map(|c| c.category.clone()).collect();
    assert_eq!(cats, vec!["C".to_string(), "B".to_string(), "A".to_string()]);
}

#[test]
fn try_report_gives_the_same_report() {
    let a = try_generate_report(&sample()).unwrap();
    let b = generate_report(&sample());
    assert_eq!(parts(&a.total_income), parts(&b.total_income));
    assert_eq!(parts(&a.total_expenses), parts(&b.total_expenses));
    assert_eq!(parts(&a.balance), parts(&b.balance));
    assert_eq!(a.transaction_count, b.transaction_count);
}

#[test]
fn try_report_refuses_an_overflowing_sum() {
    let big = dirhamly::amount::MAX_MANTISSA;
    let txs = vec![
        tx(Some(1), TransactionType::Income, big, 0, "Lottery", ""),
        tx(Some(2), TransactionType::Income, big, 0, "Lottery", ""),
    ];
    assert!(try_generate_report(&txs).is_none());
}

#[test]
fn try_report_refuses_an_overflowing_balance() {
    let big = dirhamly::amount::MAX_MANTISSA;
    let txs = vec![
        tx(Some(1), TransactionType::Income, big, 0, "Lottery", ""),
        tx(Some(2), TransactionType::Expense, -big, 0, "Refund", ""),
    ];
    assert!(try_generate_report(&txs).is_none());
}

#[test]
fn try_report_accepts_a_rounded_sum() {
    let big = dirhamly::amount::MAX_MANTISSA;
    let txs = vec![
        tx(Some(1), TransactionType::Income, big, 1, "Lottery", ""),
        tx(Some(2), TransactionType::Income, big, 1, "Lottery", ""),
    ];
    let r = try_generate_report(&txs).unwrap();
    assert_eq!(r.total_income.scale(), 0);
}

#[test]
fn report_breakdown_shares_in_percent() {
    let r = generate_report(&sample());
    let expenses = Decimal::from_i128_with_scale(40025, 2);
    for c in &r.category_breakdown {
        let amount = Decimal::from_i128_with_scale(c.amount.mantissa(), c.amount.scale());
        let expected = (amount / expenses) * Decimal::from_i128_with_scale(100, 0);
        assert_eq!(Decimal::from_i128_with_scale(c.percentage.mantissa(), c.percentage.scale()), expected);
    }
    assert!(r.category_breakdown[0].percentage.mantissa() > 0);
}

#[test]
fn report_single_category_is_all_of_the_expenses() {
    let txs = vec![tx(Some(1), TransactionType::Expense, 25, 1, "Food", "")];
    let r = generate_report(&txs);
    let p = &r.category_breakdown[0].percentage;
    assert_eq!((p.mantissa(), p.scale()), (100, 0));
}

fn value(a: &Amount) -> Decimal {
    Decimal::from_i128_with_scale(a.mantissa(), a.scale())
}

/// The rows of a report as plain values.
fn rows(r: &Report) -> Vec<(i64, String, String, String, (i128, u32), String)> {
    r.transactions
        .iter()
        .map(|t| (t.id, t.tx_type.clone(), t.category.clone(), t.description.clone(), parts(&t.amount), t.date.clone()))
        .collect()
}

/// The breakdown of a report as (category, value), sorted by category.
fn breakdown(r: &Report) -> Vec<(String, Decimal)> {
    let mut v: Vec<(String, Decimal)> =
        r.category_breakdown.iter().map(|c| (c.category.clone(), value(&c.amount))).collect();
    v.sort();
    v
}

#[test]
fn transaction_without_id_changes_nothing_wherever_inserted() {
    let base = sample();
    let a = generate_report(&base);
    let extra = tx(None, TransactionType::Income, 777777, 1, "Gift", "Never stored");
    for k in 0..=base.len() {
        let mut more = sample();
        more.insert(k, tx(None, TransactionType::Income, 777777, 1, "Gift", "Never stored"));
        let b = generate_report(&more);
        assert_eq!(parts(&a.total_income), parts(&b.total_income));
        assert_eq!(parts(&a.total_expenses), parts(&b.total_expenses));
        assert_eq!(parts(&a.balance), parts(&b.balance));
        assert_eq!(a.transaction_count, b.transaction_count);
        assert_eq!(rows(&a), rows(&b));
        assert_eq!(breakdown(&a), breakdown(&b));
    }
    assert_eq!(extra.id, None);
}

#[test]
fn report_does_not_depend_on_the_order_of_transactions() {
    let a = generate_report(&sample());
    let mut reversed = sample();
    reversed.reverse();
    let mut rotated = sample();
    rotated.rotate_left(2);
    for other in [reversed, rotated] {
        let b = generate_report(&other);
        assert_eq!(value(&a.total_income), value(&b.total_income));
        assert_eq!(value(&a.total_expenses), value(&b.total_expenses));
        assert_eq!(value(&a.balance), value(&b.balance));
        assert_eq!(a.transaction_count, b.transaction_count);
        let mut ra = rows(&a);
        let mut rb = rows(&b);
        ra.sort();
        rb.sort();
        assert_eq!(ra, rb);
        assert_eq!(breakdown(&a), breakdown(&b));
    }
}

fn txd(id: Option<i64>, kind: TransactionType, m: i128, s: u32, category: &str) -> Transaction {
    tx(id, kind, m, s, category, "")
}

#[test]
fn worked_example_with_shares() {
    let txs = vec![
        txd(Some(1), TransactionType::Income, 100, 0, "Salary"),
        txd(Some(2), TransactionType::Expense, 30, 0, "Food"),
        txd(Some(3), TransactionType::Expense, 10, 0, "Rent"),
        txd(None, TransactionType::Expense, 5, 0, "Misc"),
    ];
    let r = try_generate_report(&txs).expect("no sum rounds and no expense is negative");
    assert_eq!(value(&r.total_income), Decimal::from(100));
    assert_eq!(value(&r.total_expenses), Decimal::from(40));
    assert_eq!(value(&r.balance), Decimal::from(60));
    assert_eq!(r.transaction_count, 3);
    assert_eq!(r.transactions.iter().map(|t| t.id).collect::<Vec<_>>(), vec![1, 2, 3]);
    let shares: Vec<(String, Decimal, Decimal)> = r
        .category_breakdown
        .iter()
        .map(|c| (c.category.clone(), value(&c.amount), value(&c.percentage)))
        .collect();
    assert_eq!(
        shares,
        vec![
            ("Food".to_string(), Decimal::from(30), Decimal::from(75)),
            ("Rent".to_string(), Decimal::from(10), Decimal::from(25)),
        ]
    );
    let expected = (Decimal::from(30) / Decimal::from(40)) * Decimal::from(100);
    assert_eq!(parts(&r.category_breakdown[0].percentage), (expected.mantissa(), expected.scale()));
}

#[test]
fn order_matters_where_a_sum_rounds() {
    let big_first = vec![
        txd(Some(1), TransactionType::Income, 9, 0, "Salary"),
        txd(Some(2), TransactionType::Income, 5, 28, "Tip"),
        txd(Some(3), TransactionType::Income, 5, 28, "Tip"),
    ];
    let big_last = vec![
        txd(Some(2), TransactionType::Income, 5, 28, "Tip"),
        txd(Some(3), TransactionType::Income, 5, 28, "Tip"),
        txd(Some(1), TransactionType::Income, 9, 0, "Salary"),
    ];
    let a = generate_report(&big_first);
    let b = generate_report(&big_last);
    let mut expected_a = Decimal::ZERO;
    for t in &big_first {
        expected_a += value(&t.amount);
    }
    let mut expected_b = Decimal::ZERO;
    for t in &big_last {
        expected_b += value(&t.amount);
    }
    assert_eq!(value(&a.total_income), expected_a);
    assert_eq!(value(&b.total_income), expected_b);
    assert_ne!(value(&a.total_income), value(&b.total_income));
}
