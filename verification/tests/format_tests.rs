use chrono::NaiveDate;
use rust_decimal::Decimal;

use dirhamly::amount::Amount;
use dirhamly::date::Date;
use dirhamly::format::{export_summary, format_list, report_csv};
use dirhamly::kinds::TransactionType;
use dirhamly::models::Transaction;
use dirhamly::report::generate_report;

fn tx(id: Option<i64>, kind: TransactionType, m: i128, s: u32, category: &str, description: &str) -> Transaction {
    Transaction {
        id,
        tx_type: kind,
        amount: Amount::new(m, s).unwrap(),
        category: category.to_string(),
        description: description.to_string(),
        date: Date::from_ymd(2025, 4, 12).unwrap(),
    }
}

/// The table line as the `println!` of the listing writes it.
fn listing_line(id: &str, m: i128, s: u32, kind: &str, category: &str, description: &str) -> String {
    let date = NaiveDate::from_ymd_opt(2025, 4, 12).unwrap();
    let amount_str = format!("{:+.2}", Decimal::from_i128_with_scale(m, s));
    format!(
        "{:<6}  {:<12}  {:<10}  {:>14}  {:<16}  {:<40}",
        id,
        date.to_string(),
        kind,
        amount_str,
        category,
        description.chars().take(40).collect::<String>()
    )
}

#[test]
fn listing_of_nothing() {
    assert_eq!(format_list(&[]), vec!["No transactions found.".to_string()]);
}

#[test]
fn listing_header_and_rule() {
    let lines = format_list(&[tx(Some(1), TransactionType::Income, 100000, 2, "Salary", "April pay")]);
    assert_eq!(lines.len(), 3);
    assert_eq!(
        lines[0],
        format!(
            "{:<6}  {:<12}  {:<10}  {:>14}  {:<16}  {:<40}",
            "ID", "Date", "Type", "Amount (MAD)", "Category", "Description"
        )
    );
    assert_eq!(lines[1], "\u{2500}".repeat(109));
}

#[test]
fn listing_rows_match_the_listing_format() {
    let long = "A description that is much longer than forty characters in all";
    let txs = vec![
        tx(Some(1), TransactionType::Income, 100000, 2, "Salary", "April pay"),
        tx(None, TransactionType::Expense, -5, 3, "Food and drinks abroad", long),
        tx(Some(-7), TransactionType::Expense, 123456789, 4, "Rent", "\u{e9}t\u{e9}"),
    ];
    let lines = format_list(&txs);
    assert_eq!(lines[2], listing_line("1", 100000, 2, "income", "Salary", "April pay"));
    assert_eq!(lines[3], listing_line("-", -5, 3, "expense", "Food and drinks abroad", long));
    assert_eq!(lines[4], listing_line("-7", 123456789, 4, "expense", "Rent", "\u{e9}t\u{e9}"));
}

#[test]
fn listing_amount_column() {
    let lines = format_list(&[tx(Some(1), TransactionType::Income, 100000, 2, "Salary", "April pay")]);
    assert!(lines[2].contains("      +1000.00  "));
    assert!(lines[2].starts_with("1       2025-04-12    income      "));
}

#[test]
fn csv_of_a_report() {
    let txs = vec![
        tx(Some(1), TransactionType::Income, 100000, 2, "Salary", "April \"pay\""),
        tx(Some(2), TransactionType::Expense, 25059, 3, "Food, \"fresh\"", "Market"),
    ];
    let report = generate_report(&txs);
    let csv = report_csv(&report);
    let mut expected = String::from("ID,Type,Category,Amount_MAD,Date,Description\n");
    for t in &report.transactions {
        expected.push_str(&format!(
            "{},\"{}\",\"{}\",{:.2},\"{}\",\"{}\"\n",
            t.id,
            t.tx_type,
            t.category.replace('"', "\"\""),
            Decimal::from_i128_with_scale(t.amount.mantissa(), t.amount.scale()),
            t.date,
            t.description.replace('"', "\"\"")
        ));
    }
    assert_eq!(csv, expected);
    assert_eq!(
        csv,
        "ID,Type,Category,Amount_MAD,Date,Description\n1,\"income\",\"Salary\",1000.00,\"2025-04-12\",\"April \"\"pay\"\"\"\n2,\"expense\",\"Food, \"\"fresh\"\"\",25.05,\"2025-04-12\",\"Market\"\n"
    );
}

#[test]
fn csv_of_an_empty_report() {
    let report = generate_report(&[]);
    assert_eq!(report_csv(&report), "ID,Type,Category,Amount_MAD,Date,Description\n");
}

#[test]
fn summary_after_export() {
    let txs = vec![
        tx(Some(1), TransactionType::Income, 100, 0, "Salary", ""),
        tx(Some(2), TransactionType::Expense, 25059, 3, "Food", ""),
    ];
    let report = generate_report(&txs);
    let lines = export_summary(&report);
    assert_eq!(
        lines,
        vec![
            "CSV exported \u{2192} report.csv".to_string(),
            "  Total income   : +100.00 MAD".to_string(),
            "  Total expenses : 25.05 MAD".to_string(),
            "  Balance        : +74.94 MAD".to_string(),
            "  Transactions   : 2".to_string(),
        ]
    );
}

#[test]
fn summary_of_a_negative_balance() {
    let txs = vec![tx(Some(1), TransactionType::Expense, 3, 1, "Food", "")];
    let lines = export_summary(&generate_report(&txs));
    assert_eq!(lines[1], "  Total income   : +0.00 MAD");
    assert_eq!(lines[3], "  Balance        : -0.30 MAD");
}

#[test]
fn listing_columns_start_under_their_headers() {
    let lines = format_list(&[tx(Some(12), TransactionType::Expense, 4250, 2, "Food", "Lunch")]);
    let header = &lines[0];
    let row = &lines[2];
    assert_eq!(row.find("expense"), header.find("Type"));
    assert_eq!(row.find("Food"), header.find("Category"));
    assert_eq!(row.find("Lunch"), header.find("Description"));
    assert_eq!(row.len(), header.len());
}

/// Reads CSV text as RFC 4180 describes it (records ended by `\n`).
fn read_csv(text: &str) -> Vec<Vec<String>> {
    let mut records = Vec::new();
    let mut fields = Vec::new();
    let mut field = String::new();
    let mut chars = text.chars().peekable();
    let mut in_quotes = false;
    while let Some(c) = chars.next() {
        if in_quotes {
            if c == '"' {
                if chars.peek() == Some(&'"') {
                    chars.next();
                    field.push('"');
                } else {
                    in_quotes = false;
                }
            } else {
                field.push(c);
            }
        } else if c == '"' {
            in_quotes = true;
        } else if c == ',' {
            fields.push(std::mem::take(&mut field));
        } else if c == '\n' {
            fields.push(std::mem::take(&mut field));
            records.push(std::mem::take(&mut fields));
        } else {
            field.push(c);
        }
    }
    records
}

#[test]
fn csv_reads_back_field_by_field() {
    let txs = vec![
        tx(Some(1), TransactionType::Income, 100000, 2, "Salary, \"net\"", "April\npay, \"bonus\""),
        tx(None, TransactionType::Expense, 5, 0, "Skipped", "never stored"),
        tx(Some(-2), TransactionType::Expense, -25059, 3, "", "\"\""),
    ];
    let report = generate_report(&txs);
    let records = read_csv(&report_csv(&report));
    let header: Vec<String> =
        ["ID", "Type", "Category", "Amount_MAD", "Date", "Description"].iter().map(|s| s.to_string()).collect();
    assert_eq!(records.len(), 3);
    assert_eq!(records[0], header);
    assert_eq!(records[1], vec!["1", "income", "Salary, \"net\"", "1000.00", "2025-04-12", "April\npay, \"bonus\""]);
    assert_eq!(records[2], vec!["-2", "expense", "", "-25.05", "2025-04-12", "\"\""]);
}
