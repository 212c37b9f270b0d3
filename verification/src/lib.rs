//! Dirhamly: the verified core of a small personal-finance ledger.
//!
//! Amounts are decimal numbers kept as a mantissa and a scale, dates are
//! proleptic Gregorian calendar dates, and a report sums incomes and
//! expenses and breaks the expenses down by category.

pub mod amount;
pub mod text;
pub mod date;
pub mod kinds;
pub mod models;
pub mod report;
pub mod laws;
pub mod invariance;
pub mod store;
pub mod format;
pub mod csv_read;
pub mod fidelity;
