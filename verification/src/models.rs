//! A ledger transaction.

use vstd::prelude::*;
use crate::amount::Amount;
use crate::date::Date;
use crate::kinds::TransactionType;

verus! {

/// One income or expense.
pub struct Transaction {
    /// The id that the store gave the transaction (`None` until stored).
    pub id: Option<i64>,
    pub tx_type: TransactionType,
    pub amount: Amount,
    pub category: String,
    pub description: String,
    pub date: Date,
}

impl Transaction {
    /// A transaction that has not been stored yet.
    pub fn new(
        tx_type: TransactionType,
        amount: Amount,
        category: String,
        description: String,
        date: Date,
    ) -> (r: Transaction)
        ensures
            r.id is None,
            r.tx_type == tx_type,
            r.amount == amount,
            r.category == category,
            r.description == description,
            r.date == date,
    {
        Transaction { id: None, tx_type, amount, category, description, date }
    }
}

} // verus!
