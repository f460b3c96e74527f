//! Transaction records as the engine consumes them.
use vstd::prelude::*;

verus! {

/// The five kinds of record.
#[derive(Clone, Copy, Debug, PartialEq, Eq, Structural)]
pub enum TransactionCategory {
    Deposit,
    Withdrawal,
    Dispute,
    Resolve,
    Chargeback,
}

impl TransactionCategory {
    /// Deposits and withdrawals move money and carry an amount; the other
    /// three kinds refer back to an earlier transaction.
    pub open spec fn moves_money(self) -> bool {
        self is Deposit || self is Withdrawal
    }
}

/// One record of the input stream. Amounts count ten-thousandths of a
/// currency unit.
#[derive(Clone, Copy, Debug, PartialEq, Eq)]
pub struct Transaction {
    pub category: TransactionCategory,
    pub client_id: u16,
    pub tx: u32,
    pub amount: Option<i64>,
}

impl Transaction {
    /// The record carries an amount exactly if its kind moves money.
    pub open spec fn carries_amount_as_needed(self) -> bool {
        self.category.moves_money() <==> self.amount is Some
    }
}

/// No two deposits or withdrawals share a transaction id.
pub open spec fn ids_are_unique(records: Seq<Transaction>) -> bool {
    forall|i: int, j: int|
        0 <= i < j < records.len() && (#[trigger] records[i]).category.moves_money() && (
        #[trigger] records[j]).category.moves_money() ==> records[i].tx != records[j].tx
}

} // verus!
