//! Account operations, as they appear in the input history.
use vstd::prelude::*;

verus! {

/// The kind of an account operation. The set is closed.
#[derive(Debug, Clone, Copy, PartialEq, Eq, Structural)]
pub enum OperationType {
    /// Credits the client's available funds and is retained for later disputes.
    Deposit,
    /// Debits the client's available funds, if they suffice.
    Withdrawal,
    /// Contests an earlier deposit.
    Dispute,
    /// Withdraws a dispute.
    Resolve,
    /// Settles a dispute against the client.
    Chargeback,
}

/// One row of the input history.
///
/// `amount` counts units of 1/10,000 of a currency unit. It is meaningful for
/// deposits and withdrawals only; the other kinds carry `0` when the row had no
/// amount, and the ledger never consults it for them.
#[derive(Debug, Clone, Copy, PartialEq, Eq, Structural)]
pub struct Operation {
    pub type_: OperationType,
    pub client: u16,
    pub tx_id: u32,
    pub amount: i64,
}

impl Operation {
    /// A deposit of `amount` into the account of `client`, known as `tx_id`.
    pub fn deposit(client: u16, tx_id: u32, amount: i64) -> (op: Operation)
        ensures
            op == (Operation { type_: OperationType::Deposit, client, tx_id, amount }),
    {
        Operation { type_: OperationType::Deposit, client, tx_id, amount }
    }

    /// A withdrawal of `amount` from the account of `client`.
    pub fn withdrawal(client: u16, tx_id: u32, amount: i64) -> (op: Operation)
        ensures
            op == (Operation { type_: OperationType::Withdrawal, client, tx_id, amount }),
    {
        Operation { type_: OperationType::Withdrawal, client, tx_id, amount }
    }

    /// A dispute of the deposit `tx_id` of `client`.
    pub fn dispute(client: u16, tx_id: u32) -> (op: Operation)
        ensures
            op == (Operation { type_: OperationType::Dispute, client, tx_id, amount: 0 }),
    {
        Operation { type_: OperationType::Dispute, client, tx_id, amount: 0 }
    }

    /// The resolution of the dispute of deposit `tx_id` of `client`.
    pub fn resolve(client: u16, tx_id: u32) -> (op: Operation)
        ensures
            op == (Operation { type_: OperationType::Resolve, client, tx_id, amount: 0 }),
    {
        Operation { type_: OperationType::Resolve, client, tx_id, amount: 0 }
    }

    /// The chargeback of the disputed deposit `tx_id` of `client`.
    pub fn chargeback(client: u16, tx_id: u32) -> (op: Operation)
        ensures
            op == (Operation { type_: OperationType::Chargeback, client, tx_id, amount: 0 }),
    {
        Operation { type_: OperationType::Chargeback, client, tx_id, amount: 0 }
    }
}

} // verus!
