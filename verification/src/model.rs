//! The data that the replay works on: transaction kinds, ledger records,
//! accounts, incoming transactions and the outcome of applying one.

use vstd::prelude::*;

use crate::amount::Amount;

verus! {

/// The five kinds of transaction.
#[derive(Clone, Copy, Debug, PartialEq, Eq, Structural)]
pub enum TransactionKind {
    Deposit,
    Withdrawal,
    Dispute,
    Resolve,
    Chargeback,
}

/// A deposit or withdrawal as the ledger remembers it.
#[derive(Clone, Copy, Debug, PartialEq, Eq)]
pub struct Record {
    pub kind: TransactionKind,
    pub client_id: u16,
    pub amount: Amount,
    /// True while the transaction is under dispute.
    pub disputed: bool,
    /// True once the transaction has been charged back.
    pub locked: bool,
}

/// The balances of one client.
#[derive(Clone, Copy, Debug, PartialEq, Eq)]
pub struct Account {
    pub client_id: u16,
    /// Funds that can be withdrawn.
    pub available: Amount,
    /// Funds frozen by disputes.
    pub held: Amount,
    pub total: Amount,
    /// True once a chargeback or a failed withdrawal has locked the account.
    pub locked: bool,
}

impl Account {
    /// `total` is `available + held`.
    pub open spec fn balanced(self) -> bool {
        self.total.units() == self.available.units() + self.held.units()
    }
}

/// A transaction as it arrives. Only deposits and withdrawals carry an
/// amount; the other three name an earlier transaction by its id.
#[derive(Clone, Copy, Debug, PartialEq, Eq)]
pub enum Transaction {
    Deposit { client_id: u16, id: u32, amount: Amount },
    Withdrawal { client_id: u16, id: u32, amount: Amount },
    Dispute { client_id: u16, id: u32 },
    Resolve { client_id: u16, id: u32 },
    Chargeback { client_id: u16, id: u32 },
}

/// What became of a transaction.
#[derive(Clone, Copy, Debug, PartialEq, Eq, Structural)]
pub enum Outcome {
    /// The transaction changed the balances as its kind prescribes.
    Applied,
    /// A deposit or withdrawal for a locked account.
    AccountLocked,
    /// The client has no account.
    UnknownAccount,
    /// A withdrawal of at least the available funds; the account is locked.
    InsufficientFunds,
    /// The ledger has no transaction of that id.
    UnknownTransaction,
    /// The transaction named belongs to another client.
    ClientMismatch,
    /// The transaction named is not a deposit.
    NotDisputable,
    /// The transaction named is already under dispute.
    AlreadyDisputed,
    /// The transaction named has been charged back.
    ChargedBack,
    /// The transaction named is not under dispute.
    NotDisputed,
    /// A balance would leave the range in which amounts are exact.
    OutOfRange,
}

} // verus!
