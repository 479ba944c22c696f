//! The rules of the replay, as functions from the state before a transaction
//! to the state after it and the outcome.

use vstd::prelude::*;

use crate::amount::{checked_difference, checked_sum, rounded, Amount};
use crate::model::{Account, Outcome, Record, Transaction, TransactionKind};

verus! {

/// The ledger and the account book, as maps.
pub struct State {
    pub ledger: Map<u32, Record>,
    pub accounts: Map<u16, Account>,
}

/// A state and the outcome of the transaction that led to it.
pub struct Step {
    pub state: State,
    pub outcome: Outcome,
}

/// The number of fractional digits that balances are reported with.
pub const REPORT_PLACES: u32 = 4u32;

/// One more than the largest client id.
pub const CLIENT_LIMIT: u32 = 0x1_0000u32;

/// The state made of the given ledger and accounts.
pub open spec fn state_of(ledger: Map<u32, Record>, accounts: Map<u16, Account>) -> State {
    State { ledger, accounts }
}

/// A step that changes nothing.
pub open spec fn rejected(state: State, outcome: Outcome) -> Step {
    Step { state, outcome }
}

/// The record that the ledger files for a deposit or withdrawal.
pub open spec fn filed(kind: TransactionKind, client_id: u16, amount: Amount) -> Record {
    Record { kind, client_id, amount, disputed: false, locked: false }
}

/// The account that a client's first deposit opens.
pub open spec fn opened(client_id: u16, amount: Amount) -> Account {
    Account { client_id, available: amount, held: Amount::of(0, 0), total: amount, locked: false }
}

/// A deposit. The first one opens the client's account with the amount. A
/// later one is added to `available` and `total`, unless the account is
/// locked.
pub open spec fn deposit_step(accounts: Map<u16, Account>, client_id: u16, amount: Amount) -> (
    Map<u16, Account>,
    Outcome,
) {
    if !accounts.contains_key(client_id) {
        (accounts.insert(client_id, opened(client_id, amount)), Outcome::Applied)
    } else {
        let account = accounts[client_id];
        if account.locked {
            (accounts, Outcome::AccountLocked)
        } else {
            match (checked_sum(account.available, amount), checked_sum(account.total, amount)) {
                (Some(available), Some(total)) => (
                    accounts.insert(client_id, Account { available, total, ..account }),
                    Outcome::Applied,
                ),
                _ => (accounts, Outcome::OutOfRange),
            }
        }
    }
}

/// A withdrawal. It is taken from `available` and `total` where the account
/// is not locked and holds more than the amount in `available`. Holding the
/// amount or less locks the account.
pub open spec fn withdrawal_step(accounts: Map<u16, Account>, client_id: u16, amount: Amount) -> (
    Map<u16, Account>,
    Outcome,
) {
    if !accounts.contains_key(client_id) {
        (accounts, Outcome::UnknownAccount)
    } else {
        let account = accounts[client_id];
        if account.locked {
            (accounts, Outcome::AccountLocked)
        } else if !(account.available.units() > amount.units()) {
            (
                accounts.insert(client_id, Account { locked: true, ..account }),
                Outcome::InsufficientFunds,
            )
        } else {
            match (
                checked_difference(account.available, amount),
                checked_difference(account.total, amount),
            ) {
                (Some(available), Some(total)) => (
                    accounts.insert(client_id, Account { available, total, ..account }),
                    Outcome::Applied,
                ),
                _ => (accounts, Outcome::OutOfRange),
            }
        }
    }
}

/// Why a dispute, resolution or chargeback cannot even be looked at: the
/// transaction it names is unknown, belongs to another client or is no
/// deposit, or its client has no account. `None` where none of these holds.
pub open spec fn reference_fault(state: State, id: u32, client_id: u16) -> Option<Outcome> {
    if !state.ledger.contains_key(id) {
        Some(Outcome::UnknownTransaction)
    } else if state.ledger[id].client_id != client_id {
        Some(Outcome::ClientMismatch)
    } else if state.ledger[id].kind != TransactionKind::Deposit {
        Some(Outcome::NotDisputable)
    } else if !state.accounts.contains_key(client_id) {
        Some(Outcome::UnknownAccount)
    } else {
        None
    }
}

/// A dispute. The deposit's amount moves from `available` to `held` and the
/// deposit is marked as disputed, unless it is under dispute already or has
/// been charged back.
pub open spec fn dispute_step(state: State, id: u32, client_id: u16) -> Step {
    match reference_fault(state, id, client_id) {
        Some(outcome) => rejected(state, outcome),
        None => {
            let record = state.ledger[id];
            let account = state.accounts[client_id];
            if record.disputed {
                rejected(state, Outcome::AlreadyDisputed)
            } else if record.locked {
                rejected(state, Outcome::ChargedBack)
            } else {
                match (
                    checked_difference(account.available, record.amount),
                    checked_sum(account.held, record.amount),
                ) {
                    (Some(available), Some(held)) => Step {
                        state: State {
                            ledger: state.ledger.insert(id, Record { disputed: true, ..record }),
                            accounts: state.accounts.insert(
                                client_id,
                                Account { available, held, ..account },
                            ),
                        },
                        outcome: Outcome::Applied,
                    },
                    _ => rejected(state, Outcome::OutOfRange),
                }
            }
        },
    }
}

/// A resolution. The amount of a disputed deposit moves back from `held` to
/// `available` and the dispute ends.
pub open spec fn resolve_step(state: State, id: u32, client_id: u16) -> Step {
    match reference_fault(state, id, client_id) {
        Some(outcome) => rejected(state, outcome),
        None => {
            let record = state.ledger[id];
            let account = state.accounts[client_id];
            if !record.disputed {
                rejected(state, Outcome::NotDisputed)
            } else {
                match (
                    checked_sum(account.available, record.amount),
                    checked_difference(account.held, record.amount),
                ) {
                    (Some(available), Some(held)) => Step {
                        state: State {
                            ledger: state.ledger.insert(id, Record { disputed: false, ..record }),
                            accounts: state.accounts.insert(
                                client_id,
                                Account { available, held, ..account },
                            ),
                        },
                        outcome: Outcome::Applied,
                    },
                    _ => rejected(state, Outcome::OutOfRange),
                }
            }
        },
    }
}

/// A chargeback. The amount of a disputed deposit leaves `held` and `total`,
/// the account is locked, and the deposit is marked as charged back for good.
pub open spec fn chargeback_step(state: State, id: u32, client_id: u16) -> Step {
    match reference_fault(state, id, client_id) {
        Some(outcome) => rejected(state, outcome),
        None => {
            let record = state.ledger[id];
            let account = state.accounts[client_id];
            if !record.disputed {
                rejected(state, Outcome::NotDisputed)
            } else {
                match (
                    checked_difference(account.total, record.amount),
                    checked_difference(account.held, record.amount),
                ) {
                    (Some(total), Some(held)) => Step {
                        state: State {
                            ledger: state.ledger.insert(
                                id,
                                Record { disputed: false, locked: true, ..record },
                            ),
                            accounts: state.accounts.insert(
                                client_id,
                                Account { total, held, locked: true, ..account },
                            ),
                        },
                        outcome: Outcome::Applied,
                    },
                    _ => rejected(state, Outcome::OutOfRange),
                }
            }
        },
    }
}

/// One transaction. A deposit or withdrawal is filed in the ledger under its
/// id, whatever becomes of it, and then handled; the other three are handled
/// against the record they name.
pub open spec fn apply_step(state: State, transaction: Transaction) -> Step {
    match transaction {
        Transaction::Deposit { client_id, id, amount } => {
            let (accounts, outcome) = deposit_step(state.accounts, client_id, amount);
            Step {
                state: State {
                    ledger: state.ledger.insert(
                        id,
                        filed(TransactionKind::Deposit, client_id, amount),
                    ),
                    accounts,
                },
                outcome,
            }
        },
        Transaction::Withdrawal { client_id, id, amount } => {
            let (accounts, outcome) = withdrawal_step(state.accounts, client_id, amount);
            Step {
                state: State {
                    ledger: state.ledger.insert(
                        id,
                        filed(TransactionKind::Withdrawal, client_id, amount),
                    ),
                    accounts,
                },
                outcome,
            }
        },
        Transaction::Dispute { client_id, id } => dispute_step(state, id, client_id),
        Transaction::Resolve { client_id, id } => resolve_step(state, id, client_id),
        Transaction::Chargeback { client_id, id } => chargeback_step(state, id, client_id),
    }
}

/// The state after a sequence of transactions, applied in order.
pub open spec fn replay_state(state: State, transactions: Seq<Transaction>) -> State
    decreases transactions.len(),
{
    if transactions.len() == 0 {
        state
    } else {
        apply_step(replay_state(state, transactions.drop_last()), transactions.last()).state
    }
}

/// The outcomes of a sequence of transactions, applied in order.
pub open spec fn replay_outcomes(state: State, transactions: Seq<Transaction>) -> Seq<Outcome>
    decreases transactions.len(),
{
    if transactions.len() == 0 {
        Seq::empty()
    } else {
        replay_outcomes(state, transactions.drop_last()).push(
            apply_step(replay_state(state, transactions.drop_last()), transactions.last()).outcome,
        )
    }
}

/// An account as it is reported: each balance rounded half to even to four
/// fractional digits.
pub open spec fn summary(account: Account) -> Account {
    Account {
        available: rounded(account.available, REPORT_PLACES as nat),
        held: rounded(account.held, REPORT_PLACES as nat),
        total: rounded(account.total, REPORT_PLACES as nat),
        ..account
    }
}

/// The reports of the accounts of all clients below `bound`, in the order of
/// the clients.
pub open spec fn summaries_below(accounts: Map<u16, Account>, bound: nat) -> Seq<Account>
    decreases bound,
{
    if bound == 0 {
        Seq::empty()
    } else {
        let client_id = (bound - 1) as u16;
        let before = summaries_below(accounts, (bound - 1) as nat);
        if accounts.contains_key(client_id) {
            before.push(summary(accounts[client_id]))
        } else {
            before
        }
    }
}

/// The reports of all accounts, in the order of their clients.
pub open spec fn summaries(accounts: Map<u16, Account>) -> Seq<Account> {
    summaries_below(accounts, CLIENT_LIMIT as nat)
}

} // verus!
