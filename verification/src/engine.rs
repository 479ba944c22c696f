//! The handlers of the five transaction kinds and the dispatcher.

use vstd::prelude::*;

use crate::book::AccountBook;
use crate::holds::{
    admissible, all_admissible, holds_match_disputes, lemma_apply_keeps_holds,
    lemma_empty_state_matches, lemma_replay_keeps_holds,
};
use crate::laws::{
    all_balanced, client_of, keyed_by_client, lemma_chargeback_keeps_balance,
    lemma_deposit_keeps_balance, lemma_dispute_keeps_balance, lemma_resolve_keeps_balance,
    lemma_withdrawal_keeps_balance, lemma_withdrawal_needs_funds,
};
use crate::ledger::Ledger;
use crate::model::{Account, Outcome, Record, Transaction, TransactionKind};
use crate::rules::{
    apply_step, chargeback_step, deposit_step, dispute_step, replay_outcomes, replay_state,
    resolve_step, state_of, summaries, withdrawal_step, State,
};

verus! {

/// Deposits a recorded amount into its client's account.
pub fn deposit_to_account(book: &mut AccountBook, record: &Record) -> (outcome: Outcome)
    ensures
        (final(book)@, outcome) == deposit_step(old(book)@, record.client_id, record.amount),
        all_balanced(old(book)@) ==> all_balanced(final(book)@),
        keyed_by_client(old(book)@) ==> keyed_by_client(final(book)@),
        old(book)@.contains_key(record.client_id) && old(book)@[record.client_id].locked
            ==> final(book)@ == old(book)@,
{
    proof {
        lemma_deposit_keeps_balance(book@, record.client_id, record.amount);
    }
    let existed = book.contains(record.client_id);
    let account = book.get_or_create(record.client_id);
    if !existed {
        account.available = record.amount;
        account.total = record.amount;
        Outcome::Applied
    } else if account.locked {
        Outcome::AccountLocked
    } else {
        match (account.available.checked_add(record.amount), account.total.checked_add(record.amount)) {
            (Some(available), Some(total)) => {
                account.available = available;
                account.total = total;
                Outcome::Applied
            },
            _ => Outcome::OutOfRange,
        }
    }
}

/// Withdraws a recorded amount from its client's account.
pub fn withdraw_from_account(book: &mut AccountBook, record: &Record) -> (outcome: Outcome)
    ensures
        (final(book)@, outcome) == withdrawal_step(old(book)@, record.client_id, record.amount),
        all_balanced(old(book)@) ==> all_balanced(final(book)@),
        keyed_by_client(old(book)@) ==> keyed_by_client(final(book)@),
        old(book)@.contains_key(record.client_id) && old(book)@[record.client_id].locked
            ==> final(book)@ == old(book)@,
        old(book)@.contains_key(record.client_id) && final(book)@[record.client_id].available
            != old(book)@[record.client_id].available ==> {
            &&& old(book)@[record.client_id].available.units() > record.amount.units()
            &&& final(book)@[record.client_id].available.units()
                == old(book)@[record.client_id].available.units() - record.amount.units()
            &&& final(book)@[record.client_id].available.units() > 0
        },
{
    proof {
        lemma_withdrawal_keeps_balance(book@, record.client_id, record.amount);
        if book@.contains_key(record.client_id) {
            lemma_withdrawal_needs_funds(book@, record.client_id, record.amount);
        }
    }
    match book.get_mut(record.client_id) {
        None => Outcome::UnknownAccount,
        Some(account) => {
            if account.locked {
                Outcome::AccountLocked
            } else if !account.available.greater_than(record.amount) {
                account.locked = true;
                Outcome::InsufficientFunds
            } else {
                match (
                    account.available.checked_sub(record.amount),
                    account.total.checked_sub(record.amount),
                ) {
                    (Some(available), Some(total)) => {
                        account.available = available;
                        account.total = total;
                        Outcome::Applied
                    },
                    _ => Outcome::OutOfRange,
                }
            }
        },
    }
}

/// Puts a deposit under dispute: its amount moves from `available` to `held`.
pub fn submit_dispute(
    book: &mut AccountBook,
    ledger: &mut Ledger,
    transaction_id: u32,
    client_id: u16,
) -> (outcome: Outcome)
    ensures
        final(ledger)@ == dispute_step(
            state_of(old(ledger)@, old(book)@),
            transaction_id,
            client_id,
        ).state.ledger,
        final(book)@ == dispute_step(
            state_of(old(ledger)@, old(book)@),
            transaction_id,
            client_id,
        ).state.accounts,
        outcome == dispute_step(
            state_of(old(ledger)@, old(book)@),
            transaction_id,
            client_id,
        ).outcome,
        all_balanced(old(book)@) ==> all_balanced(final(book)@),
        keyed_by_client(old(book)@) ==> keyed_by_client(final(book)@),
{
    proof {
        lemma_dispute_keeps_balance(state_of(ledger@, book@), transaction_id, client_id);
    }
    let record = match ledger.lookup_mut(transaction_id) {
        Some(record) => record,
        None => {
            return Outcome::UnknownTransaction;
        },
    };
    if client_id != record.client_id {
        return Outcome::ClientMismatch;
    }
    match record.kind {
        TransactionKind::Deposit => {},
        _ => {
            return Outcome::NotDisputable;
        },
    }
    let account = match book.get_mut(record.client_id) {
        Some(account) => account,
        None => {
            return Outcome::UnknownAccount;
        },
    };
    if record.disputed {
        Outcome::AlreadyDisputed
    } else if record.locked {
        Outcome::ChargedBack
    } else {
        match (account.available.checked_sub(record.amount), account.held.checked_add(record.amount)) {
            (Some(available), Some(held)) => {
                account.available = available;
                account.held = held;
                record.disputed = true;
                Outcome::Applied
            },
            _ => Outcome::OutOfRange,
        }
    }
}

/// Ends a dispute in the client's favour: the amount moves back from `held`
/// to `available`.
pub fn resolve_dispute(
    book: &mut AccountBook,
    ledger: &mut Ledger,
    transaction_id: u32,
    client_id: u16,
) -> (outcome: Outcome)
    ensures
        final(ledger)@ == resolve_step(
            state_of(old(ledger)@, old(book)@),
            transaction_id,
            client_id,
        ).state.ledger,
        final(book)@ == resolve_step(
            state_of(old(ledger)@, old(book)@),
            transaction_id,
            client_id,
        ).state.accounts,
        outcome == resolve_step(
            state_of(old(ledger)@, old(book)@),
            transaction_id,
            client_id,
        ).outcome,
        all_balanced(old(book)@) ==> all_balanced(final(book)@),
        keyed_by_client(old(book)@) ==> keyed_by_client(final(book)@),
{
    proof {
        lemma_resolve_keeps_balance(state_of(ledger@, book@), transaction_id, client_id);
    }
    let record = match ledger.lookup_mut(transaction_id) {
        Some(record) => record,
        None => {
            return Outcome::UnknownTransaction;
        },
    };
    if client_id != record.client_id {
        return Outcome::ClientMismatch;
    }
    match record.kind {
        TransactionKind::Deposit => {},
        _ => {
            return Outcome::NotDisputable;
        },
    }
    let account = match book.get_mut(record.client_id) {
        Some(account) => account,
        None => {
            return Outcome::UnknownAccount;
        },
    };
    if !record.disputed {
        Outcome::NotDisputed
    } else {
        match (account.available.checked_add(record.amount), account.held.checked_sub(record.amount)) {
            (Some(available), Some(held)) => {
                account.available = available;
                account.held = held;
                record.disputed = false;
                Outcome::Applied
            },
            _ => Outcome::OutOfRange,
        }
    }
}

/// Ends a dispute against the client: the amount leaves `held` and `total`,
/// and both the account and the deposit are locked.
pub fn issue_chargeback(
    book: &mut AccountBook,
    ledger: &mut Ledger,
    transaction_id: u32,
    client_id: u16,
) -> (outcome: Outcome)
    ensures
        final(ledger)@ == chargeback_step(
            state_of(old(ledger)@, old(book)@),
            transaction_id,
            client_id,
        ).state.ledger,
        final(book)@ == chargeback_step(
            state_of(old(ledger)@, old(book)@),
            transaction_id,
            client_id,
        ).state.accounts,
        outcome == chargeback_step(
            state_of(old(ledger)@, old(book)@),
            transaction_id,
            client_id,
        ).outcome,
        all_balanced(old(book)@) ==> all_balanced(final(book)@),
        keyed_by_client(old(book)@) ==> keyed_by_client(final(book)@),
{
    proof {
        lemma_chargeback_keeps_balance(state_of(ledger@, book@), transaction_id, client_id);
    }
    let record = match ledger.lookup_mut(transaction_id) {
        Some(record) => record,
        None => {
            return Outcome::UnknownTransaction;
        },
    };
    if client_id != record.client_id {
        return Outcome::ClientMismatch;
    }
    match record.kind {
        TransactionKind::Deposit => {},
        _ => {
            return Outcome::NotDisputable;
        },
    }
    let account = match book.get_mut(record.client_id) {
        Some(account) => account,
        None => {
            return Outcome::UnknownAccount;
        },
    };
    if !record.disputed {
        Outcome::NotDisputed
    } else {
        match (account.total.checked_sub(record.amount), account.held.checked_sub(record.amount)) {
            (Some(total), Some(held)) => {
                account.total = total;
                account.held = held;
                account.locked = true;
                record.disputed = false;
                record.locked = true;
                Outcome::Applied
            },
            _ => Outcome::OutOfRange,
        }
    }
}

/// The ledger and the account book together, driven one transaction at a
/// time.
pub struct Engine {
    ledger: Ledger,
    book: AccountBook,
}

impl View for Engine {
    type V = State;

    closed spec fn view(&self) -> State {
        state_of(self.ledger@, self.book@)
    }
}

impl Engine {
    /// An engine that has seen no transaction.
    pub fn new() -> (r: Engine)
        ensures
            r@ == state_of(Map::empty(), Map::empty()),
            all_balanced(r@.accounts),
            keyed_by_client(r@.accounts),
            holds_match_disputes(r@),
    {
        proof {
            lemma_empty_state_matches();
        }
        Engine { ledger: Ledger::new(), book: AccountBook::new() }
    }

    /// Applies one transaction and says what became of it.
    pub fn apply(&mut self, transaction: Transaction) -> (outcome: Outcome)
        ensures
            final(self)@.ledger == apply_step(old(self)@, transaction).state.ledger,
            final(self)@.accounts == apply_step(old(self)@, transaction).state.accounts,
            outcome == apply_step(old(self)@, transaction).outcome,
            all_balanced(old(self)@.accounts) ==> all_balanced(final(self)@.accounts),
            keyed_by_client(old(self)@.accounts) ==> keyed_by_client(final(self)@.accounts),
            (transaction is Deposit || transaction is Withdrawal) && old(self)@.accounts.contains_key(
                client_of(transaction),
            ) && old(self)@.accounts[client_of(transaction)].locked ==> final(self)@.accounts == old(
                self,
            )@.accounts,
            holds_match_disputes(old(self)@) && admissible(old(self)@, transaction)
                ==> holds_match_disputes(final(self)@),
    {
        proof {
            if holds_match_disputes(self@) && admissible(self@, transaction) {
                lemma_apply_keeps_holds(self@, transaction);
            }
        }
        match transaction {
            Transaction::Deposit { client_id, id, amount } => {
                self.ledger.record(id, TransactionKind::Deposit, client_id, amount);
                let record = Record {
                    kind: TransactionKind::Deposit,
                    client_id,
                    amount,
                    disputed: false,
                    locked: false,
                };
                deposit_to_account(&mut self.book, &record)
            },
            Transaction::Withdrawal { client_id, id, amount } => {
                self.ledger.record(id, TransactionKind::Withdrawal, client_id, amount);
                let record = Record {
                    kind: TransactionKind::Withdrawal,
                    client_id,
                    amount,
                    disputed: false,
                    locked: false,
                };
                withdraw_from_account(&mut self.book, &record)
            },
            Transaction::Dispute { client_id, id } => submit_dispute(
                &mut self.book,
                &mut self.ledger,
                id,
                client_id,
            ),
            Transaction::Resolve { client_id, id } => resolve_dispute(
                &mut self.book,
                &mut self.ledger,
                id,
                client_id,
            ),
            Transaction::Chargeback { client_id, id } => issue_chargeback(
                &mut self.book,
                &mut self.ledger,
                id,
                client_id,
            ),
        }
    }

    /// Applies the transactions in order and says what became of each.
    pub fn replay(&mut self, transactions: &Vec<Transaction>) -> (outcomes: Vec<Outcome>)
        ensures
            final(self)@.ledger == replay_state(old(self)@, transactions@).ledger,
            final(self)@.accounts == replay_state(old(self)@, transactions@).accounts,
            outcomes@ == replay_outcomes(old(self)@, transactions@),
            all_balanced(old(self)@.accounts) ==> all_balanced(final(self)@.accounts),
            keyed_by_client(old(self)@.accounts) ==> keyed_by_client(final(self)@.accounts),
            holds_match_disputes(old(self)@) && all_admissible(old(self)@, transactions@)
                ==> holds_match_disputes(final(self)@),
    {
        proof {
            if holds_match_disputes(self@) && all_admissible(self@, transactions@) {
                lemma_replay_keeps_holds(self@, transactions@);
            }
        }
        let mut outcomes: Vec<Outcome> = Vec::new();
        let mut i: usize = 0;
        while i < transactions.len()
            invariant
                i <= transactions.len(),
                self@ == replay_state(old(self)@, transactions@.take(i as int)),
                outcomes@ == replay_outcomes(old(self)@, transactions@.take(i as int)),
                all_balanced(old(self)@.accounts) ==> all_balanced(self@.accounts),
                keyed_by_client(old(self)@.accounts) ==> keyed_by_client(self@.accounts),
            decreases transactions.len() - i,
        {
            proof {
                let next = transactions@.take(i + 1);
                assert(next.drop_last() == transactions@.take(i as int));
                assert(next.last() == transactions@[i as int]);
            }
            let outcome = self.apply(transactions[i]);
            outcomes.push(outcome);
            i = i + 1;
        }
        proof {
            assert(transactions@.take(i as int) == transactions@);
        }
        outcomes
    }

    /// A copy of a client's account, if there is one.
    pub fn account(&self, client_id: u16) -> (r: Option<Account>)
        ensures
            r == if self@.accounts.contains_key(client_id) {
                Some(self@.accounts[client_id])
            } else {
                None
            },
    {
        self.book.get(client_id)
    }

    /// The report of every account, in the order of the clients: each balance
    /// rounded half to even to four fractional digits.
    pub fn summaries(&self) -> (r: Vec<Account>)
        ensures
            r@ == summaries(self@.accounts),
    {
        self.book.summaries()
    }

    /// A copy of the record filed under a transaction id, if there is one.
    pub fn record(&self, id: u32) -> (r: Option<Record>)
        ensures
            r == if self@.ledger.contains_key(id) {
                Some(self@.ledger[id])
            } else {
                None
            },
    {
        self.ledger.lookup(id)
    }
}

} // verus!
