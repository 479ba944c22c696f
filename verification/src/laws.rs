//! What holds of the rules whatever the decimal library returns.

use vstd::prelude::*;

use crate::amount::{lemma_checked_difference_exact, lemma_checked_sum_exact, Amount};
use crate::model::{Account, Outcome, Transaction};
use crate::rules::{
    apply_step, chargeback_step, deposit_step, dispute_step, replay_state, resolve_step,
    summaries, summaries_below, summary, withdrawal_step, State, CLIENT_LIMIT,
};

verus! {

/// Every account's `total` is its `available` plus its `held`.
pub open spec fn all_balanced(accounts: Map<u16, Account>) -> bool {
    forall|client_id: u16|
        accounts.contains_key(client_id) ==> (#[trigger] accounts[client_id]).balanced()
}

/// Every account is filed under its own client.
pub open spec fn keyed_by_client(accounts: Map<u16, Account>) -> bool {
    forall|client_id: u16|
        accounts.contains_key(client_id) ==> (#[trigger] accounts[client_id]).client_id
            == client_id
}

/// The client of a transaction.
pub open spec fn client_of(transaction: Transaction) -> u16 {
    match transaction {
        Transaction::Deposit { client_id, .. } => client_id,
        Transaction::Withdrawal { client_id, .. } => client_id,
        Transaction::Dispute { client_id, .. } => client_id,
        Transaction::Resolve { client_id, .. } => client_id,
        Transaction::Chargeback { client_id, .. } => client_id,
    }
}

/// A deposit leaves every account balanced and under its own key.
pub proof fn lemma_deposit_keeps_balance(accounts: Map<u16, Account>, client_id: u16, amount: Amount)
    ensures
        all_balanced(accounts) ==> all_balanced(deposit_step(accounts, client_id, amount).0),
        keyed_by_client(accounts) ==> keyed_by_client(deposit_step(accounts, client_id, amount).0),
{
    Amount::lemma_of_parts(0, 0);
    if accounts.contains_key(client_id) {
        lemma_checked_sum_exact(accounts[client_id].available, amount);
        lemma_checked_sum_exact(accounts[client_id].total, amount);
    }
}

/// A withdrawal leaves every account balanced and under its own key.
pub proof fn lemma_withdrawal_keeps_balance(
    accounts: Map<u16, Account>,
    client_id: u16,
    amount: Amount,
)
    ensures
        all_balanced(accounts) ==> all_balanced(withdrawal_step(accounts, client_id, amount).0),
        keyed_by_client(accounts) ==> keyed_by_client(
            withdrawal_step(accounts, client_id, amount).0,
        ),
{
    if accounts.contains_key(client_id) {
        lemma_checked_difference_exact(accounts[client_id].available, amount);
        lemma_checked_difference_exact(accounts[client_id].total, amount);
    }
}

/// A dispute leaves every account balanced and under its own key.
pub proof fn lemma_dispute_keeps_balance(state: State, id: u32, client_id: u16)
    ensures
        all_balanced(state.accounts) ==> all_balanced(
            dispute_step(state, id, client_id).state.accounts,
        ),
        keyed_by_client(state.accounts) ==> keyed_by_client(
            dispute_step(state, id, client_id).state.accounts,
        ),
{
    if state.ledger.contains_key(id) && state.accounts.contains_key(client_id) {
        lemma_checked_difference_exact(state.accounts[client_id].available, state.ledger[id].amount);
        lemma_checked_sum_exact(state.accounts[client_id].held, state.ledger[id].amount);
    }
}

/// A resolution leaves every account balanced and under its own key.
pub proof fn lemma_resolve_keeps_balance(state: State, id: u32, client_id: u16)
    ensures
        all_balanced(state.accounts) ==> all_balanced(
            resolve_step(state, id, client_id).state.accounts,
        ),
        keyed_by_client(state.accounts) ==> keyed_by_client(
            resolve_step(state, id, client_id).state.accounts,
        ),
{
    if state.ledger.contains_key(id) && state.accounts.contains_key(client_id) {
        lemma_checked_sum_exact(state.accounts[client_id].available, state.ledger[id].amount);
        lemma_checked_difference_exact(state.accounts[client_id].held, state.ledger[id].amount);
    }
}

/// A chargeback leaves every account balanced and under its own key.
pub proof fn lemma_chargeback_keeps_balance(state: State, id: u32, client_id: u16)
    ensures
        all_balanced(state.accounts) ==> all_balanced(
            chargeback_step(state, id, client_id).state.accounts,
        ),
        keyed_by_client(state.accounts) ==> keyed_by_client(
            chargeback_step(state, id, client_id).state.accounts,
        ),
{
    if state.ledger.contains_key(id) && state.accounts.contains_key(client_id) {
        lemma_checked_difference_exact(state.accounts[client_id].total, state.ledger[id].amount);
        lemma_checked_difference_exact(state.accounts[client_id].held, state.ledger[id].amount);
    }
}

/// Whatever the transaction, if `total == available + held` held of every
/// account before it, it holds of every account after it.
pub proof fn lemma_apply_keeps_balance(state: State, transaction: Transaction)
    ensures
        all_balanced(state.accounts) ==> all_balanced(
            apply_step(state, transaction).state.accounts,
        ),
        keyed_by_client(state.accounts) ==> keyed_by_client(
            apply_step(state, transaction).state.accounts,
        ),
{
    match transaction {
        Transaction::Deposit { client_id, id, amount } => {
            lemma_deposit_keeps_balance(state.accounts, client_id, amount);
        },
        Transaction::Withdrawal { client_id, id, amount } => {
            lemma_withdrawal_keeps_balance(state.accounts, client_id, amount);
        },
        Transaction::Dispute { client_id, id } => {
            lemma_dispute_keeps_balance(state, id, client_id);
        },
        Transaction::Resolve { client_id, id } => {
            lemma_resolve_keeps_balance(state, id, client_id);
        },
        Transaction::Chargeback { client_id, id } => {
            lemma_chargeback_keeps_balance(state, id, client_id);
        },
    }
}

/// Whatever the transactions, if `total == available + held` held of every
/// account before them, it holds of every account after them.
pub proof fn lemma_replay_keeps_balance(state: State, transactions: Seq<Transaction>)
    ensures
        all_balanced(state.accounts) ==> all_balanced(
            replay_state(state, transactions).accounts,
        ),
        keyed_by_client(state.accounts) ==> keyed_by_client(
            replay_state(state, transactions).accounts,
        ),
    decreases transactions.len(),
{
    if transactions.len() > 0 {
        lemma_replay_keeps_balance(state, transactions.drop_last());
        lemma_apply_keeps_balance(
            replay_state(state, transactions.drop_last()),
            transactions.last(),
        );
    }
}

/// A withdrawal changes `available` only where the account held more than
/// the amount and was not locked; what is left is then the exact difference,
/// and more than nothing.
pub proof fn lemma_withdrawal_needs_funds(
    accounts: Map<u16, Account>,
    client_id: u16,
    amount: Amount,
)
    requires
        accounts.contains_key(client_id),
    ensures
        ({
            let before = accounts[client_id];
            let after = withdrawal_step(accounts, client_id, amount).0[client_id];
            let outcome = withdrawal_step(accounts, client_id, amount).1;
            &&& withdrawal_step(accounts, client_id, amount).0.contains_key(client_id)
            &&& after.available != before.available ==> outcome == Outcome::Applied
            &&& outcome == Outcome::Applied ==> {
                &&& before.available.units() > amount.units()
                &&& !before.locked
                &&& after.available.units() == before.available.units() - amount.units()
                &&& after.available.units() > 0
            }
        }),
{
    lemma_checked_difference_exact(accounts[client_id].available, amount);
}

/// A dispute submitted twice: the second attempt changes nothing and is
/// rejected, as already disputed where the first one was applied.
pub proof fn lemma_second_dispute_is_rejected(state: State, id: u32, client_id: u16)
    ensures
        ({
            let first = dispute_step(state, id, client_id);
            let second = dispute_step(first.state, id, client_id);
            &&& second.state == first.state
            &&& second.outcome != Outcome::Applied
            &&& first.outcome == Outcome::Applied ==> second.outcome == Outcome::AlreadyDisputed
        }),
{
}

/// A deposit or withdrawal for a locked account changes no account.
pub proof fn lemma_locked_account_is_frozen(state: State, transaction: Transaction)
    requires
        transaction is Deposit || transaction is Withdrawal,
        state.accounts.contains_key(client_of(transaction)),
        state.accounts[client_of(transaction)].locked,
    ensures
        apply_step(state, transaction).state.accounts == state.accounts,
        apply_step(state, transaction).outcome == Outcome::AccountLocked,
{
}

/// No transaction unlocks an account or removes one.
pub proof fn lemma_lock_is_terminal(state: State, transaction: Transaction, client_id: u16)
    requires
        state.accounts.contains_key(client_id),
    ensures
        apply_step(state, transaction).state.accounts.contains_key(client_id),
        state.accounts[client_id].locked ==> apply_step(
            state,
            transaction,
        ).state.accounts[client_id].locked,
{
}

/// No sequence of transactions unlocks an account or removes one.
pub proof fn lemma_replay_keeps_lock(state: State, transactions: Seq<Transaction>, client_id: u16)
    requires
        state.accounts.contains_key(client_id),
    ensures
        replay_state(state, transactions).accounts.contains_key(client_id),
        state.accounts[client_id].locked ==> replay_state(
            state,
            transactions,
        ).accounts[client_id].locked,
    decreases transactions.len(),
{
    if transactions.len() > 0 {
        lemma_replay_keeps_lock(state, transactions.drop_last(), client_id);
        lemma_lock_is_terminal(
            replay_state(state, transactions.drop_last()),
            transactions.last(),
            client_id,
        );
    }
}

/// Whether `report` is the report of the account of a client below `bound`.
pub open spec fn reports_an_account(accounts: Map<u16, Account>, report: Account, bound: nat)
    -> bool {
    exists|client_id: u16|
        client_id < bound && #[trigger] accounts.contains_key(client_id) && report == summary(
            accounts[client_id],
        )
}

/// Whether the account of `client_id` has its report among `reports`.
pub open spec fn is_reported(accounts: Map<u16, Account>, reports: Seq<Account>, client_id: u16)
    -> bool {
    exists|i: int| 0 <= i < reports.len() && #[trigger] reports[i] == summary(accounts[client_id])
}

/// Whether the reports are in the strict order of their clients, all of them
/// below `bound`.
pub open spec fn in_client_order(reports: Seq<Account>, bound: nat) -> bool {
    &&& forall|i: int| 0 <= i < reports.len() ==> (#[trigger] reports[i]).client_id < bound
    &&& forall|i: int, j: int|
        0 <= i < j < reports.len() ==> (#[trigger] reports[i]).client_id
            < (#[trigger] reports[j]).client_id
}

/// The reports of the clients below `bound`: each is the report of one of
/// their accounts, each of their accounts has its report, and where every
/// account is filed under its own client the reports are in the strict order
/// of their clients.
pub proof fn lemma_summaries_below(accounts: Map<u16, Account>, bound: nat)
    requires
        bound <= CLIENT_LIMIT,
    ensures
        forall|i: int|
            0 <= i < summaries_below(accounts, bound).len() ==> reports_an_account(
                accounts,
                #[trigger] summaries_below(accounts, bound)[i],
                bound,
            ),
        forall|client_id: u16|
            client_id < bound && #[trigger] accounts.contains_key(client_id) ==> is_reported(
                accounts,
                summaries_below(accounts, bound),
                client_id,
            ),
        keyed_by_client(accounts) ==> in_client_order(summaries_below(accounts, bound), bound),
    decreases bound,
{
    if bound > 0 {
        let before = summaries_below(accounts, (bound - 1) as nat);
        let all = summaries_below(accounts, bound);
        let last = (bound - 1) as u16;
        lemma_summaries_below(accounts, (bound - 1) as nat);
        assert forall|i: int| 0 <= i < all.len() implies reports_an_account(
            accounts,
            #[trigger] all[i],
            bound,
        ) by {
            if i < before.len() {
                assert(reports_an_account(accounts, before[i], (bound - 1) as nat));
                let c = choose|client_id: u16|
                    client_id < bound - 1 && #[trigger] accounts.contains_key(client_id)
                        && before[i] == summary(accounts[client_id]);
                assert(c < bound && accounts.contains_key(c) && all[i] == summary(accounts[c]));
            } else {
                assert(last < bound && accounts.contains_key(last) && all[i] == summary(
                    accounts[last],
                ));
            }
        }
        assert forall|client_id: u16|
            client_id < bound && #[trigger] accounts.contains_key(client_id) implies is_reported(
            accounts,
            all,
            client_id,
        ) by {
            if client_id < bound - 1 {
                assert(is_reported(accounts, before, client_id));
                let i = choose|i: int|
                    0 <= i < before.len() && #[trigger] before[i] == summary(accounts[client_id]);
                assert(all[i] == summary(accounts[client_id]));
            } else {
                assert(all[all.len() - 1] == summary(accounts[client_id]));
            }
        }
        if keyed_by_client(accounts) {
            assert(in_client_order(before, (bound - 1) as nat));
            assert forall|i: int| 0 <= i < all.len() implies (#[trigger] all[i]).client_id
                < bound by {
                if i < before.len() {
                    assert(before[i].client_id < bound - 1);
                } else {
                    assert(all[i] == summary(accounts[last]));
                    assert(accounts[last].client_id == last);
                }
            }
            assert forall|i: int, j: int| 0 <= i < j < all.len() implies (#[trigger] all[i]).client_id
                < (#[trigger] all[j]).client_id by {
                if j < before.len() {
                    assert(before[i].client_id < before[j].client_id);
                } else {
                    assert(before[i].client_id < bound - 1);
                    assert(all[j] == summary(accounts[last]));
                    assert(accounts[last].client_id == last);
                }
            }
        }
    }
}

/// The reports: one for every account and none besides, and where every
/// account is filed under its own client, in the strict order of the
/// clients.
pub proof fn lemma_summaries_cover(accounts: Map<u16, Account>)
    ensures
        forall|i: int|
            0 <= i < summaries(accounts).len() ==> reports_an_account(
                accounts,
                #[trigger] summaries(accounts)[i],
                CLIENT_LIMIT as nat,
            ),
        forall|client_id: u16| #[trigger]
            accounts.contains_key(client_id) ==> is_reported(
                accounts,
                summaries(accounts),
                client_id,
            ),
        keyed_by_client(accounts) ==> in_client_order(summaries(accounts), CLIENT_LIMIT as nat),
{
    lemma_summaries_below(accounts, CLIENT_LIMIT as nat);
}

} // verus!
