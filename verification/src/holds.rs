//! Held funds and the disputes that hold them: as long as transaction ids
//! are not reused over a running dispute and no negative amount is filed, an
//! account's `held` is the sum of the deposits of its client under dispute.

use vstd::prelude::*;

use crate::amount::{lemma_checked_difference_exact, lemma_checked_sum_exact, Amount};
use crate::model::{Account, Record, Transaction};
use crate::rules::{apply_step, replay_state, state_of, State};

verus! {

/// One more than the largest transaction id.
pub const ID_LIMIT: u64 = 0x1_0000_0000u64;

/// Whether the record filed under `id` is a disputed one of the client.
pub open spec fn holds_for(ledger: Map<u32, Record>, client_id: u16, id: u32) -> bool {
    ledger.contains_key(id) && ledger[id].client_id == client_id && ledger[id].disputed
}

/// What the record filed under `id` holds of the client's funds: its amount
/// while it is under dispute, and nothing otherwise.
pub open spec fn held_share(ledger: Map<u32, Record>, client_id: u16, id: u32) -> int {
    if holds_for(ledger, client_id, id) {
        ledger[id].amount.units()
    } else {
        0
    }
}

/// The amounts of the client's disputed records with an id below `bound`,
/// added up.
pub open spec fn disputed_below(ledger: Map<u32, Record>, client_id: u16, bound: nat) -> int
    decreases bound,
{
    if bound == 0 {
        0
    } else {
        disputed_below(ledger, client_id, (bound - 1) as nat) + held_share(
            ledger,
            client_id,
            (bound - 1) as u32,
        )
    }
}

/// The amounts of all the client's disputed records, added up.
pub open spec fn disputed_total(ledger: Map<u32, Record>, client_id: u16) -> int {
    disputed_below(ledger, client_id, ID_LIMIT as nat)
}

/// The client's held funds; nothing where the client has no account.
pub open spec fn held_of(accounts: Map<u16, Account>, client_id: u16) -> int {
    if accounts.contains_key(client_id) {
        accounts[client_id].held.units()
    } else {
        0
    }
}

/// Every client's held funds are the sum of its disputed records, and no
/// record has a negative amount.
pub open spec fn holds_match_disputes(state: State) -> bool {
    &&& forall|client_id: u16| #[trigger]
        held_of(state.accounts, client_id) == disputed_total(state.ledger, client_id)
    &&& forall|id: u32| #[trigger]
        state.ledger.contains_key(id) ==> state.ledger[id].amount.units() >= 0
}

/// A transaction that keeps held funds and disputes in step: any dispute,
/// resolution or chargeback, and a deposit or withdrawal whose amount is not
/// negative and whose id is not that of a record under dispute.
pub open spec fn admissible(state: State, transaction: Transaction) -> bool {
    match transaction {
        Transaction::Deposit { id, amount, .. } => amount.units() >= 0 && !(
        state.ledger.contains_key(id) && state.ledger[id].disputed),
        Transaction::Withdrawal { id, amount, .. } => amount.units() >= 0 && !(
        state.ledger.contains_key(id) && state.ledger[id].disputed),
        _ => true,
    }
}

/// Every transaction of the sequence is admissible in the state that the
/// ones before it lead to.
pub open spec fn all_admissible(state: State, transactions: Seq<Transaction>) -> bool
    decreases transactions.len(),
{
    transactions.len() == 0 || (all_admissible(state, transactions.drop_last()) && admissible(
        replay_state(state, transactions.drop_last()),
        transactions.last(),
    ))
}

/// Filing a record under `id` changes a client's sum by what the record
/// under that id holds after, less what it held before.
proof fn lemma_filing_shifts_sum(
    ledger: Map<u32, Record>,
    id: u32,
    record: Record,
    client_id: u16,
    bound: nat,
)
    requires
        bound <= ID_LIMIT,
    ensures
        disputed_below(ledger.insert(id, record), client_id, bound) == disputed_below(
            ledger,
            client_id,
            bound,
        ) + if id < bound {
            held_share(ledger.insert(id, record), client_id, id) - held_share(ledger, client_id, id)
        } else {
            0
        },
    decreases bound,
{
    if bound > 0 {
        lemma_filing_shifts_sum(ledger, id, record, client_id, (bound - 1) as nat);
    }
}

/// A sum of amounts that are not negative is not negative.
proof fn lemma_sum_not_negative(ledger: Map<u32, Record>, client_id: u16, bound: nat)
    requires
        forall|id: u32| #[trigger] ledger.contains_key(id) ==> ledger[id].amount.units() >= 0,
        bound <= ID_LIMIT,
    ensures
        disputed_below(ledger, client_id, bound) >= 0,
    decreases bound,
{
    if bound > 0 {
        lemma_sum_not_negative(ledger, client_id, (bound - 1) as nat);
    }
}

/// A sum that is not zero has a disputed record of the client in it.
proof fn lemma_sum_has_dispute(ledger: Map<u32, Record>, client_id: u16, bound: nat) -> (id: u32)
    requires
        disputed_below(ledger, client_id, bound) != 0,
        bound <= ID_LIMIT,
    ensures
        holds_for(ledger, client_id, id),
    decreases bound,
{
    if held_share(ledger, client_id, (bound - 1) as u32) != 0 {
        (bound - 1) as u32
    } else {
        lemma_sum_has_dispute(ledger, client_id, (bound - 1) as nat)
    }
}

/// The sum over a ledger without records is zero.
proof fn lemma_empty_sum(client_id: u16, bound: nat)
    ensures
        disputed_below(Map::<u32, Record>::empty(), client_id, bound) == 0,
    decreases bound,
{
    if bound > 0 {
        lemma_empty_sum(client_id, (bound - 1) as nat);
    }
}

/// Before any transaction, held funds and disputes are in step.
pub proof fn lemma_empty_state_matches()
    ensures
        holds_match_disputes(state_of(Map::empty(), Map::empty())),
{
    assert forall|client_id: u16|
        #[trigger] held_of(Map::<u16, Account>::empty(), client_id) == disputed_total(
            Map::<u32, Record>::empty(),
            client_id,
        ) by {
        lemma_empty_sum(client_id, ID_LIMIT as nat);
    }
}

/// Where held funds and disputes are in step, no account holds a negative
/// amount, and an account that holds anything has a record of its client
/// under dispute.
pub proof fn lemma_held_means_disputed(state: State, client_id: u16)
    requires
        holds_match_disputes(state),
        state.accounts.contains_key(client_id),
    ensures
        state.accounts[client_id].held.units() >= 0,
        state.accounts[client_id].held.units() != 0 ==> exists|id: u32|
            holds_for(state.ledger, client_id, id),
{
    assert(held_of(state.accounts, client_id) == disputed_total(state.ledger, client_id));
    lemma_sum_not_negative(state.ledger, client_id, ID_LIMIT as nat);
    if state.accounts[client_id].held.units() != 0 {
        let id = lemma_sum_has_dispute(state.ledger, client_id, ID_LIMIT as nat);
    }
}

/// An admissible transaction keeps held funds and disputes in step.
pub proof fn lemma_apply_keeps_holds(state: State, transaction: Transaction)
    requires
        holds_match_disputes(state),
        admissible(state, transaction),
    ensures
        holds_match_disputes(apply_step(state, transaction).state),
{
    let after = apply_step(state, transaction).state;
    Amount::lemma_of_parts(0, 0);
    let (id, client) = match transaction {
        Transaction::Deposit { client_id, id, .. } => (id, client_id),
        Transaction::Withdrawal { client_id, id, .. } => (id, client_id),
        Transaction::Dispute { client_id, id } => (id, client_id),
        Transaction::Resolve { client_id, id } => (id, client_id),
        Transaction::Chargeback { client_id, id } => (id, client_id),
    };
    if state.ledger.contains_key(id) && state.accounts.contains_key(client) {
        let amount = state.ledger[id].amount;
        let account = state.accounts[client];
        lemma_checked_sum_exact(account.held, amount);
        lemma_checked_difference_exact(account.held, amount);
    }
    assert forall|c: u16| #[trigger]
        held_of(after.accounts, c) == disputed_total(after.ledger, c) by {
        assert(held_of(state.accounts, c) == disputed_total(state.ledger, c));
        if after.ledger != state.ledger {
            assert(after.ledger == state.ledger.insert(id, after.ledger[id]));
            lemma_filing_shifts_sum(state.ledger, id, after.ledger[id], c, ID_LIMIT as nat);
        }
    }
    assert forall|k: u32| #[trigger] after.ledger.contains_key(k) implies after.ledger[k].amount.units()
        >= 0 by {
        if k != id {
            assert(state.ledger.contains_key(k));
        }
    }
}

/// A run of admissible transactions keeps held funds and disputes in step.
pub proof fn lemma_replay_keeps_holds(state: State, transactions: Seq<Transaction>)
    requires
        holds_match_disputes(state),
        all_admissible(state, transactions),
    ensures
        holds_match_disputes(replay_state(state, transactions)),
    decreases transactions.len(),
{
    if transactions.len() > 0 {
        lemma_replay_keeps_holds(state, transactions.drop_last());
        lemma_apply_keeps_holds(
            replay_state(state, transactions.drop_last()),
            transactions.last(),
        );
    }
}

} // verus!
