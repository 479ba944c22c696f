//! The account book: one account for each client that has deposited.

use std::collections::hash_map::Entry;
use std::collections::HashMap;
use vstd::prelude::*;

use crate::amount::Amount;
use crate::model::Account;
use crate::rules::{summaries, summaries_below, CLIENT_LIMIT, REPORT_PLACES};

verus! {

/// The accounts, keyed by client.
pub struct AccountBook {
    accounts: HashMap<u16, Account>,
}

impl View for AccountBook {
    type V = Map<u16, Account>;

    closed spec fn view(&self) -> Map<u16, Account> {
        self.accounts@
    }
}

impl AccountBook {
    /// A book without accounts.
    pub fn new() -> (r: AccountBook)
        ensures
            r@ == Map::<u16, Account>::empty(),
    {
        AccountBook { accounts: HashMap::new() }
    }

    /// Whether a client has an account.
    pub fn contains(&self, client_id: u16) -> (r: bool)
        ensures
            r == self@.contains_key(client_id),
    {
        self.accounts.contains_key(&client_id)
    }

    /// A copy of a client's account, if there is one.
    pub fn get(&self, client_id: u16) -> (r: Option<Account>)
        ensures
            r == if self@.contains_key(client_id) {
                Some(self@[client_id])
            } else {
                None
            },
    {
        match self.accounts.get(&client_id) {
            Some(account) => Some(*account),
            None => None,
        }
    }

    /// The report of every account, in the order of the clients: each balance
    /// rounded half to even to four fractional digits.
    pub fn summaries(&self) -> (r: Vec<Account>)
        ensures
            r@ == summaries(self@),
    {
        let mut reports: Vec<Account> = Vec::new();
        let mut next: u32 = 0;
        while next < CLIENT_LIMIT
            invariant
                next <= CLIENT_LIMIT,
                reports@ == summaries_below(self@, next as nat),
            decreases CLIENT_LIMIT - next,
        {
            match self.get(next as u16) {
                Some(account) => {
                    reports.push(
                        Account {
                            client_id: account.client_id,
                            available: account.available.round_to(REPORT_PLACES),
                            held: account.held.round_to(REPORT_PLACES),
                            total: account.total.round_to(REPORT_PLACES),
                            locked: account.locked,
                        },
                    );
                },
                None => {},
            }
            next = next + 1;
        }
        reports
    }

    /// The account of a client, made with zero balances if there is none yet.
    pub fn get_or_create(&mut self, client_id: u16) -> (r: &mut Account)
        ensures
            *r == if old(self)@.contains_key(client_id) {
                old(self)@[client_id]
            } else {
                Account {
                    client_id,
                    available: Amount::of(0, 0),
                    held: Amount::of(0, 0),
                    total: Amount::of(0, 0),
                    locked: false,
                }
            },
            final(self)@ == old(self)@.insert(client_id, *final(r)),
    {
        let fresh = Account {
            client_id,
            available: Amount::zero(),
            held: Amount::zero(),
            total: Amount::zero(),
            locked: false,
        };
        self.accounts.entry(client_id).or_insert(fresh)
    }

    /// The account of a client, if there is one.
    pub fn get_mut(&mut self, client_id: u16) -> (r: Option<&mut Account>)
        ensures
            match r {
                Some(a) => old(self)@.contains_key(client_id) && *a == old(self)@[client_id]
                    && final(self)@ == old(self)@.insert(client_id, *final(a)),
                None => !old(self)@.contains_key(client_id) && final(self)@ == old(self)@,
            },
    {
        match self.accounts.entry(client_id) {
            Entry::Occupied(entry) => Some(entry.into_mut()),
            Entry::Vacant(_) => None,
        }
    }
}

} // verus!
