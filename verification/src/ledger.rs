//! The ledger: every deposit and withdrawal seen so far, by transaction id.

use std::collections::hash_map::Entry;
use std::collections::HashMap;
use vstd::prelude::*;

use crate::amount::Amount;
use crate::model::{Record, TransactionKind};
use crate::rules::filed;

verus! {

/// The deposits and withdrawals seen so far, keyed by transaction id. Nothing
/// is ever removed.
pub struct Ledger {
    records: HashMap<u32, Record>,
}

impl View for Ledger {
    type V = Map<u32, Record>;

    closed spec fn view(&self) -> Map<u32, Record> {
        self.records@
    }
}

impl Ledger {
    /// A ledger without records.
    pub fn new() -> (r: Ledger)
        ensures
            r@ == Map::<u32, Record>::empty(),
    {
        Ledger { records: HashMap::new() }
    }

    /// Files a deposit or withdrawal under its id, undisputed. A record
    /// already filed under that id is replaced.
    pub fn record(&mut self, id: u32, kind: TransactionKind, client_id: u16, amount: Amount)
        ensures
            final(self)@ == old(self)@.insert(id, filed(kind, client_id, amount)),
    {
        self.records.insert(
            id,
            Record { kind, client_id, amount, disputed: false, locked: false },
        );
    }

    /// The record filed under an id, if there is one.
    pub fn lookup(&self, id: u32) -> (r: Option<Record>)
        ensures
            r == if self@.contains_key(id) {
                Some(self@[id])
            } else {
                None
            },
    {
        match self.records.get(&id) {
            Some(record) => Some(*record),
            None => None,
        }
    }

    /// The record filed under an id, if there is one, to be changed in place.
    pub fn lookup_mut(&mut self, id: u32) -> (r: Option<&mut Record>)
        ensures
            match r {
                Some(record) => old(self)@.contains_key(id) && *record == old(self)@[id]
                    && final(self)@ == old(self)@.insert(id, *final(record)),
                None => !old(self)@.contains_key(id) && final(self)@ == old(self)@,
            },
    {
        match self.records.entry(id) {
            Entry::Occupied(entry) => Some(entry.into_mut()),
            Entry::Vacant(_) => None,
        }
    }
}

} // verus!
