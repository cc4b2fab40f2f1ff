//! In-memory implementation of the [`Store`] trait.

use vstd::prelude::*;
use std::collections::HashMap;
use crate::account::Account;
use crate::common::ClientId;
use crate::store::{
    Store, StoreError, StoreResult,
};
use crate::transaction::{Transaction, TransactionId};

verus! {

broadcast use vstd::std_specs::hash::group_hash_axioms;

/// In-memory implementation of the [`Store`] trait. Useful for testing and
/// simple scenarios.
///
/// # Important
/// This store only records [`Transaction::Deposit`] transactions; all the
/// other variants are not stored.
///
/// # Testing
/// The inner maps are exposed for inspection, and a flag can force every
/// account upsert to fail.
#[derive(Debug)]
pub struct MemoryStore {
    deposits: HashMap<TransactionId, Transaction>,
    accounts: HashMap<ClientId, Account>,
    clients: Vec<ClientId>,
    enable_upsert_account_failure: bool,
}

/// Relies on std's `HashMap::keys`: it visits every key of the map exactly
/// once, in arbitrary order.
#[verifier::external_body]
fn account_map_keys(m: &HashMap<ClientId, Account>) -> (r: Vec<ClientId>)
    ensures
        r@.no_duplicates(),
        r@.to_set() == m@.dom(),
{
    m.keys().copied().collect()
}

impl MemoryStore {
    /// Creates a new, empty [`MemoryStore`].
    pub fn new() -> (r: Self)
        ensures
            r.inv(),
            r.upsert_ok(),
            r.deposits_view() == Map::<TransactionId, Transaction>::empty(),
            r.accounts_view() == Map::<ClientId, Account>::empty(),
            r.clients_order() == Seq::<ClientId>::empty(),
    {
        let r = MemoryStore {
            deposits: HashMap::new(),
            accounts: HashMap::new(),
            clients: Vec::new(),
            enable_upsert_account_failure: false,
        };
        proof {
            assert(r.clients@.to_set() =~= r.accounts@.dom());
        }
        r
    }

    /// Creates a new [`MemoryStore`] holding the given deposits and accounts.
    pub fn seeded(
        deposits: Option<HashMap<TransactionId, Transaction>>,
        accounts: Option<HashMap<ClientId, Account>>,
    ) -> (r: Self)
        ensures
            r.inv(),
            r.upsert_ok(),
            r.deposits_view() == (match deposits {
                Some(d) => d@,
                None => Map::<TransactionId, Transaction>::empty(),
            }),
            r.accounts_view() == (match accounts {
                Some(a) => a@,
                None => Map::<ClientId, Account>::empty(),
            }),
    {
        let deposits = match deposits {
            Some(d) => d,
            None => HashMap::new(),
        };
        let accounts = match accounts {
            Some(a) => a,
            None => HashMap::new(),
        };
        let clients = account_map_keys(&accounts);
        MemoryStore { deposits, accounts, clients, enable_upsert_account_failure: false }
    }

    /// The recorded deposits, for inspection.
    pub fn deposits(&self) -> (r: &HashMap<TransactionId, Transaction>)
        ensures
            r@ == self.deposits_view(),
    {
        &self.deposits
    }

    /// The stored accounts, for inspection.
    pub fn accounts(&self) -> (r: &HashMap<ClientId, Account>)
        ensures
            r@ == self.accounts_view(),
    {
        &self.accounts
    }

    /// Returns the number of recorded transactions.
    pub fn transactions_len(&self) -> (r: usize)
        ensures
            r == self.deposits_view().len(),
    {
        self.deposits.len()
    }

    /// Returns the number of stored accounts.
    pub fn accounts_len(&self) -> (r: usize)
        ensures
            r == self.accounts_view().len(),
    {
        self.accounts.len()
    }

    /// Makes every following account upsert fail (or succeed again).
    pub fn set_enable_upsert_account_failure(&mut self, enable: bool)
        ensures
            final(self).inv() == old(self).inv(),
            final(self).deposits_view() == old(self).deposits_view(),
            final(self).accounts_view() == old(self).accounts_view(),
            final(self).clients_order() == old(self).clients_order(),
            final(self).upsert_ok() == !enable,
    {
        self.enable_upsert_account_failure = enable;
    }

    /// Whether account upserts are currently forced to fail.
    pub fn enable_upsert_account_failure(&self) -> (r: bool)
        ensures
            r == !self.upsert_ok(),
    {
        self.enable_upsert_account_failure
    }
}

impl Default for MemoryStore {
    /// A new, empty [`MemoryStore`].
    fn default() -> (r: Self)
        ensures
            r.inv(),
            r.upsert_ok(),
            r.deposits_view() == Map::<TransactionId, Transaction>::empty(),
            r.accounts_view() == Map::<ClientId, Account>::empty(),
            r.clients_order() == Seq::<ClientId>::empty(),
    {
        MemoryStore::new()
    }
}

impl Store for MemoryStore {
    closed spec fn deposits_view(&self) -> Map<TransactionId, Transaction> {
        self.deposits@
    }

    closed spec fn accounts_view(&self) -> Map<ClientId, Account> {
        self.accounts@
    }

    closed spec fn clients_order(&self) -> Seq<ClientId> {
        self.clients@
    }

    closed spec fn upsert_ok(&self) -> bool {
        !self.enable_upsert_account_failure
    }

    closed spec fn inv(&self) -> bool {
        &&& self.clients@.no_duplicates()
        &&& self.clients@.to_set() == self.accounts@.dom()
    }

    proof fn lemma_inv(&self) {
    }

    fn get_transaction(&self, id: TransactionId) -> (r: StoreResult<Transaction>) {
        match self.deposits.get(&id) {
            Some(tx) => Ok(*tx),
            None => Err(StoreError::NotFound { id }),
        }
    }

    fn create_transaction(&mut self, transaction: Transaction) -> (r: StoreResult<Transaction>) {
        if matches!(&transaction, Transaction::Deposit { .. }) {
            let transaction_id = transaction.info().id;
            if self.deposits.contains_key(&transaction_id) {
                Err(StoreError::AlreadyExists { id: transaction_id })
            } else {
                self.deposits.insert(transaction_id, transaction);
                Ok(transaction)
            }
        } else {
            Ok(transaction)
        }
    }

    fn delete_transaction(&mut self, id: TransactionId) -> (r: StoreResult<()>) {
        self.deposits.remove(&id);
        Ok(())
    }

    fn set_transaction_under_dispute(&mut self, id: TransactionId, under_dispute: bool) -> (r:
        StoreResult<()>) {
        let current = match self.deposits.get(&id) {
            Some(tx) => Some(*tx),
            None => None,
        };
        if let Some(mut tx) = current {
            tx.set_under_dispute(under_dispute);
            self.deposits.insert(id, tx);
        }
        Ok(())
    }

    fn toggle_under_dispute(&mut self, id: TransactionId) -> (r: StoreResult<()>) {
        let current = match self.deposits.get(&id) {
            Some(tx) => Some(*tx),
            None => None,
        };
        if let Some(mut tx) = current {
            tx.toggle_under_dispute();
            self.deposits.insert(id, tx);
        }
        Ok(())
    }

    fn get_account(&self, id: ClientId) -> (r: StoreResult<Account>) {
        match self.accounts.get(&id) {
            Some(account) => Ok(*account),
            None => Ok(Account::new(id)),
        }
    }

    fn upsert_account(&mut self, account: &Account) -> (r: StoreResult<()>) {
        if self.enable_upsert_account_failure {
            return Err(StoreError::AccessError("Test Error".to_owned()));
        }
        let client = account.client;
        if !self.accounts.contains_key(&client) {
            proof {
                assert(!self.clients@.to_set().contains(client));
                assert(!self.clients@.contains(client));
                crate::store::lemma_push_keeps_order_inv(self.clients@, client);
            }
            self.clients.push(client);
        }
        self.accounts.insert(client, *account);
        proof {
            assert(self.clients@.to_set() =~= self.accounts@.dom());
        }
        Ok(())
    }

    fn get_all_accounts(&self) -> (r: StoreResult<Vec<Account>>) {
        let mut v: Vec<Account> = Vec::new();
        let mut i: usize = 0;
        while i < self.clients.len()
            invariant
                self.inv(),
                i <= self.clients@.len(),
                v@.len() == i,
                forall|j: int|
                    0 <= j < i ==> v@[j] == self.accounts_view()[self.clients_order()[j]],
            decreases self.clients@.len() - i,
        {
            let c = self.clients[i];
            proof {
                assert(self.clients@.to_set().contains(c));
            }
            match self.accounts.get(&c) {
                Some(account) => v.push(*account),
                None => {
                    proof {
                        assert(false);
                    }
                    v.push(Account::new(c))
                },
            }
            i = i + 1;
        }
        proof {
            assert(v@ =~= Seq::new(
                self.clients_order().len(),
                |i: int| self.accounts_view()[self.clients_order()[i]],
            ));
        }
        Ok(v)
    }
}

} // verus!
