//! The persistence abstraction for transactions and accounts.

use vstd::prelude::*;
use crate::account::Account;
use crate::common::ClientId;
use crate::transaction::{Transaction, TransactionId};

verus! {

/// Error type for [`Store`] implementations.
#[derive(Debug, PartialEq, Eq)]
pub enum StoreError {
    /// No transaction with the given id is recorded.
    NotFound { id: TransactionId },
    /// A transaction with the given id is already recorded.
    AlreadyExists { id: TransactionId },
    /// The backend could not be accessed.
    AccessError(String),
    /// Any other failure.
    UnknownError(String),
}

/// Result for [`Store`] operations.
pub type StoreResult<T> = Result<T, StoreError>;

/// The [`Store`] trait is an abstraction over the storage of the transactions
/// and accounts.
///
/// A store is modelled by three pieces of abstract state: the map of recorded
/// deposits keyed by transaction id, the map of accounts keyed by client id,
/// and the order in which the accounts are enumerated. Every operation is
/// exact about how it changes that state; only [`Store::upsert_account`] may
/// fail, and whether it will is captured by [`Store::upsert_ok`].
pub trait Store: Sized {
    /// The recorded transactions, keyed by transaction id.
    spec fn deposits_view(&self) -> Map<TransactionId, Transaction>;

    /// The stored accounts, keyed by client id.
    spec fn accounts_view(&self) -> Map<ClientId, Account>;

    /// The order in which [`Store::get_all_accounts`] enumerates the stored
    /// accounts: each stored client exactly once.
    spec fn clients_order(&self) -> Seq<ClientId>;

    /// Whether the next [`Store::upsert_account`] will succeed.
    spec fn upsert_ok(&self) -> bool;

    /// The store's internal consistency; established by its constructors and
    /// preserved by every operation.
    spec fn inv(&self) -> bool;

    /// A consistent store enumerates exactly its stored clients, each once.
    proof fn lemma_inv(&self)
        requires
            self.inv(),
        ensures
            self.clients_order().no_duplicates(),
            self.clients_order().to_set() == self.accounts_view().dom(),
    ;

    /// Gets a [`Transaction`] by its id. If it doesn't exist, it returns a
    /// [`StoreError::NotFound`].
    fn get_transaction(&self, id: TransactionId) -> (r: StoreResult<Transaction>)
        requires
            self.inv(),
        ensures
            self.deposits_view().contains_key(id) ==> r == Ok::<Transaction, StoreError>(
                self.deposits_view()[id],
            ),
            !self.deposits_view().contains_key(id) ==> r == Err::<Transaction, StoreError>(
                StoreError::NotFound { id },
            ),
    ;

    /// Creates a new [`Transaction`] and returns it. If a deposit with the
    /// same id already exists, it returns a [`StoreError::AlreadyExists`].
    /// Only deposits are recorded; every other kind is returned unchanged
    /// without being stored.
    fn create_transaction(&mut self, transaction: Transaction) -> (r: StoreResult<Transaction>)
        requires
            old(self).inv(),
        ensures
            final(self).inv(),
            final(self).accounts_view() == old(self).accounts_view(),
            final(self).clients_order() == old(self).clients_order(),
            final(self).upsert_ok() == old(self).upsert_ok(),
            transaction.is_deposit() && old(self).deposits_view().contains_key(
                transaction.spec_info().id,
            ) ==> r == Err::<Transaction, StoreError>(
                StoreError::AlreadyExists { id: transaction.spec_info().id },
            ) && final(self).deposits_view() == old(self).deposits_view(),
            transaction.is_deposit() && !old(self).deposits_view().contains_key(
                transaction.spec_info().id,
            ) ==> r == Ok::<Transaction, StoreError>(transaction) && final(self).deposits_view()
                == old(self).deposits_view().insert(transaction.spec_info().id, transaction),
            !transaction.is_deposit() ==> r == Ok::<Transaction, StoreError>(transaction)
                && final(self).deposits_view() == old(self).deposits_view(),
    ;

    /// Deletes a [`Transaction`]. Deleting a nonexistent id is a success.
    fn delete_transaction(&mut self, id: TransactionId) -> (r: StoreResult<()>)
        requires
            old(self).inv(),
        ensures
            final(self).inv(),
            final(self).accounts_view() == old(self).accounts_view(),
            final(self).clients_order() == old(self).clients_order(),
            final(self).upsert_ok() == old(self).upsert_ok(),
            r == Ok::<(), StoreError>(()),
            final(self).deposits_view() == old(self).deposits_view().remove(id),
    ;

    /// Sets a [`Transaction`]'s dispute flag; a nonexistent id is a silent
    /// no-op.
    fn set_transaction_under_dispute(&mut self, id: TransactionId, under_dispute: bool) -> (r:
        StoreResult<()>)
        requires
            old(self).inv(),
        ensures
            final(self).inv(),
            final(self).accounts_view() == old(self).accounts_view(),
            final(self).clients_order() == old(self).clients_order(),
            final(self).upsert_ok() == old(self).upsert_ok(),
            r == Ok::<(), StoreError>(()),
            final(self).deposits_view() == spec_set_under_dispute(
                old(self).deposits_view(),
                id,
                under_dispute,
            ),
    ;

    /// Toggles a [`Transaction`]'s dispute flag; a nonexistent id is a silent
    /// no-op.
    fn toggle_under_dispute(&mut self, id: TransactionId) -> (r: StoreResult<()>)
        requires
            old(self).inv(),
        ensures
            final(self).inv(),
            final(self).accounts_view() == old(self).accounts_view(),
            final(self).clients_order() == old(self).clients_order(),
            final(self).upsert_ok() == old(self).upsert_ok(),
            r == Ok::<(), StoreError>(()),
            final(self).deposits_view() == spec_toggle_under_dispute(
                old(self).deposits_view(),
                id,
            ),
    ;

    /// Gets the current state of the [`Account`]. If the [`Account`] does not
    /// exist, it returns a fresh zeroed [`Account`] without creating it in
    /// the store.
    fn get_account(&self, id: ClientId) -> (r: StoreResult<Account>)
        requires
            self.inv(),
        ensures
            self.accounts_view().contains_key(id) ==> r == Ok::<Account, StoreError>(
                self.accounts_view()[id],
            ),
            !self.accounts_view().contains_key(id) ==> r == Ok::<Account, StoreError>(
                Account::spec_new(id),
            ),
    ;

    /// Updates the state of the [`Account`], creating it if it does not
    /// exist. This is the one operation that may fail; it fails exactly when
    /// [`Store::upsert_ok`] does not hold, and then leaves the store
    /// unchanged.
    fn upsert_account(&mut self, account: &Account) -> (r: StoreResult<()>)
        requires
            old(self).inv(),
        ensures
            final(self).inv(),
            final(self).deposits_view() == old(self).deposits_view(),
            final(self).upsert_ok() == old(self).upsert_ok(),
            old(self).upsert_ok() ==> r == Ok::<(), StoreError>(()) && final(self).accounts_view()
                == old(self).accounts_view().insert(account.client, *account)
                && final(self).clients_order() == (if old(self).accounts_view().contains_key(
                account.client,
            ) {
                old(self).clients_order()
            } else {
                old(self).clients_order().push(account.client)
            }),
            !old(self).upsert_ok() ==> (r is Err) && final(self).accounts_view() == old(
                self,
            ).accounts_view() && final(self).clients_order() == old(self).clients_order(),
    ;

    /// Returns the current balance of every stored [`Account`], one per
    /// stored client, in the store's enumeration order.
    fn get_all_accounts(&self) -> (r: StoreResult<Vec<Account>>)
        requires
            self.inv(),
        ensures
            r matches Ok(v) && v@ == Seq::new(
                self.clients_order().len(),
                |i: int| self.accounts_view()[self.clients_order()[i]],
            ),
    ;
}

/// The deposits map after setting the dispute flag of the transaction
/// recorded under `id`; unchanged when no transaction is recorded under `id`
/// or when that transaction is not a deposit.
pub open spec fn spec_set_under_dispute(
    deposits: Map<TransactionId, Transaction>,
    id: TransactionId,
    under_dispute: bool,
) -> Map<TransactionId, Transaction> {
    if deposits.contains_key(id) {
        deposits.insert(id, deposits[id].with_under_dispute(under_dispute))
    } else {
        deposits
    }
}

/// The deposits map after flipping the dispute flag of the transaction
/// recorded under `id`; unchanged when no transaction is recorded under `id`
/// or when that transaction is not a deposit.
pub open spec fn spec_toggle_under_dispute(
    deposits: Map<TransactionId, Transaction>,
    id: TransactionId,
) -> Map<TransactionId, Transaction> {
    if deposits.contains_key(id) {
        deposits.insert(id, deposits[id].with_toggled_dispute())
    } else {
        deposits
    }
}

/// Appending a fresh element keeps a duplicate-free sequence duplicate-free
/// and adds exactly that element to its set of elements.
pub proof fn lemma_push_keeps_order_inv(s: Seq<ClientId>, c: ClientId)
    requires
        s.no_duplicates(),
        !s.contains(c),
    ensures
        s.push(c).no_duplicates(),
        s.push(c).to_set() == s.to_set().insert(c),
{
    let p = s.push(c);
    assert forall|i: int, j: int| 0 <= i < p.len() && 0 <= j < p.len() && i != j implies p[i]
        != p[j] by {
        if i < s.len() && j < s.len() {
        } else if i == s.len() {
            assert(s[j] == p[j]);
            assert(!s.contains(c));
        } else if j == s.len() {
            assert(s[i] == p[i]);
            assert(!s.contains(c));
        }
    }
    assert(p.to_set() =~= s.to_set().insert(c)) by {
        assert forall|x: ClientId| p.to_set().contains(x) implies s.to_set().insert(c).contains(
            x,
        ) by {
            let k = choose|k: int| 0 <= k < p.len() && p[k] == x;
            if k < s.len() {
                assert(s.contains(x));
            }
        }
        assert forall|x: ClientId| s.to_set().insert(c).contains(x) implies p.to_set().contains(
            x,
        ) by {
            if x == c {
                assert(p[s.len() as int] == c);
            } else {
                let k = choose|k: int| 0 <= k < s.len() && s[k] == x;
                assert(p[k] == x);
            }
        }
    }
}

} // verus!
