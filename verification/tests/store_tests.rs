use std::collections::HashMap;
use payments_engine::account::Account;
use payments_engine::amount::Amount;
use payments_engine::memory_store::MemoryStore;
use payments_engine::store::{Store, StoreError};
use payments_engine::transaction::Transaction;

fn amt(mantissa: i128, scale: u32) -> Amount {
    Amount::new(mantissa, scale).unwrap()
}

#[test]
fn get_transaction_works() {
    let transaction_id = 1;
    let transaction = Transaction::deposit(transaction_id, 1, amt(10001, 4));
    let mut deposits = HashMap::new();
    deposits.insert(transaction_id, transaction.clone());

    let store = MemoryStore::seeded(Some(deposits), None);

    let result = store.get_transaction(transaction_id);

    assert!(result.is_ok());
    assert_eq!(result.unwrap(), transaction);
}

#[test]
fn get_transaction_returns_not_found_if_transaction_does_not_exist() {
    let transaction_id = 1;
    let transaction = Transaction::deposit(transaction_id, 1, amt(10001, 4));
    let mut deposits = HashMap::new();
    deposits.insert(transaction_id, transaction.clone());

    let store = MemoryStore::seeded(Some(deposits), None);

    let unexisting_transaction_id = 2;
    let result = store.get_transaction(unexisting_transaction_id);

    assert!(result.is_err());
    assert_eq!(result.unwrap_err(), StoreError::NotFound { id: unexisting_transaction_id });
}

#[test]
fn create_transaction_works() {
    let mut store = MemoryStore::new();
    let transaction_id = 1;
    let transaction = Transaction::deposit(transaction_id, 1, amt(10001, 4));

    let result = store.create_transaction(transaction.clone());

    assert!(result.is_ok());
    assert_eq!(result.unwrap(), transaction);

    let result = store.get_transaction(transaction_id);

    assert!(result.is_ok());
    assert_eq!(result.unwrap(), transaction);
}

#[test]
fn create_transaction_returns_already_exists_if_transaction_already_exists() {
    let transaction_id = 1;
    let transaction = Transaction::deposit(transaction_id, 1, amt(10001, 4));
    let mut deposits = HashMap::new();
    deposits.insert(transaction_id, transaction.clone());

    let mut store = MemoryStore::seeded(Some(deposits), None);

    let result = store.create_transaction(transaction.clone());

    assert!(result.is_err());
    assert_eq!(result.unwrap_err(), StoreError::AlreadyExists { id: transaction_id });
}

#[test]
fn create_transaction_only_saves_deposits() {
    let deposit = Transaction::deposit(1, 1, amt(10001, 4));
    let mut store = MemoryStore::new();
    let _ = store.create_transaction(deposit.clone());
    let _ = store.create_transaction(Transaction::withdrawal(1, 1, amt(10001, 4)));
    let _ = store.create_transaction(Transaction::dispute(1, 1));
    let _ = store.create_transaction(Transaction::resolve(1, 1));
    let _ = store.create_transaction(Transaction::chargeback(1, 1));

    let result = store.get_transaction(deposit.info().id);

    assert!(result.is_ok());
    assert_eq!(result.unwrap(), deposit);

    let withdrawal = store.get_transaction(2);
    let dispute = store.get_transaction(3);
    let resolve = store.get_transaction(4);
    let chargeback = store.get_transaction(5);

    assert!(withdrawal.is_err());
    assert!(dispute.is_err());
    assert!(resolve.is_err());
    assert!(chargeback.is_err());
}

#[test]
fn delete_transaction_works() {
    let txs = vec![
        Transaction::deposit(1, 1, amt(10, 1)),
        Transaction::deposit(2, 1, amt(20, 1)),
        Transaction::deposit(3, 1, amt(30, 1)),
    ];
    let mut deposits = HashMap::new();
    for tx in txs.into_iter() {
        deposits.insert(tx.info().id, tx);
    }

    let mut store = MemoryStore::seeded(Some(deposits), None);

    store.delete_transaction(1).unwrap();
    assert!(store.get_transaction(1).is_err());

    // deleting non-existing transaction should not fail
    assert!(store.delete_transaction(1).is_ok());
}

#[test]
fn get_account_works() {
    let account = Account::seeded(1, amt(103001, 4), amt(540, 2), false);
    let mut accounts = HashMap::new();
    accounts.insert(account.client, account.clone());

    let store = MemoryStore::seeded(None, Some(accounts));

    let result = store.get_account(account.client);

    assert!(result.is_ok());
    assert_eq!(result.unwrap(), account);
}

#[test]
fn get_account_returns_new_account_if_not_exists_but_does_not_create_it() {
    let store = MemoryStore::new();
    let result = store.get_account(1);

    assert!(result.is_ok());
    assert_eq!(result.unwrap(), Account::new(1));
    assert_eq!(store.transactions_len(), 0)
}

#[test]
fn upsert_account_creates_new_account_if_does_not_exist() {
    let mut store = MemoryStore::new();
    let account = Account::seeded(1, amt(103001, 4), amt(540, 2), false);

    let result = store.upsert_account(&account);

    assert!(result.is_ok());

    let result = store.get_account(1);

    assert!(result.is_ok());
    assert_eq!(result.unwrap(), account);
    assert_eq!(store.accounts_len(), 1);
}

#[test]
fn upsert_account_updates_account_if_exists() {
    let mut accounts = HashMap::new();
    accounts.insert(1, Account::seeded(1, amt(103001, 4), amt(540, 2), false));

    let mut store = MemoryStore::seeded(None, Some(accounts));

    let update = Account::seeded(1, amt(5, 0), amt(540, 2), false);

    let result = store.upsert_account(&update);

    assert!(result.is_ok());

    let result = store.get_account(1);

    assert!(result.is_ok());
    assert_eq!(result.unwrap(), update);
    assert_eq!(store.accounts_len(), 1);
}

#[test]
fn get_all_accounts_returns_each_seeded_account_once() {
    let mut accounts = HashMap::new();
    accounts.insert(1, Account::seeded(1, amt(10, 0), amt(0, 0), false));
    accounts.insert(2, Account::seeded(2, amt(20, 0), amt(5, 0), true));

    let store = MemoryStore::seeded(None, Some(accounts));

    let mut all = store.get_all_accounts().unwrap();
    all.sort_by_key(|a| a.client);
    assert_eq!(all.len(), 2);
    assert_eq!(all[0], Account::seeded(1, amt(10, 0), amt(0, 0), false));
    assert_eq!(all[1], Account::seeded(2, amt(20, 0), amt(5, 0), true));
}

#[test]
fn upsert_failure_flag_makes_upserts_fail_and_leaves_the_store_unchanged() {
    let mut store = MemoryStore::new();
    store.set_enable_upsert_account_failure(true);
    assert!(store.enable_upsert_account_failure());
    let account = Account::new(7);
    let result = store.upsert_account(&account);
    assert_eq!(result.unwrap_err(), StoreError::AccessError("Test Error".to_string()));
    assert_eq!(store.accounts_len(), 0);
}
