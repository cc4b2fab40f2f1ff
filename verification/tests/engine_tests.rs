use std::collections::HashMap;
use payments_engine::account::Account;
use payments_engine::amount::{Amount, MAX_MANTISSA};
use payments_engine::engine::{Engine, EngineError};
use payments_engine::memory_store::MemoryStore;
use payments_engine::store::{Store, StoreError};
use payments_engine::transaction::{Transaction, TransactionId};

fn amt(n: i64) -> Amount {
    Amount::from_int(n)
}

/// Asserts that a particular deposit is under a particular dispute state.
fn assert_under_dispute(store: &MemoryStore, id: TransactionId, under_dispute_state: bool) {
    let deposits = store.deposits();
    if let Some(Transaction::Deposit { under_dispute, .. }) = deposits.get(&id) {
        assert_eq!(*under_dispute, under_dispute_state);
    } else {
        panic!("Deposit not found");
    }
}

#[test]
fn no_transaction_must_be_applied_if_the_account_is_locked() {
    // locked account
    let account = Account::seeded(1, amt(10), Amount::zero(), true);
    let mut store = MemoryStore::new();
    store.upsert_account(&account).unwrap();

    assert_eq!(account.available, amt(10));
    assert_eq!(account.held, Amount::zero());
    assert_eq!(account.total, amt(10));
    assert!(account.locked);

    let mut engine = Engine::new(store);

    let deposit = Transaction::deposit(2, 1, amt(10));
    let withdrawal = Transaction::withdrawal(3, 1, amt(10));
    let resolve = Transaction::resolve(1, 1);
    let chargeback = Transaction::chargeback(1, 1);

    assert_eq!(
        engine.process_transaction(deposit).unwrap_err(),
        EngineError::LockedAccount { id: 1, tx: 2 },
        "Deposit should fail if the account is locked"
    );
    assert_eq!(
        engine.process_transaction(withdrawal).unwrap_err(),
        EngineError::LockedAccount { id: 1, tx: 3 },
        "Withdrawal should fail if the account is locked"
    );
    assert_eq!(
        engine.process_transaction(resolve).unwrap_err(),
        EngineError::LockedAccount { id: 1, tx: 1 },
        "Resolve should fail if the account is locked"
    );
    assert_eq!(
        engine.process_transaction(chargeback).unwrap_err(),
        EngineError::LockedAccount { id: 1, tx: 1 },
        "Chargeback should fail if the account is locked"
    );

    // account in same state
    assert_eq!(account.available, amt(10));
    assert_eq!(account.held, Amount::zero());
    assert_eq!(account.total, amt(10));
    assert!(account.locked);
}

#[test]
fn on_deposit_available_and_total_must_be_increased() {
    let account = Account::new(1);
    let mut store = MemoryStore::new();
    store.upsert_account(&account).unwrap();

    assert_eq!(account.available, Amount::zero());
    assert_eq!(account.held, Amount::zero());
    assert_eq!(account.total, Amount::zero());

    let mut engine = Engine::new(store);
    let deposit = Transaction::deposit(1, 1, amt(10));
    let account = engine.process_transaction(deposit).unwrap();

    assert_eq!(account.available, amt(10));
    assert_eq!(account.held, Amount::zero());
    assert_eq!(account.total, amt(10));
}

#[test]
fn on_withdrawal_available_and_total_must_be_decreased() {
    let account = Account::seeded(1, amt(10), Amount::zero(), false);
    let mut store = MemoryStore::new();
    store.upsert_account(&account).unwrap();

    assert_eq!(account.available, amt(10));
    assert_eq!(account.held, Amount::zero());
    assert_eq!(account.total, amt(10));

    let mut engine = Engine::new(store);
    let withdrawal = Transaction::withdrawal(1, 1, amt(8));
    let account = engine.process_transaction(withdrawal).unwrap();

    assert_eq!(account.available, amt(2));
    assert_eq!(account.held, Amount::zero());
    assert_eq!(account.total, amt(2));
}

#[test]
fn on_withdrawal_if_available_is_not_enough_do_not_apply_transaction() {
    let account = Account::seeded(1, amt(10), Amount::zero(), false);
    let mut store = MemoryStore::new();
    store.upsert_account(&account).unwrap();

    assert_eq!(account.available, amt(10));
    assert_eq!(account.held, Amount::zero());
    assert_eq!(account.total, amt(10));

    let mut engine = Engine::new(store);
    let withdrawal = Transaction::withdrawal(1, 1, amt(12));
    let err = engine.process_transaction(withdrawal).unwrap_err();

    // it should error
    assert_eq!(err, EngineError::InsufficientAvailableFunds);
    // it should not change the account
    assert_eq!(account.available, amt(10));
    assert_eq!(account.held, Amount::zero());
    assert_eq!(account.total, amt(10));
    // it should not rollback
    assert_eq!(engine.store.transactions_len(), 0);
}

#[test]
fn on_dispute_available_should_decrease_held_increase_total_remain() {
    let account = Account::seeded(1, amt(10), Amount::zero(), false);
    let mut deposits = HashMap::new();
    deposits.insert(1, Transaction::deposit(1, 1, amt(10)));
    let mut store = MemoryStore::seeded(Some(deposits), None);
    store.upsert_account(&account).unwrap();

    assert_eq!(account.available, amt(10));
    assert_eq!(account.held, Amount::zero());
    assert_eq!(account.total, amt(10));
    assert_eq!(store.transactions_len(), 1);
    assert_eq!(store.accounts_len(), 1);

    let mut engine = Engine::new(store);
    let dispute = Transaction::dispute(1, 1);
    let account = engine.process_transaction(dispute).unwrap();

    assert_eq!(account.available, Amount::zero());
    assert_eq!(account.held, amt(10));
    assert_eq!(account.total, amt(10));

    assert_under_dispute(&engine.store, 1, true);
}

#[test]
fn on_dispute_the_referenced_tx_must_be_a_deposit() {
    // this case is not really possible when every transaction goes through
    // the engine, but it is useful for other kinds of stores.
    let account = Account::seeded(1, amt(10), Amount::zero(), false);
    let mut deposits = HashMap::new();
    deposits.insert(1, Transaction::deposit(1, 1, amt(10)));
    // inserting a withdrawal directly, to exercise the engine's check
    deposits.insert(2, Transaction::withdrawal(2, 1, amt(1)));
    let mut store = MemoryStore::seeded(Some(deposits), None);
    store.upsert_account(&account).unwrap();

    assert_eq!(account.available, amt(10));
    assert_eq!(account.held, Amount::zero());
    assert_eq!(account.total, amt(10));
    assert_eq!(store.transactions_len(), 2);
    assert_eq!(store.accounts_len(), 1);

    let mut engine = Engine::new(store);
    // referencing a withdrawal
    let dispute = Transaction::dispute(2, 1);
    let err = engine.process_transaction(dispute).unwrap_err();
    // it should error
    assert_eq!(err, EngineError::WrongTransactionRef { id: 2 });
    // it should not change the account
    assert_eq!(account.available, amt(10));
    assert_eq!(account.held, Amount::zero());
    assert_eq!(account.total, amt(10));
    // it should not rollback
    assert_eq!(engine.store.transactions_len(), 2);
    // no disputes
    assert_under_dispute(&engine.store, 1, false);
}

#[test]
fn on_dispute_do_not_apply_transaction_if_already_under_dispute() {
    let account = Account::seeded(1, amt(10), Amount::zero(), false);
    let mut deposits = HashMap::new();
    deposits.insert(1, Transaction::deposit(1, 1, amt(10)));
    let mut store = MemoryStore::seeded(Some(deposits), None);
    store.upsert_account(&account).unwrap();

    assert_eq!(account.available, amt(10));
    assert_eq!(account.held, Amount::zero());
    assert_eq!(account.total, amt(10));
    assert_eq!(store.transactions_len(), 1);
    assert_eq!(store.accounts_len(), 1);

    let mut engine = Engine::new(store);
    let dispute = Transaction::dispute(1, 1);
    let account = engine.process_transaction(dispute).unwrap();

    assert_eq!(account.available, Amount::zero());
    assert_eq!(account.held, amt(10));
    assert_eq!(account.total, amt(10));

    assert_under_dispute(&engine.store, 1, true);

    // double dispute
    let dispute = Transaction::dispute(1, 1);
    let err = engine.process_transaction(dispute).unwrap_err();
    assert_eq!(err, EngineError::DoubleDispute { id: 1 });
    // still in dispute
    assert_under_dispute(&engine.store, 1, true);
}

#[test]
fn on_dispute_ignore_transaction_if_ref_transaction_does_not_exist() {
    let account = Account::seeded(1, amt(10), Amount::zero(), false);
    let mut deposits = HashMap::new();
    deposits.insert(1, Transaction::deposit(1, 1, amt(10)));
    let mut store = MemoryStore::seeded(Some(deposits), None);
    store.upsert_account(&account).unwrap();

    assert_eq!(account.available, amt(10));
    assert_eq!(account.held, Amount::zero());
    assert_eq!(account.total, amt(10));
    assert_eq!(store.transactions_len(), 1);
    assert_eq!(store.accounts_len(), 1);

    let mut engine = Engine::new(store);
    let dispute = Transaction::dispute(2, 1);
    let account = engine.process_transaction(dispute).unwrap();

    assert_eq!(account.available, amt(10));
    assert_eq!(account.held, Amount::zero());
    assert_eq!(account.total, amt(10));

    assert_under_dispute(&engine.store, 1, false);
}

#[test]
fn on_dispute_error_if_no_enough_available_funds() {
    let account = Account::new(1);
    let mut deposits = HashMap::new();
    deposits.insert(1, Transaction::deposit(1, 1, amt(10)));
    let mut store = MemoryStore::seeded(Some(deposits), None);
    store.upsert_account(&account).unwrap();

    assert_eq!(account.available, Amount::zero());
    assert_eq!(account.held, Amount::zero());
    assert_eq!(account.total, Amount::zero());
    assert_eq!(store.transactions_len(), 1);
    assert_eq!(store.accounts_len(), 1);

    let mut engine = Engine::new(store);
    let dispute = Transaction::dispute(1, 1);
    let err = engine.process_transaction(dispute).unwrap_err();
    assert_eq!(err, EngineError::InsufficientAvailableFunds);

    assert_eq!(account.available, Amount::zero());
    assert_eq!(account.held, Amount::zero());
    assert_eq!(account.total, Amount::zero());

    assert_under_dispute(&engine.store, 1, false);
}

#[test]
fn on_dispute_error_if_tx_client_is_wrong() {
    let mut deposits = HashMap::new();
    deposits.insert(1, Transaction::deposit(1, 1, amt(10)));
    deposits.insert(2, Transaction::deposit(2, 2, amt(20)));
    let account_1 = Account::seeded(1, amt(10), Amount::zero(), false);
    let account_2 = Account::seeded(2, amt(20), Amount::zero(), false);
    let mut store = MemoryStore::seeded(Some(deposits), None);
    store.upsert_account(&account_1).unwrap();
    store.upsert_account(&account_2).unwrap();

    assert_eq!(store.transactions_len(), 2);
    assert_eq!(store.accounts_len(), 2);

    let mut engine = Engine::new(store);
    let dispute = Transaction::dispute(2, 1);
    let err = engine.process_transaction(dispute).unwrap_err();
    assert_eq!(err, EngineError::TransactionRefWrongClient { id: 2, client: 2, wrong_client: 1 });
    // not under dispute
    assert_under_dispute(&engine.store, 1, false);
    assert_under_dispute(&engine.store, 2, false);
}

#[test]
fn on_resolve_held_should_decrease_available_increase_total_remain_and_no_dispute() {
    let account = Account::seeded(1, Amount::zero(), amt(10), false);
    let mut deposits = HashMap::new();
    deposits.insert(1, Transaction::deposit_under_dispute(1, 1, amt(10)));
    let mut store = MemoryStore::seeded(Some(deposits), None);
    store.upsert_account(&account).unwrap();

    assert_eq!(account.available, Amount::zero());
    assert_eq!(account.held, amt(10));
    assert_eq!(account.total, amt(10));
    assert_eq!(store.transactions_len(), 1);
    assert_eq!(store.accounts_len(), 1);
    assert_under_dispute(&store, 1, true);

    let mut engine = Engine::new(store);
    let resolve = Transaction::resolve(1, 1);
    let account = engine.process_transaction(resolve).unwrap();

    assert_eq!(account.available, amt(10));
    assert_eq!(account.held, Amount::zero());
    assert_eq!(account.total, amt(10));

    // no longer under dispute
    assert_under_dispute(&engine.store, 1, false);
}

#[test]
fn on_resolve_the_referenced_tx_must_be_a_deposit() {
    // this case is not really possible when every transaction goes through
    // the engine, but it is useful for other kinds of stores.
    let account = Account::seeded(1, amt(10), Amount::zero(), false);
    let mut deposits = HashMap::new();
    deposits.insert(1, Transaction::deposit_under_dispute(1, 1, amt(10)));
    // inserting a withdrawal directly, to exercise the engine's check
    deposits.insert(2, Transaction::withdrawal(2, 1, amt(1)));
    let mut store = MemoryStore::seeded(Some(deposits), None);
    store.upsert_account(&account).unwrap();

    assert_eq!(account.available, amt(10));
    assert_eq!(account.held, Amount::zero());
    assert_eq!(account.total, amt(10));
    assert_eq!(store.transactions_len(), 2);
    assert_eq!(store.accounts_len(), 1);
    assert_under_dispute(&store, 1, true);

    let mut engine = Engine::new(store);
    // referencing a withdrawal
    let resolve = Transaction::resolve(2, 1);
    let err = engine.process_transaction(resolve).unwrap_err();
    // it should error
    assert_eq!(err, EngineError::WrongTransactionRef { id: 2 });
    // it should not change the account
    assert_eq!(account.available, amt(10));
    assert_eq!(account.held, Amount::zero());
    assert_eq!(account.total, amt(10));
    // it should not rollback
    assert_eq!(engine.store.transactions_len(), 2);
    // no disputes
    assert_under_dispute(&engine.store, 1, true);
}

#[test]
fn on_resolve_ignore_tx_if_not_under_dispute() {
    let account = Account::seeded(1, Amount::zero(), amt(10), false);
    let mut deposits = HashMap::new();
    deposits.insert(1, Transaction::deposit(1, 1, amt(10)));
    let mut store = MemoryStore::seeded(Some(deposits), None);
    store.upsert_account(&account).unwrap();

    assert_eq!(account.available, Amount::zero());
    assert_eq!(account.held, amt(10));
    assert_eq!(account.total, amt(10));
    assert_eq!(store.transactions_len(), 1);
    assert_eq!(store.accounts_len(), 1);
    assert_under_dispute(&store, 1, false);

    let mut engine = Engine::new(store);
    let resolve = Transaction::resolve(1, 1);
    let account = engine.process_transaction(resolve).unwrap();

    assert_eq!(account.available, Amount::zero());
    assert_eq!(account.held, amt(10));
    assert_eq!(account.total, amt(10));
    // still no dispute
    assert_under_dispute(&engine.store, 1, false);
}

#[test]
fn on_resolve_ignore_transaction_if_ref_transaction_does_not_exist() {
    let account = Account::seeded(1, amt(10), Amount::zero(), false);
    let mut deposits = HashMap::new();
    deposits.insert(1, Transaction::deposit_under_dispute(1, 1, amt(10)));
    let mut store = MemoryStore::seeded(Some(deposits), None);
    store.upsert_account(&account).unwrap();

    assert_eq!(account.available, amt(10));
    assert_eq!(account.held, Amount::zero());
    assert_eq!(account.total, amt(10));
    assert_eq!(store.transactions_len(), 1);
    assert_eq!(store.accounts_len(), 1);
    assert_under_dispute(&store, 1, true);

    let mut engine = Engine::new(store);
    let resolve = Transaction::resolve(2, 1);
    let account = engine.process_transaction(resolve).unwrap();

    assert_eq!(account.available, amt(10));
    assert_eq!(account.held, Amount::zero());
    assert_eq!(account.total, amt(10));

    assert_under_dispute(&engine.store, 1, true);
}

#[test]
fn on_resolve_error_if_no_enough_available_funds() {
    let account = Account::seeded(1, Amount::zero(), amt(10), false);
    let mut deposits = HashMap::new();
    deposits.insert(1, Transaction::deposit_under_dispute(1, 1, amt(20)));
    let mut store = MemoryStore::seeded(Some(deposits), None);
    store.upsert_account(&account).unwrap();

    assert_eq!(account.available, Amount::zero());
    assert_eq!(account.held, amt(10));
    assert_eq!(account.total, amt(10));
    assert_eq!(store.transactions_len(), 1);
    assert_eq!(store.accounts_len(), 1);
    assert_under_dispute(&store, 1, true);

    let mut engine = Engine::new(store);
    let resolve = Transaction::resolve(1, 1);
    let err = engine.process_transaction(resolve).unwrap_err();

    assert_eq!(err, EngineError::InsufficientHeldFunds);

    assert_eq!(account.available, Amount::zero());
    assert_eq!(account.held, amt(10));
    assert_eq!(account.total, amt(10));

    // still under dispute
    assert_under_dispute(&engine.store, 1, true);
}

#[test]
fn on_resolve_error_if_tx_client_is_wrong() {
    let mut deposits = HashMap::new();
    deposits.insert(1, Transaction::deposit_under_dispute(1, 1, amt(10)));
    deposits.insert(2, Transaction::deposit_under_dispute(2, 2, amt(20)));
    let account_1 = Account::seeded(1, amt(10), Amount::zero(), false);
    let account_2 = Account::seeded(2, amt(20), Amount::zero(), false);
    let mut store = MemoryStore::seeded(Some(deposits), None);
    store.upsert_account(&account_1).unwrap();
    store.upsert_account(&account_2).unwrap();

    assert_eq!(store.transactions_len(), 2);
    assert_eq!(store.accounts_len(), 2);

    let mut engine = Engine::new(store);
    let resolve = Transaction::resolve(2, 1);
    let err = engine.process_transaction(resolve).unwrap_err();
    assert_eq!(err, EngineError::TransactionRefWrongClient { id: 2, client: 2, wrong_client: 1 });
    // still under dispute
    assert_under_dispute(&engine.store, 1, true);
    assert_under_dispute(&engine.store, 2, true);
}

#[test]
fn on_chargeback_held_decrease_total_decrease_account_locked_and_no_dispute() {
    let account = Account::seeded(1, Amount::zero(), amt(10), false);
    let mut deposits = HashMap::new();
    deposits.insert(1, Transaction::deposit_under_dispute(1, 1, amt(10)));
    let mut store = MemoryStore::seeded(Some(deposits), None);
    store.upsert_account(&account).unwrap();

    assert_eq!(account.available, Amount::zero());
    assert_eq!(account.held, amt(10));
    assert_eq!(account.total, amt(10));
    assert_eq!(store.transactions_len(), 1);
    assert_eq!(store.accounts_len(), 1);
    assert_under_dispute(&store, 1, true);

    let mut engine = Engine::new(store);
    let chargeback = Transaction::chargeback(1, 1);
    let account = engine.process_transaction(chargeback).unwrap();

    assert_eq!(account.available, Amount::zero());
    assert_eq!(account.held, Amount::zero());
    assert_eq!(account.total, Amount::zero());
    assert!(account.locked);

    // no longer under dispute
    assert_under_dispute(&engine.store, 1, false);
}

#[test]
fn on_chargeback_ignore_tx_if_not_under_dispute() {
    let account = Account::seeded(1, Amount::zero(), amt(10), false);
    let mut deposits = HashMap::new();
    deposits.insert(1, Transaction::deposit(1, 1, amt(10)));
    let mut store = MemoryStore::seeded(Some(deposits), None);
    store.upsert_account(&account).unwrap();

    assert_eq!(account.available, Amount::zero());
    assert_eq!(account.held, amt(10));
    assert_eq!(account.total, amt(10));
    assert_eq!(store.transactions_len(), 1);
    assert_eq!(store.accounts_len(), 1);
    assert_under_dispute(&store, 1, false);

    let mut engine = Engine::new(store);
    let chargeback = Transaction::chargeback(1, 1);
    let account = engine.process_transaction(chargeback).unwrap();

    assert_eq!(account.available, Amount::zero());
    assert_eq!(account.held, amt(10));
    assert_eq!(account.total, amt(10));
    // still no dispute
    assert_under_dispute(&engine.store, 1, false);
}

#[test]
fn on_chargeback_ignore_transaction_if_ref_transaction_does_not_exist() {
    let account = Account::seeded(1, amt(10), Amount::zero(), false);
    let mut deposits = HashMap::new();
    deposits.insert(1, Transaction::deposit_under_dispute(1, 1, amt(10)));
    let mut store = MemoryStore::seeded(Some(deposits), None);
    store.upsert_account(&account).unwrap();

    assert_eq!(account.available, amt(10));
    assert_eq!(account.held, Amount::zero());
    assert_eq!(account.total, amt(10));
    assert_eq!(store.transactions_len(), 1);
    assert_eq!(store.accounts_len(), 1);
    assert_under_dispute(&store, 1, true);

    let mut engine = Engine::new(store);
    let chargeback = Transaction::chargeback(2, 1);
    let account = engine.process_transaction(chargeback).unwrap();

    assert_eq!(account.available, amt(10));
    assert_eq!(account.held, Amount::zero());
    assert_eq!(account.total, amt(10));

    assert_under_dispute(&engine.store, 1, true);
}

#[test]
fn on_chargeback_the_referenced_tx_must_be_a_deposit() {
    // this case is not really possible when every transaction goes through
    // the engine, but it is useful for other kinds of stores.
    let account = Account::seeded(1, amt(10), Amount::zero(), false);
    let mut deposits = HashMap::new();
    deposits.insert(1, Transaction::deposit(1, 1, amt(10)));
    // inserting a withdrawal directly, to exercise the engine's check
    deposits.insert(2, Transaction::withdrawal(2, 1, amt(1)));
    let mut store = MemoryStore::seeded(Some(deposits), None);
    store.upsert_account(&account).unwrap();

    assert_eq!(account.available, amt(10));
    assert_eq!(account.held, Amount::zero());
    assert_eq!(account.total, amt(10));
    assert_eq!(store.transactions_len(), 2);
    assert_eq!(store.accounts_len(), 1);

    let mut engine = Engine::new(store);
    // referencing a withdrawal
    let chargeback = Transaction::chargeback(2, 1);
    let err = engine.process_transaction(chargeback).unwrap_err();
    // it should error
    assert_eq!(err, EngineError::WrongTransactionRef { id: 2 });
    // it should not change the account
    assert_eq!(account.available, amt(10));
    assert_eq!(account.held, Amount::zero());
    assert_eq!(account.total, amt(10));
    // it should not rollback
    assert_eq!(engine.store.transactions_len(), 2);
    // no disputes
    assert_under_dispute(&engine.store, 1, false);
}

#[test]
fn on_chargeback_error_if_tx_client_is_wrong() {
    let mut deposits = HashMap::new();
    deposits.insert(1, Transaction::deposit_under_dispute(1, 1, amt(10)));
    deposits.insert(2, Transaction::deposit_under_dispute(2, 2, amt(20)));
    let account_1 = Account::seeded(1, amt(10), Amount::zero(), false);
    let account_2 = Account::seeded(2, amt(20), Amount::zero(), false);
    let mut store = MemoryStore::seeded(Some(deposits), None);
    store.upsert_account(&account_1).unwrap();
    store.upsert_account(&account_2).unwrap();

    assert_eq!(store.transactions_len(), 2);
    assert_eq!(store.accounts_len(), 2);

    let mut engine = Engine::new(store);
    let chargeback = Transaction::chargeback(2, 1);
    let err = engine.process_transaction(chargeback).unwrap_err();
    assert_eq!(err, EngineError::TransactionRefWrongClient { id: 2, client: 2, wrong_client: 1 });
    // still under dispute
    assert_under_dispute(&engine.store, 1, true);
    assert_under_dispute(&engine.store, 2, true);
}

#[test]
fn rollback_transaction_under_dispute_state_if_tx_is_not_commited() {
    let account = Account::seeded(1, amt(10), Amount::zero(), false);
    let mut deposits = HashMap::new();
    deposits.insert(1, Transaction::deposit(1, 1, amt(10)));
    let mut store = MemoryStore::seeded(Some(deposits), None);

    store.upsert_account(&account).unwrap();

    assert_eq!(account.available, amt(10));
    assert_eq!(account.held, Amount::zero());
    assert_eq!(account.total, amt(10));
    assert_eq!(store.transactions_len(), 1);
    assert_eq!(store.accounts_len(), 1);

    // provoke a failure when saving the account.
    // this will cause the transaction to be rolled back
    store.set_enable_upsert_account_failure(true);

    let mut engine = Engine::new(store);

    // test dispute rollback
    let dispute = Transaction::dispute(1, 1);

    let err = engine.process_transaction(dispute.clone()).unwrap_err();

    assert_eq!(
        err,
        EngineError::TransactionNotCommited(StoreError::AccessError("Test Error".to_string()))
    );

    assert_eq!(account.available, amt(10));
    assert_eq!(account.held, Amount::zero());
    assert_eq!(account.total, amt(10));

    assert_under_dispute(&engine.store, 1, false);

    // test resolve rollback
    engine.store.set_enable_upsert_account_failure(false);

    let account = engine.process_transaction(dispute).unwrap();

    assert_eq!(account.available, Amount::zero());
    assert_eq!(account.held, amt(10));
    assert_eq!(account.total, amt(10));

    assert_under_dispute(&engine.store, 1, true);

    engine.store.set_enable_upsert_account_failure(true);

    let err = engine.process_transaction(Transaction::resolve(1, 1)).unwrap_err();

    assert_eq!(
        err,
        EngineError::TransactionNotCommited(StoreError::AccessError("Test Error".to_string()))
    );

    assert_eq!(account.available, Amount::zero());
    assert_eq!(account.held, amt(10));
    assert_eq!(account.total, amt(10));

    assert_under_dispute(&engine.store, 1, true);

    // test chargeback rollback
    let err = engine.process_transaction(Transaction::chargeback(1, 1)).unwrap_err();

    assert_eq!(
        err,
        EngineError::TransactionNotCommited(StoreError::AccessError("Test Error".to_string()))
    );

    assert_eq!(account.available, Amount::zero());
    assert_eq!(account.held, amt(10));
    assert_eq!(account.total, amt(10));

    assert_under_dispute(&engine.store, 1, true);
}

#[test]
fn deposits_with_negative_amounts_are_rejected_before_touching_the_store() {
    let mut engine = Engine::new(MemoryStore::new());
    let err = engine.process_transaction(Transaction::deposit(1, 1, amt(-1))).unwrap_err();
    assert_eq!(err, EngineError::NegativeAmountTransaction { id: 1 });
    let err = engine.process_transaction(Transaction::withdrawal(2, 1, amt(-1))).unwrap_err();
    assert_eq!(err, EngineError::NegativeAmountTransaction { id: 2 });
    assert_eq!(engine.store.transactions_len(), 0);
    assert_eq!(engine.store.accounts_len(), 0);
}

#[test]
fn duplicate_deposit_ids_are_rejected_and_keep_the_first_deposit() {
    let mut engine = Engine::new(MemoryStore::new());
    engine.process_transaction(Transaction::deposit(1, 1, amt(10))).unwrap();
    let err = engine.process_transaction(Transaction::deposit(1, 1, amt(99))).unwrap_err();
    assert_eq!(err, EngineError::Store(StoreError::AlreadyExists { id: 1 }));
    assert_eq!(
        engine.store.deposits().get(&1),
        Some(&Transaction::deposit(1, 1, amt(10)))
    );
    let account = engine.store.get_account(1).unwrap();
    assert_eq!(account.available, amt(10));
}

#[test]
fn amounts_out_of_range_are_rejected_with_unknown_error() {
    let huge = Amount::new(MAX_MANTISSA, 0).unwrap();
    let mut engine = Engine::new(MemoryStore::new());
    engine.process_transaction(Transaction::deposit(1, 1, huge)).unwrap();
    let err = engine.process_transaction(Transaction::deposit(2, 1, huge)).unwrap_err();
    assert!(matches!(err, EngineError::UnknownError(_)));
    // the failed deposit left no record behind
    assert_eq!(engine.store.transactions_len(), 1);
    let account = engine.store.get_account(1).unwrap();
    assert_eq!(account.total, huge);
}

#[test]
fn totals_balance_available_plus_held_after_every_transaction() {
    let mut engine = Engine::new(MemoryStore::new());
    let steps = vec![
        Transaction::deposit(1, 1, Amount::new(100005, 5).unwrap()),
        Transaction::deposit(2, 1, amt(3)),
        Transaction::withdrawal(3, 1, amt(2)),
        Transaction::dispute(1, 1),
        Transaction::resolve(1, 1),
        Transaction::dispute(2, 1),
    ];
    for tx in steps.into_iter() {
        if let Ok(account) = engine.process_transaction(tx) {
            let held_part = account.total.checked_sub(&account.available).unwrap();
            assert_eq!(held_part, account.held);
        }
    }
}

#[test]
fn conservation_without_chargebacks() {
    // sum of totals == successful deposits - successful withdrawals
    let mut engine = Engine::new(MemoryStore::new());
    engine.process_transaction(Transaction::deposit(1, 1, amt(100))).unwrap();
    engine.process_transaction(Transaction::deposit(2, 2, amt(50))).unwrap();
    engine.process_transaction(Transaction::withdrawal(3, 1, amt(30))).unwrap();
    // rejected: insufficient funds, so it does not count
    assert!(engine.process_transaction(Transaction::withdrawal(4, 2, amt(80))).is_err());
    engine.process_transaction(Transaction::dispute(2, 2)).unwrap();
    let report = engine.report().unwrap();
    let mut sum = Amount::zero();
    for account in report.iter() {
        sum = sum.checked_add(&account.total).unwrap();
    }
    // 100 + 50 - 30
    assert_eq!(sum, amt(120));
}
