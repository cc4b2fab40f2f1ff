//! The transaction processing engine.
//!
//! [`Engine::process_transaction`] validates an incoming transaction, applies
//! it to the affected account, records it (deposits only), persists the
//! account, and compensates when persistence fails. Its contract pins the
//! whole transition down: the spec functions in this module say, for every
//! store state and transaction, which result comes back and how the store
//! changes.

use vstd::prelude::*;
use crate::account::Account;
use crate::amount::{
    addable, lemma_spec_add_units, lemma_spec_sub_units, spec_add, spec_sub, subtractable, Amount,
};
use crate::common::ClientId;
use crate::store::{
    spec_set_under_dispute, spec_toggle_under_dispute, Store, StoreError,
};
use crate::transaction::{Transaction, TransactionId, TransactionInfo};

verus! {

/// Error type for [`Engine`] operations.
#[derive(Debug, PartialEq)]
pub enum EngineError {
    /// A store operation failed before the transaction was applied.
    Store(StoreError),
    /// The account's available funds do not cover the requested amount.
    InsufficientAvailableFunds,
    /// The account's held funds do not cover the referenced amount.
    InsufficientHeldFunds,
    /// The referenced transaction was not a deposit.
    WrongTransactionRef { id: TransactionId },
    /// The referenced transaction belongs to another client.
    TransactionRefWrongClient { id: TransactionId, client: ClientId, wrong_client: ClientId },
    /// The transaction carries a negative amount.
    NegativeAmountTransaction { id: TransactionId },
    /// The referenced deposit is already under dispute.
    DoubleDispute { id: TransactionId },
    /// The transaction addresses a locked account.
    LockedAccount { id: ClientId, tx: TransactionId },
    /// Any other failure; in particular an amount that left the representable
    /// range.
    UnknownError(String),
    /// The account update did not commit. The transaction's effects were
    /// rolled back.
    TransactionNotCommited(StoreError),
}

/// Result for [`Engine`] operations.
pub type EngineResult<T> = Result<T, EngineError>;

/// Every recorded transaction carries a representable amount (or none).
pub open spec fn deposits_all_wf(deposits: Map<TransactionId, Transaction>) -> bool {
    forall|id: TransactionId| #[trigger]
        deposits.contains_key(id) ==> deposits[id].amount_wf()
}

/// Every stored account has representable balances.
pub open spec fn accounts_all_wf(accounts: Map<ClientId, Account>) -> bool {
    forall|c: ClientId| #[trigger] accounts.contains_key(c) ==> accounts[c].wf()
}

/// The account the engine works on: the stored one, or a fresh zeroed
/// account when the client is not stored yet.
pub open spec fn loaded_account(accounts: Map<ClientId, Account>, client: ClientId) -> Account {
    if accounts.contains_key(client) {
        accounts[client]
    } else {
        Account::spec_new(client)
    }
}

/// The amount carried by a deposit (zero for any other kind; only applied to
/// deposits).
pub open spec fn spec_deposit_amount(t: Transaction) -> Amount {
    match t {
        Transaction::Deposit { amount, .. } => amount,
        _ => Amount { mantissa: 0, scale: 0 },
    }
}

/// The error a dispute of `rid` meets against account `a`, if any. A missing
/// reference is no error: the dispute is ignored.
pub open spec fn dispute_error(
    deposits: Map<TransactionId, Transaction>,
    a: Account,
    rid: TransactionId,
) -> Option<EngineError> {
    if !deposits.contains_key(rid) {
        None
    } else {
        match deposits[rid] {
            Transaction::Deposit { info, amount, under_dispute } => {
                if a.client != info.client_id {
                    Some(
                        EngineError::TransactionRefWrongClient {
                            id: info.id,
                            client: info.client_id,
                            wrong_client: a.client,
                        },
                    )
                } else if under_dispute {
                    Some(EngineError::DoubleDispute { id: info.id })
                } else if a.available.units() < amount.units() {
                    Some(EngineError::InsufficientAvailableFunds)
                } else {
                    None
                }
            },
            _ => Some(EngineError::WrongTransactionRef { id: rid }),
        }
    }
}

/// The dispute of `rid` goes through and moves funds.
pub open spec fn dispute_applies(
    deposits: Map<TransactionId, Transaction>,
    a: Account,
    rid: TransactionId,
) -> bool {
    deposits.contains_key(rid) && dispute_error(deposits, a, rid) is None
}

/// The error a resolve of `rid` meets against account `a`, if any. A missing
/// reference, or a reference not under dispute, is no error: the resolve is
/// ignored.
pub open spec fn resolve_error(
    deposits: Map<TransactionId, Transaction>,
    a: Account,
    rid: TransactionId,
) -> Option<EngineError> {
    if !deposits.contains_key(rid) {
        None
    } else {
        match deposits[rid] {
            Transaction::Deposit { info, amount, .. } => {
                if a.client != info.client_id {
                    Some(
                        EngineError::TransactionRefWrongClient {
                            id: info.id,
                            client: info.client_id,
                            wrong_client: a.client,
                        },
                    )
                } else if a.held.units() < amount.units() {
                    Some(EngineError::InsufficientHeldFunds)
                } else {
                    None
                }
            },
            _ => Some(EngineError::WrongTransactionRef { id: rid }),
        }
    }
}

/// The resolve (or chargeback) of `rid` goes through and moves funds: the
/// reference exists, no check fails, and the reference is under dispute.
pub open spec fn resolve_applies(
    deposits: Map<TransactionId, Transaction>,
    a: Account,
    rid: TransactionId,
) -> bool {
    &&& deposits.contains_key(rid)
    &&& resolve_error(deposits, a, rid) is None
    &&& deposits[rid].spec_under_dispute()
}

/// The error `tx`'s handler raises against account `a`, if any.
pub open spec fn handler_error_for(
    deposits: Map<TransactionId, Transaction>,
    a: Account,
    tx: Transaction,
) -> Option<EngineError> {
    match tx {
        Transaction::Deposit { .. } => None,
        Transaction::Withdrawal { amount, .. } => if a.available.units() < amount.units() {
            Some(EngineError::InsufficientAvailableFunds)
        } else {
            None
        },
        Transaction::Dispute { info } => dispute_error(deposits, a, info.id),
        Transaction::Resolve { info } => resolve_error(deposits, a, info.id),
        Transaction::ChargeBack { info } => resolve_error(deposits, a, info.id),
    }
}

/// The funds `tx`'s handler would move leave the representable range, so the
/// handler reports [`EngineError::UnknownError`] instead of applying them.
/// Only meaningful when [`handler_error_for`] is `None`; never the case for
/// amounts that arise in practice.
pub open spec fn handler_overflows_for(
    deposits: Map<TransactionId, Transaction>,
    a: Account,
    tx: Transaction,
) -> bool {
    match tx {
        Transaction::Deposit { amount, .. } => !(addable(a.available, amount) && addable(
            a.total,
            amount,
        )),
        Transaction::Withdrawal { amount, .. } => !(subtractable(a.available, amount)
            && subtractable(a.total, amount)),
        Transaction::Dispute { info } => dispute_applies(deposits, a, info.id) && {
            let amt = spec_deposit_amount(deposits[info.id]);
            !(subtractable(a.available, amt) && addable(a.held, amt))
        },
        Transaction::Resolve { info } => resolve_applies(deposits, a, info.id) && {
            let amt = spec_deposit_amount(deposits[info.id]);
            !(subtractable(a.held, amt) && addable(a.available, amt))
        },
        Transaction::ChargeBack { info } => resolve_applies(deposits, a, info.id) && {
            let amt = spec_deposit_amount(deposits[info.id]);
            !(subtractable(a.held, amt) && subtractable(a.total, amt))
        },
    }
}

/// The account `tx`'s handler produces from `a`: the per-kind balance
/// movement applied (`a` unchanged for ignored disputes, resolves and
/// chargebacks).
pub open spec fn handler_account_for(
    deposits: Map<TransactionId, Transaction>,
    a: Account,
    tx: Transaction,
) -> Account {
    match tx {
        Transaction::Deposit { amount, .. } => Account {
            available: spec_add(a.available, amount),
            total: spec_add(a.total, amount),
            ..a
        },
        Transaction::Withdrawal { amount, .. } => Account {
            available: spec_sub(a.available, amount),
            total: spec_sub(a.total, amount),
            ..a
        },
        Transaction::Dispute { info } => if dispute_applies(deposits, a, info.id) {
            let amt = spec_deposit_amount(deposits[info.id]);
            Account { available: spec_sub(a.available, amt), held: spec_add(a.held, amt), ..a }
        } else {
            a
        },
        Transaction::Resolve { info } => if resolve_applies(deposits, a, info.id) {
            let amt = spec_deposit_amount(deposits[info.id]);
            Account { held: spec_sub(a.held, amt), available: spec_add(a.available, amt), ..a }
        } else {
            a
        },
        Transaction::ChargeBack { info } => if resolve_applies(deposits, a, info.id) {
            let amt = spec_deposit_amount(deposits[info.id]);
            Account {
                held: spec_sub(a.held, amt),
                total: spec_sub(a.total, amt),
                locked: true,
                ..a
            }
        } else {
            a
        },
    }
}

/// How `tx`'s handler changes the deposits map against account `a`:
/// disputes, resolves and chargebacks that go through flip the referenced
/// deposit's flag; everything else leaves the map alone.
pub open spec fn handler_deposits_for(
    deposits: Map<TransactionId, Transaction>,
    a: Account,
    tx: Transaction,
) -> Map<TransactionId, Transaction> {
    match tx {
        Transaction::Dispute { info } => if dispute_applies(deposits, a, info.id) {
            spec_set_under_dispute(deposits, deposits[info.id].spec_info().id, true)
        } else {
            deposits
        },
        Transaction::Resolve { info } => if resolve_applies(deposits, a, info.id) {
            spec_set_under_dispute(deposits, deposits[info.id].spec_info().id, false)
        } else {
            deposits
        },
        Transaction::ChargeBack { info } => if resolve_applies(deposits, a, info.id) {
            spec_set_under_dispute(deposits, deposits[info.id].spec_info().id, false)
        } else {
            deposits
        },
        _ => deposits,
    }
}

/// The validation error `tx` meets against the store state, if any, in the
/// order the engine checks: negative amount, duplicate deposit id, locked
/// account, then the per-kind checks.
pub open spec fn step_error(
    deposits: Map<TransactionId, Transaction>,
    accounts: Map<ClientId, Account>,
    tx: Transaction,
) -> Option<EngineError> {
    let id = tx.spec_info().id;
    if tx.spec_has_negative_amount() {
        Some(EngineError::NegativeAmountTransaction { id })
    } else if tx.is_deposit() && deposits.contains_key(id) {
        Some(EngineError::Store(StoreError::AlreadyExists { id }))
    } else {
        locked_or_handler_error(deposits, accounts, tx)
    }
}

/// The error `tx` meets once it is past the negative-amount and duplicate-id
/// guards: a locked account, or whatever its handler rejects.
pub open spec fn locked_or_handler_error(
    deposits: Map<TransactionId, Transaction>,
    accounts: Map<ClientId, Account>,
    tx: Transaction,
) -> Option<EngineError> {
    let id = tx.spec_info().id;
    let client = tx.spec_info().client_id;
    let a = loaded_account(accounts, client);
    if a.locked {
        Some(EngineError::LockedAccount { id: client, tx: id })
    } else {
        handler_error_for(deposits, a, tx)
    }
}

/// The funds `tx` would move leave the representable range, so the engine
/// reports [`EngineError::UnknownError`] instead of applying it. Only
/// meaningful when [`step_error`] is `None`; never the case for amounts that
/// arise in practice.
pub open spec fn step_overflows(
    deposits: Map<TransactionId, Transaction>,
    accounts: Map<ClientId, Account>,
    tx: Transaction,
) -> bool {
    handler_overflows_for(deposits, loaded_account(accounts, tx.spec_info().client_id), tx)
}

/// The account `tx` produces when it goes through: the loaded account with
/// the per-kind balance movement applied (unchanged for ignored disputes,
/// resolves and chargebacks).
pub open spec fn step_account(
    deposits: Map<TransactionId, Transaction>,
    accounts: Map<ClientId, Account>,
    tx: Transaction,
) -> Account {
    handler_account_for(deposits, loaded_account(accounts, tx.spec_info().client_id), tx)
}

/// How `tx`'s handler alone changes the deposits map: disputes, resolves and
/// chargebacks that go through flip the referenced deposit's flag; everything
/// else leaves the map alone.
pub open spec fn handler_deposits(
    deposits: Map<TransactionId, Transaction>,
    accounts: Map<ClientId, Account>,
    tx: Transaction,
) -> Map<TransactionId, Transaction> {
    handler_deposits_for(deposits, loaded_account(accounts, tx.spec_info().client_id), tx)
}

/// The deposits map after `tx` goes through: a deposit is recorded under its
/// id, and the handler's flag updates are applied.
pub open spec fn step_deposits(
    deposits: Map<TransactionId, Transaction>,
    accounts: Map<ClientId, Account>,
    tx: Transaction,
) -> Map<TransactionId, Transaction> {
    if tx.is_deposit() {
        deposits.insert(tx.spec_info().id, tx)
    } else {
        handler_deposits(deposits, accounts, tx)
    }
}

/// `tx` fails: a validation error, an overflow, or a failing account upsert.
pub open spec fn step_fails(
    deposits: Map<TransactionId, Transaction>,
    accounts: Map<ClientId, Account>,
    tx: Transaction,
    upsert_ok: bool,
) -> bool {
    ||| step_error(deposits, accounts, tx) is Some
    ||| step_overflows(deposits, accounts, tx)
    ||| !upsert_ok
}

/// The deposits map after [`Engine::process_transaction`], in every case.
/// On failure the engine compensates: a deposit or withdrawal's record is
/// deleted again (for a withdrawal this deletes whatever sat under its id),
/// and a dispute, resolve or chargeback that did not commit has the flag it
/// set toggled back at the transaction's own id.
pub open spec fn post_deposits(
    deposits: Map<TransactionId, Transaction>,
    accounts: Map<ClientId, Account>,
    tx: Transaction,
    upsert_ok: bool,
) -> Map<TransactionId, Transaction> {
    let id = tx.spec_info().id;
    if !step_fails(deposits, accounts, tx, upsert_ok) {
        step_deposits(deposits, accounts, tx)
    } else if tx.spec_has_negative_amount() || tx.is_deposit() {
        deposits
    } else if tx is Withdrawal {
        deposits.remove(id)
    } else if step_error(deposits, accounts, tx) is None && !step_overflows(
        deposits,
        accounts,
        tx,
    ) {
        spec_toggle_under_dispute(handler_deposits(deposits, accounts, tx), id)
    } else {
        deposits
    }
}

/// The accounts map after [`Engine::process_transaction`]: updated exactly
/// when the transaction goes through, under the produced account's own
/// client id (which is the transaction's client whenever the stored account
/// is keyed consistently).
pub open spec fn post_accounts(
    deposits: Map<TransactionId, Transaction>,
    accounts: Map<ClientId, Account>,
    tx: Transaction,
    upsert_ok: bool,
) -> Map<ClientId, Account> {
    if !step_fails(deposits, accounts, tx, upsert_ok) {
        accounts.insert(
            step_account(deposits, accounts, tx).client,
            step_account(deposits, accounts, tx),
        )
    } else {
        accounts
    }
}

/// The account enumeration order after [`Engine::process_transaction`]: the
/// client is appended exactly when the transaction goes through for a client
/// that had no stored account yet.
pub open spec fn post_order(
    deposits: Map<TransactionId, Transaction>,
    accounts: Map<ClientId, Account>,
    order: Seq<ClientId>,
    tx: Transaction,
    upsert_ok: bool,
) -> Seq<ClientId> {
    if !step_fails(deposits, accounts, tx, upsert_ok) && !accounts.contains_key(
        step_account(deposits, accounts, tx).client,
    ) {
        order.push(step_account(deposits, accounts, tx).client)
    } else {
        order
    }
}

/// The [`Engine`] is responsible for processing all the transactions. It
/// also provides a way to get the current state of all the accounts.
pub struct Engine<S: Store> {
    /// The store holding the recorded deposits and the accounts.
    pub store: S,
}

impl<S: Store> Engine<S> {
    /// Creates a new [`Engine`] with the given [`Store`].
    pub fn new(store: S) -> (r: Self)
        ensures
            r.store == store,
    {
        Engine { store }
    }

    /// Processes the given [`Transaction`] and returns the resulting state of
    /// the [`Account`].
    ///
    /// The whole transition is pinned down by the spec functions of this
    /// module: a transaction that meets a validation error returns exactly
    /// [`step_error`] and leaves the store unchanged; one that would move
    /// funds out of the representable range returns
    /// [`EngineError::UnknownError`] and leaves the store unchanged; one
    /// whose account update cannot commit returns
    /// [`EngineError::TransactionNotCommited`] after compensating; and one
    /// that goes through returns exactly [`step_account`] and updates the
    /// store to [`step_deposits`] and the account map accordingly.
    pub fn process_transaction(&mut self, transaction: Transaction) -> (r: EngineResult<Account>)
        requires
            old(self).store.inv(),
            deposits_all_wf(old(self).store.deposits_view()),
            accounts_all_wf(old(self).store.accounts_view()),
            transaction.amount_wf(),
        ensures
            final(self).store.inv(),
            deposits_all_wf(final(self).store.deposits_view()),
            accounts_all_wf(final(self).store.accounts_view()),
            final(self).store.upsert_ok() == old(self).store.upsert_ok(),
            final(self).store.deposits_view() == post_deposits(
                old(self).store.deposits_view(),
                old(self).store.accounts_view(),
                transaction,
                old(self).store.upsert_ok(),
            ),
            final(self).store.accounts_view() == post_accounts(
                old(self).store.deposits_view(),
                old(self).store.accounts_view(),
                transaction,
                old(self).store.upsert_ok(),
            ),
            final(self).store.clients_order() == post_order(
                old(self).store.deposits_view(),
                old(self).store.accounts_view(),
                old(self).store.clients_order(),
                transaction,
                old(self).store.upsert_ok(),
            ),
            ({
                let deposits = old(self).store.deposits_view();
                let accounts = old(self).store.accounts_view();
                match step_error(deposits, accounts, transaction) {
                    Some(e) => r == Err::<Account, EngineError>(e),
                    None => if step_overflows(deposits, accounts, transaction) {
                        r matches Err(EngineError::UnknownError(_))
                    } else if old(self).store.upsert_ok() {
                        r == Ok::<Account, EngineError>(
                            step_account(deposits, accounts, transaction),
                        ) && step_account(deposits, accounts, transaction).wf()
                    } else {
                        r matches Err(EngineError::TransactionNotCommited(_))
                    },
                }
            }),
    {
        let transaction_info = *transaction.info();
        if transaction.has_negative_amount() {
            return Err(EngineError::NegativeAmountTransaction { id: transaction_info.id });
        }
        let transaction = match self.store.create_transaction(transaction) {
            Ok(t) => t,
            Err(e) => {
                return Err(EngineError::Store(e));
            },
        };
        let transaction_result = self.execute_transaction(&transaction, &transaction_info);
        match transaction_result {
            Ok(account) => Ok(account),
            Err(e) => {
                match &transaction {
                    Transaction::Deposit { .. } | Transaction::Withdrawal { .. } => {
                        // roll the recorded transaction back
                        match self.store.delete_transaction(transaction_info.id) {
                            Ok(()) => {
                                proof {
                                    let d0 = old(self).store.deposits_view();
                                    if transaction.is_deposit() {
                                        assert(d0.insert(transaction_info.id, transaction).remove(
                                            transaction_info.id,
                                        ) =~= d0);
                                    }
                                }
                            },
                            Err(de) => {
                                return Err(EngineError::Store(de));
                            },
                        }
                    },
                    _ => {
                        // roll the dispute flag back when the account update
                        // did not commit
                        if matches!(e, EngineError::TransactionNotCommited(_)) {
                            match self.store.toggle_under_dispute(transaction_info.id) {
                                Ok(()) => {},
                                Err(te) => {
                                    return Err(EngineError::Store(te));
                                },
                            }
                        }
                    },
                }
                Err(e)
            },
        }
    }

    /// Loads the account, refuses locked accounts, applies the handler and
    /// persists the result.
    fn execute_transaction(&mut self, transaction: &Transaction, transaction_info: &TransactionInfo)
        -> (r: EngineResult<Account>)
        requires
            old(self).store.inv(),
            deposits_all_wf(old(self).store.deposits_view()),
            accounts_all_wf(old(self).store.accounts_view()),
            transaction.amount_wf(),
            *transaction_info == transaction.spec_info(),
        ensures
            final(self).store.inv(),
            deposits_all_wf(final(self).store.deposits_view()),
            accounts_all_wf(final(self).store.accounts_view()),
            final(self).store.upsert_ok() == old(self).store.upsert_ok(),
            ({
                let deposits = old(self).store.deposits_view();
                let accounts = old(self).store.accounts_view();
                let order = old(self).store.clients_order();
                let tx = *transaction;
                let client = tx.spec_info().client_id;
                match locked_or_handler_error(deposits, accounts, tx) {
                    Some(e) => r == Err::<Account, EngineError>(e) && final(self).store.deposits_view() == deposits && final(self).store.accounts_view()
                        == accounts && final(self).store.clients_order() == order,
                    None => if step_overflows(deposits, accounts, tx) {
                        &&& r matches Err(EngineError::UnknownError(_))
                        &&& final(self).store.deposits_view() == deposits
                        &&& final(self).store.accounts_view() == accounts
                        &&& final(self).store.clients_order() == order
                    } else {
                        &&& final(self).store.deposits_view() == handler_deposits(
                            deposits,
                            accounts,
                            tx,
                        )
                        &&& if old(self).store.upsert_ok() {
                            &&& r == Ok::<Account, EngineError>(
                                step_account(deposits, accounts, tx),
                            )
                            &&& step_account(deposits, accounts, tx).wf()
                            &&& final(self).store.accounts_view() == accounts.insert(
                                step_account(deposits, accounts, tx).client,
                                step_account(deposits, accounts, tx),
                            )
                            &&& final(self).store.clients_order() == (if accounts.contains_key(
                                step_account(deposits, accounts, tx).client,
                            ) {
                                order
                            } else {
                                order.push(step_account(deposits, accounts, tx).client)
                            })
                        } else {
                            &&& r matches Err(EngineError::TransactionNotCommited(_))
                            &&& final(self).store.accounts_view() == accounts
                            &&& final(self).store.clients_order() == order
                        }
                    },
                }
            }),
    {
        let mut account = match self.store.get_account(transaction_info.client_id) {
            Ok(a) => a,
            Err(e) => {
                return Err(EngineError::Store(e));
            },
        };
        if account.locked {
            return Err(
                EngineError::LockedAccount {
                    id: transaction_info.client_id,
                    tx: transaction_info.id,
                },
            );
        }
        match self.apply_transaction(&mut account, transaction) {
            Ok(()) => {},
            Err(e) => {
                return Err(e);
            },
        }
        match self.store.upsert_account(&account) {
            Ok(()) => Ok(account),
            Err(e) => Err(EngineError::TransactionNotCommited(e)),
        }
    }

    /// Dispatches the transaction to its handler, mutating the in-memory
    /// account and, for the dispute kinds, the referenced deposit's flag.
    fn apply_transaction(&mut self, account: &mut Account, transaction: &Transaction) -> (r:
        EngineResult<()>)
        requires
            old(self).store.inv(),
            deposits_all_wf(old(self).store.deposits_view()),
            old(account).wf(),
            transaction.amount_wf(),
        ensures
            final(self).store.inv(),
            deposits_all_wf(final(self).store.deposits_view()),
            final(self).store.accounts_view() == old(self).store.accounts_view(),
            final(self).store.clients_order() == old(self).store.clients_order(),
            final(self).store.upsert_ok() == old(self).store.upsert_ok(),
            ({
                let deposits = old(self).store.deposits_view();
                let a = *old(account);
                let tx = *transaction;
                match handler_error_for(deposits, a, tx) {
                    Some(e) => r == Err::<(), EngineError>(e) && *final(account) == a && final(self).store.deposits_view() == deposits,
                    None => if handler_overflows_for(deposits, a, tx) {
                        &&& r matches Err(EngineError::UnknownError(_))
                        &&& *final(account) == a
                        &&& final(self).store.deposits_view() == deposits
                    } else {
                        &&& r == Ok::<(), EngineError>(())
                        &&& *final(account) == handler_account_for(deposits, a, tx)
                        &&& final(account).wf()
                        &&& final(self).store.deposits_view() == handler_deposits_for(
                            deposits,
                            a,
                            tx,
                        )
                    },
                }
            }),
    {
        match transaction {
            Transaction::Deposit { amount, .. } => self.deposit(account, amount),
            Transaction::Withdrawal { amount, .. } => self.withdrawal(account, amount),
            Transaction::Dispute { info } => self.dispute(account, info),
            Transaction::Resolve { info } => self.resolve(account, info),
            Transaction::ChargeBack { info } => self.chargeback(account, info),
        }
    }

    /// Credits `amount`: available and total both grow by it.
    fn deposit(&self, account: &mut Account, amount: &Amount) -> (r: EngineResult<()>)
        requires
            old(account).wf(),
            amount.wf(),
        ensures
            addable(old(account).available, *amount) && addable(old(account).total, *amount)
                ==> r == Ok::<(), EngineError>(()) && *final(account) == (Account {
                available: spec_add(old(account).available, *amount),
                total: spec_add(old(account).total, *amount),
                ..*old(account)
            }) && final(account).wf(),
            !(addable(old(account).available, *amount) && addable(old(account).total, *amount))
                ==> (r matches Err(EngineError::UnknownError(_))) && *final(account) == *old(
                account,
            ),
    {
        proof {
            if addable(account.available, *amount) {
                lemma_spec_add_units(account.available, *amount);
            }
            if addable(account.total, *amount) {
                lemma_spec_add_units(account.total, *amount);
            }
        }
        let new_available = match account.available.checked_add(amount) {
            Some(v) => v,
            None => {
                return Err(EngineError::UnknownError("amount out of range".to_owned()));
            },
        };
        let new_total = match account.total.checked_add(amount) {
            Some(v) => v,
            None => {
                return Err(EngineError::UnknownError("amount out of range".to_owned()));
            },
        };
        account.available = new_available;
        account.total = new_total;
        Ok(())
    }

    /// Debits `amount`: available and total both shrink by it; fails when the
    /// available funds do not cover it.
    fn withdrawal(&self, account: &mut Account, amount: &Amount) -> (r: EngineResult<()>)
        requires
            old(account).wf(),
            amount.wf(),
        ensures
            old(account).available.units() < amount.units() ==> r == Err::<(), EngineError>(
                EngineError::InsufficientAvailableFunds,
            ) && *final(account) == *old(account),
            old(account).available.units() >= amount.units() && subtractable(
                old(account).available,
                *amount,
            ) && subtractable(old(account).total, *amount) ==> r == Ok::<(), EngineError>(())
                && *final(account) == (Account {
                available: spec_sub(old(account).available, *amount),
                total: spec_sub(old(account).total, *amount),
                ..*old(account)
            }) && final(account).wf(),
            old(account).available.units() >= amount.units() && !(subtractable(
                old(account).available,
                *amount,
            ) && subtractable(old(account).total, *amount)) ==> (r matches Err(
                EngineError::UnknownError(_),
            )) && *final(account) == *old(account),
    {
        if account.available.lt(amount) {
            return Err(EngineError::InsufficientAvailableFunds);
        }
        proof {
            if subtractable(account.available, *amount) {
                lemma_spec_sub_units(account.available, *amount);
            }
            if subtractable(account.total, *amount) {
                lemma_spec_sub_units(account.total, *amount);
            }
        }
        let new_available = match account.available.checked_sub(amount) {
            Some(v) => v,
            None => {
                return Err(EngineError::UnknownError("amount out of range".to_owned()));
            },
        };
        let new_total = match account.total.checked_sub(amount) {
            Some(v) => v,
            None => {
                return Err(EngineError::UnknownError("amount out of range".to_owned()));
            },
        };
        account.available = new_available;
        account.total = new_total;
        Ok(())
    }

    /// Opens a dispute on the deposit that `info.id` references: the disputed
    /// amount moves from available to held and the deposit is flagged.
    fn dispute(&mut self, account: &mut Account, info: &TransactionInfo) -> (r: EngineResult<()>)
        requires
            old(self).store.inv(),
            deposits_all_wf(old(self).store.deposits_view()),
            old(account).wf(),
        ensures
            final(self).store.inv(),
            deposits_all_wf(final(self).store.deposits_view()),
            final(self).store.accounts_view() == old(self).store.accounts_view(),
            final(self).store.clients_order() == old(self).store.clients_order(),
            final(self).store.upsert_ok() == old(self).store.upsert_ok(),
            ({
                let deposits = old(self).store.deposits_view();
                let a = *old(account);
                let rid = info.id;
                match dispute_error(deposits, a, rid) {
                    Some(e) => r == Err::<(), EngineError>(e) && *final(account) == a && final(self).store.deposits_view() == deposits,
                    None => if !dispute_applies(deposits, a, rid) {
                        r == Ok::<(), EngineError>(()) && *final(account) == a && final(self).store.deposits_view() == deposits
                    } else {
                        let amt = spec_deposit_amount(deposits[rid]);
                        if subtractable(a.available, amt) && addable(a.held, amt) {
                            &&& r == Ok::<(), EngineError>(())
                            &&& *final(account) == (Account {
                                available: spec_sub(a.available, amt),
                                held: spec_add(a.held, amt),
                                ..a
                            })
                            &&& final(account).wf()
                            &&& final(self).store.deposits_view() == spec_set_under_dispute(
                                deposits,
                                deposits[rid].spec_info().id,
                                true,
                            )
                        } else {
                            (r matches Err(EngineError::UnknownError(_))) && *final(account) == a
                                && final(self).store.deposits_view() == deposits
                        }
                    },
                }
            }),
    {
        let ref_transaction = self.store.get_transaction(info.id);
        match ref_transaction {
            Err(StoreError::NotFound { .. }) => Ok(()),
            Err(e) => Err(EngineError::Store(e)),
            Ok(ref_tx) => {
                if let Transaction::Deposit { info: ref_info, amount, under_dispute } = ref_tx {
                    if account.client != ref_info.client_id {
                        return Err(wrong_client_error(account, &ref_info));
                    } else if under_dispute {
                        return Err(EngineError::DoubleDispute { id: ref_info.id });
                    } else if account.available.lt(&amount) {
                        return Err(EngineError::InsufficientAvailableFunds);
                    }
                    proof {
                        if subtractable(account.available, amount) {
                            lemma_spec_sub_units(account.available, amount);
                        }
                        if addable(account.held, amount) {
                            lemma_spec_add_units(account.held, amount);
                        }
                    }
                    let new_available = match account.available.checked_sub(&amount) {
                        Some(v) => v,
                        None => {
                            return Err(EngineError::UnknownError("amount out of range".to_owned()));
                        },
                    };
                    let new_held = match account.held.checked_add(&amount) {
                        Some(v) => v,
                        None => {
                            return Err(EngineError::UnknownError("amount out of range".to_owned()));
                        },
                    };
                    account.available = new_available;
                    account.held = new_held;
                    match self.store.set_transaction_under_dispute(ref_info.id, true) {
                        Ok(()) => {},
                        Err(e) => {
                            return Err(EngineError::Store(e));
                        },
                    }
                    Ok(())
                } else {
                    Err(EngineError::WrongTransactionRef { id: info.id })
                }
            },
        }
    }

    /// Closes a dispute benignly: the disputed amount moves back from held to
    /// available and the referenced deposit's flag is cleared.
    fn resolve(&mut self, account: &mut Account, info: &TransactionInfo) -> (r: EngineResult<()>)
        requires
            old(self).store.inv(),
            deposits_all_wf(old(self).store.deposits_view()),
            old(account).wf(),
        ensures
            final(self).store.inv(),
            deposits_all_wf(final(self).store.deposits_view()),
            final(self).store.accounts_view() == old(self).store.accounts_view(),
            final(self).store.clients_order() == old(self).store.clients_order(),
            final(self).store.upsert_ok() == old(self).store.upsert_ok(),
            ({
                let deposits = old(self).store.deposits_view();
                let a = *old(account);
                let rid = info.id;
                match resolve_error(deposits, a, rid) {
                    Some(e) => r == Err::<(), EngineError>(e) && *final(account) == a && final(self).store.deposits_view() == deposits,
                    None => if !resolve_applies(deposits, a, rid) {
                        r == Ok::<(), EngineError>(()) && *final(account) == a && final(self).store.deposits_view() == deposits
                    } else {
                        let amt = spec_deposit_amount(deposits[rid]);
                        if subtractable(a.held, amt) && addable(a.available, amt) {
                            &&& r == Ok::<(), EngineError>(())
                            &&& *final(account) == (Account {
                                held: spec_sub(a.held, amt),
                                available: spec_add(a.available, amt),
                                ..a
                            })
                            &&& final(account).wf()
                            &&& final(self).store.deposits_view() == spec_set_under_dispute(
                                deposits,
                                deposits[rid].spec_info().id,
                                false,
                            )
                        } else {
                            (r matches Err(EngineError::UnknownError(_))) && *final(account) == a
                                && final(self).store.deposits_view() == deposits
                        }
                    },
                }
            }),
    {
        let ref_transaction = self.store.get_transaction(info.id);
        match ref_transaction {
            Err(StoreError::NotFound { .. }) => Ok(()),
            Err(e) => Err(EngineError::Store(e)),
            Ok(ref_tx) => {
                if let Transaction::Deposit { info: ref_info, amount, under_dispute } = ref_tx {
                    if account.client != ref_info.client_id {
                        return Err(wrong_client_error(account, &ref_info));
                    } else if account.held.lt(&amount) {
                        return Err(EngineError::InsufficientHeldFunds);
                    } else if !under_dispute {
                        return Ok(());
                    }
                    proof {
                        if subtractable(account.held, amount) {
                            lemma_spec_sub_units(account.held, amount);
                        }
                        if addable(account.available, amount) {
                            lemma_spec_add_units(account.available, amount);
                        }
                    }
                    let new_held = match account.held.checked_sub(&amount) {
                        Some(v) => v,
                        None => {
                            return Err(EngineError::UnknownError("amount out of range".to_owned()));
                        },
                    };
                    let new_available = match account.available.checked_add(&amount) {
                        Some(v) => v,
                        None => {
                            return Err(EngineError::UnknownError("amount out of range".to_owned()));
                        },
                    };
                    account.held = new_held;
                    account.available = new_available;
                    match self.store.set_transaction_under_dispute(ref_info.id, false) {
                        Ok(()) => {},
                        Err(e) => {
                            return Err(EngineError::Store(e));
                        },
                    }
                    Ok(())
                } else {
                    Err(EngineError::WrongTransactionRef { id: info.id })
                }
            },
        }
    }

    /// Closes a dispute adversely: the disputed amount is forfeit, the
    /// account is locked, and the referenced deposit's flag is cleared.
    fn chargeback(&mut self, account: &mut Account, info: &TransactionInfo) -> (r: EngineResult<()>)
        requires
            old(self).store.inv(),
            deposits_all_wf(old(self).store.deposits_view()),
            old(account).wf(),
        ensures
            final(self).store.inv(),
            deposits_all_wf(final(self).store.deposits_view()),
            final(self).store.accounts_view() == old(self).store.accounts_view(),
            final(self).store.clients_order() == old(self).store.clients_order(),
            final(self).store.upsert_ok() == old(self).store.upsert_ok(),
            ({
                let deposits = old(self).store.deposits_view();
                let a = *old(account);
                let rid = info.id;
                match resolve_error(deposits, a, rid) {
                    Some(e) => r == Err::<(), EngineError>(e) && *final(account) == a && final(self).store.deposits_view() == deposits,
                    None => if !resolve_applies(deposits, a, rid) {
                        r == Ok::<(), EngineError>(()) && *final(account) == a && final(self).store.deposits_view() == deposits
                    } else {
                        let amt = spec_deposit_amount(deposits[rid]);
                        if subtractable(a.held, amt) && subtractable(a.total, amt) {
                            &&& r == Ok::<(), EngineError>(())
                            &&& *final(account) == (Account {
                                held: spec_sub(a.held, amt),
                                total: spec_sub(a.total, amt),
                                locked: true,
                                ..a
                            })
                            &&& final(account).wf()
                            &&& final(self).store.deposits_view() == spec_set_under_dispute(
                                deposits,
                                deposits[rid].spec_info().id,
                                false,
                            )
                        } else {
                            (r matches Err(EngineError::UnknownError(_))) && *final(account) == a
                                && final(self).store.deposits_view() == deposits
                        }
                    },
                }
            }),
    {
        let ref_transaction = self.store.get_transaction(info.id);
        match ref_transaction {
            Err(StoreError::NotFound { .. }) => Ok(()),
            Err(e) => Err(EngineError::Store(e)),
            Ok(ref_tx) => {
                if let Transaction::Deposit { info: ref_info, amount, under_dispute } = ref_tx {
                    if account.client != ref_info.client_id {
                        return Err(wrong_client_error(account, &ref_info));
                    } else if account.held.lt(&amount) {
                        return Err(EngineError::InsufficientHeldFunds);
                    } else if !under_dispute {
                        return Ok(());
                    }
                    proof {
                        if subtractable(account.held, amount) {
                            lemma_spec_sub_units(account.held, amount);
                        }
                        if subtractable(account.total, amount) {
                            lemma_spec_sub_units(account.total, amount);
                        }
                    }
                    let new_held = match account.held.checked_sub(&amount) {
                        Some(v) => v,
                        None => {
                            return Err(EngineError::UnknownError("amount out of range".to_owned()));
                        },
                    };
                    let new_total = match account.total.checked_sub(&amount) {
                        Some(v) => v,
                        None => {
                            return Err(EngineError::UnknownError("amount out of range".to_owned()));
                        },
                    };
                    account.held = new_held;
                    account.total = new_total;
                    account.locked = true;
                    match self.store.set_transaction_under_dispute(ref_info.id, false) {
                        Ok(()) => {},
                        Err(e) => {
                            return Err(EngineError::Store(e));
                        },
                    }
                    Ok(())
                } else {
                    Err(EngineError::WrongTransactionRef { id: info.id })
                }
            },
        }
    }

    /// Returns the current state of the clients' accounts, one per stored
    /// client, in the store's enumeration order.
    pub fn report(&self) -> (r: EngineResult<Vec<Account>>)
        requires
            self.store.inv(),
        ensures
            r matches Ok(v) && v@ == Seq::new(
                self.store.clients_order().len(),
                |i: int| self.store.accounts_view()[self.store.clients_order()[i]],
            ),
    {
        match self.store.get_all_accounts() {
            Ok(v) => Ok(v),
            Err(e) => Err(EngineError::Store(e)),
        }
    }
}

/// The error for a reference that belongs to another client, built from the
/// referenced deposit's header and the account the transaction addressed.
fn wrong_client_error(account: &Account, info: &TransactionInfo) -> (r: EngineError)
    ensures
        r == (EngineError::TransactionRefWrongClient {
            id: info.id,
            client: info.client_id,
            wrong_client: account.client,
        }),
{
    EngineError::TransactionRefWrongClient {
        id: info.id,
        client: info.client_id,
        wrong_client: account.client,
    }
}

} // verus!
