//! The ledger's laws: properties of the engine's transition, stated over the
//! same spec functions its contracts use, and proved once and for all.

use vstd::prelude::*;
use crate::account::Account;
use crate::amount::{
    lemma_spec_add_units, lemma_spec_sub_units, lemma_zero_mantissa_units, Amount,
};
use crate::common::ClientId;
use crate::engine::{
    accounts_all_wf, deposits_all_wf, dispute_applies, loaded_account,
    post_accounts, post_deposits, post_order, resolve_applies, spec_deposit_amount, step_account,
    step_error, step_fails, step_overflows, EngineError,
};
use crate::store::StoreError;
use crate::transaction::{Transaction, TransactionId};

verus! {

/// Every stored account satisfies the balance invariant
/// `total == available + held`.
pub open spec fn accounts_all_balanced(accounts: Map<ClientId, Account>) -> bool {
    forall|c: ClientId| #[trigger] accounts.contains_key(c) ==> accounts[c].balanced()
}

/// Every stored account sits under its own client id.
pub open spec fn accounts_consistent(accounts: Map<ClientId, Account>) -> bool {
    forall|c: ClientId| #[trigger] accounts.contains_key(c) ==> accounts[c].client == c
}

/// Every recorded transaction sits under its own transaction id.
pub open spec fn deposits_consistent(deposits: Map<TransactionId, Transaction>) -> bool {
    forall|id: TransactionId| #[trigger]
        deposits.contains_key(id) ==> deposits[id].spec_info().id == id
}

/// Every recorded transaction is a deposit.
pub open spec fn deposits_all_deposits(deposits: Map<TransactionId, Transaction>) -> bool {
    forall|id: TransactionId| #[trigger] deposits.contains_key(id) ==> deposits[id].is_deposit()
}

/// The account a transaction produces keeps the balance invariant: when the
/// loaded account is well-formed and balanced and the transaction neither
/// errs nor overflows, the produced account is well-formed and balanced, and
/// it belongs to the same client.
pub proof fn lemma_step_account_sound(
    deposits: Map<TransactionId, Transaction>,
    accounts: Map<ClientId, Account>,
    tx: Transaction,
)
    requires
        deposits_all_wf(deposits),
        tx.amount_wf(),
        loaded_account(accounts, tx.spec_info().client_id).wf(),
        step_error(deposits, accounts, tx) is None,
        !step_overflows(deposits, accounts, tx),
    ensures
        step_account(deposits, accounts, tx).wf(),
        step_account(deposits, accounts, tx).client == loaded_account(
            accounts,
            tx.spec_info().client_id,
        ).client,
        loaded_account(accounts, tx.spec_info().client_id).balanced() ==> step_account(
            deposits,
            accounts,
            tx,
        ).balanced(),
        step_account(deposits, accounts, tx).total.units() == loaded_account(
            accounts,
            tx.spec_info().client_id,
        ).total.units() + (match tx {
            Transaction::Deposit { amount, .. } => amount.units(),
            Transaction::Withdrawal { amount, .. } => -amount.units(),
            Transaction::ChargeBack { info } => if resolve_applies(
                deposits,
                loaded_account(accounts, tx.spec_info().client_id),
                info.id,
            ) {
                -spec_deposit_amount(deposits[info.id]).units()
            } else {
                0
            },
            _ => 0,
        }),
{
    let a = loaded_account(accounts, tx.spec_info().client_id);
    match tx {
        Transaction::Deposit { amount, .. } => {
            lemma_spec_add_units(a.available, amount);
            lemma_spec_add_units(a.total, amount);
        },
        Transaction::Withdrawal { amount, .. } => {
            lemma_spec_sub_units(a.available, amount);
            lemma_spec_sub_units(a.total, amount);
        },
        Transaction::Dispute { info } => {
            if dispute_applies(deposits, a, info.id) {
                let amt = spec_deposit_amount(deposits[info.id]);
                lemma_spec_sub_units(a.available, amt);
                lemma_spec_add_units(a.held, amt);
            }
        },
        Transaction::Resolve { info } => {
            if resolve_applies(deposits, a, info.id) {
                let amt = spec_deposit_amount(deposits[info.id]);
                lemma_spec_sub_units(a.held, amt);
                lemma_spec_add_units(a.available, amt);
            }
        },
        Transaction::ChargeBack { info } => {
            if resolve_applies(deposits, a, info.id) {
                let amt = spec_deposit_amount(deposits[info.id]);
                lemma_spec_sub_units(a.held, amt);
                lemma_spec_sub_units(a.total, amt);
            }
        },
    }
}

/// Law: `total == available + held` holds of every account at every
/// quiescent point. Processing any transaction preserves well-formedness,
/// balance and key consistency of the whole account map, whatever the
/// outcome.
pub proof fn lemma_balance_invariant(
    deposits: Map<TransactionId, Transaction>,
    accounts: Map<ClientId, Account>,
    tx: Transaction,
    upsert_ok: bool,
)
    requires
        deposits_all_wf(deposits),
        accounts_all_wf(accounts),
        accounts_all_balanced(accounts),
        accounts_consistent(accounts),
        tx.amount_wf(),
    ensures
        accounts_all_wf(post_accounts(deposits, accounts, tx, upsert_ok)),
        accounts_all_balanced(post_accounts(deposits, accounts, tx, upsert_ok)),
        accounts_consistent(post_accounts(deposits, accounts, tx, upsert_ok)),
{
    if !step_fails(deposits, accounts, tx, upsert_ok) {
        let client = tx.spec_info().client_id;
        let a = loaded_account(accounts, client);
        if !accounts.contains_key(client) {
            lemma_zero_mantissa_units(Amount { mantissa: 0, scale: 0 });
        }
        lemma_step_account_sound(deposits, accounts, tx);
    }
}

/// Law: `locked` is monotonic. Once an account is locked, it stays locked
/// across any processed transaction, whatever the outcome.
pub proof fn lemma_locked_monotonic(
    deposits: Map<TransactionId, Transaction>,
    accounts: Map<ClientId, Account>,
    tx: Transaction,
    upsert_ok: bool,
    c: ClientId,
)
    requires
        accounts_consistent(accounts),
        accounts.contains_key(c),
        accounts[c].locked,
    ensures
        post_accounts(deposits, accounts, tx, upsert_ok).contains_key(c),
        post_accounts(deposits, accounts, tx, upsert_ok)[c].locked,
{
    if !step_fails(deposits, accounts, tx, upsert_ok) {
        let client = tx.spec_info().client_id;
        let a = loaded_account(accounts, client);
        if a.client == c {
            assert(accounts.contains_key(client) ==> a == accounts[client]);
        }
    }
}

/// Law: once an account is locked, every subsequent transaction on that
/// client returns `LockedAccount` and leaves the whole store unchanged. The
/// two guards that run earlier are excluded: the transaction carries no
/// negative amount and its id is not already recorded.
pub proof fn lemma_locked_account_rejected(
    deposits: Map<TransactionId, Transaction>,
    accounts: Map<ClientId, Account>,
    order: Seq<ClientId>,
    tx: Transaction,
    upsert_ok: bool,
)
    requires
        accounts.contains_key(tx.spec_info().client_id),
        accounts[tx.spec_info().client_id].locked,
        !tx.spec_has_negative_amount(),
        !deposits.contains_key(tx.spec_info().id),
    ensures
        step_error(deposits, accounts, tx) == Some(
            EngineError::LockedAccount { id: tx.spec_info().client_id, tx: tx.spec_info().id },
        ),
        post_deposits(deposits, accounts, tx, upsert_ok) == deposits,
        post_accounts(deposits, accounts, tx, upsert_ok) == accounts,
        post_order(deposits, accounts, order, tx, upsert_ok) == order,
{
    if tx is Withdrawal {
        assert(deposits.remove(tx.spec_info().id) =~= deposits);
    }
}

/// Law: a deposit id never appears twice. A deposit whose id is already
/// recorded returns `AlreadyExists`, and the store — the first deposit
/// included — is untouched.
pub proof fn lemma_duplicate_deposit_rejected(
    deposits: Map<TransactionId, Transaction>,
    accounts: Map<ClientId, Account>,
    order: Seq<ClientId>,
    tx: Transaction,
    upsert_ok: bool,
)
    requires
        tx.is_deposit(),
        !tx.spec_has_negative_amount(),
        deposits.contains_key(tx.spec_info().id),
    ensures
        step_error(deposits, accounts, tx) == Some(
            EngineError::Store(StoreError::AlreadyExists { id: tx.spec_info().id }),
        ),
        post_deposits(deposits, accounts, tx, upsert_ok) == deposits,
        post_accounts(deposits, accounts, tx, upsert_ok) == accounts,
        post_order(deposits, accounts, order, tx, upsert_ok) == order,
{
}

/// Law: the store records deposits only. Whatever transaction is processed
/// and whatever its outcome, a store that held only deposits still holds
/// only deposits.
pub proof fn lemma_store_holds_only_deposits(
    deposits: Map<TransactionId, Transaction>,
    accounts: Map<ClientId, Account>,
    tx: Transaction,
    upsert_ok: bool,
)
    requires
        deposits_all_deposits(deposits),
    ensures
        deposits_all_deposits(post_deposits(deposits, accounts, tx, upsert_ok)),
{
    let post = post_deposits(deposits, accounts, tx, upsert_ok);
    assert forall|id: TransactionId| #[trigger]
        post.contains_key(id) implies post[id].is_deposit() by {
        if post.dom().contains(id) && !(deposits.contains_key(id) && post[id] == deposits[id]) {
            assert(post[id].is_deposit());
        }
    }
}

/// Law: a failing account upsert leaves no trace. When a transaction passes
/// every check but its account update does not commit, the compensation
/// leaves the whole store as it was: a deposit or withdrawal's record is
/// absent again, and a dispute, resolve or chargeback finds the referenced
/// deposit's flag restored. The one path on which the prior flag is not
/// restored is excluded: a resolve or chargeback that was ignored because
/// its recorded reference was not under dispute (the compensating toggle
/// then flips that flag).
pub proof fn lemma_failed_upsert_rolls_back(
    deposits: Map<TransactionId, Transaction>,
    accounts: Map<ClientId, Account>,
    order: Seq<ClientId>,
    tx: Transaction,
)
    requires
        deposits_consistent(deposits),
        step_error(deposits, accounts, tx) is None,
        !step_overflows(deposits, accounts, tx),
        ({
            let a = loaded_account(accounts, tx.spec_info().client_id);
            match tx {
                Transaction::Dispute { info } => dispute_applies(deposits, a, info.id)
                    || !deposits.contains_key(info.id),
                Transaction::Resolve { info } => resolve_applies(deposits, a, info.id)
                    || !deposits.contains_key(info.id),
                Transaction::ChargeBack { info } => resolve_applies(deposits, a, info.id)
                    || !deposits.contains_key(info.id),
                _ => true,
            }
        }),
    ensures
        tx.is_monetary() ==> !post_deposits(deposits, accounts, tx, false).contains_key(
            tx.spec_info().id,
        ),
        !tx.is_monetary() ==> post_deposits(deposits, accounts, tx, false) == deposits,
        post_accounts(deposits, accounts, tx, false) == accounts,
        post_order(deposits, accounts, order, tx, false) == order,
{
    let a = loaded_account(accounts, tx.spec_info().client_id);
    let id = tx.spec_info().id;
    match tx {
        Transaction::Dispute { info } => {
            if dispute_applies(deposits, a, info.id) {
                assert(deposits[info.id].spec_info().id == info.id);
                let set = deposits.insert(
                    info.id,
                    deposits[info.id].with_under_dispute(true),
                );
                assert(set.contains_key(id));
                assert(set.insert(id, set[id].with_toggled_dispute()) =~= deposits);
            }
        },
        Transaction::Resolve { info } => {
            if resolve_applies(deposits, a, info.id) {
                assert(deposits[info.id].spec_info().id == info.id);
                let set = deposits.insert(
                    info.id,
                    deposits[info.id].with_under_dispute(false),
                );
                assert(set.contains_key(id));
                assert(set.insert(id, set[id].with_toggled_dispute()) =~= deposits);
            }
        },
        Transaction::ChargeBack { info } => {
            if resolve_applies(deposits, a, info.id) {
                assert(deposits[info.id].spec_info().id == info.id);
                let set = deposits.insert(
                    info.id,
                    deposits[info.id].with_under_dispute(false),
                );
                assert(set.contains_key(id));
                assert(set.insert(id, set[id].with_toggled_dispute()) =~= deposits);
            }
        },
        Transaction::Withdrawal { .. } => {
        },
        Transaction::Deposit { .. } => {
        },
    }
}

/// The sum of the `total` balances of the accounts enumerated by `order`,
/// in units of the smallest representable fraction.
pub open spec fn sum_totals(accounts: Map<ClientId, Account>, order: Seq<ClientId>) -> int
    decreases order.len(),
{
    if order.len() == 0 {
        0
    } else {
        sum_totals(accounts, order.drop_last()) + accounts[order.last()].total.units()
    }
}

/// Updating a client outside the enumeration does not change the sum.
proof fn lemma_sum_totals_insert_absent(
    accounts: Map<ClientId, Account>,
    order: Seq<ClientId>,
    c: ClientId,
    a: Account,
)
    requires
        !order.contains(c),
    ensures
        sum_totals(accounts.insert(c, a), order) == sum_totals(accounts, order),
    decreases order.len(),
{
    if order.len() > 0 {
        assert(order[order.len() - 1] != c);
        assert forall|k: int| 0 <= k < order.len() - 1 implies order.drop_last()[k] != c by {
            assert(order.drop_last()[k] == order[k]);
        }
        assert(!order.drop_last().contains(c));
        lemma_sum_totals_insert_absent(accounts, order.drop_last(), c, a);
    }
}

/// Updating an enumerated client changes the sum by the difference of the
/// new and the old `total`.
proof fn lemma_sum_totals_insert_present(
    accounts: Map<ClientId, Account>,
    order: Seq<ClientId>,
    c: ClientId,
    a: Account,
)
    requires
        order.no_duplicates(),
        order.contains(c),
    ensures
        sum_totals(accounts.insert(c, a), order) == sum_totals(accounts, order)
            - accounts[c].total.units() + a.total.units(),
    decreases order.len(),
{
    let last = order.last();
    let rest = order.drop_last();
    assert forall|k1: int, k2: int|
        0 <= k1 < rest.len() && 0 <= k2 < rest.len() && k1 != k2 implies rest[k1] != rest[k2] by {
        assert(rest[k1] == order[k1] && rest[k2] == order[k2]);
    }
    if last == c {
        assert forall|k: int| 0 <= k < rest.len() implies rest[k] != c by {
            assert(rest[k] == order[k]);
            assert(order[k] != order[order.len() - 1]);
        }
        assert(!rest.contains(c));
        lemma_sum_totals_insert_absent(accounts, rest, c, a);
    } else {
        let w = choose|w: int| 0 <= w < order.len() && order[w] == c;
        assert(rest[w] == c);
        assert(rest.contains(c));
        lemma_sum_totals_insert_present(accounts, rest, c, a);
    }
}

/// Processing a transaction keeps every recorded amount representable,
/// whatever the outcome.
pub proof fn lemma_post_deposits_wf(
    deposits: Map<TransactionId, Transaction>,
    accounts: Map<ClientId, Account>,
    tx: Transaction,
    upsert_ok: bool,
)
    requires
        deposits_all_wf(deposits),
        tx.amount_wf(),
    ensures
        deposits_all_wf(post_deposits(deposits, accounts, tx, upsert_ok)),
{
    let post = post_deposits(deposits, accounts, tx, upsert_ok);
    assert forall|id: TransactionId| #[trigger] post.contains_key(id) implies post[id].amount_wf() by {
        if post.dom().contains(id) && !(deposits.contains_key(id) && post[id] == deposits[id]) {
            assert(post[id].amount_wf());
        }
    }
}

/// A run state the engine maintains: representable amounts everywhere,
/// consistent account keys, and an enumeration of exactly the stored
/// clients.
pub open spec fn state_valid(s: crate::process::RunState) -> bool {
    &&& deposits_all_wf(s.deposits)
    &&& accounts_all_wf(s.accounts)
    &&& accounts_consistent(s.accounts)
    &&& s.order.no_duplicates()
    &&& s.order.to_set() == s.accounts.dom()
}

/// What one processed transaction adds to the ledger's total funds: the
/// amount of a deposit that went through, the negated amount of a withdrawal
/// that went through, nothing otherwise (chargebacks are excluded by the
/// conservation law's hypothesis).
pub open spec fn step_flow(s: crate::process::RunState, tx: Transaction, upsert_ok: bool) -> int {
    if step_fails(s.deposits, s.accounts, tx, upsert_ok) {
        0
    } else {
        match tx {
            Transaction::Deposit { amount, .. } => amount.units(),
            Transaction::Withdrawal { amount, .. } => -amount.units(),
            _ => 0,
        }
    }
}

/// What a whole run adds to the ledger's total funds.
pub open spec fn run_flow(s: crate::process::RunState, txs: Seq<Transaction>, upsert_ok: bool) -> int
    decreases txs.len(),
{
    if txs.len() == 0 {
        0
    } else {
        run_flow(s, txs.drop_last(), upsert_ok) + step_flow(
            crate::process::run_state(s, txs.drop_last(), upsert_ok),
            txs.last(),
            upsert_ok,
        )
    }
}

/// No transaction of the sequence is a chargeback.
pub open spec fn no_chargebacks(txs: Seq<Transaction>) -> bool {
    forall|i: int| 0 <= i < txs.len() ==> !((#[trigger] txs[i]) is ChargeBack)
}

/// Every transaction of the sequence carries a representable amount.
pub open spec fn all_amounts_wf(txs: Seq<Transaction>) -> bool {
    forall|i: int| 0 <= i < txs.len() ==> (#[trigger] txs[i]).amount_wf()
}

/// One conservation step: processing one transaction that is not a
/// chargeback moves the sum of all `total` balances by exactly its flow.
pub proof fn lemma_step_conservation(s: crate::process::RunState, tx: Transaction, upsert_ok: bool)
    requires
        state_valid(s),
        tx.amount_wf(),
        !(tx is ChargeBack),
    ensures
        state_valid(crate::process::step_state(s, tx, upsert_ok)),
        sum_totals(
            crate::process::step_state(s, tx, upsert_ok).accounts,
            crate::process::step_state(s, tx, upsert_ok).order,
        ) == sum_totals(s.accounts, s.order) + step_flow(s, tx, upsert_ok),
{
    lemma_post_deposits_wf(s.deposits, s.accounts, tx, upsert_ok);
    if !step_fails(s.deposits, s.accounts, tx, upsert_ok) {
        let client = tx.spec_info().client_id;
        let a = loaded_account(s.accounts, client);
        if !s.accounts.contains_key(client) {
            lemma_zero_mantissa_units(Amount { mantissa: 0, scale: 0 });
        }
        lemma_step_account_sound(s.deposits, s.accounts, tx);
        let a2 = step_account(s.deposits, s.accounts, tx);
        assert(a2.client == client);
        if s.accounts.contains_key(client) {
            assert(s.accounts.dom().contains(client));
            assert(s.order.to_set().contains(client));
            assert(s.order.contains(client));
            lemma_sum_totals_insert_present(s.accounts, s.order, client, a2);
            assert(s.order.to_set() =~= s.accounts.insert(client, a2).dom());
        } else {
            assert(!s.order.to_set().contains(client));
            assert(!s.order.contains(client));
            lemma_sum_totals_insert_absent(s.accounts, s.order, client, a2);
            assert(s.order.push(client).drop_last() =~= s.order);
            crate::store::lemma_push_keeps_order_inv(s.order, client);
            assert(s.order.push(client).to_set() =~= s.accounts.insert(client, a2).dom());
        }
    }
}

/// Law (conservation): over any run without chargebacks, the sum of all
/// `total` balances moves by exactly the successful deposit amounts minus
/// the successful withdrawal amounts. Started from an empty ledger, the sum
/// of all totals equals that net flow.
pub proof fn lemma_conservation(
    s: crate::process::RunState,
    txs: Seq<Transaction>,
    upsert_ok: bool,
)
    requires
        state_valid(s),
        all_amounts_wf(txs),
        no_chargebacks(txs),
    ensures
        state_valid(crate::process::run_state(s, txs, upsert_ok)),
        sum_totals(
            crate::process::run_state(s, txs, upsert_ok).accounts,
            crate::process::run_state(s, txs, upsert_ok).order,
        ) == sum_totals(s.accounts, s.order) + run_flow(s, txs, upsert_ok),
    decreases txs.len(),
{
    if txs.len() > 0 {
        let rest = txs.drop_last();
        assert forall|i: int| 0 <= i < rest.len() implies (#[trigger] rest[i]).amount_wf()
            && !(rest[i] is ChargeBack) by {
            assert(rest[i] == txs[i]);
        }
        lemma_conservation(s, rest, upsert_ok);
        lemma_step_conservation(crate::process::run_state(s, rest, upsert_ok), txs.last(), upsert_ok);
    }
}

} // verus!
