//! Processing a whole CSV input against an engine.

use vstd::prelude::*;
use crate::account::Account;
use crate::common::ClientId;
use crate::csv::{parse_all_spec, parse_transactions, render_accounts, report_bytes, CsvError};
use crate::engine::{
    accounts_all_wf, deposits_all_wf, post_accounts, post_deposits, post_order, Engine,
};
use crate::store::Store;
use crate::transaction::{Transaction, TransactionId};

verus! {

/// The abstract state a run threads through: the three pieces of store state
/// the engine reads and writes.
pub struct RunState {
    /// The recorded deposits, keyed by transaction id.
    pub deposits: Map<TransactionId, Transaction>,
    /// The stored accounts, keyed by client id.
    pub accounts: Map<ClientId, Account>,
    /// The order in which the accounts are enumerated.
    pub order: Seq<ClientId>,
}

/// One transaction applied to a run state: exactly what
/// [`Engine::process_transaction`] does to the store.
pub open spec fn step_state(s: RunState, tx: Transaction, upsert_ok: bool) -> RunState {
    RunState {
        deposits: post_deposits(s.deposits, s.accounts, tx, upsert_ok),
        accounts: post_accounts(s.deposits, s.accounts, tx, upsert_ok),
        order: post_order(s.deposits, s.accounts, s.order, tx, upsert_ok),
    }
}

/// A sequence of transactions applied in order.
pub open spec fn run_state(s: RunState, txs: Seq<Transaction>, upsert_ok: bool) -> RunState
    decreases txs.len(),
{
    if txs.len() == 0 {
        s
    } else {
        step_state(run_state(s, txs.drop_last(), upsert_ok), txs.last(), upsert_ok)
    }
}

/// The transactions among a sequence of parses: the rows that parsed, in
/// order, with the failed rows skipped.
pub open spec fn ok_transactions(rows: Seq<Result<Transaction, CsvError>>) -> Seq<Transaction>
    decreases rows.len(),
{
    if rows.len() == 0 {
        Seq::empty()
    } else {
        let rest = ok_transactions(rows.drop_last());
        match rows.last() {
            Ok(tx) => rest.push(tx),
            Err(_) => rest,
        }
    }
}

/// The accounts of a run state, in enumeration order.
pub open spec fn state_report(s: RunState) -> Seq<Account> {
    Seq::new(s.order.len(), |i: int| s.accounts[s.order[i]])
}

/// Processes all the transactions of the CSV input `input` against `engine`
/// and returns the rendered report of the final accounts.
///
/// Rows that do not parse, and transactions the engine rejects, are skipped;
/// the store ends in exactly the state that running every parsed transaction
/// in order produces, and the output is the rendered report of that state.
pub fn process_transactions<S: Store>(input: &[u8], engine: &mut Engine<S>) -> (out: Vec<u8>)
    requires
        old(engine).store.inv(),
        deposits_all_wf(old(engine).store.deposits_view()),
        accounts_all_wf(old(engine).store.accounts_view()),
    ensures
        final(engine).store.inv(),
        deposits_all_wf(final(engine).store.deposits_view()),
        accounts_all_wf(final(engine).store.accounts_view()),
        final(engine).store.upsert_ok() == old(engine).store.upsert_ok(),
        ({
            let txs = ok_transactions(parse_all_spec(input@));
            let start = RunState {
                deposits: old(engine).store.deposits_view(),
                accounts: old(engine).store.accounts_view(),
                order: old(engine).store.clients_order(),
            };
            let end = run_state(start, txs, old(engine).store.upsert_ok());
            &&& final(engine).store.deposits_view() == end.deposits
            &&& final(engine).store.accounts_view() == end.accounts
            &&& final(engine).store.clients_order() == end.order
            &&& out@ == report_bytes(state_report(end))
        }),
{
    let ghost start = RunState {
        deposits: old(engine).store.deposits_view(),
        accounts: old(engine).store.accounts_view(),
        order: old(engine).store.clients_order(),
    };
    let ghost upsert_ok = old(engine).store.upsert_ok();
    let rows = parse_transactions(input);
    let mut i: usize = 0;
    proof {
        assert(rows@.subrange(0, 0) =~= Seq::<Result<Transaction, CsvError>>::empty());
    }
    while i < rows.len()
        invariant
            0 <= i <= rows@.len(),
            rows@ == parse_all_spec(input@),
            forall|k: int|
                0 <= k < rows@.len() ==> (#[trigger] rows@[k] matches Ok(tx) ==> tx.amount_wf()),
            engine.store.inv(),
            deposits_all_wf(engine.store.deposits_view()),
            accounts_all_wf(engine.store.accounts_view()),
            engine.store.upsert_ok() == upsert_ok,
            ({
                let mid = run_state(start, ok_transactions(rows@.subrange(0, i as int)), upsert_ok);
                &&& engine.store.deposits_view() == mid.deposits
                &&& engine.store.accounts_view() == mid.accounts
                &&& engine.store.clients_order() == mid.order
            }),
        decreases rows@.len() - i,
    {
        proof {
            assert(rows@.subrange(0, i + 1).drop_last() =~= rows@.subrange(0, i as int));
            assert(rows@.subrange(0, i + 1).last() == rows@[i as int]);
        }
        let ghost txs0 = ok_transactions(rows@.subrange(0, i as int));
        let ghost txs1 = ok_transactions(rows@.subrange(0, i + 1));
        match &rows[i] {
            Ok(tx) => {
                // a rejected transaction is skipped; the engine's contract
                // already says it left the store in the compensated state
                let _ = engine.process_transaction(*tx);
                proof {
                    assert(txs1 == txs0.push(*tx));
                    assert(txs1.drop_last() =~= txs0);
                    assert(txs1.last() == *tx);
                    assert(run_state(start, txs1, upsert_ok) == step_state(
                        run_state(start, txs0, upsert_ok),
                        *tx,
                        upsert_ok,
                    ));
                }
            },
            Err(_) => {
                proof {
                    assert(txs1 == txs0);
                }
            },
        }
        i = i + 1;
    }
    proof {
        assert(rows@.subrange(0, rows@.len() as int) =~= rows@);
    }
    let report = match engine.report() {
        Ok(v) => v,
        Err(_) => Vec::new(),
    };
    proof {
        assert forall|k: int| 0 <= k < report@.len() implies (#[trigger] report@[k]).wf() by {
            engine.store.lemma_inv();
            assert(engine.store.clients_order().to_set().contains(
                engine.store.clients_order()[k],
            ));
        }
        assert(report@ =~= state_report(
            run_state(start, ok_transactions(parse_all_spec(input@)), upsert_ok),
        ));
    }
    render_accounts(&report)
}

} // verus!
