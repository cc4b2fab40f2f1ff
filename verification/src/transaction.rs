//! Transactions processed by the engine.

use vstd::prelude::*;
use crate::amount::Amount;
use crate::common::ClientId;

verus! {

/// Id of a [`Transaction`], unique across all transaction kinds.
pub type TransactionId = u32;

/// Holds information about the transaction.
#[derive(Debug, Clone, Copy, PartialEq, Eq, Structural)]
pub struct TransactionInfo {
    /// Id of the transaction, globally unique.
    pub id: TransactionId,
    /// Id of the client.
    pub client_id: ClientId,
}

impl TransactionInfo {
    /// Creates a new [`TransactionInfo`] with the given parameters.
    pub fn new(id: TransactionId, client_id: ClientId) -> (r: TransactionInfo)
        ensures
            r == (TransactionInfo { id, client_id }),
    {
        TransactionInfo { id, client_id }
    }
}

/// A [`Transaction`] to be processed by the engine.
#[derive(Debug, Clone, Copy, PartialEq)]
pub enum Transaction {
    /// Credit to the client's asset account. It should increase the available
    /// and total funds of the client account.
    Deposit { info: TransactionInfo, amount: Amount, under_dispute: bool },
    /// Debit to the client's asset account. It should decrease the available
    /// and total funds of the client account.
    Withdrawal { info: TransactionInfo, amount: Amount },
    /// Represents a client's claim that a transaction was erroneous and
    /// should be reversed. Available funds should decrease, held funds should
    /// increase and total funds should remain the same.
    Dispute { info: TransactionInfo },
    /// Represents a resolution to a dispute, releasing the associated held
    /// funds. Held funds should decrease and available funds should increase.
    /// Total funds should remain the same.
    Resolve { info: TransactionInfo },
    /// Represents the client reversing a transaction after a dispute. Held
    /// funds and total funds should decrease. The client's account gets
    /// immediately frozen.
    ChargeBack { info: TransactionInfo },
}

impl Transaction {
    /// The transaction's header: its own id and the client it concerns.
    pub open spec fn spec_info(self) -> TransactionInfo {
        match self {
            Transaction::Deposit { info, .. } => info,
            Transaction::Withdrawal { info, .. } => info,
            Transaction::Dispute { info } => info,
            Transaction::Resolve { info } => info,
            Transaction::ChargeBack { info } => info,
        }
    }

    /// The amount carried by the transaction, for deposits and withdrawals.
    pub open spec fn spec_amount(self) -> Option<Amount> {
        match self {
            Transaction::Deposit { amount, .. } => Some(amount),
            Transaction::Withdrawal { amount, .. } => Some(amount),
            _ => None,
        }
    }

    /// The transaction is a deposit.
    pub open spec fn is_deposit(self) -> bool {
        self is Deposit
    }

    /// The transaction is a deposit or a withdrawal (the two kinds that carry
    /// an amount and that the store records or rolls back).
    pub open spec fn is_monetary(self) -> bool {
        self is Deposit || self is Withdrawal
    }

    /// The deposit's dispute flag; `false` for every other kind.
    pub open spec fn spec_under_dispute(self) -> bool {
        match self {
            Transaction::Deposit { under_dispute, .. } => under_dispute,
            _ => false,
        }
    }

    /// The transaction with its dispute flag set to `disputed`, when it is a
    /// deposit; unchanged otherwise.
    pub open spec fn with_under_dispute(self, disputed: bool) -> Transaction {
        match self {
            Transaction::Deposit { info, amount, .. } => Transaction::Deposit {
                info,
                amount,
                under_dispute: disputed,
            },
            _ => self,
        }
    }

    /// The transaction with its dispute flag flipped, when it is a deposit;
    /// unchanged otherwise.
    pub open spec fn with_toggled_dispute(self) -> Transaction {
        match self {
            Transaction::Deposit { info, amount, under_dispute } => Transaction::Deposit {
                info,
                amount,
                under_dispute: !under_dispute,
            },
            _ => self,
        }
    }

    /// The transaction carries an amount strictly below zero.
    pub open spec fn spec_has_negative_amount(self) -> bool {
        match self.spec_amount() {
            Some(amount) => amount.spec_is_negative(),
            None => false,
        }
    }

    /// The amount carried by the transaction, if any, is representable.
    pub open spec fn amount_wf(self) -> bool {
        match self.spec_amount() {
            Some(amount) => amount.wf(),
            None => true,
        }
    }

    /// Creates a new [`Transaction::Deposit`] with the given parameters.
    pub fn deposit(id: TransactionId, client_id: ClientId, amount: Amount) -> (r: Transaction)
        ensures
            r == (Transaction::Deposit {
                info: TransactionInfo { id, client_id },
                amount,
                under_dispute: false,
            }),
    {
        Transaction::Deposit { info: TransactionInfo::new(id, client_id), amount, under_dispute: false }
    }

    /// Creates a new [`Transaction::Deposit`] with the given parameters and
    /// sets the under dispute flag.
    pub fn deposit_under_dispute(id: TransactionId, client_id: ClientId, amount: Amount) -> (r:
        Transaction)
        ensures
            r == (Transaction::Deposit {
                info: TransactionInfo { id, client_id },
                amount,
                under_dispute: true,
            }),
    {
        Transaction::Deposit { info: TransactionInfo::new(id, client_id), amount, under_dispute: true }
    }

    /// Creates a new [`Transaction::Withdrawal`] with the given parameters.
    pub fn withdrawal(id: TransactionId, client_id: ClientId, amount: Amount) -> (r: Transaction)
        ensures
            r == (Transaction::Withdrawal { info: TransactionInfo { id, client_id }, amount }),
    {
        Transaction::Withdrawal { info: TransactionInfo::new(id, client_id), amount }
    }

    /// Creates a new [`Transaction::Dispute`] with the given parameters.
    pub fn dispute(id: TransactionId, client_id: ClientId) -> (r: Transaction)
        ensures
            r == (Transaction::Dispute { info: TransactionInfo { id, client_id } }),
    {
        Transaction::Dispute { info: TransactionInfo::new(id, client_id) }
    }

    /// Creates a new [`Transaction::Resolve`] with the given parameters.
    pub fn resolve(id: TransactionId, client_id: ClientId) -> (r: Transaction)
        ensures
            r == (Transaction::Resolve { info: TransactionInfo { id, client_id } }),
    {
        Transaction::Resolve { info: TransactionInfo::new(id, client_id) }
    }

    /// Creates a new [`Transaction::ChargeBack`] with the given parameters.
    pub fn chargeback(id: TransactionId, client_id: ClientId) -> (r: Transaction)
        ensures
            r == (Transaction::ChargeBack { info: TransactionInfo { id, client_id } }),
    {
        Transaction::ChargeBack { info: TransactionInfo::new(id, client_id) }
    }

    /// Sets the `under_dispute` flag to true or false if the [`Transaction`]
    /// is a [`Transaction::Deposit`].
    pub fn set_under_dispute(&mut self, disputed: bool)
        ensures
            *final(self) == old(self).with_under_dispute(disputed),
    {
        if let Transaction::Deposit { ref mut under_dispute, .. } = self {
            *under_dispute = disputed;
        }
    }

    /// Toggles the `under_dispute` flag if the [`Transaction`] is a
    /// [`Transaction::Deposit`].
    pub fn toggle_under_dispute(&mut self)
        ensures
            *final(self) == old(self).with_toggled_dispute(),
    {
        if let Transaction::Deposit { ref mut under_dispute, .. } = self {
            *under_dispute = !*under_dispute;
        }
    }

    /// Returns a reference to the [`TransactionInfo`] of this [`Transaction`].
    pub fn info(&self) -> (r: &TransactionInfo)
        ensures
            *r == self.spec_info(),
    {
        match self {
            Transaction::Deposit { info, .. } => info,
            Transaction::Withdrawal { info, .. } => info,
            Transaction::Dispute { info } => info,
            Transaction::Resolve { info } => info,
            Transaction::ChargeBack { info } => info,
        }
    }

    /// Returns the [`Amount`] associated to this [`Transaction`].
    pub fn amount(&self) -> (r: Option<Amount>)
        ensures
            r == self.spec_amount(),
    {
        match self {
            Transaction::Deposit { amount, .. } => Some(*amount),
            Transaction::Withdrawal { amount, .. } => Some(*amount),
            _ => None,
        }
    }

    /// Returns true if the amount is negative.
    pub fn has_negative_amount(&self) -> (r: bool)
        ensures
            r == self.spec_has_negative_amount(),
    {
        match self.amount() {
            Some(amount) => amount.is_negative(),
            None => false,
        }
    }
}

} // verus!
