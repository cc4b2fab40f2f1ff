//! Client balance records.

use vstd::prelude::*;
use crate::amount::{Amount, addable, spec_add, spec_rescaled_down, lemma_spec_add_units};
use crate::common::ClientId;

verus! {

/// Largest number of fractional digits an amount keeps when an account is
/// prepared for display.
pub const MAX_DISPLAY_PRECISION: u32 = 4;

/// Represents the current state of the client's account.
///
/// A well-formed account satisfies `total == available + held` (see
/// [`Account::balanced`]); the engine establishes this for every account it
/// creates and preserves it across every transaction.
#[derive(Debug, Clone, Copy, PartialEq)]
pub struct Account {
    /// Id of the client.
    pub client: ClientId,
    /// The current available funds of the account.
    pub available: Amount,
    /// The current held funds of the account.
    pub held: Amount,
    /// The total funds of the account, available and held.
    pub total: Amount,
    /// Whether the account is locked. An account is locked if a chargeback
    /// occurs.
    pub locked: bool,
}

impl Account {
    /// All three balances are representable amounts.
    pub open spec fn wf(self) -> bool {
        &&& self.available.wf()
        &&& self.held.wf()
        &&& self.total.wf()
    }

    /// The account's fundamental balance invariant:
    /// `total == available + held`, as values.
    pub open spec fn balanced(self) -> bool {
        self.total.units() == self.available.units() + self.held.units()
    }

    /// A fresh zeroed account for `client`.
    pub open spec fn spec_new(client: ClientId) -> Account {
        Account {
            client,
            available: Amount { mantissa: 0, scale: 0 },
            held: Amount { mantissa: 0, scale: 0 },
            total: Amount { mantissa: 0, scale: 0 },
            locked: false,
        }
    }

    /// Creates a new zeroed [`Account`] for the specified client.
    pub fn new(client: ClientId) -> (r: Account)
        ensures
            r == Account::spec_new(client),
            r.wf(),
            r.balanced(),
    {
        Account {
            client,
            available: Amount::zero(),
            held: Amount::zero(),
            total: Amount::zero(),
            locked: false,
        }
    }

    /// Creates a new [`Account`] with the specified balances; the total is
    /// the exact sum of the available and held funds.
    pub fn seeded(client: ClientId, available: Amount, held: Amount, locked: bool) -> (r: Account)
        requires
            available.wf(),
            held.wf(),
            addable(available, held),
        ensures
            r == (Account { client, available, held, total: spec_add(available, held), locked }),
            r.wf(),
            r.balanced(),
    {
        proof {
            lemma_spec_add_units(available, held);
        }
        let total = match available.checked_add(&held) {
            Some(t) => t,
            None => Amount::zero(),
        };
        Account { client, available, held, total, locked }
    }

    /// Mutates the [`Account`] for displaying purposes and brings the amounts
    /// down to at most [`MAX_DISPLAY_PRECISION`] decimal places.
    pub fn to_max_display_precision(&mut self)
        requires
            old(self).wf(),
        ensures
            *final(self) == (Account {
                available: spec_rescaled_to_max_precision(old(self).available),
                held: spec_rescaled_to_max_precision(old(self).held),
                total: spec_rescaled_to_max_precision(old(self).total),
                ..*old(self)
            }),
            final(self).wf(),
    {
        self.available = rescale_to_max_precision(self.available);
        self.held = rescale_to_max_precision(self.held);
        self.total = rescale_to_max_precision(self.total);
    }
}

/// `a` unchanged when its scale is at most [`MAX_DISPLAY_PRECISION`], else
/// rounded to that scale with ties away from zero.
pub open spec fn spec_rescaled_to_max_precision(a: Amount) -> Amount {
    if a.scale > MAX_DISPLAY_PRECISION {
        spec_rescaled_down(a, MAX_DISPLAY_PRECISION)
    } else {
        a
    }
}

fn rescale_to_max_precision(amount: Amount) -> (r: Amount)
    requires
        amount.wf(),
    ensures
        r == spec_rescaled_to_max_precision(amount),
        r.wf(),
{
    if amount.scale > MAX_DISPLAY_PRECISION {
        amount.rescale_down(MAX_DISPLAY_PRECISION)
    } else {
        amount
    }
}

} // verus!
