//! Identifiers shared across the ledger.

use vstd::prelude::*;

verus! {

/// Id of a client, unique across the ledger.
pub type ClientId = u16;

} // verus!
