//! A single-process proof-of-work ledger: blocks of value transfers, a mining
//! search over nonces, chain validation and balances derived from history.
use vstd::prelude::*;

pub mod balances;
pub mod block;
pub mod encoding;
pub mod hashing;
pub mod ledger;

verus! {

} // verus!
