//! A pooled-staking lottery core: investor and player ledgers with
//! latest-deposit-wins bookkeeping, a placeholder yield estimate, and a
//! winner draw seeded from host-supplied entropy.
//!
//! The host environment is modelled as a collaborator: it hands each
//! operation the caller's identity and, for a draw, the entropy bytes, and it
//! performs the fire-and-forget staking call that [`lottery::Contract::invest`]
//! returns as a [`lottery::StakeDelegation`] value.

pub mod account;
pub mod draw;
pub mod errors;
pub mod ledger;
pub mod lottery;
