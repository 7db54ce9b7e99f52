//! A loyalty-points ledger with expiring point batches spent first-in first-out,
//! a ticket registry paid for in points, and a staking engine that funds
//! rewards for stakers and issuers.
//!
//! `pallet::Pallet` holds the whole state; its calls are spread over the
//! modules by subject. Every call either succeeds or fails with
//! `types::Error` and leaves the state as it was.
pub mod types;
pub mod ledger;
pub mod lists;
pub mod rewards;
pub mod pallet;
pub mod tickets;
pub mod staking;
pub mod pools;
pub mod eras;
pub mod distribution;
