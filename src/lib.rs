//! Per-account ledger of deposits, withdrawals, disputes, resolutions and
//! chargebacks, with balances kept as fixed-point decimals of scale four.
pub mod amount;
pub mod ledger;
pub mod store;
