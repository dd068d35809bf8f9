//! A ledger of client accounts driven by a stream of payment events.
//!
//! Amounts are fixed-point values with four fractional digits, held as a count
//! of ten-thousandths. Each account tracks available, held and total funds; the
//! engine applies deposits, withdrawals, disputes, resolutions and chargebacks
//! and reports every rejected event as a `Failure`.
pub mod transaction;
pub mod wallet;
pub mod wallet_manager;
pub mod laws;
pub mod record;
