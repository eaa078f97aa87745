//! Policies that admit, authorise and move value for cross-domain messages.
pub mod asset;
pub mod barrier;
pub mod exchange;
pub mod fees;
pub mod ledger;
pub mod location;
pub mod locks;
pub mod origin;
pub mod query;
pub mod table;
pub mod transport;
pub mod trust;
