//! Traffic management: upstream identity, protocol negotiation, upgrade
//! lifecycle, load balancing and per-upstream health bookkeeping.
pub mod admission_guard;
pub mod decision;
pub mod manager;
pub mod protocol_mode;
pub mod snapshot;
pub mod store;
pub mod types;
pub mod upgrade_state;
pub mod wrr;
