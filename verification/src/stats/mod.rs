//! Packet accounting.

pub mod ledger;
