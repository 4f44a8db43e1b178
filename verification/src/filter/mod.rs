//! Packet filters: patterns, and the rules that put them into hardware.

pub mod flow_drop;
pub mod hardware;
pub mod order;
pub mod pattern;
