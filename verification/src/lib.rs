//! Verified core of a network-traffic analysis framework: connection tracking,
//! stream reassembly, application-layer protocol parsing, per-connection
//! datatypes, packet accounting and subscription planning.

pub mod compiler;
pub mod conntrack;
pub mod datatypes;
pub mod filter;
pub mod protocols;
pub mod runtime;
pub mod stats;
pub mod subscription;
pub mod text;
pub mod time;
pub mod wire;
