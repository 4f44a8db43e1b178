//! Connection tracking.

pub mod conn;
pub mod conn_info;
pub mod conn_state;
pub mod expiry;
pub mod frames;
pub mod lifecycle;
pub mod pdu;
pub mod reassembly;
pub mod stream;
pub mod table;
pub mod tcp;
pub mod tcp_conn;
pub mod timerwheel;
