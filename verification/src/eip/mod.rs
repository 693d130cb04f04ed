//! EtherNet/IP: the value mapping and the TLS policy.

pub mod tls;
pub mod types;
