//! Laminar: an application-level transport protocol built on top of UDP, providing
//! configurable reliability and ordering guarantees.
//!
//! This crate holds the protocol's logic: acknowledgement bookkeeping, packet
//! header encoding, fragmentation, arranging streams and the reliability system that
//! ties them together. Every function here carries a contract checked by Verus.
pub mod config;
pub mod either;
pub mod error;
pub mod net;
pub mod infrastructure;
pub mod packet;
pub mod protocol_version;

pub use self::config::Config;
pub use self::error::ErrorKind;
pub use self::packet::Packet;
