//! The acknowledgement bookkeeping of a reliable UDP connection.
pub mod connection;
pub mod packet;

pub use self::connection::{Connection, ConnectionQuality, ConnectionView};
pub use self::packet::{AckRecord, ExternalAcks};
