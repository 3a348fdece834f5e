//! Connection quality measurement and the registry of active connections.
pub mod active_connections;
pub mod quality;

pub use self::active_connections::ActiveConnections;
pub use self::quality::{NetworkQuality, RttMeasurer};
