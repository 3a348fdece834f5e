//! Networking logic: acknowledgements and connection bookkeeping.
pub mod constants;
pub mod events;
pub mod external_ack;
pub mod factory_impl;

pub use self::events::SocketEvent;
pub use self::external_ack::ExternalAcks;
pub use self::factory_impl::{ConnectionImpl, FactoryImpl};
pub mod local_ack;
pub mod network_config;
pub mod reliability_system;
pub mod reliable_udp;
pub mod socket_state;
pub mod virtual_connection;
pub use self::local_ack::LocalAckRecord;
pub use self::network_config::NetworkConfig;
pub use self::virtual_connection::VirtualConnection;
pub mod connection;
pub mod connection_controller;
pub mod managers;
pub use self::connection::{ActiveConnections, NetworkQuality, RttMeasurer};
pub use self::connection_controller::ConnectionController;
pub use self::managers::{ConnectionManagerError, ConnectionState, TargetHost};
