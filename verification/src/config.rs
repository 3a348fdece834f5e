use vstd::prelude::*;

use crate::net::constants::{DEFAULT_MTU, FRAGMENT_SIZE_DEFAULT, MAX_FRAGMENTS_DEFAULT};

verus! {

/// Configuration of a connection's reliability layer.
///
/// Points in time and durations are counted in nanoseconds.
#[derive(Clone, Debug, PartialEq, Eq, Structural)]
pub struct Config {
    /// Make the underlying UDP socket block when true, otherwise non-blocking.
    pub blocking_mode: bool,
    /// Nanoseconds after which a silent connection is considered idle and dropped.
    pub idle_connection_timeout: u64,
    /// Nanoseconds of silence after which a heartbeat packet is sent, if set.
    pub heartbeat_interval: Option<u64>,
    /// The maximal size a packet can get with all its fragments.
    pub max_packet_size: usize,
    /// The maximal number of fragments a packet can be divided into.
    pub max_fragments: u8,
    /// The size of a fragment; larger reliable payloads are split into fragments.
    pub fragment_size: u16,
    /// The number of packets that can be awaiting reassembly of their fragments at once.
    pub fragment_reassembly_buffer_size: u16,
    /// The size of the buffer the UDP socket reads into; also the largest unreliable payload.
    pub receive_buffer_max_size: usize,
    /// The maximal round trip time, in milliseconds, considered acceptable.
    pub rtt_max_value: u16,
    /// The capacity of the channel that carries socket events.
    pub socket_event_buffer_size: usize,
    /// The number of unacknowledged packets after which a connection is dropped.
    pub max_packets_in_flight: u16,
}

impl Config {
    /// The default configuration.
    pub open spec fn spec_default() -> Config {
        Config {
            blocking_mode: false,
            idle_connection_timeout: 5_000_000_000,
            heartbeat_interval: None,
            max_packet_size: (MAX_FRAGMENTS_DEFAULT * FRAGMENT_SIZE_DEFAULT) as usize,
            max_fragments: MAX_FRAGMENTS_DEFAULT as u8,
            fragment_size: FRAGMENT_SIZE_DEFAULT,
            fragment_reassembly_buffer_size: 64,
            receive_buffer_max_size: DEFAULT_MTU as usize,
            rtt_max_value: 250,
            socket_event_buffer_size: 1024,
            max_packets_in_flight: 512,
        }
    }
}

impl Config {
    /// A copy of this configuration.
    pub fn clone_config(&self) -> (copy: Config)
        ensures
            copy == *self,
    {
        Config {
            blocking_mode: self.blocking_mode,
            idle_connection_timeout: self.idle_connection_timeout,
            heartbeat_interval: self.heartbeat_interval,
            max_packet_size: self.max_packet_size,
            max_fragments: self.max_fragments,
            fragment_size: self.fragment_size,
            fragment_reassembly_buffer_size: self.fragment_reassembly_buffer_size,
            receive_buffer_max_size: self.receive_buffer_max_size,
            rtt_max_value: self.rtt_max_value,
            socket_event_buffer_size: self.socket_event_buffer_size,
            max_packets_in_flight: self.max_packets_in_flight,
        }
    }
}

impl Default for Config {
    fn default() -> (config: Config)
        ensures
            config == Config::spec_default(),
    {
        Config {
            blocking_mode: false,
            idle_connection_timeout: 5_000_000_000,
            heartbeat_interval: None,
            max_packet_size: (MAX_FRAGMENTS_DEFAULT * FRAGMENT_SIZE_DEFAULT) as usize,
            max_fragments: MAX_FRAGMENTS_DEFAULT as u8,
            fragment_size: FRAGMENT_SIZE_DEFAULT,
            fragment_reassembly_buffer_size: 64,
            receive_buffer_max_size: DEFAULT_MTU as usize,
            rtt_max_value: 250,
            socket_event_buffer_size: 1024,
            max_packets_in_flight: 512,
        }
    }
}

} // verus!
