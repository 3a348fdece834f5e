use vstd::prelude::*;

use crate::config::Config;
use crate::error::ErrorKind;
use crate::net::connection::active_connections::fresh_connection;
use crate::net::events::SocketEvent;
use crate::net::reliability_system::{
    Received, bytes_view, fragmentation_defined, outgoing_contents, reaches_reassembly, received_view,
};
use crate::net::virtual_connection::{
    VirtualConnection, drop_due, events_view, packet_events, resent_then_heartbeat, sends_view,
};
use crate::packet::{GenericPacket, Packet, PacketType, SocketAddress};

verus! {

/// Controls all aspects of the connection:
/// * Processes incoming data (from a socket) or events (from a user).
/// * Updates connection state: resends dropped packets, sends heartbeat packet, etc.
/// * Creates new connections.
/// * Checks if connection should be dropped.
///
/// It doesn't own connections, but only the configuration to process them; the events for
/// the user and the packets to send are handed back to the caller, who delivers them.
#[derive(Debug)]
pub struct ConnectionController {
    config: Config,
}

impl ConnectionController {
    /// The configuration connections are processed with.
    pub closed spec fn spec_config(&self) -> Config {
        self.config
    }

    /// Creates a controller that processes connections under `config`.
    pub fn new(config: Config) -> (controller: ConnectionController)
        ensures
            controller.spec_config() == config,
    {
        ConnectionController { config }
    }

    /// Creates a new connection to `address` at `time`. When the remote host initiated it,
    /// with `initial_data`, the event for the user is a connect.
    pub fn create_connection(&self, address: SocketAddress, time: u64, initial_data: Option<&[u8]>) -> (created: (
        VirtualConnection,
        Option<SocketEvent>,
    ))
        ensures
            fresh_connection(created.0, address, self.spec_config(), time),
            created.1 == if initial_data.is_some() {
                Some(SocketEvent::Connect(address))
            } else {
                None
            },
    {
        // emit connect event if this is initiated by remote host.
        let event = if initial_data.is_some() {
            Some(SocketEvent::Connect(address))
        } else {
            None
        };
        (VirtualConnection::new(address, &self.config, time), event)
    }

    /// Determines if this connection should be dropped due to its state: too many packets
    /// await acknowledgement, or the other side has been silent for the idle timeout. When it
    /// should, the event for the user is a timeout.
    pub fn should_drop(&self, connection: &VirtualConnection, time: u64) -> (decision: (bool, Option<SocketEvent>))
        ensures
            decision.0 == drop_due(*connection, self.spec_config(), time),
            decision.1 == if decision.0 {
                Some(SocketEvent::Timeout(connection.spec_remote_address()))
            } else {
                None
            },
    {
        let should_drop = connection.packets_in_flight() > self.config.max_packets_in_flight
            || connection.last_heard(time) >= self.config.idle_connection_timeout;
        let event = if should_drop {
            Some(SocketEvent::Timeout(connection.remote_address()))
        } else {
            None
        };
        (should_drop, event)
    }

    /// Handles a datagram received from a socket: returns the events for the user, one per
    /// packet received, in order, or the error the datagram was refused with.
    pub fn handle_packet(&self, connection: &mut VirtualConnection, payload: &[u8], time: u64) -> (events: Result<
        Vec<SocketEvent>,
        ErrorKind,
    >)
        requires
            old(connection).wf(),
            reaches_reassembly(payload@) ==> old(connection).state().reassembly().len() > 0,
        ensures
            final(connection).wf(),
            final(connection).spec_remote_address() == old(connection).spec_remote_address(),
            final(connection).state().spec_last_heard() == time,
            final(connection).state().spec_last_sent() == old(connection).state().spec_last_sent(),
            final(connection).state().spec_config() == old(connection).state().spec_config(),
            final(connection).has_sent() == old(connection).has_sent(),
            final(connection).has_received() == old(connection).has_received(),
            match events {
                Ok(evs) => exists|received: Seq<Received>|
                    {
                        &&& #[trigger] old(connection).state().incoming_effect(
                            &final(connection).state(),
                            old(connection).spec_remote_address(),
                            payload@,
                            true,
                            Ok::<Seq<Received>, ErrorKind>(received),
                        )
                        &&& events_view(evs@) == packet_events(received)
                    },
                Err(e) => old(connection).state().incoming_effect(
                    &final(connection).state(),
                    old(connection).spec_remote_address(),
                    payload@,
                    true,
                    Err::<Seq<Received>, ErrorKind>(e),
                ),
            },
    {
        match connection.process_incoming(payload, time) {
            Ok(packets) => {
                let ghost received = packets.contents();
                let mut events: Vec<SocketEvent> = Vec::new();
                let mut it = packets.into_iter();
                loop
                    invariant
                        events_view(events@) + packet_events(
                            it.items().map_values(|e: (Packet, PacketType)| received_view(e)),
                        ) == packet_events(received),
                    ensures
                        events_view(events@) == packet_events(received),
                    decreases it.items().len(),
                {
                    let ghost done = events_view(events@);
                    let ghost rest = it.items();
                    match it.next() {
                        Some((packet, _)) => {
                            events.push(SocketEvent::Packet(packet));
                            proof {
                                assert(events_view(events@) =~= done.push(events@.last()@));
                                assert(packet_events(
                                    rest.map_values(|e: (Packet, PacketType)| received_view(e)),
                                ) =~= seq![events@.last()@] + packet_events(
                                    it.items().map_values(|e: (Packet, PacketType)| received_view(e)),
                                ));
                                assert(events_view(events@) + packet_events(
                                    it.items().map_values(|e: (Packet, PacketType)| received_view(e)),
                                ) =~= packet_events(received));
                            }
                        },
                        None => {
                            proof {
                                assert(events_view(events@) =~= packet_events(received));
                            }
                            break;
                        },
                    }
                }
                proof {
                    assert(old(connection).state().incoming_effect(
                        &connection.state(),
                        old(connection).spec_remote_address(),
                        payload@,
                        true,
                        Ok::<Seq<Received>, ErrorKind>(received),
                    ));
                }
                Ok(events)
            },
            Err(e) => Err(e),
        }
    }

    /// Handles a packet the user asked to send: returns the bytes of the packets to put on
    /// the wire, or the error.
    pub fn handle_event(&self, connection: &mut VirtualConnection, event: &Packet, time: u64) -> (sends: Result<
        Vec<Vec<u8>>,
        ErrorKind,
    >)
        requires
            old(connection).wf(),
            fragmentation_defined(
                old(connection).state().spec_config(),
                PacketType::Packet,
                event.payload@.len(),
                event.delivery,
            ),
        ensures
            final(connection).wf(),
            final(connection).spec_remote_address() == old(connection).spec_remote_address(),
            final(connection).has_sent() == old(connection).has_sent(),
            final(connection).has_received() == old(connection).has_received(),
            final(connection).state().spec_last_sent() == time,
            final(connection).state().spec_last_heard() == old(connection).state().spec_last_heard(),
            final(connection).state().spec_config() == old(connection).state().spec_config(),
            old(connection).state().outgoing_effect(
                &final(connection).state(),
                PacketType::Packet,
                event.payload@,
                event.delivery,
                event.ordering,
                None,
                bytes_view(sends),
            ),
    {
        let packets = connection.process_outgoing(
            GenericPacket::user_packet(event.payload(), event.delivery_guarantee(), event.order_guarantee()),
            None,
            time,
        );
        outgoing_contents(packets)
    }

    /// Processes the connection's recurring work: resends the packets declared lost, each
    /// with the arranging identifier it had, and sends a heartbeat when the configuration
    /// asks for them and nothing has been sent for the heartbeat interval. Returns, in order,
    /// the bytes of the packets of each send, or its error.
    pub fn update(&self, connection: &mut VirtualConnection, time: u64) -> (sends: Vec<Result<Vec<Vec<u8>>, ErrorKind>>)
        requires
            old(connection).wf(),
        ensures
            final(connection).wf(),
            resent_then_heartbeat(
                *old(connection),
                *final(connection),
                self.spec_config().heartbeat_interval,
                true,
                time,
                sends_view(sends@),
            ),
    {
        connection.resend_then_heartbeat(self.config.heartbeat_interval, true, time)
    }
}

} // verus!
