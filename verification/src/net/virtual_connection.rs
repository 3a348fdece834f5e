use vstd::prelude::*;

use crate::config::Config;
use crate::error::ErrorKind;
use crate::net::events::{SocketEvent, SocketEventView};
use crate::net::reliability_system::{
    IncomingPackets, OutgoingPackets, Received, ReliabilitySystem, bytes_view, elapsed,
    fragmentation_defined, incoming_view, outgoing_contents, outgoing_view, reaches_reassembly,
    received_view, resendable,
};
use crate::packet::{
    DeliveryGuarantee, GenericPacket, OrderingGuarantee, Packet, PacketType, SentPacket,
    SequenceNumber, SocketAddress,
};

verus! {

/// The events handing the received packets to the user, in order.
pub open spec fn packet_events(received: Seq<Received>) -> Seq<SocketEventView> {
    received.map_values(|r: Received| SocketEventView::Packet(r.0, r.1, r.2, r.3))
}

/// A list of events, each taken by its view.
pub open spec fn events_view(events: Seq<SocketEvent>) -> Seq<SocketEventView> {
    events.map_values(|e: SocketEvent| e@)
}

/// A list of send results, each taken by the bytes of its packets.
pub open spec fn sends_view(sends: Seq<Result<Vec<Vec<u8>>, ErrorKind>>) -> Seq<Result<Seq<Seq<u8>>, ErrorKind>> {
    sends.map_values(|r: Result<Vec<Vec<u8>>, ErrorKind>| bytes_view(r))
}

/// Whether a heartbeat is due: the connection is established, heartbeats are configured, and
/// nothing has been sent for the heartbeat interval.
pub open spec fn heartbeat_due(established: bool, interval: Option<u64>, last_sent: u64, time: u64) -> bool {
    established && match interval {
        Some(i) => elapsed(last_sent, time) >= i,
        None => false,
    }
}

/// Whether `states` leads from `start` through resending each of `dropped` in turn at
/// `time`, each step yielding the corresponding entry of `sends`.
pub open spec fn resends(
    start: ReliabilitySystem,
    states: Seq<ReliabilitySystem>,
    dropped: Seq<SentPacket>,
    sends: Seq<Result<Seq<Seq<u8>>, ErrorKind>>,
    time: u64,
) -> bool {
    &&& states.len() == dropped.len() + 1
    &&& sends.len() >= dropped.len()
    &&& states[0] == start
    &&& forall|i: int|
        0 <= i < dropped.len() ==> {
            &&& #[trigger] states[i].outgoing_effect(
                &states[i + 1],
                dropped[i].packet_type,
                dropped[i].payload@,
                DeliveryGuarantee::Reliable,
                dropped[i].ordering_guarantee,
                dropped[i].item_identifier,
                sends[i],
            )
            &&& states[i + 1].spec_last_sent() == time
            &&& states[i + 1].spec_last_heard() == states[i].spec_last_heard()
            &&& states[i + 1].spec_config() == states[i].spec_config()
            &&& states[i + 1].reassembly() == states[i].reassembly()
            &&& states[i + 1].reassembly_mark() == states[i].reassembly_mark()
        }
}

/// The outcome of processing a received datagram, its events each taken by its view.
pub open spec fn events_outcome(r: Result<Vec<SocketEvent>, ErrorKind>) -> Result<Seq<SocketEventView>, ErrorKind> {
    match r {
        Ok(evs) => Ok(events_view(evs@)),
        Err(e) => Err(e),
    }
}

/// Whether processing the received datagram `payload` at `time` takes the connection from
/// `before` to `after` with the outcome `events`: empty data is refused and changes nothing;
/// other data is read as the reliability system reads it, and a successful read yields a
/// connect event when it establishes the connection, then the packets received, in order.
pub open spec fn packet_processed(
    before: VirtualConnection,
    after: VirtualConnection,
    payload: Seq<u8>,
    time: u64,
    events: Result<Seq<SocketEventView>, ErrorKind>,
) -> bool {
    &&& after.spec_remote_address() == before.spec_remote_address()
    &&& after.state().spec_config() == before.state().spec_config()
    &&& payload.len() == 0 ==> events == Err::<Seq<SocketEventView>, ErrorKind>(ErrorKind::ReceivedDataToShort)
        && after == before
    &&& payload.len() > 0 ==> {
        &&& after.state().spec_last_heard() == time
        &&& after.state().spec_last_sent() == before.state().spec_last_sent()
        &&& after.has_sent() == before.has_sent()
        &&& match events {
            Ok(evs) => exists|received: Seq<Received>|
                {
                    &&& #[trigger] before.state().incoming_effect(
                        &after.state(),
                        before.spec_remote_address(),
                        payload,
                        true,
                        Ok::<Seq<Received>, ErrorKind>(received),
                    )
                    &&& after.has_received()
                    &&& evs == (if !before.spec_is_established() && after.spec_is_established() {
                        seq![SocketEventView::Connect(before.spec_remote_address())]
                    } else {
                        Seq::empty()
                    }) + packet_events(received)
                },
            Err(e) => {
                &&& before.state().incoming_effect(
                    &after.state(),
                    before.spec_remote_address(),
                    payload,
                    true,
                    Err::<Seq<Received>, ErrorKind>(e),
                )
                &&& after.has_received() == before.has_received()
            },
        }
    }
}

/// Whether sending the user's `packet` at `time` takes the connection from `before` to
/// `after`, with `connect` the connect event it raises, if any, and `sends` the bytes of the
/// packets it puts on the wire.
pub open spec fn event_processed(
    before: VirtualConnection,
    after: VirtualConnection,
    packet: Packet,
    time: u64,
    connect: Option<SocketEvent>,
    sends: Result<Seq<Seq<u8>>, ErrorKind>,
) -> bool {
    &&& after.spec_remote_address() == before.spec_remote_address()
    &&& after.has_sent()
    &&& after.has_received() == before.has_received()
    &&& connect == (if !before.spec_is_established() && after.spec_is_established() {
        Some(SocketEvent::Connect(before.spec_remote_address()))
    } else {
        None
    })
    &&& after.state().spec_last_sent() == time
    &&& after.state().spec_last_heard() == before.state().spec_last_heard()
    &&& after.state().spec_config() == before.state().spec_config()
    &&& after.state().reassembly() == before.state().reassembly()
    &&& after.state().reassembly_mark() == before.state().reassembly_mark()
    &&& before.state().outgoing_effect(
        &after.state(),
        PacketType::Packet,
        packet.payload@,
        packet.delivery,
        packet.ordering,
        None,
        sends,
    )
}

/// Whether resending the packets declared lost at `time`, then sending a heartbeat when one
/// is due under `heartbeat_interval` and `heartbeat_allowed`, takes the connection from
/// `before` to `after` with the sends `sends`.
pub open spec fn resent_then_heartbeat(
    before: VirtualConnection,
    after: VirtualConnection,
    heartbeat_interval: Option<u64>,
    heartbeat_allowed: bool,
    time: u64,
    sends: Seq<Result<Seq<Seq<u8>>, ErrorKind>>,
) -> bool {
    &&& after.spec_remote_address() == before.spec_remote_address()
    &&& after.has_sent() == before.has_sent()
    &&& after.has_received() == before.has_received()
    &&& after.state().spec_config() == before.state().spec_config()
    &&& exists|start: ReliabilitySystem, states: Seq<ReliabilitySystem>|
        {
            let dropped = before.state().acks().spec_dropped();
            let last = states[dropped.len() as int];
            &&& before.state().without_dropped(&start)
            &&& #[trigger] resends(start, states, before.state().acks().spec_dropped(), sends, time)
            &&& if heartbeat_due(heartbeat_allowed, heartbeat_interval, last.spec_last_sent(), time) {
                &&& sends.len() == dropped.len() + 1
                &&& last.outgoing_effect(
                    &after.state(),
                    PacketType::Heartbeat,
                    Seq::empty(),
                    DeliveryGuarantee::Unreliable,
                    OrderingGuarantee::Unordered,
                    None,
                    sends[dropped.len() as int],
                )
                &&& after.state().spec_last_sent() == time
                &&& after.state().spec_last_heard() == last.spec_last_heard()
                &&& after.state().spec_config() == last.spec_config()
                &&& after.state().reassembly() == last.reassembly()
                &&& after.state().reassembly_mark() == last.reassembly_mark()
            } else {
                &&& sends.len() == dropped.len()
                &&& after.state() == last
            }
        }
}

/// Whether the recurring work at `time` under `config` takes the connection from `before` to
/// `after` with the sends `sends`: the packets declared lost are resent in turn, then, on an
/// established connection, a heartbeat goes out when one is due.
pub open spec fn connection_updated(
    before: VirtualConnection,
    after: VirtualConnection,
    config: Config,
    time: u64,
    sends: Seq<Result<Seq<Seq<u8>>, ErrorKind>>,
) -> bool {
    resent_then_heartbeat(before, after, config.heartbeat_interval, before.spec_is_established(), time, sends)
}

/// Whether a connection is to be dropped at `time` under `config`: too many packets await
/// acknowledgement, or the other side has been silent for the idle timeout.
pub open spec fn drop_due(connection: VirtualConnection, config: Config, time: u64) -> bool {
    (connection.state().acks().spec_in_flight().dom().len() % 65536) as u16 > config.max_packets_in_flight
        || elapsed(connection.state().spec_last_heard(), time) >= config.idle_connection_timeout
}

/// Whether a connection is dropped depends on when the other side was last heard from, not
/// on when this side last sent: once the idle timeout has passed since the last receipt it
/// is dropped; from the last receipt until then, it is kept as long as no more packets are in
/// flight than allowed.
pub proof fn lemma_drop_follows_silence_of_the_other_side(connection: VirtualConnection, config: Config, time: u64)
    ensures
        time >= connection.state().spec_last_heard() + config.idle_connection_timeout ==> drop_due(
            connection,
            config,
            time,
        ),
        connection.state().spec_last_heard() <= time < connection.state().spec_last_heard()
            + config.idle_connection_timeout && connection.state().acks().spec_in_flight().dom().len() <= config.max_packets_in_flight
            ==> !drop_due(connection, config, time),
        connection.state().acks().spec_in_flight().dom().len() > config.max_packets_in_flight
            && connection.state().acks().spec_in_flight().dom().len() < 65536 ==> drop_due(
            connection,
            config,
            time,
        ),
{
}

/// The events for the user when a connection is dropped: a timeout and, for an established
/// connection, a disconnect.
pub open spec fn drop_events(connection: VirtualConnection) -> Seq<SocketEventView> {
    seq![SocketEventView::Timeout(connection.spec_remote_address())] + if connection.spec_is_established() {
        seq![SocketEventView::Disconnect(connection.spec_remote_address())]
    } else {
        Seq::empty()
    }
}

/// Contains the information about a certain 'virtual connection' over udp.
/// This connections also keeps track of network quality, processing packets, buffering data
/// related to connection etc.
///
/// Points in time are nanoseconds since an origin the caller chooses.
#[derive(Debug)]
pub struct VirtualConnection {
    /// The address of the remote endpoint
    remote_address: SocketAddress,
    /// When the other side was last heard from and last sent to, the acknowledgement and
    /// arranging state, and the packets being reassembled.
    system: ReliabilitySystem,
    /// Whether a packet has been sent on this connection.
    any_packet_sent: bool,
    /// Whether a packet has been received on this connection.
    any_packet_received: bool,
}

impl VirtualConnection {
    /// The address of the remote endpoint.
    pub closed spec fn spec_remote_address(&self) -> SocketAddress {
        self.remote_address
    }

    /// Returns the address of the remote endpoint.
    pub fn remote_address(&self) -> (addr: SocketAddress)
        ensures
            addr == self.spec_remote_address(),
    {
        self.remote_address
    }

    /// The reliability state of the connection.
    pub closed spec fn state(&self) -> ReliabilitySystem {
        self.system
    }

    /// Whether a packet has been sent on this connection.
    pub closed spec fn has_sent(&self) -> bool {
        self.any_packet_sent
    }

    /// Whether a packet has been received on this connection.
    pub closed spec fn has_received(&self) -> bool {
        self.any_packet_received
    }

    /// Whether the connection is established: a packet has been both sent and received.
    pub open spec fn spec_is_established(&self) -> bool {
        self.has_sent() && self.has_received()
    }

    /// Determine if this connection has been established: a packet has been both sent and
    /// received.
    pub fn is_established(&self) -> (established: bool)
        ensures
            established == self.spec_is_established(),
    {
        self.any_packet_received && self.any_packet_sent
    }

    /// Records that this connection has sent a packet. Returns whether the connection has
    /// become established because of this send.
    pub fn record_send(&mut self) -> (became_established: bool)
        ensures
            final(self).has_sent(),
            final(self).has_received() == old(self).has_received(),
            final(self).state() == old(self).state(),
            final(self).spec_remote_address() == old(self).spec_remote_address(),
            became_established == (!old(self).spec_is_established() && final(self).spec_is_established()),
    {
        let was_established = self.is_established();
        self.any_packet_sent = true;
        !was_established && self.is_established()
    }

    /// Records that this connection has received a packet. Returns whether the connection
    /// has become established because of this receipt.
    pub fn record_recv(&mut self) -> (became_established: bool)
        ensures
            final(self).has_received(),
            final(self).has_sent() == old(self).has_sent(),
            final(self).state() == old(self).state(),
            final(self).spec_remote_address() == old(self).spec_remote_address(),
            became_established == (!old(self).spec_is_established() && final(self).spec_is_established()),
    {
        let was_established = self.is_established();
        self.any_packet_received = true;
        !was_established && self.is_established()
    }

    /// The invariant of the connection.
    pub open spec fn wf(&self) -> bool {
        self.state().wf()
    }

    /// Creates and returns a new Connection that wraps the provided socket address
    pub fn new(addr: SocketAddress, config: &Config, time: u64) -> (connection: VirtualConnection)
        ensures
            connection.spec_remote_address() == addr,
            connection.state().is_fresh(*config, time),
            !connection.has_sent(),
            !connection.has_received(),
    {
        VirtualConnection {
            remote_address: addr,
            system: ReliabilitySystem::new(config, time),
            any_packet_sent: false,
            any_packet_received: false,
        }
    }

    /// Returns the number of reliable packets sent and not yet acknowledged, truncated to 16
    /// bits.
    pub fn packets_in_flight(&self) -> (n: u16)
        ensures
            n == (self.state().acks().spec_in_flight().dom().len() % 65536) as u16,
    {
        self.system.packets_in_flight()
    }

    /// Returns the number of nanoseconds since we last heard from the client; zero when
    /// `time` lies before it.
    pub fn last_heard(&self, time: u64) -> (since: u64)
        ensures
            since == elapsed(self.state().spec_last_heard(), time),
    {
        self.system.last_heard(time)
    }

    /// Returns the number of nanoseconds since we last sent to the client; zero when `time`
    /// lies before it.
    pub fn last_sent(&self, time: u64) -> (since: u64)
        ensures
            since == elapsed(self.state().spec_last_sent(), time),
    {
        self.system.last_sent(time)
    }

    /// This will pre-process the given buffer to be sent over the network; a resent ordered
    /// or sequenced packet keeps `last_item_identifier`.
    pub fn process_outgoing<'a>(
        &mut self,
        packet: GenericPacket<'a>,
        last_item_identifier: Option<SequenceNumber>,
        time: u64,
    ) -> (result: Result<OutgoingPackets<'a>, ErrorKind>)
        requires
            old(self).wf(),
            fragmentation_defined(
                old(self).state().spec_config(),
                packet.packet_type,
                packet.payload@.len(),
                packet.delivery,
            ),
        ensures
            final(self).wf(),
            final(self).spec_remote_address() == old(self).spec_remote_address(),
            final(self).state().spec_last_sent() == time,
            final(self).has_sent() == old(self).has_sent(),
            final(self).has_received() == old(self).has_received(),
            final(self).state().spec_last_heard() == old(self).state().spec_last_heard(),
            final(self).state().spec_config() == old(self).state().spec_config(),
            final(self).state().reassembly() == old(self).state().reassembly(),
            final(self).state().reassembly_mark() == old(self).state().reassembly_mark(),
            old(self).state().outgoing_effect(
                &final(self).state(),
                packet.packet_type,
                packet.payload@,
                packet.delivery,
                packet.ordering,
                last_item_identifier,
                outgoing_view(result),
            ),
    {
        self.system.send(packet, last_item_identifier, time)
    }

    /// This processes the incoming data and returns the packets that are complete. The
    /// acknowledgement header of a fragmented packet is processed once all its fragments are
    /// in.
    pub fn process_incoming(&mut self, received_data: &[u8], time: u64) -> (result: Result<
        IncomingPackets,
        ErrorKind,
    >)
        requires
            old(self).wf(),
            reaches_reassembly(received_data@) ==> old(self).state().reassembly().len() > 0,
        ensures
            final(self).wf(),
            final(self).spec_remote_address() == old(self).spec_remote_address(),
            final(self).state().spec_last_heard() == time,
            final(self).has_sent() == old(self).has_sent(),
            final(self).has_received() == old(self).has_received(),
            final(self).state().spec_last_sent() == old(self).state().spec_last_sent(),
            final(self).state().spec_config() == old(self).state().spec_config(),
            old(self).state().incoming_effect(
                &final(self).state(),
                old(self).spec_remote_address(),
                received_data@,
                true,
                incoming_view(result),
            ),
    {
        let addr = self.remote_address;
        self.system.receive(addr, received_data, time, true)
    }

    /// This will gather dropped packets from the acknowledgment handler.
    ///
    /// Note that after requesting dropped packets the dropped packets will be removed from this client.
    pub fn gather_dropped_packets(&mut self) -> (dropped: Vec<SentPacket>)
        requires
            old(self).wf(),
        ensures
            dropped@ == old(self).state().acks().spec_dropped(),
            forall|i: int|
                0 <= i < dropped@.len() ==> resendable(old(self).state().spec_config(), #[trigger] dropped@[i]),
            final(self).spec_remote_address() == old(self).spec_remote_address(),
            final(self).state().acks().spec_dropped() == Seq::<SentPacket>::empty(),
            final(self).has_sent() == old(self).has_sent(),
            final(self).has_received() == old(self).has_received(),
            final(self).state().acks().spec_local_sequence_num() == old(self).state().acks().spec_local_sequence_num(),
            final(self).state().acks().spec_their_acks() == old(self).state().acks().spec_their_acks(),
            final(self).state().acks().spec_in_flight() == old(self).state().acks().spec_in_flight(),
            final(self).wf(),
            final(self).state().spec_last_heard() == old(self).state().spec_last_heard(),
            final(self).state().spec_last_sent() == old(self).state().spec_last_sent(),
            final(self).state().spec_config() == old(self).state().spec_config(),
            final(self).state().ordering() == old(self).state().ordering(),
            final(self).state().sequencing() == old(self).state().sequencing(),
            final(self).state().reassembly() == old(self).state().reassembly(),
            final(self).state().reassembly_mark() == old(self).state().reassembly_mark(),
    {
        self.system.gather_dropped_packets()
    }

    /// Determines if the connection should be dropped due to its state: too many packets
    /// await acknowledgement, or the other side has been silent for too long. When it should,
    /// the events for the user are a timeout and, for an established connection, a
    /// disconnect.
    pub fn should_drop(&self, config: &Config, time: u64) -> (decision: (bool, Vec<SocketEvent>))
        ensures
            decision.0 == drop_due(*self, *config, time),
            events_view(decision.1@) == if decision.0 {
                drop_events(*self)
            } else {
                Seq::empty()
            },
    {
        let should_drop = self.packets_in_flight() > config.max_packets_in_flight || self.last_heard(time)
            >= config.idle_connection_timeout;
        let mut events: Vec<SocketEvent> = Vec::new();
        if should_drop {
            events.push(SocketEvent::Timeout(self.remote_address));
            if self.is_established() {
                events.push(SocketEvent::Disconnect(self.remote_address));
            }
        }
        proof {
            assert(events_view(events@) =~= if should_drop {
                seq![SocketEventView::Timeout(self.spec_remote_address())] + if self.spec_is_established() {
                    seq![SocketEventView::Disconnect(self.spec_remote_address())]
                } else {
                    Seq::empty()
                }
            } else {
                Seq::empty()
            });
        }
        (should_drop, events)
    }

    /// Processes a received packet: parses it and returns the events for the user: a connect
    /// when this receipt establishes the connection, then the received packets in order.
    /// Empty data is refused.
    pub fn process_packet(&mut self, payload: &[u8], time: u64) -> (events: Result<Vec<SocketEvent>, ErrorKind>)
        requires
            old(self).wf(),
            reaches_reassembly(payload@) ==> old(self).state().reassembly().len() > 0,
        ensures
            final(self).wf(),
            packet_processed(*old(self), *final(self), payload@, time, events_outcome(events)),
    {
        if payload.len() == 0 {
            return Err(ErrorKind::ReceivedDataToShort);
        }
        match self.process_incoming(payload, time) {
            Ok(packets) => {
                let ghost received = packets.contents();
                let ghost before = *self;
                let mut events: Vec<SocketEvent> = Vec::new();
                if self.record_recv() {
                    events.push(SocketEvent::Connect(self.remote_address));
                }
                let ghost head = events_view(events@);
                proof {
                    assert(head =~= if !before.spec_is_established() && self.spec_is_established() {
                        seq![SocketEventView::Connect(before.spec_remote_address())]
                    } else {
                        Seq::empty()
                    });
                }
                let mut it = packets.into_iter();
                loop
                    invariant
                        events_view(events@) + packet_events(
                            it.items().map_values(|e: (Packet, PacketType)| received_view(e)),
                        ) == head + packet_events(received),
                    ensures
                        events_view(events@) == head + packet_events(received),
                    decreases it.items().len(),
                {
                    let ghost done = events_view(events@);
                    let ghost rest = it.items();
                    match it.next() {
                        Some((packet, _)) => {
                            let ghost entry = rest[0];
                            events.push(SocketEvent::Packet(packet));
                            proof {
                                assert(events_view(events@) =~= done.push(events@.last()@));
                                assert(packet_events(rest.map_values(|e: (Packet, PacketType)| received_view(e)))
                                    =~= seq![events@.last()@] + packet_events(
                                    it.items().map_values(|e: (Packet, PacketType)| received_view(e)),
                                ));
                                assert(events_view(events@) + packet_events(
                                    it.items().map_values(|e: (Packet, PacketType)| received_view(e)),
                                ) =~= head + packet_events(received));
                            }
                        },
                        None => {
                            proof {
                                assert(events_view(events@) =~= head + packet_events(received));
                            }
                            break;
                        },
                    }
                }
                proof {
                    assert(old(self).state().incoming_effect(
                        &self.state(),
                        old(self).spec_remote_address(),
                        payload@,
                        true,
                        Ok::<Seq<Received>, ErrorKind>(received),
                    ));
                    assert(events_outcome(Ok::<Vec<SocketEvent>, ErrorKind>(events)) == Ok::<
                        Seq<SocketEventView>,
                        ErrorKind,
                    >(events_view(events@)));
                }
                Ok(events)
            },
            Err(e) => Err(e),
        }
    }

    /// Processes a packet the user asked to send: returns the connect event when this send
    /// establishes the connection, and the packets to put on the wire.
    pub fn process_event<'a>(&mut self, event: &'a Packet, time: u64) -> (outcome: (
        Option<SocketEvent>,
        Result<OutgoingPackets<'a>, ErrorKind>,
    ))
        requires
            old(self).wf(),
            fragmentation_defined(
                old(self).state().spec_config(),
                PacketType::Packet,
                event.payload@.len(),
                event.delivery,
            ),
        ensures
            final(self).wf(),
            event_processed(*old(self), *final(self), *event, time, outcome.0, outgoing_view(outcome.1)),
    {
        let addr = self.remote_address;
        let connect = if self.record_send() {
            Some(SocketEvent::Connect(addr))
        } else {
            None
        };
        let packets = self.process_outgoing(
            GenericPacket::user_packet(event.payload(), event.delivery_guarantee(), event.order_guarantee()),
            None,
            time,
        );
        (connect, packets)
    }

    /// Processes the connection's recurring work: resends the packets declared lost, each
    /// with the arranging identifier it had, and, on an established connection that has sent
    /// nothing for the configured heartbeat interval, sends a heartbeat. Returns, in order,
    /// the bytes of the packets of each send, or its error.
    pub fn update(&mut self, config: &Config, time: u64) -> (sends: Vec<Result<Vec<Vec<u8>>, ErrorKind>>)
        requires
            old(self).wf(),
        ensures
            final(self).wf(),
            connection_updated(*old(self), *final(self), *config, time, sends_view(sends@)),
    {
        let established = self.is_established();
        self.resend_then_heartbeat(config.heartbeat_interval, established, time)
    }

    /// Resends the packets declared lost, each with the arranging identifier it had, then,
    /// when `heartbeat_allowed` and nothing has been sent for `heartbeat_interval`, sends a
    /// heartbeat. Returns, in order, the bytes of the packets of each send, or its error.
    pub fn resend_then_heartbeat(&mut self, heartbeat_interval: Option<u64>, heartbeat_allowed: bool, time: u64) -> (sends:
        Vec<Result<Vec<Vec<u8>>, ErrorKind>>)
        requires
            old(self).wf(),
        ensures
            final(self).wf(),
            resent_then_heartbeat(
                *old(self),
                *final(self),
                heartbeat_interval,
                heartbeat_allowed,
                time,
                sends_view(sends@),
            ),
    {
        let ghost initial = self.system;
        let dropped = self.system.gather_dropped_packets();
        let ghost start = self.system;
        let ghost mut states: Seq<ReliabilitySystem> = seq![self.system];
        let mut sends: Vec<Result<Vec<Vec<u8>>, ErrorKind>> = Vec::new();
        let mut i: usize = 0;
        while i < dropped.len()
            invariant
                i <= dropped@.len(),
                dropped@ == initial.acks().spec_dropped(),
                forall|j: int| 0 <= j < dropped@.len() ==> resendable(initial.spec_config(), #[trigger] dropped@[j]),
                self.system.wf(),
                self.system.spec_config() == initial.spec_config(),
                self.remote_address == old(self).remote_address,
                self.any_packet_sent == old(self).any_packet_sent,
                self.any_packet_received == old(self).any_packet_received,
                states.len() == i + 1,
                states[i as int] == self.system,
                sends@.len() == i,
                resends(start, states, dropped@.take(i as int), sends_view(sends@), time),
            decreases dropped@.len() - i,
        {
            let packet = &dropped[i];
            let ghost before = self.system;
            let ghost states_before = states;
            let ghost sends_before = sends_view(sends@);
            let outgoing = self.system.send(
                GenericPacket {
                    packet_type: packet.packet_type,
                    payload: packet.payload.as_slice(),
                    // because a delivery guarantee is only sent with reliable packets
                    delivery: DeliveryGuarantee::Reliable,
                    // this is stored with the dropped packet because they could be mixed
                    ordering: packet.ordering_guarantee,
                },
                packet.item_identifier,
                time,
            );
            let contents = outgoing_contents(outgoing);
            sends.push(contents);
            proof {
                states = states.push(self.system);
                assert(sends_view(sends@) =~= sends_before.push(bytes_view(contents)));
                let taken = dropped@.take(i + 1);
                assert(taken =~= dropped@.take(i as int).push(dropped@[i as int]));
                assert forall|j: int| 0 <= j < taken.len() implies {
                    &&& #[trigger] states[j].outgoing_effect(
                        &states[j + 1],
                        taken[j].packet_type,
                        taken[j].payload@,
                        DeliveryGuarantee::Reliable,
                        taken[j].ordering_guarantee,
                        taken[j].item_identifier,
                        sends_view(sends@)[j],
                    )
                    &&& states[j + 1].spec_last_sent() == time
                    &&& states[j + 1].spec_last_heard() == states[j].spec_last_heard()
                    &&& states[j + 1].spec_config() == states[j].spec_config()
                    &&& states[j + 1].reassembly() == states[j].reassembly()
                    &&& states[j + 1].reassembly_mark() == states[j].reassembly_mark()
                } by {
                    if j < i {
                        assert(states[j] == states_before[j]);
                        assert(states[j + 1] == states_before[j + 1]);
                        assert(sends_view(sends@)[j] == sends_before[j]);
                        assert(taken[j] == dropped@.take(i as int)[j]);
                    }
                }
            }
            i = i + 1;
        }
        proof {
            assert(dropped@.take(dropped@.len() as int) =~= dropped@);
        }
        let ghost last = self.system;
        if heartbeat_allowed {
            if let Some(heartbeat_interval) = heartbeat_interval {
                if self.last_sent(time) >= heartbeat_interval {
                    let heartbeat = self.system.send(GenericPacket::heartbeat_packet(&[]), None, time);
                    let contents = outgoing_contents(heartbeat);
                    let ghost sends_before = sends_view(sends@);
                    sends.push(contents);
                    proof {
                        assert(sends_view(sends@) =~= sends_before.push(bytes_view(contents)));
                        assert(resends(start, states, dropped@, sends_view(sends@), time)) by {
                            assert forall|j: int| 0 <= j < dropped@.len() implies sends_view(sends@)[j]
                                == sends_before[j] by {}
                        }
                    }
                }
            }
        }
        sends
    }
}

} // verus!
