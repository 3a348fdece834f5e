use vstd::prelude::*;

use super::enums::{DeliveryGuarantee, OrderingGuarantee, PacketType};

verus! {

/// An IP address, as the number its octets spell.
#[derive(Copy, Clone, Debug, PartialEq, Eq, Hash, Structural)]
pub enum IpAddress {
    /// An IPv4 address.
    V4(u32),
    /// An IPv6 address with its flow information and scope.
    V6 { ip: u128, flowinfo: u32, scope_id: u32 },
}

/// The address of a remote endpoint: an IP address and a port.
#[derive(Copy, Clone, Debug, PartialEq, Eq, Hash, Structural)]
pub struct SocketAddress {
    /// The IP address.
    pub ip: IpAddress,
    /// The port.
    pub port: u16,
}

/// A user packet: its remote address, payload and guarantees.
#[derive(Clone, PartialEq, Eq, Debug)]
pub struct Packet {
    /// The endpoint from where it came or where it goes.
    pub addr: SocketAddress,
    /// The raw payload of the packet.
    pub payload: Vec<u8>,
    /// Defines on how the packet will be delivered.
    pub delivery: DeliveryGuarantee,
    /// Defines on how the packet will be ordered.
    pub ordering: OrderingGuarantee,
}

impl Packet {
    /// Creates a packet from its parts.
    pub fn new(
        addr: SocketAddress,
        payload: Vec<u8>,
        delivery: DeliveryGuarantee,
        ordering: OrderingGuarantee,
    ) -> (packet: Packet)
        ensures
            packet.addr == addr,
            packet.payload@ == payload@,
            packet.delivery == delivery,
            packet.ordering == ordering,
    {
        Packet { addr, payload, delivery, ordering }
    }

    /// Creates an unreliable, unordered packet.
    pub fn unreliable(addr: SocketAddress, payload: Vec<u8>) -> (packet: Packet)
        ensures
            packet.addr == addr,
            packet.payload@ == payload@,
            packet.delivery == DeliveryGuarantee::Unreliable,
            packet.ordering == OrderingGuarantee::Unordered,
    {
        Packet::new(addr, payload, DeliveryGuarantee::Unreliable, OrderingGuarantee::Unordered)
    }

    /// Creates an unreliable packet that is sequenced on `stream_id`.
    pub fn unreliable_sequenced(addr: SocketAddress, payload: Vec<u8>, stream_id: Option<u8>) -> (packet:
        Packet)
        ensures
            packet.addr == addr,
            packet.payload@ == payload@,
            packet.delivery == DeliveryGuarantee::Unreliable,
            packet.ordering == OrderingGuarantee::Sequenced(stream_id),
    {
        Packet::new(
            addr,
            payload,
            DeliveryGuarantee::Unreliable,
            OrderingGuarantee::Sequenced(stream_id),
        )
    }

    /// Creates a reliable, unordered packet.
    pub fn reliable_unordered(addr: SocketAddress, payload: Vec<u8>) -> (packet: Packet)
        ensures
            packet.addr == addr,
            packet.payload@ == payload@,
            packet.delivery == DeliveryGuarantee::Reliable,
            packet.ordering == OrderingGuarantee::Unordered,
    {
        Packet::new(addr, payload, DeliveryGuarantee::Reliable, OrderingGuarantee::Unordered)
    }

    /// Creates a reliable packet that is ordered on `stream_id`.
    pub fn reliable_ordered(addr: SocketAddress, payload: Vec<u8>, stream_id: Option<u8>) -> (packet:
        Packet)
        ensures
            packet.addr == addr,
            packet.payload@ == payload@,
            packet.delivery == DeliveryGuarantee::Reliable,
            packet.ordering == OrderingGuarantee::Ordered(stream_id),
    {
        Packet::new(addr, payload, DeliveryGuarantee::Reliable, OrderingGuarantee::Ordered(stream_id))
    }

    /// Creates a reliable packet that is sequenced on `stream_id`.
    pub fn reliable_sequenced(addr: SocketAddress, payload: Vec<u8>, stream_id: Option<u8>) -> (packet:
        Packet)
        ensures
            packet.addr == addr,
            packet.payload@ == payload@,
            packet.delivery == DeliveryGuarantee::Reliable,
            packet.ordering == OrderingGuarantee::Sequenced(stream_id),
    {
        Packet::new(
            addr,
            payload,
            DeliveryGuarantee::Reliable,
            OrderingGuarantee::Sequenced(stream_id),
        )
    }

    /// Returns the payload of this packet.
    pub fn payload(&self) -> (payload: &[u8])
        ensures
            payload@ == self.payload@,
    {
        self.payload.as_slice()
    }

    /// Returns the address of this packet.
    pub fn addr(&self) -> (addr: SocketAddress)
        ensures
            addr == self.addr,
    {
        self.addr
    }

    /// Returns the delivery guarantee of this packet.
    pub fn delivery_guarantee(&self) -> (d: DeliveryGuarantee)
        ensures
            d == self.delivery,
    {
        self.delivery
    }

    /// Returns the ordering guarantee of this packet.
    pub fn order_guarantee(&self) -> (o: OrderingGuarantee)
        ensures
            o == self.ordering,
    {
        self.ordering
    }
}

/// A packet as handed to the reliability layer: type, payload and guarantees.
pub struct GenericPacket<'a> {
    /// The type of the packet.
    pub packet_type: PacketType,
    /// The payload of the packet.
    pub payload: &'a [u8],
    /// Defines on how the packet will be delivered.
    pub delivery: DeliveryGuarantee,
    /// Defines on how the packet will be ordered.
    pub ordering: OrderingGuarantee,
}

impl<'a> GenericPacket<'a> {
    /// A user packet with the given payload and guarantees.
    pub fn user_packet(
        payload: &'a [u8],
        delivery: DeliveryGuarantee,
        ordering: OrderingGuarantee,
    ) -> (packet: GenericPacket<'a>)
        ensures
            packet.packet_type == PacketType::Packet,
            packet.payload@ == payload@,
            packet.delivery == delivery,
            packet.ordering == ordering,
    {
        GenericPacket { packet_type: PacketType::Packet, payload, delivery, ordering }
    }

    /// A heartbeat packet: unreliable, unordered, with the given payload.
    pub fn heartbeat_packet(payload: &'a [u8]) -> (packet: GenericPacket<'a>)
        ensures
            packet.packet_type == PacketType::Heartbeat,
            packet.payload@ == payload@,
            packet.delivery == DeliveryGuarantee::Unreliable,
            packet.ordering == OrderingGuarantee::Unordered,
    {
        GenericPacket {
            packet_type: PacketType::Heartbeat,
            payload,
            delivery: DeliveryGuarantee::Unreliable,
            ordering: OrderingGuarantee::Unordered,
        }
    }
}

/// A reliable packet that was sent and still awaits its acknowledgement.
#[derive(Clone, Debug, PartialEq, Eq)]
pub struct SentPacket {
    /// The type of the packet.
    pub packet_type: PacketType,
    /// The payload of the packet.
    pub payload: Vec<u8>,
    /// The ordering guarantee it was sent with.
    pub ordering_guarantee: OrderingGuarantee,
    /// The place it took in its arranging stream, if any.
    pub item_identifier: Option<u16>,
}

} // verus!
