use vstd::prelude::*;

use crate::packet::{DeliveryGuarantee, OrderingGuarantee, Packet, SocketAddress};

verus! {

/// Events that can occur in `laminar` and that are handed to the user.
#[derive(Debug, PartialEq)]
pub enum SocketEvent {
    /// A packet was received from a client.
    Packet(Packet),
    /// A new connection has been established with a client. A connection is considered
    /// established whenever a packet has been both _sent_ and _received_ from the client.
    ///
    /// On the server—in order to receive a `Connect` event—you must respond to the first
    /// Packet from a new client.
    ///
    /// Clients are uniquely identified by the `ip:port` combination at this layer.
    Connect(SocketAddress),
    /// The client has been idling for longer than the `idle_connection_timeout` time.
    /// You can control the timeout in the config.
    Timeout(SocketAddress),
    /// The established connection to a client has timed out.
    Disconnect(SocketAddress),
}

/// The abstract value of an event: a packet is taken with its payload's view.
pub enum SocketEventView {
    Packet(SocketAddress, Seq<u8>, DeliveryGuarantee, OrderingGuarantee),
    Connect(SocketAddress),
    Timeout(SocketAddress),
    Disconnect(SocketAddress),
}

impl View for SocketEvent {
    type V = SocketEventView;

    open spec fn view(&self) -> SocketEventView {
        match self {
            SocketEvent::Packet(p) => SocketEventView::Packet(p.addr, p.payload@, p.delivery, p.ordering),
            SocketEvent::Connect(addr) => SocketEventView::Connect(*addr),
            SocketEvent::Timeout(addr) => SocketEventView::Timeout(*addr),
            SocketEvent::Disconnect(addr) => SocketEventView::Disconnect(*addr),
        }
    }
}

impl SocketEvent {
    /// The address of the remote endpoint the event concerns.
    pub open spec fn spec_address(&self) -> SocketAddress {
        match self {
            SocketEvent::Packet(packet) => packet.addr,
            SocketEvent::Connect(addr) => *addr,
            SocketEvent::Timeout(addr) => *addr,
            SocketEvent::Disconnect(addr) => *addr,
        }
    }

    /// Returns the address of the remote endpoint the event concerns.
    pub fn address(&self) -> (addr: SocketAddress)
        ensures
            addr == self.spec_address(),
    {
        match self {
            SocketEvent::Packet(packet) => packet.addr(),
            SocketEvent::Connect(addr) => *addr,
            SocketEvent::Timeout(addr) => *addr,
            SocketEvent::Disconnect(addr) => *addr,
        }
    }
}

} // verus!
