//! This module provides all the logic around the packet, such as reading, parsing, and constructing headers.
pub mod enums;
pub mod header;
pub mod outgoing;
pub mod packet_structure;
pub mod reader;

pub use self::enums::{DeliveryGuarantee, EnumConverter, OrderingGuarantee, PacketType};
pub use self::outgoing::{OutgoingPacket, OutgoingPacketBuilder};
pub use self::packet_structure::{GenericPacket, IpAddress, Packet, SentPacket, SocketAddress};
pub use self::reader::PacketReader;

use vstd::prelude::*;

verus! {

/// The sequence number of a packet.
pub type SequenceNumber = u16;

/// A packet to be sent, with the header information it is sent with.
pub type PacketInfo<'a> = GenericPacket<'a>;

} // verus!
