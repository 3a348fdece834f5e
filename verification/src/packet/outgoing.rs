use vstd::prelude::*;

use super::enums::{DeliveryGuarantee, OrderingGuarantee, PacketType};
use super::header::{
    AckedPacketHeader, ArrangingHeader, FragmentHeader, StandardHeader, acked_header_bytes,
    arranging_header_bytes, fragment_header_bytes, standard_header_bytes,
};
use crate::net::constants::{DEFAULT_ORDERING_STREAM, DEFAULT_SEQUENCING_STREAM};
use crate::protocol_version::protocol_crc16;

verus! {

/// A packet ready to go on the wire: its headers, then a payload it borrows.
pub struct OutgoingPacket<'p> {
    header: Vec<u8>,
    payload: &'p [u8],
}

impl<'p> OutgoingPacket<'p> {
    /// The bytes of the headers.
    pub closed spec fn header_bytes(&self) -> Seq<u8> {
        self.header@
    }

    /// The bytes of the payload.
    pub closed spec fn payload_bytes(&self) -> Seq<u8> {
        self.payload@
    }

    /// The bytes this packet is sent as: headers, then payload.
    pub open spec fn bytes(&self) -> Seq<u8> {
        self.header_bytes() + self.payload_bytes()
    }

    /// Returns the contents of the packet: headers followed by the payload.
    pub fn contents(&self) -> (contents: Vec<u8>)
        ensures
            contents@ == self.bytes(),
    {
        let mut contents = vstd::slice::slice_to_vec(self.header.as_slice());
        let mut payload = vstd::slice::slice_to_vec(self.payload);
        contents.append(&mut payload);
        contents
    }
}

/// Builds an outgoing packet header by header.
pub struct OutgoingPacketBuilder<'p> {
    header: Vec<u8>,
    payload: &'p [u8],
}

/// The stream an arranging header names when the packet names none.
pub open spec fn stream_or(stream_id: Option<u8>, default: u8) -> u8 {
    match stream_id {
        Some(id) => id,
        None => default,
    }
}

impl<'p> OutgoingPacketBuilder<'p> {
    /// The bytes of the headers added so far.
    pub closed spec fn header_bytes(&self) -> Seq<u8> {
        self.header@
    }

    /// The payload the packet will carry.
    pub closed spec fn payload_bytes(&self) -> Seq<u8> {
        self.payload@
    }

    /// Starts a packet with the given payload and no header.
    pub fn new(payload: &'p [u8]) -> (builder: OutgoingPacketBuilder<'p>)
        ensures
            builder.header_bytes() == Seq::<u8>::empty(),
            builder.payload_bytes() == payload@,
    {
        OutgoingPacketBuilder { header: Vec::new(), payload }
    }

    /// Adds the standard header.
    pub fn with_default_header(
        self,
        packet_type: PacketType,
        delivery_guarantee: DeliveryGuarantee,
        ordering_guarantee: OrderingGuarantee,
    ) -> (builder: OutgoingPacketBuilder<'p>)
        ensures
            builder.header_bytes() == self.header_bytes() + standard_header_bytes(
                protocol_crc16(),
                packet_type,
                delivery_guarantee,
                ordering_guarantee,
            ),
            builder.payload_bytes() == self.payload_bytes(),
    {
        let header = StandardHeader::new(delivery_guarantee, ordering_guarantee, packet_type);
        let mut bytes = self.header;
        header.write(&mut bytes);
        OutgoingPacketBuilder { header: bytes, payload: self.payload }
    }

    /// Adds the acknowledgement header.
    pub fn with_acknowledgment_header(self, seq_num: u16, last_seq: u16, bit_field: u32) -> (builder:
        OutgoingPacketBuilder<'p>)
        ensures
            builder.header_bytes() == self.header_bytes() + acked_header_bytes(
                seq_num,
                last_seq,
                bit_field,
            ),
            builder.payload_bytes() == self.payload_bytes(),
    {
        let header = AckedPacketHeader::new(seq_num, last_seq, bit_field);
        let mut bytes = self.header;
        header.write(&mut bytes);
        OutgoingPacketBuilder { header: bytes, payload: self.payload }
    }

    /// Adds the fragment header.
    pub fn with_fragment_header(self, packet_seq: u16, id: u8, num_fragments: u8) -> (builder:
        OutgoingPacketBuilder<'p>)
        ensures
            builder.header_bytes() == self.header_bytes() + fragment_header_bytes(
                packet_seq,
                id,
                num_fragments,
            ),
            builder.payload_bytes() == self.payload_bytes(),
    {
        let header = FragmentHeader::new(packet_seq, id, num_fragments);
        let mut bytes = self.header;
        header.write(&mut bytes);
        OutgoingPacketBuilder { header: bytes, payload: self.payload }
    }

    /// Adds the arranging header of an ordered packet.
    pub fn with_ordering_header(self, order_id: u16, stream_id: Option<u8>) -> (builder:
        OutgoingPacketBuilder<'p>)
        ensures
            builder.header_bytes() == self.header_bytes() + arranging_header_bytes(
                order_id,
                stream_or(stream_id, DEFAULT_ORDERING_STREAM),
            ),
            builder.payload_bytes() == self.payload_bytes(),
    {
        let stream = match stream_id {
            Some(id) => id,
            None => DEFAULT_ORDERING_STREAM,
        };
        let header = ArrangingHeader::new(order_id, stream);
        let mut bytes = self.header;
        header.write(&mut bytes);
        OutgoingPacketBuilder { header: bytes, payload: self.payload }
    }

    /// Adds the arranging header of a sequenced packet.
    pub fn with_sequencing_header(self, sequence_id: u16, stream_id: Option<u8>) -> (builder:
        OutgoingPacketBuilder<'p>)
        ensures
            builder.header_bytes() == self.header_bytes() + arranging_header_bytes(
                sequence_id,
                stream_or(stream_id, DEFAULT_SEQUENCING_STREAM),
            ),
            builder.payload_bytes() == self.payload_bytes(),
    {
        let stream = match stream_id {
            Some(id) => id,
            None => DEFAULT_SEQUENCING_STREAM,
        };
        let header = ArrangingHeader::new(sequence_id, stream);
        let mut bytes = self.header;
        header.write(&mut bytes);
        OutgoingPacketBuilder { header: bytes, payload: self.payload }
    }

    /// Finishes the packet.
    pub fn build(self) -> (packet: OutgoingPacket<'p>)
        ensures
            packet.header_bytes() == self.header_bytes(),
            packet.payload_bytes() == self.payload_bytes(),
    {
        OutgoingPacket { header: self.header, payload: self.payload }
    }
}

} // verus!
