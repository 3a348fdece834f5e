use vstd::prelude::*;

use super::enums::{DeliveryGuarantee, EnumConverter, OrderingGuarantee, PacketType};
use crate::error::{DecodingErrorKind, ErrorKind};
use crate::protocol_version::{protocol_crc16, ProtocolVersion};

verus! {

/// The two bytes of `v`, most significant first.
pub open spec fn u16_bytes(v: u16) -> Seq<u8> {
    seq![(v / 256) as u8, (v % 256) as u8]
}

/// The four bytes of `v`, most significant first.
pub open spec fn u32_bytes(v: u32) -> Seq<u8> {
    seq![(v / 16777216) as u8, ((v / 65536) % 256) as u8, ((v / 256) % 256) as u8, (v % 256) as u8]
}

/// The number whose bytes, most significant first, are `data[at]` and `data[at + 1]`.
pub open spec fn read_u16(data: Seq<u8>, at: int) -> u16 {
    (data[at] * 256 + data[at + 1]) as u16
}

/// The number whose bytes, most significant first, are `data[at..at + 4]`.
pub open spec fn read_u32(data: Seq<u8>, at: int) -> u32 {
    (data[at] * 16777216 + data[at + 1] * 65536 + data[at + 2] * 256 + data[at + 3]) as u32
}

/// Appends the bytes of `v`, most significant first.
fn push_u16(buffer: &mut Vec<u8>, v: u16)
    ensures
        final(buffer)@ == old(buffer)@ + u16_bytes(v),
{
    buffer.push((v / 256) as u8);
    buffer.push((v % 256) as u8);
    proof {
        assert(final(buffer)@ =~= old(buffer)@ + u16_bytes(v));
    }
}

/// Appends the bytes of `v`, most significant first.
fn push_u32(buffer: &mut Vec<u8>, v: u32)
    ensures
        final(buffer)@ == old(buffer)@ + u32_bytes(v),
{
    buffer.push((v / 16777216) as u8);
    buffer.push(((v / 65536) % 256) as u8);
    buffer.push(((v / 256) % 256) as u8);
    buffer.push((v % 256) as u8);
    proof {
        assert(final(buffer)@ =~= old(buffer)@ + u32_bytes(v));
    }
}

proof fn lemma_u16_round_trip(v: u16, data: Seq<u8>, at: int)
    requires
        0 <= at,
        at + 2 <= data.len(),
        data.subrange(at, at + 2) == u16_bytes(v),
    ensures
        read_u16(data, at) == v,
{
    assert(data[at] == u16_bytes(v)[0]);
    assert(data[at + 1] == u16_bytes(v)[1]);
}

proof fn lemma_u32_round_trip(v: u32, data: Seq<u8>, at: int)
    requires
        0 <= at,
        at + 4 <= data.len(),
        data.subrange(at, at + 4) == u32_bytes(v),
    ensures
        read_u32(data, at) == v,
{
    assert(data[at] == u32_bytes(v)[0]);
    assert(data[at + 1] == u32_bytes(v)[1]);
    assert(data[at + 2] == u32_bytes(v)[2]);
    assert(data[at + 3] == u32_bytes(v)[3]);
}

/// Reads the number whose bytes, most significant first, are `data[at]` and `data[at + 1]`.
fn get_u16(data: &[u8], at: usize) -> (v: u16)
    requires
        at + 2 <= data@.len(),
    ensures
        v == read_u16(data@, at as int),
{
    let hi = data[at] as u16;
    let lo = data[at + 1] as u16;
    hi * 256 + lo
}

/// Reads the number whose bytes, most significant first, are `data[at..at + 4]`.
fn get_u32(data: &[u8], at: usize) -> (v: u32)
    requires
        at + 4 <= data@.len(),
    ensures
        v == read_u32(data@, at as int),
{
    let b0 = data[at] as u32;
    let b1 = data[at + 1] as u32;
    let b2 = data[at + 2] as u32;
    let b3 = data[at + 3] as u32;
    b0 * 16777216 + b1 * 65536 + b2 * 256 + b3
}

/// What the five bytes of `data` from `at` decode to as a standard header: protocol
/// checksum, packet type, delivery and ordering, or the first field that has no meaning.
pub open spec fn decode_standard_header(data: Seq<u8>, at: int) -> Result<
    (u16, PacketType, DeliveryGuarantee, OrderingGuarantee),
    ErrorKind,
> {
    match PacketType::from_code(data[at + 2]) {
        None => Err(ErrorKind::DecodingError(DecodingErrorKind::PacketType)),
        Some(t) => match DeliveryGuarantee::from_code(data[at + 3]) {
            None => Err(ErrorKind::DecodingError(DecodingErrorKind::DeliveryGuarantee)),
            Some(d) => match OrderingGuarantee::from_code(data[at + 4]) {
                None => Err(ErrorKind::DecodingError(DecodingErrorKind::OrderingGuarantee)),
                Some(o) => Ok((read_u16(data, at), t, d, o)),
            },
        },
    }
}

/// What the eight bytes of `data` from `at` decode to as an acknowledgement header.
pub open spec fn decode_acked_header(data: Seq<u8>, at: int) -> (u16, u16, u32) {
    (read_u16(data, at), read_u16(data, at + 2), read_u32(data, at + 4))
}

/// What the three bytes of `data` from `at` decode to as an arranging header.
pub open spec fn decode_arranging_header(data: Seq<u8>, at: int) -> (u16, u8) {
    (read_u16(data, at), data[at + 2])
}

/// What the four bytes of `data` from `at` decode to as a fragment header.
pub open spec fn decode_fragment_header(data: Seq<u8>, at: int) -> (u16, u8, u8) {
    (read_u16(data, at), data[at + 2], data[at + 3])
}

/// The header every packet starts with.
#[derive(Copy, Clone, Debug, PartialEq, Eq, Structural)]
pub struct StandardHeader {
    protocol_version: u16,
    packet_type: PacketType,
    delivery_guarantee: DeliveryGuarantee,
    ordering_guarantee: OrderingGuarantee,
}

/// The bytes of a standard header: protocol checksum, packet type, delivery, ordering.
pub open spec fn standard_header_bytes(
    protocol_version: u16,
    packet_type: PacketType,
    delivery: DeliveryGuarantee,
    ordering: OrderingGuarantee,
) -> Seq<u8> {
    u16_bytes(protocol_version) + seq![packet_type.code(), delivery.code(), ordering.code()]
}

impl StandardHeader {
    pub closed spec fn spec_protocol_version(&self) -> u16 {
        self.protocol_version
    }

    pub closed spec fn spec_packet_type(&self) -> PacketType {
        self.packet_type
    }

    pub closed spec fn spec_delivery_guarantee(&self) -> DeliveryGuarantee {
        self.delivery_guarantee
    }

    pub closed spec fn spec_ordering_guarantee(&self) -> OrderingGuarantee {
        self.ordering_guarantee
    }

    /// The fields of the header.
    pub open spec fn fields(&self) -> (u16, PacketType, DeliveryGuarantee, OrderingGuarantee) {
        (
            self.spec_protocol_version(),
            self.spec_packet_type(),
            self.spec_delivery_guarantee(),
            self.spec_ordering_guarantee(),
        )
    }

    /// Reads a standard header from the five bytes of `data` from `at`.
    pub fn read(data: &[u8], at: usize) -> (header: Result<StandardHeader, ErrorKind>)
        requires
            at + 5 <= data@.len(),
        ensures
            match decode_standard_header(data@, at as int) {
                Ok(f) => header matches Ok(h) && h.fields() == f,
                Err(e) => header == Err::<StandardHeader, ErrorKind>(e),
            },
    {
        let len = data.len();
        assert(at + 5 <= len);
        let protocol_version = get_u16(data, at);
        let packet_type = match PacketType::try_from_u8(data[at + 2]) {
            Some(t) => t,
            None => {
                return Err(ErrorKind::DecodingError(DecodingErrorKind::PacketType));
            },
        };
        let delivery_guarantee = match DeliveryGuarantee::try_from_u8(data[at + 3]) {
            Some(d) => d,
            None => {
                return Err(ErrorKind::DecodingError(DecodingErrorKind::DeliveryGuarantee));
            },
        };
        let ordering_guarantee = match OrderingGuarantee::try_from_u8(data[at + 4]) {
            Some(o) => o,
            None => {
                return Err(ErrorKind::DecodingError(DecodingErrorKind::OrderingGuarantee));
            },
        };
        Ok(StandardHeader { protocol_version, packet_type, delivery_guarantee, ordering_guarantee })
    }

    /// The bytes this header is written as.
    pub open spec fn bytes(&self) -> Seq<u8> {
        standard_header_bytes(
            self.spec_protocol_version(),
            self.spec_packet_type(),
            self.spec_delivery_guarantee(),
            self.spec_ordering_guarantee(),
        )
    }

    /// Creates a header for the current protocol version.
    pub fn new(
        delivery_guarantee: DeliveryGuarantee,
        ordering_guarantee: OrderingGuarantee,
        packet_type: PacketType,
    ) -> (header: StandardHeader)
        ensures
            header.spec_protocol_version() == protocol_crc16(),
            header.spec_packet_type() == packet_type,
            header.spec_delivery_guarantee() == delivery_guarantee,
            header.spec_ordering_guarantee() == ordering_guarantee,
    {
        StandardHeader {
            protocol_version: ProtocolVersion::get_crc16(),
            packet_type,
            delivery_guarantee,
            ordering_guarantee,
        }
    }

    /// Returns the protocol version checksum the header carries.
    pub fn protocol_version(&self) -> (v: u16)
        ensures
            v == self.spec_protocol_version(),
    {
        self.protocol_version
    }

    /// Returns the packet type.
    pub fn packet_type(&self) -> (t: PacketType)
        ensures
            t == self.spec_packet_type(),
    {
        self.packet_type
    }

    /// Returns the delivery guarantee.
    pub fn delivery_guarantee(&self) -> (d: DeliveryGuarantee)
        ensures
            d == self.spec_delivery_guarantee(),
    {
        self.delivery_guarantee
    }

    /// Returns the ordering guarantee.
    pub fn ordering_guarantee(&self) -> (o: OrderingGuarantee)
        ensures
            o == self.spec_ordering_guarantee(),
    {
        self.ordering_guarantee
    }

    /// Whether the header carries the current protocol version.
    pub fn is_current_protocol(&self) -> (valid: bool)
        ensures
            valid == (self.spec_protocol_version() == protocol_crc16()),
    {
        ProtocolVersion::valid_version(self.protocol_version)
    }

    /// Appends this header's bytes to `buffer`.
    pub fn write(&self, buffer: &mut Vec<u8>)
        ensures
            final(buffer)@ == old(buffer)@ + self.bytes(),
    {
        push_u16(buffer, self.protocol_version);
        buffer.push(self.packet_type.to_u8());
        buffer.push(self.delivery_guarantee.to_u8());
        buffer.push(self.ordering_guarantee.to_u8());
        proof {
            assert(final(buffer)@ =~= old(buffer)@ + self.bytes());
        }
    }
}

/// The header of a reliable packet: its own sequence number and the acknowledgements of the
/// packets received from the other side.
#[derive(Copy, Clone, Debug, PartialEq, Eq, Structural)]
pub struct AckedPacketHeader {
    /// The sequence number of this packet.
    seq: u16,
    /// The newest sequence number received from the other side.
    ack_seq: u16,
    /// Bit `i` acknowledges the packet `ack_seq - (i + 1)`.
    ack_field: u32,
}

/// The bytes of an acknowledgement header.
pub open spec fn acked_header_bytes(seq: u16, ack_seq: u16, ack_field: u32) -> Seq<u8> {
    u16_bytes(seq) + u16_bytes(ack_seq) + u32_bytes(ack_field)
}

impl AckedPacketHeader {
    pub closed spec fn spec_sequence(&self) -> u16 {
        self.seq
    }

    pub closed spec fn spec_ack_seq(&self) -> u16 {
        self.ack_seq
    }

    pub closed spec fn spec_ack_field(&self) -> u32 {
        self.ack_field
    }

    /// The bytes this header is written as.
    pub open spec fn bytes(&self) -> Seq<u8> {
        acked_header_bytes(self.spec_sequence(), self.spec_ack_seq(), self.spec_ack_field())
    }

    /// The fields of the header.
    pub open spec fn fields(&self) -> (u16, u16, u32) {
        (self.spec_sequence(), self.spec_ack_seq(), self.spec_ack_field())
    }

    /// Reads an acknowledgement header from the eight bytes of `data` from `at`.
    pub fn read(data: &[u8], at: usize) -> (header: AckedPacketHeader)
        requires
            at + 8 <= data@.len(),
        ensures
            header.fields() == decode_acked_header(data@, at as int),
    {
        let len = data.len();
        assert(at + 8 <= len);
        AckedPacketHeader { seq: get_u16(data, at), ack_seq: get_u16(data, at + 2), ack_field: get_u32(data, at + 4) }
    }

    /// Creates an acknowledgement header.
    pub fn new(seq_num: u16, last_seq: u16, bit_field: u32) -> (header: AckedPacketHeader)
        ensures
            header.spec_sequence() == seq_num,
            header.spec_ack_seq() == last_seq,
            header.spec_ack_field() == bit_field,
    {
        AckedPacketHeader { seq: seq_num, ack_seq: last_seq, ack_field: bit_field }
    }

    /// Returns the sequence number of this packet.
    pub fn sequence(&self) -> (s: u16)
        ensures
            s == self.spec_sequence(),
    {
        self.seq
    }

    /// Returns the newest sequence number received from the other side.
    pub fn ack_seq(&self) -> (s: u16)
        ensures
            s == self.spec_ack_seq(),
    {
        self.ack_seq
    }

    /// Returns the acknowledgement bit field.
    pub fn ack_field(&self) -> (f: u32)
        ensures
            f == self.spec_ack_field(),
    {
        self.ack_field
    }

    /// Appends this header's bytes to `buffer`.
    pub fn write(&self, buffer: &mut Vec<u8>)
        ensures
            final(buffer)@ == old(buffer)@ + self.bytes(),
    {
        push_u16(buffer, self.seq);
        push_u16(buffer, self.ack_seq);
        push_u32(buffer, self.ack_field);
        proof {
            assert(final(buffer)@ =~= old(buffer)@ + self.bytes());
        }
    }
}

/// The header of a sequenced or ordered packet: its place in its stream.
#[derive(Copy, Clone, Debug, PartialEq, Eq, Structural)]
pub struct ArrangingHeader {
    arranging_id: u16,
    stream_id: u8,
}

/// The bytes of an arranging header.
pub open spec fn arranging_header_bytes(arranging_id: u16, stream_id: u8) -> Seq<u8> {
    u16_bytes(arranging_id) + seq![stream_id]
}

impl ArrangingHeader {
    pub closed spec fn spec_arranging_id(&self) -> u16 {
        self.arranging_id
    }

    pub closed spec fn spec_stream_id(&self) -> u8 {
        self.stream_id
    }

    /// The bytes this header is written as.
    pub open spec fn bytes(&self) -> Seq<u8> {
        arranging_header_bytes(self.spec_arranging_id(), self.spec_stream_id())
    }

    /// The fields of the header.
    pub open spec fn fields(&self) -> (u16, u8) {
        (self.spec_arranging_id(), self.spec_stream_id())
    }

    /// Reads an arranging header from the three bytes of `data` from `at`.
    pub fn read(data: &[u8], at: usize) -> (header: ArrangingHeader)
        requires
            at + 3 <= data@.len(),
        ensures
            header.fields() == decode_arranging_header(data@, at as int),
    {
        let len = data.len();
        assert(at + 3 <= len);
        ArrangingHeader { arranging_id: get_u16(data, at), stream_id: data[at + 2] }
    }

    /// Creates an arranging header.
    pub fn new(arranging_id: u16, stream_id: u8) -> (header: ArrangingHeader)
        ensures
            header.spec_arranging_id() == arranging_id,
            header.spec_stream_id() == stream_id,
    {
        ArrangingHeader { arranging_id, stream_id }
    }

    /// Returns the place of the packet in its stream.
    pub fn arranging_id(&self) -> (id: u16)
        ensures
            id == self.spec_arranging_id(),
    {
        self.arranging_id
    }

    /// Returns the stream of the packet.
    pub fn stream_id(&self) -> (id: u8)
        ensures
            id == self.spec_stream_id(),
    {
        self.stream_id
    }

    /// Appends this header's bytes to `buffer`.
    pub fn write(&self, buffer: &mut Vec<u8>)
        ensures
            final(buffer)@ == old(buffer)@ + self.bytes(),
    {
        push_u16(buffer, self.arranging_id);
        buffer.push(self.stream_id);
        proof {
            assert(final(buffer)@ =~= old(buffer)@ + self.bytes());
        }
    }
}

/// The header of one fragment of a packet.
#[derive(Copy, Clone, Debug, PartialEq, Eq, Structural)]
pub struct FragmentHeader {
    sequence: u16,
    id: u8,
    num_fragments: u8,
}

/// The bytes of a fragment header.
pub open spec fn fragment_header_bytes(sequence: u16, id: u8, num_fragments: u8) -> Seq<u8> {
    u16_bytes(sequence) + seq![id, num_fragments]
}

impl FragmentHeader {
    pub closed spec fn spec_sequence(&self) -> u16 {
        self.sequence
    }

    pub closed spec fn spec_id(&self) -> u8 {
        self.id
    }

    pub closed spec fn spec_fragment_count(&self) -> u8 {
        self.num_fragments
    }

    /// The bytes this header is written as.
    pub open spec fn bytes(&self) -> Seq<u8> {
        fragment_header_bytes(self.spec_sequence(), self.spec_id(), self.spec_fragment_count())
    }

    /// The fields of the header.
    pub open spec fn fields(&self) -> (u16, u8, u8) {
        (self.spec_sequence(), self.spec_id(), self.spec_fragment_count())
    }

    /// Reads a fragment header from the four bytes of `data` from `at`.
    pub fn read(data: &[u8], at: usize) -> (header: FragmentHeader)
        requires
            at + 4 <= data@.len(),
        ensures
            header.fields() == decode_fragment_header(data@, at as int),
    {
        let len = data.len();
        assert(at + 4 <= len);
        FragmentHeader { sequence: get_u16(data, at), id: data[at + 2], num_fragments: data[at + 3] }
    }

    /// Creates a fragment header.
    pub fn new(sequence: u16, id: u8, num_fragments: u8) -> (header: FragmentHeader)
        ensures
            header.spec_sequence() == sequence,
            header.spec_id() == id,
            header.spec_fragment_count() == num_fragments,
    {
        FragmentHeader { sequence, id, num_fragments }
    }

    /// Returns the sequence number of the packet the fragment belongs to.
    pub fn sequence(&self) -> (s: u16)
        ensures
            s == self.spec_sequence(),
    {
        self.sequence
    }

    /// Returns the place of the fragment in its packet.
    pub fn id(&self) -> (id: u8)
        ensures
            id == self.spec_id(),
    {
        self.id
    }

    /// Returns the number of fragments of the packet.
    pub fn fragment_count(&self) -> (n: u8)
        ensures
            n == self.spec_fragment_count(),
    {
        self.num_fragments
    }

    /// Appends this header's bytes to `buffer`.
    pub fn write(&self, buffer: &mut Vec<u8>)
        ensures
            final(buffer)@ == old(buffer)@ + self.bytes(),
    {
        push_u16(buffer, self.sequence);
        buffer.push(self.id);
        buffer.push(self.num_fragments);
        proof {
            assert(final(buffer)@ =~= old(buffer)@ + self.bytes());
        }
    }
}

/// Reading back the bytes of a standard header, wherever they stand, gives its fields; the
/// ordering guarantee's stream is not written and reads back unnamed.
pub proof fn lemma_standard_header_round_trip(
    protocol_version: u16,
    packet_type: PacketType,
    delivery: DeliveryGuarantee,
    ordering: OrderingGuarantee,
    before: Seq<u8>,
    after: Seq<u8>,
)
    ensures
        decode_standard_header(
            before + standard_header_bytes(protocol_version, packet_type, delivery, ordering) + after,
            before.len() as int,
        ) == Ok::<(u16, PacketType, DeliveryGuarantee, OrderingGuarantee), ErrorKind>(
            (protocol_version, packet_type, delivery, ordering.unnamed()),
        ),
{
    let data = before + standard_header_bytes(protocol_version, packet_type, delivery, ordering) + after;
    let at = before.len() as int;
    assert(data.subrange(at, at + 2) =~= u16_bytes(protocol_version));
    lemma_u16_round_trip(protocol_version, data, at);
    assert(data[at + 2] == packet_type.code());
    assert(data[at + 3] == delivery.code());
    assert(data[at + 4] == ordering.code());
    crate::packet::enums::lemma_codes_round_trip(delivery, ordering, packet_type);
}

/// Reading back the bytes of an acknowledgement header, wherever they stand, gives its
/// fields.
pub proof fn lemma_acked_header_round_trip(seq: u16, ack_seq: u16, ack_field: u32, before: Seq<u8>, after: Seq<u8>)
    ensures
        decode_acked_header(before + acked_header_bytes(seq, ack_seq, ack_field) + after, before.len() as int)
            == (seq, ack_seq, ack_field),
{
    let data = before + acked_header_bytes(seq, ack_seq, ack_field) + after;
    let at = before.len() as int;
    assert(data.subrange(at, at + 2) =~= u16_bytes(seq));
    assert(data.subrange(at + 2, at + 4) =~= u16_bytes(ack_seq));
    assert(data.subrange(at + 4, at + 8) =~= u32_bytes(ack_field));
    lemma_u16_round_trip(seq, data, at);
    lemma_u16_round_trip(ack_seq, data, at + 2);
    lemma_u32_round_trip(ack_field, data, at + 4);
}

/// Reading back the bytes of an arranging header, wherever they stand, gives its fields.
pub proof fn lemma_arranging_header_round_trip(arranging_id: u16, stream_id: u8, before: Seq<u8>, after: Seq<u8>)
    ensures
        decode_arranging_header(before + arranging_header_bytes(arranging_id, stream_id) + after, before.len() as int)
            == (arranging_id, stream_id),
{
    let data = before + arranging_header_bytes(arranging_id, stream_id) + after;
    let at = before.len() as int;
    assert(data.subrange(at, at + 2) =~= u16_bytes(arranging_id));
    lemma_u16_round_trip(arranging_id, data, at);
    assert(data[at + 2] == stream_id);
}

/// Reading back the bytes of a fragment header, wherever they stand, gives its fields.
pub proof fn lemma_fragment_header_round_trip(sequence: u16, id: u8, num_fragments: u8, before: Seq<u8>, after: Seq<u8>)
    ensures
        decode_fragment_header(before + fragment_header_bytes(sequence, id, num_fragments) + after, before.len() as int)
            == (sequence, id, num_fragments),
{
    let data = before + fragment_header_bytes(sequence, id, num_fragments) + after;
    let at = before.len() as int;
    assert(data.subrange(at, at + 2) =~= u16_bytes(sequence));
    lemma_u16_round_trip(sequence, data, at);
    assert(data[at + 2] == id);
    assert(data[at + 3] == num_fragments);
}

} // verus!
