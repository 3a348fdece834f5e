use vstd::prelude::*;

use std::collections::VecDeque;

use crate::config::Config;
use crate::either::Either;
use crate::error::{ErrorKind, FragmentErrorKind, PacketErrorKind};
use crate::infrastructure::acknowledgment::{AcknowledgmentHandler, acks_received, next_seq};
use crate::infrastructure::arranging::{
    OrderingStreamView, OrderingSystem, SequencingStream, SequencingSystem, next_id,
    option_items, ordered_arrival, ordering_stream, ready_items, sequencing_stream,
};
use crate::infrastructure::fragmentation::{
    Fragmentation, ReassemblyView, arrivals_in_order, first_only, fragment_arrival,
    fragment_count, fragment_of, fragment_pieces, fragment_positions_fit, joined,
    lemma_fragments_join, lemma_fragments_reassemble_in_order, spec_fragments_needed, wire_length,
};
use crate::infrastructure::sequence_buffer::{holds, too_old};
use crate::net::constants::{
    ACKED_PACKET_HEADER, DEFAULT_ORDERING_STREAM, DEFAULT_SEQUENCING_STREAM, STANDARD_HEADER_SIZE,
};
use crate::packet::header::{
    acked_header_bytes, arranging_header_bytes, decode_acked_header, decode_arranging_header,
    decode_fragment_header, decode_standard_header, fragment_header_bytes,
    lemma_acked_header_round_trip, lemma_arranging_header_round_trip,
    lemma_fragment_header_round_trip, lemma_standard_header_round_trip, standard_header_bytes,
};
use crate::packet::outgoing::stream_or;
use crate::packet::{
    DeliveryGuarantee, GenericPacket, OrderingGuarantee, OutgoingPacket, OutgoingPacketBuilder,
    Packet, PacketReader, PacketType, SentPacket, SequenceNumber, SocketAddress,
};
use crate::protocol_version::protocol_crc16;

verus! {

/// Helper class, that is used to return incoming (from bytes to packets) or outgoing (from
/// packet to bytes) packets. It is used as optimization in cases, where most of the time there
/// is only one element to iterate, and we don't want to create vector for it.
pub struct ZeroOrMore<T> {
    pub data: Either<Option<T>, VecDeque<T>>,
}

impl<T> ZeroOrMore<T> {
    /// The items still to be handed out, in order.
    pub open spec fn items(&self) -> Seq<T> {
        match self.data {
            Either::Left(None) => Seq::empty(),
            Either::Left(Some(item)) => seq![item],
            Either::Right(v) => v@,
        }
    }

    /// No item.
    pub fn zero() -> (z: ZeroOrMore<T>)
        ensures
            z.items() == Seq::<T>::empty(),
    {
        ZeroOrMore { data: Either::Left(None) }
    }

    /// Exactly one item.
    pub fn one(data: T) -> (z: ZeroOrMore<T>)
        ensures
            z.items() == seq![data],
    {
        ZeroOrMore { data: Either::Left(Some(data)) }
    }

    /// The items of `vec`, in order.
    pub fn many(vec: VecDeque<T>) -> (z: ZeroOrMore<T>)
        ensures
            z.items() == vec@,
    {
        ZeroOrMore { data: Either::Right(vec) }
    }

    /// Hands out the next item, if any.
    pub fn next(&mut self) -> (item: Option<T>)
        ensures
            old(self).items().len() == 0 ==> item is None && final(self).items() == Seq::<T>::empty(),
            old(self).items().len() > 0 ==> item == Some(old(self).items()[0]) && final(self).items()
                == old(self).items().drop_first(),
    {
        match &mut self.data {
            Either::Left(option) => {
                let item = option.take();
                proof {
                    assert(self.items() =~= old(self).items().drop_first() || old(self).items().len() == 0);
                }
                item
            },
            Either::Right(vec) => vec.pop_front(),
        }
    }
}

/// Stores packets with headers that will be sent to network
pub struct OutgoingPackets<'a> {
    data: ZeroOrMore<OutgoingPacket<'a>>,
}

impl<'a> OutgoingPackets<'a> {
    /// The packets, in order.
    pub closed spec fn packets(&self) -> Seq<OutgoingPacket<'a>> {
        self.data.items()
    }

    /// The bytes each packet is sent as, in order.
    pub open spec fn packet_bytes(&self) -> Seq<Seq<u8>> {
        self.packets().map_values(|p: OutgoingPacket<'a>| p.bytes())
    }

    /// Exactly one packet.
    pub fn one(packet: OutgoingPacket<'a>) -> (o: OutgoingPackets<'a>)
        ensures
            o.packets() == seq![packet],
    {
        OutgoingPackets { data: ZeroOrMore::one(packet) }
    }

    /// The packets of `packets`, in order.
    pub fn many(packets: VecDeque<OutgoingPacket<'a>>) -> (o: OutgoingPackets<'a>)
        ensures
            o.packets() == packets@,
    {
        OutgoingPackets { data: ZeroOrMore::many(packets) }
    }

    /// Hands the packets out one by one.
    pub fn into_iter(self) -> (it: ZeroOrMore<OutgoingPacket<'a>>)
        ensures
            it.items() == self.packets(),
    {
        self.data
    }
}

/// Stores parsed packets with their types, that was received from network
pub struct IncomingPackets {
    data: ZeroOrMore<(Packet, PacketType)>,
}

/// A received packet as handed out: address, payload, delivery, ordering and packet type.
pub type Received = (SocketAddress, Seq<u8>, DeliveryGuarantee, OrderingGuarantee, PacketType);

/// A packet and its type as handed out, with the payload taken by its view.
pub open spec fn received_view(entry: (Packet, PacketType)) -> Received {
    (entry.0.addr, entry.0.payload@, entry.0.delivery, entry.0.ordering, entry.1)
}

impl IncomingPackets {
    /// The packets, in order.
    pub closed spec fn packets(&self) -> Seq<(Packet, PacketType)> {
        self.data.items()
    }

    /// The packets, in order, with their payloads taken by their views.
    pub open spec fn contents(&self) -> Seq<Received> {
        self.packets().map_values(|e: (Packet, PacketType)| received_view(e))
    }

    /// No packet.
    pub fn zero() -> (i: IncomingPackets)
        ensures
            i.packets() == Seq::<(Packet, PacketType)>::empty(),
    {
        IncomingPackets { data: ZeroOrMore::zero() }
    }

    /// Exactly one packet.
    pub fn one(packet: Packet, packet_type: PacketType) -> (i: IncomingPackets)
        ensures
            i.packets() == seq![(packet, packet_type)],
    {
        IncomingPackets { data: ZeroOrMore::one((packet, packet_type)) }
    }

    /// The packets of `vec`, in order.
    pub fn many(vec: VecDeque<(Packet, PacketType)>) -> (i: IncomingPackets)
        ensures
            i.packets() == vec@,
    {
        IncomingPackets { data: ZeroOrMore::many(vec) }
    }

    /// Hands the packets out one by one.
    pub fn into_iter(self) -> (it: ZeroOrMore<(Packet, PacketType)>)
        ensures
            it.items() == self.packets(),
    {
        self.data
    }
}

/// The bytes of a processing result's packets, one buffer per packet.
pub open spec fn bytes_view(r: Result<Vec<Vec<u8>>, ErrorKind>) -> Result<Seq<Seq<u8>>, ErrorKind> {
    match r {
        Ok(buffers) => Ok(buffers@.map_values(|b: Vec<u8>| b@)),
        Err(e) => Err(e),
    }
}

/// Returns the bytes of the packets of a processing result, in order, one buffer per packet.
pub fn outgoing_contents(result: Result<OutgoingPackets, ErrorKind>) -> (contents: Result<Vec<Vec<u8>>, ErrorKind>)
    ensures
        bytes_view(contents) == outgoing_view(result),
{
    match result {
        Ok(packets) => {
            let ghost all = packets.packet_bytes();
            let mut it = packets.into_iter();
            let mut buffers: Vec<Vec<u8>> = Vec::new();
            loop
                invariant
                    buffers@.map_values(|b: Vec<u8>| b@) + it.items().map_values(|p: OutgoingPacket| p.bytes()) == all,
                ensures
                    buffers@.map_values(|b: Vec<u8>| b@) == all,
                decreases it.items().len(),
            {
                let ghost done = buffers@.map_values(|b: Vec<u8>| b@);
                let ghost rest = it.items();
                match it.next() {
                    Some(packet) => {
                        let bytes = packet.contents();
                        buffers.push(bytes);
                        proof {
                            assert(buffers@.map_values(|b: Vec<u8>| b@) =~= done.push(packet.bytes()));
                            assert(rest.map_values(|p: OutgoingPacket| p.bytes()) =~= seq![packet.bytes()]
                                + it.items().map_values(|p: OutgoingPacket| p.bytes()));
                            assert(buffers@.map_values(|b: Vec<u8>| b@) + it.items().map_values(
                                |p: OutgoingPacket| p.bytes(),
                            ) =~= all);
                        }
                    },
                    None => {
                        proof {
                            assert(buffers@.map_values(|b: Vec<u8>| b@) =~= all);
                        }
                        break;
                    },
                }
            }
            Ok(buffers)
        },
        Err(e) => Err(e),
    }
}

/// The nanoseconds from `from` to `to`, or zero when `to` lies before `from`.
pub open spec fn elapsed(from: u64, to: u64) -> u64 {
    if to >= from {
        (to - from) as u64
    } else {
        0
    }
}

/// Whether a sent packet can be sent again under `config`: splitting it into fragments stays
/// clear of a division by zero and of 16-bit overflow.
pub open spec fn resendable(config: Config, packet: SentPacket) -> bool {
    fragmentation_defined(config, packet.packet_type, packet.payload@.len(), DeliveryGuarantee::Reliable)
}

/// Whether every packet awaiting acknowledgement or declared lost can be sent again.
pub open spec fn all_resendable(config: Config, acks: AcknowledgmentHandler) -> bool {
    &&& forall|k: u16| #[trigger] acks.spec_in_flight().contains_key(k) ==> resendable(
        config,
        acks.spec_in_flight()[k],
    )
    &&& forall|i: int| 0 <= i < acks.spec_dropped().len() ==> resendable(config, #[trigger] acks.spec_dropped()[i])
}

/// Processing acknowledgements keeps every packet it keeps or declares lost resendable.
proof fn lemma_acks_keep_resendable(
    config: Config,
    old: AcknowledgmentHandler,
    new: AcknowledgmentHandler,
    remote_seq: u16,
    remote_ack_seq: u16,
    remote_ack_field: u32,
)
    requires
        all_resendable(config, old),
        acks_received(old, new, remote_seq, remote_ack_seq, remote_ack_field),
    ensures
        all_resendable(config, new),
{
    let lost = choose|lost: Seq<(u16, SentPacket)>|
        #[trigger] crate::infrastructure::acknowledgment::lost_entries(lost, old.spec_in_flight(), remote_ack_seq)
            && new.spec_dropped() == old.spec_dropped() + lost.map_values(|e: (u16, SentPacket)| e.1);
    assert forall|i: int| 0 <= i < new.spec_dropped().len() implies resendable(config, #[trigger] new.spec_dropped()[i]) by {
        if i >= old.spec_dropped().len() {
            let j = i - old.spec_dropped().len();
            assert(new.spec_dropped()[i] == lost[j].1);
            assert(old.spec_in_flight().contains_key(lost[j].0));
        }
    }
}

/// The standard header of the current protocol version.
pub open spec fn std_header(packet_type: PacketType, delivery: DeliveryGuarantee, ordering: OrderingGuarantee) -> Seq<u8> {
    standard_header_bytes(protocol_crc16(), packet_type, delivery, ordering)
}

/// The identifier an arranged reliable packet goes out with: the one it had before, or the
/// next one of its stream.
pub open spec fn chosen_identifier(last_item_identifier: Option<u16>, counter: u16) -> u16 {
    match last_item_identifier {
        Some(id) => id,
        None => counter,
    }
}

/// Whether `new` is `old` after recording one sent reliable packet: the packet is kept under
/// the current sequence number, which then advances; the rest is unchanged.
pub open spec fn records_sent(
    old: AcknowledgmentHandler,
    new: AcknowledgmentHandler,
    packet_type: PacketType,
    payload: Seq<u8>,
    ordering: OrderingGuarantee,
    item_identifier: Option<u16>,
) -> bool {
    let seq = old.spec_local_sequence_num();
    &&& new.spec_local_sequence_num() == next_seq(seq)
    &&& new.spec_in_flight() == old.spec_in_flight().insert(seq, new.spec_in_flight()[seq])
    &&& new.spec_in_flight()[seq].packet_type == packet_type
    &&& new.spec_in_flight()[seq].payload@ == payload
    &&& new.spec_in_flight()[seq].ordering_guarantee == ordering
    &&& new.spec_in_flight()[seq].item_identifier == item_identifier
    &&& new.spec_their_acks() == old.spec_their_acks()
    &&& new.spec_dropped() == old.spec_dropped()
}

/// The error processing an outgoing packet ends in, if any.
pub open spec fn outgoing_error(
    config: Config,
    packet_type: PacketType,
    payload_len: nat,
    delivery: DeliveryGuarantee,
) -> Option<ErrorKind> {
    match delivery {
        DeliveryGuarantee::Unreliable => if payload_len <= config.receive_buffer_max_size {
            None
        } else {
            Some(ErrorKind::PacketError(PacketErrorKind::ExceededMaxPacketSize))
        },
        DeliveryGuarantee::Reliable => if wire_length(payload_len) <= config.fragment_size {
            None
        } else if packet_type != PacketType::Packet {
            Some(ErrorKind::PacketError(PacketErrorKind::PacketTypeCannotBeFragmented))
        } else if fragment_count(payload_len, config.fragment_size) > config.max_fragments {
            Some(ErrorKind::FragmentError(FragmentErrorKind::ExceededMaxFragments))
        } else {
            None
        },
    }
}

/// Whether processing the packet stays clear of a division by zero and of 16-bit overflow
/// when it is split into fragments.
pub open spec fn fragmentation_defined(
    config: Config,
    packet_type: PacketType,
    payload_len: nat,
    delivery: DeliveryGuarantee,
) -> bool {
    delivery == DeliveryGuarantee::Reliable && wire_length(payload_len) > config.fragment_size
        && packet_type == PacketType::Packet ==> config.fragment_size > 0 && fragment_positions_fit(
        payload_len,
        *&config,
    )
}

/// Whether sending a user packet with a payload of `payload_len` bytes and the guarantee
/// `delivery` under `config` stays within what the arithmetic of fragmentation allows.
pub fn fragmentation_is_defined(config: &Config, payload_len: usize, delivery: DeliveryGuarantee) -> (defined: bool)
    ensures
        defined == fragmentation_defined(*config, PacketType::Packet, payload_len as nat, delivery),
{
    match delivery {
        DeliveryGuarantee::Reliable => {
            let payload_length = payload_len as u16;
            proof {
                crate::infrastructure::fragmentation::lemma_truncate_to_u16(payload_len);
            }
            if payload_length > config.fragment_size {
                if config.fragment_size > 0 {
                    crate::infrastructure::fragmentation::split_fits(
                        payload_len,
                        config.fragment_size,
                        config.max_fragments,
                    )
                } else {
                    false
                }
            } else {
                true
            }
        },
        DeliveryGuarantee::Unreliable => true,
    }
}

/// Whether a reliable packet with this payload goes out in fragments.
pub open spec fn is_fragmented(config: Config, payload_len: nat) -> bool {
    wire_length(payload_len) > config.fragment_size
}

/// The stream an ordered or sequenced packet is arranged on.
pub open spec fn arranging_stream(ordering: OrderingGuarantee) -> u8 {
    match ordering {
        OrderingGuarantee::Ordered(sid) => stream_or(sid, DEFAULT_ORDERING_STREAM),
        OrderingGuarantee::Sequenced(sid) => stream_or(sid, DEFAULT_SEQUENCING_STREAM),
        OrderingGuarantee::Unordered => 0,
    }
}

/// The arranging header a single reliable packet carries with identifier `id`.
pub open spec fn reliable_arranging_bytes(ordering: OrderingGuarantee, id: u16) -> Seq<u8> {
    match ordering {
        OrderingGuarantee::Unordered => Seq::empty(),
        _ => arranging_header_bytes(id, arranging_stream(ordering)),
    }
}

/// The bytes of fragment `i` of a reliable packet.
pub open spec fn fragment_packet_bytes(
    delivery: DeliveryGuarantee,
    ordering: OrderingGuarantee,
    local: u16,
    remote: u16,
    bits: u32,
    payload: Seq<u8>,
    config: Config,
    i: int,
) -> Seq<u8> {
    std_header(PacketType::Fragment, delivery, ordering) + fragment_header_bytes(
        local,
        i as u8,
        fragment_count(payload.len(), config.fragment_size),
    ) + (if i == 0 {
        acked_header_bytes(local, remote, bits)
    } else {
        Seq::empty()
    }) + fragment_of(payload, config.fragment_size, i)
}

/// The packets a processing result of received data stands for.
pub open spec fn incoming_view(r: Result<IncomingPackets, ErrorKind>) -> Result<Seq<Received>, ErrorKind> {
    match r {
        Ok(i) => Ok(i.contents()),
        Err(e) => Err(e),
    }
}

/// Whether processing `data` reaches the reassembly of fragments: it is a reliable fragment
/// of the current protocol whose headers can be read.
pub open spec fn reaches_reassembly(data: Seq<u8>) -> bool {
    &&& data.len() >= 9
    &&& decode_standard_header(data, 0) matches Ok((version, packet_type, delivery, _))
    &&& version == protocol_crc16()
    &&& packet_type == PacketType::Fragment
    &&& delivery == DeliveryGuarantee::Reliable
    &&& decode_fragment_header(data, 5).1 == 0 ==> data.len() >= 17
}

/// Whether a received datagram goes to fragment reassembly: it carries a current standard
/// header for a reliable fragment, and a complete fragment header, followed, for the first
/// fragment, by a complete acknowledgement header.
pub fn goes_to_reassembly(data: &[u8]) -> (reaches: bool)
    ensures
        reaches == reaches_reassembly(data@),
{
    if data.len() < 9 {
        return false;
    }
    match crate::packet::header::StandardHeader::read(data, 0) {
        Ok(header) => {
            if !header.is_current_protocol() || header.packet_type() != PacketType::Fragment
                || header.delivery_guarantee() != DeliveryGuarantee::Reliable {
                return false;
            }
            let fragment = crate::packet::header::FragmentHeader::read(data, 5);
            fragment.id() != 0 || data.len() >= 17
        },
        Err(_) => false,
    }
}

/// The packet bytes a processing result stands for.
pub open spec fn outgoing_view<'a>(r: Result<OutgoingPackets<'a>, ErrorKind>) -> Result<Seq<Seq<u8>>, ErrorKind> {
    match r {
        Ok(o) => Ok(o.packet_bytes()),
        Err(e) => Err(e),
    }
}

/// Keeps reliability information about connections.
/// It exposes various, connection quality related functions, and provides functions that
/// assembles and disassembles packet with reliability information in it.
///
/// Points in time are nanoseconds since an origin the caller chooses.
#[derive(Debug)]
pub struct ReliabilitySystem {
    last_heard: u64,
    last_sent: u64,
    ordering_system: OrderingSystem<(Vec<u8>, PacketType)>,
    sequencing_system: SequencingSystem,
    acknowledge_handler: AcknowledgmentHandler,
    config: Config,
    fragmentation: Fragmentation,
}

impl ReliabilitySystem {
    /// When a packet was last received.
    pub closed spec fn spec_last_heard(&self) -> u64 {
        self.last_heard
    }

    /// When a packet was last sent.
    pub closed spec fn spec_last_sent(&self) -> u64 {
        self.last_sent
    }

    /// The configuration.
    pub closed spec fn spec_config(&self) -> Config {
        self.config
    }

    /// The acknowledgement state.
    pub closed spec fn acks(&self) -> AcknowledgmentHandler {
        self.acknowledge_handler
    }

    /// The ordering streams.
    pub closed spec fn ordering(&self) -> Map<u8, crate::infrastructure::arranging::OrderingStreamView<(Seq<u8>, PacketType)>> {
        self.ordering_system@
    }

    /// The sequencing streams.
    pub closed spec fn sequencing(&self) -> Map<u8, crate::infrastructure::arranging::SequencingStream> {
        self.sequencing_system@
    }

    /// The slots of the packets being reassembled from fragments.
    pub closed spec fn reassembly(&self) -> Seq<Option<(u16, ReassemblyView)>> {
        self.fragmentation.slots()
    }

    /// One past the newest sequence number a fragment arrived for.
    pub closed spec fn reassembly_mark(&self) -> u16 {
        self.fragmentation.spec_sequence_num()
    }

    /// The invariant of the system.
    pub closed spec fn wf(&self) -> bool {
        &&& self.ordering_system.wf()
        &&& self.fragmentation.wf()
        &&& self.fragmentation.slots().len() == self.config.fragment_reassembly_buffer_size
        &&& all_resendable(self.config, self.acknowledge_handler)
    }

    /// A well-formed system holds as many reassembly slots as its configuration asks for.
    pub proof fn lemma_reassembly_capacity(&self)
        requires
            self.wf(),
        ensures
            self.reassembly().len() == self.spec_config().fragment_reassembly_buffer_size,
    {
    }

    /// Processes the acknowledgement information of a received packet.
    fn take_acks(&mut self, remote_seq: u16, remote_ack_seq: u16, remote_ack_field: u32)
        requires
            old(self).wf(),
        ensures
            final(self).wf(),
            acks_received(old(self).acks(), final(self).acks(), remote_seq, remote_ack_seq, remote_ack_field),
            final(self).spec_last_heard() == old(self).spec_last_heard(),
            final(self).spec_last_sent() == old(self).spec_last_sent(),
            final(self).spec_config() == old(self).spec_config(),
            final(self).ordering() == old(self).ordering(),
            final(self).sequencing() == old(self).sequencing(),
            final(self).reassembly() == old(self).reassembly(),
            final(self).reassembly_mark() == old(self).reassembly_mark(),
    {
        self.acknowledge_handler.process_incoming(remote_seq, remote_ack_seq, remote_ack_field);
        proof {
            lemma_acks_keep_resendable(
                self.config,
                old(self).acknowledge_handler,
                self.acknowledge_handler,
                remote_seq,
                remote_ack_seq,
                remote_ack_field,
            );
        }
    }

    /// Whether this is the state of a system created with `config` at `time`: it has sent
    /// and received nothing yet.
    pub open spec fn is_fresh(&self, config: Config, time: u64) -> bool {
        &&& self.wf()
        &&& self.spec_last_heard() == time
        &&& self.spec_last_sent() == time
        &&& self.spec_config() == config
        &&& self.acks().spec_local_sequence_num() == 0
        &&& self.acks().spec_in_flight() == Map::<u16, SentPacket>::empty()
        &&& self.acks().spec_dropped() == Seq::<SentPacket>::empty()
        &&& self.acks().spec_their_acks() == crate::net::ExternalAcks::fresh()
        &&& self.ordering() == Map::<u8, OrderingStreamView<(Seq<u8>, PacketType)>>::empty()
        &&& self.sequencing() == Map::<u8, SequencingStream>::empty()
        &&& self.reassembly() == Seq::new(
            config.fragment_reassembly_buffer_size as nat,
            |i: int| None::<(u16, ReassemblyView)>,
        )
        &&& self.reassembly_mark() == 0
    }

    /// Creates and returns a new reliability system that has sent and received nothing yet.
    pub fn new(config: &Config, time: u64) -> (system: ReliabilitySystem)
        ensures
            system.is_fresh(*config, time),
    {
        ReliabilitySystem {
            last_heard: time,
            last_sent: time,
            ordering_system: OrderingSystem::new(),
            sequencing_system: SequencingSystem::new(),
            acknowledge_handler: AcknowledgmentHandler::new(),
            config: config.clone_config(),
            fragmentation: Fragmentation::new(config),
        }
    }

    /// Returns the number of reliable packets sent and not yet acknowledged, truncated to 16
    /// bits.
    pub(crate) fn packets_in_flight(&self) -> (n: u16)
        ensures
            n == (self.acks().spec_in_flight().dom().len() % 65536) as u16,
    {
        self.acknowledge_handler.packets_in_flight()
    }

    /// Whether more reliable packets are in flight, counted in 16 bits, than the
    /// configuration allows.
    pub open spec fn spec_should_be_dropped(&self) -> bool {
        (self.acks().spec_in_flight().dom().len() % 65536) as u16 > self.spec_config().max_packets_in_flight
    }

    /// Determine if this connection should be dropped due to its state
    pub fn should_be_dropped(&self) -> (drop: bool)
        ensures
            drop == self.spec_should_be_dropped(),
    {
        self.acknowledge_handler.packets_in_flight() > self.config.max_packets_in_flight
    }

    /// Returns the number of nanoseconds since we last heard from the client; zero when
    /// `time` lies before it.
    pub fn last_heard(&self, time: u64) -> (since: u64)
        ensures
            since == elapsed(self.spec_last_heard(), time),
    {
        time.saturating_sub(self.last_heard)
    }

    /// Returns the number of nanoseconds since we last sent to the client; zero when `time`
    /// lies before it.
    pub fn last_sent(&self, time: u64) -> (since: u64)
        ensures
            since == elapsed(self.spec_last_sent(), time),
    {
        time.saturating_sub(self.last_sent)
    }

    /// The next identifier of the stream an ordered or sequenced packet is arranged on.
    pub open spec fn stream_counter(&self, ordering: OrderingGuarantee) -> u16 {
        match ordering {
            OrderingGuarantee::Ordered(_) => ordering_stream(self.ordering(), arranging_stream(ordering)).unique_item_identifier,
            OrderingGuarantee::Sequenced(_) => sequencing_stream(self.sequencing(), arranging_stream(ordering)).unique_item_identifier,
            OrderingGuarantee::Unordered => 0,
        }
    }

    /// The ordering streams once the stream of `ordering` handed out an identifier, if the
    /// packet is ordered; unchanged otherwise.
    pub open spec fn ordering_after(&self, ordering: OrderingGuarantee) -> Map<u8, crate::infrastructure::arranging::OrderingStreamView<(Seq<u8>, PacketType)>> {
        match ordering {
            OrderingGuarantee::Ordered(_) => {
                let stream = ordering_stream(self.ordering(), arranging_stream(ordering));
                self.ordering().insert(
                    arranging_stream(ordering),
                    crate::infrastructure::arranging::OrderingStreamView {
                        unique_item_identifier: next_id(stream.unique_item_identifier),
                        ..stream
                    },
                )
            },
            _ => self.ordering(),
        }
    }

    /// The sequencing streams once the stream of `ordering` handed out an identifier, if the
    /// packet is sequenced; unchanged otherwise.
    pub open spec fn sequencing_after(&self, ordering: OrderingGuarantee) -> Map<u8, crate::infrastructure::arranging::SequencingStream> {
        match ordering {
            OrderingGuarantee::Sequenced(_) => {
                let stream = sequencing_stream(self.sequencing(), arranging_stream(ordering));
                self.sequencing().insert(
                    arranging_stream(ordering),
                    crate::infrastructure::arranging::SequencingStream {
                        unique_item_identifier: next_id(stream.unique_item_identifier),
                        ..stream
                    },
                )
            },
            _ => self.sequencing(),
        }
    }

    /// The bytes of the single packet an unreliable packet goes out as.
    pub open spec fn unreliable_bytes(
        &self,
        packet_type: PacketType,
        payload: Seq<u8>,
        ordering: OrderingGuarantee,
    ) -> Seq<u8> {
        std_header(packet_type, DeliveryGuarantee::Unreliable, ordering) + (match ordering {
            OrderingGuarantee::Sequenced(_) => arranging_header_bytes(
                self.stream_counter(ordering),
                arranging_stream(ordering),
            ),
            _ => Seq::empty(),
        }) + payload
    }

    /// The bytes of the single packet a small enough reliable packet goes out as.
    pub open spec fn reliable_bytes(
        &self,
        packet_type: PacketType,
        payload: Seq<u8>,
        ordering: OrderingGuarantee,
        last_item_identifier: Option<u16>,
    ) -> Seq<u8> {
        let acks = self.acks();
        std_header(packet_type, DeliveryGuarantee::Reliable, ordering) + acked_header_bytes(
            acks.spec_local_sequence_num(),
            acks.spec_their_acks().last_seq,
            acks.spec_their_acks().field,
        ) + reliable_arranging_bytes(
            ordering,
            chosen_identifier(last_item_identifier, self.stream_counter(ordering)),
        ) + payload
    }

    /// The bytes of the fragments a large reliable packet goes out as.
    pub open spec fn fragments_bytes(&self, payload: Seq<u8>, ordering: OrderingGuarantee) -> Seq<Seq<u8>> {
        let acks = self.acks();
        Seq::new(
            fragment_count(payload.len(), self.spec_config().fragment_size) as nat,
            |i: int|
                fragment_packet_bytes(
                    DeliveryGuarantee::Reliable,
                    ordering,
                    acks.spec_local_sequence_num(),
                    acks.spec_their_acks().last_seq,
                    acks.spec_their_acks().field,
                    payload,
                    self.spec_config(),
                    i,
                ),
        )
    }

    /// Whether `new` is `self` with only the acknowledgement state and the arranging streams
    /// possibly changed.
    pub open spec fn same_timing(&self, new: &ReliabilitySystem) -> bool {
        &&& new.wf() == self.wf()
        &&& new.spec_last_heard() == self.spec_last_heard()
        &&& new.spec_last_sent() == self.spec_last_sent()
        &&& new.spec_config() == self.spec_config()
        &&& new.reassembly() == self.reassembly()
        &&& new.reassembly_mark() == self.reassembly_mark()
    }

    /// Whether `new` is `self` with the packets declared lost handed out.
    pub open spec fn without_dropped(&self, new: &ReliabilitySystem) -> bool {
        &&& new.acks().spec_dropped() == Seq::<SentPacket>::empty()
        &&& new.acks().spec_local_sequence_num() == self.acks().spec_local_sequence_num()
        &&& new.acks().spec_their_acks() == self.acks().spec_their_acks()
        &&& new.acks().spec_in_flight() == self.acks().spec_in_flight()
        &&& new.spec_last_heard() == self.spec_last_heard()
        &&& new.spec_last_sent() == self.spec_last_sent()
        &&& new.spec_config() == self.spec_config()
        &&& new.ordering() == self.ordering()
        &&& new.sequencing() == self.sequencing()
        &&& new.reassembly() == self.reassembly()
        &&& new.reassembly_mark() == self.reassembly_mark()
    }

    /// Whether `new` has the same acknowledgement, arranging and reassembly state as `self`.
    pub open spec fn same_streams(&self, new: &ReliabilitySystem) -> bool {
        &&& new.acks() == self.acks()
        &&& new.ordering() == self.ordering()
        &&& new.sequencing() == self.sequencing()
        &&& new.reassembly() == self.reassembly()
        &&& new.reassembly_mark() == self.reassembly_mark()
    }

    /// What a sequenced packet whose arranging header starts at `at` does: it is handed out
    /// when it is newer than every packet let through on its stream, and dropped otherwise.
    pub open spec fn sequenced_effect(
        &self,
        new: &ReliabilitySystem,
        addr: SocketAddress,
        data: Seq<u8>,
        at: int,
        delivery: DeliveryGuarantee,
        packet_type: PacketType,
        result: Result<Seq<Received>, ErrorKind>,
    ) -> bool {
        &&& new.ordering() == self.ordering()
        &&& new.reassembly() == self.reassembly()
        &&& new.reassembly_mark() == self.reassembly_mark()
        &&& if data.len() < at + 3 {
            &&& result == Err::<Seq<Received>, ErrorKind>(ErrorKind::CouldNotReadHeader)
            &&& new.sequencing() == self.sequencing()
        } else {
            let (id, stream) = decode_arranging_header(data, at);
            let s = sequencing_stream(self.sequencing(), stream);
            &&& new.sequencing() == self.sequencing().insert(stream, s.after_arrival(id))
            &&& result == Ok::<Seq<Received>, ErrorKind>(
                if s.lets_through(id) {
                    seq![
                        (
                            addr,
                            data.subrange(at + 3, data.len() as int),
                            delivery,
                            OrderingGuarantee::Sequenced(Some(stream)),
                            packet_type,
                        ),
                    ]
                } else {
                    Seq::empty()
                },
            )
        }
    }

    /// What a reliable ordered packet does: it is handed out when it is the next one of its
    /// stream, together with the packets that waited for it; one that arrives early waits.
    pub open spec fn ordered_effect(
        &self,
        new: &ReliabilitySystem,
        addr: SocketAddress,
        data: Seq<u8>,
        packet_type: PacketType,
        result: Result<Seq<Received>, ErrorKind>,
    ) -> bool {
        &&& new.sequencing() == self.sequencing()
        &&& new.reassembly() == self.reassembly()
        &&& new.reassembly_mark() == self.reassembly_mark()
        &&& if data.len() < 16 {
            &&& result == Err::<Seq<Received>, ErrorKind>(ErrorKind::CouldNotReadHeader)
            &&& new.ordering() == self.ordering()
        } else {
            let (id, stream) = decode_arranging_header(data, 13);
            let arrival = ordered_arrival(
                ordering_stream(self.ordering(), stream),
                id,
                (data.subrange(16, data.len() as int), packet_type),
            );
            let ready = ready_items(arrival.1);
            &&& new.ordering() == self.ordering().insert(stream, ready.1)
            &&& result == Ok::<Seq<Received>, ErrorKind>(
                (option_items(arrival.0) + ready.0).map_values(
                    |item: (Seq<u8>, PacketType)|
                        (
                            addr,
                            item.0,
                            DeliveryGuarantee::Reliable,
                            OrderingGuarantee::Ordered(Some(stream)),
                            item.1,
                        ),
                ),
            )
        }
    }

    /// What a reliable fragment does: it joins its packet, and once the packet is complete its
    /// whole payload is handed out. The acknowledgement header of a first fragment is
    /// processed at once, or, when `acks_with_whole_packet` holds, kept until the packet is
    /// complete and processed then (a complete packet without one is refused). A fragment
    /// whose headers cannot be read is ignored.
    pub open spec fn fragment_effect(
        &self,
        new: &ReliabilitySystem,
        addr: SocketAddress,
        data: Seq<u8>,
        ordering: OrderingGuarantee,
        acks_with_whole_packet: bool,
        result: Result<Seq<Received>, ErrorKind>,
    ) -> bool {
        &&& new.ordering() == self.ordering()
        &&& new.sequencing() == self.sequencing()
        &&& if data.len() < 9 || (decode_fragment_header(data, 5).1 == 0 && data.len() < 17) {
            &&& result == Ok::<Seq<Received>, ErrorKind>(Seq::empty())
            &&& self.same_streams(new)
        } else {
            let header = decode_fragment_header(data, 5);
            let first = header.1 == 0;
            let payload = data.subrange(if first { 17 } else { 9 }, data.len() as int);
            let acked = if first { Some(decode_acked_header(data, 9)) } else { None };
            let (outcome, slots, mark) = fragment_arrival(
                self.reassembly(),
                self.reassembly_mark(),
                header,
                payload,
                if acks_with_whole_packet { acked } else { None },
            );
            &&& new.reassembly() == slots
            &&& new.reassembly_mark() == mark
            &&& if !acks_with_whole_packet {
                &&& match acked {
                    Some((remote_seq, ack_seq, ack_field)) => acks_received(
                        self.acks(),
                        new.acks(),
                        remote_seq,
                        ack_seq,
                        ack_field,
                    ),
                    None => new.acks() == self.acks(),
                }
                &&& result == match outcome {
                    Ok(Some((whole, _))) => Ok::<Seq<Received>, ErrorKind>(
                        seq![
                            (
                                addr,
                                whole,
                                DeliveryGuarantee::Reliable,
                                OrderingGuarantee::Unordered,
                                PacketType::Packet,
                            ),
                        ],
                    ),
                    Ok(None) => Ok::<Seq<Received>, ErrorKind>(Seq::empty()),
                    Err(e) => Err::<Seq<Received>, ErrorKind>(e),
                }
            } else {
                match outcome {
                    Ok(Some((whole, Some((remote_seq, ack_seq, ack_field))))) => {
                        &&& acks_received(self.acks(), new.acks(), remote_seq, ack_seq, ack_field)
                        &&& result == Ok::<Seq<Received>, ErrorKind>(
                            seq![
                                (
                                    addr,
                                    whole,
                                    DeliveryGuarantee::Reliable,
                                    ordering,
                                    PacketType::Packet,
                                ),
                            ],
                        )
                    },
                    Ok(Some((_, None))) => {
                        &&& new.acks() == self.acks()
                        &&& result == Err::<Seq<Received>, ErrorKind>(
                            ErrorKind::FragmentError(FragmentErrorKind::PacketHeaderNotFound),
                        )
                    },
                    Ok(None) => {
                        &&& new.acks() == self.acks()
                        &&& result == Ok::<Seq<Received>, ErrorKind>(Seq::empty())
                    },
                    Err(e) => {
                        &&& new.acks() == self.acks()
                        &&& result == Err::<Seq<Received>, ErrorKind>(e)
                    },
                }
            }
        }
    }

    /// What processing `data` received from `addr` does: the packets it hands out, or the
    /// error, and the state it leaves. `acks_with_whole_packet` says when the acknowledgement
    /// header of a first fragment is processed (see `fragment_effect`).
    pub open spec fn incoming_effect(
        &self,
        new: &ReliabilitySystem,
        addr: SocketAddress,
        data: Seq<u8>,
        acks_with_whole_packet: bool,
        result: Result<Seq<Received>, ErrorKind>,
    ) -> bool {
        if data.len() < 5 {
            &&& result == Err::<Seq<Received>, ErrorKind>(ErrorKind::CouldNotReadHeader)
            &&& self.same_streams(new)
        } else {
            match decode_standard_header(data, 0) {
                Err(e) => {
                    &&& result == Err::<Seq<Received>, ErrorKind>(e)
                    &&& self.same_streams(new)
                },
                Ok((version, packet_type, delivery, ordering)) => if version != protocol_crc16() {
                    &&& result == Err::<Seq<Received>, ErrorKind>(ErrorKind::ProtocolVersionMismatch)
                    &&& self.same_streams(new)
                } else if packet_type == PacketType::Heartbeat {
                    &&& result == Ok::<Seq<Received>, ErrorKind>(Seq::empty())
                    &&& self.same_streams(new)
                } else {
                    match delivery {
                        DeliveryGuarantee::Unreliable => match ordering {
                            OrderingGuarantee::Sequenced(_) => {
                                &&& new.acks() == self.acks()
                                &&& self.sequenced_effect(
                                    new,
                                    addr,
                                    data,
                                    5,
                                    DeliveryGuarantee::Unreliable,
                                    packet_type,
                                    result,
                                )
                            },
                            _ => {
                                &&& result == Ok::<Seq<Received>, ErrorKind>(
                                    seq![
                                        (
                                            addr,
                                            data.subrange(5, data.len() as int),
                                            DeliveryGuarantee::Unreliable,
                                            ordering,
                                            packet_type,
                                        ),
                                    ],
                                )
                                &&& self.same_streams(new)
                            },
                        },
                        DeliveryGuarantee::Reliable => if packet_type == PacketType::Fragment {
                            self.fragment_effect(new, addr, data, ordering, acks_with_whole_packet, result)
                        } else if data.len() < 13 {
                            &&& result == Err::<Seq<Received>, ErrorKind>(ErrorKind::CouldNotReadHeader)
                            &&& self.same_streams(new)
                        } else {
                            let (remote_seq, ack_seq, ack_field) = decode_acked_header(data, 5);
                            &&& acks_received(self.acks(), new.acks(), remote_seq, ack_seq, ack_field)
                            &&& match ordering {
                                OrderingGuarantee::Sequenced(_) => self.sequenced_effect(
                                    new,
                                    addr,
                                    data,
                                    13,
                                    DeliveryGuarantee::Reliable,
                                    packet_type,
                                    result,
                                ),
                                OrderingGuarantee::Ordered(_) => self.ordered_effect(
                                    new,
                                    addr,
                                    data,
                                    packet_type,
                                    result,
                                ),
                                OrderingGuarantee::Unordered => {
                                    &&& result == Ok::<Seq<Received>, ErrorKind>(
                                        seq![
                                            (
                                                addr,
                                                data.subrange(13, data.len() as int),
                                                DeliveryGuarantee::Reliable,
                                                OrderingGuarantee::Unordered,
                                                packet_type,
                                            ),
                                        ],
                                    )
                                    &&& new.ordering() == self.ordering()
                                    &&& new.sequencing() == self.sequencing()
                                    &&& new.reassembly() == self.reassembly()
                                    &&& new.reassembly_mark() == self.reassembly_mark()
                                },
                            }
                        },
                    }
                },
            }
        }
    }

    /// What processing an outgoing packet does: the packets it yields and the state it leaves.
    pub open spec fn outgoing_effect(
        &self,
        new: &ReliabilitySystem,
        packet_type: PacketType,
        payload: Seq<u8>,
        delivery: DeliveryGuarantee,
        ordering: OrderingGuarantee,
        last_item_identifier: Option<u16>,
        result: Result<Seq<Seq<u8>>, ErrorKind>,
    ) -> bool {
        let config = self.spec_config();
        match outgoing_error(config, packet_type, payload.len(), delivery) {
            Some(e) => {
                &&& result == Err::<Seq<Seq<u8>>, ErrorKind>(e)
                &&& new.acks() == self.acks()
                &&& new.ordering() == self.ordering()
                &&& new.sequencing() == self.sequencing()
            },
            None => match delivery {
                DeliveryGuarantee::Unreliable => {
                    &&& result == Ok::<Seq<Seq<u8>>, ErrorKind>(seq![self.unreliable_bytes(packet_type, payload, ordering)])
                    &&& new.acks() == self.acks()
                    &&& new.ordering() == self.ordering()
                    &&& new.sequencing() == self.sequencing_after(ordering)
                },
                DeliveryGuarantee::Reliable => if !is_fragmented(config, payload.len()) {
                    let fresh = last_item_identifier is None;
                    let item = match ordering {
                        OrderingGuarantee::Unordered => None,
                        _ => Some(chosen_identifier(last_item_identifier, self.stream_counter(ordering))),
                    };
                    &&& result == Ok::<Seq<Seq<u8>>, ErrorKind>(
                        seq![self.reliable_bytes(packet_type, payload, ordering, last_item_identifier)],
                    )
                    &&& records_sent(self.acks(), new.acks(), packet_type, payload, ordering, item)
                    &&& new.ordering() == if fresh { self.ordering_after(ordering) } else { self.ordering() }
                    &&& new.sequencing() == if fresh { self.sequencing_after(ordering) } else { self.sequencing() }
                } else {
                    &&& result == Ok::<Seq<Seq<u8>>, ErrorKind>(self.fragments_bytes(payload, ordering))
                    &&& records_sent(self.acks(), new.acks(), packet_type, payload, ordering, None)
                    &&& new.ordering() == self.ordering()
                    &&& new.sequencing() == self.sequencing()
                },
            },
        }
    }

    /// Constructs outgoing packet(s) from dropped packet.
    pub fn process_dropped<'a>(&mut self, packet: &'a SentPacket, time: u64) -> (result: Result<OutgoingPackets<'a>, ErrorKind>)
        requires
            old(self).wf(),
            fragmentation_defined(old(self).spec_config(), packet.packet_type, packet.payload@.len(), DeliveryGuarantee::Reliable),
        ensures
            old(self).same_timing(&*final(self)),
            old(self).outgoing_effect(
                &*final(self),
                packet.packet_type,
                packet.payload@,
                DeliveryGuarantee::Reliable,
                packet.ordering_guarantee,
                packet.item_identifier,
                outgoing_view(result),
            ),
    {
        self.process_outgoing_impl(
            GenericPacket {
                packet_type: packet.packet_type,
                payload: packet.payload.as_slice(),
                // Because a delivery guarantee is only sent with reliable packets
                delivery: DeliveryGuarantee::Reliable,
                // This is stored with the dropped packet because they could be mixed
                ordering: packet.ordering_guarantee,
            },
            packet.item_identifier,
            time,
        )
    }

    /// Constructs outgoing packet(s) with provided reliability information, for sending over the network.
    pub fn process_outgoing<'a>(&mut self, packet: GenericPacket<'a>, time: u64) -> (result: Result<OutgoingPackets<'a>, ErrorKind>)
        requires
            old(self).wf(),
            fragmentation_defined(old(self).spec_config(), packet.packet_type, packet.payload@.len(), packet.delivery),
        ensures
            final(self).wf(),
            final(self).spec_last_sent() == time,
            final(self).spec_last_heard() == old(self).spec_last_heard(),
            final(self).spec_config() == old(self).spec_config(),
            final(self).reassembly() == old(self).reassembly(),
            final(self).reassembly_mark() == old(self).reassembly_mark(),
            old(self).outgoing_effect(
                &*final(self),
                packet.packet_type,
                packet.payload@,
                packet.delivery,
                packet.ordering,
                None,
                outgoing_view(result),
            ),
    {
        self.send(packet, None, time)
    }

    /// Constructs outgoing packet(s) as `process_outgoing` does; a resent ordered or sequenced
    /// packet keeps `last_item_identifier`.
    pub(crate) fn send<'a>(
        &mut self,
        packet: GenericPacket<'a>,
        last_item_identifier: Option<SequenceNumber>,
        time: u64,
    ) -> (result: Result<OutgoingPackets<'a>, ErrorKind>)
        requires
            old(self).wf(),
            fragmentation_defined(old(self).spec_config(), packet.packet_type, packet.payload@.len(), packet.delivery),
        ensures
            final(self).wf(),
            final(self).spec_last_sent() == time,
            final(self).spec_last_heard() == old(self).spec_last_heard(),
            final(self).spec_config() == old(self).spec_config(),
            final(self).reassembly() == old(self).reassembly(),
            final(self).reassembly_mark() == old(self).reassembly_mark(),
            old(self).outgoing_effect(
                &*final(self),
                packet.packet_type,
                packet.payload@,
                packet.delivery,
                packet.ordering,
                last_item_identifier,
                outgoing_view(result),
            ),
    {
        self.last_sent = time;
        self.process_outgoing_impl(packet, last_item_identifier, time)
    }

    fn process_outgoing_impl<'a>(
        &mut self,
        packet: GenericPacket<'a>,
        last_item_identifier: Option<SequenceNumber>,
        time: u64,
    ) -> (result: Result<OutgoingPackets<'a>, ErrorKind>)
        requires
            old(self).wf(),
            fragmentation_defined(old(self).spec_config(), packet.packet_type, packet.payload@.len(), packet.delivery),
        ensures
            old(self).same_timing(&*final(self)),
            old(self).outgoing_effect(
                &*final(self),
                packet.packet_type,
                packet.payload@,
                packet.delivery,
                packet.ordering,
                last_item_identifier,
                outgoing_view(result),
            ),
    {
        match packet.delivery {
            DeliveryGuarantee::Unreliable => {
                if packet.payload.len() <= self.config.receive_buffer_max_size {
                    let mut builder = OutgoingPacketBuilder::new(packet.payload).with_default_header(
                        packet.packet_type,
                        packet.delivery,
                        packet.ordering,
                    );

                    if let OrderingGuarantee::Sequenced(stream_id) = packet.ordering {
                        let stream = match stream_id {
                            Some(id) => id,
                            None => DEFAULT_SEQUENCING_STREAM,
                        };
                        let item_identifier = self.sequencing_system.new_item_identifier(stream);

                        builder = builder.with_sequencing_header(item_identifier as u16, stream_id);
                    }
                    let built = builder.build();
                    let result = OutgoingPackets::one(built);
                    proof {
                        assert(result.packet_bytes() =~= seq![old(self).unreliable_bytes(packet.packet_type, packet.payload@, packet.ordering)]);
                    }
                    Ok(result)
                } else {
                    Err(ErrorKind::PacketError(PacketErrorKind::ExceededMaxPacketSize))
                }
            },
            DeliveryGuarantee::Reliable => {
                let payload_length = packet.payload.len() as u16;
                proof {
                    crate::infrastructure::fragmentation::lemma_truncate_to_u16(packet.payload.len());
                }

                let mut item_identifier_value: Option<u16> = None;
                let local = self.acknowledge_handler.local_sequence_num();
                let remote = self.acknowledge_handler.remote_sequence_num();
                let bits = self.acknowledge_handler.ack_bitfield();
                let outgoing = if payload_length <= self.config.fragment_size {
                    let mut builder = OutgoingPacketBuilder::new(packet.payload).with_default_header(
                        packet.packet_type,
                        packet.delivery,
                        packet.ordering,
                    );

                    builder = builder.with_acknowledgment_header(local, remote, bits);

                    if let OrderingGuarantee::Ordered(stream_id) = packet.ordering {
                        let item_identifier = if let Some(item_identifier) = last_item_identifier {
                            item_identifier
                        } else {
                            let stream = match stream_id {
                                Some(id) => id,
                                None => DEFAULT_ORDERING_STREAM,
                            };
                            self.ordering_system.new_item_identifier(stream)
                        };

                        item_identifier_value = Some(item_identifier);

                        builder = builder.with_ordering_header(item_identifier, stream_id);
                    };

                    if let OrderingGuarantee::Sequenced(stream_id) = packet.ordering {
                        let item_identifier = if let Some(item_identifier) = last_item_identifier {
                            item_identifier
                        } else {
                            let stream = match stream_id {
                                Some(id) => id,
                                None => DEFAULT_SEQUENCING_STREAM,
                            };
                            self.sequencing_system.new_item_identifier(stream)
                        };

                        item_identifier_value = Some(item_identifier);

                        builder = builder.with_sequencing_header(item_identifier, stream_id);
                    };

                    let result = OutgoingPackets::one(builder.build());
                    proof {
                        assert(result.packet_bytes() =~= seq![old(self).reliable_bytes(packet.packet_type, packet.payload@, packet.ordering, last_item_identifier)]);
                    }
                    result
                } else {
                    if packet.packet_type != PacketType::Packet {
                        return Err(ErrorKind::PacketError(PacketErrorKind::PacketTypeCannotBeFragmented));
                    }
                    let fragments = match Fragmentation::spit_into_fragments(packet.payload, &self.config) {
                        Ok(fragments) => fragments,
                        Err(e) => {
                            return Err(e);
                        },
                    };
                    let fragments_needed = Fragmentation::fragments_needed(
                        payload_length,
                        self.config.fragment_size,
                    ) as u8;
                    proof {
                        crate::infrastructure::fragmentation::lemma_truncate_to_u8(
                            crate::infrastructure::fragmentation::spec_fragments_needed(payload_length, self.config.fragment_size),
                        );
                    }
                    let ghost expected = old(self).fragments_bytes(packet.payload@, packet.ordering);
                    let mut list: VecDeque<OutgoingPacket<'a>> = VecDeque::new();
                    let mut fragment_id: usize = 0;
                    while fragment_id < fragments.len()
                        invariant
                            fragment_id <= fragments.len(),
                            packet.delivery == DeliveryGuarantee::Reliable,
                            expected == old(self).fragments_bytes(packet.payload@, packet.ordering),
                            fragments.len() == expected.len(),
                            fragments.len() <= 255,
                            fragments_needed == fragment_count(packet.payload@.len(), old(self).spec_config().fragment_size),
                            local == old(self).acks().spec_local_sequence_num(),
                            remote == old(self).acks().spec_their_acks().last_seq,
                            bits == old(self).acks().spec_their_acks().field,
                            forall|i: int| 0 <= i < fragments.len() ==> #[trigger] fragments[i]@ == fragment_of(
                                packet.payload@,
                                old(self).spec_config().fragment_size,
                                i,
                            ),
                            list@.len() == fragment_id,
                            forall|i: int| 0 <= i < fragment_id ==> #[trigger] list@[i].bytes() == expected[i],
                        decreases fragments.len() - fragment_id,
                    {
                        let mut builder = OutgoingPacketBuilder::new(fragments[fragment_id]).with_default_header(
                            PacketType::Fragment,
                            packet.delivery,
                            packet.ordering,
                        );

                        builder = builder.with_fragment_header(local, fragment_id as u8, fragments_needed);
                        if fragment_id == 0 {
                            builder = builder.with_acknowledgment_header(local, remote, bits);
                        }
                        let built = builder.build();
                        proof {
                            let i = fragment_id as int;
                            assert(expected[i] == fragment_packet_bytes(
                                DeliveryGuarantee::Reliable,
                                packet.ordering,
                                local,
                                remote,
                                bits,
                                packet.payload@,
                                old(self).spec_config(),
                                i,
                            ));
                            assert(fragment_id as u8 == i as u8);
                            assert(built.bytes() =~= expected[i]);
                        }
                        list.push_back(built);
                        fragment_id = fragment_id + 1;
                    }
                    let result = OutgoingPackets::many(list);
                    proof {
                        assert(result.packet_bytes() =~= expected);
                    }
                    result
                };

                let ghost before = self.acknowledge_handler;
                self.acknowledge_handler.process_outgoing(
                    packet.packet_type,
                    packet.payload,
                    packet.ordering,
                    item_identifier_value,
                );
                proof {
                    let in_flight = self.acknowledge_handler.spec_in_flight();
                    assert forall|k: u16| #[trigger] in_flight.contains_key(k) implies resendable(
                        self.config,
                        in_flight[k],
                    ) by {
                        if k != before.spec_local_sequence_num() {
                            assert(before.spec_in_flight().contains_key(k));
                        }
                    }
                }

                Ok(outgoing)
            },
        }
    }

    /// Processes data received from `addr`: records when the other side was last heard from,
    /// reads the headers, updates the acknowledgement, arranging and reassembly state, and
    /// hands out the packets that are ready.
    pub fn process_incoming(&mut self, addr: SocketAddress, received_data: &[u8], time: u64) -> (result:
        Result<IncomingPackets, ErrorKind>)
        requires
            old(self).wf(),
            reaches_reassembly(received_data@) ==> old(self).reassembly().len() > 0,
        ensures
            final(self).wf(),
            final(self).spec_last_heard() == time,
            final(self).spec_last_sent() == old(self).spec_last_sent(),
            final(self).spec_config() == old(self).spec_config(),
            old(self).incoming_effect(&*final(self), addr, received_data@, false, incoming_view(result)),
    {
        self.receive(addr, received_data, time, false)
    }

    /// Processes received data as `process_incoming` does; `acks_with_whole_packet` says
    /// whether the acknowledgement header of a first fragment is processed at once or when
    /// its packet is complete.
    pub(crate) fn receive(
        &mut self,
        addr: SocketAddress,
        received_data: &[u8],
        time: u64,
        acks_with_whole_packet: bool,
    ) -> (result: Result<IncomingPackets, ErrorKind>)
        requires
            old(self).wf(),
            reaches_reassembly(received_data@) ==> old(self).reassembly().len() > 0,
        ensures
            final(self).wf(),
            final(self).spec_last_heard() == time,
            final(self).spec_last_sent() == old(self).spec_last_sent(),
            final(self).spec_config() == old(self).spec_config(),
            old(self).incoming_effect(
                &*final(self),
                addr,
                received_data@,
                acks_with_whole_packet,
                incoming_view(result),
            ),
    {
        self.last_heard = time;
        let mut packet_reader = PacketReader::new(received_data);

        let header = match packet_reader.read_standard_header() {
            Ok(header) => header,
            Err(e) => {
                return Err(e);
            },
        };

        if !header.is_current_protocol() {
            return Err(ErrorKind::ProtocolVersionMismatch);
        }

        if header.packet_type() == PacketType::Heartbeat {
            // Heartbeat packets are unreliable, unordered and empty packets.
            // We already updated our `self.last_heard` time, nothing else to be done.
            let result = IncomingPackets::zero();
            proof {
                assert(result.contents() =~= Seq::<Received>::empty());
            }
            return Ok(result);
        }

        match header.delivery_guarantee() {
            DeliveryGuarantee::Unreliable => {
                if let OrderingGuarantee::Sequenced(_id) = header.ordering_guarantee() {
                    let arranging_header = match packet_reader.read_arranging_header(
                        STANDARD_HEADER_SIZE as u16,
                    ) {
                        Ok(arranging_header) => arranging_header,
                        Err(e) => {
                            return Err(e);
                        },
                    };

                    let payload = packet_reader.read_payload();
                    let stream_id = arranging_header.stream_id();

                    if let Some(packet) = self.sequencing_system.arrange(
                        stream_id,
                        arranging_header.arranging_id(),
                        payload,
                    ) {
                        let result = IncomingPackets::one(
                            Packet::new(
                                addr,
                                packet,
                                header.delivery_guarantee(),
                                OrderingGuarantee::Sequenced(Some(stream_id)),
                            ),
                            header.packet_type(),
                        );
                        proof {
                            assert(result.contents() =~= seq![
                                (
                                    addr,
                                    received_data@.subrange(8, received_data@.len() as int),
                                    DeliveryGuarantee::Unreliable,
                                    OrderingGuarantee::Sequenced(Some(stream_id)),
                                    header.spec_packet_type(),
                                ),
                            ]);
                        }
                        return Ok(result);
                    }

                    let result = IncomingPackets::zero();
                    proof {
                        assert(result.contents() =~= Seq::<Received>::empty());
                    }
                    return Ok(result);
                }

                let result = IncomingPackets::one(
                    Packet::new(
                        addr,
                        packet_reader.read_payload(),
                        header.delivery_guarantee(),
                        header.ordering_guarantee(),
                    ),
                    header.packet_type(),
                );
                proof {
                    assert(result.contents() =~= seq![
                        (
                            addr,
                            received_data@.subrange(5, received_data@.len() as int),
                            DeliveryGuarantee::Unreliable,
                            header.spec_ordering_guarantee(),
                            header.spec_packet_type(),
                        ),
                    ]);
                }
                return Ok(result);
            },
            DeliveryGuarantee::Reliable => {
                if header.packet_type() == PacketType::Fragment {
                    if let Ok((fragment_header, acked_header)) = packet_reader.read_fragment() {
                        let payload = packet_reader.read_payload();

                        let kept = if acks_with_whole_packet {
                            acked_header
                        } else {
                            if let Some(acked_header) = acked_header {
                                self.take_acks(
                                    acked_header.sequence(),
                                    acked_header.ack_seq(),
                                    acked_header.ack_field(),
                                );
                            }
                            None
                        };

                        match self.fragmentation.handle_fragment(fragment_header, payload.as_slice(), kept) {
                            Ok(Some((payload, stored))) => {
                                let ordering = if acks_with_whole_packet {
                                    match stored {
                                        Some(acked_header) => {
                                            self.take_acks(
                                                acked_header.sequence(),
                                                acked_header.ack_seq(),
                                                acked_header.ack_field(),
                                            );
                                        },
                                        None => {
                                            return Err(
                                                ErrorKind::FragmentError(
                                                    FragmentErrorKind::PacketHeaderNotFound,
                                                ),
                                            );
                                        },
                                    }
                                    header.ordering_guarantee()
                                } else {
                                    OrderingGuarantee::Unordered
                                };
                                let result = IncomingPackets::one(
                                    Packet::new(addr, payload, header.delivery_guarantee(), ordering),
                                    // change to `Packet`, because we do inverse action in `process_outgoing`.
                                    PacketType::Packet,
                                );
                                proof {
                                    assert(result.contents() =~= seq![
                                        (
                                            addr,
                                            payload@,
                                            DeliveryGuarantee::Reliable,
                                            ordering,
                                            PacketType::Packet,
                                        ),
                                    ]);
                                }
                                return Ok(result);
                            },
                            Ok(None) => {
                                let result = IncomingPackets::zero();
                                proof {
                                    assert(result.contents() =~= Seq::<Received>::empty());
                                }
                                return Ok(result);
                            },
                            Err(e) => {
                                return Err(e);
                            },
                        };
                    }
                } else {
                    let acked_header = match packet_reader.read_acknowledge_header() {
                        Ok(acked_header) => acked_header,
                        Err(e) => {
                            return Err(e);
                        },
                    };

                    self.take_acks(
                        acked_header.sequence(),
                        acked_header.ack_seq(),
                        acked_header.ack_field(),
                    );

                    if let OrderingGuarantee::Sequenced(_) = header.ordering_guarantee() {
                        let arranging_header = match packet_reader.read_arranging_header(
                            (STANDARD_HEADER_SIZE + ACKED_PACKET_HEADER) as u16,
                        ) {
                            Ok(arranging_header) => arranging_header,
                            Err(e) => {
                                return Err(e);
                            },
                        };

                        let payload = packet_reader.read_payload();
                        let stream_id = arranging_header.stream_id();

                        if let Some(packet) = self.sequencing_system.arrange(
                            stream_id,
                            arranging_header.arranging_id(),
                            payload,
                        ) {
                            let result = IncomingPackets::one(
                                Packet::new(
                                    addr,
                                    packet,
                                    header.delivery_guarantee(),
                                    OrderingGuarantee::Sequenced(Some(stream_id)),
                                ),
                                header.packet_type(),
                            );
                            proof {
                                assert(result.contents() =~= seq![
                                    (
                                        addr,
                                        received_data@.subrange(16, received_data@.len() as int),
                                        DeliveryGuarantee::Reliable,
                                        OrderingGuarantee::Sequenced(Some(stream_id)),
                                        header.spec_packet_type(),
                                    ),
                                ]);
                            }
                            return Ok(result);
                        }
                    } else if let OrderingGuarantee::Ordered(_id) = header.ordering_guarantee() {
                        let arranging_header = match packet_reader.read_arranging_header(
                            (STANDARD_HEADER_SIZE + ACKED_PACKET_HEADER) as u16,
                        ) {
                            Ok(arranging_header) => arranging_header,
                            Err(e) => {
                                return Err(e);
                            },
                        };

                        let payload = packet_reader.read_payload();
                        let stream_id = arranging_header.stream_id();
                        let packet_type = header.packet_type();

                        let arranged = self.ordering_system.arrange(
                            stream_id,
                            arranging_header.arranging_id(),
                            (payload, packet_type),
                        );
                        let ghost arranged_view = arranged@.map_values(|v: (Vec<u8>, PacketType)| v@);
                        let ghost handed_out = arranged_view.map_values(
                            |item: (Seq<u8>, PacketType)|
                                (
                                    addr,
                                    item.0,
                                    DeliveryGuarantee::Reliable,
                                    OrderingGuarantee::Ordered(Some(stream_id)),
                                    item.1,
                                ),
                        );
                        let mut packets: VecDeque<(Packet, PacketType)> = VecDeque::new();
                        for item in it: arranged
                            invariant
                                it.seq() == arranged@,
                                arranged_view == arranged@.map_values(|v: (Vec<u8>, PacketType)| v@),
                                handed_out == arranged_view.map_values(
                                    |item: (Seq<u8>, PacketType)|
                                        (
                                            addr,
                                            item.0,
                                            DeliveryGuarantee::Reliable,
                                            OrderingGuarantee::Ordered(Some(stream_id)),
                                            item.1,
                                        ),
                                ),
                                packets@.map_values(|e: (Packet, PacketType)| received_view(e))
                                    == handed_out.take(it.index()),
                        {
                            let ghost done = packets@.map_values(|e: (Packet, PacketType)| received_view(e));
                            let ghost i = it.index();
                            proof {
                                assert(item == arranged@[i]);
                                assert(arranged_view[i] == item@);
                                assert(handed_out[i] == (
                                    addr,
                                    item.0@,
                                    DeliveryGuarantee::Reliable,
                                    OrderingGuarantee::Ordered(Some(stream_id)),
                                    item.1,
                                ));
                            }
                            let (item_payload, item_type) = item;
                            packets.push_back(
                                (
                                    Packet::new(
                                        addr,
                                        item_payload,
                                        DeliveryGuarantee::Reliable,
                                        OrderingGuarantee::Ordered(Some(stream_id)),
                                    ),
                                    item_type,
                                ),
                            );
                            proof {
                                assert(packets@.map_values(|e: (Packet, PacketType)| received_view(e))
                                    =~= done.push(handed_out[i]));
                                assert(handed_out.take(i + 1) =~= handed_out.take(i).push(handed_out[i]));
                            }
                        }
                        let result = IncomingPackets::many(packets);
                        proof {
                            assert(result.contents() =~= handed_out);
                        }
                        return Ok(result);
                    } else {
                        let payload = packet_reader.read_payload();
                        let result = IncomingPackets::one(
                            Packet::new(
                                addr,
                                payload,
                                header.delivery_guarantee(),
                                header.ordering_guarantee(),
                            ),
                            header.packet_type(),
                        );
                        proof {
                            assert(result.contents() =~= seq![
                                (
                                    addr,
                                    received_data@.subrange(13, received_data@.len() as int),
                                    DeliveryGuarantee::Reliable,
                                    OrderingGuarantee::Unordered,
                                    header.spec_packet_type(),
                                ),
                            ]);
                        }
                        return Ok(result);
                    }
                }
            },
        }

        let result = IncomingPackets::zero();
        proof {
            assert(result.contents() =~= Seq::<Received>::empty());
        }
        Ok(result)
    }

    /// This will gather dropped packets from the acknowledgment handler.
    ///
    /// Note that after requesting dropped packets the dropped packets will be removed from this client.
    pub fn gather_dropped_packets(&mut self) -> (dropped: Vec<SentPacket>)
        requires
            old(self).wf(),
        ensures
            dropped@ == old(self).acks().spec_dropped(),
            forall|i: int| 0 <= i < dropped@.len() ==> resendable(old(self).spec_config(), #[trigger] dropped@[i]),
            final(self).acks().spec_dropped() == Seq::<SentPacket>::empty(),
            final(self).acks().spec_local_sequence_num() == old(self).acks().spec_local_sequence_num(),
            final(self).acks().spec_their_acks() == old(self).acks().spec_their_acks(),
            final(self).acks().spec_in_flight() == old(self).acks().spec_in_flight(),
            final(self).wf(),
            final(self).spec_last_heard() == old(self).spec_last_heard(),
            final(self).spec_last_sent() == old(self).spec_last_sent(),
            final(self).spec_config() == old(self).spec_config(),
            final(self).ordering() == old(self).ordering(),
            final(self).sequencing() == old(self).sequencing(),
            final(self).reassembly() == old(self).reassembly(),
            final(self).reassembly_mark() == old(self).reassembly_mark(),
    {
        self.acknowledge_handler.dropped_packets()
    }
}

/// An unreliable packet reads back as itself: a receiver hands out its payload with its
/// delivery guarantee, ordering and packet type, a sequenced one as far as the receiver's
/// stream lets it through. The ordering guarantee's stream is written only for a sequenced
/// packet.
pub proof fn lemma_unreliable_packet_round_trip(
    sender: ReliabilitySystem,
    receiver: ReliabilitySystem,
    new_receiver: ReliabilitySystem,
    addr: SocketAddress,
    packet_type: PacketType,
    payload: Seq<u8>,
    ordering: OrderingGuarantee,
    acks_with_whole_packet: bool,
    result: Result<Seq<Received>, ErrorKind>,
)
    requires
        packet_type != PacketType::Heartbeat,
        receiver.incoming_effect(
            &new_receiver,
            addr,
            sender.unreliable_bytes(packet_type, payload, ordering),
            acks_with_whole_packet,
            result,
        ),
    ensures
        result == Ok::<Seq<Received>, ErrorKind>(
            match ordering {
                OrderingGuarantee::Sequenced(_) => {
                    let stream = arranging_stream(ordering);
                    if sequencing_stream(receiver.sequencing(), stream).lets_through(
                        sender.stream_counter(ordering),
                    ) {
                        seq![
                            (
                                addr,
                                payload,
                                DeliveryGuarantee::Unreliable,
                                OrderingGuarantee::Sequenced(Some(stream)),
                                packet_type,
                            ),
                        ]
                    } else {
                        Seq::empty()
                    }
                },
                _ => seq![(addr, payload, DeliveryGuarantee::Unreliable, ordering.unnamed(), packet_type)],
            },
        ),
{
    let header = std_header(packet_type, DeliveryGuarantee::Unreliable, ordering);
    let arranging = match ordering {
        OrderingGuarantee::Sequenced(_) => arranging_header_bytes(
            sender.stream_counter(ordering),
            arranging_stream(ordering),
        ),
        _ => Seq::empty(),
    };
    let bytes = sender.unreliable_bytes(packet_type, payload, ordering);
    assert(bytes =~= Seq::<u8>::empty() + header + (arranging + payload));
    lemma_standard_header_round_trip(
        protocol_crc16(),
        packet_type,
        DeliveryGuarantee::Unreliable,
        ordering,
        Seq::empty(),
        arranging + payload,
    );
    if ordering is Sequenced {
        assert(bytes =~= header + arranging + payload);
        lemma_arranging_header_round_trip(
            sender.stream_counter(ordering),
            arranging_stream(ordering),
            header,
            payload,
        );
        assert(bytes.subrange(8, bytes.len() as int) =~= payload);
    } else {
        assert(bytes.subrange(5, bytes.len() as int) =~= payload);
    }
}

/// A reliable packet sent alone reads back as itself: a receiver records the acknowledgement
/// information it carries and hands out its payload, an unordered one at once, a sequenced
/// one as far as its stream lets it through, and an ordered one in its turn, together with
/// those that waited for it.
pub proof fn lemma_reliable_packet_round_trip(
    sender: ReliabilitySystem,
    receiver: ReliabilitySystem,
    new_receiver: ReliabilitySystem,
    addr: SocketAddress,
    payload: Seq<u8>,
    ordering: OrderingGuarantee,
    last_item_identifier: Option<u16>,
    acks_with_whole_packet: bool,
    result: Result<Seq<Received>, ErrorKind>,
)
    requires
        receiver.incoming_effect(
            &new_receiver,
            addr,
            sender.reliable_bytes(PacketType::Packet, payload, ordering, last_item_identifier),
            acks_with_whole_packet,
            result,
        ),
    ensures
        acks_received(
            receiver.acks(),
            new_receiver.acks(),
            sender.acks().spec_local_sequence_num(),
            sender.acks().spec_their_acks().last_seq,
            sender.acks().spec_their_acks().field,
        ),
        result == Ok::<Seq<Received>, ErrorKind>(
            {
                let stream = arranging_stream(ordering);
                let id = chosen_identifier(last_item_identifier, sender.stream_counter(ordering));
                match ordering {
                    OrderingGuarantee::Unordered => seq![
                        (
                            addr,
                            payload,
                            DeliveryGuarantee::Reliable,
                            OrderingGuarantee::Unordered,
                            PacketType::Packet,
                        ),
                    ],
                    OrderingGuarantee::Sequenced(_) => if sequencing_stream(
                        receiver.sequencing(),
                        stream,
                    ).lets_through(id) {
                        seq![
                            (
                                addr,
                                payload,
                                DeliveryGuarantee::Reliable,
                                OrderingGuarantee::Sequenced(Some(stream)),
                                PacketType::Packet,
                            ),
                        ]
                    } else {
                        Seq::empty()
                    },
                    OrderingGuarantee::Ordered(_) => {
                        let arrival = ordered_arrival(
                            ordering_stream(receiver.ordering(), stream),
                            id,
                            (payload, PacketType::Packet),
                        );
                        (option_items(arrival.0) + ready_items(arrival.1).0).map_values(
                            |item: (Seq<u8>, PacketType)|
                                (
                                    addr,
                                    item.0,
                                    DeliveryGuarantee::Reliable,
                                    OrderingGuarantee::Ordered(Some(stream)),
                                    item.1,
                                ),
                        )
                    },
                }
            },
        ),
{
    let acks = sender.acks();
    let header = std_header(PacketType::Packet, DeliveryGuarantee::Reliable, ordering);
    let acked = acked_header_bytes(
        acks.spec_local_sequence_num(),
        acks.spec_their_acks().last_seq,
        acks.spec_their_acks().field,
    );
    let id = chosen_identifier(last_item_identifier, sender.stream_counter(ordering));
    let arranging = reliable_arranging_bytes(ordering, id);
    let bytes = sender.reliable_bytes(PacketType::Packet, payload, ordering, last_item_identifier);
    assert(bytes =~= Seq::<u8>::empty() + header + (acked + arranging + payload));
    lemma_standard_header_round_trip(
        protocol_crc16(),
        PacketType::Packet,
        DeliveryGuarantee::Reliable,
        ordering,
        Seq::empty(),
        acked + arranging + payload,
    );
    assert(bytes =~= header + acked + (arranging + payload));
    lemma_acked_header_round_trip(
        acks.spec_local_sequence_num(),
        acks.spec_their_acks().last_seq,
        acks.spec_their_acks().field,
        header,
        arranging + payload,
    );
    match ordering {
        OrderingGuarantee::Unordered => {
            assert(bytes.subrange(13, bytes.len() as int) =~= payload);
        },
        _ => {
            assert(bytes =~= (header + acked) + arranging + payload);
            lemma_arranging_header_round_trip(id, arranging_stream(ordering), header + acked, payload);
            assert(bytes.subrange(16, bytes.len() as int) =~= payload);
        },
    }
}

/// How fragment `i` of a packet sent in fragments reads back: its fragment header, the
/// acknowledgement header the first one carries, and its piece of the payload.
proof fn lemma_fragment_reads_back(sender: ReliabilitySystem, payload: Seq<u8>, ordering: OrderingGuarantee, i: int)
    requires
        0 < payload.len() <= u16::MAX,
        sender.spec_config().fragment_size > 0,
        spec_fragments_needed(payload.len() as u16, sender.spec_config().fragment_size) <= 16,
        0 <= i < sender.fragments_bytes(payload, ordering).len(),
    ensures
        ({
            let data = sender.fragments_bytes(payload, ordering)[i];
            let acks = sender.acks();
            let count = sender.fragments_bytes(payload, ordering).len();
            &&& decode_standard_header(data, 0) == Ok::<
                (u16, PacketType, DeliveryGuarantee, OrderingGuarantee),
                ErrorKind,
            >((protocol_crc16(), PacketType::Fragment, DeliveryGuarantee::Reliable, ordering.unnamed()))
            &&& data.len() >= 9
            &&& decode_fragment_header(data, 5) == (acks.spec_local_sequence_num(), i as u8, count as u8)
            &&& i == 0 ==> data.len() >= 17 && decode_acked_header(data, 9) == (
                acks.spec_local_sequence_num(),
                acks.spec_their_acks().last_seq,
                acks.spec_their_acks().field,
            )
            &&& data.subrange(if i == 0 { 17 } else { 9 }, data.len() as int) == fragment_of(
                payload,
                sender.spec_config().fragment_size,
                i,
            )
        }),
{
    let config = sender.spec_config();
    let acks = sender.acks();
    let count = fragment_count(payload.len(), config.fragment_size);
    assert(wire_length(payload.len()) as int == payload.len());
    assert(count as int == spec_fragments_needed(payload.len() as u16, config.fragment_size));
    let data = sender.fragments_bytes(payload, ordering)[i];
    let header = std_header(PacketType::Fragment, DeliveryGuarantee::Reliable, ordering);
    let fragment = fragment_header_bytes(acks.spec_local_sequence_num(), i as u8, count);
    let acked = if i == 0 {
        acked_header_bytes(acks.spec_local_sequence_num(), acks.spec_their_acks().last_seq, acks.spec_their_acks().field)
    } else {
        Seq::empty()
    };
    let piece = fragment_of(payload, config.fragment_size, i);
    assert(data == header + fragment + acked + piece);
    assert(data =~= Seq::<u8>::empty() + header + (fragment + acked + piece));
    lemma_standard_header_round_trip(
        protocol_crc16(),
        PacketType::Fragment,
        DeliveryGuarantee::Reliable,
        ordering,
        Seq::empty(),
        fragment + acked + piece,
    );
    assert(data =~= header + fragment + (acked + piece));
    lemma_fragment_header_round_trip(acks.spec_local_sequence_num(), i as u8, count, header, acked + piece);
    if i == 0 {
        assert(data =~= (header + fragment) + acked + piece);
        lemma_acked_header_round_trip(
            acks.spec_local_sequence_num(),
            acks.spec_their_acks().last_seq,
            acks.spec_their_acks().field,
            header + fragment,
            piece,
        );
        assert(data.subrange(17, data.len() as int) =~= piece);
    } else {
        assert(data.subrange(9, data.len() as int) =~= piece);
    }
}

/// A packet sent in fragments is received whole: when a receiver gets all its fragments in
/// order and holds no part of that packet yet, every fragment but the last hands out
/// nothing and the last hands out the whole payload, as a packet of type `Packet`. The
/// payload must fit the 16 bits the protocol counts lengths in, and its fragments must be
/// no more than a reassembly record can count.
pub proof fn lemma_fragmented_packet_round_trip(
    sender: ReliabilitySystem,
    payload: Seq<u8>,
    ordering: OrderingGuarantee,
    receivers: Seq<ReliabilitySystem>,
    addr: SocketAddress,
    acks_with_whole_packet: bool,
    results: Seq<Result<Seq<Received>, ErrorKind>>,
)
    requires
        0 < payload.len() <= u16::MAX,
        sender.spec_config().fragment_size > 0,
        spec_fragments_needed(payload.len() as u16, sender.spec_config().fragment_size) <= 16,
        receivers.len() == sender.fragments_bytes(payload, ordering).len() + 1,
        results.len() == sender.fragments_bytes(payload, ordering).len(),
        forall|i: int|
            0 <= i < results.len() ==> #[trigger] receivers[i].incoming_effect(
                &receivers[i + 1],
                addr,
                sender.fragments_bytes(payload, ordering)[i],
                acks_with_whole_packet,
                results[i],
            ),
        receivers[0].reassembly().len() > 0,
        !holds(receivers[0].reassembly(), sender.acks().spec_local_sequence_num()),
        !too_old(
            receivers[0].reassembly_mark(),
            receivers[0].reassembly().len(),
            sender.acks().spec_local_sequence_num(),
        ),
    ensures
        results.len() > 0,
        forall|i: int| 0 <= i < results.len() - 1 ==> #[trigger] results[i] == Ok::<Seq<Received>, ErrorKind>(Seq::empty()),
        results[results.len() - 1] == Ok::<Seq<Received>, ErrorKind>(
            seq![
                (
                    addr,
                    payload,
                    DeliveryGuarantee::Reliable,
                    if acks_with_whole_packet { ordering.unnamed() } else { OrderingGuarantee::Unordered },
                    PacketType::Packet,
                ),
            ],
        ),
{
    let config = sender.spec_config();
    let acks = sender.acks();
    let seq = acks.spec_local_sequence_num();
    let frags = sender.fragments_bytes(payload, ordering);
    let n = frags.len();
    let size = config.fragment_size;
    crate::infrastructure::fragmentation::lemma_truncate_to_u16(payload.len() as usize);
    assert(wire_length(payload.len()) as int == payload.len());
    assert(n == spec_fragments_needed(payload.len() as u16, size));
    let len16 = wire_length(payload.len());
    assert(len16 as int == payload.len());
    crate::infrastructure::fragmentation::lemma_fragments_needed_exact(len16, size);
    assert(n >= 1) by (nonlinear_arith)
        requires
            size > 0,
            len16 > 0,
            n == len16 / size + if len16 % size > 0 { 1int } else { 0int },
    {
        if len16 / size == 0 {
            assert(len16 % size == len16);
        }
    }
    let pieces = fragment_pieces(payload, size, n);
    let acked = if acks_with_whole_packet {
        Some((seq, acks.spec_their_acks().last_seq, acks.spec_their_acks().field))
    } else {
        None
    };
    let slots = Seq::new(n + 1, |i: int| receivers[i].reassembly());
    let marks = Seq::new(n + 1, |i: int| receivers[i].reassembly_mark());
    let outcomes = Seq::new(
        n,
        |i: int| fragment_arrival(slots[i], marks[i], (seq, i as u8, n as u8), pieces[i], first_only(i, acked)).0,
    );
    assert forall|i: int| 0 <= i < n implies (outcomes[i], slots[i + 1], marks[i + 1]) == #[trigger] fragment_arrival(
        slots[i],
        marks[i],
        (seq, i as u8, n as u8),
        pieces[i],
        first_only(i, acked),
    ) && (match outcomes[i] {
        Ok(None) => results[i] == Ok::<Seq<Received>, ErrorKind>(Seq::empty()),
        Ok(Some((whole, _))) => results[i] == Ok::<Seq<Received>, ErrorKind>(
            seq![
                (
                    addr,
                    whole,
                    DeliveryGuarantee::Reliable,
                    if acks_with_whole_packet { ordering.unnamed() } else { OrderingGuarantee::Unordered },
                    PacketType::Packet,
                ),
            ],
        ) || (acks_with_whole_packet && outcomes[i] matches Ok(Some((_, None)))),
        Err(_) => true,
    }) by {
        lemma_fragment_reads_back(sender, payload, ordering, i);
        assert(receivers[i].incoming_effect(&receivers[i + 1], addr, frags[i], acks_with_whole_packet, results[i]));
    }
    lemma_fragments_reassemble_in_order(slots, marks, outcomes, seq, pieces, acked);
    lemma_fragments_join(payload, size);
    assert forall|i: int| 0 <= i < results.len() - 1 implies #[trigger] results[i] == Ok::<Seq<Received>, ErrorKind>(
        Seq::empty(),
    ) by {
        assert(outcomes[i] == Ok::<Option<(Seq<u8>, Option<(u16, u16, u32)>)>, ErrorKind>(None));
    }
    assert(outcomes[n - 1] == Ok::<Option<(Seq<u8>, Option<(u16, u16, u32)>)>, ErrorKind>(
        Some((joined(pieces), acked)),
    ));
}


/// A reliable packet sent again with the identifier `id` it had on an ordered or sequenced
/// stream, and small enough to go out whole, goes out as one datagram whose arranging
/// header carries `id`; the stream's counter does not advance, and the packet is kept in
/// flight under the current sequence number with `id`.
pub proof fn lemma_resend_keeps_identifier(
    before: ReliabilitySystem,
    after: ReliabilitySystem,
    packet_type: PacketType,
    payload: Seq<u8>,
    ordering: OrderingGuarantee,
    id: u16,
    result: Result<Seq<Seq<u8>>, ErrorKind>,
)
    requires
        before.outgoing_effect(
            &after,
            packet_type,
            payload,
            DeliveryGuarantee::Reliable,
            ordering,
            Some(id),
            result,
        ),
        wire_length(payload.len()) <= before.spec_config().fragment_size,
        !(ordering is Unordered),
    ensures
        ({
            let acks = before.acks();
            let seq = acks.spec_local_sequence_num();
            &&& result == Ok::<Seq<Seq<u8>>, ErrorKind>(
                seq![
                    std_header(packet_type, DeliveryGuarantee::Reliable, ordering) + acked_header_bytes(
                        seq,
                        acks.spec_their_acks().last_seq,
                        acks.spec_their_acks().field,
                    ) + arranging_header_bytes(id, arranging_stream(ordering)) + payload,
                ],
            )
            &&& after.ordering() == before.ordering()
            &&& after.sequencing() == before.sequencing()
            &&& after.stream_counter(ordering) == before.stream_counter(ordering)
            &&& after.acks().spec_local_sequence_num() == next_seq(seq)
            &&& after.acks().spec_in_flight().contains_key(seq)
            &&& after.acks().spec_in_flight()[seq].item_identifier == Some(id)
            &&& after.acks().spec_in_flight()[seq].payload@ == payload
            &&& after.acks().spec_in_flight()[seq].ordering_guarantee == ordering
        }),
{
}

/// Sending changes the number of reliable packets in flight by at most one: a reliable
/// packet that goes out adds one, however many fragments it takes, when its sequence number
/// is not still in flight; a refused packet and an unreliable one leave the packets in
/// flight as they were.
pub proof fn lemma_send_counts_in_flight(
    before: ReliabilitySystem,
    after: ReliabilitySystem,
    packet_type: PacketType,
    payload: Seq<u8>,
    delivery: DeliveryGuarantee,
    ordering: OrderingGuarantee,
    last_item_identifier: Option<u16>,
    result: Result<Seq<Seq<u8>>, ErrorKind>,
)
    requires
        before.outgoing_effect(&after, packet_type, payload, delivery, ordering, last_item_identifier, result),
        !before.acks().spec_in_flight().contains_key(before.acks().spec_local_sequence_num()),
    ensures
        after.acks().spec_in_flight().dom().finite(),
        result is Ok && delivery == DeliveryGuarantee::Reliable ==> after.acks().spec_in_flight().dom().len()
            == before.acks().spec_in_flight().dom().len() + 1,
        result is Err || delivery == DeliveryGuarantee::Unreliable ==> after.acks().spec_in_flight()
            == before.acks().spec_in_flight(),
{
    before.acks().lemma_in_flight_finite();
    after.acks().lemma_in_flight_finite();
    let seq = before.acks().spec_local_sequence_num();
    if result is Ok && delivery == DeliveryGuarantee::Reliable {
        assert(after.acks().spec_in_flight().dom() =~= before.acks().spec_in_flight().dom().insert(seq));
    }
}

/// The acknowledgement header of a fragmented packet may be taken with its first fragment
/// or with the whole packet; for any datagram that is not a reliable fragment, the two ways
/// of receiving are one and the same.
pub proof fn lemma_receipt_agrees_outside_fragments(
    before: ReliabilitySystem,
    after: ReliabilitySystem,
    addr: SocketAddress,
    data: Seq<u8>,
    result: Result<Seq<Received>, ErrorKind>,
)
    requires
        !is_reliable_fragment(data),
    ensures
        before.incoming_effect(&after, addr, data, true, result) == before.incoming_effect(
            &after,
            addr,
            data,
            false,
            result,
        ),
{
}

/// Reliable unordered packets sent one after another, each small enough to go out whole,
/// and received one after another in that order, each arrive once with their payload,
/// whatever their sequence numbers, also once those wrap around.
pub proof fn lemma_reliable_stream_round_trip(
    senders: Seq<ReliabilitySystem>,
    receivers: Seq<ReliabilitySystem>,
    payloads: Seq<Seq<u8>>,
    sent: Seq<Result<Seq<Seq<u8>>, ErrorKind>>,
    received: Seq<Result<Seq<Received>, ErrorKind>>,
    addr: SocketAddress,
    acks_with_whole_packet: bool,
)
    requires
        senders.len() == payloads.len() + 1,
        receivers.len() == payloads.len() + 1,
        sent.len() == payloads.len(),
        received.len() == payloads.len(),
        forall|i: int|
            0 <= i < payloads.len() ==> {
                &&& wire_length(payloads[i].len()) <= senders[i].spec_config().fragment_size
                &&& #[trigger] senders[i].outgoing_effect(
                    &senders[i + 1],
                    PacketType::Packet,
                    payloads[i],
                    DeliveryGuarantee::Reliable,
                    OrderingGuarantee::Unordered,
                    None,
                    sent[i],
                )
                &&& receivers[i].incoming_effect(
                    &receivers[i + 1],
                    addr,
                    sent[i]->Ok_0[0],
                    acks_with_whole_packet,
                    received[i],
                )
            },
    ensures
        forall|i: int|
            0 <= i < payloads.len() ==> #[trigger] received[i] == Ok::<Seq<Received>, ErrorKind>(
                seq![
                    (
                        addr,
                        payloads[i],
                        DeliveryGuarantee::Reliable,
                        OrderingGuarantee::Unordered,
                        PacketType::Packet,
                    ),
                ],
            ),
{
    assert forall|i: int| 0 <= i < payloads.len() implies #[trigger] received[i] == Ok::<Seq<Received>, ErrorKind>(
        seq![
            (
                addr,
                payloads[i],
                DeliveryGuarantee::Reliable,
                OrderingGuarantee::Unordered,
                PacketType::Packet,
            ),
        ],
    ) by {
        assert(senders[i].outgoing_effect(
            &senders[i + 1],
            PacketType::Packet,
            payloads[i],
            DeliveryGuarantee::Reliable,
            OrderingGuarantee::Unordered,
            None,
            sent[i],
        ));
        assert(sent[i]->Ok_0[0] == senders[i].reliable_bytes(PacketType::Packet, payloads[i], OrderingGuarantee::Unordered, None));
        lemma_reliable_packet_round_trip(
            senders[i],
            receivers[i],
            receivers[i + 1],
            addr,
            payloads[i],
            OrderingGuarantee::Unordered,
            None,
            acks_with_whole_packet,
            received[i],
        );
    }
}

/// Whether `data` is a reliable fragment: the one kind of datagram whose acknowledgement
/// header may be taken at two different moments.
pub open spec fn is_reliable_fragment(data: Seq<u8>) -> bool {
    data.len() >= 5 && (decode_standard_header(data, 0) matches Ok((_, packet_type, delivery, _))
        && packet_type == PacketType::Fragment && delivery == DeliveryGuarantee::Reliable)
}

/// Whether `states` is a history of receiving `frames` from `addr` one after another, with
/// `results` what each receipt gave.
pub open spec fn receipt_history(
    states: Seq<ReliabilitySystem>,
    addr: SocketAddress,
    frames: Seq<Seq<u8>>,
    acks_with_whole_packet: bool,
    results: Seq<Result<Seq<Received>, ErrorKind>>,
) -> bool {
    &&& states.len() == frames.len() + 1
    &&& results.len() == frames.len()
    &&& forall|i: int|
        0 <= i < frames.len() ==> #[trigger] states[i].incoming_effect(
            &states[i + 1],
            addr,
            frames[i],
            acks_with_whole_packet,
            results[i],
        )
}

/// Whether two systems receive alike: the same sequence numbers and acknowledgements, the
/// same packets in flight, arranging streams and reassembly slots; the packets declared lost
/// may differ.
pub open spec fn same_receiving_state(a: ReliabilitySystem, b: ReliabilitySystem) -> bool {
    &&& a.acks().spec_local_sequence_num() == b.acks().spec_local_sequence_num()
    &&& a.acks().spec_their_acks() == b.acks().spec_their_acks()
    &&& a.acks().spec_in_flight() == b.acks().spec_in_flight()
    &&& a.ordering() == b.ordering()
    &&& a.sequencing() == b.sequencing()
    &&& a.reassembly() == b.reassembly()
    &&& a.reassembly_mark() == b.reassembly_mark()
}

/// One receipt of a datagram that is not a reliable fragment, by two systems that receive
/// alike, gives the same result and leaves them receiving alike, whenever either takes the
/// acknowledgement header of a fragmented packet.
proof fn lemma_receipt_step_agrees(
    a: ReliabilitySystem,
    a_next: ReliabilitySystem,
    b: ReliabilitySystem,
    b_next: ReliabilitySystem,
    addr: SocketAddress,
    data: Seq<u8>,
    a_flag: bool,
    b_flag: bool,
    a_result: Result<Seq<Received>, ErrorKind>,
    b_result: Result<Seq<Received>, ErrorKind>,
)
    requires
        same_receiving_state(a, b),
        !is_reliable_fragment(data),
        a.incoming_effect(&a_next, addr, data, a_flag, a_result),
        b.incoming_effect(&b_next, addr, data, b_flag, b_result),
    ensures
        a_result == b_result,
        same_receiving_state(a_next, b_next),
{
}

/// A connection takes the acknowledgement header of a fragmented packet with the whole
/// packet, a reliability system with its first fragment. Fed the same datagrams, none of
/// them a reliable fragment, from states that receive alike, the two give the same result
/// for every datagram and receive alike after each.
pub proof fn lemma_receipt_histories_agree(
    with_whole_packet: Seq<ReliabilitySystem>,
    with_first_fragment: Seq<ReliabilitySystem>,
    addr: SocketAddress,
    frames: Seq<Seq<u8>>,
    whole_results: Seq<Result<Seq<Received>, ErrorKind>>,
    first_results: Seq<Result<Seq<Received>, ErrorKind>>,
)
    requires
        receipt_history(with_whole_packet, addr, frames, true, whole_results),
        receipt_history(with_first_fragment, addr, frames, false, first_results),
        same_receiving_state(with_whole_packet[0], with_first_fragment[0]),
        forall|i: int| 0 <= i < frames.len() ==> !is_reliable_fragment(#[trigger] frames[i]),
    ensures
        whole_results == first_results,
        forall|i: int|
            0 <= i <= frames.len() ==> same_receiving_state(
                #[trigger] with_whole_packet[i],
                with_first_fragment[i],
            ),
    decreases frames.len(),
{
    let n = frames.len() as int;
    if n > 0 {
        lemma_receipt_histories_agree(
            with_whole_packet.take(n),
            with_first_fragment.take(n),
            addr,
            frames.take(n - 1),
            whole_results.take(n - 1),
            first_results.take(n - 1),
        );
        assert(same_receiving_state(with_whole_packet.take(n)[n - 1], with_first_fragment.take(n)[n - 1]));
        assert(with_whole_packet[n - 1].incoming_effect(
            &with_whole_packet[n],
            addr,
            frames[n - 1],
            true,
            whole_results[n - 1],
        ));
        assert(with_first_fragment[n - 1].incoming_effect(
            &with_first_fragment[n],
            addr,
            frames[n - 1],
            false,
            first_results[n - 1],
        ));
        lemma_receipt_step_agrees(
            with_whole_packet[n - 1],
            with_whole_packet[n],
            with_first_fragment[n - 1],
            with_first_fragment[n],
            addr,
            frames[n - 1],
            true,
            false,
            whole_results[n - 1],
            first_results[n - 1],
        );
        assert forall|i: int| 0 <= i <= n implies same_receiving_state(
            #[trigger] with_whole_packet[i],
            with_first_fragment[i],
        ) by {
            if i < n {
                assert(with_whole_packet.take(n)[i] == with_whole_packet[i]);
                assert(with_first_fragment.take(n)[i] == with_first_fragment[i]);
            }
        }
        assert(whole_results =~= first_results) by {
            assert forall|i: int| 0 <= i < n implies whole_results[i] == first_results[i] by {
                if i < n - 1 {
                    assert(whole_results.take(n - 1)[i] == whole_results[i]);
                    assert(first_results.take(n - 1)[i] == first_results[i]);
                }
            }
        }
    } else {
        assert(whole_results =~= first_results);
    }
}

/// After `k` reliable packets went out, one after another, from a system with nothing in
/// flight whose next sequence number is 0, and none was acknowledged, exactly `k` packets are
/// in flight, and the system is to be dropped exactly when `k` exceeds the configured
/// limit, as long as `k` stays below 65536.
pub proof fn lemma_sends_count_towards_drop(
    states: Seq<ReliabilitySystem>,
    packet_types: Seq<PacketType>,
    payloads: Seq<Seq<u8>>,
    orderings: Seq<OrderingGuarantee>,
    results: Seq<Result<Seq<Seq<u8>>, ErrorKind>>,
)
    requires
        states.len() == payloads.len() + 1,
        packet_types.len() == payloads.len(),
        orderings.len() == payloads.len(),
        results.len() == payloads.len(),
        payloads.len() <= 65535,
        states[0].acks().spec_local_sequence_num() == 0,
        states[0].acks().spec_in_flight() == Map::<u16, SentPacket>::empty(),
        forall|i: int|
            0 <= i < payloads.len() ==> #[trigger] results[i] is Ok && states[i].outgoing_effect(
                &states[i + 1],
                packet_types[i],
                payloads[i],
                DeliveryGuarantee::Reliable,
                orderings[i],
                None,
                results[i],
            ),
    ensures
        states.last().acks().spec_in_flight().dom().len() == payloads.len(),
        states.last().spec_should_be_dropped() == (payloads.len()
            > states.last().spec_config().max_packets_in_flight),
{
    let k = payloads.len() as int;
    lemma_in_flight_below(states, packet_types, payloads, orderings, results, k);
}

/// The induction behind `lemma_sends_count_towards_drop`: after the first `j` sends, the
/// next sequence number is `j` and the packets in flight are exactly `j`, all under numbers
/// below `j`.
proof fn lemma_in_flight_below(
    states: Seq<ReliabilitySystem>,
    packet_types: Seq<PacketType>,
    payloads: Seq<Seq<u8>>,
    orderings: Seq<OrderingGuarantee>,
    results: Seq<Result<Seq<Seq<u8>>, ErrorKind>>,
    j: int,
)
    requires
        states.len() == payloads.len() + 1,
        packet_types.len() == payloads.len(),
        orderings.len() == payloads.len(),
        results.len() == payloads.len(),
        payloads.len() <= 65535,
        0 <= j <= payloads.len(),
        states[0].acks().spec_local_sequence_num() == 0,
        states[0].acks().spec_in_flight() == Map::<u16, SentPacket>::empty(),
        forall|i: int|
            0 <= i < payloads.len() ==> #[trigger] results[i] is Ok && states[i].outgoing_effect(
                &states[i + 1],
                packet_types[i],
                payloads[i],
                DeliveryGuarantee::Reliable,
                orderings[i],
                None,
                results[i],
            ),
    ensures
        states[j].acks().spec_local_sequence_num() == j,
        states[j].acks().spec_in_flight().dom().finite(),
        states[j].acks().spec_in_flight().dom().len() == j,
        forall|key: u16| #[trigger] states[j].acks().spec_in_flight().contains_key(key) ==> key < j,
    decreases j,
{
    if j == 0 {
        assert(states[0].acks().spec_in_flight().dom() =~= Set::<u16>::empty());
    } else {
        lemma_in_flight_below(states, packet_types, payloads, orderings, results, j - 1);
        let before = states[j - 1];
        let after = states[j];
        assert(results[j - 1] is Ok && before.outgoing_effect(
            &after,
            packet_types[j - 1],
            payloads[j - 1],
            DeliveryGuarantee::Reliable,
            orderings[j - 1],
            None,
            results[j - 1],
        ));
        lemma_send_counts_in_flight(
            before,
            after,
            packet_types[j - 1],
            payloads[j - 1],
            DeliveryGuarantee::Reliable,
            orderings[j - 1],
            None,
            results[j - 1],
        );
        let seq = before.acks().spec_local_sequence_num();
        assert(after.acks().spec_in_flight().dom() =~= before.acks().spec_in_flight().dom().insert(seq));
    }
}

} // verus!
