use laminar::config::Config;
use laminar::error::{DecodingErrorKind, ErrorKind};
use laminar::infrastructure::arranging::{OrderingSystem, SequencingSystem};
use laminar::infrastructure::sequence_buffer::SequenceBuffer;
use laminar::infrastructure::Fragmentation;
use laminar::net::managers::{ConnectionState, TargetHost};
use laminar::net::reliable_udp::{AckRecord, Connection};
use laminar::net::{NetworkConfig, SocketEvent};
use laminar::packet::header::{AckedPacketHeader, ArrangingHeader, FragmentHeader, StandardHeader};
use laminar::packet::{
    DeliveryGuarantee, EnumConverter, IpAddress, OrderingGuarantee, Packet, PacketReader,
    PacketType, SocketAddress,
};
use laminar::protocol_version::{checksum_x25, ProtocolVersion};

#[test]
fn the_protocol_checksum_is_crc_16_x25() {
    assert_eq!(checksum_x25(b"123456789"), 0x906E);
    assert_eq!(checksum_x25(b""), 0x0000);
    assert_eq!(ProtocolVersion::get_crc16(), 0x5409);
    assert_eq!(ProtocolVersion::get_version(), "laminar-0.1.0");
    assert!(ProtocolVersion::valid_version(0x5409));
    assert!(!ProtocolVersion::valid_version(0x5408));
}

#[test]
fn headers_read_back_what_was_written() {
    let mut bytes = vec![7];
    StandardHeader::new(DeliveryGuarantee::Reliable, OrderingGuarantee::Sequenced(Some(4)), PacketType::Fragment)
        .write(&mut bytes);
    AckedPacketHeader::new(0x1234, 0xFEDC, 0x8000_0001).write(&mut bytes);
    ArrangingHeader::new(513, 9).write(&mut bytes);
    FragmentHeader::new(65535, 3, 12).write(&mut bytes);
    assert_eq!(bytes.len(), 1 + 5 + 8 + 3 + 4);
    assert_eq!(&bytes[1..3], &0x5409u16.to_be_bytes());
    assert_eq!(&bytes[3..6], &[1, 1, 1]);

    let standard = StandardHeader::read(&bytes, 1).unwrap();
    assert_eq!(standard.protocol_version(), ProtocolVersion::get_crc16());
    assert_eq!(standard.packet_type(), PacketType::Fragment);
    assert_eq!(standard.delivery_guarantee(), DeliveryGuarantee::Reliable);
    // the stream is not written with the standard header
    assert_eq!(standard.ordering_guarantee(), OrderingGuarantee::Sequenced(None));
    assert!(standard.is_current_protocol());

    let acked = AckedPacketHeader::read(&bytes, 6);
    assert_eq!((acked.sequence(), acked.ack_seq(), acked.ack_field()), (0x1234, 0xFEDC, 0x8000_0001));
    let arranging = ArrangingHeader::read(&bytes, 14);
    assert_eq!((arranging.arranging_id(), arranging.stream_id()), (513, 9));
    let fragment = FragmentHeader::read(&bytes, 17);
    assert_eq!((fragment.sequence(), fragment.id(), fragment.fragment_count()), (65535, 3, 12));
}

#[test]
fn undefined_header_codes_are_refused() {
    assert_eq!(
        StandardHeader::read(&[0, 0, 0, 1, 3], 0).err(),
        Some(ErrorKind::DecodingError(DecodingErrorKind::OrderingGuarantee))
    );
    assert_eq!(
        StandardHeader::read(&[0, 0, 0, 2, 0], 0).err(),
        Some(ErrorKind::DecodingError(DecodingErrorKind::DeliveryGuarantee))
    );
    assert_eq!(
        StandardHeader::read(&[0, 0, 3, 0, 0], 0).err(),
        Some(ErrorKind::DecodingError(DecodingErrorKind::PacketType))
    );
    assert_eq!(PacketType::Heartbeat.to_u8(), 2);
    assert_eq!(OrderingGuarantee::Ordered(Some(5)).to_u8(), 2);
}

#[test]
fn the_packet_reader_reads_front_to_back() {
    let mut bytes = Vec::new();
    StandardHeader::new(DeliveryGuarantee::Reliable, OrderingGuarantee::Unordered, PacketType::Fragment)
        .write(&mut bytes);
    FragmentHeader::new(8, 0, 2).write(&mut bytes);
    AckedPacketHeader::new(1, 2, 3).write(&mut bytes);
    bytes.extend_from_slice(&[42, 43]);

    let mut reader = PacketReader::new(&bytes);
    let standard = reader.read_standard_header().unwrap();
    assert_eq!(standard.packet_type(), PacketType::Fragment);
    let (fragment, acked) = reader.read_fragment().unwrap();
    assert_eq!((fragment.sequence(), fragment.id(), fragment.fragment_count()), (8, 0, 2));
    let acked = acked.unwrap();
    assert_eq!((acked.sequence(), acked.ack_seq(), acked.ack_field()), (1, 2, 3));
    assert_eq!(reader.read_payload(), vec![42, 43]);

    // a first fragment whose acknowledgement header is cut short
    let mut short = PacketReader::new(&bytes[..12]);
    short.read_standard_header().unwrap();
    assert_eq!(short.read_fragment().err(), Some(ErrorKind::IOError));

    let mut empty = PacketReader::new(&[]);
    assert_eq!(empty.read_standard_header().err(), Some(ErrorKind::CouldNotReadHeader));
    assert_eq!(empty.read_acknowledge_header().err(), Some(ErrorKind::CouldNotReadHeader));
    assert_eq!(empty.read_arranging_header(0).err(), Some(ErrorKind::CouldNotReadHeader));
    assert_eq!(empty.read_fragment().err(), Some(ErrorKind::CouldNotReadHeader));
}

#[test]
fn connection_states_only_move_forward() {
    let mut state = ConnectionState::default();
    assert_eq!(state, ConnectionState::Connecting);
    assert_eq!(state.try_change(&ConnectionState::Connecting), None);
    assert_eq!(state.try_change(&ConnectionState::Connected(vec![1, 2])), Some(ConnectionState::Connecting));
    assert_eq!(state, ConnectionState::Connected(vec![1, 2]));
    assert_eq!(state.try_change(&ConnectionState::Connected(vec![3])), None);
    assert_eq!(
        state.try_change(&ConnectionState::Disconnected(TargetHost::RemoteHost)),
        Some(ConnectionState::Connected(vec![1, 2]))
    );
    assert_eq!(state.try_change(&ConnectionState::Connecting), None);
    assert_eq!(state, ConnectionState::Disconnected(TargetHost::RemoteHost));
}

#[test]
fn fragments_needed_rounds_up() {
    assert_eq!(Fragmentation::fragments_needed(4000, 1024), 4);
    assert_eq!(Fragmentation::fragments_needed(4096, 1024), 4);
    assert_eq!(Fragmentation::fragments_needed(0, 1024), 0);
    assert_eq!(Fragmentation::fragments_needed(1, 1024), 1);
}

#[test]
fn payloads_split_into_fragments_of_the_configured_size() {
    let config = Config::default();
    let payload: Vec<u8> = (0..2500u32).map(|i| i as u8).collect();
    let fragments = Fragmentation::spit_into_fragments(&payload, &config).unwrap();
    assert_eq!(fragments.len(), 3);
    assert_eq!(fragments[0], &payload[0..1024]);
    assert_eq!(fragments[1], &payload[1024..2048]);
    assert_eq!(fragments[2], &payload[2048..2500]);
    let too_large = vec![0u8; 17 * 1024];
    assert_eq!(
        Fragmentation::spit_into_fragments(&too_large, &config).err(),
        Some(ErrorKind::FragmentError(laminar::error::FragmentErrorKind::ExceededMaxFragments))
    );
}

#[test]
fn the_sequence_buffer_keeps_recent_entries_only() {
    let mut buffer: SequenceBuffer<u32> = SequenceBuffer::with_capacity(4);
    assert!(buffer.insert(0, 10));
    assert!(buffer.insert(1, 11));
    assert!(buffer.contains(0) && buffer.contains(1));
    assert_eq!(buffer.sequence_num(), 2);
    // moving four ahead empties the slots passed by
    assert!(buffer.insert(5, 15));
    assert!(!buffer.contains(1));
    assert!(buffer.contains(5));
    assert_eq!(buffer.sequence_num(), 6);
    // too old to be kept
    assert!(!buffer.insert(1, 99));
    assert_eq!(buffer.remove(5), Some(15));
    assert_eq!(buffer.remove(5), None);
}

#[test]
fn sequencing_lets_only_newer_items_through() {
    let mut system = SequencingSystem::new();
    assert_eq!(system.arrange(1, 5, 'a'), Some('a'));
    assert_eq!(system.arrange(1, 4, 'b'), None);
    assert_eq!(system.arrange(2, 4, 'c'), Some('c'));
    assert_eq!(system.arrange(1, 6, 'd'), Some('d'));
    // more than half the circle ahead counts as older
    assert_eq!(system.arrange(1, 6 + 40000, 'e'), None);
    assert_eq!(system.new_item_identifier(1), 0);
    assert_eq!(system.new_item_identifier(1), 1);
}

#[test]
fn ordering_hands_items_out_in_order() {
    let mut system: OrderingSystem<char> = OrderingSystem::new();
    assert_eq!(system.arrange(0, 1, 'b'), Vec::<char>::new());
    assert_eq!(system.arrange(0, 2, 'c'), Vec::<char>::new());
    assert_eq!(system.arrange(0, 0, 'a'), vec!['a', 'b', 'c']);
    assert_eq!(system.arrange(0, 3, 'd'), vec!['d']);
    // an old one is dropped
    assert_eq!(system.arrange(0, 1, 'x'), Vec::<char>::new());
    assert_eq!(system.new_item_identifier(0), 0);
}

#[test]
fn the_reliable_udp_ack_record_removes_the_acked_and_the_lost() {
    let mut record: AckRecord<u8> = AckRecord::new();
    record.enqueue(0, 1);
    record.enqueue(1, 2);
    record.enqueue(60000, 3);
    assert_eq!(record.len(), 3);
    let dropped = record.ack(1, 1);
    // 1 is acked, 0 is acked through the bit field, and 60000 lies too far behind and is dropped
    assert_eq!(dropped, vec![(60000, 3)]);
    assert_eq!(record.len(), 0);
    assert!(record.is_empty());
}

#[test]
fn the_reliable_udp_ack_record_removes_packets_acked_through_the_bit_field() {
    let mut record: AckRecord<u8> = AckRecord::new();
    record.enqueue(0, 1);
    record.enqueue(1, 2);
    record.enqueue(2, 3);
    let dropped = record.ack(2, 0b11);
    assert!(dropped.is_empty());
    assert!(record.is_empty());

    // a packet the bit field leaves out stays waiting
    record.enqueue(3, 4);
    record.enqueue(4, 5);
    record.enqueue(5, 6);
    assert!(record.ack(5, 0b10).is_empty());
    assert_eq!(record.len(), 1);
    // enqueueing under a waiting number replaces the packet
    record.enqueue(4, 7);
    assert_eq!(record.len(), 1);
}

#[test]
fn configuration_defaults() {
    let config = Config::default();
    assert_eq!(config.max_packet_size, 16384);
    assert_eq!(config.max_fragments, 16);
    assert_eq!(config.fragment_size, 1024);
    assert_eq!(config.fragment_reassembly_buffer_size, 64);
    assert_eq!(config.receive_buffer_max_size, 1452);
    assert_eq!(config.rtt_max_value, 250);
    let network = NetworkConfig::default();
    assert_eq!(network.max_fragments, 16);
}

#[test]
fn socket_events_name_their_address() {
    let addr = SocketAddress { ip: IpAddress::V6 { ip: 1, flowinfo: 0, scope_id: 0 }, port: 9 };
    assert_eq!(SocketEvent::Timeout(addr).address(), addr);
    let packet = Packet::unreliable(addr, vec![1]);
    assert_eq!(SocketEvent::Packet(packet).address(), addr);
}

#[test]
fn the_reliable_udp_connection_numbers_and_settles_packets() {
    let mut connection: Connection<u8> = Connection::new();
    assert_eq!(connection.pre_process_packet(1), (0, 0, 0));
    assert_eq!(connection.pre_process_packet(2), (1, 0, 0));
    connection.process_received(7, 1, 0);
    assert_eq!(connection.pre_process_packet(3), (2, 7, 0));
    assert_eq!(connection.waiting_packets.len(), 2);
    // far ahead: 0 and 2 are declared lost
    connection.process_received(8, 40, 0);
    let mut dropped = connection.dropped_packets();
    dropped.sort();
    assert_eq!(dropped, vec![1, 3]);
    assert!(connection.dropped_packets().is_empty());
}
