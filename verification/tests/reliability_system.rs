use laminar::net::constants;
use laminar::net::reliability_system::{fragmentation_is_defined, goes_to_reassembly, ReliabilitySystem};
use laminar::packet::header::{AckedPacketHeader, ArrangingHeader, StandardHeader};
use laminar::packet::{
    DeliveryGuarantee, GenericPacket, IpAddress, OrderingGuarantee, Packet, PacketType,
    SocketAddress,
};
use laminar::protocol_version::ProtocolVersion;
use laminar::{Config, ErrorKind};

const PAYLOAD: [u8; 4] = [1, 2, 3, 4];

fn get_fake_addr() -> SocketAddress {
    SocketAddress { ip: IpAddress::V4(0x7f00_0001), port: 0 }
}

fn create_system() -> ReliabilitySystem {
    ReliabilitySystem::new(&Config::default(), 0)
}

fn standard_header(bytes: [u8; 3]) -> Vec<u8> {
    let mut header = ProtocolVersion::get_crc16().to_be_bytes().to_vec();
    header.extend_from_slice(&bytes);
    header
}

fn first_received(system: &mut ReliabilitySystem, data: &[u8]) -> Option<Packet> {
    system
        .process_incoming(get_fake_addr(), data, 0)
        .unwrap()
        .into_iter()
        .next()
        .map(|(packet, _)| packet)
}

// assert that the processing of the given `DeliveryGuarantee` and `OrderingGuarantee` results into the given packet
fn assert_incoming_with_order(
    delivery: DeliveryGuarantee,
    ordering: OrderingGuarantee,
    system: &mut ReliabilitySystem,
    result_packet: Option<Packet>,
    order_id: u16,
) {
    let mut packet = Vec::new();

    // configure the right header based on specified guarantees.
    let header = StandardHeader::new(delivery, ordering, PacketType::Packet);
    header.write(&mut packet);

    if let OrderingGuarantee::Sequenced(val) = ordering {
        if delivery == DeliveryGuarantee::Reliable {
            let ack_header = AckedPacketHeader::new(1, 2, 3);
            ack_header.write(&mut packet);
        }

        let order_header = ArrangingHeader::new(order_id, val.unwrap());
        order_header.write(&mut packet);
    }

    if let OrderingGuarantee::Ordered(val) = ordering {
        if delivery == DeliveryGuarantee::Reliable {
            let ack_header = AckedPacketHeader::new(1, 2, 3);
            let order_header = ArrangingHeader::new(order_id, val.unwrap());
            ack_header.write(&mut packet);
            order_header.write(&mut packet);
        }
    }

    if let OrderingGuarantee::Unordered = ordering {
        if delivery == DeliveryGuarantee::Reliable {
            let ack_header = AckedPacketHeader::new(1, 2, 3);
            ack_header.write(&mut packet);
        }
    }

    packet.extend_from_slice(&PAYLOAD);

    assert_eq!(first_received(system, &packet), result_packet);
}

// assert that the given `DeliveryGuarantee` results into the given packet after processing.
fn assert_incoming_without_order(
    delivery: DeliveryGuarantee,
    system: &mut ReliabilitySystem,
    result_packet: Packet,
) {
    let mut packet = Vec::new();

    // configure the right header based on specified guarantees.
    let header = StandardHeader::new(delivery, OrderingGuarantee::Unordered, PacketType::Packet);
    header.write(&mut packet);

    if delivery == DeliveryGuarantee::Reliable {
        let ack_header = AckedPacketHeader::new(1, 2, 3);
        ack_header.write(&mut packet);
    }

    packet.extend_from_slice(&PAYLOAD);

    assert_eq!(first_received(system, &packet), Some(result_packet));
}

// assert that the size of the processed header is the same as the given one.
fn assert_right_header_size(
    delivery: DeliveryGuarantee,
    ordering: OrderingGuarantee,
    expected_header_size: usize,
) {
    let mut system = create_system();

    let buffer = vec![1; 500];

    let outgoing = system
        .process_outgoing(GenericPacket::user_packet(&buffer, delivery, ordering), 0)
        .unwrap();
    let mut iter = outgoing.into_iter();
    assert_eq!(iter.next().unwrap().contents().len() - buffer.len(), expected_header_size);
    if iter.next().is_some() {
        panic!("Expected not fragmented packet")
    }
}

#[test]
fn reliability_system_assure_right_fragmentation() {
    let standard_header = standard_header([1, 1, 2]);

    let acked_header = vec![1, 0, 0, 2, 0, 0, 0, 3];
    let first_fragment = vec![0, 1, 1, 3];
    let second_fragment = vec![0, 1, 2, 3];
    let third_fragment = vec![0, 1, 3, 3];

    let mut system = create_system();
    let packet = first_received(&mut system, &[standard_header.as_slice(), acked_header.as_slice()].concat());
    assert!(packet.is_none());
    let packet = first_received(
        &mut system,
        &[standard_header.as_slice(), first_fragment.as_slice(), &PAYLOAD].concat(),
    );
    assert!(packet.is_none());
    let packet = first_received(
        &mut system,
        &[standard_header.as_slice(), second_fragment.as_slice(), &PAYLOAD].concat(),
    );
    assert!(packet.is_none());
    let packet = first_received(
        &mut system,
        &[standard_header.as_slice(), third_fragment.as_slice(), &PAYLOAD].concat(),
    )
    .unwrap();

    assert_eq!(packet.payload(), &*[PAYLOAD, PAYLOAD, PAYLOAD].concat());
}

#[test]
fn reliability_system_expect_fragmentation() {
    let mut system = create_system();

    let buffer = vec![1; 4000];

    let mut packets = system
        .process_outgoing(
            GenericPacket::user_packet(&buffer, DeliveryGuarantee::Reliable, OrderingGuarantee::Ordered(None)),
            0,
        )
        .unwrap()
        .into_iter();
    let mut count = 0;
    while packets.next().is_some() {
        count += 1;
    }
    assert_eq!(count, 4);
}

#[test]
fn reliability_system_assure_correct_outgoing_processing() {
    let mut system = create_system();

    let buffer = vec![1; 1000];

    system
        .process_outgoing(
            GenericPacket::user_packet(&buffer, DeliveryGuarantee::Unreliable, OrderingGuarantee::Unordered),
            0,
        )
        .unwrap();

    system
        .process_outgoing(
            GenericPacket::user_packet(&buffer, DeliveryGuarantee::Unreliable, OrderingGuarantee::Sequenced(None)),
            0,
        )
        .unwrap();

    system
        .process_outgoing(
            GenericPacket::user_packet(&buffer, DeliveryGuarantee::Reliable, OrderingGuarantee::Ordered(None)),
            0,
        )
        .unwrap();

    system
        .process_outgoing(
            GenericPacket::user_packet(&buffer, DeliveryGuarantee::Reliable, OrderingGuarantee::Sequenced(None)),
            0,
        )
        .unwrap();
}

#[test]
fn reliability_system_assure_right_sequencing() {
    let mut system = create_system();

    assert_incoming_with_order(
        DeliveryGuarantee::Unreliable,
        OrderingGuarantee::Sequenced(Some(1)),
        &mut system,
        Some(Packet::unreliable_sequenced(get_fake_addr(), PAYLOAD.to_vec(), Some(1))),
        1,
    );

    assert_incoming_with_order(
        DeliveryGuarantee::Unreliable,
        OrderingGuarantee::Sequenced(Some(1)),
        &mut system,
        Some(Packet::unreliable_sequenced(get_fake_addr(), PAYLOAD.to_vec(), Some(1))),
        3,
    );

    assert_incoming_with_order(
        DeliveryGuarantee::Unreliable,
        OrderingGuarantee::Sequenced(Some(1)),
        &mut system,
        None,
        2,
    );

    assert_incoming_with_order(
        DeliveryGuarantee::Unreliable,
        OrderingGuarantee::Sequenced(Some(1)),
        &mut system,
        Some(Packet::unreliable_sequenced(get_fake_addr(), PAYLOAD.to_vec(), Some(1))),
        4,
    );

    assert_incoming_with_order(
        DeliveryGuarantee::Reliable,
        OrderingGuarantee::Sequenced(Some(1)),
        &mut system,
        Some(Packet::reliable_sequenced(get_fake_addr(), PAYLOAD.to_vec(), Some(1))),
        5,
    );
}

#[test]
fn reliability_system_assure_right_ordering() {
    let mut system = create_system();

    assert_incoming_with_order(
        DeliveryGuarantee::Reliable,
        OrderingGuarantee::Ordered(Some(1)),
        &mut system,
        Some(Packet::reliable_ordered(get_fake_addr(), PAYLOAD.to_vec(), Some(1))),
        0,
    );

    assert_incoming_with_order(
        DeliveryGuarantee::Reliable,
        OrderingGuarantee::Ordered(Some(1)),
        &mut system,
        None,
        2,
    );

    assert_incoming_with_order(
        DeliveryGuarantee::Reliable,
        OrderingGuarantee::Ordered(Some(1)),
        &mut system,
        None,
        3,
    );

    assert_incoming_with_order(
        DeliveryGuarantee::Reliable,
        OrderingGuarantee::Ordered(Some(1)),
        &mut system,
        Some(Packet::reliable_ordered(get_fake_addr(), PAYLOAD.to_vec(), Some(1))),
        1,
    );
}

#[test]
fn reliability_system_assure_correct_processing_of_incoming() {
    let mut system = create_system();

    assert_incoming_without_order(
        DeliveryGuarantee::Unreliable,
        &mut system,
        Packet::unreliable(get_fake_addr(), PAYLOAD.to_vec()),
    );

    assert_incoming_without_order(
        DeliveryGuarantee::Reliable,
        &mut system,
        Packet::reliable_unordered(get_fake_addr(), PAYLOAD.to_vec()),
    );

    assert_incoming_with_order(
        DeliveryGuarantee::Unreliable,
        OrderingGuarantee::Sequenced(Some(1)),
        &mut system,
        Some(Packet::unreliable_sequenced(get_fake_addr(), PAYLOAD.to_vec(), Some(1))),
        1,
    );

    assert_incoming_with_order(
        DeliveryGuarantee::Reliable,
        OrderingGuarantee::Ordered(Some(1)),
        &mut system,
        Some(Packet::reliable_ordered(get_fake_addr(), PAYLOAD.to_vec(), Some(1))),
        0,
    );
}

#[test]
fn reliability_system_assure_right_header_size() {
    assert_right_header_size(
        DeliveryGuarantee::Unreliable,
        OrderingGuarantee::Unordered,
        (constants::STANDARD_HEADER_SIZE) as usize,
    );
    assert_right_header_size(
        DeliveryGuarantee::Unreliable,
        OrderingGuarantee::Sequenced(None),
        (constants::STANDARD_HEADER_SIZE + constants::ARRANGING_PACKET_HEADER) as usize,
    );
    assert_right_header_size(
        DeliveryGuarantee::Reliable,
        OrderingGuarantee::Unordered,
        (constants::STANDARD_HEADER_SIZE + constants::ACKED_PACKET_HEADER) as usize,
    );
    assert_right_header_size(
        DeliveryGuarantee::Reliable,
        OrderingGuarantee::Ordered(None),
        (constants::STANDARD_HEADER_SIZE
            + constants::ACKED_PACKET_HEADER
            + constants::ARRANGING_PACKET_HEADER) as usize,
    );
}

#[test]
fn waiting_ordered_packets_come_out_together_in_order() {
    let mut system = create_system();
    let mut received = Vec::new();
    for order_id in [2u16, 1, 0] {
        let mut packet = Vec::new();
        StandardHeader::new(DeliveryGuarantee::Reliable, OrderingGuarantee::Ordered(Some(7)), PacketType::Packet)
            .write(&mut packet);
        AckedPacketHeader::new(order_id, 0, 0).write(&mut packet);
        ArrangingHeader::new(order_id, 7).write(&mut packet);
        packet.push(order_id as u8);
        let mut out = system.process_incoming(get_fake_addr(), &packet, 0).unwrap().into_iter();
        while let Some((p, t)) = out.next() {
            assert_eq!(t, PacketType::Packet);
            assert_eq!(p.order_guarantee(), OrderingGuarantee::Ordered(Some(7)));
            received.push(p.payload()[0]);
        }
    }
    assert_eq!(received, vec![0, 1, 2]);
}

#[test]
fn errors_on_bad_headers() {
    let mut system = create_system();
    // too short for a standard header
    assert_eq!(
        system.process_incoming(get_fake_addr(), &[1, 2, 3], 0).err(),
        Some(ErrorKind::CouldNotReadHeader)
    );
    // another protocol version
    let crc = ProtocolVersion::get_crc16().wrapping_add(1).to_be_bytes();
    assert_eq!(
        system.process_incoming(get_fake_addr(), &[crc[0], crc[1], 0, 0, 0], 0).err(),
        Some(ErrorKind::ProtocolVersionMismatch)
    );
    // an unknown packet type
    assert_eq!(
        system.process_incoming(get_fake_addr(), &standard_header([9, 0, 0]), 0).err(),
        Some(ErrorKind::DecodingError(laminar::error::DecodingErrorKind::PacketType))
    );
    // a reliable packet without its acknowledgement header
    assert_eq!(
        system.process_incoming(get_fake_addr(), &standard_header([0, 1, 0]), 0).err(),
        Some(ErrorKind::CouldNotReadHeader)
    );
    // a heartbeat hands out nothing
    let mut out = system.process_incoming(get_fake_addr(), &standard_header([2, 0, 0]), 5).unwrap().into_iter();
    assert!(out.next().is_none());
    assert_eq!(system.last_heard(7), 2);
}

#[test]
fn a_sent_packet_is_received_by_the_other_side() {
    let mut sender = create_system();
    let mut receiver = create_system();
    let payload = vec![9, 8, 7];
    let sent = sender
        .process_outgoing(
            GenericPacket::user_packet(&payload, DeliveryGuarantee::Reliable, OrderingGuarantee::Sequenced(Some(3))),
            10,
        )
        .unwrap()
        .into_iter()
        .next()
        .unwrap()
        .contents();
    let (packet, packet_type) = receiver.process_incoming(get_fake_addr(), &sent, 11).unwrap().into_iter().next().unwrap();
    assert_eq!(packet_type, PacketType::Packet);
    assert_eq!(packet, Packet::reliable_sequenced(get_fake_addr(), payload, Some(3)));
    assert_eq!(sender.last_sent(10), 0);
    assert_eq!(receiver.last_heard(11), 0);
}

#[test]
fn too_large_unreliable_packets_and_unfragmentable_types_are_refused() {
    let mut system = create_system();
    let buffer = vec![0; 5000];
    assert_eq!(
        system
            .process_outgoing(
                GenericPacket::user_packet(&buffer, DeliveryGuarantee::Unreliable, OrderingGuarantee::Unordered),
                0
            )
            .err(),
        Some(ErrorKind::PacketError(laminar::error::PacketErrorKind::ExceededMaxPacketSize))
    );
    let buffer = vec![0; 20000];
    assert_eq!(
        system
            .process_outgoing(
                GenericPacket::user_packet(&buffer, DeliveryGuarantee::Reliable, OrderingGuarantee::Unordered),
                0
            )
            .err(),
        Some(ErrorKind::FragmentError(laminar::error::FragmentErrorKind::ExceededMaxFragments))
    );
}

#[test]
fn fragments_go_to_reassembly_and_other_datagrams_do_not() {
    let mut system = create_system();
    let buffer = vec![1; 4000];
    let mut packets = system
        .process_outgoing(
            GenericPacket::user_packet(&buffer, DeliveryGuarantee::Reliable, OrderingGuarantee::Unordered),
            0,
        )
        .unwrap()
        .into_iter();
    let mut fragments = Vec::new();
    while let Some(packet) = packets.next() {
        fragments.push(packet.contents());
    }
    assert_eq!(fragments.len(), 4);
    for fragment in &fragments {
        assert!(goes_to_reassembly(fragment));
    }
    // the first fragment needs its acknowledgement header
    assert!(!goes_to_reassembly(&fragments[0][..16]));
    // a later fragment needs only its fragment header
    assert!(goes_to_reassembly(&fragments[1][..9]));
    assert!(!goes_to_reassembly(&fragments[1][..8]));

    let mut packets = system
        .process_outgoing(
            GenericPacket::user_packet(&PAYLOAD, DeliveryGuarantee::Reliable, OrderingGuarantee::Unordered),
            0,
        )
        .unwrap()
        .into_iter();
    let whole = packets.next().unwrap().contents();
    assert!(!goes_to_reassembly(&whole));
}

#[test]
fn fragmentation_is_defined_only_where_the_split_fits() {
    let config = Config::default();
    assert!(fragmentation_is_defined(&config, 4000, DeliveryGuarantee::Reliable));
    assert!(fragmentation_is_defined(&config, 100_000, DeliveryGuarantee::Unreliable));

    let mut no_fragments = Config::default();
    no_fragments.fragment_size = 0;
    assert!(fragmentation_is_defined(&no_fragments, 0, DeliveryGuarantee::Reliable));
    assert!(!fragmentation_is_defined(&no_fragments, 1, DeliveryGuarantee::Reliable));

    // 64 fragments of 1024 bytes reach past 16-bit positions, unless refused for their number
    let mut many = Config::default();
    many.max_fragments = 255;
    assert!(!fragmentation_is_defined(&many, 65_000, DeliveryGuarantee::Reliable));
    many.max_fragments = 16;
    assert!(fragmentation_is_defined(&many, 65_000, DeliveryGuarantee::Reliable));
}

#[test]
fn a_system_is_dropped_once_more_packets_are_in_flight_than_allowed() {
    let mut config = Config::default();
    config.max_packets_in_flight = 3;
    let mut system = ReliabilitySystem::new(&config, 0);
    for k in 1..=5u8 {
        let payload = vec![k; 4];
        assert!(system
            .process_outgoing(
                GenericPacket::user_packet(&payload, DeliveryGuarantee::Reliable, OrderingGuarantee::Unordered),
                0,
            )
            .is_ok());
        assert_eq!(system.should_be_dropped(), k > 3);
    }
    // An unreliable send adds nothing in flight.
    let mut other = ReliabilitySystem::new(&config, 0);
    for _ in 0..5 {
        assert!(other
            .process_outgoing(
                GenericPacket::user_packet(&PAYLOAD, DeliveryGuarantee::Unreliable, OrderingGuarantee::Unordered),
                0,
            )
            .is_ok());
    }
    assert!(!other.should_be_dropped());
}
