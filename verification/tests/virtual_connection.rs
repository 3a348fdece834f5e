use laminar::error::{ErrorKind, FragmentErrorKind};
use laminar::net::constants;
use laminar::net::{SocketEvent, VirtualConnection};
use laminar::packet::header::{AckedPacketHeader, ArrangingHeader, StandardHeader};
use laminar::packet::{
    DeliveryGuarantee, IpAddress, OrderingGuarantee, Packet, PacketInfo, PacketType, SocketAddress,
};
use laminar::protocol_version::ProtocolVersion;
use laminar::Config;

const PAYLOAD: [u8; 4] = [1, 2, 3, 4];
const SECOND: u64 = 1_000_000_000;

fn create_virtual_connection() -> VirtualConnection {
    VirtualConnection::new(get_fake_addr(), &Config::default(), 0)
}

fn get_fake_addr() -> SocketAddress {
    SocketAddress { ip: IpAddress::V4(0x7f00_0001), port: 0 }
}

fn standard_header(bytes: [u8; 3]) -> Vec<u8> {
    let mut header = ProtocolVersion::get_crc16().to_be_bytes().to_vec();
    header.extend_from_slice(&bytes);
    header
}

fn first_received(connection: &mut VirtualConnection, data: &[u8]) -> Option<Packet> {
    connection
        .process_incoming(data, 0)
        .unwrap()
        .into_iter()
        .next()
        .map(|(packet, _)| packet)
}

// assert that the processing of the given `DeliveryGuarantee` and `OrderingGuarantee` results into the given packet
fn assert_incoming_with_order(
    delivery: DeliveryGuarantee,
    ordering: OrderingGuarantee,
    connection: &mut VirtualConnection,
    result_packet: Option<Packet>,
    order_id: u16,
) {
    let mut packet = Vec::new();

    // configure the right header based on specified guarantees.
    let header = StandardHeader::new(delivery, ordering, PacketType::Packet);
    header.write(&mut packet);

    if let OrderingGuarantee::Sequenced(val) = ordering {
        if delivery == DeliveryGuarantee::Reliable {
            let ack_header = AckedPacketHeader::new(1, 2, 3);
            ack_header.write(&mut packet);
        }

        let order_header = ArrangingHeader::new(order_id, val.unwrap());
        order_header.write(&mut packet);
    }

    if let OrderingGuarantee::Ordered(val) = ordering {
        if delivery == DeliveryGuarantee::Reliable {
            let ack_header = AckedPacketHeader::new(1, 2, 3);
            let order_header = ArrangingHeader::new(order_id, val.unwrap());
            ack_header.write(&mut packet);
            order_header.write(&mut packet);
        }
    }

    if let OrderingGuarantee::Unordered = ordering {
        if delivery == DeliveryGuarantee::Reliable {
            let ack_header = AckedPacketHeader::new(1, 2, 3);
            ack_header.write(&mut packet);
        }
    }

    packet.extend_from_slice(&PAYLOAD);

    assert_eq!(first_received(connection, &packet), result_packet);
}

// assert that the given `DeliveryGuarantee` results into the given `Packet` after processing.
fn assert_incoming_without_order(
    delivery: DeliveryGuarantee,
    connection: &mut VirtualConnection,
    result_packet: Packet,
) {
    let mut packet = Vec::new();

    // configure the right header based on specified guarantees.
    let header = StandardHeader::new(delivery, OrderingGuarantee::Unordered, PacketType::Packet);
    header.write(&mut packet);

    if delivery == DeliveryGuarantee::Reliable {
        let ack_header = AckedPacketHeader::new(1, 2, 3);
        ack_header.write(&mut packet);
    }

    packet.extend_from_slice(&PAYLOAD);

    assert_eq!(first_received(connection, &packet), Some(result_packet));
}

// assert that the size of the processed header is the same as the given one.
fn assert_right_header_size(
    delivery: DeliveryGuarantee,
    ordering: OrderingGuarantee,
    expected_header_size: usize,
) {
    let mut connection = create_virtual_connection();

    let buffer = vec![1; 500];

    let outgoing = connection
        .process_outgoing(PacketInfo::user_packet(&buffer, delivery, ordering), None, 0)
        .unwrap();
    let mut iter = outgoing.into_iter();
    assert_eq!(iter.next().unwrap().contents().len() - buffer.len(), expected_header_size);
    if iter.next().is_some() {
        panic!("Expected not fragmented packet")
    }
}

#[test]
fn set_last_sent_and_last_heard_when_processing() {
    let mut connection = create_virtual_connection();
    let curr_sent = 0;
    let curr_heard = 0;

    let out_packet = connection
        .process_outgoing(PacketInfo::heartbeat_packet(&[]), None, curr_sent + SECOND)
        .unwrap()
        .into_iter()
        .next()
        .unwrap();
    let in_packet = connection
        .process_incoming(&out_packet.contents(), curr_heard + 2 * SECOND)
        .unwrap()
        .into_iter()
        .next();

    // one second after the send and two after the receipt, nothing has happened since
    assert_eq!(connection.last_sent(curr_sent + SECOND), 0);
    assert_eq!(connection.last_heard(curr_heard + 2 * SECOND), 0);
    assert_eq!(connection.last_sent(curr_sent + 3 * SECOND), 2 * SECOND);
    assert_eq!(in_packet.is_none(), true);
}

#[test]
fn virtual_connection_assure_right_fragmentation() {
    let standard_header = standard_header([1, 1, 2]);

    let acked_header = vec![0, 0, 0, 4, 0, 0, 255, 255, 0, 0, 0, 0];
    let first_fragment = vec![0, 0, 1, 4];
    let second_fragment = vec![0, 0, 2, 4];
    let third_fragment = vec![0, 0, 3, 4];

    let mut connection = create_virtual_connection();
    let packet = first_received(&mut connection, &[standard_header.as_slice(), acked_header.as_slice()].concat());
    assert!(packet.is_none());
    let packet = first_received(
        &mut connection,
        &[standard_header.as_slice(), first_fragment.as_slice(), &PAYLOAD].concat(),
    );
    assert!(packet.is_none());
    let packet = first_received(
        &mut connection,
        &[standard_header.as_slice(), second_fragment.as_slice(), &PAYLOAD].concat(),
    );
    assert!(packet.is_none());
    let packets = first_received(
        &mut connection,
        &[standard_header.as_slice(), third_fragment.as_slice(), &PAYLOAD].concat(),
    )
    .unwrap();
    assert_eq!(packets.payload(), &*[PAYLOAD, PAYLOAD, PAYLOAD].concat());
}

#[test]
fn virtual_connection_expect_fragmentation() {
    let mut connection = create_virtual_connection();

    let buffer = vec![1; 4000];

    let mut packets = connection
        .process_outgoing(
            PacketInfo::user_packet(&buffer, DeliveryGuarantee::Reliable, OrderingGuarantee::Ordered(None)),
            None,
            0,
        )
        .unwrap()
        .into_iter();
    let mut count = 0;
    while packets.next().is_some() {
        count += 1;
    }
    assert_eq!(count, 4);
}

#[test]
fn virtual_connection_assure_correct_outgoing_processing() {
    let mut connection = create_virtual_connection();

    let buffer = vec![1; 1000];

    connection
        .process_outgoing(
            PacketInfo::user_packet(&buffer, DeliveryGuarantee::Unreliable, OrderingGuarantee::Unordered),
            None,
            0,
        )
        .unwrap();

    connection
        .process_outgoing(
            PacketInfo::user_packet(&buffer, DeliveryGuarantee::Unreliable, OrderingGuarantee::Sequenced(None)),
            None,
            0,
        )
        .unwrap();

    connection
        .process_outgoing(
            PacketInfo::user_packet(&buffer, DeliveryGuarantee::Reliable, OrderingGuarantee::Ordered(None)),
            None,
            0,
        )
        .unwrap();

    connection
        .process_outgoing(
            PacketInfo::user_packet(&buffer, DeliveryGuarantee::Reliable, OrderingGuarantee::Sequenced(None)),
            None,
            0,
        )
        .unwrap();
}

#[test]
fn virtual_connection_assure_right_sequencing() {
    let mut connection = create_virtual_connection();

    assert_incoming_with_order(
        DeliveryGuarantee::Unreliable,
        OrderingGuarantee::Sequenced(Some(1)),
        &mut connection,
        Some(Packet::unreliable_sequenced(get_fake_addr(), PAYLOAD.to_vec(), Some(1))),
        1,
    );

    assert_incoming_with_order(
        DeliveryGuarantee::Unreliable,
        OrderingGuarantee::Sequenced(Some(1)),
        &mut connection,
        Some(Packet::unreliable_sequenced(get_fake_addr(), PAYLOAD.to_vec(), Some(1))),
        3,
    );

    assert_incoming_with_order(
        DeliveryGuarantee::Unreliable,
        OrderingGuarantee::Sequenced(Some(1)),
        &mut connection,
        None,
        2,
    );

    assert_incoming_with_order(
        DeliveryGuarantee::Unreliable,
        OrderingGuarantee::Sequenced(Some(1)),
        &mut connection,
        Some(Packet::unreliable_sequenced(get_fake_addr(), PAYLOAD.to_vec(), Some(1))),
        4,
    );

    assert_incoming_with_order(
        DeliveryGuarantee::Reliable,
        OrderingGuarantee::Sequenced(Some(1)),
        &mut connection,
        Some(Packet::reliable_sequenced(get_fake_addr(), PAYLOAD.to_vec(), Some(1))),
        5,
    );
}

#[test]
fn virtual_connection_assure_right_ordering() {
    let mut connection = create_virtual_connection();

    assert_incoming_with_order(
        DeliveryGuarantee::Reliable,
        OrderingGuarantee::Ordered(Some(1)),
        &mut connection,
        Some(Packet::reliable_ordered(get_fake_addr(), PAYLOAD.to_vec(), Some(1))),
        0,
    );

    assert_incoming_with_order(
        DeliveryGuarantee::Reliable,
        OrderingGuarantee::Ordered(Some(1)),
        &mut connection,
        None,
        2,
    );

    assert_incoming_with_order(
        DeliveryGuarantee::Reliable,
        OrderingGuarantee::Ordered(Some(1)),
        &mut connection,
        None,
        3,
    );

    assert_incoming_with_order(
        DeliveryGuarantee::Reliable,
        OrderingGuarantee::Ordered(Some(1)),
        &mut connection,
        Some(Packet::reliable_ordered(get_fake_addr(), PAYLOAD.to_vec(), Some(1))),
        1,
    );
}

#[test]
fn virtual_connection_assure_correct_processing_of_incoming() {
    let mut connection = create_virtual_connection();

    assert_incoming_without_order(
        DeliveryGuarantee::Unreliable,
        &mut connection,
        Packet::unreliable(get_fake_addr(), PAYLOAD.to_vec()),
    );

    assert_incoming_without_order(
        DeliveryGuarantee::Reliable,
        &mut connection,
        Packet::reliable_unordered(get_fake_addr(), PAYLOAD.to_vec()),
    );

    assert_incoming_with_order(
        DeliveryGuarantee::Unreliable,
        OrderingGuarantee::Sequenced(Some(1)),
        &mut connection,
        Some(Packet::unreliable_sequenced(get_fake_addr(), PAYLOAD.to_vec(), Some(1))),
        1,
    );

    assert_incoming_with_order(
        DeliveryGuarantee::Reliable,
        OrderingGuarantee::Ordered(Some(1)),
        &mut connection,
        Some(Packet::reliable_ordered(get_fake_addr(), PAYLOAD.to_vec(), Some(1))),
        0,
    );
}

#[test]
fn virtual_connection_assure_right_header_size() {
    assert_right_header_size(
        DeliveryGuarantee::Unreliable,
        OrderingGuarantee::Unordered,
        (constants::STANDARD_HEADER_SIZE) as usize,
    );
    assert_right_header_size(
        DeliveryGuarantee::Unreliable,
        OrderingGuarantee::Sequenced(None),
        (constants::STANDARD_HEADER_SIZE + constants::ARRANGING_PACKET_HEADER) as usize,
    );
    assert_right_header_size(
        DeliveryGuarantee::Reliable,
        OrderingGuarantee::Unordered,
        (constants::STANDARD_HEADER_SIZE + constants::ACKED_PACKET_HEADER) as usize,
    );
    assert_right_header_size(
        DeliveryGuarantee::Reliable,
        OrderingGuarantee::Ordered(None),
        (constants::STANDARD_HEADER_SIZE
            + constants::ACKED_PACKET_HEADER
            + constants::ARRANGING_PACKET_HEADER) as usize,
    );
}

#[test]
fn ensure_input_header_data_does_not_access_out_of_bounds() {
    let standard_header = standard_header([1, 1, 2]);

    let acked_header = vec![0, 0, 255, 4, 0, 0, 255, 255, 0, 0, 0, 0];

    let mut connection = create_virtual_connection();
    let result = connection.process_incoming(&[standard_header.as_slice(), acked_header.as_slice()].concat(), 0);

    match result {
        Err(ErrorKind::FragmentError(FragmentErrorKind::ExceededMaxFragments)) => {
            // Ok
        }
        _ => {
            panic!["Supposed to get a fragment error"];
        }
    }
}

#[test]
fn sending_large_unreliable_packet_should_fail() {
    let mut connection = create_virtual_connection();
    let buffer = vec![1; 5000];

    let res = connection.process_outgoing(
        PacketInfo::user_packet(&buffer, DeliveryGuarantee::Unreliable, OrderingGuarantee::Unordered),
        None,
        0,
    );

    assert_eq!(res.is_err(), true);
}

#[test]
fn send_returns_right_size() {
    let mut connection = create_virtual_connection();
    let buffer = vec![1; 1024];

    let mut packets = connection
        .process_outgoing(
            PacketInfo::user_packet(&buffer, DeliveryGuarantee::Unreliable, OrderingGuarantee::Unordered),
            None,
            0,
        )
        .unwrap()
        .into_iter();
    let packet = packets.next().unwrap();

    assert_eq!(packet.contents().len(), 1024 + constants::STANDARD_HEADER_SIZE as usize);
    assert_eq!(packets.next().is_none(), true);
}

#[test]
fn fragmentation_send_returns_right_size() {
    let fragment_packet_size = constants::STANDARD_HEADER_SIZE + constants::FRAGMENT_HEADER_SIZE;

    let mut connection = create_virtual_connection();
    let buffer = vec![1; 4000];

    let mut packets = connection
        .process_outgoing(
            PacketInfo::user_packet(&buffer, DeliveryGuarantee::Reliable, OrderingGuarantee::Unordered),
            None,
            0,
        )
        .unwrap()
        .into_iter();

    // the first fragment of an sequence of fragments contains also the acknowledgment header.
    let mut total = 0;
    while let Some(p) = packets.next() {
        total += p.contents().len();
    }
    assert_eq!(
        total,
        4000 + (fragment_packet_size * 4 + constants::ACKED_PACKET_HEADER) as usize
    );
}

#[test]
fn ordered_16_bit_overflow() {
    let mut send_conn = create_virtual_connection();
    let mut recv_conn = create_virtual_connection();

    let time = 0;
    let mut last_recv_value = 0u32;
    for idx in 1..100_000u32 {
        let data_to_send = idx.to_ne_bytes();
        let packet_sent = send_conn
            .process_outgoing(
                PacketInfo::user_packet(&data_to_send, DeliveryGuarantee::Reliable, OrderingGuarantee::Unordered),
                None,
                time,
            )
            .unwrap()
            .into_iter()
            .next()
            .unwrap();

        let mut packets = recv_conn.process_incoming(&packet_sent.contents(), time).unwrap().into_iter();

        while let Some((packet, _)) = packets.next() {
            let mut recv_buff = [0; 4];
            recv_buff.copy_from_slice(packet.payload());
            let value = u32::from_ne_bytes(recv_buff);
            assert_eq!(value, last_recv_value + 1);
            last_recv_value = value;
        }
    }
    assert_eq![last_recv_value, 99_999];
}

#[test]
fn a_fragmented_packet_is_reassembled_by_the_other_side() {
    let mut sender = create_virtual_connection();
    let mut receiver = create_virtual_connection();
    let payload: Vec<u8> = (0..3000u32).map(|i| (i % 251) as u8).collect();
    let mut fragments = sender
        .process_outgoing(
            PacketInfo::user_packet(&payload, DeliveryGuarantee::Reliable, OrderingGuarantee::Unordered),
            None,
            0,
        )
        .unwrap()
        .into_iter();
    let mut received = Vec::new();
    while let Some(fragment) = fragments.next() {
        let mut out = receiver.process_incoming(&fragment.contents(), 0).unwrap().into_iter();
        while let Some(p) = out.next() {
            received.push(p);
        }
    }
    assert_eq!(received.len(), 1);
    assert_eq!(received[0].1, PacketType::Packet);
    assert_eq!(received[0].0.payload(), payload.as_slice());
    assert_eq!(receiver.remote_address(), get_fake_addr());
}

#[test]
fn a_fragment_seen_twice_is_refused() {
    let standard_header = standard_header([1, 1, 0]);
    let mut connection = create_virtual_connection();
    let fragment = [standard_header.as_slice(), &[0, 9, 1, 3], &PAYLOAD].concat();
    assert!(first_received(&mut connection, &fragment).is_none());
    assert_eq!(
        connection.process_incoming(&fragment, 0).err(),
        Some(ErrorKind::FragmentError(FragmentErrorKind::AlreadyProcessedFragment))
    );
    let other_count = [standard_header.as_slice(), &[0, 9, 2, 5], &PAYLOAD].concat();
    assert_eq!(
        connection.process_incoming(&other_count, 0).err(),
        Some(ErrorKind::FragmentError(FragmentErrorKind::FragmentWithUnevenNumberOfFragments))
    );
}

#[test]
fn a_packet_completed_without_its_first_fragment_header_is_refused() {
    let standard_header = standard_header([1, 1, 0]);
    let mut connection = create_virtual_connection();
    // a packet of two fragments whose ids are 1 and 2: the one with id 0 never comes
    let first = [standard_header.as_slice(), &[0, 4, 1, 2], &PAYLOAD].concat();
    let second = [standard_header.as_slice(), &[0, 4, 2, 2], &PAYLOAD].concat();
    assert!(first_received(&mut connection, &first).is_none());
    assert_eq!(
        connection.process_incoming(&second, 0).err(),
        Some(ErrorKind::FragmentError(FragmentErrorKind::PacketHeaderNotFound))
    );
}

#[test]
fn a_connection_is_established_once_it_has_sent_and_received() {
    let mut connection = create_virtual_connection();
    assert!(!connection.is_established());
    assert!(!connection.record_send());
    assert!(!connection.is_established());
    assert!(connection.record_recv());
    assert!(connection.is_established());
    assert!(!connection.record_recv());
}

#[test]
fn received_packets_become_events_with_a_connect_first() {
    let mut connection = create_virtual_connection();
    let packet = Packet::unreliable(get_fake_addr(), PAYLOAD.to_vec());
    let (connect, outgoing) = connection.process_event(&packet, 5);
    assert!(connect.is_none());
    assert!(outgoing.is_ok());

    let mut data = standard_header([0, 0, 0]);
    data.extend_from_slice(&PAYLOAD);
    let events = connection.process_packet(&data, 6).unwrap();
    assert_eq!(
        events,
        vec![
            SocketEvent::Connect(get_fake_addr()),
            SocketEvent::Packet(Packet::unreliable(get_fake_addr(), PAYLOAD.to_vec())),
        ]
    );
    let events = connection.process_packet(&data, 7).unwrap();
    assert_eq!(events, vec![SocketEvent::Packet(Packet::unreliable(get_fake_addr(), PAYLOAD.to_vec()))]);
    assert_eq!(connection.process_packet(&[], 8).err(), Some(ErrorKind::ReceivedDataToShort));
}

#[test]
fn silent_connections_are_dropped_with_a_timeout_and_a_disconnect() {
    let config = Config::default();
    let mut connection = create_virtual_connection();
    let (drop, events) = connection.should_drop(&config, config.idle_connection_timeout - 1);
    assert!(!drop);
    assert!(events.is_empty());
    let (drop, events) = connection.should_drop(&config, config.idle_connection_timeout);
    assert!(drop);
    assert_eq!(events, vec![SocketEvent::Timeout(get_fake_addr())]);

    connection.record_send();
    connection.record_recv();
    let (drop, events) = connection.should_drop(&config, config.idle_connection_timeout);
    assert!(drop);
    assert_eq!(
        events,
        vec![SocketEvent::Timeout(get_fake_addr()), SocketEvent::Disconnect(get_fake_addr())]
    );
}

#[test]
fn established_connections_send_heartbeats_when_idle() {
    let mut config = Config::default();
    config.heartbeat_interval = Some(SECOND);
    let mut connection = create_virtual_connection();
    // not established yet: nothing to send
    assert!(connection.update(&config, 2 * SECOND).is_empty());
    connection.record_send();
    connection.record_recv();
    assert!(connection.update(&config, SECOND - 1).is_empty());
    let sends = connection.update(&config, SECOND);
    assert_eq!(sends.len(), 1);
    let heartbeat = sends[0].as_ref().unwrap();
    assert_eq!(heartbeat.len(), 1);
    assert_eq!(heartbeat[0], standard_header([2, 0, 0]));
    // just sent: nothing due
    assert!(connection.update(&config, SECOND + 1).is_empty());
}

#[test]
fn lost_packets_are_resent_by_update() {
    let config = Config::default();
    let mut sender = create_virtual_connection();
    let payload = vec![5u8; 10];
    let first = sender
        .process_outgoing(PacketInfo::user_packet(&payload, DeliveryGuarantee::Reliable, OrderingGuarantee::Unordered), None, 0)
        .unwrap()
        .into_iter()
        .next()
        .unwrap()
        .contents();
    // an acknowledgement from the other side far ahead declares packet 0 lost
    let mut ack = standard_header([0, 1, 0]);
    AckedPacketHeader::new(0, 100, 0).write(&mut ack);
    sender.process_incoming(&ack, 1).unwrap();
    let sends = sender.update(&config, 2);
    assert_eq!(sends.len(), 1);
    let resent = sends[0].as_ref().unwrap();
    assert_eq!(resent.len(), 1);
    // same payload, next sequence number
    assert_eq!(resent[0].len(), first.len());
    assert_eq!(&resent[0][resent[0].len() - 10..], payload.as_slice());
    assert_eq!(&resent[0][5..7], &1u16.to_be_bytes());
    assert!(sender.update(&config, 3).is_empty());
}

fn sent_datagrams(connection: &mut VirtualConnection, payload: &[u8], delivery: DeliveryGuarantee, ordering: OrderingGuarantee, last: Option<u16>) -> Vec<Vec<u8>> {
    let mut packets = connection
        .process_outgoing(PacketInfo::user_packet(payload, delivery, ordering), last, 0)
        .unwrap()
        .into_iter();
    let mut out = Vec::new();
    while let Some(packet) = packets.next() {
        out.push(packet.contents());
    }
    out
}

#[test]
fn a_resend_keeps_its_identifier_and_leaves_the_counter() {
    let mut connection = create_virtual_connection();
    let resent = sent_datagrams(&mut connection, &PAYLOAD, DeliveryGuarantee::Reliable, OrderingGuarantee::Ordered(Some(3)), Some(7));
    assert_eq!(resent.len(), 1);
    let header = ArrangingHeader::read(&resent[0], 13);
    assert_eq!((header.arranging_id(), header.stream_id()), (7, 3));
    // the stream's counter did not advance: the next fresh packet gets the first identifier
    let fresh = sent_datagrams(&mut connection, &PAYLOAD, DeliveryGuarantee::Reliable, OrderingGuarantee::Ordered(Some(3)), None);
    assert_eq!(ArrangingHeader::read(&fresh[0], 13).arranging_id(), 0);
    // both are in flight
    assert_eq!(connection.packets_in_flight(), 2);
}

#[test]
fn a_reliable_send_adds_one_packet_in_flight_however_many_fragments() {
    let mut connection = create_virtual_connection();
    assert_eq!(sent_datagrams(&mut connection, &vec![1; 4000], DeliveryGuarantee::Reliable, OrderingGuarantee::Unordered, None).len(), 4);
    assert_eq!(connection.packets_in_flight(), 1);
    sent_datagrams(&mut connection, &PAYLOAD, DeliveryGuarantee::Unreliable, OrderingGuarantee::Unordered, None);
    assert_eq!(connection.packets_in_flight(), 1);
    sent_datagrams(&mut connection, &PAYLOAD, DeliveryGuarantee::Reliable, OrderingGuarantee::Unordered, None);
    assert_eq!(connection.packets_in_flight(), 2);
}

#[test]
fn a_system_and_a_connection_fed_the_same_frames_agree() {
    let mut sender = create_virtual_connection();
    let mut system = laminar::net::reliability_system::ReliabilitySystem::new(&Config::default(), 0);
    let mut connection = create_virtual_connection();
    let orderings = [
        OrderingGuarantee::Unordered,
        OrderingGuarantee::Ordered(None),
        OrderingGuarantee::Sequenced(Some(2)),
    ];
    for (i, ordering) in orderings.iter().cycle().take(12).enumerate() {
        let delivery = if i % 2 == 0 { DeliveryGuarantee::Reliable } else { DeliveryGuarantee::Unreliable };
        for datagram in sent_datagrams(&mut sender, &[i as u8], delivery, *ordering, None) {
            let mut from_system = Vec::new();
            let mut packets = system.process_incoming(get_fake_addr(), &datagram, 0).unwrap().into_iter();
            while let Some(p) = packets.next() {
                from_system.push(p);
            }
            let mut from_connection = Vec::new();
            let mut packets = connection.process_incoming(&datagram, 0).unwrap().into_iter();
            while let Some(p) = packets.next() {
                from_connection.push(p);
            }
            assert_eq!(from_system, from_connection);
        }
    }
}

#[test]
fn a_system_and_a_connection_agree_on_refused_frames_too() {
    let mut sender = create_virtual_connection();
    let mut system = laminar::net::reliability_system::ReliabilitySystem::new(&Config::default(), 0);
    let mut connection = create_virtual_connection();
    let mut frames: Vec<Vec<u8>> = vec![vec![1, 2], vec![0, 0, 0, 0, 0]];
    // a reliable packet without its acknowledgement header, and an unknown packet type
    frames.push(standard_header([0, 1, 0]));
    frames.push(standard_header([9, 0, 0]));
    for i in 0..4u8 {
        frames.extend(sent_datagrams(&mut sender, &[i], DeliveryGuarantee::Reliable, OrderingGuarantee::Ordered(Some(1)), None));
    }
    for frame in frames.iter() {
        let from_system = system
            .process_incoming(get_fake_addr(), frame, 0)
            .map(|packets| {
                let mut all = Vec::new();
                let mut it = packets.into_iter();
                while let Some(p) = it.next() {
                    all.push(p);
                }
                all
            });
        let from_connection = connection.process_incoming(frame, 0).map(|packets| {
            let mut all = Vec::new();
            let mut it = packets.into_iter();
            while let Some(p) = it.next() {
                all.push(p);
            }
            all
        });
        assert_eq!(from_system, from_connection);
    }
    assert_eq!(system.last_heard(5), connection.last_heard(5));
}
