use laminar::error::{ErrorKind, FragmentErrorKind, PacketErrorKind};
use laminar::net::socket_state::{split_is_defined, SocketState, TIMEOUT_DEFAULT};
use laminar::net::connection::active_connections::RemovalEvent;
use laminar::net::{ActiveConnections, ConnectionController, NetworkConfig, SocketEvent};
use laminar::infrastructure::fragmentation::Fragmentation;
use laminar::net::constants;
use laminar::packet::header::{AckedPacketHeader, FragmentHeader};
use laminar::packet::{IpAddress, Packet, SocketAddress};
use laminar::Config;

const MILLI: u64 = 1_000_000;
const NOW: u64 = 1_000_000_000;

fn address(port: u16) -> SocketAddress {
    SocketAddress { ip: IpAddress::V4(0x7f00_0001), port }
}

fn address_12345() -> SocketAddress {
    address(12345)
}

#[test]
fn connection_connection_timed_out() {
    let mut connections = ActiveConnections::new();
    let config = Config::default();

    let now = NOW;

    // add 10 clients
    for i in 0..10 {
        connections.get_or_insert_connection(address(12220 + i), &config, now);
    }

    assert_eq!(connections.count(), 10);

    let wait = 200 * MILLI;
    let epsilon = 1;

    let timed_out_connections = connections.idle_connections(wait, now + wait - epsilon);
    assert_eq!(timed_out_connections.len(), 0);

    let timed_out_connections = connections.idle_connections(wait, now + wait + epsilon);
    assert_eq!(timed_out_connections.len(), 10);
}

#[test]
fn connection_insert_connection() {
    let mut connections = ActiveConnections::new();
    let config = Config::default();

    let address = address_12345();
    connections.get_or_insert_connection(address, &config, NOW);
    assert!(connections.contains(&address));
}

#[test]
fn connection_insert_existing_connection() {
    let mut connections = ActiveConnections::new();
    let config = Config::default();

    let address = address_12345();
    connections.get_or_insert_connection(address, &config, NOW);
    assert!(connections.contains(&address));
    connections.get_or_insert_connection(address, &config, NOW);
    assert!(connections.contains(&address));
    assert_eq!(connections.count(), 1);
}

#[test]
fn remove_connection() {
    let mut connections = ActiveConnections::new();
    let config = Config::default();

    let address = address_12345();
    connections.get_or_insert_connection(address, &config, NOW);
    assert!(connections.contains(&address));
    connections.remove_connection(&address);
    assert!(!connections.contains(&address));
}

#[test]
fn remove_non_existent_connection() {
    let mut connections = ActiveConnections::new();

    let address = address_12345();
    let (removed, events) = connections.remove_connection(&address);
    assert!(removed.is_none());
    assert!(events.is_empty());
    assert!(!connections.contains(&address));
}

// The pool of connections keeps its connections in an `ActiveConnections` registry; these
// exercise the registry the way the pool does.

#[test]
fn connection_pool_connection_timed_out() {
    let mut connections = ActiveConnections::new();
    let config = Config::default();

    // add 10 clients
    for i in 0..10 {
        connections.get_or_insert_connection(address(12330 + i), &config, NOW);
    }

    assert_eq!(connections.count(), 10);

    // a little longer than the polling interval later
    let later = NOW + 700 * MILLI;
    let timed_out_connections = connections.idle_connections(500 * MILLI, later);

    assert_eq!(timed_out_connections.len(), 10);
}

#[test]
fn connection_pool_insert_connection() {
    let mut connections = ActiveConnections::new();

    let addr = address_12345();
    connections.get_or_insert_connection(addr, &Config::default(), NOW);
    assert!(connections.contains(&addr));
}

#[test]
fn connection_pool_insert_existing_connection() {
    let mut connections = ActiveConnections::new();

    let addr = address_12345();
    connections.get_or_insert_connection(addr, &Config::default(), NOW);
    assert!(connections.contains(&addr));
    connections.get_or_insert_connection(addr, &Config::default(), NOW);
    assert!(connections.contains(&addr));
}

#[test]
fn removes_connection() {
    let mut connections = ActiveConnections::new();

    let addr = address_12345();
    connections.get_or_insert_connection(addr, &Config::default(), NOW);
    assert!(connections.contains(&addr));
    let (removed, events) = connections.remove_connection(&addr);
    assert_eq!(removed.map(|(a, _)| a), Some(addr));
    // the connection was never established: it is only destroyed
    assert_eq!(events, vec![RemovalEvent::Destroyed(addr)]);
    assert!(!connections.contains(&addr));
}

#[test]
fn remove_not_existing_connection() {
    let mut connections = ActiveConnections::new();

    let addr = address_12345();
    connections.remove_connection(&addr);
    assert!(!connections.contains(&addr));
}

#[test]
fn idle_connections_lists_only_the_silent_ones_in_order() {
    let mut connections = ActiveConnections::new();
    let config = Config::default();
    connections.get_or_insert_connection(address(1), &config, NOW);
    connections.get_or_insert_connection(address(2), &config, NOW + 100 * MILLI);
    connections.get_or_insert_connection(address(3), &config, NOW);

    let idle = connections.idle_connections(150 * MILLI, NOW + 200 * MILLI);
    assert_eq!(idle, vec![address(1), address(3)]);
}

#[test]
fn receiving_alone_adds_no_connection() {
    let config = Config::default();
    let mut client = ActiveConnections::new();
    let mut server = ActiveConnections::new();

    let mut datagrams = Vec::new();
    for _ in 0..3 {
        let packet = Packet::unreliable(address(2), vec![1, 2, 3, 4, 5, 6, 7, 8, 9]);
        let (connect, sent) = client.process_user_packet(&config, &packet, NOW);
        assert!(connect.is_none());
        datagrams.extend(sent.unwrap());
    }
    assert_eq!(datagrams.len(), 3);

    // each datagram from the unknown client raises a connect event and a packet event: six in all
    let mut events = Vec::new();
    for datagram in &datagrams {
        let (connect, received) = server.process_received(&config, address(1), datagram, NOW);
        events.extend(connect);
        events.extend(received.unwrap());
    }
    assert_eq!(events.len(), 6);
    for pair in events.chunks(2) {
        assert_eq!(
            pair,
            &vec![
                SocketEvent::Connect(address(1)),
                SocketEvent::Packet(Packet::unreliable(address(1), vec![1, 2, 3, 4, 5, 6, 7, 8, 9])),
            ][..]
        );
    }
    // the server shall not have any connection in its table even though it received packets
    assert_eq!(server.count(), 0);

    let reply = Packet::unreliable(address(1), vec![1]);
    server.process_user_packet(&config, &reply, NOW);
    // the server only adds to its table after having sent explicitly
    assert_eq!(server.count(), 1);
}

#[test]
fn a_send_and_a_receipt_establish_a_connection() {
    let config = Config::default();
    let mut client = ActiveConnections::new();
    let mut server = ActiveConnections::new();

    let hello = Packet::reliable_unordered(address(2), b"Hello world!".to_vec());
    let (connect, sent) = client.process_user_packet(&config, &hello, NOW);
    assert!(connect.is_none());
    let sent = sent.unwrap();
    assert_eq!(sent.len(), 1);

    // the server answers, which registers the client with it
    let reply = Packet::reliable_unordered(address(1), b"Hi!".to_vec());
    let (connect, answer) = server.process_user_packet(&config, &reply, NOW);
    assert!(connect.is_none());

    let (connect, events) = server.process_received(&config, address(1), &sent[0], NOW);
    assert!(connect.is_none());
    let events = events.unwrap();
    assert_eq!(
        events,
        vec![
            SocketEvent::Connect(address(1)),
            SocketEvent::Packet(Packet::reliable_unordered(address(1), b"Hello world!".to_vec())),
        ]
    );

    let (connect, events) = client.process_received(&config, address(2), &answer.unwrap()[0], NOW);
    assert!(connect.is_none());
    let events = events.unwrap();
    assert_eq!(
        events,
        vec![
            SocketEvent::Connect(address(2)),
            SocketEvent::Packet(Packet::reliable_unordered(address(2), b"Hi!".to_vec())),
        ]
    );
}

#[test]
fn empty_datagram_is_refused() {
    let config = Config::default();
    let mut server = ActiveConnections::new();
    assert_eq!(
        server.process_received(&config, address(1), &[], NOW),
        (Some(SocketEvent::Connect(address(1))), Err(ErrorKind::ReceivedDataToShort))
    );
}

#[test]
fn dead_clients_are_dropped_with_their_events() {
    let config = Config::default();
    let mut connections = ActiveConnections::new();
    connections.get_or_insert_connection(address(1), &config, NOW);
    connections.get_or_insert_connection(address(2), &config, NOW + config.idle_connection_timeout);

    let events = connections.handle_dead_clients(&config, NOW + config.idle_connection_timeout);
    assert_eq!(events, vec![SocketEvent::Timeout(address(1))]);
    assert_eq!(connections.count(), 1);
    assert!(connections.contains(&address(2)));
    assert!(!connections.contains(&address(1)));
}

#[test]
fn established_dead_client_also_disconnects() {
    let config = Config::default();
    let mut client = ActiveConnections::new();
    let mut server = ActiveConnections::new();

    let hello = Packet::unreliable(address(2), vec![7]);
    let (_, sent) = client.process_user_packet(&config, &hello, NOW);
    server.process_user_packet(&config, &Packet::unreliable(address(1), vec![8]), NOW);
    server.process_received(&config, address(1), &sent.unwrap()[0], NOW).1.unwrap();

    let events = server.handle_dead_clients(&config, NOW + config.idle_connection_timeout);
    assert_eq!(events, vec![SocketEvent::Timeout(address(1)), SocketEvent::Disconnect(address(1))]);
    assert_eq!(server.count(), 0);
}

#[test]
fn update_connections_sends_heartbeats_on_established_connections() {
    let mut config = Config::default();
    config.heartbeat_interval = Some(100 * MILLI);
    let mut client = ActiveConnections::new();
    let mut server = ActiveConnections::new();

    let (_, sent) = client.process_user_packet(&config, &Packet::unreliable(address(2), vec![7]), NOW);
    server.process_user_packet(&config, &Packet::unreliable(address(1), vec![8]), NOW);
    server.process_received(&config, address(1), &sent.unwrap()[0], NOW).1.unwrap();

    let sends = server.update_connections(&config, NOW + 50 * MILLI);
    assert_eq!(sends.len(), 1);
    assert_eq!(sends[0].0, address(1));
    assert!(sends[0].1.is_empty());

    let sends = server.update_connections(&config, NOW + 100 * MILLI);
    assert_eq!(sends[0].1.len(), 1);
    let heartbeat = sends[0].1[0].as_ref().unwrap();
    assert_eq!(heartbeat.len(), 1);
    assert_eq!(heartbeat[0].len(), 5);

    // the client never received anything, so it sends no heartbeat
    let sends = client.update_connections(&config, NOW + 100 * MILLI);
    assert!(sends[0].1.is_empty());
}

const PACKET_HEADER_SIZE: usize = constants::ACKED_PACKET_HEADER as usize;
const FRAGMENT_HEADER_SIZE: usize = constants::FRAGMENT_HEADER_SIZE as usize;

fn sequence_of(datagram: &[u8]) -> u16 {
    AckedPacketHeader::read(datagram, 0).sequence()
}

#[test]
fn construct_packet_less_than_mtu() {
    let config = NetworkConfig::default();

    // - 1 so that packet can fit inside one fragment.
    let data = vec![0; config.fragment_size as usize - 1];

    let mut state = SocketState::new();
    let (addr, parts) = state.pre_process_packet(Packet::unreliable(address(12348), data.clone()), &config).unwrap();

    // check that there is only one fragment and that the data is right.
    assert_eq!(addr, address(12348));
    assert_eq!(parts.len(), 1);
    assert_eq!(parts[0].len(), data.len() + PACKET_HEADER_SIZE);
    assert_eq!(parts[0][PACKET_HEADER_SIZE..].to_vec(), data);
}

#[test]
fn construct_packet_greater_than_mtu() {
    let config = NetworkConfig::default();

    // test data
    let data = vec![0; config.fragment_size as usize * 4];

    let mut state = SocketState::new();
    let (_, parts) = state.pre_process_packet(Packet::unreliable(address(12348), data.clone()), &config).unwrap();

    let num_fragments = Fragmentation::fragments_needed(data.len() as u16, config.fragment_size);

    // check if packet is divided into fragment right
    assert_eq!(parts.len(), num_fragments as usize);

    // check if the first packet also contains the fragment header and packet header
    assert_eq!(parts[0].len(), PACKET_HEADER_SIZE + FRAGMENT_HEADER_SIZE + config.fragment_size as usize);
    // the others carry only the fragment header
    assert_eq!(parts[1].len(), FRAGMENT_HEADER_SIZE + config.fragment_size as usize);
}

#[test]
fn construct_packet_and_reassemble_less_than_mtu() {
    let config = NetworkConfig::default();

    // - 1 so that packet can fit inside one fragment.
    let data = vec![0; config.fragment_size as usize - 1];

    let mut state = SocketState::new();
    let (_, parts) = state.pre_process_packet(Packet::unreliable(address(12348), data.clone()), &config).unwrap();

    // check if you can parse headers from the previous assembled packet
    for packet_data in parts.iter() {
        let header = AckedPacketHeader::read(packet_data, 0);
        assert_eq!((header.sequence(), header.ack_seq(), header.ack_field()), (0, 0, 0));
    }
}

#[test]
fn construct_packet_and_reassemble_greater_than_mtu() {
    let config = NetworkConfig::default();

    // test data
    let data: Vec<u8> = (0..config.fragment_size as usize * 4).map(|i| (i % 251) as u8).collect();

    let mut state = SocketState::new();
    // a first packet, so that this one gets sequence number 1
    state.pre_process_packet(Packet::unreliable(address(12348), vec![9]), &config).unwrap();
    let (_, parts) = state.pre_process_packet(Packet::unreliable(address(12348), data.clone()), &config).unwrap();

    // check if you can parse headers from the previous assembled packet, and join the pieces
    let mut joined = Vec::new();
    for (i, packet_data) in parts.iter().enumerate() {
        let fragment = FragmentHeader::read(packet_data, 0);
        assert_eq!((fragment.sequence(), fragment.id(), fragment.fragment_count()), (1, i as u8, 4));
        let mut at = FRAGMENT_HEADER_SIZE;
        if i == 0 {
            let header = AckedPacketHeader::read(packet_data, at);
            assert_eq!((header.sequence(), header.ack_seq(), header.ack_field()), (1, 0, 0));
            at += PACKET_HEADER_SIZE;
        }
        joined.extend_from_slice(&packet_data[at..]);
    }
    assert_eq!(joined, data);
}

#[test]
fn socket_state_numbers_packets_per_connection() {
    let config = NetworkConfig::default();
    let mut state = SocketState::new();

    let (_, first) = state.pre_process_packet(Packet::unreliable(address(1), vec![1]), &config).unwrap();
    let (_, second) = state.pre_process_packet(Packet::unreliable(address(1), vec![2]), &config).unwrap();
    let (_, other) = state.pre_process_packet(Packet::unreliable(address(2), vec![3]), &config).unwrap();
    assert_eq!(sequence_of(&first[0]), 0);
    assert_eq!(sequence_of(&second[0]), 1);
    assert_eq!(sequence_of(&other[0]), 0);
}

#[test]
fn socket_state_refuses_too_large_packets() {
    let config = NetworkConfig::default();
    let mut state = SocketState::new();
    let data = vec![0; config.max_packet_size + 1];
    assert_eq!(
        state.pre_process_packet(Packet::unreliable(address(1), data).clone(), &config).err(),
        Some(ErrorKind::PacketError(PacketErrorKind::ExceededMaxPacketSize))
    );
    // nothing was recorded, so the next packet still gets the first sequence number
    let (_, parts) = state.pre_process_packet(Packet::unreliable(address(1), vec![1]), &config).unwrap();
    assert_eq!(sequence_of(&parts[0]), 0);
}

#[test]
fn socket_state_refuses_too_many_fragments_but_keeps_the_packet() {
    let mut config = NetworkConfig::default();
    config.max_fragments = 2;
    let mut state = SocketState::new();
    let data = vec![0; config.fragment_size as usize * 3];
    assert_eq!(
        state.pre_process_packet(Packet::unreliable(address(1), data), &config).err(),
        Some(ErrorKind::FragmentError(FragmentErrorKind::ExceededMaxFragments))
    );
    // the sequence number did not advance
    let (_, parts) = state.pre_process_packet(Packet::unreliable(address(1), vec![1]), &config).unwrap();
    assert_eq!(sequence_of(&parts[0]), 0);
}

#[test]
fn socket_state_reports_lost_packets() {
    let config = NetworkConfig::default();
    let mut state = SocketState::new();
    for i in 0..40u8 {
        state.pre_process_packet(Packet::unreliable(address(1), vec![i]), &config).unwrap();
    }
    // the other side acknowledges packet 39 with an empty bit field: the packets 33 and
    // older that are still waiting are declared lost
    state.process_received(address(1), &AckedPacketHeader::new(0, 39, 0));
    let dropped = state.dropped_packets(address(1));
    assert!(!dropped.is_empty());
    assert!(dropped.iter().all(|p| p.payload[0] <= 38));
    assert!(state.dropped_packets(address(1)).is_empty());
    assert_eq!(TIMEOUT_DEFAULT, 10);
}

#[test]
fn controller_creates_connections_and_reports_remote_ones() {
    let controller = ConnectionController::new(Config::default());
    let (connection, event) = controller.create_connection(address(1), NOW, Some(&[1, 2, 3]));
    assert_eq!(event, Some(SocketEvent::Connect(address(1))));
    assert_eq!(connection.remote_address(), address(1));
    assert!(!connection.is_established());

    let (_, event) = controller.create_connection(address(2), NOW, None);
    assert_eq!(event, None);
}

#[test]
fn controller_drops_idle_connections_with_a_timeout() {
    let config = Config::default();
    let controller = ConnectionController::new(config.clone());
    let (connection, _) = controller.create_connection(address(1), NOW, None);
    assert_eq!(controller.should_drop(&connection, NOW + config.idle_connection_timeout - 1), (false, None));
    assert_eq!(
        controller.should_drop(&connection, NOW + config.idle_connection_timeout),
        (true, Some(SocketEvent::Timeout(address(1))))
    );
}

#[test]
fn controller_exchanges_packets() {
    let controller = ConnectionController::new(Config::default());
    let (mut client, _) = controller.create_connection(address(2), NOW, None);
    let (mut server, _) = controller.create_connection(address(1), NOW, Some(&[]));

    let sent = controller.handle_event(&mut client, &Packet::reliable_unordered(address(2), vec![5, 6]), NOW).unwrap();
    assert_eq!(sent.len(), 1);
    let events = controller.handle_packet(&mut server, &sent[0], NOW).unwrap();
    assert_eq!(events, vec![SocketEvent::Packet(Packet::reliable_unordered(address(1), vec![5, 6]))]);
    assert_eq!(server.last_heard(NOW), 0);
}

#[test]
fn controller_sends_heartbeats_without_an_established_connection() {
    let mut config = Config::default();
    config.heartbeat_interval = Some(100 * MILLI);
    let controller = ConnectionController::new(config);
    let (mut connection, _) = controller.create_connection(address(1), NOW, None);

    assert!(controller.update(&mut connection, NOW + 99 * MILLI).is_empty());
    let sends = controller.update(&mut connection, NOW + 100 * MILLI);
    assert_eq!(sends.len(), 1);
    assert_eq!(sends[0].as_ref().unwrap()[0].len(), 5);
    // the heartbeat counts as a send
    assert!(controller.update(&mut connection, NOW + 150 * MILLI).is_empty());
}

#[test]
fn acknowledged_packet_stops_waiting() {
    let config = NetworkConfig::default();
    let mut state = SocketState::new();
    // packet 0 is acknowledged right away
    let (_, parts) = state.pre_process_packet(Packet::unreliable(address(1), vec![100]), &config).unwrap();
    assert_eq!(sequence_of(&parts[0]), 0);
    state.process_received(address(1), &AckedPacketHeader::new(0, 0, 0));
    // packets 1 to 40 are not
    for i in 1..=40u8 {
        state.pre_process_packet(Packet::unreliable(address(1), vec![i]), &config).unwrap();
    }
    // acknowledging 40 alone declares 1 to 7 lost, but not the acknowledged packet 0
    state.process_received(address(1), &AckedPacketHeader::new(1, 40, 0));
    let mut dropped: Vec<u8> = state.dropped_packets(address(1)).iter().map(|p| p.payload[0]).collect();
    dropped.sort();
    assert_eq!(dropped, vec![1, 2, 3, 4, 5, 6, 7]);
}

#[test]
fn socket_state_test_create_connection() {
    // 127.0.0.1:20000
    let addr = address(20000);
    assert_eq!(addr.port, 20000);
    let new_conn: laminar::net::reliable_udp::Connection<Packet> = laminar::net::reliable_udp::Connection::new();
    assert_eq!(new_conn.seq_num, 0);
    assert!(new_conn.dropped_packets.is_empty());
}

fn user_send(endpoint: &mut ActiveConnections, config: &Config, packet: Packet) -> Vec<Vec<u8>> {
    let (_, sent) = endpoint.process_user_packet(config, &packet, NOW);
    sent.unwrap()
}

fn resends(endpoint: &mut ActiveConnections, config: &Config) -> Vec<Vec<u8>> {
    let mut out = Vec::new();
    for (_, sends) in endpoint.update_connections(config, NOW) {
        for result in sends {
            out.extend(result.unwrap());
        }
    }
    out
}

fn deliver(endpoint: &mut ActiveConnections, config: &Config, from: SocketAddress, datagrams: Vec<Vec<u8>>) -> Vec<SocketEvent> {
    let mut events = Vec::new();
    for datagram in datagrams {
        let (connect, received) = endpoint.process_received(config, from, &datagram, NOW);
        events.extend(connect);
        events.extend(received.unwrap());
    }
    events
}

#[test]
fn lost_reliable_packet_is_resent() {
    let config = Config::default();
    let (client_addr, server_addr) = (address(10002), address(10001));
    let mut client = ActiveConnections::new();
    let mut server = ActiveConnections::new();

    // the two sides greet each other
    let hello = user_send(&mut client, &config, Packet::reliable_unordered(server_addr, b"hello".to_vec()));
    deliver(&mut server, &config, client_addr, hello);
    let hi = user_send(&mut server, &config, Packet::reliable_unordered(client_addr, b"hi".to_vec()));
    deliver(&mut client, &config, server_addr, hi);

    // then a packet never arrives
    let lost = user_send(&mut client, &config, Packet::reliable_unordered(server_addr, b"Do not arrive".to_vec()));
    assert_eq!(lost.len(), 1);

    for id in 0..u8::MAX {
        let mut to_server = user_send(&mut client, &config, Packet::reliable_unordered(server_addr, vec![id]));
        to_server.extend(resends(&mut client, &config));
        for event in deliver(&mut server, &config, client_addr, to_server) {
            if let SocketEvent::Packet(packet) = event {
                if packet.payload == b"Do not arrive".to_vec() {
                    // the loss is only noticed once the acknowledgements moved past it
                    assert!(id > 32);
                    return;
                }
            }
        }
        let to_client = user_send(&mut server, &config, Packet::reliable_unordered(client_addr, vec![id]));
        deliver(&mut client, &config, server_addr, to_client);
    }
    panic!("Did not receive the ignored packet");
}

#[test]
fn preparing_is_defined_only_where_the_split_fits() {
    let config = NetworkConfig::default();
    assert!(split_is_defined(4096, &config));
    // too large a payload is refused before it is split
    assert!(split_is_defined(config.max_packet_size + 1, &config));

    let mut no_fragments = NetworkConfig::default();
    no_fragments.fragment_size = 0;
    assert!(split_is_defined(0, &no_fragments));
    assert!(!split_is_defined(1, &no_fragments));
}

#[test]
fn inserting_keeps_the_held_connection() {
    let config = Config::default();
    let mut connections = ActiveConnections::new();
    let sends = connections.insert_and_init_connection(laminar::net::VirtualConnection::new(address(1), &config, NOW), &config, NOW);
    assert!(sends.is_empty());
    assert_eq!(connections.count(), 1);
    connections.insert_and_init_connection(laminar::net::VirtualConnection::new(address(1), &config, NOW + 5), &config, NOW + 5);
    assert_eq!(connections.count(), 1);
    // the connection held first stays: it was last heard from at its creation
    assert_eq!(connections.try_get(&address(1)).unwrap().last_heard(NOW + 5), 5);
    connections.insert_and_init_connection(laminar::net::VirtualConnection::new(address(2), &config, NOW), &config, NOW);
    assert_eq!(connections.count(), 2);
}

#[test]
fn removing_an_established_connection_disconnects_then_destroys() {
    let config = Config::default();
    let mut client = ActiveConnections::new();
    let mut server = ActiveConnections::new();
    let (_, sent) = client.process_user_packet(&config, &Packet::unreliable(address(2), vec![7]), NOW);
    server.process_user_packet(&config, &Packet::unreliable(address(1), vec![8]), NOW);
    server.process_received(&config, address(1), &sent.unwrap()[0], NOW).1.unwrap();

    let (removed, events) = server.remove_connection(&address(1));
    assert!(removed.is_some());
    assert_eq!(events, vec![RemovalEvent::Disconnected(address(1)), RemovalEvent::Destroyed(address(1))]);
    assert_eq!(server.count(), 0);
}
