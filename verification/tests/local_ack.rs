use laminar::net::LocalAckRecord;
use laminar::packet::{IpAddress, Packet, SocketAddress};

fn dummy_packet() -> Packet {
    let addr = SocketAddress { ip: IpAddress::V4(0), port: 12345 };
    Packet::unreliable(addr, Vec::new())
}

#[test]
fn local_ack_acking_single_packet() {
    let mut record: LocalAckRecord<Packet> = Default::default();
    record.enqueue(0, dummy_packet());
    let dropped = record.ack(0, 0);
    assert_eq!(dropped.len(), 0);
    assert!(record.is_empty());
}

#[test]
fn local_ack_acking_several_packets() {
    let mut record: LocalAckRecord<Packet> = Default::default();
    record.enqueue(0, dummy_packet());
    record.enqueue(1, dummy_packet());
    record.enqueue(2, dummy_packet());
    let dropped = record.ack(2, 1 | (1 << 1));
    assert_eq!(dropped.len(), 0);
    assert!(record.is_empty());
}

#[test]
fn local_ack_acking_a_full_set_of_packets() {
    let mut record: LocalAckRecord<Packet> = Default::default();

    for i in 0..33 {
        record.enqueue(i, dummy_packet())
    }

    let dropped = record.ack(32, !0);

    assert_eq!(dropped.len(), 0);
    assert!(record.is_empty());
}

#[test]
fn dropping_one_packet() {
    let mut record: LocalAckRecord<Packet> = Default::default();

    for i in 0..33 {
        record.enqueue(i, dummy_packet());
    }

    let dropped = record.ack(33, !0);

    assert_eq!(dropped, vec![(0, dummy_packet())]);
    assert!(record.is_empty());
}

#[test]
fn local_ack_acking_around_zero() {
    let mut record: LocalAckRecord<Packet> = Default::default();

    for i in 0..33_u16 {
        record.enqueue(i.wrapping_sub(16), dummy_packet());
    }

    let dropped = record.ack(16, !0);

    assert_eq!(dropped.len(), 0);
    assert!(record.is_empty());
}

#[test]
fn not_dropping_new_packets() {
    let mut record: LocalAckRecord<Packet> = Default::default();
    record.enqueue(0, dummy_packet());
    record.enqueue(1, dummy_packet());
    record.enqueue(2, dummy_packet());
    record.enqueue(5, dummy_packet());
    record.enqueue(30000, dummy_packet());
    let dropped = record.ack(1, 1);
    assert_eq!(dropped.len(), 0);
    assert_eq!(record.len(), 3);
}

#[test]
fn drops_old_packets() {
    let mut record: LocalAckRecord<Packet> = Default::default();
    record.enqueue(0, dummy_packet());
    record.enqueue(40, dummy_packet());
    let dropped = record.ack(40, 0);
    assert_eq!(dropped, vec![(0, dummy_packet())]);
    assert!(record.is_empty());
}

#[test]
fn drops_really_old_packets() {
    let mut record: LocalAckRecord<Packet> = Default::default();
    record.enqueue(50000, dummy_packet());
    record.enqueue(0, dummy_packet());
    record.enqueue(1, dummy_packet());
    let dropped = record.ack(1, 1);
    assert_eq!(dropped, vec![(50000, dummy_packet())]);
    assert!(record.is_empty());
}

#[test]
fn enqueueing_twice_under_one_sequence_number_keeps_the_last() {
    let mut record: LocalAckRecord<u32> = LocalAckRecord::new();
    record.enqueue(7, 1);
    record.enqueue(7, 2);
    assert_eq!(record.len(), 1);
    let dropped = record.ack(7 + 33, 0);
    assert_eq!(dropped, vec![(7, 2)]);
}
