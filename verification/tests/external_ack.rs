use laminar::net::ExternalAcks;

#[test]
fn external_ack_acking_single_packet() {
    let mut acks: ExternalAcks = Default::default();
    acks.ack(0);

    assert_eq!(acks.last_seq, 0);
    assert_eq!(acks.field, 0);
}

#[test]
fn external_ack_acking_several_packets() {
    let mut acks: ExternalAcks = Default::default();
    acks.ack(0);
    acks.ack(1);
    acks.ack(2);

    assert_eq!(acks.last_seq, 2);
    assert_eq!(acks.field, 1 | (1 << 1));
}

#[test]
fn acking_several_packets_out_of_order() {
    let mut acks: ExternalAcks = Default::default();
    acks.ack(1);
    acks.ack(0);
    acks.ack(2);

    assert_eq!(acks.last_seq, 2);
    assert_eq!(acks.field, 1 | (1 << 1));
}

#[test]
fn acking_a_nearly_full_set_of_packets() {
    let mut acks: ExternalAcks = Default::default();

    for i in 0..32 {
        acks.ack(i);
    }

    assert_eq!(acks.last_seq, 31);
    assert_eq!(acks.field, !0 >> 1);
}

#[test]
fn external_ack_acking_a_full_set_of_packets() {
    let mut acks: ExternalAcks = Default::default();

    for i in 0..33 {
        acks.ack(i);
    }

    assert_eq!(acks.last_seq, 32);
    assert_eq!(acks.field, !0);
}

#[test]
fn acking_to_the_edge_forward() {
    let mut acks: ExternalAcks = Default::default();
    acks.ack(0);
    acks.ack(32);

    assert_eq!(acks.last_seq, 32);
    assert_eq!(acks.field, 1 << 31);
}

#[test]
fn acking_too_far_forward() {
    let mut acks: ExternalAcks = Default::default();
    acks.ack(0);
    acks.ack(1);
    acks.ack(34);

    assert_eq!(acks.last_seq, 34);
    assert_eq!(acks.field, 0);
}

#[test]
fn acking_a_whole_buffer_too_far_forward() {
    let mut acks: ExternalAcks = Default::default();
    acks.ack(0);
    acks.ack(60);

    assert_eq!(acks.last_seq, 60);
    assert_eq!(acks.field, 0);
}

#[test]
fn acking_too_far_backward() {
    let mut acks: ExternalAcks = Default::default();
    acks.ack(33);
    acks.ack(0);

    assert_eq!(acks.last_seq, 33);
    assert_eq!(acks.field, 0);
}

#[test]
fn external_ack_acking_around_zero() {
    let mut acks: ExternalAcks = Default::default();

    for i in 0..33_u16 {
        acks.ack(i.wrapping_sub(16));
    }
    assert_eq!(acks.last_seq, 16);
    assert_eq!(acks.field, !0);
}

#[test]
fn ignores_old_packets() {
    let mut acks: ExternalAcks = Default::default();
    acks.ack(40);
    acks.ack(0);
    assert_eq!(acks.last_seq, 40);
    assert_eq!(acks.field, 0);
}

#[test]
fn ignores_really_old_packets() {
    let mut acks: ExternalAcks = Default::default();
    acks.ack(30000);
    acks.ack(0);
    assert_eq!(acks.last_seq, 30000);
    assert_eq!(acks.field, 0);
}

#[test]
fn skips_missing_acks_correctly() {
    let mut acks: ExternalAcks = Default::default();
    acks.ack(0);
    acks.ack(1);
    acks.ack(6);
    acks.ack(4);
    assert_eq!(acks.last_seq, 6);
    assert_eq!(
        acks.field,
        0        | // 5 (missing)
                   (1 << 1) | // 4 (present)
                   (0 << 2) | // 3 (missing)
                   (0 << 3) | // 2 (missing)
                   (1 << 4) | // 1 (present)
                   (1 << 5) // 0 (present)
    );
}

#[test]
fn a_fresh_record_takes_the_first_sequence_number_as_is() {
    let mut acks = ExternalAcks::new();
    acks.ack(500);
    assert_eq!(acks.last_seq, 500);
    assert_eq!(acks.field, 0);
}

#[test]
fn acking_the_same_packet_twice_changes_nothing() {
    let mut acks: ExternalAcks = Default::default();
    acks.ack(3);
    acks.ack(5);
    let (last_seq, field) = (acks.last_seq, acks.field);
    acks.ack(5);
    acks.ack(3);
    assert_eq!(acks.last_seq, last_seq);
    assert_eq!(acks.field, field);
    assert_eq!(acks.field, 1 << 1);
}

#[test]
fn a_history_of_acks_remembers_exactly_what_arrived() {
    let mut acks: ExternalAcks = Default::default();
    for seq in [5u16, 7, 6, 9] {
        acks.ack(seq);
    }
    // 9 is the newest; 7 lies 2 behind, 6 lies 3 behind and 5 lies 4 behind it
    assert_eq!(acks.last_seq, 9);
    assert_eq!(acks.field, 0b1110);
}
