use vstd::prelude::*;

use crate::net::external_ack::ExternalAcks;
use crate::net::local_ack::{LocalAckRecord, is_dropped_by, lists_entries, settled_keys};
use crate::packet::{OrderingGuarantee, PacketType, SentPacket};

verus! {

/// The number that follows `seq` on the 16-bit circle.
pub open spec fn next_seq(seq: u16) -> u16 {
    if seq == u16::MAX {
        0
    } else {
        (seq + 1) as u16
    }
}

/// Whether `lost` lists, each once, the packets of `in_flight` that the acknowledgement
/// `ack_seq` declares lost.
pub open spec fn lost_entries(lost: Seq<(u16, SentPacket)>, in_flight: Map<u16, SentPacket>, ack_seq: u16) -> bool {
    lists_entries(lost, in_flight, |k: u16| is_dropped_by(k, ack_seq))
}

/// Whether `new` is `old` after processing the acknowledgement information of a received
/// packet: its sequence number `remote_seq` is recorded, the sent packets that
/// `remote_ack_seq` and `remote_ack_field` acknowledge or declare lost are settled, and the
/// lost ones are queued for resending, each once.
pub open spec fn acks_received(
    old: AcknowledgmentHandler,
    new: AcknowledgmentHandler,
    remote_seq: u16,
    remote_ack_seq: u16,
    remote_ack_field: u32,
) -> bool {
    &&& new.spec_local_sequence_num() == old.spec_local_sequence_num()
    &&& new.spec_their_acks() == old.spec_their_acks().after_ack(remote_seq)
    &&& new.spec_in_flight() == old.spec_in_flight().remove_keys(
        settled_keys(remote_ack_seq, remote_ack_field),
    )
    &&& exists|lost: Seq<(u16, SentPacket)>|
        #[trigger] lost_entries(lost, old.spec_in_flight(), remote_ack_seq) && new.spec_dropped()
            == old.spec_dropped() + lost.map_values(|e: (u16, SentPacket)| e.1)
}

/// Keeps the acknowledgement state of a connection: the sequence number of the next packet
/// sent, the acknowledgements received of the other side's packets, the packets sent and not
/// yet acknowledged, and the packets declared lost.
#[derive(Debug)]
pub struct AcknowledgmentHandler {
    sequence_number: u16,
    their_acks: ExternalAcks,
    sent_packets: LocalAckRecord<SentPacket>,
    dropped: Vec<SentPacket>,
}

impl AcknowledgmentHandler {
    /// The sequence number the next reliable packet gets.
    pub closed spec fn spec_local_sequence_num(&self) -> u16 {
        self.sequence_number
    }

    /// What has been received from the other side.
    pub closed spec fn spec_their_acks(&self) -> ExternalAcks {
        self.their_acks
    }

    /// The packets sent and awaiting acknowledgement, by sequence number.
    pub closed spec fn spec_in_flight(&self) -> Map<u16, SentPacket> {
        self.sent_packets@
    }

    /// The packets declared lost and not yet collected.
    pub closed spec fn spec_dropped(&self) -> Seq<SentPacket> {
        self.dropped@
    }

    /// The packets in flight are finitely many.
    pub proof fn lemma_in_flight_finite(&self)
        ensures
            self.spec_in_flight().dom().finite(),
    {
        self.sent_packets.lemma_finite();
    }

    /// Creates a handler that has sent and received nothing.
    pub fn new() -> (handler: AcknowledgmentHandler)
        ensures
            handler.spec_local_sequence_num() == 0,
            handler.spec_their_acks() == ExternalAcks::fresh(),
            handler.spec_in_flight() == Map::<u16, SentPacket>::empty(),
            handler.spec_dropped() == Seq::<SentPacket>::empty(),
    {
        AcknowledgmentHandler {
            sequence_number: 0,
            their_acks: ExternalAcks::new(),
            sent_packets: LocalAckRecord::new(),
            dropped: Vec::new(),
        }
    }

    /// The number of packets awaiting acknowledgement, counted in 16 bits.
    pub fn packets_in_flight(&self) -> (n: u16)
        ensures
            n == (self.spec_in_flight().dom().len() % 65536) as u16,
    {
        let n = self.sent_packets.size();
        (n % 65536) as u16
    }

    /// The sequence number the next reliable packet gets.
    pub fn local_sequence_num(&self) -> (seq: u16)
        ensures
            seq == self.spec_local_sequence_num(),
    {
        self.sequence_number
    }

    /// The newest sequence number received from the other side.
    pub fn remote_sequence_num(&self) -> (seq: u16)
        ensures
            seq == self.spec_their_acks().last_seq,
    {
        self.their_acks.last_seq
    }

    /// The bits acknowledging the 32 packets before the newest one received.
    pub fn ack_bitfield(&self) -> (field: u32)
        ensures
            field == self.spec_their_acks().field,
    {
        self.their_acks.field
    }

    /// Records a reliable packet as sent under the current sequence number, then advances it.
    pub fn process_outgoing(
        &mut self,
        packet_type: PacketType,
        payload: &[u8],
        ordering_guarantee: OrderingGuarantee,
        item_identifier: Option<u16>,
    )
        ensures
            final(self).spec_local_sequence_num() == next_seq(old(self).spec_local_sequence_num()),
            final(self).spec_in_flight() == old(self).spec_in_flight().insert(
                old(self).spec_local_sequence_num(),
                SentPacket {
                    packet_type,
                    payload: final(self).spec_in_flight()[old(self).spec_local_sequence_num()].payload,
                    ordering_guarantee,
                    item_identifier,
                },
            ),
            final(self).spec_in_flight()[old(self).spec_local_sequence_num()].payload@ == payload@,
            final(self).spec_their_acks() == old(self).spec_their_acks(),
            final(self).spec_dropped() == old(self).spec_dropped(),
    {
        let sent = SentPacket {
            packet_type,
            payload: vstd::slice::slice_to_vec(payload),
            ordering_guarantee,
            item_identifier,
        };
        self.sent_packets.enqueue(self.sequence_number, sent);
        self.sequence_number = self.sequence_number.wrapping_add(1);
    }

    /// Processes the acknowledgement information of a packet received from the other side:
    /// records its sequence number, settles the packets it acknowledges or declares lost, and
    /// keeps the lost ones for resending.
    pub fn process_incoming(&mut self, remote_seq: u16, remote_ack_seq: u16, remote_ack_field: u32)
        ensures
            acks_received(*old(self), *final(self), remote_seq, remote_ack_seq, remote_ack_field),
    {
        self.their_acks.ack(remote_seq);
        let lost = self.sent_packets.ack(remote_ack_seq, remote_ack_field);
        let ghost lost_view = lost@;
        let ghost start = self.dropped@;
        let ghost seq_now = self.sequence_number;
        let ghost acks_now = self.their_acks;
        let ghost flight_now = self.sent_packets@;
        for entry in it: lost
            invariant
                it.seq() == lost_view,
                self.sequence_number == seq_now,
                self.their_acks == acks_now,
                self.sent_packets@ == flight_now,
                self.dropped@ == start + lost_view.take(it.index()).map_values(|e: (u16, SentPacket)| e.1),
            ensures
                self.dropped@ == start + lost_view.map_values(|e: (u16, SentPacket)| e.1),
                self.sequence_number == seq_now,
                self.their_acks == acks_now,
                self.sent_packets@ == flight_now,
        {
            proof {
                assert(lost_view.take(it.index() + 1).map_values(|e: (u16, SentPacket)| e.1) =~= lost_view.take(
                    it.index(),
                ).map_values(|e: (u16, SentPacket)| e.1).push(lost_view[it.index()].1));
            }
            self.dropped.push(entry.1);
        }
        proof {
            assert(lost_entries(lost_view, old(self).spec_in_flight(), remote_ack_seq));
        }
    }

    /// Returns the packets declared lost and forgets them.
    pub fn dropped_packets(&mut self) -> (dropped: Vec<SentPacket>)
        ensures
            dropped@ == old(self).spec_dropped(),
            final(self).spec_dropped() == Seq::<SentPacket>::empty(),
            final(self).spec_local_sequence_num() == old(self).spec_local_sequence_num(),
            final(self).spec_their_acks() == old(self).spec_their_acks(),
            final(self).spec_in_flight() == old(self).spec_in_flight(),
    {
        let mut dropped = Vec::new();
        std::mem::swap(&mut dropped, &mut self.dropped);
        dropped
    }
}

} // verus!
