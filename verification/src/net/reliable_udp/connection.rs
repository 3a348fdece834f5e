use vstd::prelude::*;

use super::packet::lost_packets;
use crate::net::local_ack::settled_keys;
use super::{AckRecord, ExternalAcks};
use crate::infrastructure::acknowledgment::next_seq;

verus! {

/// Contains the information about a certain 'virtual connection' over udp.
/// This stores information about the last sequence number, dropped packages, packages waiting for acknowledgement and acknowledgements gotten from the other side.
#[derive(Debug)]
pub struct Connection<P> {
    pub seq_num: u16,
    pub dropped_packets: Vec<P>,
    pub waiting_packets: AckRecord<P>,
    pub their_acks: ExternalAcks,
}

/// What a connection holds: its sequence number, the packets declared lost, the packets
/// waiting for acknowledgement by sequence number, and the acknowledgements received.
pub struct ConnectionView<P> {
    pub seq_num: u16,
    pub dropped_packets: Seq<P>,
    pub waiting_packets: Map<u16, P>,
    pub their_acks: ExternalAcks,
}

impl<P> ConnectionView<P> {
    /// A connection that has sent and received nothing yet.
    pub open spec fn fresh() -> ConnectionView<P> {
        ConnectionView {
            seq_num: 0,
            dropped_packets: Seq::empty(),
            waiting_packets: Map::empty(),
            their_acks: ExternalAcks::fresh(),
        }
    }

    /// Whether processing a received header with sequence number `seq`, acknowledging
    /// `ack_seq` with the bit field `ack_field`, takes the connection from `self` to `after`:
    /// `seq` is recorded, the packets acknowledged or declared lost stop waiting, and the
    /// ones declared lost take the place of those kept before.
    pub open spec fn received(self, after: Self, seq: u16, ack_seq: u16, ack_field: u32) -> bool {
        &&& after.their_acks == self.their_acks.after_ack(seq)
        &&& after.waiting_packets == self.waiting_packets.remove_keys(settled_keys(ack_seq, ack_field))
        &&& exists|lost: Seq<(u16, P)>|
            #[trigger] lost_packets(lost, self.waiting_packets, ack_seq) && after.dropped_packets == lost.map_values(
                |e: (u16, P)| e.1,
            )
        &&& after.seq_num == self.seq_num
    }
}

impl<P> View for Connection<P> {
    type V = ConnectionView<P>;

    open spec fn view(&self) -> ConnectionView<P> {
        ConnectionView {
            seq_num: self.seq_num,
            dropped_packets: self.dropped_packets@,
            waiting_packets: self.waiting_packets@,
            their_acks: self.their_acks,
        }
    }
}

impl<P> Connection<P> {
    /// Creates a connection that has sent and received nothing yet.
    pub fn new() -> (connection: Connection<P>)
        ensures
            connection@ == ConnectionView::<P>::fresh(),
    {
        Connection {
            seq_num: 0,
            dropped_packets: Vec::new(),
            waiting_packets: AckRecord::new(),
            their_acks: ExternalAcks::new(),
        }
    }

    /// Records a packet as sent on this connection: it waits for acknowledgement under the
    /// connection's sequence number, which then advances. Returns the header fields the
    /// packet goes out with: its sequence number, and the newest sequence number and the bit
    /// field received from the other side.
    pub fn pre_process_packet(&mut self, packet: P) -> (header: (u16, u16, u32))
        ensures
            header == (old(self).seq_num, old(self).their_acks.last_seq, old(self).their_acks.field),
            final(self).waiting_packets@ == old(self).waiting_packets@.insert(old(self).seq_num, packet),
            final(self).seq_num == next_seq(old(self).seq_num),
            final(self).their_acks == old(self).their_acks,
            final(self).dropped_packets@ == old(self).dropped_packets@,
    {
        let header = (self.seq_num, self.their_acks.last_seq, self.their_acks.field);
        // queue new packet
        self.waiting_packets.enqueue(self.seq_num, packet);
        // increase sequence number
        self.seq_num = self.seq_num.wrapping_add(1);
        header
    }

    /// Processes the header of a packet received from the other side: records its sequence
    /// number, settles the waiting packets it acknowledges or declares lost, and keeps the
    /// ones it declares lost, in place of those kept before.
    pub fn process_received(&mut self, seq: u16, ack_seq: u16, ack_field: u32)
        ensures
            old(self)@.received(final(self)@, seq, ack_seq, ack_field),
    {
        self.their_acks.ack(seq);
        let lost = self.waiting_packets.ack(ack_seq, ack_field);
        let ghost lost_view = lost@;
        let mut dropped: Vec<P> = Vec::new();
        for entry in it: lost
            invariant
                it.seq() == lost_view,
                dropped@ == lost_view.take(it.index()).map_values(|e: (u16, P)| e.1),
        {
            proof {
                assert(lost_view.take(it.index() + 1).map_values(|e: (u16, P)| e.1) =~= lost_view.take(
                    it.index(),
                ).map_values(|e: (u16, P)| e.1).push(lost_view[it.index()].1));
            }
            dropped.push(entry.1);
        }
        proof {
            assert(lost_view.take(lost_view.len() as int) =~= lost_view);
            assert(lost_packets(lost_view, old(self).waiting_packets@, ack_seq));
        }
        self.dropped_packets = dropped;
    }

    /// Hands out the packets declared lost and forgets them.
    pub fn dropped_packets(&mut self) -> (dropped: Vec<P>)
        ensures
            dropped@ == old(self).dropped_packets@,
            final(self).dropped_packets@ == Seq::<P>::empty(),
            final(self).seq_num == old(self).seq_num,
            final(self).waiting_packets@ == old(self).waiting_packets@,
            final(self).their_acks == old(self).their_acks,
    {
        let mut dropped: Vec<P> = Vec::new();
        std::mem::swap(&mut dropped, &mut self.dropped_packets);
        dropped
    }
}

/// This defines whether the connection is good or bad.
/// We should use this for handling Congestion Avoidance so that when the network of the client is bad we do not flood the router with small packets.
///
/// When network conditions are `Good` we send 30 packets per-second, and when network conditions are `Bad` we drop to 10 packets per-second.
pub enum ConnectionQuality {
    Good,
    Bad,
}

} // verus!
