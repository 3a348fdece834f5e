use vstd::prelude::*;

use crate::net::local_ack::{LocalAckRecord, is_dropped_by, lists_entries, settled_keys};

pub use crate::net::external_ack::ExternalAcks;

verus! {

/// The keys that the acknowledgement `seq` declares lost.
pub open spec fn lost_keys(seq: u16) -> Set<u16> {
    Set::new(|k: u16| is_dropped_by(k, seq))
}

/// Whether `lost` lists, each once, the packets of `waiting` that the acknowledgement `seq`
/// declares lost.
pub open spec fn lost_packets<P>(lost: Seq<(u16, P)>, waiting: Map<u16, P>, seq: u16) -> bool {
    lists_entries(lost, waiting, |k: u16| is_dropped_by(k, seq))
}

/// Packets waiting for an ack
///
/// Holds up to 32 packets waiting for ack
///
/// Additionally, holds packets "forward" of the current ack packet
#[derive(Debug)]
pub struct AckRecord<P> {
    packets: LocalAckRecord<P>,
}

impl<P> View for AckRecord<P> {
    type V = Map<u16, P>;

    closed spec fn view(&self) -> Map<u16, P> {
        self.packets@
    }
}

impl<P> AckRecord<P> {
    /// The packets waiting are finitely many.
    pub proof fn lemma_finite(&self)
        ensures
            self@.dom().finite(),
    {
        self.packets.lemma_finite();
    }

    /// Creates a record with no packet waiting.
    pub fn new() -> (record: AckRecord<P>)
        ensures
            record@ == Map::<u16, P>::empty(),
    {
        AckRecord { packets: LocalAckRecord::new() }
    }

    /// Checks whether no packet is waiting.
    pub fn is_empty(&mut self) -> (empty: bool)
        ensures
            *final(self) == *old(self),
            empty == (old(self)@.dom().len() == 0),
    {
        self.packets.is_empty()
    }

    /// The number of packets waiting.
    pub fn len(&mut self) -> (len: usize)
        ensures
            *final(self) == *old(self),
            len == old(self)@.dom().len(),
    {
        self.packets.len()
    }

    /// Adds a packet to the waiting packets; a packet waiting under the same sequence number
    /// is replaced.
    pub fn enqueue(&mut self, seq: u16, packet: P)
        ensures
            final(self)@ == old(self)@.insert(seq, packet),
            final(self)@.dom().finite(),
            final(self)@.dom().len() == old(self)@.dom().len() + if old(self)@.contains_key(seq) {
                0int
            } else {
                1int
            },
    {
        self.packets.enqueue(seq, packet)
    }

    /// Finds and removes acked packets, returning dropped packets: the packet numbered
    /// `seq` and those `seq_field` acknowledges leave the record, and so do the packets
    /// `seq` declares lost, which are handed back.
    pub fn ack(&mut self, seq: u16, seq_field: u32) -> (dropped: Vec<(u16, P)>)
        ensures
            final(self)@ == old(self)@.remove_keys(settled_keys(seq, seq_field)),
            lists_entries(dropped@, old(self)@, |k: u16| is_dropped_by(k, seq)),
    {
        self.packets.ack(seq, seq_field)
    }
}

impl<P> Default for AckRecord<P> {
    fn default() -> (record: Self)
        ensures
            record@ == Map::<u16, P>::empty(),
    {
        AckRecord::new()
    }
}

} // verus!
