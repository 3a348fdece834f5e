use vstd::prelude::*;

verus! {

/// Distance from `b` forward to `a` on the 16-bit sequence-number circle.
pub open spec fn seq_distance(a: u16, b: u16) -> u16 {
    ((a as int - b as int + 65536) % 65536) as u16
}

/// Third party's ack information.
///
/// So what does this mean?
///
/// Here we store information about the other side (virtual connection).
/// Like witch is the last sequence number from them.
#[derive(Debug)]
pub struct ExternalAcks {
    /// the last sequence number we have received from the other side.
    pub last_seq: u16,
    /// Bit `i` is set when the packet `last_seq - (i + 1)` has been received.
    pub field: u32,
    /// Whether a first sequence number has been recorded yet.
    pub initialized: bool,
}

impl ExternalAcks {
    /// A record that has not seen any packet yet.
    pub open spec fn fresh() -> ExternalAcks {
        ExternalAcks { last_seq: 0, field: 0, initialized: false }
    }

    /// Creates a record that has not seen any packet yet.
    pub fn new() -> (acks: ExternalAcks)
        ensures
            acks == ExternalAcks::fresh(),
    {
        ExternalAcks { last_seq: 0, field: 0, initialized: false }
    }

    /// The acknowledgement state that `ack(seq_num)` leaves behind.
    pub open spec fn acked(self, seq_num: u16) -> (u16, u32, bool) {
        if !self.initialized {
            (seq_num, self.field, true)
        } else {
            let pos_diff = seq_distance(seq_num, self.last_seq);
            let neg_diff = seq_distance(self.last_seq, seq_num);
            if pos_diff == 0 {
                (self.last_seq, self.field, true)
            } else if pos_diff < 32000 {
                if pos_diff <= 32 {
                    (seq_num, ((self.field << 1u32) | 1u32) << ((pos_diff - 1) as u32), true)
                } else {
                    (seq_num, 0u32, true)
                }
            } else if neg_diff <= 32 {
                (self.last_seq, self.field | (1u32 << ((neg_diff - 1) as u32)), true)
            } else {
                (self.last_seq, self.field, true)
            }
        }
    }

    /// Records that the packet with sequence number `seq_num` arrived from the other side.
    pub fn ack(&mut self, seq_num: u16)
        ensures
            *final(self) == old(self).after_ack(seq_num),
    {
        if !self.initialized {
            self.last_seq = seq_num;
            self.initialized = true;
            return;
        }

        let pos_diff = seq_num.wrapping_sub(self.last_seq);
        let neg_diff = self.last_seq.wrapping_sub(seq_num);

        if pos_diff == 0 {
            return;
        }

        if pos_diff < 32000 {
            if pos_diff <= 32 {
                self.field = ((self.field << 1u32) | 1u32) << ((pos_diff - 1) as u32);
            } else {
                self.field = 0;
            }
            self.last_seq = seq_num;
        } else if neg_diff <= 32 {
            self.field = self.field | (1u32 << ((neg_diff - 1) as u32));
        }
    }
}

impl Default for ExternalAcks {
    fn default() -> (acks: ExternalAcks)
        ensures
            acks == ExternalAcks::fresh(),
    {
        ExternalAcks::new()
    }
}

/// Whether bit `i` of `field` is set.
pub open spec fn bit_set(field: u32, i: u32) -> bool {
    (field >> i) & 1u32 == 1u32
}

impl ExternalAcks {
    /// Whether this record states that the packet `seq` arrived: either it is the newest
    /// one, or it lies at most 32 behind it and its bit in `field` is set.
    pub open spec fn has_received(self, seq: u16) -> bool {
        let d = seq_distance(self.last_seq, seq);
        self.initialized && (d == 0 || (1 <= d <= 32 && bit_set(self.field, (d - 1) as u32)))
    }

    /// The record as `ack(seq_num)` leaves it.
    pub open spec fn after_ack(self, seq_num: u16) -> ExternalAcks {
        let r = self.acked(seq_num);
        ExternalAcks { last_seq: r.0, field: r.1, initialized: r.2 }
    }

    /// Whether `seq_num` lies so far behind the newest packet that acking it changes nothing.
    pub open spec fn is_too_old(self, seq_num: u16) -> bool {
        self.initialized && seq_distance(seq_num, self.last_seq) >= 32000
            && seq_distance(self.last_seq, seq_num) > 32
    }
}

proof fn lemma_shift_in_bit(f: u32, p: u32, i: u32)
    requires
        1 <= p <= 32,
        i < 32,
    ensures
        bit_set(((f << 1u32) | 1u32) << ((p - 1) as u32), i) <==> (i == p - 1 || (i >= p
            && bit_set(f, (i - p) as u32))),
{
    assert(bit_set(((f << 1u32) | 1u32) << ((p - 1) as u32), i) <==> (i == p - 1 || (i >= p
        && bit_set(f, (i - p) as u32)))) by (bit_vector)
        requires
            1 <= p <= 32,
            i < 32,
    ;
}

proof fn lemma_or_in_bit(f: u32, n: u32, i: u32)
    requires
        1 <= n <= 32,
        i < 32,
    ensures
        bit_set(f | (1u32 << ((n - 1) as u32)), i) <==> (i == n - 1 || bit_set(f, i)),
{
    assert(bit_set(f | (1u32 << ((n - 1) as u32)), i) <==> (i == n - 1 || bit_set(f, i)))
        by (bit_vector)
        requires
            1 <= n <= 32,
            i < 32,
    ;
}

proof fn lemma_zero_no_bits(i: u32)
    requires
        i < 32,
    ensures
        !bit_set(0u32, i),
{
    assert(!bit_set(0u32, i)) by (bit_vector)
        requires
            i < 32,
    ;
}

/// Acking keeps the record exact: once `seq_num` has been acked on an initialized record,
/// and it is not too old to matter, the record states that a packet arrived exactly when
/// it is `seq_num`, or it was recorded before and still lies within the 32-packet window
/// behind the newest packet. A packet too old to matter leaves the record unchanged.
pub proof fn lemma_ack_records_receipt(acks: ExternalAcks, seq_num: u16, t: u16)
    requires
        acks.initialized,
    ensures
        !acks.is_too_old(seq_num) ==> (acks.after_ack(seq_num).has_received(t) <==> (t == seq_num
            || (acks.has_received(t) && seq_distance(acks.after_ack(seq_num).last_seq, t)
            <= 32))),
        acks.is_too_old(seq_num) ==> acks.after_ack(seq_num) == acks,
{
    let new = acks.after_ack(seq_num);
    let pos = seq_distance(seq_num, acks.last_seq);
    let neg = seq_distance(acks.last_seq, seq_num);
    let d_old = seq_distance(acks.last_seq, t);
    let d_new = seq_distance(new.last_seq, t);
    if pos == 0 {
        assert(seq_num == acks.last_seq);
    } else if pos < 32000 {
        if pos <= 32 {
            if 1 <= d_new <= 32 {
                lemma_shift_in_bit(acks.field, pos as u32, (d_new - 1) as u32);
                if d_new > pos {
                    assert(d_old == d_new - pos);
                }
            }
            if t != seq_num && acks.has_received(t) && d_new <= 32 {
                assert(d_new == d_old + pos);
            }
        } else {
            if 1 <= d_new <= 32 {
                lemma_zero_no_bits((d_new - 1) as u32);
            }
            if acks.has_received(t) {
                assert(d_new == d_old + pos);
            }
        }
    } else if neg <= 32 {
        if 1 <= d_old <= 32 {
            lemma_or_in_bit(acks.field, neg as u32, (d_old - 1) as u32);
        }
    }
}

/// The first packet acked on a fresh record is the only one it states as received.
pub proof fn lemma_first_ack(seq_num: u16, t: u16)
    ensures
        ExternalAcks::fresh().after_ack(seq_num).has_received(t) <==> t == seq_num,
{
    let d = seq_distance(seq_num, t);
    if 1 <= d <= 32 {
        lemma_zero_no_bits((d - 1) as u32);
    }
}

/// The record after acking the numbers `seqs` in turn, starting fresh.
pub open spec fn acks_after(seqs: Seq<u16>) -> ExternalAcks
    decreases seqs.len(),
{
    if seqs.len() == 0 {
        ExternalAcks::fresh()
    } else {
        acks_after(seqs.drop_last()).after_ack(seqs.last())
    }
}

/// A record that acked the numbers `seqs` in turn, starting fresh, states as received only
/// numbers among them, and always the last one acked when that one was not too old to
/// matter.
pub proof fn lemma_acks_remember_only_what_arrived(seqs: Seq<u16>, t: u16)
    ensures
        acks_after(seqs).has_received(t) ==> seqs.contains(t),
        seqs.len() > 0 && !acks_after(seqs.drop_last()).is_too_old(seqs.last()) ==> acks_after(
            seqs,
        ).has_received(seqs.last()),
    decreases seqs.len(),
{
    if seqs.len() > 0 {
        let rest = seqs.drop_last();
        let last = seqs.last();
        let prev = acks_after(rest);
        lemma_acks_remember_only_what_arrived(rest, t);
        if rest.len() == 0 {
            assert(prev == ExternalAcks::fresh());
            lemma_first_ack(last, t);
            lemma_first_ack(last, last);
        } else {
            assert(prev == acks_after(rest.drop_last()).after_ack(rest.last()));
            lemma_ack_records_receipt(prev, last, t);
            lemma_ack_records_receipt(prev, last, last);
        }
        if acks_after(seqs).has_received(t) {
            if t != last {
                assert(prev.has_received(t));
                let i = choose|i: int| 0 <= i < rest.len() && rest[i] == t;
                assert(seqs[i] == t);
            } else {
                assert(seqs[seqs.len() - 1] == t);
            }
        }
    }
}

} // verus!
