use vstd::prelude::*;

use crate::infrastructure::acknowledgment::next_seq;
use crate::net::external_ack::seq_distance;

verus! {

/// Whether `s1` is newer than `s2` on the 16-bit circle.
pub open spec fn spec_sequence_greater_than(s1: u16, s2: u16) -> bool {
    (s1 > s2 && s1 - s2 <= 32768) || (s1 < s2 && s2 - s1 > 32768)
}

/// Checks whether `s1` is newer than `s2` on the 16-bit circle.
pub fn sequence_greater_than(s1: u16, s2: u16) -> (newer: bool)
    ensures
        newer == spec_sequence_greater_than(s1, s2),
{
    ((s1 > s2) && (s1 - s2 <= 32768)) || ((s1 < s2) && (s2 - s1 > 32768))
}

/// Checks whether `s1` is older than `s2` on the 16-bit circle.
pub fn sequence_less_than(s1: u16, s2: u16) -> (older: bool)
    ensures
        older == spec_sequence_greater_than(s2, s1),
{
    sequence_greater_than(s2, s1)
}

/// The slot of a buffer of `len` slots that sequence number `seq` is kept in.
pub open spec fn slot_of(seq: u16, len: nat) -> int {
    (seq as int) % (len as int)
}

/// `slots` with the slots of the `count` sequence numbers from `start` (wrapping at 2^16)
/// emptied.
pub open spec fn clear_range<V>(slots: Seq<Option<(u16, V)>>, start: u16, count: nat) -> Seq<Option<(u16, V)>>
    decreases count,
{
    if count == 0 {
        slots
    } else {
        clear_range(slots, start, (count - 1) as nat).update(
            slot_of(((start + count - 1) % 65536) as u16, slots.len()),
            None,
        )
    }
}

/// `slots` once the sequence numbers from `start` through `finish` were passed by: their
/// slots are emptied, or all slots when they are at least as many as the slots.
pub open spec fn cleared<V>(slots: Seq<Option<(u16, V)>>, start: u16, finish: u16) -> Seq<Option<(u16, V)>> {
    if seq_distance(finish, start) < slots.len() {
        clear_range(slots, start, (seq_distance(finish, start) + 1) as nat)
    } else {
        Seq::new(slots.len(), |i: int| None)
    }
}

/// Whether the slot of `seq` holds an entry for `seq` itself.
pub open spec fn holds<V>(slots: Seq<Option<(u16, V)>>, seq: u16) -> bool {
    slots[slot_of(seq, slots.len())] matches Some((s, _)) && s == seq
}

/// The slots and newest-sequence mark once `seq` is accepted: when it is newer than every
/// sequence number seen, the slots of those passed by are emptied and the mark moves.
pub open spec fn advanced<V>(slots: Seq<Option<(u16, V)>>, sequence_num: u16, seq: u16) -> (Seq<Option<(u16, V)>>, u16) {
    if spec_sequence_greater_than(next_seq(seq), sequence_num) {
        (cleared(slots, sequence_num, seq), next_seq(seq))
    } else {
        (slots, sequence_num)
    }
}

/// Whether `seq` is too old to be kept: older than the oldest number the slots can hold.
pub open spec fn too_old(sequence_num: u16, len: nat, seq: u16) -> bool {
    spec_sequence_greater_than(seq_distance(sequence_num, (len % 65536) as u16), seq)
}

/// A ring of entries keyed by 16-bit sequence number: sequence number `s` is kept in slot
/// `s % len`, and entries that fall too far behind the newest one are dropped.
#[derive(Debug)]
pub struct SequenceBuffer<T> {
    sequence_num: u16,
    entries: Vec<Option<(u16, T)>>,
}

impl<T: View> SequenceBuffer<T> {
    /// The slots, each empty or holding a sequence number and the view of its entry.
    pub closed spec fn slots(&self) -> Seq<Option<(u16, T::V)>> {
        self.entries@.map_values(
            |o: Option<(u16, T)>|
                match o {
                    Some((s, v)) => Some((s, v@)),
                    None => None,
                },
        )
    }

    /// One past the newest sequence number accepted.
    pub closed spec fn spec_sequence_num(&self) -> u16 {
        self.sequence_num
    }

    /// Creates a buffer of `size` empty slots.
    pub fn with_capacity(size: u16) -> (buffer: SequenceBuffer<T>)
        ensures
            buffer.slots() == Seq::new(size as nat, |i: int| None::<(u16, T::V)>),
            buffer.spec_sequence_num() == 0,
    {
        let mut entries: Vec<Option<(u16, T)>> = Vec::new();
        let mut i: u16 = 0;
        while i < size
            invariant
                i <= size,
                entries@.len() == i,
                forall|k: int| 0 <= k < i ==> #[trigger] entries@[k] is None,
            decreases size - i,
        {
            entries.push(None);
            i = i + 1;
        }
        let buffer = SequenceBuffer { sequence_num: 0, entries };
        proof {
            assert(buffer.slots() =~= Seq::new(size as nat, |i: int| None::<(u16, T::V)>));
        }
        buffer
    }

    /// Returns one past the newest sequence number accepted.
    pub fn sequence_num(&self) -> (n: u16)
        ensures
            n == self.spec_sequence_num(),
    {
        self.sequence_num
    }

    /// The slot of `seq`.
    fn index(&self, seq: u16) -> (i: usize)
        requires
            self.slots().len() > 0,
        ensures
            i == slot_of(seq, self.slots().len()),
            i < self.slots().len(),
    {
        (seq as usize) % self.entries.len()
    }

    /// Whether an entry for `seq` is kept.
    pub fn contains(&self, seq: u16) -> (kept: bool)
        requires
            self.slots().len() > 0,
        ensures
            kept == holds(self.slots(), seq),
    {
        let index = self.index(seq);
        match &self.entries[index] {
            Some((s, _)) => *s == seq,
            None => false,
        }
    }

    /// Empties the slots of the sequence numbers from the mark through `finish`.
    fn remove_entries(&mut self, finish: u16)
        requires
            old(self).slots().len() > 0,
            old(self).slots().len() <= u16::MAX,
        ensures
            final(self).slots() == cleared(old(self).slots(), old(self).spec_sequence_num(), finish),
            final(self).slots().len() == old(self).slots().len(),
            final(self).spec_sequence_num() == old(self).spec_sequence_num(),
    {
        let start_sequence: u32 = self.sequence_num as u32;
        let mut finish_sequence: u32 = finish as u32;
        if finish_sequence < start_sequence {
            finish_sequence = finish_sequence + 65536;
        }
        let len = self.entries.len();
        if ((finish_sequence - start_sequence) as usize) < len {
            let mut sequence: u32 = start_sequence;
            while sequence <= finish_sequence
                invariant
                    start_sequence == old(self).spec_sequence_num(),
                    start_sequence <= sequence <= finish_sequence + 1,
                    finish_sequence < start_sequence + 65536,
                    len == self.entries@.len(),
                    len == old(self).slots().len(),
                    len > 0,
                    self.sequence_num == old(self).spec_sequence_num(),
                    self.slots() == clear_range(
                        old(self).slots(),
                        old(self).spec_sequence_num(),
                        (sequence - start_sequence) as nat,
                    ),
                decreases finish_sequence + 1 - sequence,
            {
                let index = ((sequence % 65536) as usize) % len;
                let ghost before = self.slots();
                self.entries[index] = None;
                proof {
                    assert(((sequence % 65536) as u16) as int == sequence % 65536);
                    assert((start_sequence + (sequence - start_sequence + 1) - 1) % 65536 == sequence % 65536);
                    assert(self.slots() =~= before.update(index as int, None));
                }
                sequence = sequence + 1;
            }
            proof {
                assert(seq_distance(finish, old(self).spec_sequence_num()) == finish_sequence - start_sequence);
            }
        } else {
            let mut index: usize = 0;
            while index < len
                invariant
                    index <= len,
                    len == self.entries@.len(),
                    len == old(self).slots().len(),
                    self.sequence_num == old(self).spec_sequence_num(),
                    forall|k: int| 0 <= k < index ==> #[trigger] self.entries@[k] is None,
                    forall|k: int| index <= k < len ==> #[trigger] self.entries@[k] == old(self).entries@[k],
                decreases len - index,
            {
                self.entries[index] = None;
                index = index + 1;
            }
            proof {
                assert(seq_distance(finish, old(self).spec_sequence_num()) == finish_sequence - start_sequence);
                assert(self.slots() =~= Seq::new(len as nat, |i: int| None::<(u16, T::V)>));
            }
        }
    }

    /// Moves the mark past `seq` if it is newer than every sequence number accepted, emptying
    /// the slots of those passed by.
    fn advance_sequence(&mut self, seq: u16)
        requires
            old(self).slots().len() > 0,
            old(self).slots().len() <= u16::MAX,
        ensures
            (final(self).slots(), final(self).spec_sequence_num()) == advanced(
                old(self).slots(),
                old(self).spec_sequence_num(),
                seq,
            ),
            final(self).slots().len() == old(self).slots().len(),
    {
        if sequence_greater_than(seq.wrapping_add(1), self.sequence_num) {
            self.remove_entries(seq);
            self.sequence_num = seq.wrapping_add(1);
        }
    }

    /// Keeps `entry` under `seq`, unless `seq` is too old; says whether it was kept.
    pub fn insert(&mut self, seq: u16, entry: T) -> (kept: bool)
        requires
            old(self).slots().len() > 0,
            old(self).slots().len() <= u16::MAX,
        ensures
            kept == !too_old(old(self).spec_sequence_num(), old(self).slots().len(), seq),
            !kept ==> final(self).slots() == old(self).slots()
                && final(self).spec_sequence_num() == old(self).spec_sequence_num(),
            kept ==> ({
                let (slots, mark) = advanced(old(self).slots(), old(self).spec_sequence_num(), seq);
                &&& final(self).slots() == slots.update(slot_of(seq, slots.len()), Some((seq, entry@)))
                &&& final(self).spec_sequence_num() == mark
            }),
    {
        let len = self.entries.len() as u16;
        if sequence_less_than(seq, self.sequence_num.wrapping_sub(len)) {
            return false;
        }
        self.advance_sequence(seq);
        let index = self.index(seq);
        let ghost before = self.slots();
        self.entries[index] = Some((seq, entry));
        proof {
            assert(self.slots() =~= before.update(index as int, Some((seq, entry@))));
        }
        true
    }

    /// Takes the entry kept for `seq` out of its slot, if any.
    pub fn remove(&mut self, seq: u16) -> (entry: Option<T>)
        requires
            old(self).slots().len() > 0,
        ensures
            final(self).spec_sequence_num() == old(self).spec_sequence_num(),
            holds(old(self).slots(), seq) ==> (entry matches Some(e) && old(self).slots()[slot_of(
                seq,
                old(self).slots().len(),
            )] == Some((seq, e@))) && final(self).slots() == old(self).slots().update(
                slot_of(seq, old(self).slots().len()),
                None,
            ),
            !holds(old(self).slots(), seq) ==> entry is None && final(self).slots() == old(self).slots(),
    {
        let index = self.index(seq);
        let kept = match &self.entries[index] {
            Some((s, _)) => *s == seq,
            None => false,
        };
        if kept {
            let ghost before = self.slots();
            let taken = self.entries[index].take();
            proof {
                assert(self.slots() =~= before.update(index as int, None));
            }
            match taken {
                Some((_, e)) => Some(e),
                None => None,
            }
        } else {
            None
        }
    }

    /// Puts `entry` back into the empty slot of `seq`, leaving the mark as it is.
    pub fn put_back(&mut self, seq: u16, entry: T)
        requires
            old(self).slots().len() > 0,
            old(self).slots()[slot_of(seq, old(self).slots().len())] is None,
        ensures
            final(self).spec_sequence_num() == old(self).spec_sequence_num(),
            final(self).slots() == old(self).slots().update(
                slot_of(seq, old(self).slots().len()),
                Some((seq, entry@)),
            ),
    {
        let index = self.index(seq);
        let ghost before = self.slots();
        self.entries[index] = Some((seq, entry));
        proof {
            assert(self.slots() =~= before.update(index as int, Some((seq, entry@))));
        }
    }
}

/// Passing sequence numbers by only empties slots: every slot afterwards is empty or as before.
pub(crate) proof fn lemma_cleared_only_empties<V>(slots: Seq<Option<(u16, V)>>, start: u16, finish: u16)
    ensures
        cleared(slots, start, finish).len() == slots.len(),
        forall|i: int|
            0 <= i < slots.len() ==> #[trigger] cleared(slots, start, finish)[i] is None
                || cleared(slots, start, finish)[i] == slots[i],
{
    if seq_distance(finish, start) < slots.len() {
        lemma_clear_range_only_empties(slots, start, (seq_distance(finish, start) + 1) as nat);
    }
}

proof fn lemma_clear_range_only_empties<V>(slots: Seq<Option<(u16, V)>>, start: u16, count: nat)
    requires
        slots.len() > 0,
    ensures
        clear_range(slots, start, count).len() == slots.len(),
        forall|i: int|
            0 <= i < slots.len() ==> #[trigger] clear_range(slots, start, count)[i] is None
                || clear_range(slots, start, count)[i] == slots[i],
    decreases count,
{
    if count > 0 {
        lemma_clear_range_only_empties(slots, start, (count - 1) as nat);
    }
}

/// How far `seq` lies behind `sequence_num` going back round the 16-bit circle, from 0 to
/// 65535.
pub open spec fn behind(sequence_num: u16, seq: u16) -> int {
    (sequence_num as int - seq as int + 65536) % 65536
}

/// With `len` slots, fewer than half the 16-bit circle, and `sequence_num` one past the
/// newest sequence number seen: the `len` newest numbers, `sequence_num` itself and the
/// numbers newer than it are not too old, and so are kept; a number that lies more than
/// `len` places behind `sequence_num`, by less than half the circle more, is too old and
/// refused. (The one number exactly opposite the oldest kept one on the circle is left
/// unsaid: which of the two counts as newer depends on their order as plain integers.)
pub proof fn lemma_recent_sequence_numbers_are_kept(sequence_num: u16, len: nat, seq: u16)
    requires
        0 < len < 32768,
    ensures
        behind(sequence_num, seq) <= len ==> !too_old(sequence_num, len, seq),
        len < behind(sequence_num, seq) < len + 32768 ==> too_old(sequence_num, len, seq),
        behind(sequence_num, seq) > len + 32768 ==> !too_old(sequence_num, len, seq),
{
}

} // verus!
