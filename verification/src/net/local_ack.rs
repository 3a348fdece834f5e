use vstd::prelude::*;

use std::collections::HashMap;
use vstd::std_specs::iter::IteratorSpec;

use super::external_ack::{bit_set, seq_distance};

verus! {

broadcast use vstd::std_specs::hash::group_hash_axioms;

/// Whether the acknowledgement `(seq, seq_field)` acknowledges the packet `key`: it is `seq`
/// itself, or lies at most 32 behind it with its bit set in `seq_field`.
pub open spec fn is_acked_by(key: u16, seq: u16, seq_field: u32) -> bool {
    let diff = seq_distance(seq, key);
    diff == 0 || (1 <= diff <= 32 && bit_set(seq_field, (diff - 1) as u32))
}

/// Whether the acknowledgement `seq` declares the packet `key` lost: it lies more than
/// 32 behind `seq`, yet less than 32000 (farther back it counts as a newer packet).
pub open spec fn is_dropped_by(key: u16, seq: u16) -> bool {
    let diff = seq_distance(seq, key);
    32 < diff < 32000
}

/// Whether `out` lists, each once, exactly the entries of `waiting` whose keys satisfy `pred`.
pub open spec fn lists_entries<P>(
    out: Seq<(u16, P)>,
    waiting: Map<u16, P>,
    pred: spec_fn(u16) -> bool,
) -> bool {
    &&& forall|i: int|
        0 <= i < out.len() ==> #[trigger] waiting.contains_key(out[i].0) && pred(out[i].0)
            && out[i].1 == waiting[out[i].0]
    &&& forall|k: u16|
        #[trigger] waiting.contains_key(k) && pred(k) ==> exists|i: int|
            0 <= i < out.len() && #[trigger] out[i].0 == k
    &&& forall|i: int, j: int| 0 <= i < j < out.len() ==> out[i].0 != out[j].0
}

/// Lists the keys of `packets`, each once.
pub(crate) fn all_keys<P>(packets: &HashMap<u16, P>) -> (keys: Vec<u16>)
    ensures
        keys@.to_set() == packets@.dom(),
        keys@.no_duplicates(),
{
    let mut keys: Vec<u16> = Vec::new();
    let ghost snapshot = packets.keys();
    proof {
        assert(snapshot.remaining().unref().to_set() == packets@.dom());
        assert(snapshot.remaining().no_duplicates());
    }
    for key in it: packets.keys()
        invariant
            it.seq() == snapshot.remaining(),
            keys@ == it.seq().take(it.index()).unref(),
        ensures
            keys@ == snapshot.remaining().unref(),
    {
        proof {
            assert(it.seq().take(it.index() + 1).unref() =~= it.seq().take(it.index()).unref().push(
                *it.seq()[it.index()],
            ));
        }
        keys.push(*key);
    }
    proof {
        let u = keys@;
        let r = snapshot.remaining();
        assert forall|i: int, j: int| 0 <= i < j < u.len() implies u[i] != u[j] by {
            assert(u[i] == *r[i] && u[j] == *r[j]);
        }
    }
    keys
}

/// Collects the keys of `packets` that `seq` declares lost.
pub(crate) fn dropped_keys<P>(packets: &HashMap<u16, P>, seq: u16) -> (keys: Vec<u16>)
    ensures
        forall|i: int| 0 <= i < keys.len() ==> #[trigger] packets@.contains_key(keys[i])
            && is_dropped_by(keys[i], seq),
        forall|k: u16|
            #[trigger] packets@.contains_key(k) && is_dropped_by(k, seq) ==> keys@.contains(k),
        keys@.no_duplicates(),
{
    let all = all_keys(packets);
    let mut keys: Vec<u16> = Vec::new();
    let mut i: usize = 0;
    while i < all.len()
        invariant
            i <= all.len(),
            all@.to_set() == packets@.dom(),
            all@.no_duplicates(),
            forall|a: int| 0 <= a < keys.len() ==> #[trigger] packets@.contains_key(keys[a])
                && is_dropped_by(keys[a], seq),
            forall|b: int| 0 <= b < i && is_dropped_by(#[trigger] all[b], seq) ==> keys@.contains(all[b]),
            forall|a: int| #![trigger keys[a]] 0 <= a < keys.len() ==> exists|b: int| 0 <= b < i && #[trigger] all[b] == keys[a],
            keys@.no_duplicates(),
        decreases all.len() - i,
    {
        let k = all[i];
        let diff = seq.wrapping_sub(k);
        proof {
            assert(all@.to_set().contains(k));
        }
        if 32 < diff && diff < 32000 {
            proof {
                assert forall|a: int| 0 <= a < keys.len() implies keys[a] != k by {
                    let b = choose|b: int| 0 <= b < i && #[trigger] all[b] == keys[a];
                }
            }
            let ghost old_keys = keys@;
            keys.push(k);
            proof {
                assert forall|b: int| 0 <= b < i + 1 && is_dropped_by(#[trigger] all[b], seq) implies keys@.contains(all[b]) by {
                    if b < i {
                        let a = choose|a: int| 0 <= a < old_keys.len() && old_keys[a] == all[b];
                        assert(keys@[a] == all[b]);
                    } else {
                        assert(keys@[keys.len() - 1] == all[b]);
                    }
                }
                assert forall|a: int| #![trigger keys[a]] 0 <= a < keys.len() implies exists|b: int| 0 <= b < i + 1 && #[trigger] all[b] == keys[a] by {
                    if a < old_keys.len() {
                        let b = choose|b: int| 0 <= b < i && #[trigger] all[b] == old_keys[a];
                    } else {
                        assert(all[i as int] == keys[a]);
                    }
                }
            }
        }
        i = i + 1;
    }
    proof {
        assert forall|k: u16| #[trigger] packets@.contains_key(k) && is_dropped_by(k, seq) implies keys@.contains(k) by {
            assert(all@.to_set().contains(k));
            let b = choose|b: int| 0 <= b < all.len() && all[b] == k;
        }
    }
    keys
}

/// The keys that the acknowledgement `(seq, seq_field)` settles: acknowledged or lost.
pub open spec fn settled_keys(seq: u16, seq_field: u32) -> Set<u16> {
    Set::new(|k: u16| is_acked_by(k, seq, seq_field) || is_dropped_by(k, seq))
}

/// Packets waiting for an ack
///
/// Holds up to 32 packets waiting for ack
///
/// Additionally, holds packets "forward" of the current ack packet
#[derive(Debug)]
pub struct LocalAckRecord<P> {
    // packets waiting for acknowledgement.
    packets: HashMap<u16, P>,
}

impl<P> View for LocalAckRecord<P> {
    type V = Map<u16, P>;

    closed spec fn view(&self) -> Map<u16, P> {
        self.packets@
    }
}

impl<P> LocalAckRecord<P> {
    /// Creates a record with no packet waiting.
    pub fn new() -> (record: Self)
        ensures
            record@ == Map::<u16, P>::empty(),
    {
        LocalAckRecord { packets: HashMap::new() }
    }

    /// Checks if there are packets in the queue to be aknowleged.
    pub fn is_empty(&mut self) -> (empty: bool)
        ensures
            *final(self) == *old(self),
            empty == (old(self)@.dom().len() == 0),
    {
        let r = self.packets.is_empty();
        proof {
            if !r {
                assert(self.packets@.dom().finite());
            }
        }
        r
    }

    /// Gets the total packages in the queue that could be aknowleged.
    pub fn len(&mut self) -> (len: usize)
        ensures
            *final(self) == *old(self),
            len == old(self)@.dom().len(),
    {
        self.packets.len()
    }

    /// The number of packets waiting.
    pub(crate) fn size(&self) -> (len: usize)
        ensures
            len == self@.dom().len(),
    {
        self.packets.len()
    }

    /// The packets waiting are finitely many.
    pub proof fn lemma_finite(&self)
        ensures
            self@.dom().finite(),
    {
        assert(self.packets@.dom().finite());
    }

    /// Adds a packet to the queue awaiting for an aknowlegement; a packet waiting under the
    /// same sequence number is replaced.
    pub fn enqueue(&mut self, seq: u16, packet: P)
        ensures
            final(self)@ == old(self)@.insert(seq, packet),
            final(self)@.dom().finite(),
            final(self)@.dom().len() == old(self)@.dom().len() + if old(self)@.contains_key(seq) {
                0int
            } else {
                1int
            },
    {
        proof {
            assert(self.packets@.dom().finite());
        }
        // TODO: Handle overwriting other packet?
        //   That really shouldn't happen, but it should be encoded here
        self.packets.insert(seq, packet);
    }

    /// Finds and removes acked packets, returning dropped packets
    pub fn ack(&mut self, seq: u16, seq_field: u32) -> (dropped: Vec<(u16, P)>)
        ensures
            final(self)@ == old(self)@.remove_keys(settled_keys(seq, seq_field)),
            lists_entries(dropped@, old(self)@, |k: u16| is_dropped_by(k, seq)),
    {
        let all = all_keys(&self.packets);
        let ghost initial = self.packets@;
        let mut dropped: Vec<(u16, P)> = Vec::new();
        let mut i: usize = 0;
        while i < all.len()
            invariant
                i <= all.len(),
                all@.to_set() == initial.dom(),
                all@.no_duplicates(),
                self.packets@ == initial.remove_keys(
                    all@.take(i as int).to_set().intersect(settled_keys(seq, seq_field)),
                ),
                forall|a: int|
                    #![trigger dropped[a]]
                    0 <= a < dropped.len() ==> initial.contains_key(dropped[a].0)
                        && is_dropped_by(dropped[a].0, seq) && dropped[a].1 == initial[dropped[a].0]
                        && all@.take(i as int).contains(dropped[a].0),
                forall|b: int|
                    0 <= b < i && is_dropped_by(#[trigger] all[b], seq) ==> exists|a: int|
                        0 <= a < dropped.len() && dropped[a].0 == all[b],
                forall|a: int, c: int| 0 <= a < c < dropped.len() ==> dropped[a].0 != dropped[c].0,
            decreases all.len() - i,
        {
            let k = all[i];
            let diff = seq.wrapping_sub(k);
            let ghost before = self.packets@;
            proof {
                assert(all@.to_set().contains(k));
                assert(!all@.take(i as int).contains(k)) by {
                    if all@.take(i as int).contains(k) {
                        let j = choose|j: int| 0 <= j < i && all@.take(i as int)[j] == k;
                        assert(all[j] == all[i as int]);
                    }
                }
                assert(all@.take(i + 1) =~= all@.take(i as int).push(k));
                let t0 = all@.take(i as int);
                let t1 = all@.take(i + 1);
                assert forall|x: u16| t1.contains(x) <==> (t0.contains(x) || x == k) by {
                    if t1.contains(x) {
                        let j = choose|j: int| 0 <= j < t1.len() && #[trigger] t1[j] == x;
                        if j < i {
                            assert(t0[j] == x);
                        }
                    }
                    if t0.contains(x) {
                        let j = choose|j: int| 0 <= j < t0.len() && #[trigger] t0[j] == x;
                        assert(t1[j] == x);
                    }
                    if x == k {
                        assert(t1[i as int] == x);
                    }
                }
                assert(t1.to_set() =~= t0.to_set().insert(k));
            }
            if diff == 0 || (diff <= 32 && seq_field & (1u32 << ((diff - 1) as u32)) != 0) {
                proof {
                    assert(is_acked_by(k, seq, seq_field)) by {
                        if diff != 0 {
                            let f = seq_field;
                            let n = (diff - 1) as u32;
                            assert(f & (1u32 << n) != 0 ==> (f >> n) & 1u32 == 1u32) by (bit_vector);
                        }
                    }
                }
                self.packets.remove(&k);
                proof {
                    assert(self.packets@ == before.remove(k));
                    assert(settled_keys(seq, seq_field).contains(k));
                    assert(self.packets@ =~= initial.remove_keys(
                        all@.take(i + 1).to_set().intersect(settled_keys(seq, seq_field)),
                    ));
                }
            } else if 32 < diff && diff < 32000 {
                let v = self.packets.remove(&k);
                proof {
                    assert(is_dropped_by(k, seq));
                    assert(!is_acked_by(k, seq, seq_field));
                    assert(before.contains_key(k));
                    assert(self.packets@ =~= initial.remove_keys(
                        all@.take(i + 1).to_set().intersect(settled_keys(seq, seq_field)),
                    ));
                }
                match v {
                    Some(v) => {
                        let ghost old_dropped = dropped@;
                        proof {
                            assert(before[k] == v);
                            assert(before[k] == initial[k]);
                        }
                        dropped.push((k, v));
                        proof {
                            assert(all@.take(i + 1)[i as int] == k);
                            assert forall|a: int| #![trigger dropped[a]] 0 <= a < dropped.len() implies initial.contains_key(dropped[a].0)
                                && is_dropped_by(dropped[a].0, seq) && dropped[a].1 == initial[dropped[a].0]
                                && all@.take(i + 1).contains(dropped[a].0) by {
                                if a < old_dropped.len() {
                                    assert(dropped[a] == old_dropped[a]);
                                    assert(all@.take(i as int).contains(old_dropped[a].0));
                                }
                            }
                            assert forall|b: int|
                                0 <= b < i + 1 && is_dropped_by(#[trigger] all[b], seq) implies exists|a: int|
                                    0 <= a < dropped.len() && dropped[a].0 == all[b] by {
                                if b < i {
                                    let a = choose|a: int| 0 <= a < old_dropped.len() && old_dropped[a].0 == all[b];
                                    assert(dropped[a].0 == all[b]);
                                } else {
                                    assert(dropped[dropped.len() - 1].0 == all[b]);
                                }
                            }
                        }
                    },
                    None => {},
                }
            } else {
                proof {
                    assert(!is_dropped_by(k, seq));
                    assert(!is_acked_by(k, seq, seq_field)) by {
                        if 1 <= diff <= 32 {
                            let f = seq_field;
                            let n = (diff - 1) as u32;
                            assert(f & (1u32 << n) == 0 && n < 32 ==> (f >> n) & 1u32 != 1u32) by (bit_vector);
                        }
                    }
                    assert(self.packets@ =~= initial.remove_keys(
                        all@.take(i + 1).to_set().intersect(settled_keys(seq, seq_field)),
                    ));
                }
            }
            i = i + 1;
        }
        proof {
            assert(all@.take(all.len() as int) =~= all@);
            assert(self.packets@ =~= initial.remove_keys(settled_keys(seq, seq_field)));
            assert forall|k: u16|
                #[trigger] initial.contains_key(k) && is_dropped_by(k, seq) implies exists|a: int|
                    0 <= a < dropped@.len() && #[trigger] dropped@[a].0 == k by {
                assert(all@.to_set().contains(k));
                let b = choose|b: int| 0 <= b < all.len() && all[b] == k;
            }
        }
        dropped
    }
}

impl<P> Default for LocalAckRecord<P> {
    fn default() -> (record: Self)
        ensures
            record@ == Map::<u16, P>::empty(),
    {
        LocalAckRecord::new()
    }
}

} // verus!
