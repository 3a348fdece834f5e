use vstd::prelude::*;

use std::collections::HashMap;

use crate::net::external_ack::seq_distance;

verus! {

broadcast use vstd::std_specs::hash::group_hash_axioms;

/// The number that follows `id` on the 16-bit circle.
pub open spec fn next_id(id: u16) -> u16 {
    if id == u16::MAX {
        0
    } else {
        (id + 1) as u16
    }
}

/// Whether `incoming` lies at most half the 16-bit circle ahead of `start`.
pub open spec fn within_half_window(start: u16, incoming: u16) -> bool {
    seq_distance(incoming, start) <= 32768
}

/// Checks (with wrapping) whether `incoming` lies within the next half of the 16-bit circle
/// from `start`.
pub fn is_u16_within_half_window_from_start(start: u16, incoming: u16) -> (within: bool)
    ensures
        within == within_half_window(start, incoming),
{
    incoming.wrapping_sub(start) <= u16::MAX / 2 + 1
}

/// A stream on which packets are sequenced: only packets newer than the newest one seen
/// are let through.
#[derive(Copy, Clone, Debug, PartialEq, Eq, Structural)]
pub struct SequencingStream {
    /// The identifier of this stream.
    pub stream_id: u8,
    /// The newest arranging id let through so far.
    pub top_index: u16,
    /// The identifier the next outgoing item on this stream gets.
    pub unique_item_identifier: u16,
}

impl SequencingStream {
    /// A stream that has arranged nothing yet.
    pub open spec fn fresh(stream_id: u8) -> SequencingStream {
        SequencingStream { stream_id, top_index: 0, unique_item_identifier: 0 }
    }

    /// Creates a stream that has arranged nothing yet.
    pub fn new(stream_id: u8) -> (stream: SequencingStream)
        ensures
            stream == SequencingStream::fresh(stream_id),
    {
        SequencingStream { stream_id, top_index: 0, unique_item_identifier: 0 }
    }

    /// Whether an item with arranging id `incoming` is let through: it is not older than the
    /// newest one let through so far.
    pub open spec fn lets_through(self, incoming: u16) -> bool {
        within_half_window(self.top_index, incoming)
    }

    /// The stream after an item with arranging id `incoming` arrived.
    pub open spec fn after_arrival(self, incoming: u16) -> SequencingStream {
        if self.lets_through(incoming) {
            SequencingStream { top_index: incoming, ..self }
        } else {
            self
        }
    }

    /// Arranges an arriving item: it is handed back when it is newer than every item let
    /// through so far, and dropped otherwise.
    pub fn arrange<T>(&mut self, incoming_index: u16, item: T) -> (arranged: Option<T>)
        ensures
            *final(self) == old(self).after_arrival(incoming_index),
            arranged == (if old(self).lets_through(incoming_index) {
                Some(item)
            } else {
                None
            }),
    {
        if is_u16_within_half_window_from_start(self.top_index, incoming_index) {
            self.top_index = incoming_index;
            return Some(item);
        }
        None
    }

    /// Returns the identifier for the next outgoing item and advances it.
    pub fn new_item_identifier(&mut self) -> (id: u16)
        ensures
            id == old(self).unique_item_identifier,
            *final(self) == (SequencingStream {
                unique_item_identifier: next_id(id),
                ..*old(self)
            }),
    {
        let id = self.unique_item_identifier;
        self.unique_item_identifier = id.wrapping_add(1);
        id
    }
}

/// The sequencing streams of a connection, keyed by stream identifier.
#[derive(Debug)]
pub struct SequencingSystem {
    streams: HashMap<u8, SequencingStream>,
}

impl View for SequencingSystem {
    type V = Map<u8, SequencingStream>;

    closed spec fn view(&self) -> Map<u8, SequencingStream> {
        self.streams@
    }
}

/// The stream `stream_id` of `streams`, or a fresh one if it has none yet.
pub open spec fn sequencing_stream(streams: Map<u8, SequencingStream>, stream_id: u8) -> SequencingStream {
    if streams.contains_key(stream_id) {
        streams[stream_id]
    } else {
        SequencingStream::fresh(stream_id)
    }
}

impl SequencingSystem {
    /// Creates a system with no stream.
    pub fn new() -> (system: SequencingSystem)
        ensures
            system@ == Map::<u8, SequencingStream>::empty(),
    {
        SequencingSystem { streams: HashMap::new() }
    }

    /// Returns the identifier for the next outgoing item on `stream_id`, creating the stream
    /// if needed, and advances it.
    pub fn new_item_identifier(&mut self, stream_id: u8) -> (id: u16)
        ensures
            id == sequencing_stream(old(self)@, stream_id).unique_item_identifier,
            final(self)@ == old(self)@.insert(
                stream_id,
                SequencingStream {
                    unique_item_identifier: next_id(id),
                    ..sequencing_stream(old(self)@, stream_id)
                },
            ),
    {
        let mut stream = match self.streams.get(&stream_id) {
            Some(s) => *s,
            None => SequencingStream::new(stream_id),
        };
        let id = stream.new_item_identifier();
        self.streams.insert(stream_id, stream);
        id
    }

    /// Arranges an item arriving on `stream_id`, creating the stream if needed.
    pub fn arrange<T>(&mut self, stream_id: u8, incoming_index: u16, item: T) -> (arranged: Option<T>)
        ensures
            final(self)@ == old(self)@.insert(
                stream_id,
                sequencing_stream(old(self)@, stream_id).after_arrival(incoming_index),
            ),
            arranged == (if sequencing_stream(old(self)@, stream_id).lets_through(incoming_index) {
                Some(item)
            } else {
                None
            }),
    {
        let mut stream = match self.streams.get(&stream_id) {
            Some(s) => *s,
            None => SequencingStream::new(stream_id),
        };
        let arranged = stream.arrange(incoming_index, item);
        self.streams.insert(stream_id, stream);
        arranged
    }
}

/// A stream on which packets are ordered: packets are let through in the order of their
/// arranging ids, and those that arrive early wait until the gap before them is filled.
#[derive(Debug)]
pub struct OrderingStream<T> {
    /// The identifier of this stream.
    stream_id: u8,
    /// The arranging id of the next item to let through.
    expected_index: u16,
    /// The identifier the next outgoing item on this stream gets.
    unique_item_identifier: u16,
    /// Items that arrived ahead of their turn, by arranging id.
    storage: HashMap<u16, T>,
}

/// The abstract state of an ordering stream: expected index, next outgoing identifier and
/// the items waiting for their turn.
pub struct OrderingStreamView<V> {
    pub expected_index: u16,
    pub unique_item_identifier: u16,
    pub storage: Map<u16, V>,
}

/// The state of a stream that has arranged nothing yet.
pub open spec fn fresh_ordering_state<V>() -> OrderingStreamView<V> {
    OrderingStreamView { expected_index: 0, unique_item_identifier: 0, storage: Map::empty() }
}

/// What happens when an item with arranging id `incoming` arrives on a stream in state `s`:
/// the item it hands back at once, if any, and the state it leaves. The expected item is
/// handed back; one at most half the circle ahead waits in storage; any other is dropped.
pub open spec fn ordered_arrival<V>(s: OrderingStreamView<V>, incoming: u16, item: V) -> (Option<V>, OrderingStreamView<V>) {
    if incoming == s.expected_index {
        (Some(item), OrderingStreamView { expected_index: next_id(s.expected_index), ..s })
    } else if within_half_window(s.expected_index, incoming) {
        (None, OrderingStreamView { storage: s.storage.insert(incoming, item), ..s })
    } else {
        (None, s)
    }
}

/// The waiting items that are now in turn, in order, and the state once they are handed out:
/// as long as the expected item waits in storage, it leaves it and the next one is expected.
pub open spec fn ready_items<V>(s: OrderingStreamView<V>) -> (Seq<V>, OrderingStreamView<V>)
    decreases s.storage.dom().len(),
    when s.storage.dom().finite()
{
    if s.storage.contains_key(s.expected_index) {
        let rest = ready_items(
            OrderingStreamView {
                expected_index: next_id(s.expected_index),
                storage: s.storage.remove(s.expected_index),
                ..s
            },
        );
        (seq![s.storage[s.expected_index]] + rest.0, rest.1)
    } else {
        (Seq::empty(), s)
    }
}

/// The items `arrival` hands back at once, as a sequence.
pub open spec fn option_items<V>(arrival: Option<V>) -> Seq<V> {
    match arrival {
        Some(item) => seq![item],
        None => Seq::empty(),
    }
}

/// An optional item, taken by its view.
pub open spec fn option_view<T: View>(o: Option<T>) -> Option<T::V> {
    match o {
        Some(item) => Some(item@),
        None => None,
    }
}

impl<T: View> OrderingStream<T> {
    /// The identifier of this stream.
    pub closed spec fn spec_stream_id(&self) -> u8 {
        self.stream_id
    }

    /// The abstract state of this stream, with the waiting items taken by their views.
    pub closed spec fn state(&self) -> OrderingStreamView<T::V> {
        OrderingStreamView {
            expected_index: self.expected_index,
            unique_item_identifier: self.unique_item_identifier,
            storage: self.storage@.map_values(|v: T| v@),
        }
    }

    /// Creates a stream that has arranged nothing yet.
    pub fn new(stream_id: u8) -> (stream: OrderingStream<T>)
        ensures
            stream.spec_stream_id() == stream_id,
            stream.state() == fresh_ordering_state::<T::V>(),
    {
        let stream = OrderingStream { stream_id, expected_index: 0, unique_item_identifier: 0, storage: HashMap::new() };
        proof {
            assert(stream.state().storage =~= Map::<u16, T::V>::empty());
        }
        stream
    }

    /// Arranges an arriving item: the expected one is handed back, one that arrives early
    /// waits in storage, and an old one is dropped.
    pub fn arrange(&mut self, incoming_offset: u16, item: T) -> (arranged: Option<T>)
        ensures
            final(self).spec_stream_id() == old(self).spec_stream_id(),
            (option_view(arranged), final(self).state()) == ordered_arrival(
                old(self).state(),
                incoming_offset,
                item@,
            ),
    {
        if incoming_offset == self.expected_index {
            self.expected_index = self.expected_index.wrapping_add(1);
            Some(item)
        } else if is_u16_within_half_window_from_start(self.expected_index, incoming_offset) {
            let ghost item_view = item@;
            self.storage.insert(incoming_offset, item);
            proof {
                assert(self.state().storage =~= old(self).state().storage.insert(incoming_offset, item_view));
            }
            None
        } else {
            None
        }
    }

    /// Hands out, in order, the waiting items that are now in turn.
    pub fn iter_mut(&mut self) -> (items: Vec<T>)
        ensures
            final(self).spec_stream_id() == old(self).spec_stream_id(),
            (items@.map_values(|v: T| v@), final(self).state()) == ready_items(old(self).state()),
    {
        let mut items: Vec<T> = Vec::new();
        let ghost start = self.state();
        proof {
            assert(items@.map_values(|v: T| v@) =~= Seq::<T::V>::empty());
            assert(self.state().storage.dom() =~= self.storage@.dom());
        }
        loop
            invariant
                self.stream_id == old(self).stream_id,
                self.storage@.dom().finite(),
                self.state().storage.dom().finite(),
                start == old(self).state(),
                start.storage.dom().finite(),
                ready_items(start).1 == ready_items(self.state()).1,
                ready_items(start).0 == items@.map_values(|v: T| v@) + ready_items(self.state()).0,
            ensures
                self.stream_id == old(self).stream_id,
                items@.map_values(|v: T| v@) == ready_items(start).0,
                self.state() == ready_items(start).1,
            decreases self.storage@.dom().len(),
        {
            let ghost before = self.state();
            let ghost before_storage = self.storage@;
            match self.storage.remove(&self.expected_index) {
                Some(item) => {
                    proof {
                        assert(before.storage.contains_key(before.expected_index));
                        assert(self.state().storage =~= before.storage.remove(before.expected_index));
                        assert(before.storage[before.expected_index] == item@);
                    }
                    self.expected_index = self.expected_index.wrapping_add(1);
                    let ghost done = items@.map_values(|v: T| v@);
                    items.push(item);
                    proof {
                        assert(self.state() == OrderingStreamView {
                            expected_index: next_id(before.expected_index),
                            storage: before.storage.remove(before.expected_index),
                            ..before
                        });
                        let rest = ready_items(self.state());
                        assert(ready_items(before).0 == seq![before.storage[before.expected_index]] + rest.0);
                        assert(items@.map_values(|v: T| v@) =~= done.push(item@));
                        assert(ready_items(start).0 =~= items@.map_values(|v: T| v@) + rest.0);
                        assert(self.state().storage.dom() =~= self.storage@.dom());
                    }
                },
                None => {
                    proof {
                        assert(!before.storage.contains_key(before.expected_index));
                        assert(self.storage@ =~= before_storage);
                        assert(self.state() == before);
                        assert(ready_items(self.state()).0 =~= Seq::<T::V>::empty());
                        assert(ready_items(start).0 =~= items@.map_values(|v: T| v@) + ready_items(self.state()).0);
                        assert(items@.map_values(|v: T| v@) =~= ready_items(start).0);
                    }
                    break;
                },
            }
        }
        items
    }

    /// Returns the identifier for the next outgoing item and advances it.
    pub fn new_item_identifier(&mut self) -> (id: u16)
        ensures
            id == old(self).state().unique_item_identifier,
            final(self).spec_stream_id() == old(self).spec_stream_id(),
            final(self).state() == (OrderingStreamView {
                unique_item_identifier: next_id(id),
                ..old(self).state()
            }),
    {
        let id = self.unique_item_identifier;
        self.unique_item_identifier = id.wrapping_add(1);
        id
    }
}

/// The ordering streams of a connection, keyed by stream identifier.
#[derive(Debug)]
pub struct OrderingSystem<T> {
    streams: HashMap<u8, OrderingStream<T>>,
}

/// The state of stream `stream_id` in `streams`, or a fresh one if it has none yet.
pub open spec fn ordering_stream<V>(streams: Map<u8, OrderingStreamView<V>>, stream_id: u8) -> OrderingStreamView<V> {
    if streams.contains_key(stream_id) {
        streams[stream_id]
    } else {
        fresh_ordering_state()
    }
}

impl<T: View> View for OrderingSystem<T> {
    type V = Map<u8, OrderingStreamView<T::V>>;

    closed spec fn view(&self) -> Map<u8, OrderingStreamView<T::V>> {
        Map::new(|k: u8| self.streams@.contains_key(k), |k: u8| self.streams@[k].state())
    }
}

impl<T: View> OrderingSystem<T> {
    /// The invariant of the system: each stream is filed under its own identifier.
    pub closed spec fn wf(&self) -> bool {
        forall|k: u8| #[trigger] self.streams@.contains_key(k) ==> self.streams@[k].spec_stream_id() == k
    }

    /// Creates a system with no stream.
    pub fn new() -> (system: OrderingSystem<T>)
        ensures
            system.wf(),
            system@ == Map::<u8, OrderingStreamView<T::V>>::empty(),
    {
        let system = OrderingSystem { streams: HashMap::new() };
        proof {
            assert(system@ =~= Map::<u8, OrderingStreamView<T::V>>::empty());
        }
        system
    }

    /// Returns the identifier for the next outgoing item on `stream_id`, creating the stream
    /// if needed, and advances it.
    pub fn new_item_identifier(&mut self, stream_id: u8) -> (id: u16)
        requires
            old(self).wf(),
        ensures
            final(self).wf(),
            id == ordering_stream(old(self)@, stream_id).unique_item_identifier,
            final(self)@ == old(self)@.insert(
                stream_id,
                OrderingStreamView {
                    unique_item_identifier: next_id(id),
                    ..ordering_stream(old(self)@, stream_id)
                },
            ),
    {
        let mut stream = match self.streams.remove(&stream_id) {
            Some(s) => s,
            None => OrderingStream::new(stream_id),
        };
        let id = stream.new_item_identifier();
        self.streams.insert(stream_id, stream);
        proof {
            assert(self@ =~= old(self)@.insert(
                stream_id,
                OrderingStreamView {
                    unique_item_identifier: next_id(id),
                    ..ordering_stream(old(self)@, stream_id)
                },
            ));
        }
        id
    }

    /// Arranges an item arriving on `stream_id`, creating the stream if needed, and hands
    /// out, in order, the item itself if it was expected and the waiting items now in turn.
    pub fn arrange(&mut self, stream_id: u8, incoming_offset: u16, item: T) -> (items: Vec<T>)
        requires
            old(self).wf(),
        ensures
            final(self).wf(),
            ({
                let arrival = ordered_arrival(ordering_stream(old(self)@, stream_id), incoming_offset, item@);
                let ready = ready_items(arrival.1);
                &&& items@.map_values(|v: T| v@) == option_items(arrival.0) + ready.0
                &&& final(self)@ == old(self)@.insert(stream_id, ready.1)
            }),
    {
        let ghost item_view = item@;
        let mut stream = match self.streams.remove(&stream_id) {
            Some(s) => s,
            None => OrderingStream::new(stream_id),
        };
        proof {
            assert(stream.state() == ordering_stream(old(self)@, stream_id));
        }
        let arranged = stream.arrange(incoming_offset, item);
        let mut ready = stream.iter_mut();
        let ghost ready_view = ready@.map_values(|v: T| v@);
        let mut items: Vec<T> = Vec::new();
        match arranged {
            Some(first) => items.push(first),
            None => {},
        }
        let ghost first_view = items@.map_values(|v: T| v@);
        proof {
            let arrival = ordered_arrival(ordering_stream(old(self)@, stream_id), incoming_offset, item_view);
            assert(first_view =~= option_items(arrival.0));
        }
        items.append(&mut ready);
        self.streams.insert(stream_id, stream);
        proof {
            let arrival = ordered_arrival(ordering_stream(old(self)@, stream_id), incoming_offset, item_view);
            assert(items@.map_values(|v: T| v@) =~= option_items(arrival.0) + ready_items(arrival.1).0);
            assert(self@ =~= old(self)@.insert(stream_id, ready_items(arrival.1).1));
        }
        items
    }
}

/// The arranging id `count` places after `id` on the 16-bit circle.
pub open spec fn id_after(id: u16, count: int) -> u16 {
    ((id + count) % 65536) as u16
}

proof fn lemma_ready_item<V>(s: OrderingStreamView<V>, i: int)
    requires
        s.storage.dom().finite(),
        0 <= i < ready_items(s).0.len(),
    ensures
        s.storage.contains_key(id_after(s.expected_index, i)),
        ready_items(s).0[i] == s.storage[id_after(s.expected_index, i)],
    decreases s.storage.dom().len(),
{
    let next = OrderingStreamView {
        expected_index: next_id(s.expected_index),
        storage: s.storage.remove(s.expected_index),
        ..s
    };
    if i == 0 {
        assert(id_after(s.expected_index, 0) == s.expected_index);
    } else {
        lemma_ready_item(next, i - 1);
        assert(id_after(next.expected_index, i - 1) == id_after(s.expected_index, i));
    }
}

/// The waiting items handed out once the expected one is in are those with consecutive
/// arranging ids from the expected one on, in the order of their ids; the stream then
/// expects the id after the last of them, and no item with that id waits.
pub proof fn lemma_ready_items_consecutive<V>(s: OrderingStreamView<V>)
    requires
        s.storage.dom().finite(),
    ensures
        forall|i: int|
            0 <= i < ready_items(s).0.len() ==> #[trigger] s.storage.contains_key(id_after(s.expected_index, i)),
        forall|i: int|
            0 <= i < ready_items(s).0.len() ==> #[trigger] ready_items(s).0[i] == s.storage[id_after(
                s.expected_index,
                i,
            )],
        ready_items(s).1.expected_index == id_after(s.expected_index, ready_items(s).0.len() as int),
        !ready_items(s).1.storage.contains_key(ready_items(s).1.expected_index),
        ready_items(s).1.unique_item_identifier == s.unique_item_identifier,
    decreases s.storage.dom().len(),
{
    assert forall|i: int| 0 <= i < ready_items(s).0.len() implies #[trigger] s.storage.contains_key(
        id_after(s.expected_index, i),
    ) by {
        lemma_ready_item(s, i);
    }
    assert forall|i: int| 0 <= i < ready_items(s).0.len() implies #[trigger] ready_items(s).0[i]
        == s.storage[id_after(s.expected_index, i)] by {
        lemma_ready_item(s, i);
    }
    if s.storage.contains_key(s.expected_index) {
        let next = OrderingStreamView {
            expected_index: next_id(s.expected_index),
            storage: s.storage.remove(s.expected_index),
            ..s
        };
        lemma_ready_items_consecutive(next);
        let rest = ready_items(next).0;
        assert(id_after(next.expected_index, rest.len() as int) == id_after(
            s.expected_index,
            rest.len() + 1int,
        ));
    } else {
        assert(id_after(s.expected_index, 0) == s.expected_index);
    }
}

/// How far `id` lies ahead of `start` going forward round the 16-bit circle, from 0 to 65535.
pub open spec fn ahead_of(start: u16, id: u16) -> int {
    (id as int - start as int + 65536) % 65536
}

/// A sequencing stream lets an id through exactly when it lies at most half the 16-bit circle
/// (32768 places) ahead of the newest id let through so far, the newest itself included; then
/// that id becomes the newest. Any other id is dropped and leaves the stream as it was.
pub proof fn lemma_sequencing_lets_through_the_next_half(stream: SequencingStream, id: u16)
    ensures
        ahead_of(stream.top_index, id) <= 32768 ==> stream.lets_through(id)
            && stream.after_arrival(id) == (SequencingStream { top_index: id, ..stream }),
        ahead_of(stream.top_index, id) > 32768 ==> !stream.lets_through(id)
            && stream.after_arrival(id) == stream,
{
}

/// An ordered item that arrives ahead of its turn, at most half the 16-bit circle ahead of
/// the expected id, is not handed out but waits in storage under its id, beside every item
/// that waited before; one further ahead, which counts as old, is dropped and changes nothing.
pub proof fn lemma_ordered_early_items_wait<V>(s: OrderingStreamView<V>, id: u16, item: V)
    requires
        id != s.expected_index,
    ensures
        ahead_of(s.expected_index, id) <= 32768 ==> ordered_arrival(s, id, item) == (
            None::<V>,
            OrderingStreamView { storage: s.storage.insert(id, item), ..s },
        ),
        ahead_of(s.expected_index, id) > 32768 ==> ordered_arrival(s, id, item) == (None::<V>, s),
{
}

/// The expected item is handed back at once, and the stream then expects the next id, with
/// the waiting items left as they were.
pub proof fn lemma_ordered_expected_item_goes_out<V>(s: OrderingStreamView<V>, item: V)
    ensures
        ordered_arrival(s, s.expected_index, item) == (
            Some(item),
            OrderingStreamView { expected_index: id_after(s.expected_index, 1), ..s },
        ),
{
}

/// The ids of the `count` items handed out from `start` on, one after another.
pub open spec fn handed_out_ids(start: u16, count: int) -> Set<u16> {
    Set::new(|k: u16| exists|i: int| 0 <= i < count && k == id_after(start, i))
}

/// Handing out the run of items now in turn removes from storage exactly the ids of the items
/// handed out: every waiting item that is not handed out still waits, unchanged.
pub proof fn lemma_ready_items_keep_the_rest<V>(s: OrderingStreamView<V>)
    requires
        s.storage.dom().finite(),
    ensures
        ready_items(s).1.storage == s.storage.remove_keys(
            handed_out_ids(s.expected_index, ready_items(s).0.len() as int),
        ),
    decreases s.storage.dom().len(),
{
    let n = ready_items(s).0.len() as int;
    if s.storage.contains_key(s.expected_index) {
        let next = OrderingStreamView {
            expected_index: next_id(s.expected_index),
            storage: s.storage.remove(s.expected_index),
            ..s
        };
        lemma_ready_items_keep_the_rest(next);
        let m = ready_items(next).0.len() as int;
        assert(n == m + 1);
        let later = handed_out_ids(next.expected_index, m);
        let all = handed_out_ids(s.expected_index, n);
        assert forall|k: u16| all.contains(k) <==> (k == s.expected_index || later.contains(k)) by {
            if all.contains(k) {
                let i = choose|i: int| 0 <= i < n && k == id_after(s.expected_index, i);
                if i > 0 {
                    assert(id_after(next.expected_index, i - 1) == id_after(s.expected_index, i));
                    assert(later.contains(k));
                } else {
                    assert(id_after(s.expected_index, 0) == s.expected_index);
                }
            }
            if k == s.expected_index {
                assert(id_after(s.expected_index, 0) == s.expected_index);
                assert(all.contains(k));
            }
            if later.contains(k) {
                let i = choose|i: int| 0 <= i < m && k == id_after(next.expected_index, i);
                assert(id_after(next.expected_index, i) == id_after(s.expected_index, i + 1));
                assert(all.contains(k));
            }
        }
        assert(ready_items(s).1.storage =~= s.storage.remove_keys(all));
    } else {
        assert(n == 0);
        assert(s.storage.remove_keys(handed_out_ids(s.expected_index, 0)) =~= s.storage);
    }
}

} // verus!
