use vstd::prelude::*;

use crate::config::Config;
use crate::error::{ErrorKind, FragmentErrorKind};
use crate::infrastructure::sequence_buffer::{
    SequenceBuffer, advanced, holds, lemma_cleared_only_empties, slot_of, too_old,
};
use crate::packet::header::{AckedPacketHeader, FragmentHeader};

verus! {

/// The number of fragments of `fragment_size` bytes needed to carry `payload_length` bytes.
pub open spec fn spec_fragments_needed(payload_length: u16, fragment_size: u16) -> u16 {
    (payload_length / fragment_size + if payload_length % fragment_size > 0 { 1int } else { 0int }) as u16
}

/// The length of a payload as the protocol counts it: truncated to 16 bits.
pub open spec fn wire_length(len: nat) -> u16 {
    (len % 65536) as u16
}

/// The number of fragments a payload of `len` bytes is split into, truncated to 8 bits.
pub open spec fn fragment_count(len: nat, fragment_size: u16) -> u8 {
    (spec_fragments_needed(wire_length(len), fragment_size) % 256) as u8
}

/// Whether splitting a payload of `len` bytes stays within 16-bit positions, or is refused
/// before any position is computed.
pub open spec fn fragment_positions_fit(len: nat, config: Config) -> bool {
    split_positions_fit(len, config.fragment_size, config.max_fragments)
}

/// Whether splitting a payload of `len` bytes into fragments of `fragment_size` bytes stays
/// within 16-bit positions, or is refused for needing more than `max_fragments` fragments
/// before any position is computed.
pub open spec fn split_positions_fit(len: nat, fragment_size: u16, max_fragments: u8) -> bool {
    fragment_count(len, fragment_size) > max_fragments || fragment_count(len, fragment_size) * fragment_size
        <= u16::MAX
}

/// The bytes of fragment `i` of `payload`.
pub open spec fn fragment_of(payload: Seq<u8>, fragment_size: u16, i: int) -> Seq<u8> {
    let len = wire_length(payload.len()) as int;
    let end = if (i + 1) * fragment_size > len { len } else { (i + 1) * fragment_size };
    payload.subrange(i * fragment_size, end)
}

pub(crate) proof fn lemma_fragments_needed_exact(payload_length: u16, fragment_size: u16)
    requires
        fragment_size > 0,
    ensures
        spec_fragments_needed(payload_length, fragment_size) as int == payload_length / fragment_size
            + if payload_length % fragment_size > 0 { 1int } else { 0int },
{
    let r = if payload_length % fragment_size > 0 { 1int } else { 0int };
    assert(payload_length / fragment_size + r <= u16::MAX) by (nonlinear_arith)
        requires
            fragment_size > 0,
            r == (if payload_length % fragment_size > 0 { 1int } else { 0int }),
    {
        if fragment_size == 1 {
            assert(payload_length % fragment_size == 0);
        }
    }
}

pub(crate) proof fn lemma_truncate_to_u16(x: usize)
    ensures
        x as u16 == wire_length(x as nat),
{
    assert(x as u16 == (x % 65536) as u16) by (bit_vector);
}

pub(crate) proof fn lemma_truncate_to_u8(x: u16)
    ensures
        x as u8 == (x % 256) as u8,
{
    assert(x as u8 == (x % 256) as u8) by (bit_vector);
}

/// The number of `true` entries of `flags`.
pub open spec fn count_true(flags: Seq<bool>) -> nat
    decreases flags.len(),
{
    if flags.len() == 0 {
        0
    } else {
        count_true(flags.drop_last()) + if flags.last() { 1nat } else { 0nat }
    }
}

proof fn lemma_count_true_zero(n: nat)
    ensures
        count_true(Seq::new(n, |i: int| false)) == 0,
    decreases n,
{
    if n > 0 {
        assert(Seq::new(n, |i: int| false).drop_last() =~= Seq::new((n - 1) as nat, |i: int| false));
        lemma_count_true_zero((n - 1) as nat);
    }
}

proof fn lemma_count_true_bounded(flags: Seq<bool>)
    ensures
        count_true(flags) <= flags.len(),
    decreases flags.len(),
{
    if flags.len() > 0 {
        lemma_count_true_bounded(flags.drop_last());
    }
}

proof fn lemma_count_true_set(flags: Seq<bool>, i: int)
    requires
        0 <= i < flags.len(),
        !flags[i],
    ensures
        count_true(flags.update(i, true)) == count_true(flags) + 1,
    decreases flags.len(),
{
    if i < flags.len() - 1 {
        assert(flags.update(i, true).drop_last() =~= flags.drop_last().update(i, true));
        lemma_count_true_set(flags.drop_last(), i);
    } else {
        assert(flags.update(i, true).drop_last() =~= flags.drop_last());
    }
}

/// What has arrived so far of a packet that comes in fragments.
#[derive(Debug)]
pub struct ReassemblyData {
    /// The sequence number of the packet.
    pub sequence: u16,
    /// The number of fragments received so far.
    pub num_fragments_received: u8,
    /// The number of fragments the packet is split into.
    pub num_fragments_total: u8,
    /// The payloads received so far, in the order they arrived.
    pub buffer: Vec<u8>,
    /// Which fragment ids have been received.
    pub fragments_received: Vec<bool>,
    /// The acknowledgement header that came with the first fragment, once it has arrived.
    pub acked_header: Option<AckedPacketHeader>,
}

/// The abstract state of a packet being reassembled.
pub struct ReassemblyView {
    pub sequence: u16,
    pub num_fragments_received: u8,
    pub num_fragments_total: u8,
    pub buffer: Seq<u8>,
    pub fragments_received: Seq<bool>,
    pub acked_header: Option<(u16, u16, u32)>,
}

/// An optional acknowledgement header, taken by its fields.
pub open spec fn acked_fields(header: Option<AckedPacketHeader>) -> Option<(u16, u16, u32)> {
    match header {
        Some(h) => Some(h.fields()),
        None => None,
    }
}

impl View for ReassemblyData {
    type V = ReassemblyView;

    open spec fn view(&self) -> ReassemblyView {
        ReassemblyView {
            sequence: self.sequence,
            num_fragments_received: self.num_fragments_received,
            num_fragments_total: self.num_fragments_total,
            buffer: self.buffer@,
            fragments_received: self.fragments_received@,
            acked_header: acked_fields(self.acked_header),
        }
    }
}

/// The state of a packet of `num_fragments_total` fragments of which nothing arrived yet.
pub open spec fn fresh_reassembly(sequence: u16, num_fragments_total: u8) -> ReassemblyView {
    ReassemblyView {
        sequence,
        num_fragments_received: 0,
        num_fragments_total,
        buffer: Seq::empty(),
        fragments_received: Seq::new(16, |i: int| false),
        acked_header: None,
    }
}

/// Whether a reassembly state is consistent: one flag per possible fragment id, and as many
/// fragments counted as flags set.
pub open spec fn reassembly_consistent(data: ReassemblyView) -> bool {
    &&& data.fragments_received.len() == 16
    &&& data.num_fragments_received == count_true(data.fragments_received)
}

impl ReassemblyData {
    /// Starts the reassembly of packet `sequence`, split into `num_fragments_total` fragments.
    pub fn new(sequence: u16, num_fragments_total: u8) -> (data: ReassemblyData)
        ensures
            data@ == fresh_reassembly(sequence, num_fragments_total),
    {
        let mut fragments_received: Vec<bool> = Vec::new();
        let mut i: usize = 0;
        while i < 16
            invariant
                i <= 16,
                fragments_received@.len() == i,
                forall|k: int| 0 <= k < i ==> !#[trigger] fragments_received@[k],
            decreases 16 - i,
        {
            fragments_received.push(false);
            i = i + 1;
        }
        let data = ReassemblyData {
            sequence,
            num_fragments_received: 0,
            num_fragments_total,
            buffer: Vec::new(),
            fragments_received,
            acked_header: None,
        };
        proof {
            assert(data@.fragments_received =~= Seq::new(16, |i: int| false));
        }
        data
    }
}

/// What a fragment with header fields `header` (sequence, id, count), `payload` and, for a
/// first fragment, `acked`, does to the reassembly slots `slots` with mark `mark`: the outcome
/// (the whole payload and the stored acknowledgement header once the last fragment is in)
/// and the slots and mark it leaves.
pub open spec fn fragment_arrival(
    slots: Seq<Option<(u16, ReassemblyView)>>,
    mark: u16,
    header: (u16, u8, u8),
    payload: Seq<u8>,
    acked: Option<(u16, u16, u32)>,
) -> (Result<Option<(Seq<u8>, Option<(u16, u16, u32)>)>, ErrorKind>, Seq<Option<(u16, ReassemblyView)>>, u16) {
    let (seq, id, count) = header;
    let (slots1, mark1) = if holds(slots, seq) || too_old(mark, slots.len(), seq) {
        (slots, mark)
    } else {
        let (s, m) = advanced(slots, mark, seq);
        (s.update(slot_of(seq, s.len()), Some((seq, fresh_reassembly(seq, count)))), m)
    };
    let index = slot_of(seq, slots1.len());
    if !holds(slots1, seq) {
        (Err(ErrorKind::FragmentError(FragmentErrorKind::CouldNotFindFragmentById)), slots1, mark1)
    } else {
        let data = slots1[index]->Some_0.1;
        if data.num_fragments_total != count {
            (Err(ErrorKind::FragmentError(FragmentErrorKind::FragmentWithUnevenNumberOfFragments)), slots1, mark1)
        } else if id >= data.fragments_received.len() {
            (Err(ErrorKind::FragmentError(FragmentErrorKind::ExceededMaxFragments)), slots1, mark1)
        } else if data.fragments_received[id as int] {
            (Err(ErrorKind::FragmentError(FragmentErrorKind::AlreadyProcessedFragment)), slots1, mark1)
        } else {
            let updated = ReassemblyView {
                num_fragments_received: (data.num_fragments_received + 1) as u8,
                fragments_received: data.fragments_received.update(id as int, true),
                buffer: data.buffer + payload,
                acked_header: if acked is Some { acked } else { data.acked_header },
                ..data
            };
            if updated.num_fragments_received == updated.num_fragments_total {
                (Ok(Some((updated.buffer, updated.acked_header))), slots1.update(index, None), mark1)
            } else {
                (Ok(None), slots1.update(index, Some((seq, updated))), mark1)
            }
        }
    }
}

/// The outcome of handling a fragment, with the payload taken by its view.
pub open spec fn reassembly_outcome(
    r: Result<Option<(Vec<u8>, Option<AckedPacketHeader>)>, ErrorKind>,
) -> Result<Option<(Seq<u8>, Option<(u16, u16, u32)>)>, ErrorKind> {
    match r {
        Ok(Some((buffer, acked))) => Ok(Some((buffer@, acked_fields(acked)))),
        Ok(None) => Ok(None),
        Err(e) => Err(e),
    }
}

/// Splitting packets into fragments and putting them back together.
#[derive(Debug)]
pub struct Fragmentation {
    fragments: SequenceBuffer<ReassemblyData>,
}

impl Fragmentation {
    /// The reassembly slots: each empty or holding the state of a packet being reassembled.
    pub closed spec fn slots(&self) -> Seq<Option<(u16, ReassemblyView)>> {
        self.fragments.slots()
    }

    /// One past the newest packet sequence number a fragment arrived for.
    pub closed spec fn spec_sequence_num(&self) -> u16 {
        self.fragments.spec_sequence_num()
    }

    /// The invariant: at most 2^16 - 1 slots, each consistent.
    pub open spec fn wf(&self) -> bool {
        &&& self.slots().len() <= u16::MAX
        &&& forall|i: int|
            0 <= i < self.slots().len() ==> (#[trigger] self.slots()[i] matches Some((_, d))
                ==> reassembly_consistent(d))
    }

    /// Creates the reassembly state of a connection, with as many slots as the configuration
    /// asks.
    pub fn new(config: &Config) -> (fragmentation: Fragmentation)
        ensures
            fragmentation.wf(),
            fragmentation.slots() == Seq::new(
                config.fragment_reassembly_buffer_size as nat,
                |i: int| None::<(u16, ReassemblyView)>,
            ),
            fragmentation.spec_sequence_num() == 0,
    {
        Fragmentation { fragments: SequenceBuffer::with_capacity(config.fragment_reassembly_buffer_size) }
    }

    /// Handles a received fragment: records it with the packet it belongs to, and once all of
    /// that packet's fragments are in, hands back its payloads joined in the order they
    /// arrived, together with the acknowledgement header of its first fragment.
    pub fn handle_fragment(
        &mut self,
        fragment_header: FragmentHeader,
        fragment_payload: &[u8],
        acked_header: Option<AckedPacketHeader>,
    ) -> (result: Result<Option<(Vec<u8>, Option<AckedPacketHeader>)>, ErrorKind>)
        requires
            old(self).wf(),
            old(self).slots().len() > 0,
        ensures
            final(self).wf(),
            final(self).slots().len() == old(self).slots().len(),
            ({
                let (outcome, slots, mark) = fragment_arrival(
                    old(self).slots(),
                    old(self).spec_sequence_num(),
                    fragment_header.fields(),
                    fragment_payload@,
                    acked_fields(acked_header),
                );
                &&& reassembly_outcome(result) == outcome
                &&& final(self).slots() == slots
                &&& final(self).spec_sequence_num() == mark
            }),
    {
        let seq = fragment_header.sequence();
        let count = fragment_header.fragment_count();
        let ghost slots0 = self.slots();
        if !self.fragments.contains(seq) {
            let data = ReassemblyData::new(seq, count);
            self.fragments.insert(seq, data);
            proof {
                lemma_cleared_only_empties(slots0, self.fragments.spec_sequence_num(), seq);
            }
        }
        let ghost slots1 = self.slots();
        proof {
            if !holds(slots0, seq) && !too_old(old(self).spec_sequence_num(), slots0.len(), seq) {
                lemma_cleared_only_empties(slots0, old(self).spec_sequence_num(), seq);
            }
            assert forall|i: int|
                0 <= i < slots1.len() implies (#[trigger] slots1[i] matches Some((_, d))
                ==> reassembly_consistent(d)) by {
                if !holds(slots0, seq) && !too_old(old(self).spec_sequence_num(), slots0.len(), seq) {
                    let cl = advanced(slots0, old(self).spec_sequence_num(), seq).0;
                    if i != slot_of(seq, slots0.len()) && cl != slots0 {
                        assert(cl[i] is None || cl[i] == slots0[i]);
                    }
                    if i == slot_of(seq, slots0.len()) {
                        assert(count_true(Seq::new(16, |i: int| false)) == 0) by {
                            lemma_count_true_zero(16);
                        }
                    }
                }
            }
        }
        let mut data = match self.fragments.remove(seq) {
            Some(d) => d,
            None => {
                return Err(ErrorKind::FragmentError(FragmentErrorKind::CouldNotFindFragmentById));
            },
        };
        if data.num_fragments_total != count {
            self.fragments.put_back(seq, data);
            proof {
                assert(self.slots() =~= slots1);
            }
            return Err(ErrorKind::FragmentError(FragmentErrorKind::FragmentWithUnevenNumberOfFragments));
        }
        let id = fragment_header.id() as usize;
        if id >= data.fragments_received.len() {
            self.fragments.put_back(seq, data);
            proof {
                assert(self.slots() =~= slots1);
            }
            return Err(ErrorKind::FragmentError(FragmentErrorKind::ExceededMaxFragments));
        }
        if data.fragments_received[id] {
            self.fragments.put_back(seq, data);
            proof {
                assert(self.slots() =~= slots1);
            }
            return Err(ErrorKind::FragmentError(FragmentErrorKind::AlreadyProcessedFragment));
        }
        proof {
            lemma_count_true_bounded(data.fragments_received@);
            lemma_count_true_set(data.fragments_received@, id as int);
        }
        data.num_fragments_received = data.num_fragments_received + 1;
        data.fragments_received.set(id, true);
        let mut payload = vstd::slice::slice_to_vec(fragment_payload);
        data.buffer.append(&mut payload);
        if let Some(acked) = acked_header {
            data.acked_header = Some(acked);
        }
        if data.num_fragments_received == data.num_fragments_total {
            return Ok(Some((data.buffer, data.acked_header)));
        }
        self.fragments.put_back(seq, data);
        Ok(None)
    }

    /// Calculates the number of fragments needed to carry `payload_length` bytes.
    pub fn fragments_needed(payload_length: u16, fragment_size: u16) -> (n: u16)
        requires
            fragment_size > 0,
        ensures
            n == spec_fragments_needed(payload_length, fragment_size),
    {
        let remainder = if payload_length % fragment_size > 0 {
            1
        } else {
            0
        };
        proof {
            assert(payload_length / fragment_size + remainder <= u16::MAX) by (nonlinear_arith)
                requires
                    fragment_size > 0,
                    remainder == (if payload_length % fragment_size > 0 { 1int } else { 0int }),
            {
                if fragment_size == 1 {
                    assert(payload_length % fragment_size == 0);
                }
            }
        }
        (payload_length / fragment_size) + remainder
    }

    /// Splits a payload into fragments of `config.fragment_size` bytes; the last one holds
    /// what is left.
    pub fn spit_into_fragments<'d>(payload: &'d [u8], config: &Config) -> (fragments: Result<
        Vec<&'d [u8]>,
        ErrorKind,
    >)
        requires
            config.fragment_size > 0,
            fragment_positions_fit(payload@.len(), *config),
        ensures
            fragment_count(payload@.len(), config.fragment_size) > config.max_fragments
                ==> fragments == Err::<Vec<&'d [u8]>, ErrorKind>(
                ErrorKind::FragmentError(FragmentErrorKind::ExceededMaxFragments),
            ),
            fragment_count(payload@.len(), config.fragment_size) <= config.max_fragments
                ==> (fragments matches Ok(f) && f.len() == fragment_count(
                payload@.len(),
                config.fragment_size,
            ) && forall|i: int|
                0 <= i < f.len() ==> #[trigger] f[i]@ == fragment_of(
                    payload@,
                    config.fragment_size,
                    i,
                )),
    {
        split_payload(payload, config.fragment_size, config.max_fragments)
    }
}

/// Whether splitting a payload of `payload_len` bytes into fragments of `fragment_size`
/// bytes stays within 16-bit positions, or is refused for needing more than `max_fragments`
/// fragments.
pub fn split_fits(payload_len: usize, fragment_size: u16, max_fragments: u8) -> (fits: bool)
    requires
        fragment_size > 0,
    ensures
        fits == split_positions_fit(payload_len as nat, fragment_size, max_fragments),
{
    let payload_length = payload_len as u16;
    proof {
        lemma_truncate_to_u16(payload_len);
    }
    let needed = Fragmentation::fragments_needed(payload_length, fragment_size);
    let count = needed as u8;
    proof {
        lemma_truncate_to_u8(needed);
    }
    if count > max_fragments {
        true
    } else {
        proof {
            assert((count as u64) * (fragment_size as u64) <= 255 * 65535) by (nonlinear_arith)
                requires
                    count <= 255,
                    fragment_size <= 65535,
            ;
        }
        (count as u64) * (fragment_size as u64) <= 65535
    }
}

/// Splits a payload into fragments of `fragment_size` bytes, the last one holding what is
/// left, or refuses when more than `max_fragments` fragments are needed.
pub(crate) fn split_payload<'d>(payload: &'d [u8], fragment_size: u16, max_fragments: u8) -> (fragments: Result<
    Vec<&'d [u8]>,
    ErrorKind,
>)
    requires
        fragment_size > 0,
        split_positions_fit(payload@.len(), fragment_size, max_fragments),
    ensures
        fragment_count(payload@.len(), fragment_size) > max_fragments ==> fragments == Err::<
            Vec<&'d [u8]>,
            ErrorKind,
        >(ErrorKind::FragmentError(FragmentErrorKind::ExceededMaxFragments)),
        fragment_count(payload@.len(), fragment_size) <= max_fragments ==> (fragments matches Ok(f) && f.len()
            == fragment_count(payload@.len(), fragment_size) && forall|i: int|
            0 <= i < f.len() ==> #[trigger] f[i]@ == fragment_of(payload@, fragment_size, i)),
{
    let mut fragments: Vec<&'d [u8]> = Vec::new();
    let payload_length = payload.len() as u16;
    proof {
        lemma_truncate_to_u16(payload.len());
    }
    let needed = Fragmentation::fragments_needed(payload_length, fragment_size);
    let num_fragments = needed as u8;
    proof {
        lemma_truncate_to_u8(needed);
        lemma_fragments_needed_exact(payload_length, fragment_size);
    }

    if num_fragments > max_fragments {
        return Err(ErrorKind::FragmentError(FragmentErrorKind::ExceededMaxFragments));
    }
    let mut fragment_id: u8 = 0;
    while fragment_id < num_fragments
        invariant
            fragment_id <= num_fragments,
            num_fragments == fragment_count(payload@.len(), fragment_size),
            needed == spec_fragments_needed(payload_length, fragment_size),
            num_fragments == needed % 256,
            needed as int == payload_length / fragment_size + if payload_length % fragment_size
                > 0 { 1int } else { 0int },
            payload_length == wire_length(payload@.len()),
            fragment_size > 0,
            num_fragments * fragment_size <= u16::MAX,
            fragments.len() == fragment_id,
            forall|i: int|
                0 <= i < fragments.len() ==> #[trigger] fragments[i]@ == fragment_of(
                    payload@,
                    fragment_size,
                    i,
                ),
        decreases num_fragments - fragment_id,
    {
        proof {
            assert((fragment_id as int + 1) * fragment_size <= num_fragments * fragment_size)
                by (nonlinear_arith)
                requires
                    fragment_id < num_fragments,
            ;
            assert(payload_length <= payload@.len());
            assert((fragment_id as int + 1) * fragment_size == fragment_id * fragment_size
                + fragment_size) by (nonlinear_arith);
            assert(fragment_id * fragment_size <= payload_length) by (nonlinear_arith)
                requires
                    fragment_id < num_fragments,
                    num_fragments as int == needed % 256,
                    needed as int == payload_length / fragment_size + if payload_length
                        % fragment_size > 0 { 1int } else { 0int },
                    fragment_size > 0,
            {
                assert(payload_length == fragment_size * (payload_length / fragment_size)
                    + payload_length % fragment_size);
                assert(num_fragments <= payload_length / fragment_size + if payload_length
                    % fragment_size > 0 { 1int } else { 0int });
                if fragment_id < payload_length / fragment_size {
                    assert(fragment_id * fragment_size <= (payload_length / fragment_size)
                        * fragment_size);
                } else {
                    assert(fragment_id == payload_length / fragment_size);
                }
            }
        }
        let start_fragment_pos = fragment_id as u16 * fragment_size;
        let mut end_fragment_pos = (fragment_id as u16 + 1) * fragment_size;
        if end_fragment_pos > payload_length {
            end_fragment_pos = payload_length;
        }
        assert(start_fragment_pos <= end_fragment_pos);
        assert(end_fragment_pos <= payload@.len());
        let fragment_data = vstd::slice::slice_subrange(
            payload,
            start_fragment_pos as usize,
            end_fragment_pos as usize,
        );
        fragments.push(fragment_data);
        fragment_id = fragment_id + 1;
    }
    Ok(fragments)
}

/// The pieces joined in order.
pub open spec fn joined(pieces: Seq<Seq<u8>>) -> Seq<u8>
    decreases pieces.len(),
{
    if pieces.len() == 0 {
        Seq::empty()
    } else {
        joined(pieces.drop_last()) + pieces.last()
    }
}

/// The state of packet `seq`, split into `count` fragments, once its first `received`
/// fragments arrived in order with the payloads `pieces` (the first with `acked`).
pub open spec fn partly_reassembled(
    seq: u16,
    count: u8,
    received: int,
    pieces: Seq<Seq<u8>>,
    acked: Option<(u16, u16, u32)>,
) -> ReassemblyView {
    ReassemblyView {
        sequence: seq,
        num_fragments_received: received as u8,
        num_fragments_total: count,
        buffer: joined(pieces.take(received)),
        fragments_received: Seq::new(16, |j: int| j < received),
        acked_header: acked,
    }
}

/// Whether `outcomes`, `slots` and `marks` record the arrival, in order, of the fragments of
/// packet `seq` with payloads `pieces`, the first one carrying `acked`.
pub open spec fn arrivals_in_order(
    slots: Seq<Seq<Option<(u16, ReassemblyView)>>>,
    marks: Seq<u16>,
    outcomes: Seq<Result<Option<(Seq<u8>, Option<(u16, u16, u32)>)>, ErrorKind>>,
    seq: u16,
    pieces: Seq<Seq<u8>>,
    acked: Option<(u16, u16, u32)>,
) -> bool {
    &&& slots.len() == pieces.len() + 1
    &&& marks.len() == pieces.len() + 1
    &&& outcomes.len() == pieces.len()
    &&& forall|i: int|
        0 <= i < pieces.len() ==> (outcomes[i], slots[i + 1], marks[i + 1]) == #[trigger] fragment_arrival(
            slots[i],
            marks[i],
            (seq, i as u8, pieces.len() as u8),
            pieces[i],
            first_only(i, acked),
        )
}

/// The acknowledgement header fragment `i` carries: the first one carries `acked`.
pub open spec fn first_only(i: int, acked: Option<(u16, u16, u32)>) -> Option<(u16, u16, u32)> {
    if i == 0 {
        acked
    } else {
        None
    }
}

proof fn lemma_reassembly_step(
    slots: Seq<Seq<Option<(u16, ReassemblyView)>>>,
    marks: Seq<u16>,
    outcomes: Seq<Result<Option<(Seq<u8>, Option<(u16, u16, u32)>)>, ErrorKind>>,
    seq: u16,
    pieces: Seq<Seq<u8>>,
    acked: Option<(u16, u16, u32)>,
    i: int,
)
    requires
        1 <= pieces.len() <= 16,
        arrivals_in_order(slots, marks, outcomes, seq, pieces, acked),
        slots[0].len() > 0,
        !holds(slots[0], seq),
        !too_old(marks[0], slots[0].len(), seq),
        1 <= i <= pieces.len(),
    ensures
        slots[i].len() == slots[0].len(),
        i < pieces.len() ==> holds(slots[i], seq) && slots[i][slot_of(seq, slots[i].len())] == Some(
            (seq, partly_reassembled(seq, pieces.len() as u8, i, pieces, acked)),
        ),
        forall|j: int| 0 <= j < i && j < pieces.len() - 1 ==> #[trigger] outcomes[j] == Ok::<
            Option<(Seq<u8>, Option<(u16, u16, u32)>)>,
            ErrorKind,
        >(None),
        i == pieces.len() ==> outcomes[i - 1] == Ok::<Option<(Seq<u8>, Option<(u16, u16, u32)>)>, ErrorKind>(
            Some((joined(pieces), acked)),
        ),
    decreases i,
{
    let n = pieces.len();
    let count = n as u8;
    let k = i - 1;
    let before = if k == 0 {
        let (s, m) = advanced(slots[0], marks[0], seq);
        lemma_cleared_only_empties(slots[0], marks[0], seq);
        s.update(slot_of(seq, s.len()), Some((seq, fresh_reassembly(seq, count))))
    } else {
        lemma_reassembly_step(slots, marks, outcomes, seq, pieces, acked, k);
        slots[k]
    };
    let data = if k == 0 { fresh_reassembly(seq, count) } else { partly_reassembled(seq, count, k, pieces, acked) };
    assert(fragment_arrival(slots[k], marks[k], (seq, k as u8, count), pieces[k], first_only(k, acked))
        == (outcomes[k], slots[k + 1], marks[k + 1]));
    assert(before.len() == slots[0].len());
    assert(holds(before, seq));
    assert(before[slot_of(seq, before.len())] == Some((seq, data)));
    if k == 0 {
        assert(fresh_reassembly(seq, count).fragments_received =~= Seq::new(16, |j: int| j < 0));
        assert(pieces.take(0) =~= Seq::<Seq<u8>>::empty());
        assert(joined(pieces.take(0)) =~= Seq::<u8>::empty());
    }
    assert(data.fragments_received =~= Seq::new(16, |j: int| j < k));
    assert(pieces.take(k + 1).drop_last() =~= pieces.take(k));
    assert(joined(pieces.take(k + 1)) == data.buffer + pieces[k]);
    let updated = partly_reassembled(seq, count, i, pieces, acked);
    assert(data.fragments_received.update(k, true) =~= updated.fragments_received);
    if i == n {
        assert(pieces.take(i) =~= pieces);
    }
}

/// Fragments that arrive in order make up their packet: each but the last leaves the packet
/// waiting, and the last hands out all their payloads joined, with the acknowledgement
/// header of the first. This holds when no fragment of the packet arrived before and its
/// sequence number is recent enough to be kept.
pub proof fn lemma_fragments_reassemble_in_order(
    slots: Seq<Seq<Option<(u16, ReassemblyView)>>>,
    marks: Seq<u16>,
    outcomes: Seq<Result<Option<(Seq<u8>, Option<(u16, u16, u32)>)>, ErrorKind>>,
    seq: u16,
    pieces: Seq<Seq<u8>>,
    acked: Option<(u16, u16, u32)>,
)
    requires
        1 <= pieces.len() <= 16,
        arrivals_in_order(slots, marks, outcomes, seq, pieces, acked),
        slots[0].len() > 0,
        !holds(slots[0], seq),
        !too_old(marks[0], slots[0].len(), seq),
    ensures
        forall|j: int| 0 <= j < pieces.len() - 1 ==> #[trigger] outcomes[j] == Ok::<
            Option<(Seq<u8>, Option<(u16, u16, u32)>)>,
            ErrorKind,
        >(None),
        outcomes[pieces.len() - 1] == Ok::<Option<(Seq<u8>, Option<(u16, u16, u32)>)>, ErrorKind>(
            Some((joined(pieces), acked)),
        ),
{
    lemma_reassembly_step(slots, marks, outcomes, seq, pieces, acked, pieces.len() as int);
}

/// The fragments of `payload` in order, as many as `count`.
pub open spec fn fragment_pieces(payload: Seq<u8>, fragment_size: u16, count: nat) -> Seq<Seq<u8>> {
    Seq::new(count, |i: int| fragment_of(payload, fragment_size, i))
}

proof fn lemma_pieces_prefix(payload: Seq<u8>, fragment_size: u16, count: nat, k: int)
    requires
        fragment_size > 0,
        payload.len() <= u16::MAX,
        count as int == (payload.len() as int) / (fragment_size as int) + if (payload.len() as int) % (
        fragment_size as int) > 0 {
            1int
        } else {
            0int
        },
        0 <= k <= count,
    ensures
        joined(fragment_pieces(payload, fragment_size, count).take(k)) == payload.subrange(
            0,
            if k * fragment_size > payload.len() { payload.len() as int } else { k * fragment_size },
        ),
    decreases k,
{
    let pieces = fragment_pieces(payload, fragment_size, count);
    let len = payload.len() as int;
    let size = fragment_size as int;
    if k == 0 {
        assert(pieces.take(0) =~= Seq::<Seq<u8>>::empty());
        assert(payload.subrange(0, 0) =~= Seq::<u8>::empty());
    } else {
        lemma_pieces_prefix(payload, fragment_size, count, k - 1);
        vstd::arithmetic::div_mod::lemma_fundamental_div_mod(len, size);
        assert(pieces.take(k).drop_last() =~= pieces.take(k - 1));
        assert(pieces.take(k).last() == fragment_of(payload, fragment_size, k - 1));
        assert((k - 1) * size < len) by (nonlinear_arith)
            requires
                size > 0,
                0 < k <= count,
                count == len / size + if len % size > 0 { 1int } else { 0int },
                len == size * (len / size) + len % size,
                0 <= len % size < size,
        {
            if k - 1 < len / size {
                assert((k - 1) * size <= (len / size - 1) * size);
            } else {
                assert(k - 1 == len / size);
                assert(len % size > 0);
            }
        }
        assert(k * size == (k - 1) * size + size) by (nonlinear_arith);
        assert(wire_length(payload.len()) as int == len);
        let start = (k - 1) * size;
        let end = if k * size > len { len } else { k * size };
        assert(joined(pieces.take(k - 1)) == payload.subrange(0, start));
        assert(pieces.take(k).last() == payload.subrange(start, end));
        assert(joined(pieces.take(k)) == joined(pieces.take(k - 1)) + payload.subrange(start, end));
        assert(payload.subrange(0, start) + payload.subrange(start, end) =~= payload.subrange(0, end));
    }
}

/// Joining the fragments a payload is split into, in order, gives back the payload: the
/// fragments cover it exactly, when it fits the 16 bits the protocol counts lengths in.
pub proof fn lemma_fragments_join(payload: Seq<u8>, fragment_size: u16)
    requires
        fragment_size > 0,
        payload.len() <= u16::MAX,
    ensures
        joined(
            fragment_pieces(
                payload,
                fragment_size,
                spec_fragments_needed(payload.len() as u16, fragment_size) as nat,
            ),
        ) == payload,
{
    let len = payload.len() as int;
    let size = fragment_size as int;
    lemma_fragments_needed_exact(payload.len() as u16, fragment_size);
    let count = spec_fragments_needed(payload.len() as u16, fragment_size) as nat;
    vstd::arithmetic::div_mod::lemma_fundamental_div_mod(len, size);
    lemma_pieces_prefix(payload, fragment_size, count, count as int);
    assert(count * size >= len) by (nonlinear_arith)
        requires
            size > 0,
            count == len / size + if len % size > 0 { 1int } else { 0int },
            len == size * (len / size) + len % size,
            0 <= len % size < size,
    ;
    assert(fragment_pieces(payload, fragment_size, count).take(count as int) =~= fragment_pieces(
        payload,
        fragment_size,
        count,
    ));
    assert(payload.subrange(0, len) =~= payload);
}

} // verus!
