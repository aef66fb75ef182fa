//! Parses the entries of a slot while its shreds are still arriving.
//!
//! Shreds may come in any order. The data of the shreds that are there without a gap is parsed
//! as far as it goes: first the number of entries, 8 bytes little-endian, then the entries.
use crate::bytes::{extend, read_u64};
use crate::entry::{Entry, EntryView};
use crate::text::owned;
use solana_transaction::versioned::VersionedTransaction;
use std::collections::BTreeMap;
use vstd::prelude::*;
use vstd::slice::slice_subrange;
use vstd::string::StringExecFns;

verus! {

broadcast use {vstd::std_specs::btree::group_btree_axioms, vstd::laws_cmp::group_laws_cmp};

/// Why shreds or entries were refused.
#[derive(Debug, Clone, PartialEq, Eq)]
pub enum StreamingDeserializeError {
    /// More bytes are needed to go on.
    NeedMoreData,
    /// The data does not have the expected form.
    InvalidFormat(String),
    /// The data could not be taken out of a shred.
    ShredError(String),
    /// An entry could not be read.
    DeserializeError(String),
    /// Too many shreds wait for a gap to be filled.
    TooManyPendingShreds,
}

/// The text of an error.
pub open spec fn error_text(error: StreamingDeserializeError) -> Seq<char> {
    match error {
        StreamingDeserializeError::NeedMoreData => "Need more data to continue parsing"@,
        StreamingDeserializeError::InvalidFormat(msg) => "Invalid format: "@ + msg@,
        StreamingDeserializeError::ShredError(msg) => "Shred error: "@ + msg@,
        StreamingDeserializeError::DeserializeError(msg) => "Deserialize error: "@ + msg@,
        StreamingDeserializeError::TooManyPendingShreds => "Too many pending shreds"@,
    }
}

impl StreamingDeserializeError {
    /// The error as text.
    pub fn text(&self) -> (text: String)
        ensures
            text@ == error_text(*self),
    {
        match self {
            StreamingDeserializeError::NeedMoreData => owned("Need more data to continue parsing"),
            StreamingDeserializeError::InvalidFormat(msg) => {
                let mut text = owned("Invalid format: ");
                text.append(msg.as_str());
                text
            },
            StreamingDeserializeError::ShredError(msg) => {
                let mut text = owned("Shred error: ");
                text.append(msg.as_str());
                text
            },
            StreamingDeserializeError::DeserializeError(msg) => {
                let mut text = owned("Deserialize error: ");
                text.append(msg.as_str());
                text
            },
            StreamingDeserializeError::TooManyPendingShreds => owned("Too many pending shreds"),
        }
    }
}

/// Times of one entry, in nanoseconds of a monotonic clock.
#[derive(Debug, Clone, Copy, PartialEq, Eq, Structural)]
pub struct EntryTimestamp {
    /// When the first of the shreds that hold the entry's bytes arrived.
    pub shred_arrival: u64,
    /// When the entry was parsed.
    pub parsed: u64,
    /// When the entry was executed.
    pub executed: Option<u64>,
}

/// What one shred carries: its flag and its data, or the reason why there is none.
#[derive(Debug)]
pub struct ShredPayload {
    /// Whether the shred ends a run of entries.
    pub data_complete: bool,
    pub data: Result<Vec<u8>, String>,
}

/// Outcome of reading one entry from the front of some bytes.
#[derive(Debug)]
pub enum EntryRead {
    /// An entry, and the number of bytes it took.
    Complete(Entry, usize),
    /// The bytes end before the entry does.
    Incomplete,
    /// The bytes are no entry, with the reason.
    Malformed(String),
}

/// Outcome of reading one entry, by its contents.
pub enum EntryReadView {
    Complete(EntryView, nat),
    Incomplete,
    Malformed(Seq<char>),
}

impl View for EntryRead {
    type V = EntryReadView;

    open spec fn view(&self) -> EntryReadView {
        match self {
            EntryRead::Complete(entry, used) => EntryReadView::Complete(entry@, *used as nat),
            EntryRead::Incomplete => EntryReadView::Incomplete,
            EntryRead::Malformed(reason) => EntryReadView::Malformed(reason@),
        }
    }
}

/// What reading one entry from the front of `bytes` comes to.
pub uninterp spec fn entry_read(bytes: Seq<u8>) -> EntryReadView;

/// The bytes `front` decide what is read: whatever follows them, the outcome is `read`, and any
/// fewer of them end before the entry does.
pub open spec fn decides(front: Seq<u8>, read: EntryReadView) -> bool {
    &&& forall|rest: Seq<u8>| #[trigger] entry_read(front + rest) == read
    &&& forall|k: int|
        0 <= k < front.len() ==> #[trigger] entry_read(front.subrange(0, k)) is Incomplete
}

/// Calls `wincode::deserialize_from` on a cursor over the bytes, for the three fields of an
/// entry. The outcome depends on the bytes alone. The cursor goes through the bytes from the front,
/// does not move past their end, and fails with `ReadSizeLimit` where more bytes are asked for than
/// are left. So an entry takes no more bytes than there are, the bytes behind a complete entry do
/// not change what is read, and a complete entry that is cut off reads as incomplete.
#[verifier::external_body]
pub(crate) fn read_entry(bytes: &[u8]) -> (read: EntryRead)
    ensures
        read@ == entry_read(bytes@),
        read matches EntryRead::Complete(_, used) ==> used <= bytes@.len() && decides(
            bytes@.subrange(0, used as int),
            read@,
        ),
{
    let mut cursor = wincode::io::Cursor::new(bytes);
    match wincode::deserialize_from::<(u64, [u8; 32], Vec<VersionedTransaction>)>(&mut cursor) {
        Ok((num_hashes, hash, transactions)) => {
            EntryRead::Complete(Entry { num_hashes, hash, transactions }, cursor.position())
        },
        Err(wincode::ReadError::Io(wincode::io::ReadError::ReadSizeLimit(_))) => {
            EntryRead::Incomplete
        },
        Err(e) => EntryRead::Malformed(format!("{:?}", e)),
    }
}

/// A shred's data, or the reason why there is none, as it waits for its turn.
pub type ShredData = Result<Vec<u8>, String>;

/// The first index from `next` on whose data is not waiting.
pub open spec fn flush_stop(pending: Map<u32, ShredData>, next: u32) -> u32
    decreases u32::MAX - next,
{
    if next < u32::MAX && pending.contains_key(next) && pending[next] is Ok {
        flush_stop(pending, (next + 1) as u32)
    } else {
        next
    }
}

/// The data of the waiting shreds `from..to`, in order.
pub open spec fn flushed_data(pending: Map<u32, ShredData>, from: int, to: int) -> Seq<u8>
    decreases to - from,
{
    if to <= from {
        seq![]
    } else {
        flushed_data(pending, from, to - 1) + pending[(to - 1) as u32]->Ok_0@
    }
}

/// Where the data of one shred lies in the buffer.
#[derive(Debug, Clone, Copy, PartialEq, Eq, Structural)]
pub struct ShredSpan {
    pub index: u32,
    pub begin: usize,
    pub end: usize,
}

/// Where the data of each of the waiting shreds `from..to` lies, behind `base` bytes.
pub open spec fn flushed_spans(
    pending: Map<u32, ShredData>,
    base: int,
    from: int,
    to: int,
) -> Seq<ShredSpan>
    decreases to - from,
{
    if to <= from {
        seq![]
    } else {
        flushed_spans(pending, base, from, to - 1).push(
            ShredSpan {
                index: (to - 1) as u32,
                begin: (base + flushed_data(pending, from, to - 1).len()) as usize,
                end: (base + flushed_data(pending, from, to).len()) as usize,
            },
        )
    }
}

/// What the shreds so far amount to: the data without a gap and where each shred lies in it, the
/// shred awaited next and the shreds that wait.
#[verifier::ext_equal]
pub struct Gathered {
    pub buffer: Seq<u8>,
    pub spans: Seq<ShredSpan>,
    pub awaited: u32,
    pub pending: Map<u32, ShredData>,
}

/// What they amount to with one more shred. The awaited shred is followed by the waiting ones
/// behind it, up to one without data, which is dropped; a later shred waits; an earlier one
/// changes nothing.
pub open spec fn with_shred(so_far: Gathered, index: u32, data: ShredData) -> Gathered {
    if index == so_far.awaited {
        match data {
            Ok(bytes) => {
                let next = (index + 1) as u32;
                let stop = flush_stop(so_far.pending, next);
                Gathered {
                    buffer: so_far.buffer + bytes@ + flushed_data(
                        so_far.pending,
                        next as int,
                        stop as int,
                    ),
                    spans: so_far.spans.push(
                        ShredSpan {
                            index,
                            begin: so_far.buffer.len() as usize,
                            end: (so_far.buffer.len() + bytes@.len()) as usize,
                        },
                    ) + flushed_spans(
                        so_far.pending,
                        (so_far.buffer.len() + bytes@.len()) as int,
                        next as int,
                        stop as int,
                    ),
                    awaited: stop,
                    pending: so_far.pending.remove_keys(Set::new(|k: u32| next <= k <= stop)),
                }
            },
            Err(_) => so_far,
        }
    } else if index > so_far.awaited {
        Gathered {
            buffer: so_far.buffer,
            spans: so_far.spans,
            awaited: so_far.awaited,
            pending: so_far.pending.insert(index, data),
        }
    } else {
        so_far
    }
}

/// How the addition of a shred is answered.
pub open spec fn shred_answer(
    so_far: Gathered,
    max_pending: usize,
    index: u32,
    data: ShredData,
) -> Result<bool, StreamingDeserializeError> {
    if index == so_far.awaited {
        let stop = flush_stop(so_far.pending, (index + 1) as u32);
        match data {
            Err(reason) => Err(StreamingDeserializeError::ShredError(reason)),
            Ok(_) => if so_far.pending.contains_key(stop) {
                Err(StreamingDeserializeError::ShredError(so_far.pending[stop]->Err_0))
            } else {
                Ok(true)
            },
        }
    } else if index > so_far.awaited && so_far.pending.dom().len() >= max_pending {
        Err(StreamingDeserializeError::TooManyPendingShreds)
    } else {
        Ok(false)
    }
}

/// What they amount to after a shred was added or refused.
pub open spec fn state_after(
    so_far: Gathered,
    max_pending: usize,
    index: u32,
    data: ShredData,
) -> Gathered {
    if shred_answer(so_far, max_pending, index, data) == Err::<bool, StreamingDeserializeError>(
        StreamingDeserializeError::TooManyPendingShreds,
    ) {
        so_far
    } else {
        with_shred(so_far, index, data)
    }
}

/// What the addition of a shred does to the shreds gathered, and how it is answered.
pub open spec fn shred_added(
    before: StreamingEntryDeserializer,
    after: StreamingEntryDeserializer,
    index: u32,
    data: ShredData,
    outcome: Result<bool, StreamingDeserializeError>,
) -> bool {
    &&& outcome == shred_answer(before.gathered(), before.max_pending_shreds, index, data)
    &&& after.gathered() == state_after(
        before.gathered(),
        before.max_pending_shreds,
        index,
        data,
    )
    &&& after.max_pending_shreds == before.max_pending_shreds
}

/// What is noted of the arrival of a shred.
pub open spec fn arrival_noted(
    before: StreamingEntryDeserializer,
    after: StreamingEntryDeserializer,
    index: u32,
    data_complete: bool,
    now: u64,
) -> bool {
    &&& after.first_shred_arrival == match before.first_shred_arrival {
        Some(first) => Some(first),
        None => Some(now),
    }
    &&& after.shred_arrival_times@ == if before.shred_arrival_times@.contains_key(index) {
        before.shred_arrival_times@
    } else {
        before.shred_arrival_times@.insert(index, now)
    }
    &&& after.data_complete_seen == (before.data_complete_seen || data_complete)
    &&& after.data_complete_arrival == if data_complete {
        Some(now)
    } else {
        before.data_complete_arrival
    }
}

/// Parses entries from the shreds of one slot.
#[derive(Debug)]
pub struct StreamingEntryDeserializer {
    pub slot: u64,
    /// Shreds that wait for a gap to be filled.
    pub pending_shreds: BTreeMap<u32, ShredData>,
    /// The data of the shreds without a gap.
    pub buffer: Vec<u8>,
    /// Where the data of these shreds lies in the buffer.
    pub shred_spans: Vec<ShredSpan>,
    /// The last shred without a gap.
    pub contiguous_through: Option<u32>,
    /// Number of entries, once its bytes are there.
    pub expected_count: Option<u64>,
    pub entries_parsed: u64,
    /// Where the next entry starts in the buffer.
    pub parse_offset: usize,
    pub data_complete_seen: bool,
    pub max_pending_shreds: usize,
    pub first_shred_arrival: Option<u64>,
    pub shred_arrival_times: BTreeMap<u32, u64>,
    pub entry_timestamps: Vec<EntryTimestamp>,
    pub data_complete_arrival: Option<u64>,
}

/// Figures on a slot's entries; times in microseconds.
#[derive(Debug, Clone, Copy, PartialEq, Eq, Structural)]
pub struct SlotSummary {
    pub slot: u64,
    pub total_entries: u64,
    pub entries_streamed: u64,
    /// Average time from the arrival of an entry's first shred to the parsed entry.
    pub avg_parse_latency_us: u64,
    /// Time from the first shred to the one that completed the data.
    pub data_complete_latency_us: u64,
    /// Average time by which an entry was parsed before the data was complete.
    pub avg_streaming_gain_us: u64,
    pub pending_shreds_peak: usize,
    pub buffer_bytes_total: usize,
}

/// Microseconds from one nanosecond reading to a later one, 0 where it is not later.
pub open spec fn micros_between(from: u64, to: u64) -> int {
    if to >= from {
        (to - from) / 1000
    } else {
        0
    }
}

/// Sum of the parse latencies.
pub open spec fn latency_sum(times: Seq<EntryTimestamp>) -> int
    decreases times.len(),
{
    if times.len() == 0 {
        0
    } else {
        latency_sum(times.drop_last()) + micros_between(
            times.last().shred_arrival,
            times.last().parsed,
        )
    }
}

/// Sum of the times by which the entries were parsed before `complete`.
pub open spec fn gain_sum(times: Seq<EntryTimestamp>, complete: u64) -> int
    decreases times.len(),
{
    if times.len() == 0 {
        0
    } else {
        gain_sum(times.drop_last(), complete) + micros_between(times.last().parsed, complete)
    }
}

/// A sum over so many entries, on average.
pub open spec fn averaged(sum: int, n: int) -> u64 {
    if n == 0 {
        0
    } else {
        (sum / n) as u64
    }
}

impl StreamingEntryDeserializer {
    /// The figures on a slot.
    pub open spec fn summary(&self) -> SlotSummary {
        let times = self.entry_timestamps@;
        let n = times.len() as int;
        SlotSummary {
            slot: self.slot,
            total_entries: match self.expected_count {
                Some(count) => count,
                None => 0,
            },
            entries_streamed: self.entries_parsed,
            avg_parse_latency_us: averaged(latency_sum(times), n),
            data_complete_latency_us: match (self.first_shred_arrival, self.data_complete_arrival) {
                (Some(first), Some(complete)) => micros_between(first, complete) as u64,
                _ => 0,
            },
            avg_streaming_gain_us: match self.data_complete_arrival {
                Some(complete) => averaged(gain_sum(times, complete), n),
                None => 0,
            },
            pending_shreds_peak: self.pending_shreds@.dom().len() as usize,
            buffer_bytes_total: self.buffer@.len() as usize,
        }
    }
}

impl StreamingEntryDeserializer {
    /// Default number of shreds that may wait.
    pub const DEFAULT_MAX_PENDING_SHREDS: usize = 1024;

    /// Shred indexes leave room for a next one, parsing does not run ahead of the data, and each
    /// parsed entry has its times.
    pub open spec fn valid(&self) -> bool {
        &&& self.entries_parsed == self.entry_timestamps@.len()
        &&& self.contiguous_through matches Some(last) ==> last < u32::MAX
        &&& !self.pending_shreds@.contains_key(u32::MAX)
        &&& self.parse_offset <= self.buffer@.len()
    }

    /// The shred that is awaited next.
    pub open spec fn awaited(&self) -> u32 {
        match self.contiguous_through {
            Some(last) => (last + 1) as u32,
            None => 0,
        }
    }

    /// What the shreds so far amount to.
    pub open spec fn gathered(&self) -> Gathered {
        Gathered {
            buffer: self.buffer@,
            spans: self.shred_spans@,
            awaited: self.awaited(),
            pending: self.pending_shreds@,
        }
    }

    /// A deserializer for a slot.
    pub fn new(slot: u64) -> (made: StreamingEntryDeserializer)
        ensures
            made.valid(),
            made.is_fresh(slot),
            made.max_pending_shreds == StreamingEntryDeserializer::DEFAULT_MAX_PENDING_SHREDS,
    {
        StreamingEntryDeserializer::with_max_pending(
            slot,
            StreamingEntryDeserializer::DEFAULT_MAX_PENDING_SHREDS,
        )
    }

    /// Nothing was added or parsed yet.
    pub open spec fn is_fresh(&self, slot: u64) -> bool {
        &&& self.slot == slot
        &&& self.pending_shreds@ == Map::<u32, ShredData>::empty()
        &&& self.buffer@ == Seq::<u8>::empty()
        &&& self.shred_spans@ == Seq::<ShredSpan>::empty()
        &&& self.contiguous_through is None
        &&& self.expected_count is None
        &&& self.entries_parsed == 0
        &&& self.parse_offset == 0
        &&& !self.data_complete_seen
        &&& self.first_shred_arrival is None
        &&& self.shred_arrival_times@ == Map::<u32, u64>::empty()
        &&& self.entry_timestamps@ == Seq::<EntryTimestamp>::empty()
        &&& self.data_complete_arrival is None
    }

    /// A deserializer for a slot that lets `max_pending_shreds` shreds wait.
    pub fn with_max_pending(slot: u64, max_pending_shreds: usize) -> (made:
        StreamingEntryDeserializer)
        ensures
            made.valid(),
            made.is_fresh(slot),
            made.max_pending_shreds == max_pending_shreds,
    {
        StreamingEntryDeserializer {
            slot,
            pending_shreds: BTreeMap::new(),
            buffer: Vec::new(),
            shred_spans: Vec::new(),
            contiguous_through: None,
            expected_count: None,
            entries_parsed: 0,
            parse_offset: 0,
            data_complete_seen: false,
            max_pending_shreds,
            first_shred_arrival: None,
            shred_arrival_times: BTreeMap::new(),
            entry_timestamps: Vec::new(),
            data_complete_arrival: None,
        }
    }

    /// The part of the state that adding data to the buffer leaves alone.
    pub open spec fn same_apart_from_data(&self, other: &StreamingEntryDeserializer) -> bool {
        &&& self.slot == other.slot
        &&& self.expected_count == other.expected_count
        &&& self.entries_parsed == other.entries_parsed
        &&& self.parse_offset == other.parse_offset
        &&& self.max_pending_shreds == other.max_pending_shreds
        &&& self.entry_timestamps == other.entry_timestamps
        &&& self.data_complete_seen == other.data_complete_seen
        &&& self.first_shred_arrival == other.first_shred_arrival
        &&& self.shred_arrival_times == other.shred_arrival_times
        &&& self.data_complete_arrival == other.data_complete_arrival
    }

    /// Appends the data of the awaited shred.
    fn append_shred_data(&mut self, index: u32, data: ShredData) -> (outcome: Result<
        (),
        StreamingDeserializeError,
    >)
        requires
            old(self).valid(),
            index == old(self).awaited(),
            index < u32::MAX,
        ensures
            final(self).valid(),
            final(self).same_apart_from_data(old(self)),
            final(self).pending_shreds == old(self).pending_shreds,
            match data {
                Ok(bytes) => {
                    &&& outcome is Ok
                    &&& final(self).buffer@ == old(self).buffer@ + bytes@
                    &&& final(self).shred_spans@ == old(self).shred_spans@.push(
                        ShredSpan {
                            index,
                            begin: old(self).buffer@.len() as usize,
                            end: (old(self).buffer@.len() + bytes@.len()) as usize,
                        },
                    )
                    &&& final(self).contiguous_through == Some(index)
                },
                Err(reason) => {
                    &&& outcome == Err::<(), StreamingDeserializeError>(
                        StreamingDeserializeError::ShredError(reason),
                    )
                    &&& *final(self) == *old(self)
                },
            },
    {
        match data {
            Ok(bytes) => {
                let begin: usize = self.buffer.len();
                extend(&mut self.buffer, bytes.as_slice());
                let end: usize = self.buffer.len();
                self.shred_spans.push(ShredSpan { index, begin, end });
                self.contiguous_through = Some(index);
                Ok(())
            },
            Err(reason) => Err(StreamingDeserializeError::ShredError(reason)),
        }
    }

    /// Appends the data of the waiting shreds that are now awaited, one after the other.
    fn flush_pending(&mut self) -> (outcome: Result<(), StreamingDeserializeError>)
        requires
            old(self).valid(),
        ensures
            final(self).valid(),
            final(self).same_apart_from_data(old(self)),
            ({
                let pending = old(self).pending_shreds@;
                let from = old(self).awaited();
                let stop = flush_stop(pending, from);
                &&& final(self).buffer@ == old(self).buffer@ + flushed_data(
                    pending,
                    from as int,
                    stop as int,
                )
                &&& final(self).shred_spans@ == old(self).shred_spans@ + flushed_spans(
                    pending,
                    old(self).buffer@.len() as int,
                    from as int,
                    stop as int,
                )
                &&& final(self).awaited() == stop
                &&& stop == from ==> final(self).contiguous_through == old(self).contiguous_through
                &&& stop > from ==> final(self).contiguous_through == Some((stop - 1) as u32)
                &&& if pending.contains_key(stop) {
                    &&& pending[stop] is Err
                    &&& outcome == Err::<(), StreamingDeserializeError>(
                        StreamingDeserializeError::ShredError(pending[stop]->Err_0),
                    )
                    &&& final(self).pending_shreds@ == pending.remove_keys(
                        Set::new(|k: u32| from <= k <= stop),
                    )
                } else {
                    &&& outcome is Ok
                    &&& final(self).pending_shreds@ == pending.remove_keys(
                        Set::new(|k: u32| from <= k < stop),
                    )
                }
            }),
    {
        let ghost pending = self.pending_shreds@;
        let ghost from = self.awaited();
        let ghost before = self.buffer@;
        let ghost before_spans = self.shred_spans@;
        proof {
            lemma_flush_stop(pending, from);
            assert(before_spans + flushed_spans(
                pending,
                before.len() as int,
                from as int,
                from as int,
            ) =~= before_spans);
            assert(pending.remove_keys(Set::new(|k: u32| from <= k < from)) =~= pending);
            assert(before + flushed_data(pending, from as int, from as int) =~= before);
        }
        loop
            invariant
                self.valid(),
                self.same_apart_from_data(old(self)),
                pending == old(self).pending_shreds@,
                from == old(self).awaited(),
                before == old(self).buffer@,
                before_spans == old(self).shred_spans@,
                !pending.contains_key(u32::MAX),
                from <= self.awaited(),
                self.awaited() == from ==> self.contiguous_through == old(self).contiguous_through,
                self.awaited() > from ==> self.contiguous_through == Some(
                    (self.awaited() - 1) as u32,
                ),
                flush_stop(pending, from) == flush_stop(pending, self.awaited()),
                self.buffer@ == before + flushed_data(pending, from as int, self.awaited() as int),
                self.shred_spans@ == before_spans + flushed_spans(
                    pending,
                    before.len() as int,
                    from as int,
                    self.awaited() as int,
                ),
                ({
                    let at = self.awaited();
                    self.pending_shreds@ == pending.remove_keys(Set::new(|k: u32| from <= k < at))
                }),
            decreases u32::MAX - self.awaited(),
        {
            let expected_next: u32 = match self.contiguous_through {
                Some(last) => last + 1,
                None => 0,
            };
            let ghost at = expected_next;
            assert(self.pending_shreds@.contains_key(at) <==> pending.contains_key(at));
            let ghost held = self.pending_shreds@;
            match self.pending_shreds.remove(&expected_next) {
                Some(data) => {
                    assert(data == pending[at]);
                    let ghost filled = self.buffer@;
                    proof {
                        assert(pending.remove_keys(Set::new(|k: u32| from <= k < at)).remove(at)
                            =~= pending.remove_keys(Set::new(|k: u32| from <= k <= at)));
                        let next = (at + 1) as u32;
                        assert(pending.remove_keys(Set::new(|k: u32| from <= k <= at))
                            =~= pending.remove_keys(Set::new(|k: u32| from <= k < next)));
                    }
                    match self.append_shred_data(expected_next, data) {
                        Ok(()) => {
                            assert(self.buffer@ =~= before + flushed_data(
                                pending,
                                from as int,
                                at + 1,
                            ));
                            assert(self.shred_spans@ =~= before_spans + flushed_spans(
                                pending,
                                before.len() as int,
                                from as int,
                                at + 1,
                            ));
                        },
                        Err(e) => {
                            return Err(e);
                        },
                    }
                },
                None => {
                    proof {
                        assert(held.remove(at) =~= held);
                    }
                    return Ok(());
                },
            }
        }
    }

    /// Adds a shred that arrived at `now`.
    ///
    /// The awaited shred, and the waiting ones that follow it, are appended to the data, and the
    /// result is `true`. A later shred waits; too many waiting ones are an error. An earlier one
    /// is ignored.
    pub fn add_shred(&mut self, index: u32, payload: ShredPayload, now: u64) -> (outcome: Result<
        bool,
        StreamingDeserializeError,
    >)
        requires
            old(self).valid(),
            index < u32::MAX,
        ensures
            final(self).valid(),
            final(self).slot == old(self).slot,
            final(self).expected_count == old(self).expected_count,
            final(self).entries_parsed == old(self).entries_parsed,
            final(self).parse_offset == old(self).parse_offset,
            final(self).entry_timestamps == old(self).entry_timestamps,
            final(self).first_shred_arrival == match old(self).first_shred_arrival {
                Some(first) => Some(first),
                None => Some(now),
            },
            final(self).shred_arrival_times@ == if old(self).shred_arrival_times@.contains_key(
                index,
            ) {
                old(self).shred_arrival_times@
            } else {
                old(self).shred_arrival_times@.insert(index, now)
            },
            final(self).data_complete_seen == (old(self).data_complete_seen
                || payload.data_complete),
            final(self).data_complete_arrival == if payload.data_complete {
                Some(now)
            } else {
                old(self).data_complete_arrival
            },
            shred_added(*old(self), *final(self), index, payload.data, outcome),
            arrival_noted(*old(self), *final(self), index, payload.data_complete, now),
    {
        if self.first_shred_arrival.is_none() {
            self.first_shred_arrival = Some(now);
        }
        if !self.shred_arrival_times.contains_key(&index) {
            self.shred_arrival_times.insert(index, now);
        }
        if payload.data_complete {
            self.data_complete_seen = true;
            self.data_complete_arrival = Some(now);
        }
        let expected_next: u32 = match self.contiguous_through {
            Some(last) => last + 1,
            None => 0,
        };
        if index == expected_next {
            proof {
                lemma_flush_stop(self.pending_shreds@, (index + 1) as u32);
            }
            match self.append_shred_data(index, payload.data) {
                Ok(()) => {},
                Err(e) => {
                    return Err(e);
                },
            }
            let ghost pending = self.pending_shreds@;
            let ghost next = (index + 1) as u32;
            let ghost stop = flush_stop(pending, next);
            proof {
                if !pending.contains_key(stop) {
                    assert(pending.remove_keys(Set::new(|k: u32| next <= k < stop))
                        =~= pending.remove_keys(Set::new(|k: u32| next <= k <= stop)));
                }
            }
            match self.flush_pending() {
                Ok(()) => Ok(true),
                Err(e) => Err(e),
            }
        } else if index > expected_next {
            if self.pending_shreds.len() >= self.max_pending_shreds {
                return Err(StreamingDeserializeError::TooManyPendingShreds);
            }
            self.pending_shreds.insert(index, payload.data);
            Ok(false)
        } else {
            Ok(false)
        }
    }
}

/// The flush stops at the first shred that is not waiting with data.
proof fn lemma_flush_stop(pending: Map<u32, ShredData>, next: u32)
    requires
        !pending.contains_key(u32::MAX),
    ensures
        next <= flush_stop(pending, next),
        pending.contains_key(flush_stop(pending, next)) ==> pending[flush_stop(
            pending,
            next,
        )] is Err,
    decreases u32::MAX - next,
{
    if next < u32::MAX && pending.contains_key(next) && pending[next] is Ok {
        lemma_flush_stop(pending, (next + 1) as u32);
    }
}

/// What parsing comes to: the entries, where the next one starts, and the reason where the bytes
/// there are no entry.
#[verifier::ext_equal]
pub struct ParseRun {
    pub entries: Seq<EntryView>,
    pub offset: int,
    pub failure: Option<Seq<char>>,
}

/// Parsing entries from `offset` on, until `left` of them are read or the bytes end.
pub open spec fn parse_run(buffer: Seq<u8>, offset: int, left: int) -> ParseRun
    decreases left,
{
    if left <= 0 || offset >= buffer.len() {
        ParseRun { entries: seq![], offset, failure: None }
    } else {
        match entry_read(buffer.subrange(offset, buffer.len() as int)) {
            EntryReadView::Complete(entry, used) => {
                let rest = parse_run(buffer, offset + used, left - 1);
                ParseRun {
                    entries: seq![entry] + rest.entries,
                    offset: rest.offset,
                    failure: rest.failure,
                }
            },
            EntryReadView::Incomplete => ParseRun { entries: seq![], offset, failure: None },
            EntryReadView::Malformed(reason) => ParseRun {
                entries: seq![],
                offset,
                failure: Some(reason),
            },
        }
    }
}

/// Each entry of the run lies within the bytes, and its own bytes decide it.
pub open spec fn settled(buffer: Seq<u8>, offset: int, left: int) -> bool
    decreases left,
{
    left > 0 && offset < buffer.len() ==> match entry_read(
        buffer.subrange(offset, buffer.len() as int),
    ) {
        EntryReadView::Complete(_, used) => {
            &&& offset + used <= buffer.len()
            &&& decides(
                buffer.subrange(offset, offset + used),
                entry_read(buffer.subrange(offset, buffer.len() as int)),
            )
            &&& settled(buffer, offset + used, left - 1)
        },
        _ => true,
    }
}

/// Whether a shred holds some of the bytes `from..to`.
pub open spec fn holds_bytes(span: ShredSpan, from: int, to: int) -> bool {
    &&& span.begin < span.end
    &&& span.begin < to
    &&& from < span.end
}

/// The earliest arrival among the first `n` shreds that hold some of the bytes `from..to`.
pub open spec fn earliest_arrival(
    times: Map<u32, u64>,
    spans: Seq<ShredSpan>,
    from: int,
    to: int,
    n: int,
) -> Option<u64>
    decreases n,
{
    if n <= 0 {
        None
    } else {
        let before = earliest_arrival(times, spans, from, to, n - 1);
        let i = spans[n - 1].index;
        if holds_bytes(spans[n - 1], from, to) && times.contains_key(i) {
            match before {
                Some(earlier) if earlier <= times[i] => Some(earlier),
                _ => Some(times[i]),
            }
        } else {
            before
        }
    }
}

/// How far parsing has come: the number of entries, once it is known, where the next entry starts,
/// and the number of parsed entries.
#[verifier::ext_equal]
pub struct Progress {
    pub count: Option<u64>,
    pub offset: int,
    pub parsed: int,
}

impl Progress {
    /// The number of entries, if it is known or its 8 bytes are there.
    pub open spec fn known(self, buffer: Seq<u8>) -> Option<u64> {
        match self.count {
            Some(count) => Some(count),
            None => if buffer.len() >= 8 {
                Some(crate::bytes::word64(buffer, 0))
            } else {
                None
            },
        }
    }

    /// Where the next entry starts.
    pub open spec fn start(self) -> int {
        if self.count is Some {
            self.offset
        } else {
            8
        }
    }

    /// Number of entries that are still to be parsed, as far as it is known.
    pub open spec fn left(self, buffer: Seq<u8>) -> int {
        match self.known(buffer) {
            Some(count) => count - self.parsed,
            None => 0,
        }
    }

    /// What parsing what is there comes to.
    pub open spec fn run(self, buffer: Seq<u8>) -> ParseRun {
        parse_run(buffer, self.start(), self.left(buffer))
    }

    /// How far parsing has come after that.
    pub open spec fn after(self, buffer: Seq<u8>) -> Progress {
        Progress {
            count: self.known(buffer),
            offset: if self.known(buffer) is Some {
                self.run(buffer).offset
            } else {
                self.offset
            },
            parsed: self.parsed + self.run(buffer).entries.len(),
        }
    }
}

/// What parsing all that is there comes to: the entries in order, or the reason why the bytes
/// behind them are none.
pub open spec fn available_parsed(
    before: Progress,
    after: Progress,
    buffer: Seq<u8>,
    outcome: Result<Vec<Entry>, StreamingDeserializeError>,
) -> bool {
    let run = before.run(buffer);
    &&& after == before.after(buffer)
    &&& match run.failure {
        Some(reason) => {
            &&& outcome matches Err(StreamingDeserializeError::DeserializeError(text))
            &&& text@ == reason
        },
        None => {
            &&& outcome matches Ok(entries)
            &&& crate::entry::entry_views(entries@) == run.entries
        },
    }
}

impl StreamingEntryDeserializer {
    /// How far parsing has come.
    pub open spec fn progress(&self) -> Progress {
        Progress {
            count: self.expected_count,
            offset: self.parse_offset as int,
            parsed: self.entries_parsed as int,
        }
    }

    /// The number of entries, if it is known or its 8 bytes are there.
    pub open spec fn known_count(&self) -> Option<u64> {
        self.progress().known(self.buffer@)
    }

    /// Where the next entry starts.
    pub open spec fn next_start(&self) -> int {
        self.progress().start()
    }

    /// Number of entries that are still to be parsed, as far as it is known.
    pub open spec fn entries_left(&self) -> int {
        self.progress().left(self.buffer@)
    }

    /// The part of the state that parsing leaves alone.
    pub open spec fn same_apart_from_parsing(&self, other: &StreamingEntryDeserializer) -> bool {
        &&& self.slot == other.slot
        &&& self.pending_shreds == other.pending_shreds
        &&& self.buffer == other.buffer
        &&& self.shred_spans == other.shred_spans
        &&& self.contiguous_through == other.contiguous_through
        &&& self.data_complete_seen == other.data_complete_seen
        &&& self.max_pending_shreds == other.max_pending_shreds
        &&& self.first_shred_arrival == other.first_shred_arrival
        &&& self.shred_arrival_times == other.shred_arrival_times
        &&& self.data_complete_arrival == other.data_complete_arrival
    }

    /// When the first of the shreds that hold the bytes `from..to` arrived. Bytes of which no shred
    /// is known count from the slot's first shred, or from `now`.
    pub open spec fn bytes_arrival(&self, from: int, to: int, now: u64) -> u64 {
        match earliest_arrival(
            self.shred_arrival_times@,
            self.shred_spans@,
            from,
            to,
            self.shred_spans@.len() as int,
        ) {
            Some(time) => time,
            None => match self.first_shred_arrival {
                Some(first) => first,
                None => now,
            },
        }
    }

    /// The times noted for an entry in the bytes `from..to` that is parsed at `now`.
    pub open spec fn entry_times(&self, from: int, to: int, now: u64) -> EntryTimestamp {
        EntryTimestamp {
            shred_arrival: self.bytes_arrival(from, to, now),
            parsed: now,
            executed: None,
        }
    }

    /// The times noted for the entries of a run.
    pub open spec fn run_times(&self, offset: int, left: int, now: u64) -> Seq<EntryTimestamp>
        decreases left,
    {
        let buffer = self.buffer@;
        if left <= 0 || offset >= buffer.len() {
            seq![]
        } else {
            match entry_read(buffer.subrange(offset, buffer.len() as int)) {
                EntryReadView::Complete(entry, used) => seq![
                    self.entry_times(offset, offset + used, now),
                ] + self.run_times(offset + used, left - 1, now),
                _ => seq![],
            }
        }
    }

    /// Finds when the first of the shreds that hold the bytes `from..to` arrived.
    fn find_arrival(&self, from: usize, to: usize, now: u64) -> (time: u64)
        ensures
            time == self.bytes_arrival(from as int, to as int, now),
    {
        let n: usize = self.shred_spans.len();
        let mut found: Option<u64> = None;
        let mut i: usize = 0;
        while i < n
            invariant
                i <= n,
                n == self.shred_spans@.len(),
                found == earliest_arrival(
                    self.shred_arrival_times@,
                    self.shred_spans@,
                    from as int,
                    to as int,
                    i as int,
                ),
            decreases n - i,
        {
            let span: ShredSpan = self.shred_spans[i];
            if span.begin < span.end && span.begin < to && from < span.end {
                if let Some(time) = self.shred_arrival_times.get(&span.index) {
                    found = match found {
                        Some(earlier) if earlier <= *time => Some(earlier),
                        _ => Some(*time),
                    };
                }
            }
            i += 1;
        }
        match found {
            Some(time) => time,
            None => match self.first_shred_arrival {
                Some(first) => first,
                None => now,
            },
        }
    }

    /// Takes the number of entries from the front of the data, once it is there.
    fn try_parse_count(&mut self) -> (known: bool)
        requires
            old(self).valid(),
        ensures
            final(self).valid(),
            final(self).same_apart_from_parsing(old(self)),
            final(self).entries_parsed == old(self).entries_parsed,
            final(self).entry_timestamps == old(self).entry_timestamps,
            known == (old(self).known_count() is Some),
            final(self).expected_count == old(self).known_count(),
            known ==> final(self).parse_offset == old(self).next_start(),
            !known ==> final(self).parse_offset == old(self).parse_offset,
    {
        if self.expected_count.is_some() {
            return true;
        }
        if self.buffer.len() < 8 {
            return false;
        }
        self.expected_count = Some(read_u64(self.buffer.as_slice(), 0));
        self.parse_offset = 8;
        true
    }

    /// Takes in the outcome of reading the next entry at time `now`.
    pub fn apply_read(&mut self, read: EntryRead, now: u64) -> (outcome: Result<
        Option<Entry>,
        StreamingDeserializeError,
    >)
        requires
            old(self).valid(),
            old(self).entries_parsed < u64::MAX,
            read matches EntryRead::Complete(_, used) ==> old(self).parse_offset + used <= old(
                self,
            ).buffer@.len(),
        ensures
            final(self).valid(),
            final(self).same_apart_from_parsing(old(self)),
            final(self).expected_count == old(self).expected_count,
            match read {
                EntryRead::Complete(entry, used) => {
                    &&& outcome == Ok::<Option<Entry>, StreamingDeserializeError>(Some(entry))
                    &&& final(self).parse_offset == old(self).parse_offset + used
                    &&& final(self).entries_parsed == old(self).entries_parsed + 1
                    &&& final(self).entry_timestamps@ == old(self).entry_timestamps@.push(
                        old(self).entry_times(
                            old(self).parse_offset as int,
                            old(self).parse_offset + used,
                            now,
                        ),
                    )
                },
                EntryRead::Incomplete => {
                    &&& outcome == Ok::<Option<Entry>, StreamingDeserializeError>(None)
                    &&& *final(self) == *old(self)
                },
                EntryRead::Malformed(reason) => {
                    &&& outcome == Err::<Option<Entry>, StreamingDeserializeError>(
                        StreamingDeserializeError::DeserializeError(reason),
                    )
                    &&& *final(self) == *old(self)
                },
            },
    {
        match read {
            EntryRead::Complete(entry, used) => {
                let total: usize = self.buffer.len();
                assert(self.parse_offset + used <= total);
                let shred_arrival: u64 = self.find_arrival(
                    self.parse_offset,
                    self.parse_offset + used,
                    now,
                );
                self.parse_offset = self.parse_offset + used;
                self.entries_parsed = self.entries_parsed + 1;
                self.entry_timestamps.push(
                    EntryTimestamp { shred_arrival, parsed: now, executed: None },
                );
                Ok(Some(entry))
            },
            EntryRead::Incomplete => Ok(None),
            EntryRead::Malformed(reason) => Err(
                StreamingDeserializeError::DeserializeError(reason),
            ),
        }
    }

    /// Parses the next entry at time `now`; `None` where its bytes are not all there, or where
    /// every entry was parsed.
    pub fn try_parse_next(&mut self, now: u64) -> (outcome: Result<
        Option<Entry>,
        StreamingDeserializeError,
    >)
        requires
            old(self).valid(),
        ensures
            final(self).valid(),
            final(self).same_apart_from_parsing(old(self)),
            final(self).expected_count == old(self).known_count(),
            ({
                let buffer = old(self).buffer@;
                let start = old(self).next_start();
                let due = old(self).entries_left() > 0 && start < buffer.len();
                let read = entry_read(buffer.subrange(start, buffer.len() as int));
                if due && read is Complete {
                    &&& outcome matches Ok(Some(entry))
                    &&& entry@ == read->Complete_0
                    &&& final(self).parse_offset == start + read->Complete_1
                    &&& final(self).entries_parsed == old(self).entries_parsed + 1
                    &&& final(self).entry_timestamps@ == old(self).entry_timestamps@.push(
                        old(self).entry_times(start, start + read->Complete_1, now),
                    )
                    &&& start + read->Complete_1 <= buffer.len()
                    &&& decides(buffer.subrange(start, start + read->Complete_1), read)
                } else {
                    &&& final(self).parse_offset == if old(self).known_count() is Some {
                        start
                    } else {
                        old(self).parse_offset as int
                    }
                    &&& final(self).entries_parsed == old(self).entries_parsed
                    &&& final(self).entry_timestamps@ == old(self).entry_timestamps@
                    &&& if due && read is Malformed {
                        &&& outcome matches Err(StreamingDeserializeError::DeserializeError(reason))
                        &&& reason@ == read->Malformed_0
                    } else {
                        outcome == Ok::<Option<Entry>, StreamingDeserializeError>(None)
                    }
                }
            }),
    {
        if !self.try_parse_count() {
            return Ok(None);
        }
        let expected_count: u64 = match self.expected_count {
            Some(count) => count,
            None => 0,
        };
        if self.entries_parsed >= expected_count {
            return Ok(None);
        }
        let total: usize = self.buffer.len();
        if self.parse_offset >= total {
            return Ok(None);
        }
        let read = read_entry(slice_subrange(self.buffer.as_slice(), self.parse_offset, total));
        proof {
            if let EntryRead::Complete(_, used) = read {
                let tail = self.buffer@.subrange(self.parse_offset as int, total as int);
                assert(tail.subrange(0, used as int) =~= self.buffer@.subrange(
                    self.parse_offset as int,
                    self.parse_offset + used,
                ));
            }
        }
        self.apply_read(read, now)
    }

    /// Parses every entry whose bytes are there; an error drops the entries before it.
    pub fn parse_available(&mut self, now: u64) -> (outcome: Result<
        Vec<Entry>,
        StreamingDeserializeError,
    >)
        requires
            old(self).valid(),
        ensures
            final(self).valid(),
            final(self).same_apart_from_parsing(old(self)),
            available_parsed(old(self).progress(), final(self).progress(), old(self).buffer@, outcome),
            ({
                &&& final(self).entry_timestamps@ == old(self).entry_timestamps@ + old(
                    self,
                ).run_times(old(self).next_start(), old(self).entries_left(), now)
                &&& settled(
                    old(self).buffer@,
                    old(self).next_start(),
                    old(self).entries_left(),
                )
            }),
    {
        let ghost run = parse_run(self.buffer@, self.next_start(), self.entries_left());
        let ghost times = self.run_times(self.next_start(), self.entries_left(), now);
        let ghost first_times = self.entry_timestamps@;
        let ghost known = self.known_count();
        let mut entries: Vec<Entry> = Vec::new();
        let ghost mut noted: Seq<EntryTimestamp> = seq![];
        proof {
            assert(crate::entry::entry_views(entries@) =~= seq![]);
            assert(seq![] + run.entries =~= run.entries);
            assert(seq![] + times =~= times);
            assert(first_times + Seq::<EntryTimestamp>::empty() =~= first_times);
        }
        loop
            invariant
                self.valid(),
                self.same_apart_from_parsing(old(self)),
                known == old(self).known_count(),
                self.known_count() == known,
                times == old(self).run_times(
                    old(self).next_start(),
                    old(self).entries_left(),
                    now,
                ),
                first_times == old(self).entry_timestamps@,
                run == parse_run(
                    old(self).buffer@,
                    old(self).next_start(),
                    old(self).entries_left(),
                ),
                self.entries_parsed == old(self).entries_parsed + entries@.len(),
                entries@.len() == 0 ==> self.parse_offset == old(self).parse_offset
                    && self.expected_count == old(self).expected_count,
                entries@.len() > 0 ==> self.expected_count == known && known is Some,
                self.entry_timestamps@ == first_times + noted,
                times == noted + old(self).run_times(
                    self.next_start(),
                    self.entries_left(),
                    now,
                ),
                settled(self.buffer@, self.next_start(), self.entries_left()) ==> settled(
                    old(self).buffer@,
                    old(self).next_start(),
                    old(self).entries_left(),
                ),
                ({
                    let rest = parse_run(self.buffer@, self.next_start(), self.entries_left());
                    &&& run.entries == crate::entry::entry_views(entries@) + rest.entries
                    &&& run.offset == rest.offset
                    &&& run.failure == rest.failure
                }),
            decreases self.entries_left(),
        {
            let ghost rest = parse_run(self.buffer@, self.next_start(), self.entries_left());
            let ghost held = entries@;
            let ghost rest_times = old(self).run_times(
                self.next_start(),
                self.entries_left(),
                now,
            );
            match self.try_parse_next(now) {
                Ok(Some(entry)) => {
                    entries.push(entry);
                    proof {
                        let after = parse_run(
                            self.buffer@,
                            self.next_start(),
                            self.entries_left(),
                        );
                        assert(rest.entries =~= seq![entry@] + after.entries);
                        assert(crate::entry::entry_views(entries@) =~= crate::entry::entry_views(
                            held,
                        ).push(entry@));
                        assert(crate::entry::entry_views(held) + (seq![entry@] + after.entries)
                            =~= crate::entry::entry_views(entries@) + after.entries);
                        let after_times = old(self).run_times(
                            self.next_start(),
                            self.entries_left(),
                            now,
                        );
                        let own = self.entry_timestamps@.last();
                        assert(rest_times =~= seq![own] + after_times);
                        assert(noted + (seq![own] + after_times) =~= noted.push(own) + after_times);
                        assert(self.entry_timestamps@ =~= first_times + noted.push(own));
                        noted = noted.push(own);
                    }
                },
                Ok(None) => {
                    proof {
                        assert(rest.entries =~= seq![]);
                        assert(rest_times =~= seq![]);
                        assert(times =~= noted);
                        assert(run.entries =~= crate::entry::entry_views(held));
                        assert(crate::entry::entry_views(held).len() == held.len());
                    }
                    return Ok(entries);
                },
                Err(e) => {
                    proof {
                        assert(rest.entries =~= seq![]);
                        assert(rest_times =~= seq![]);
                        assert(times =~= noted);
                        assert(run.entries =~= crate::entry::entry_views(held));
                        assert(crate::entry::entry_views(held).len() == held.len());
                    }
                    return Err(e);
                },
            }
        }
    }

    /// Whether every expected entry was parsed.
    pub fn is_complete(&self) -> (complete: bool)
        ensures
            complete == (self.expected_count matches Some(count) && self.entries_parsed >= count),
    {
        match self.expected_count {
            Some(expected) => self.entries_parsed >= expected,
            None => false,
        }
    }

    /// The slot.
    pub fn slot(&self) -> (slot: u64)
        ensures
            slot == self.slot,
    {
        self.slot
    }

    /// Whether a shred that completes the data was seen.
    pub fn has_data_complete(&self) -> (seen: bool)
        ensures
            seen == self.data_complete_seen,
    {
        self.data_complete_seen
    }

    /// Number of entries parsed so far.
    pub fn entries_parsed(&self) -> (count: u64)
        ensures
            count == self.entries_parsed,
    {
        self.entries_parsed
    }

    /// Number of expected entries, if it is known.
    pub fn expected_count(&self) -> (count: Option<u64>)
        ensures
            count == self.expected_count,
    {
        self.expected_count
    }

    /// Number of bytes without a gap.
    pub fn buffer_len(&self) -> (len: usize)
        ensures
            len == self.buffer@.len(),
    {
        self.buffer.len()
    }

    /// Number of shreds that wait.
    pub fn pending_shreds_count(&self) -> (count: usize)
        ensures
            count == self.pending_shreds@.dom().len(),
    {
        self.pending_shreds.len()
    }

    /// The last shred without a gap.
    pub fn contiguous_through(&self) -> (last: Option<u32>)
        ensures
            last == self.contiguous_through,
    {
        self.contiguous_through
    }

    /// The times of the parsed entries.
    pub fn entry_timestamps(&self) -> (times: &[EntryTimestamp])
        ensures
            times@ == self.entry_timestamps@,
    {
        self.entry_timestamps.as_slice()
    }

    /// Notes when an entry was executed; an index beyond the parsed entries is ignored.
    pub fn mark_entry_executed(&mut self, entry_index: usize, timestamp: u64)
        requires
            old(self).valid(),
        ensures
            final(self).valid(),
            final(self).same_apart_from_parsing(old(self)),
            final(self).expected_count == old(self).expected_count,
            final(self).entries_parsed == old(self).entries_parsed,
            final(self).parse_offset == old(self).parse_offset,
            final(self).entry_timestamps@ == if entry_index < old(self).entry_timestamps@.len() {
                let before = old(self).entry_timestamps@[entry_index as int];
                old(self).entry_timestamps@.update(
                    entry_index as int,
                    EntryTimestamp {
                        shred_arrival: before.shred_arrival,
                        parsed: before.parsed,
                        executed: Some(timestamp),
                    },
                )
            } else {
                old(self).entry_timestamps@
            },
    {
        if entry_index < self.entry_timestamps.len() {
            let before = self.entry_timestamps[entry_index];
            self.entry_timestamps.set(
                entry_index,
                EntryTimestamp {
                    shred_arrival: before.shred_arrival,
                    parsed: before.parsed,
                    executed: Some(timestamp),
                },
            );
        }
    }

    /// When the first shred arrived.
    pub fn first_shred_arrival(&self) -> (time: Option<u64>)
        ensures
            time == self.first_shred_arrival,
    {
        self.first_shred_arrival
    }

    /// When the last shred that completes the data arrived.
    pub fn data_complete_arrival(&self) -> (time: Option<u64>)
        ensures
            time == self.data_complete_arrival,
    {
        self.data_complete_arrival
    }

    /// The figures that are reported when a slot is done.
    pub fn emit_slot_summary(&self) -> (summary: SlotSummary)
        ensures
            summary == self.summary(),
            ({
                let times = self.entry_timestamps@;
                let n = times.len() as int;
                summary == SlotSummary {
                    slot: self.slot,
                    total_entries: match self.expected_count {
                        Some(count) => count,
                        None => 0,
                    },
                    entries_streamed: self.entries_parsed,
                    avg_parse_latency_us: if n == 0 {
                        0
                    } else {
                        (latency_sum(times) / n) as u64
                    },
                    data_complete_latency_us: match (
                        self.first_shred_arrival,
                        self.data_complete_arrival,
                    ) {
                        (Some(first), Some(complete)) => micros_between(first, complete) as u64,
                        _ => 0,
                    },
                    avg_streaming_gain_us: match self.data_complete_arrival {
                        Some(complete) if n > 0 => (gain_sum(times, complete) / n) as u64,
                        _ => 0,
                    },
                    pending_shreds_peak: self.pending_shreds@.dom().len() as usize,
                    buffer_bytes_total: self.buffer@.len() as usize,
                }
            }),
    {
        let n: usize = self.entry_timestamps.len();
        let mut latency: u128 = 0;
        let mut gain: u128 = 0;
        let complete: u64 = match self.data_complete_arrival {
            Some(complete) => complete,
            None => 0,
        };
        let ghost times = self.entry_timestamps@;
        let mut i: usize = 0;
        assert(times.subrange(0, 0) =~= seq![]);
        while i < n
            invariant
                i <= n,
                n == times.len(),
                times == self.entry_timestamps@,
                latency == latency_sum(times.subrange(0, i as int)),
                gain == gain_sum(times.subrange(0, i as int), complete),
                latency <= i * 0xffff_ffff_ffff_ffff,
                gain <= i * 0xffff_ffff_ffff_ffff,
            decreases n - i,
        {
            let ts = self.entry_timestamps[i];
            assert(times.subrange(0, i + 1).drop_last() =~= times.subrange(0, i as int));
            assert(i * 0xffff_ffff_ffff_ffff + 0xffff_ffff_ffff_ffff <= 0xffff_ffff_ffff_ffff
                * 0xffff_ffff_ffff_ffff) by (nonlinear_arith)
                requires
                    i + 1 <= 0xffff_ffff_ffff_ffff,
            ;
            latency = latency + (ts.parsed.saturating_sub(ts.shred_arrival) / 1000) as u128;
            gain = gain + (complete.saturating_sub(ts.parsed) / 1000) as u128;
            i += 1;
        }
        assert(times.subrange(0, n as int) =~= times);
        let avg_parse_latency_us: u64 = if n == 0 {
            0
        } else {
            assert(latency as int / n as int <= 0xffff_ffff_ffff_ffff) by (nonlinear_arith)
                requires
                    latency <= n * 0xffff_ffff_ffff_ffff,
                    n > 0,
            ;
            (latency / n as u128) as u64
        };
        let avg_streaming_gain_us: u64 = if n == 0 || self.data_complete_arrival.is_none() {
            0
        } else {
            assert(gain as int / n as int <= 0xffff_ffff_ffff_ffff) by (nonlinear_arith)
                requires
                    gain <= n * 0xffff_ffff_ffff_ffff,
                    n > 0,
            ;
            (gain / n as u128) as u64
        };
        let data_complete_latency_us: u64 = match (
            self.first_shred_arrival,
            self.data_complete_arrival,
        ) {
            (Some(first), Some(complete)) => complete.saturating_sub(first) / 1000,
            _ => 0,
        };
        SlotSummary {
            slot: self.slot,
            total_entries: match self.expected_count {
                Some(count) => count,
                None => 0,
            },
            entries_streamed: self.entries_parsed,
            avg_parse_latency_us,
            data_complete_latency_us,
            avg_streaming_gain_us,
            pending_shreds_peak: self.pending_shreds.len(),
            buffer_bytes_total: self.buffer.len(),
        }
    }

    /// Makes the deserializer ready for another slot.
    pub fn reset(&mut self, slot: u64)
        ensures
            final(self).valid(),
            final(self).is_fresh(slot),
            final(self).max_pending_shreds == old(self).max_pending_shreds,
    {
        self.slot = slot;
        self.pending_shreds.clear();
        self.buffer.clear();
        self.shred_spans.clear();
        self.contiguous_through = None;
        self.expected_count = None;
        self.entries_parsed = 0;
        self.parse_offset = 0;
        self.data_complete_seen = false;
        self.first_shred_arrival = None;
        self.shred_arrival_times.clear();
        self.entry_timestamps.clear();
        self.data_complete_arrival = None;
    }

    /// Adds a shred; the same as `add_shred`.
    pub fn add_shred_raw(&mut self, index: u32, payload: ShredPayload, now: u64) -> (outcome: Result<
        bool,
        StreamingDeserializeError,
    >)
        requires
            old(self).valid(),
            index < u32::MAX,
        ensures
            final(self).valid(),
            shred_added(*old(self), *final(self), index, payload.data, outcome),
            arrival_noted(*old(self), *final(self), index, payload.data_complete, now),
            final(self).slot == old(self).slot,
            final(self).expected_count == old(self).expected_count,
            final(self).entries_parsed == old(self).entries_parsed,
            final(self).parse_offset == old(self).parse_offset,
            final(self).entry_timestamps == old(self).entry_timestamps,
            final(self).first_shred_arrival == match old(self).first_shred_arrival {
                Some(first) => Some(first),
                None => Some(now),
            },
            final(self).shred_arrival_times@ == if old(self).shred_arrival_times@.contains_key(
                index,
            ) {
                old(self).shred_arrival_times@
            } else {
                old(self).shred_arrival_times@.insert(index, now)
            },
            final(self).data_complete_seen == (old(self).data_complete_seen
                || payload.data_complete),
            final(self).data_complete_arrival == if payload.data_complete {
                Some(now)
            } else {
                old(self).data_complete_arrival
            },
    {
        self.add_shred(index, payload, now)
    }
}

} // verus!
