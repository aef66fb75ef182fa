//! The last steps of a reader, kept for a report when one poll took too long.
use vstd::prelude::*;

verus! {

/// One step of a reader.
#[derive(Clone, Copy, Debug)]
pub enum TraceOp {
    Entry,
    IdleCheck { cur_seq: u64, idle_seq: u64, matched: bool },
    LoadCommitted { offset: usize, committed: u64 },
    WrapMarker,
    NotCommitted,
    DashInsertNew,
    DashSameLengthUpdated,
    DashSameLengthUnchanged,
    DashDataLengthDecreased,
    DashDataLengthIncreased,
    DashNewInsert([u8; 32]),
    GenValidation { rec_gen: u64, expected_gen: u64, matched: bool },
    StaleRecord,
    RecordRead { lamports: u64, data_len: usize },
    Complete,
}

/// A step with the time at which it was recorded.
#[derive(Clone, Copy, Debug)]
pub struct TraceEntry {
    pub timestamp_us: u64,
    pub op: TraceOp,
}

/// Age in microseconds from which on a record's delivery counts as slow.
pub const SLOW_DELIVERY_US: u64 = 1_000;

/// Whether a record stamped at `sent_us` was delivered too slowly; one stamped later than now was
/// not.
pub fn is_slow_delivery(sent_us: u64, now_us: u64) -> (slow: bool)
    ensures
        slow == (now_us - sent_us > SLOW_DELIVERY_US),
{
    now_us.saturating_sub(sent_us) > SLOW_DELIVERY_US
}

/// Number of steps that are kept.
pub const TRACE_CAPACITY: usize = 128;

/// A ring of the last steps.
#[derive(Debug)]
pub struct TraceBuffer {
    pub entries: Vec<Option<TraceEntry>>,
    /// Slot of the next step.
    pub idx: usize,
}

/// The recorded steps among the first `n` slots from `idx` on, oldest first.
pub open spec fn in_order(entries: Seq<Option<TraceEntry>>, idx: int, n: int) -> Seq<TraceEntry>
    decreases n,
{
    if n <= 0 {
        seq![]
    } else {
        let earlier = in_order(entries, idx, n - 1);
        match entries[(idx + n - 1) % entries.len() as int] {
            Some(entry) => earlier.push(entry),
            None => earlier,
        }
    }
}

/// What recording a step changes.
pub open spec fn step_recorded(before: TraceBuffer, after: TraceBuffer, entry: TraceEntry) -> bool {
    &&& after.entries@ == before.entries@.update(before.idx as int, Some(entry))
    &&& after.idx == (before.idx + 1) % TRACE_CAPACITY as int
    &&& after@ == (if before.entries@[before.idx as int] is Some {
        before@.drop_first()
    } else {
        before@
    }).push(entry)
}

impl TraceBuffer {
    pub open spec fn valid(&self) -> bool {
        &&& self.entries@.len() == TRACE_CAPACITY
        &&& self.idx < TRACE_CAPACITY
    }

    /// The recorded steps, oldest first.
    pub open spec fn view(&self) -> Seq<TraceEntry> {
        in_order(self.entries@, self.idx as int, TRACE_CAPACITY as int)
    }

    /// A buffer without steps.
    pub fn new() -> (buffer: TraceBuffer)
        ensures
            buffer.valid(),
            buffer@ == Seq::<TraceEntry>::empty(),
            buffer.idx == 0,
            forall|j: int| 0 <= j < TRACE_CAPACITY ==> (#[trigger] buffer.entries@[j]) is None,
    {
        let mut entries: Vec<Option<TraceEntry>> = Vec::new();
        let mut i: usize = 0;
        while i < TRACE_CAPACITY
            invariant
                i <= TRACE_CAPACITY,
                entries@.len() == i,
                forall|j: int| 0 <= j < i ==> entries@[j] is None,
            decreases TRACE_CAPACITY - i,
        {
            entries.push(None);
            i += 1;
        }
        proof {
            lemma_no_entries(entries@, 0, TRACE_CAPACITY as int);
        }
        TraceBuffer { entries, idx: 0 }
    }

    /// Records a step; the oldest one makes room where the buffer is full.
    pub fn record(&mut self, timestamp_us: u64, op: TraceOp)
        requires
            old(self).valid(),
        ensures
            final(self).valid(),
            final(self).entries@ == old(self).entries@.update(
                old(self).idx as int,
                Some(TraceEntry { timestamp_us, op }),
            ),
            final(self).idx == (old(self).idx + 1) % TRACE_CAPACITY as int,
            final(self)@ == (if old(self).entries@[old(self).idx as int] is Some {
                old(self)@.drop_first()
            } else {
                old(self)@
            }).push(TraceEntry { timestamp_us, op }),
            step_recorded(*old(self), *final(self), (TraceEntry { timestamp_us, op })),
    {
        let ghost before = self.entries@;
        let at: usize = self.idx;
        let entry = TraceEntry { timestamp_us, op };
        self.entries.set(at, Some(entry));
        self.idx = (at + 1) % TRACE_CAPACITY;
        proof {
            let n = TRACE_CAPACITY as int;
            lemma_shift(before, self.entries@, at as int, self.idx as int, n - 1);
            let last = (self.idx + n - 1) % n;
            assert(last == at);
        }
    }

    /// The recorded steps, oldest first, each with the microseconds since `start_time`.
    pub fn dump(&self, start_time: u64) -> (lines: Vec<(u64, TraceOp)>)
        requires
            self.valid(),
        ensures
            lines@.len() == self@.len(),
            forall|i: int|
                0 <= i < lines@.len() ==> (#[trigger] lines@[i]).1 == self@[i].op && lines@[i].0
                    == if self@[i].timestamp_us >= start_time {
                    self@[i].timestamp_us - start_time
                } else {
                    0
                },
    {
        let mut lines: Vec<(u64, TraceOp)> = Vec::new();
        let mut i: usize = 0;
        while i < TRACE_CAPACITY
            invariant
                self.valid(),
                i <= TRACE_CAPACITY,
                lines@.len() == in_order(self.entries@, self.idx as int, i as int).len(),
                forall|k: int|
                    0 <= k < lines@.len() ==> {
                        let entry = in_order(self.entries@, self.idx as int, i as int)[k];
                        &&& (#[trigger] lines@[k]).1 == entry.op
                        &&& lines@[k].0 == if entry.timestamp_us >= start_time {
                            entry.timestamp_us - start_time
                        } else {
                            0
                        }
                    },
            decreases TRACE_CAPACITY - i,
        {
            let actual_idx: usize = (self.idx + i) % TRACE_CAPACITY;
            if let Some(entry) = self.entries[actual_idx] {
                lines.push((entry.timestamp_us.saturating_sub(start_time), entry.op));
            }
            i += 1;
        }
        lines
    }
}

proof fn lemma_no_entries(entries: Seq<Option<TraceEntry>>, idx: int, n: int)
    requires
        entries.len() > 0,
        forall|j: int| 0 <= j < entries.len() ==> entries[j] is None,
    ensures
        in_order(entries, idx, n) == Seq::<TraceEntry>::empty(),
    decreases n,
{
    if n > 0 {
        lemma_no_entries(entries, idx, n - 1);
        vstd::arithmetic::div_mod::lemma_mod_bound(idx + n - 1, entries.len() as int);
    }
}

/// Starting one slot later leaves out the step of the first slot; a write to that slot does not
/// show among the next `n` slots.
proof fn lemma_shift(
    before: Seq<Option<TraceEntry>>,
    after: Seq<Option<TraceEntry>>,
    at: int,
    next: int,
    n: int,
)
    requires
        before.len() == TRACE_CAPACITY,
        after.len() == TRACE_CAPACITY,
        0 <= at < TRACE_CAPACITY,
        next == (at + 1) % TRACE_CAPACITY as int,
        0 <= n < TRACE_CAPACITY,
        forall|j: int| 0 <= j < TRACE_CAPACITY && j != at ==> after[j] == before[j],
    ensures
        ({
            let old_steps = in_order(before, at, n + 1);
            let new_steps = in_order(after, next, n);
            if before[at] is Some {
                &&& old_steps.len() > 0
                &&& new_steps == old_steps.drop_first()
            } else {
                new_steps == old_steps
            }
        }),
    decreases n,
{
    reveal_with_fuel(in_order, 2);
    let cap = TRACE_CAPACITY as int;
    if n > 0 {
        lemma_shift(before, after, at, next, n - 1);
        let slot = (at + n) % cap;
        assert((next + n - 1) % cap == slot);
        assert(slot != at);
        let old_shorter = in_order(before, at, n);
        let new_shorter = in_order(after, next, n - 1);
        if let Some(entry) = before[slot] {
            if before[at] is Some {
                assert(old_shorter.push(entry).drop_first() =~= old_shorter.drop_first().push(
                    entry,
                ));
            }
        }
    } else {
        if let Some(entry) = before[at] {
            assert(Seq::<TraceEntry>::empty().push(entry).drop_first() =~= Seq::<
                TraceEntry,
            >::empty());
        }
    }
}

/// A new buffer records steps, one after the other.
pub open spec fn records_in_turn(states: Seq<TraceBuffer>, log: Seq<TraceEntry>) -> bool {
    &&& states.len() == log.len() + 1
    &&& states[0].valid()
    &&& states[0]@ == Seq::<TraceEntry>::empty()
    &&& states[0].idx == 0
    &&& forall|j: int| 0 <= j < TRACE_CAPACITY ==> (#[trigger] states[0].entries@[j]) is None
    &&& forall|i: int|
        #![trigger log[i]]
        0 <= i < log.len() ==> step_recorded(states[i], states[i + 1], log[i])
}

/// After any number of steps the buffer holds the last 128 of them, or all where there are fewer, the
/// oldest first.
pub proof fn law_last_steps_are_kept(states: Seq<TraceBuffer>, log: Seq<TraceEntry>, n: int)
    requires
        records_in_turn(states, log),
        0 <= n <= log.len(),
    ensures
        states[n].valid(),
        n <= 128 ==> states[n]@ == log.subrange(0, n),
        n > 128 ==> states[n]@ == log.subrange(n - 128, n),
    decreases n,
{
    lemma_slots_fill(states, log, n);
    if n == 0 {
        assert(states[0]@ =~= log.subrange(0, 0));
    } else {
        law_last_steps_are_kept(states, log, n - 1);
        lemma_slots_fill(states, log, n - 1);
        let before = states[n - 1];
        let entry = log[n - 1];
        assert(step_recorded(before, states[n], entry));
        if n <= 128 {
            assert(log.subrange(0, n - 1).push(entry) =~= log.subrange(0, n));
        } else {
            let kept = before@;
            let from = n - 1 - 128;
            if n - 1 > 128 {
                assert(kept == log.subrange(from, n - 1));
            } else {
                assert(kept == log.subrange(from, n - 1));
            }
            assert(kept.drop_first().push(entry) =~= log.subrange(n - 128, n));
        }
    }
}

/// The slots are filled in turn.
proof fn lemma_slots_fill(states: Seq<TraceBuffer>, log: Seq<TraceEntry>, n: int)
    requires
        records_in_turn(states, log),
        0 <= n <= log.len(),
    ensures
        states[n].valid(),
        states[n].idx == n % 128,
        forall|j: int|
            0 <= j < 128 ==> ((#[trigger] states[n].entries@[j]) is Some <==> n >= 128 || j < n),
    decreases n,
{
    if n > 0 {
        lemma_slots_fill(states, log, n - 1);
        assert(step_recorded(states[n - 1], states[n], log[n - 1]));
        assert((n - 1) % 128 + 1 == n % 128 || (n - 1) % 128 == 127 && n % 128 == 0);
        if n - 1 < 128 {
            vstd::arithmetic::div_mod::lemma_small_mod((n - 1) as nat, 128);
        }
    }
}

} // verus!
