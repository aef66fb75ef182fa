//! Entries of recent slots, kept in memory so that replay need not wait for the disk.
//!
//! A slot's entries arrive in batches, each made from a run of consecutive shreds. Batches can
//! come in any order; a reader is given what is there without a gap.
use crate::entry::{extend_entries, Entry, EntryView};
use crate::ordered::sorted_keys;
use std::collections::{BTreeMap, HashMap};
use std::sync::Arc;
use vstd::prelude::*;

verus! {

broadcast use {
    vstd::std_specs::btree::group_btree_axioms,
    vstd::std_specs::hash::group_hash_axioms,
    vstd::laws_cmp::group_laws_cmp,
};

/// The entries made from a run of consecutive shreds.
#[derive(Debug, Clone)]
pub struct CachedEntryBatch {
    pub entries: Vec<Entry>,
    /// Number of shreds in the run.
    pub num_shreds: u64,
    /// Index of the shred behind the run.
    pub next_shred_index: u64,
}

/// The cached batches of one slot.
#[derive(Debug, Clone)]
pub struct CachedSlotEntries {
    /// The batches by the index of their first shred.
    pub batches: BTreeMap<u64, CachedEntryBatch>,
    /// Every shred before this index is there.
    pub consumed: u64,
    /// Index of the slot's last shred, once it is known.
    pub last_index: Option<u64>,
    /// Counter value of the last access; the lowest one marks the slot to evict.
    pub last_accessed: u64,
}

/// Whether one of the batches was made from shred `i`.
pub open spec fn covered(batches: Map<u64, CachedEntryBatch>, i: int) -> bool {
    exists|k: u64| #[trigger]
        batches.contains_key(k) && k <= i < batches[k].next_shred_index
}

/// Each batch names the shred behind its run.
pub open spec fn runs_add_up(batches: Map<u64, CachedEntryBatch>) -> bool {
    forall|k: u64| #[trigger]
        batches.contains_key(k) ==> batches[k].next_shred_index == k + batches[k].num_shreds
}

/// No batch starts inside another one.
pub open spec fn disjoint(batches: Map<u64, CachedEntryBatch>) -> bool {
    forall|j: u64, k: u64|
        #![trigger batches.contains_key(j), batches.contains_key(k)]
        batches.contains_key(j) && batches.contains_key(k) && j < k
            ==> batches[j].next_shred_index <= k
}

/// No batch that starts at or before shred `end` starts inside another one.
pub open spec fn disjoint_up_to(batches: Map<u64, CachedEntryBatch>, end: u64) -> bool {
    forall|j: u64, k: u64|
        #![trigger batches.contains_key(j), batches.contains_key(k)]
        batches.contains_key(j) && batches.contains_key(k) && j < k <= end
            ==> batches[j].next_shred_index <= k
}

/// Where following the batches from shred `at` leads, one behind the other.
pub open spec fn chain_end(batches: Map<u64, CachedEntryBatch>, at: u64) -> u64
    decreases u64::MAX - at,
{
    if batches.contains_key(at) && batches[at].next_shred_index > at {
        chain_end(batches, batches[at].next_shred_index)
    } else {
        at
    }
}

/// First shreds of the batches that are read one behind the other, beginning at shred
/// `expected`. A batch that starts at or after `lower` and before the expected shred ends the
/// reading.
pub open spec fn run_keys(batches: Map<u64, CachedEntryBatch>, lower: int, expected: u64) -> Seq<
    u64,
>
    decreases u64::MAX + 1 - lower,
{
    if lower <= expected && batches.contains_key(expected) && (forall|k: u64| #[trigger]
        batches.contains_key(k) ==> !(lower <= k < expected)) {
        seq![expected] + run_keys(batches, expected + 1, batches[expected].next_shred_index)
    } else {
        seq![]
    }
}

/// The entries of the batches at `keys`, in order.
pub open spec fn gathered(batches: Map<u64, CachedEntryBatch>, keys: Seq<u64>) -> Seq<EntryView>
    decreases keys.len(),
{
    if keys.len() == 0 {
        seq![]
    } else {
        gathered(batches, keys.drop_last()) + crate::entry::entry_views(
            batches[keys.last()].entries@,
        )
    }
}

/// The shred behind the last of the batches at `keys`, or `from` where there is none.
pub open spec fn run_end(batches: Map<u64, CachedEntryBatch>, keys: Seq<u64>, from: u64) -> u64 {
    if keys.len() == 0 {
        from
    } else {
        batches[keys.last()].next_shred_index
    }
}

/// The batch that starts last among those that start at or before shred `i`.
pub open spec fn is_last_start(batches: Map<u64, CachedEntryBatch>, i: u64, key: u64) -> bool {
    &&& batches.contains_key(key)
    &&& key <= i
    &&& forall|k: u64| #[trigger] batches.contains_key(k) && k <= i ==> k <= key
}

/// Whether the batch that starts last at or before shred `i` was made from that shred.
pub open spec fn starts_inside(batches: Map<u64, CachedEntryBatch>, i: u64, key: u64) -> bool {
    is_last_start(batches, i, key) && i < batches[key].next_shred_index
}

/// What a reader is given from shred `start` on: the entries, the number of shreds they stand
/// for from `start` on, and the shred behind them. A reader that starts inside a batch is given
/// the whole batch.
pub open spec fn readable(batches: Map<u64, CachedEntryBatch>, consumed: u64, start: u64) -> Option<
    (Seq<EntryView>, int, u64),
> {
    if start >= consumed {
        None
    } else if exists|key: u64| starts_inside(batches, start, key) {
        let key = choose|key: u64| starts_inside(batches, start, key);
        let next = batches[key].next_shred_index;
        let keys = run_keys(batches, next as int, next);
        Some(
            (
                crate::entry::entry_views(batches[key].entries@) + gathered(batches, keys),
                run_end(batches, keys, next) - start,
                run_end(batches, keys, next),
            ),
        )
    } else {
        let keys = run_keys(batches, start as int, start);
        if gathered(batches, keys).len() == 0 {
            None
        } else {
            Some(
                (
                    gathered(batches, keys),
                    run_end(batches, keys, start) - start,
                    run_end(batches, keys, start),
                ),
            )
        }
    }
}

/// Result of following the batches in order.
struct Run {
    entries: Vec<Entry>,
    total_shreds: u64,
    next: u64,
}

impl CachedSlotEntries {
    /// Batches add up, every shred before `consumed` is covered, and no batch carries on there.
    /// Where no batch up to there starts inside another one, `consumed` is the first shred that is
    /// missing.
    pub open spec fn valid(&self) -> bool {
        &&& runs_add_up(self.batches@)
        &&& forall|i: int| 0 <= i < self.consumed ==> #[trigger] covered(self.batches@, i)
        &&& chain_end(self.batches@, self.consumed) == self.consumed
        &&& disjoint_up_to(self.batches@, self.consumed) ==> !covered(
            self.batches@,
            self.consumed as int,
        )
    }

    /// A slot without batches.
    pub fn new() -> (slot: CachedSlotEntries)
        ensures
            slot.valid(),
            slot.batches@ == Map::<u64, CachedEntryBatch>::empty(),
            slot.consumed == 0,
            slot.last_index is None,
            slot.last_accessed == 0,
    {
        CachedSlotEntries::with_access_time(0)
    }

    /// A slot without batches, last used at `access_time`.
    pub fn with_access_time(access_time: u64) -> (slot: CachedSlotEntries)
        ensures
            slot.valid(),
            slot.batches@ == Map::<u64, CachedEntryBatch>::empty(),
            slot.consumed == 0,
            slot.last_index is None,
            slot.last_accessed == access_time,
    {
        CachedSlotEntries {
            batches: BTreeMap::new(),
            consumed: 0,
            last_index: None,
            last_accessed: access_time,
        }
    }

    /// Whether every shred of the slot is there, up to exactly its last one.
    pub open spec fn full(&self) -> bool {
        self.last_index matches Some(last) && self.consumed == last + 1
    }

    /// Whether every shred of the slot is there, up to exactly its last one.
    pub fn is_full(&self) -> (full: bool)
        ensures
            full == self.full(),
    {
        match self.last_index {
            Some(last_idx) => self.consumed > 0 && self.consumed - 1 == last_idx,
            None => false,
        }
    }

    /// Moves `consumed` forward over the batches that follow it without a gap.
    fn update_consumed(&mut self)
        ensures
            final(self).batches == old(self).batches,
            final(self).last_index == old(self).last_index,
            final(self).last_accessed == old(self).last_accessed,
            final(self).consumed == chain_end(old(self).batches@, old(self).consumed),
    {
        let mut current: u64 = self.consumed;
        loop
            invariant_except_break
                chain_end(self.batches@, current) == chain_end(self.batches@, self.consumed),
            ensures
                current == chain_end(self.batches@, self.consumed),
            decreases u64::MAX - current,
        {
            match self.batches.get(&current) {
                Some(batch) => {
                    if batch.next_shred_index <= current {
                        break;
                    }
                    current = batch.next_shred_index;
                },
                None => {
                    break;
                },
            }
        }
        self.consumed = current;
    }

    /// Reads the batches that follow one behind the other, beginning at shred `from`.
    fn follow(&self, from: u64) -> (run: Run)
        requires
            runs_add_up(self.batches@),
        ensures
            ({
                let keys = run_keys(self.batches@, from as int, from);
                &&& crate::entry::entry_views(run.entries@) == gathered(self.batches@, keys)
                &&& run.next == run_end(self.batches@, keys, from)
                &&& run.total_shreds == run.next - from
            }),
    {
        let starts = sorted_keys(&self.batches);
        let n: usize = starts.len();
        let ghost batches = self.batches@;
        let mut i: usize = 0;
        while i < n && starts[i] < from
            invariant
                i <= n,
                n == starts@.len(),
                forall|j: int| 0 <= j < i ==> starts@[j] < from,
            decreases n - i,
        {
            i += 1;
        }
        let mut entries: Vec<Entry> = Vec::new();
        let mut total_shreds: u64 = 0;
        let mut expected: u64 = from;
        let ghost all = run_keys(batches, from as int, from);
        let ghost mut taken: Seq<u64> = seq![];
        let ghost mut lower: int = from as int;
        proof {
            assert(taken + run_keys(batches, lower, expected) =~= all);
            assert(crate::entry::entry_views(entries@) =~= seq![]);
        }
        while i < n && starts[i] == expected
            invariant
                batches == self.batches@,
                runs_add_up(batches),
                i <= n,
                n == starts@.len(),
                crate::ordered::ascending(starts@),
                forall|k: u64| batches.contains_key(k) <==> starts@.contains(k),
                forall|j: int| 0 <= j < i ==> starts@[j] < lower,
                forall|j: int| i <= j < n ==> starts@[j] >= lower,
                taken + run_keys(batches, lower, expected) == all,
                crate::entry::entry_views(entries@) == gathered(batches, taken),
                expected == run_end(batches, taken, from),
                from <= expected,
                total_shreds == expected - from,
            decreases n - i,
        {
            let at: u64 = expected;
            assert(starts@.contains(starts@[i as int]));
            match self.batches.get(&at) {
                Some(batch) => {
                    extend_entries(&mut entries, &batch.entries);
                    total_shreds = total_shreds + batch.num_shreds;
                    expected = batch.next_shred_index;
                },
                None => {},
            }
            proof {
                assert forall|k: u64| #[trigger] batches.contains_key(k) implies !(lower <= k
                    < at) by {
                    let j = choose|j: int| 0 <= j < n && starts@[j] == k;
                    if j > i {
                        assert(starts@[i as int] < starts@[j]);
                    }
                }
                assert(run_keys(batches, lower, at) == seq![at] + run_keys(
                    batches,
                    at + 1,
                    batches[at].next_shred_index,
                ));
                assert(taken + (seq![at] + run_keys(batches, at + 1, expected)) =~= taken.push(at)
                    + run_keys(batches, at + 1, expected));
                assert(taken.push(at).drop_last() =~= taken);
                taken = taken.push(at);
                lower = at + 1;
            }
            i += 1;
        }
        proof {
            assert(run_keys(batches, lower, expected) =~= seq![]) by {
                if lower <= expected && batches.contains_key(expected) {
                    let j = choose|j: int| 0 <= j < n && starts@[j] == expected;
                    assert(j > i);
                    assert(starts@[i as int] < starts@[j]);
                    assert(batches.contains_key(starts@[i as int]));
                }
            }
            assert(taken =~= all);
        }
        Run { entries, total_shreds, next: expected }
    }

    /// The first shred of the batch that starts last at or before shred `i`.
    fn last_start(&self, i: u64) -> (found: Option<u64>)
        ensures
            found matches Some(key) ==> is_last_start(self.batches@, i, key),
            found is None ==> forall|k: u64| #[trigger] self.batches@.contains_key(k) ==> k > i,
    {
        let starts = sorted_keys(&self.batches);
        let n: usize = starts.len();
        let mut found: Option<u64> = None;
        let mut j: usize = 0;
        while j < n && starts[j] <= i
            invariant
                j <= n,
                n == starts@.len(),
                crate::ordered::ascending(starts@),
                forall|k: u64| self.batches@.contains_key(k) <==> starts@.contains(k),
                forall|a: int| 0 <= a < j ==> starts@[a] <= i,
                j > 0 ==> found == Some(starts@[j - 1]),
                j == 0 ==> found is None,
            decreases n - j,
        {
            found = Some(starts[j]);
            j += 1;
        }
        proof {
            assert forall|k: u64| #[trigger] self.batches@.contains_key(k) && k <= i implies j > 0
                && k <= starts@[j - 1] by {
                assert(starts@.contains(k));
                let a = choose|a: int| 0 <= a < n && starts@[a] == k;
                if a >= j {
                    assert(a == j || starts@[j as int] < starts@[a]);
                } else {
                    assert(a == j - 1 || starts@[a] < starts@[j - 1]);
                }
            }
            if j > 0 {
                assert(starts@.contains(starts@[j - 1]));
            }
        }
        found
    }

    /// The entries without a gap from shred `start_index` on, the number of shreds they stand
    /// for and the shred behind them; `None` where that shred is not there.
    pub fn get_contiguous_entries_from(&self, start_index: u64) -> (read: Option<
        (Vec<Entry>, u64, u64),
    >)
        requires
            runs_add_up(self.batches@),
        ensures
            ({
                let expected = readable(self.batches@, self.consumed, start_index);
                &&& read is Some <==> expected is Some
                &&& read matches Some((entries, shreds, next)) ==> {
                    &&& crate::entry::entry_views(entries@) == expected->Some_0.0
                    &&& shreds == expected->Some_0.1
                    &&& next == expected->Some_0.2
                }
            }),
    {
        if start_index >= self.consumed {
            return None;
        }
        let ghost batches = self.batches@;
        if let Some(batch_start) = self.last_start(start_index) {
            proof {
                assert forall|key: u64| starts_inside(batches, start_index, key) implies key
                    == batch_start by {}
            }
            match self.batches.get(&batch_start) {
                Some(first_batch) => {
                    if start_index < first_batch.next_shred_index {
                        assert(starts_inside(batches, start_index, batch_start));
                        let skipped: u64 = start_index - batch_start;
                        let remaining: u64 = first_batch.num_shreds - skipped;
                        let mut entries: Vec<Entry> = Vec::new();
                        assert(crate::entry::entry_views(entries@) =~= seq![]);
                        extend_entries(&mut entries, &first_batch.entries);
                        let next: u64 = first_batch.next_shred_index;
                        let run = self.follow(next);
                        extend_entries(&mut entries, &run.entries);
                        proof {
                            let keys = run_keys(batches, next as int, next);
                            assert(crate::entry::entry_views(entries@)
                                =~= crate::entry::entry_views(first_batch.entries@) + gathered(
                                batches,
                                keys,
                            ));
                        }
                        return Some((entries, remaining + run.total_shreds, run.next));
                    }
                },
                None => {},
            }
        } else {
            assert forall|key: u64| !starts_inside(batches, start_index, key) by {}
        }
        assert(!(exists|key: u64| starts_inside(batches, start_index, key)));
        let run = self.follow(start_index);
        proof {
            assert(crate::entry::entry_views(run.entries@).len() == run.entries@.len());
        }
        if run.entries.len() == 0 {
            None
        } else {
            Some((run.entries, run.total_shreds, run.next))
        }
    }

    /// The entries of every batch that starts at or after shred `start_index`, whether or not
    /// there are gaps between them, and the number of shreds of these batches.
    pub fn get_entries_from(&self, start_index: u64) -> (read: (Vec<Entry>, u64))
        requires
            forall|keys: Seq<u64>| #[trigger]
                is_tail(self.batches@, start_index, keys) ==> shred_count(self.batches@, keys)
                    <= u64::MAX,
        ensures
            exists|keys: Seq<u64>| #[trigger]
                is_tail(self.batches@, start_index, keys) && crate::entry::entry_views(read.0@)
                    == gathered(self.batches@, keys) && read.1 == shred_count(self.batches@, keys),
    {
        let starts = sorted_keys(&self.batches);
        let n: usize = starts.len();
        let ghost batches = self.batches@;
        let mut i: usize = 0;
        while i < n && starts[i] < start_index
            invariant
                i <= n,
                n == starts@.len(),
                forall|j: int| 0 <= j < i ==> starts@[j] < start_index,
            decreases n - i,
        {
            i += 1;
        }
        let from: usize = i;
        let ghost tail = starts@.subrange(from as int, n as int);
        proof {
            assert forall|k: u64| tail.contains(k) <==> batches.contains_key(k) && k
                >= start_index by {
                if tail.contains(k) {
                    let j = choose|j: int| 0 <= j < tail.len() && tail[j] == k;
                    assert(starts@[from + j] == k);
                    assert(starts@.contains(k));
                    assert(from == from + j || starts@[from as int] < starts@[from + j]);
                }
                if batches.contains_key(k) && k >= start_index {
                    assert(starts@.contains(k));
                    let j = choose|j: int| 0 <= j < n && starts@[j] == k;
                    assert(tail[j - from] == k);
                }
            }
            assert(is_tail(batches, start_index, tail));
        }
        let mut entries: Vec<Entry> = Vec::new();
        let mut total_shreds: u64 = 0;
        assert(crate::entry::entry_views(entries@) =~= seq![]);
        while i < n
            invariant
                batches == self.batches@,
                from <= i <= n,
                n == starts@.len(),
                tail == starts@.subrange(from as int, n as int),
                forall|k: u64| batches.contains_key(k) <==> starts@.contains(k),
                shred_count(batches, tail) <= u64::MAX,
                crate::entry::entry_views(entries@) == gathered(
                    batches,
                    tail.subrange(0, i - from),
                ),
                total_shreds == shred_count(batches, tail.subrange(0, i - from)),
            decreases n - i,
        {
            let at: u64 = starts[i];
            assert(starts@.contains(at));
            proof {
                lemma_shred_count_grows(batches, tail, i - from + 1);
                assert(tail.subrange(0, i - from + 1).drop_last() =~= tail.subrange(0, i - from));
            }
            match self.batches.get(&at) {
                Some(batch) => {
                    extend_entries(&mut entries, &batch.entries);
                    total_shreds = total_shreds + batch.num_shreds;
                },
                None => {},
            }
            i += 1;
        }
        assert(tail.subrange(0, n - from) =~= tail);
        (entries, total_shreds)
    }
}

/// The first shreds, in order, of the batches that start at or after shred `start`.
pub open spec fn is_tail(batches: Map<u64, CachedEntryBatch>, start: u64, keys: Seq<u64>) -> bool {
    &&& crate::ordered::ascending(keys)
    &&& forall|k: u64| keys.contains(k) <==> batches.contains_key(k) && k >= start
}

/// Number of shreds of the batches at `keys`.
pub open spec fn shred_count(batches: Map<u64, CachedEntryBatch>, keys: Seq<u64>) -> int
    decreases keys.len(),
{
    if keys.len() == 0 {
        0
    } else {
        shred_count(batches, keys.drop_last()) + batches[keys.last()].num_shreds
    }
}

proof fn lemma_shred_count_grows(batches: Map<u64, CachedEntryBatch>, keys: Seq<u64>, n: int)
    requires
        0 <= n <= keys.len(),
    ensures
        shred_count(batches, keys.subrange(0, n)) <= shred_count(batches, keys),
    decreases keys.len() - n,
{
    if n == keys.len() {
        assert(keys.subrange(0, n) =~= keys);
    } else {
        lemma_shred_count_grows(batches, keys, n + 1);
        assert(keys.subrange(0, n + 1).drop_last() =~= keys.subrange(0, n));
    }
}

impl Default for CachedSlotEntries {
    fn default() -> (slot: CachedSlotEntries)
        ensures
            slot.valid(),
            slot.batches@ == Map::<u64, CachedEntryBatch>::empty(),
            slot.consumed == 0,
            slot.last_index is None,
            slot.last_accessed == 0,
    {
        CachedSlotEntries::new()
    }
}

/// The later of two last-shred indexes.
pub open spec fn later_last(known: Option<u64>, reported: u64) -> u64 {
    match known {
        Some(last) if last > reported => last,
        _ => reported,
    }
}

/// A cache of the entries of recent slots.
#[derive(Debug)]
pub struct EntryCache {
    pub slots: HashMap<u64, CachedSlotEntries>,
    /// Number of slots beyond which the least recently used one is evicted.
    pub max_slots: usize,
    /// Number of accesses so far: insertions and answered reads.
    pub access_counter: u64,
    pub hits: u64,
    pub misses: u64,
}

/// The slot whose last access is the longest ago.
pub open spec fn is_oldest(slots: Map<u64, CachedSlotEntries>, slot: u64) -> bool {
    &&& slots.contains_key(slot)
    &&& forall|k: u64| #[trigger]
        slots.contains_key(k) && k != slot ==> slots[slot].last_accessed < slots[k].last_accessed
}

/// What an insertion at shred `start` makes of a slot.
pub open spec fn slot_after_insert(
    before: CachedSlotEntries,
    after: CachedSlotEntries,
    start: u64,
    batch: CachedEntryBatch,
    last_index: Option<u64>,
    access_time: u64,
) -> bool {
    let batches = before.batches@.insert(start, batch);
    let rescanned = before.batches@.contains_key(start) && before.batches@[start].next_shred_index
        != batch.next_shred_index && start < before.consumed;
    &&& after.batches@ == batches
    &&& after.consumed == chain_end(
        batches,
        if rescanned {
            start
        } else {
            before.consumed
        },
    )
    &&& after.last_index == match last_index {
        Some(reported) => Some(later_last(before.last_index, reported)),
        None => before.last_index,
    }
    &&& after.last_accessed == access_time
}

/// The slots that remain once room was made for `slot`.
pub open spec fn slots_with_room(
    slots: Map<u64, CachedSlotEntries>,
    max_slots: usize,
    slot: u64,
    left: Map<u64, CachedSlotEntries>,
) -> bool {
    if slots.dom().len() >= max_slots && !slots.contains_key(slot) && slots.dom().len() > 0 {
        exists|oldest: u64| #[trigger] is_oldest(slots, oldest) && left == slots.remove(oldest)
    } else {
        left == slots
    }
}

/// Number of slots that a cache made for `max_slots` slots holds at most: an insertion always
/// leaves its slot there.
pub open spec fn slot_limit(max_slots: usize) -> int {
    if max_slots == 0 {
        1
    } else {
        max_slots as int
    }
}

/// What a read is answered: the contents of the entries, the number of shreds and whether the slot
/// is full.
pub type ReadView = Option<(Seq<EntryView>, int, bool)>;

/// A read, by its contents.
pub open spec fn read_view(read: Option<(Vec<Entry>, u64, bool)>) -> ReadView {
    match read {
        Some((entries, shreds, full)) => Some(
            (crate::entry::entry_views(entries@), shreds as int, full),
        ),
        None => None,
    }
}

/// What a read of a slot from shred `start` on is answered, and what it changes.
pub open spec fn slot_read(
    before: EntryCache,
    after: EntryCache,
    slot: u64,
    start: u64,
    read: ReadView,
) -> bool {
    let held = before.slots@[slot];
    let expected = if before.slots@.contains_key(slot) {
        readable(held.batches@, held.consumed, start)
    } else {
        None
    };
    &&& after.max_slots == before.max_slots
    &&& match expected {
        Some((entries, shreds, _)) => {
            let kept = after.slots@[slot];
            &&& read == Some((entries, shreds, held.full()))
            &&& after.hits == before.hits.wrapping_add(1)
            &&& after.misses == before.misses
            &&& after.access_counter == before.access_counter + 1
            &&& after.slots@ == before.slots@.insert(slot, kept)
            &&& kept.batches@ == held.batches@
            &&& kept.consumed == held.consumed
            &&& kept.last_index == held.last_index
            &&& kept.last_accessed == before.access_counter
        },
        None => {
            &&& read is None
            &&& after.misses == before.misses.wrapping_add(1)
            &&& after.hits == before.hits
            &&& after.access_counter == before.access_counter
            &&& after.slots@ == before.slots@
        },
    }
}

/// What an insertion changes.
pub open spec fn batch_inserted(
    before: EntryCache,
    after: EntryCache,
    slot: u64,
    start: u64,
    batch: CachedEntryBatch,
    last_index: Option<u64>,
    left: Map<u64, CachedSlotEntries>,
    held: CachedSlotEntries,
) -> bool {
    &&& slots_with_room(before.slots@, before.max_slots, slot, left)
    &&& after.slots@ == left.insert(slot, after.slots@[slot])
    &&& if left.contains_key(slot) {
        held == left[slot]
    } else {
        &&& held.batches@ == Map::<u64, CachedEntryBatch>::empty()
        &&& held.consumed == 0
        &&& held.last_index is None
    }
    &&& slot_after_insert(
        held,
        after.slots@[slot],
        start,
        batch,
        last_index,
        before.access_counter,
    )
    &&& after.max_slots == before.max_slots
    &&& after.hits == before.hits
    &&& after.misses == before.misses
    &&& after.access_counter == before.access_counter + 1
}

/// The slots that are left once those below `min_slot` are removed.
pub open spec fn slots_from(slots: Map<u64, CachedSlotEntries>, min_slot: u64) -> Map<
    u64,
    CachedSlotEntries,
> {
    slots.restrict(Set::new(|slot: u64| slot >= min_slot))
}

/// What the report of a slot's last shred changes.
pub open spec fn last_index_set(
    before: Map<u64, CachedSlotEntries>,
    after: Map<u64, CachedSlotEntries>,
    slot: u64,
    last_index: u64,
) -> bool {
    if before.contains_key(slot) {
        let held = before[slot];
        let kept = after[slot];
        &&& after == before.insert(slot, kept)
        &&& kept.batches@ == held.batches@
        &&& kept.consumed == held.consumed
        &&& kept.last_accessed == held.last_accessed
        &&& kept.last_index == Some(later_last(held.last_index, last_index))
    } else {
        after == before
    }
}

impl EntryCache {
    /// The cache holds no more slots than it may, every slot is valid and no two slots were last
    /// accessed at the same time.
    pub open spec fn valid(&self) -> bool {
        &&& self.slots@.dom().len() <= slot_limit(self.max_slots)
        &&& forall|k: u64| #[trigger]
            self.slots@.contains_key(k) ==> self.slots@[k].valid() && self.slots@[k].last_accessed
                < self.access_counter
        &&& forall|j: u64, k: u64|
            #![trigger self.slots@.contains_key(j), self.slots@.contains_key(k)]
            self.slots@.contains_key(j) && self.slots@.contains_key(k) && j != k
                ==> self.slots@[j].last_accessed != self.slots@[k].last_accessed
    }

    /// An empty cache for `max_slots` slots.
    pub fn new(max_slots: usize) -> (cache: EntryCache)
        ensures
            cache.valid(),
            cache.slots@ == Map::<u64, CachedSlotEntries>::empty(),
            cache.max_slots == max_slots,
            cache.access_counter == 0,
            cache.hits == 0,
            cache.misses == 0,
    {
        EntryCache { slots: HashMap::new(), max_slots, access_counter: 0, hits: 0, misses: 0 }
    }

    /// Hands out the next access time.
    fn next_access_time(&mut self) -> (time: u64)
        requires
            old(self).access_counter < u64::MAX,
        ensures
            time == old(self).access_counter,
            final(self).access_counter == old(self).access_counter + 1,
            final(self).slots == old(self).slots,
            final(self).max_slots == old(self).max_slots,
            final(self).hits == old(self).hits,
            final(self).misses == old(self).misses,
    {
        let time: u64 = self.access_counter;
        self.access_counter = time + 1;
        time
    }

    /// The slot whose last access is the longest ago.
    fn oldest_slot(&self) -> (oldest: Option<u64>)
        requires
            self.valid(),
        ensures
            oldest is None <==> self.slots@.dom().len() == 0,
            oldest matches Some(slot) ==> is_oldest(self.slots@, slot),
    {
        let ghost slots = self.slots@;
        let iter = self.slots.iter();
        let ghost all = vstd::std_specs::iter::IteratorSpec::remaining(&iter);
        let mut oldest: Option<(u64, u64)> = None;
        for pair in it: iter
            invariant
                self.valid(),
                slots == self.slots@,
                it.seq() == all,
                forall|i: int|
                    0 <= i < all.len() ==> slots.contains_key(*(#[trigger] all[i]).0)
                        && slots[*all[i].0] == *all[i].1,
                oldest is None <==> it.index() == 0,
                oldest matches Some(found) ==> {
                    &&& slots.contains_key(found.0)
                    &&& slots[found.0].last_accessed == found.1
                    &&& forall|i: int|
                        0 <= i < it.index() ==> found.1 <= (#[trigger] all[i]).1.last_accessed
                },
        {
            assert(*pair.0 == *all[it.index() as int].0 && *pair.1 == *all[it.index() as int].1);
            let time: u64 = pair.1.last_accessed;
            match oldest {
                Some(found) => {
                    if time < found.1 {
                        oldest = Some((*pair.0, time));
                    }
                },
                None => {
                    oldest = Some((*pair.0, time));
                },
            }
        }
        proof {
            if let Some(found) = oldest {
                assert forall|k: u64| #[trigger] slots.contains_key(k) && k != found.0 implies
                    slots[found.0].last_accessed < slots[k].last_accessed by {
                    assert(all.contains((&k, &slots[k])));
                    let i = choose|i: int| 0 <= i < all.len() && all[i] == (&k, &slots[k]);
                    assert(found.1 <= all[i].1.last_accessed);
                    assert(slots.contains_key(found.0));
                }
            }
        }
        match oldest {
            Some(found) => Some(found.0),
            None => None,
        }
    }

    /// Adds the batch made from `num_shreds` shreds from `shred_start_index` on to a slot.
    ///
    /// A new slot takes the place of the least recently used one where the cache is full.
    /// A batch in the place of one of another length makes the slot be scanned again from there.
    pub fn insert_entries(
        &mut self,
        slot: u64,
        shred_start_index: u64,
        entries: Vec<Entry>,
        num_shreds: u64,
        last_index: Option<u64>,
    )
        requires
            old(self).valid(),
            old(self).access_counter < u64::MAX,
            shred_start_index + num_shreds <= u64::MAX,
        ensures
            final(self).valid(),
            final(self).max_slots == old(self).max_slots,
            final(self).hits == old(self).hits,
            final(self).misses == old(self).misses,
            final(self).access_counter == old(self).access_counter + 1,
            exists|left: Map<u64, CachedSlotEntries>, before: CachedSlotEntries|
                {
                    &&& #[trigger] slots_with_room(
                        old(self).slots@,
                        old(self).max_slots,
                        slot,
                        left,
                    )
                    &&& final(self).slots@ == left.insert(slot, final(self).slots@[slot])
                    &&& if left.contains_key(slot) {
                        before == left[slot]
                    } else {
                        &&& before.batches@ == Map::<u64, CachedEntryBatch>::empty()
                        &&& before.consumed == 0
                        &&& before.last_index is None
                    }
                    &&& #[trigger] slot_after_insert(
                        before,
                        final(self).slots@[slot],
                        shred_start_index,
                        CachedEntryBatch {
                            entries,
                            num_shreds,
                            next_shred_index: (shred_start_index + num_shreds) as u64,
                        },
                        last_index,
                        old(self).access_counter,
                    )
                },
            exists|left: Map<u64, CachedSlotEntries>, held: CachedSlotEntries| #[trigger]
                batch_inserted(
                    *old(self),
                    *final(self),
                    slot,
                    shred_start_index,
                    CachedEntryBatch {
                        entries,
                        num_shreds,
                        next_shred_index: (shred_start_index + num_shreds) as u64,
                    },
                    last_index,
                    left,
                    held,
                ),
    {
        let ghost earlier = self.slots@;
        let access_time: u64 = self.next_access_time();
        if self.slots.len() >= self.max_slots && !self.slots.contains_key(&slot) {
            if let Some(lru_slot) = self.oldest_slot() {
                self.slots.remove(&lru_slot);
                assert(is_oldest(earlier, lru_slot));
            }
        }
        let ghost left = self.slots@;
        assert(slots_with_room(earlier, self.max_slots, slot, left));
        let mut slot_entries: CachedSlotEntries = match self.slots.remove(&slot) {
            Some(held) => held,
            None => CachedSlotEntries::with_access_time(access_time),
        };
        let ghost before = slot_entries;
        assert(before.valid());
        slot_entries.last_accessed = access_time;
        let next_shred_index: u64 = shred_start_index + num_shreds;
        let mut rescan: bool = false;
        if let Some(old_batch) = slot_entries.batches.get(&shred_start_index) {
            if old_batch.next_shred_index != next_shred_index {
                rescan = true;
            }
        }
        if rescan && shred_start_index < slot_entries.consumed {
            slot_entries.consumed = shred_start_index;
        }
        let ghost resumed = slot_entries.consumed;
        let batch = CachedEntryBatch { entries, num_shreds, next_shred_index };
        slot_entries.batches.insert(shred_start_index, batch);
        let ghost batches = slot_entries.batches@;
        proof {
            assert(batches == before.batches@.insert(shred_start_index, batch));
            assert(runs_add_up(batches));
            assert forall|i: int| 0 <= i < resumed implies #[trigger] covered(batches, i) by {
                assert(covered(before.batches@, i));
                let k = choose|k: u64| #[trigger]
                    before.batches@.contains_key(k) && k <= i
                        < before.batches@[k].next_shred_index;
                assert(batches.contains_key(k));
            }
            lemma_chain_covers(batches, resumed);
            lemma_first_missing_kept(before, shred_start_index, batch, resumed);
        }
        slot_entries.update_consumed();
        if let Some(idx) = last_index {
            let latest: u64 = match slot_entries.last_index {
                Some(existing) => if existing > idx {
                    existing
                } else {
                    idx
                },
                None => idx,
            };
            slot_entries.last_index = Some(latest);
        }
        self.slots.insert(slot, slot_entries);
        proof {
            assert(self.slots@ =~= left.insert(slot, slot_entries));
            assert(self.slots@.dom() =~= left.dom().insert(slot));
            if left != earlier {
                let oldest = choose|oldest: u64| #[trigger]
                    is_oldest(earlier, oldest) && left == earlier.remove(oldest);
                assert(left.dom() =~= earlier.dom().remove(oldest));
            }
            assert(slot_after_insert(
                before,
                self.slots@[slot],
                shred_start_index,
                batch,
                last_index,
                access_time,
            ));
            assert(batch_inserted(
                *old(self),
                *self,
                slot,
                shred_start_index,
                batch,
                last_index,
                left,
                before,
            ));
        }
    }
}

impl EntryCache {
    /// Reports the index of a slot's last shred; the highest report counts.
    pub fn set_last_index(&mut self, slot: u64, last_index: u64)
        requires
            old(self).valid(),
        ensures
            final(self).valid(),
            final(self).max_slots == old(self).max_slots,
            final(self).access_counter == old(self).access_counter,
            final(self).hits == old(self).hits,
            final(self).misses == old(self).misses,
            !old(self).slots@.contains_key(slot) ==> final(self).slots@ == old(self).slots@,
            old(self).slots@.contains_key(slot) ==> {
                let before = old(self).slots@[slot];
                let after = final(self).slots@[slot];
                &&& final(self).slots@ == old(self).slots@.insert(slot, after)
                &&& after.batches@ == before.batches@
                &&& after.consumed == before.consumed
                &&& after.last_accessed == before.last_accessed
                &&& after.last_index == Some(later_last(before.last_index, last_index))
            },
            last_index_set(old(self).slots@, final(self).slots@, slot, last_index),
    {
        let ghost earlier = self.slots@;
        if let Some(held) = self.slots.remove(&slot) {
            let mut slot_entries: CachedSlotEntries = held;
            let latest: u64 = match slot_entries.last_index {
                Some(existing) => if existing > last_index {
                    existing
                } else {
                    last_index
                },
                None => last_index,
            };
            slot_entries.last_index = Some(latest);
            self.slots.insert(slot, slot_entries);
            assert(self.slots@ =~= earlier.insert(slot, slot_entries));
        } else {
            assert(self.slots@ =~= earlier);
        }
    }

    /// The entries of a slot from shred `start_index` on, the number of shreds they stand for
    /// and whether the slot is full. An answered read counts as a hit and as an access of the
    /// slot; where there is nothing to read, a miss is counted.
    pub fn get_slot_entries(&mut self, slot: u64, start_index: u64) -> (read: Option<
        (Vec<Entry>, u64, bool),
    >)
        requires
            old(self).valid(),
            old(self).access_counter < u64::MAX,
        ensures
            final(self).valid(),
            final(self).max_slots == old(self).max_slots,
            ({
                let held = old(self).slots@[slot];
                let expected = if old(self).slots@.contains_key(slot) {
                    readable(held.batches@, held.consumed, start_index)
                } else {
                    None
                };
                &&& read is Some <==> expected is Some
                &&& read matches Some((entries, shreds, full)) ==> {
                    let after = final(self).slots@[slot];
                    &&& crate::entry::entry_views(entries@) == expected->Some_0.0
                    &&& shreds == expected->Some_0.1
                    &&& full == held.full()
                    &&& final(self).hits == old(self).hits.wrapping_add(1)
                    &&& final(self).misses == old(self).misses
                    &&& final(self).access_counter == old(self).access_counter + 1
                    &&& final(self).slots@ == old(self).slots@.insert(slot, after)
                    &&& after.batches@ == held.batches@
                    &&& after.consumed == held.consumed
                    &&& after.last_index == held.last_index
                    &&& after.last_accessed == old(self).access_counter
                }
                &&& read is None ==> {
                    &&& final(self).misses == old(self).misses.wrapping_add(1)
                    &&& final(self).hits == old(self).hits
                    &&& final(self).access_counter == old(self).access_counter
                    &&& final(self).slots@ == old(self).slots@
                }
            }),
            slot_read(*old(self), *final(self), slot, start_index, read_view(read)),
    {
        let ghost earlier = self.slots@;
        let read: Option<(Vec<Entry>, u64, bool)> = match self.slots.get(&slot) {
            Some(slot_entries) => {
                match slot_entries.get_contiguous_entries_from(start_index) {
                    Some((entries, num_shreds, _next)) => Some(
                        (entries, num_shreds, slot_entries.is_full()),
                    ),
                    None => None,
                }
            },
            None => None,
        };
        if read.is_some() {
            self.hits = self.hits.wrapping_add(1);
            let access_time: u64 = self.next_access_time();
            if let Some(held) = self.slots.remove(&slot) {
                let mut slot_entries: CachedSlotEntries = held;
                slot_entries.last_accessed = access_time;
                self.slots.insert(slot, slot_entries);
                assert(self.slots@ =~= earlier.insert(slot, slot_entries));
            }
        } else {
            self.misses = self.misses.wrapping_add(1);
        }
        read
    }

    /// Whether the cache holds a slot.
    pub fn has_slot(&self, slot: u64) -> (held: bool)
        ensures
            held == self.slots@.contains_key(slot),
    {
        self.slots.contains_key(&slot)
    }

    /// Removes a slot.
    pub fn remove_slot(&mut self, slot: u64)
        requires
            old(self).valid(),
        ensures
            final(self).valid(),
            final(self).slots@ == old(self).slots@.remove(slot),
            final(self).max_slots == old(self).max_slots,
            final(self).access_counter == old(self).access_counter,
            final(self).hits == old(self).hits,
            final(self).misses == old(self).misses,
    {
        self.slots.remove(&slot);
    }

    /// Removes every slot below `min_slot`.
    pub fn purge_slots_below(&mut self, min_slot: u64)
        requires
            old(self).valid(),
        ensures
            final(self).valid(),
            final(self).slots@ == old(self).slots@.restrict(
                Set::new(|slot: u64| slot >= min_slot),
            ),
            final(self).slots@ == slots_from(old(self).slots@, min_slot),
            forall|k: u64| #[trigger]
                final(self).slots@.contains_key(k) <==> old(self).slots@.contains_key(k) && k
                    >= min_slot,
            final(self).max_slots == old(self).max_slots,
            final(self).access_counter == old(self).access_counter,
            final(self).hits == old(self).hits,
            final(self).misses == old(self).misses,
    {
        let ghost earlier = self.slots@;
        let below = slots_below(&self.slots, min_slot);
        let mut i: usize = 0;
        while i < below.len()
            invariant
                i <= below@.len(),
                self.max_slots == old(self).max_slots,
                self.access_counter == old(self).access_counter,
                self.hits == old(self).hits,
                self.misses == old(self).misses,
                forall|k: u64| earlier.contains_key(k) && k < min_slot ==> below@.contains(k),
                forall|j: int| 0 <= j < below@.len() ==> below@[j] < min_slot,
                forall|k: u64| #[trigger]
                    self.slots@.contains_key(k) ==> earlier.contains_key(k) && self.slots@[k]
                        == earlier[k],
                forall|k: u64|
                    earlier.contains_key(k) && !below@.subrange(0, i as int).contains(k) ==> #[trigger] self.slots@.contains_key(
                    k),
                forall|j: int| 0 <= j < i ==> !self.slots@.contains_key(#[trigger] below@[j]),
            decreases below@.len() - i,
        {
            self.slots.remove(&below[i]);
            proof {
                let shorter = below@.subrange(0, i as int);
                let longer = below@.subrange(0, i + 1);
                assert(longer =~= shorter.push(below@[i as int]));
                assert forall|k: u64|
                    earlier.contains_key(k) && !longer.contains(k) implies #[trigger] self.slots@.contains_key(
                k) by {
                    if shorter.contains(k) {
                        let j = choose|j: int| 0 <= j < shorter.len() && shorter[j] == k;
                        assert(longer[j] == k);
                    }
                    assert(longer[i as int] == below@[i as int]);
                }
            }
            i += 1;
        }
        proof {
            let wanted = earlier.restrict(Set::new(|slot: u64| slot >= min_slot));
            assert(below@.subrange(0, i as int) =~= below@);
            assert forall|k: u64| self.slots@.contains_key(k) <==> wanted.contains_key(k) by {
                if self.slots@.contains_key(k) && k < min_slot {
                    let j = choose|j: int| 0 <= j < below@.len() && below@[j] == k;
                    assert(!self.slots@.contains_key(below@[j]));
                }
                if earlier.contains_key(k) && k >= min_slot {
                    assert(!below@.contains(k));
                }
            }
            assert(self.slots@ =~= wanted);
            vstd::set_lib::lemma_len_subset(self.slots@.dom(), earlier.dom());
        }
    }

    /// Number of hits and of misses so far.
    pub fn stats(&self) -> (counts: (u64, u64))
        ensures
            counts == (self.hits, self.misses),
    {
        (self.hits, self.misses)
    }

    /// Number of slots in the cache.
    pub fn len(&self) -> (count: usize)
        ensures
            count == self.slots@.dom().len(),
    {
        self.slots.len()
    }

    /// Whether the cache holds no slot.
    pub fn is_empty(&self) -> (empty: bool)
        ensures
            empty == (self.slots@.dom().len() == 0),
    {
        self.slots.len() == 0
    }

    /// First shred of a slot that is not there.
    pub fn get_consumed(&self, slot: u64) -> (consumed: Option<u64>)
        ensures
            consumed == if self.slots@.contains_key(slot) {
                Some(self.slots@[slot].consumed)
            } else {
                None
            },
    {
        match self.slots.get(&slot) {
            Some(held) => Some(held.consumed),
            None => None,
        }
    }

    /// Index of a slot's last shred, as far as it is known.
    pub fn get_last_index(&self, slot: u64) -> (last_index: Option<Option<u64>>)
        ensures
            last_index == if self.slots@.contains_key(slot) {
                Some(self.slots@[slot].last_index)
            } else {
                None
            },
    {
        match self.slots.get(&slot) {
            Some(held) => Some(held.last_index),
            None => None,
        }
    }

    /// Whether a slot is full.
    pub fn is_slot_full(&self, slot: u64) -> (full: Option<bool>)
        ensures
            full == if self.slots@.contains_key(slot) {
                Some(self.slots@[slot].full())
            } else {
                None
            },
    {
        match self.slots.get(&slot) {
            Some(held) => Some(held.is_full()),
            None => None,
        }
    }
}

impl Default for EntryCache {
    /// An empty cache for 32 slots.
    fn default() -> (cache: EntryCache)
        ensures
            cache.valid(),
            cache.slots@ == Map::<u64, CachedSlotEntries>::empty(),
            cache.max_slots == 32,
            cache.access_counter == 0,
            cache.hits == 0,
            cache.misses == 0,
    {
        EntryCache::new(32)
    }
}

/// An entry cache with shared ownership.
pub type SharedEntryCache = Arc<EntryCache>;

/// An empty cache for `max_slots` slots, with shared ownership.
pub fn new_shared_entry_cache(max_slots: usize) -> (cache: SharedEntryCache)
    ensures
        cache.valid(),
        cache.slots@ == Map::<u64, CachedSlotEntries>::empty(),
        cache.max_slots == max_slots,
        cache.access_counter == 0,
        cache.hits == 0,
        cache.misses == 0,
{
    Arc::new(EntryCache::new(max_slots))
}

/// The slots of the map below `min_slot`, in any order.
fn slots_below(slots: &HashMap<u64, CachedSlotEntries>, min_slot: u64) -> (below: Vec<u64>)
    ensures
        forall|k: u64| slots@.contains_key(k) && k < min_slot ==> below@.contains(k),
        forall|j: int|
            0 <= j < below@.len() ==> slots@.contains_key(#[trigger] below@[j]) && below@[j]
                < min_slot,
{
    let mut below: Vec<u64> = Vec::new();
    let iter = slots.iter();
    let ghost all = vstd::std_specs::iter::IteratorSpec::remaining(&iter);
    for pair in it: iter
        invariant
            it.seq() == all,
            forall|i: int|
                0 <= i < all.len() ==> slots@.contains_key(*(#[trigger] all[i]).0),
            forall|i: int|
                0 <= i < it.index() && *(#[trigger] all[i]).0 < min_slot ==> below@.contains(
                    *all[i].0,
                ),
            forall|j: int|
                0 <= j < below@.len() ==> slots@.contains_key(#[trigger] below@[j]) && below@[j]
                    < min_slot,
    {
        let ghost index = it.index() as int;
        let ghost before = below@;
        assert(*pair.0 == *all[index].0);
        if *pair.0 < min_slot {
            below.push(*pair.0);
            assert(below@[before.len() as int] == *pair.0);
            assert forall|k: u64| before.contains(k) implies below@.contains(k) by {
                let j = choose|j: int| 0 <= j < before.len() && before[j] == k;
                assert(below@[j] == k);
            }
        }
    }
    proof {
        assert forall|k: u64| slots@.contains_key(k) && k < min_slot implies below@.contains(k) by {
            assert(all.contains((&k, &slots@[k])));
            let i = choose|i: int| 0 <= i < all.len() && all[i] == (&k, &slots@[k]);
            assert(*all[i].0 < min_slot);
        }
    }
    below
}

/// Following the batches does not lead back.
pub proof fn lemma_chain_advances(batches: Map<u64, CachedEntryBatch>, at: u64)
    ensures
        at <= chain_end(batches, at),
    decreases u64::MAX - at,
{
    if batches.contains_key(at) && batches[at].next_shred_index > at {
        lemma_chain_advances(batches, batches[at].next_shred_index);
    }
}

/// Following the batches from a covered prefix leads to the end of a covered prefix.
proof fn lemma_chain_covers(batches: Map<u64, CachedEntryBatch>, at: u64)
    requires
        forall|i: int| 0 <= i < at ==> #[trigger] covered(batches, i),
    ensures
        at <= chain_end(batches, at),
        forall|i: int| 0 <= i < chain_end(batches, at) ==> #[trigger] covered(batches, i),
        chain_end(batches, chain_end(batches, at)) == chain_end(batches, at),
    decreases u64::MAX - at,
{
    if batches.contains_key(at) && batches[at].next_shred_index > at {
        let next = batches[at].next_shred_index;
        assert forall|i: int| 0 <= i < next implies #[trigger] covered(batches, i) by {
            if i >= at {
                assert(batches.contains_key(at) && at <= i < batches[at].next_shred_index);
            }
        }
        lemma_chain_covers(batches, next);
    }
}

/// A path that leads somewhere ends with a batch.
proof fn lemma_chain_last(batches: Map<u64, CachedEntryBatch>, at: u64) -> (last: u64)
    requires
        chain_end(batches, at) != at,
    ensures
        batches.contains_key(last),
        last < chain_end(batches, at),
        batches[last].next_shred_index == chain_end(batches, at),
    decreases u64::MAX - at,
{
    let next = batches[at].next_shred_index;
    if chain_end(batches, next) == next {
        at
    } else {
        lemma_chain_last(batches, next)
    }
}

/// An insertion keeps `consumed` the first missing shred, as far as no batch starts inside another
/// one.
proof fn lemma_first_missing_kept(
    before: CachedSlotEntries,
    start: u64,
    batch: CachedEntryBatch,
    resumed: u64,
)
    requires
        before.valid(),
        batch.next_shred_index >= start,
        resumed == if before.batches@.contains_key(start)
            && before.batches@[start].next_shred_index != batch.next_shred_index && start
            < before.consumed {
            start
        } else {
            before.consumed
        },
    ensures
        ({
            let batches = before.batches@.insert(start, batch);
            let end = chain_end(batches, resumed);
            disjoint_up_to(batches, end) ==> !covered(batches, end as int)
        }),
{
    let held = before.batches@;
    let batches = held.insert(start, batch);
    let end = chain_end(batches, resumed);
    lemma_chain_advances(batches, resumed);
    lemma_chain_stops(batches, resumed);
    if disjoint_up_to(batches, end) && covered(batches, end as int) {
        let k = choose|k: u64| #[trigger]
            batches.contains_key(k) && k <= end < batches[k].next_shred_index;
        assert(k != end) by {
            if k == end {
                lemma_chain_advances(batches, batches[end].next_shred_index);
            }
        }
        if end != resumed {
            let last = lemma_chain_last(batches, resumed);
            assert(batches.contains_key(last) && batches.contains_key(k));
        } else if start == end {
            assert(batches.contains_key(start));
        } else if start > end || held.contains_key(start) {
            assert(disjoint_up_to(held, end)) by {
                assert forall|a: u64, b: u64|
                    #![trigger held.contains_key(a), held.contains_key(b)]
                    held.contains_key(a) && held.contains_key(b) && a < b <= end implies
                    held[a].next_shred_index <= b by {
                    assert(batches.contains_key(a) && batches.contains_key(b));
                }
            }
            assert(held.contains_key(k) && k <= end < held[k].next_shred_index);
            assert(covered(held, end as int));
        } else {
            assert(covered(held, start as int));
            let j = choose|j: u64| #[trigger]
                held.contains_key(j) && j <= start < held[j].next_shred_index;
            assert(batches.contains_key(j) && batches.contains_key(start));
        }
    }
}

/// Following the batches from the end of a path leads nowhere.
proof fn lemma_chain_stops(batches: Map<u64, CachedEntryBatch>, at: u64)
    ensures
        chain_end(batches, chain_end(batches, at)) == chain_end(batches, at),
    decreases u64::MAX - at,
{
    if batches.contains_key(at) && batches[at].next_shred_index > at {
        lemma_chain_stops(batches, batches[at].next_shred_index);
    }
}

} // verus!
