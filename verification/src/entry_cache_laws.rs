//! What producers and consumers of the entry cache can rely on.
use crate::entry_cache::{CachedEntryBatch, CachedSlotEntries, EntryCache};
use vstd::prelude::*;

verus! {

/// The last of a non-empty run ends at or behind each of its shreds.
proof fn lemma_run_covers(batches: Map<u64, CachedEntryBatch>, lower: int, expected: u64)
    requires
        crate::entry_cache::runs_add_up(batches),
    ensures
        ({
            let keys = crate::entry_cache::run_keys(batches, lower, expected);
            let end = crate::entry_cache::run_end(batches, keys, expected);
            &&& expected <= end
            &&& forall|i: int|
                expected <= i < end ==> #[trigger] crate::entry_cache::covered(batches, i)
            &&& forall|n: int| 0 <= n < keys.len() ==> batches.contains_key(#[trigger] keys[n])
        }),
    decreases u64::MAX + 1 - lower,
{
    let keys = crate::entry_cache::run_keys(batches, lower, expected);
    if keys.len() > 0 {
        let next = batches[expected].next_shred_index;
        let rest = crate::entry_cache::run_keys(batches, expected + 1, next);
        lemma_run_covers(batches, expected + 1, next);
        assert(keys =~= seq![expected] + rest);
        if rest.len() > 0 {
            assert(keys.last() == rest.last());
        } else {
            assert(keys.last() == expected);
        }
        let end = crate::entry_cache::run_end(batches, keys, expected);
        assert(end == crate::entry_cache::run_end(batches, rest, next));
        assert forall|i: int| expected <= i < end implies #[trigger] crate::entry_cache::covered(
            batches,
            i,
        ) by {
            if i < next {
                assert(batches.contains_key(expected) && expected <= i
                    < batches[expected].next_shred_index);
            }
        }
        assert forall|n: int| 0 <= n < keys.len() implies batches.contains_key(
            #[trigger] keys[n],
        ) by {
            if n > 0 {
                assert(keys[n] == rest[n - 1]);
            }
        }
    }
}

/// A read from shred `start` stands for exactly the shreds from `start` up to the one it
/// reports as next, and each of them is cached: a consumer that advances by the reported number
/// of shreds neither skips nor repeats one.
pub proof fn law_read_counts_its_shreds(
    batches: Map<u64, CachedEntryBatch>,
    consumed: u64,
    start: u64,
)
    requires
        crate::entry_cache::runs_add_up(batches),
    ensures
        crate::entry_cache::readable(batches, consumed, start) matches Some((entries, shreds, next))
            ==> {
            &&& start <= next
            &&& start + shreds == next
            &&& forall|i: int|
                start <= i < next ==> #[trigger] crate::entry_cache::covered(batches, i)
        },
{
    if start < consumed {
        if exists|key: u64| crate::entry_cache::starts_inside(batches, start, key) {
            let key = choose|key: u64| crate::entry_cache::starts_inside(batches, start, key);
            let next = batches[key].next_shred_index;
            lemma_run_covers(batches, next as int, next);
            let keys = crate::entry_cache::run_keys(batches, next as int, next);
            let end = crate::entry_cache::run_end(batches, keys, next);
            assert forall|i: int| start <= i < end implies #[trigger] crate::entry_cache::covered(
                batches,
                i,
            ) by {
                if i < next {
                    assert(batches.contains_key(key) && key <= i < batches[key].next_shred_index);
                }
            }
        } else {
            lemma_run_covers(batches, start as int, start);
        }
    }
}

/// A read from the first shred of a cached batch, once every shred before it and at least one of
/// its own has arrived, gives back the entries of that batch first, as they were inserted.
pub proof fn law_read_gives_back_batch(
    batches: Map<u64, CachedEntryBatch>,
    consumed: u64,
    start: u64,
)
    requires
        crate::entry_cache::runs_add_up(batches),
        batches.contains_key(start),
        batches[start].num_shreds > 0,
        start < consumed,
    ensures
        crate::entry_cache::readable(batches, consumed, start) matches Some((entries, shreds, next))
            && {
            let own = crate::entry::entry_views(batches[start].entries@);
            &&& own.len() <= entries.len()
            &&& entries.subrange(0, own.len() as int) == own
        },
{
    assert(crate::entry_cache::starts_inside(batches, start, start));
    let key = choose|key: u64| crate::entry_cache::starts_inside(batches, start, key);
    assert(key == start);
    let next = batches[key].next_shred_index;
    let keys = crate::entry_cache::run_keys(batches, next as int, next);
    let own = crate::entry::entry_views(batches[start].entries@);
    let entries = own + crate::entry_cache::gathered(batches, keys);
    assert(entries.subrange(0, own.len() as int) =~= own);
}

/// `consumed` is the first shred that is missing, as long as no batch starts inside another one:
/// every shred before it is there, and it is not. Every insertion keeps a slot valid, so this holds
/// whatever was inserted or overwritten, in whatever order.
pub proof fn law_consumed_is_first_missing(slot: CachedSlotEntries)
    requires
        slot.valid(),
        crate::entry_cache::disjoint(slot.batches@),
    ensures
        forall|i: int| 0 <= i < slot.consumed ==> #[trigger] crate::entry_cache::covered(
            slot.batches@,
            i,
        ),
        !crate::entry_cache::covered(slot.batches@, slot.consumed as int),
{
}

/// `consumed` depends on the batches that are held alone, not on the order in which they came or
/// were overwritten, as long as no batch starts inside another one.
pub proof fn law_consumed_follows_from_batches(one: CachedSlotEntries, other: CachedSlotEntries)
    requires
        one.valid(),
        other.valid(),
        one.batches@ == other.batches@,
        crate::entry_cache::disjoint(one.batches@),
    ensures
        one.consumed == other.consumed,
{
    law_consumed_is_first_missing(one);
    law_consumed_is_first_missing(other);
    if one.consumed < other.consumed {
        assert(crate::entry_cache::covered(other.batches@, one.consumed as int));
    } else if other.consumed < one.consumed {
        assert(crate::entry_cache::covered(one.batches@, other.consumed as int));
    }
}

/// Where no batch reaches over `expected`, reading on from there follows the path from there.
proof fn lemma_run_follows_path(batches: Map<u64, CachedEntryBatch>, lower: int, expected: u64)
    requires
        crate::entry_cache::runs_add_up(batches),
        crate::entry_cache::disjoint(batches),
        lower <= expected,
        forall|k: u64| #[trigger] batches.contains_key(k) ==> !(lower <= k < expected),
    ensures
        crate::entry_cache::run_end(
            batches,
            crate::entry_cache::run_keys(batches, lower, expected),
            expected,
        ) == crate::entry_cache::chain_end(batches, expected),
    decreases u64::MAX + 1 - lower,
{
    let keys = crate::entry_cache::run_keys(batches, lower, expected);
    if batches.contains_key(expected) {
        let next = batches[expected].next_shred_index;
        let rest = crate::entry_cache::run_keys(batches, expected + 1, next);
        assert(keys =~= seq![expected] + rest);
        if next > expected {
            assert forall|k: u64| #[trigger] batches.contains_key(k) implies !(expected + 1 <= k
                < next) by {
                assert(batches.contains_key(expected));
            }
            lemma_run_follows_path(batches, expected + 1, next);
        } else {
            assert(rest =~= seq![]);
        }
        if rest.len() > 0 {
            assert(keys.last() == rest.last());
        } else {
            assert(keys.last() == expected);
        }
    }
}

/// A path from a place that no batch reaches over leads to the first missing shred.
proof fn lemma_path_to_first_missing(batches: Map<u64, CachedEntryBatch>, at: u64, end: u64)
    requires
        crate::entry_cache::disjoint(batches),
        at <= end,
        forall|i: int| at <= i < end ==> #[trigger] crate::entry_cache::covered(batches, i),
        !crate::entry_cache::covered(batches, end as int),
        forall|k: u64| #[trigger]
            batches.contains_key(k) && k < at ==> batches[k].next_shred_index <= at,
    ensures
        crate::entry_cache::chain_end(batches, at) == end,
    decreases end - at,
{
    if at < end {
        assert(crate::entry_cache::covered(batches, at as int));
        let k = choose|k: u64| #[trigger]
            batches.contains_key(k) && k <= at < batches[k].next_shred_index;
        assert(k == at);
        let next = batches[at].next_shred_index;
        assert(next <= end) by {
            if next > end {
                assert(batches.contains_key(at) && at <= end < batches[at].next_shred_index);
            }
        }
        assert forall|j: u64| #[trigger] batches.contains_key(j) && j < next implies
            batches[j].next_shred_index <= next by {
            assert(batches.contains_key(at));
        }
        lemma_path_to_first_missing(batches, next, end);
    } else if batches.contains_key(at) && batches[at].next_shred_index > at {
        assert(crate::entry_cache::covered(batches, at as int));
    }
}

/// A read is answered exactly for the shreds before `consumed`, and then reaches up to there, as
/// long as no batch starts inside another one: nothing that is there without a gap is held back.
pub proof fn law_read_reaches_consumed(slot: CachedSlotEntries, start: u64)
    requires
        slot.valid(),
        crate::entry_cache::disjoint(slot.batches@),
    ensures
        crate::entry_cache::readable(slot.batches@, slot.consumed, start) is Some <==> start
            < slot.consumed,
        crate::entry_cache::readable(slot.batches@, slot.consumed, start) matches Some(
            (entries, shreds, next),
        ) ==> next == slot.consumed && start + shreds == slot.consumed,
{
    let batches = slot.batches@;
    law_consumed_is_first_missing(slot);
    if start < slot.consumed {
        assert(crate::entry_cache::covered(batches, start as int));
        let k = choose|k: u64| #[trigger]
            batches.contains_key(k) && k <= start < batches[k].next_shred_index;
        assert(crate::entry_cache::is_last_start(batches, start, k));
        assert(crate::entry_cache::starts_inside(batches, start, k));
        let key = choose|key: u64| crate::entry_cache::starts_inside(batches, start, key);
        let next = batches[key].next_shred_index;
        assert(next <= slot.consumed) by {
            if next > slot.consumed {
                assert(batches.contains_key(key) && key <= slot.consumed
                    < batches[key].next_shred_index);
            }
        }
        assert forall|j: u64| #[trigger] batches.contains_key(j) && j < next implies
            batches[j].next_shred_index <= next by {
            assert(batches.contains_key(key));
        }
        lemma_path_to_first_missing(batches, next, slot.consumed);
        lemma_run_follows_path(batches, next as int, next);
    }
}

/// An insertion leaves its slot in the cache and no more slots than the cache may hold. One other
/// slot goes if the slot is new and the cache is full, none otherwise, and the slots that stay are
/// as before.
pub proof fn law_insertion_makes_room(
    slots: Map<u64, CachedSlotEntries>,
    max_slots: usize,
    slot: u64,
    left: Map<u64, CachedSlotEntries>,
    entries: CachedSlotEntries,
)
    requires
        slots.dom().finite(),
        max_slots > 0,
        slots.dom().len() <= max_slots,
        crate::entry_cache::slots_with_room(slots, max_slots, slot, left),
    ensures
        ({
            let after = left.insert(slot, entries);
            let full = slots.dom().len() == max_slots && !slots.contains_key(slot);
            &&& after.contains_key(slot)
            &&& after.dom().len() <= max_slots
            &&& full ==> exists|gone: u64|
                #![trigger slots.contains_key(gone)]
                gone != slot && slots.contains_key(gone) && forall|k: u64|
                    k != slot ==> (#[trigger] after.contains_key(k) <==> slots.contains_key(k) && k
                        != gone)
            &&& !full ==> forall|k: u64|
                k != slot ==> (#[trigger] after.contains_key(k) <==> slots.contains_key(k))
            &&& forall|k: u64| k != slot && #[trigger] after.contains_key(k) ==> after[k] == slots[k]
        }),
{
    let after = left.insert(slot, entries);
    assert(after.dom() =~= left.dom().insert(slot));
    if slots.dom().len() >= max_slots && !slots.contains_key(slot) {
        let oldest = choose|oldest: u64| #[trigger]
            crate::entry_cache::is_oldest(slots, oldest) && left == slots.remove(oldest);
        assert(left.dom() =~= slots.dom().remove(oldest));
        assert(slots.contains_key(oldest));
        assert(oldest != slot && forall|k: u64|
            k != slot ==> (#[trigger] after.contains_key(k) <==> slots.contains_key(k) && k
                != oldest));
    } else if slots.contains_key(slot) {
        assert(after.dom() =~= slots.dom());
    }
}

/// The entries of the batches at `keys` are those of the first one, followed by the others'.
proof fn lemma_gathered_front(batches: Map<u64, CachedEntryBatch>, keys: Seq<u64>)
    requires
        keys.len() > 0,
    ensures
        crate::entry_cache::gathered(batches, keys) == crate::entry::entry_views(
            batches[keys[0]].entries@,
        ) + crate::entry_cache::gathered(batches, keys.drop_first()),
        crate::entry_cache::shred_count(batches, keys) == batches[keys[0]].num_shreds
            + crate::entry_cache::shred_count(batches, keys.drop_first()),
    decreases keys.len(),
{
    let first = crate::entry::entry_views(batches[keys[0]].entries@);
    let rest = keys.drop_first();
    if keys.len() == 1 {
        assert(keys.drop_last() =~= seq![]);
        assert(rest =~= seq![]);
        assert(crate::entry_cache::gathered(batches, keys.drop_last()) =~= seq![]);
        assert(crate::entry_cache::gathered(batches, keys) =~= first);
        assert(first + crate::entry_cache::gathered(batches, rest) =~= first);
    } else {
        let shorter = keys.drop_last();
        lemma_gathered_front(batches, shorter);
        assert(shorter.drop_first() =~= rest.drop_last());
        assert(rest.last() == keys.last());
        let last = crate::entry::entry_views(batches[keys.last()].entries@);
        assert((first + crate::entry_cache::gathered(batches, rest.drop_last())) + last =~= first
            + (crate::entry_cache::gathered(batches, rest.drop_last()) + last));
    }
}

/// Where nothing starts before `expected` any more, it makes no difference from where on reading
/// looks for the batch at `expected`.
proof fn lemma_run_start(batches: Map<u64, CachedEntryBatch>, lower: int, expected: u64)
    requires
        lower <= expected,
        forall|k: u64| #[trigger] batches.contains_key(k) ==> !(lower <= k < expected),
    ensures
        crate::entry_cache::run_keys(batches, lower, expected) == crate::entry_cache::run_keys(
            batches,
            expected as int,
            expected,
        ),
{
}

/// A read consists of the batches one behind the other, in the order of their shreds: the entries of
/// the batch that holds shred `start` come first, in their own order, and what a read from the shred
/// behind that batch gives comes next. The last batch of a read may be followed by one that stands
/// for no shreds.
pub proof fn law_read_joins_batches_in_order(slot: CachedSlotEntries, start: u64, key: u64)
    requires
        slot.valid(),
        crate::entry_cache::disjoint(slot.batches@),
        start < slot.consumed,
        slot.batches@.contains_key(key),
        key <= start < slot.batches@[key].next_shred_index,
    ensures
        ({
            let batches = slot.batches@;
            let own = crate::entry::entry_views(batches[key].entries@);
            let next = batches[key].next_shred_index;
            &&& crate::entry_cache::readable(batches, slot.consumed, start) matches Some(read)
            &&& next <= slot.consumed
            &&& read.1 == slot.consumed - start
            &&& read.2 == slot.consumed
            &&& next < slot.consumed ==> {
                &&& crate::entry_cache::readable(batches, slot.consumed, next) matches Some(rest)
                &&& read.0 == own + rest.0
            }
            &&& next == slot.consumed ==> read.0 == if batches.contains_key(next) {
                own + crate::entry::entry_views(batches[next].entries@)
            } else {
                own
            }
        }),
{
    let batches = slot.batches@;
    let own = crate::entry::entry_views(batches[key].entries@);
    let next = batches[key].next_shred_index;
    let keys = crate::entry_cache::run_keys(batches, next as int, next);
    law_read_reaches_consumed(slot, start);
    law_consumed_is_first_missing(slot);
    assert(crate::entry_cache::is_last_start(batches, start, key));
    assert(crate::entry_cache::starts_inside(batches, start, key));
    let found = choose|k: u64| crate::entry_cache::starts_inside(batches, start, k);
    assert(found == key);
    assert(next <= slot.consumed) by {
        if next > slot.consumed {
            assert(crate::entry_cache::covered(batches, slot.consumed as int));
        }
    }
    if next < slot.consumed {
        law_read_reaches_consumed(slot, next);
        assert(crate::entry_cache::covered(batches, next as int));
        let k = choose|k: u64| #[trigger]
            batches.contains_key(k) && k <= next < batches[k].next_shred_index;
        assert(k == next) by {
            assert(batches.contains_key(key));
            if k < next {
                if k < key {
                    assert(batches[k].next_shred_index <= key);
                } else if k > key {
                    assert(batches[key].next_shred_index <= k);
                }
            }
        }
        assert(crate::entry_cache::is_last_start(batches, next, next));
        assert(crate::entry_cache::starts_inside(batches, next, next));
        let there = choose|k: u64| crate::entry_cache::starts_inside(batches, next, k);
        assert(there == next);
        let behind = batches[next].next_shred_index;
        let rest = crate::entry_cache::run_keys(batches, next + 1, behind);
        assert(keys == seq![next] + rest);
        assert forall|j: u64| #[trigger] batches.contains_key(j) implies !(next + 1 <= j
            < behind) by {
            assert(batches.contains_key(next));
        }
        lemma_run_start(batches, next + 1, behind);
        lemma_gathered_front(batches, keys);
        assert(keys[0] == next);
        assert(keys.drop_first() =~= rest);
    } else {
        let rest = crate::entry_cache::run_keys(
            batches,
            next + 1,
            batches[next].next_shred_index,
        );
        if batches.contains_key(next) {
            assert(batches[next].next_shred_index == next) by {
                if batches[next].next_shred_index > next {
                    assert(crate::entry_cache::covered(batches, next as int));
                }
            }
            assert(rest =~= seq![]);
            assert(keys =~= seq![next]);
            lemma_gathered_front(batches, keys);
            assert(keys.drop_first() =~= seq![]);
            let last = crate::entry::entry_views(batches[next].entries@);
            assert(last + crate::entry_cache::gathered(batches, keys.drop_first()) =~= last);
        } else {
            assert(keys =~= seq![]);
            assert(own + crate::entry_cache::gathered(batches, keys) =~= own);
        }
    }
}

/// Where in a read the entries of a batch start that begins at shred `key`, at or behind `start`.
pub open spec fn place_in_read(slot: CachedSlotEntries, start: u64, key: u64) -> int {
    match crate::entry_cache::readable(slot.batches@, slot.consumed, start) {
        Some(whole) => match crate::entry_cache::readable(slot.batches@, slot.consumed, key) {
            Some(from_there) => whole.0.len() - from_there.0.len(),
            None => whole.0.len() as int,
        },
        None => 0,
    }
}

/// A read from `start` holds the entries of every batch that begins behind it and before `consumed`,
/// in their own order, and of two such batches those of the one with the lower first shred come
/// first.
pub proof fn law_read_keeps_order_of_shreds(slot: CachedSlotEntries, start: u64, j: u64, k: u64)
    requires
        slot.valid(),
        crate::entry_cache::disjoint(slot.batches@),
        slot.batches@.contains_key(j),
        slot.batches@.contains_key(k),
        start <= j < k < slot.consumed,
        slot.batches@[j].num_shreds > 0,
        slot.batches@[k].num_shreds > 0,
    ensures
        ({
            let read = crate::entry_cache::readable(slot.batches@, slot.consumed, start)->Some_0.0;
            let of_j = crate::entry::entry_views(slot.batches@[j].entries@);
            let of_k = crate::entry::entry_views(slot.batches@[k].entries@);
            let at_j = place_in_read(slot, start, j);
            let at_k = place_in_read(slot, start, k);
            &&& crate::entry_cache::readable(slot.batches@, slot.consumed, start) is Some
            &&& 0 <= at_j
            &&& at_j + of_j.len() <= at_k
            &&& at_k + of_k.len() <= read.len()
            &&& read.subrange(at_j, at_j + of_j.len()) == of_j
            &&& read.subrange(at_k, at_k + of_k.len()) == of_k
        }),
{
    let batches = slot.batches@;
    let read = crate::entry_cache::readable(batches, slot.consumed, start)->Some_0.0;
    let from_j = crate::entry_cache::readable(batches, slot.consumed, j)->Some_0.0;
    let from_k = crate::entry_cache::readable(batches, slot.consumed, k)->Some_0.0;
    let of_j = crate::entry::entry_views(batches[j].entries@);
    let of_k = crate::entry::entry_views(batches[k].entries@);
    law_read_reaches_consumed(slot, start);
    law_read_reaches_consumed(slot, j);
    law_read_reaches_consumed(slot, k);
    lemma_read_ends_with(slot, start, j);
    lemma_read_ends_with(slot, start, k);
    let next = batches[j].next_shred_index;
    law_read_joins_batches_in_order(slot, j, j);
    assert(next <= k);
    lemma_read_ends_with(slot, next, k);
    law_read_reaches_consumed(slot, next);
    let at_j = read.len() - from_j.len();
    let at_k = read.len() - from_k.len();
    assert(from_j.subrange(0, of_j.len() as int) =~= of_j);
    assert(read.subrange(at_j, read.len() as int).subrange(0, of_j.len() as int) =~= read.subrange(
        at_j,
        at_j + of_j.len(),
    ));
    law_read_joins_batches_in_order(slot, k, k);
    assert(from_k.subrange(0, of_k.len() as int) =~= of_k);
    assert(read.subrange(at_k, read.len() as int).subrange(0, of_k.len() as int) =~= read.subrange(
        at_k,
        at_k + of_k.len(),
    ));
}

/// A read ends with what a read from a later batch gives.
proof fn lemma_read_ends_with(slot: CachedSlotEntries, start: u64, key: u64)
    requires
        slot.valid(),
        crate::entry_cache::disjoint(slot.batches@),
        slot.batches@.contains_key(key),
        start <= key < slot.consumed,
        slot.batches@[key].num_shreds > 0,
    ensures
        ({
            let batches = slot.batches@;
            let read = crate::entry_cache::readable(batches, slot.consumed, start)->Some_0.0;
            let later = crate::entry_cache::readable(batches, slot.consumed, key)->Some_0.0;
            &&& later.len() <= read.len()
            &&& read.subrange(read.len() - later.len(), read.len() as int) == later
        }),
    decreases key - start,
{
    let batches = slot.batches@;
    let read = crate::entry_cache::readable(batches, slot.consumed, start)->Some_0.0;
    let later = crate::entry_cache::readable(batches, slot.consumed, key)->Some_0.0;
    if start == key {
        assert(read.subrange(0, read.len() as int) =~= read);
    } else {
        law_consumed_is_first_missing(slot);
        assert(crate::entry_cache::covered(batches, start as int));
        let k = choose|k: u64| #[trigger]
            batches.contains_key(k) && k <= start < batches[k].next_shred_index;
        law_read_joins_batches_in_order(slot, start, k);
        let next = batches[k].next_shred_index;
        assert(next <= key);
        lemma_read_ends_with(slot, next, key);
        let rest = crate::entry_cache::readable(batches, slot.consumed, next)->Some_0.0;
        let own = crate::entry::entry_views(batches[k].entries@);
        assert(read == own + rest);
        assert(read.subrange(read.len() - later.len(), read.len() as int) =~= rest.subrange(
            rest.len() - later.len(),
            rest.len() as int,
        ));
    }
}

/// The batches from shred `start` on, with or without gaps, are the one with the lowest first shred
/// at or behind `start`, followed by those behind that shred: their entries and their numbers of
/// shreds add up in that order. There are none where no batch starts there.
pub proof fn law_tail_goes_up(
    batches: Map<u64, CachedEntryBatch>,
    start: u64,
    keys: Seq<u64>,
    later: Seq<u64>,
)
    requires
        crate::entry_cache::is_tail(batches, start, keys),
    ensures
        keys.len() == 0 ==> {
            &&& crate::entry_cache::gathered(batches, keys) == Seq::<crate::entry::EntryView>::empty()
            &&& crate::entry_cache::shred_count(batches, keys) == 0
            &&& forall|k: u64| #[trigger] batches.contains_key(k) ==> k < start
        },
        keys.len() > 0 ==> {
            let first = keys[0];
            &&& batches.contains_key(first)
            &&& start <= first
            &&& forall|k: u64| #[trigger] batches.contains_key(k) && start <= k ==> first <= k
            &&& first < u64::MAX && crate::entry_cache::is_tail(batches, (first + 1) as u64, later)
                ==> {
                &&& crate::entry_cache::gathered(batches, keys) == crate::entry::entry_views(
                    batches[first].entries@,
                ) + crate::entry_cache::gathered(batches, later)
                &&& crate::entry_cache::shred_count(batches, keys) == batches[first].num_shreds
                    + crate::entry_cache::shred_count(batches, later)
            }
        },
{
    if keys.len() == 0 {
        assert forall|k: u64| #[trigger] batches.contains_key(k) implies k < start by {
            if k >= start {
                assert(keys.contains(k));
            }
        }
    } else {
        let first = keys[0];
        assert(keys.contains(first));
        assert forall|k: u64| #[trigger] batches.contains_key(k) && start <= k implies first
            <= k by {
            assert(keys.contains(k));
            let i = choose|i: int| 0 <= i < keys.len() && keys[i] == k;
            if i > 0 {
                assert(keys[0] < keys[i]);
            }
        }
        if first < u64::MAX && crate::entry_cache::is_tail(batches, (first + 1) as u64, later) {
            let rest = keys.drop_first();
            lemma_gathered_front(batches, keys);
            assert forall|k: u64| rest.contains(k) <==> later.contains(k) by {
                if rest.contains(k) {
                    let i = choose|i: int| 0 <= i < rest.len() && rest[i] == k;
                    assert(keys[i + 1] == k);
                    assert(keys.contains(k));
                    assert(keys[0] < keys[i + 1]);
                }
                if later.contains(k) {
                    assert(keys.contains(k));
                    let i = choose|i: int| 0 <= i < keys.len() && keys[i] == k;
                    assert(rest[i - 1] == k);
                }
            }
            lemma_same_ascending(rest, later);
        }
    }
}

/// Ascending sequences with the same members are equal.
proof fn lemma_same_ascending(one: Seq<u64>, other: Seq<u64>)
    requires
        crate::ordered::ascending(one),
        crate::ordered::ascending(other),
        forall|k: u64| one.contains(k) <==> other.contains(k),
    ensures
        one == other,
    decreases one.len(),
{
    if one.len() == 0 {
        if other.len() > 0 {
            assert(other.contains(other[0]));
        }
        assert(one =~= other);
    } else {
        assert(one.contains(one[0]));
        assert(other.contains(one[0]));
        let i = choose|i: int| 0 <= i < other.len() && other[i] == one[0];
        assert(other.contains(other[0]));
        let j = choose|j: int| 0 <= j < one.len() && one[j] == other[0];
        assert(one[0] == other[0]) by {
            if i > 0 {
                assert(other[0] < other[i]);
                if j > 0 {
                    assert(one[0] < one[j]);
                }
            }
        }
        let a = one.drop_first();
        let b = other.drop_first();
        assert forall|k: u64| a.contains(k) <==> b.contains(k) by {
            if a.contains(k) {
                let m = choose|m: int| 0 <= m < a.len() && a[m] == k;
                assert(one[m + 1] == k);
                assert(one.contains(k));
                assert(one[0] < one[m + 1]);
                let n = choose|n: int| 0 <= n < other.len() && other[n] == k;
                assert(b[n - 1] == k);
            }
            if b.contains(k) {
                let m = choose|m: int| 0 <= m < b.len() && b[m] == k;
                assert(other[m + 1] == k);
                assert(other.contains(k));
                assert(other[0] < other[m + 1]);
                let n = choose|n: int| 0 <= n < one.len() && one[n] == k;
                assert(a[n - 1] == k);
            }
        }
        lemma_same_ascending(a, b);
        assert(one =~= seq![one[0]] + a);
        assert(other =~= seq![other[0]] + b);
    }
}

/// The slot that makes room for a new one is the one that was accessed before all others; every
/// other slot stays, as it was.
pub proof fn law_least_recently_used_goes(
    slots: Map<u64, CachedSlotEntries>,
    max_slots: usize,
    slot: u64,
    left: Map<u64, CachedSlotEntries>,
    gone: u64,
)
    requires
        crate::entry_cache::slots_with_room(slots, max_slots, slot, left),
        slots.contains_key(gone),
        !left.contains_key(gone),
    ensures
        !slots.contains_key(slot),
        slots.dom().len() >= max_slots,
        forall|k: u64| #[trigger]
            slots.contains_key(k) && k != gone ==> slots[gone].last_accessed
                < slots[k].last_accessed && left.contains_key(k) && left[k] == slots[k],
{
}

/// A slot is there, and the batches that it holds for other first shreds are as before, after an
/// insertion; the inserted batch stands at its first shred, as it was inserted. The last index that
/// is kept is the highest one reported.
pub proof fn law_insertion_keeps_other_batches(
    before: CachedSlotEntries,
    after: CachedSlotEntries,
    start: u64,
    batch: CachedEntryBatch,
    last_index: Option<u64>,
    access_time: u64,
)
    requires
        crate::entry_cache::slot_after_insert(
            before,
            after,
            start,
            batch,
            last_index,
            access_time,
        ),
    ensures
        after.batches@.contains_key(start),
        after.batches@[start] == batch,
        forall|k: u64|
            k != start ==> (#[trigger] after.batches@.contains_key(k)
                <==> before.batches@.contains_key(k)) && after.batches@[k] == before.batches@[k],
        after.last_accessed == access_time,
        last_index is None ==> after.last_index == before.last_index,
        last_index matches Some(reported) ==> {
            &&& after.last_index matches Some(last)
            &&& last >= reported
            &&& before.last_index matches Some(known) ==> last >= known
            &&& last == reported || Some(last) == before.last_index
        },
{
}

/// The highest of the reported last indexes counts, whatever the order of the reports.
pub proof fn law_highest_last_index_counts(known: Option<u64>, one: u64, other: u64)
    ensures
        ({
            let last = crate::entry_cache::later_last(known, one);
            &&& last >= one
            &&& known matches Some(earlier) ==> last >= earlier
            &&& last == one || Some(last) == known
            &&& crate::entry_cache::later_last(Some(last), other) == crate::entry_cache::later_last(
                Some(crate::entry_cache::later_last(known, other)),
                one,
            )
        }),
{
}

/// A slot is full exactly where its last index is known and each shred up to that one, but not the
/// next one, is there, as long as no batch starts inside another one.
pub proof fn law_full_slot_has_every_shred(slot: CachedSlotEntries)
    requires
        slot.valid(),
        crate::entry_cache::disjoint(slot.batches@),
    ensures
        slot.last_index is None ==> !slot.full(),
        slot.last_index matches Some(last) ==> (slot.full() <==> {
            &&& forall|i: int| 0 <= i <= last ==> #[trigger] crate::entry_cache::covered(
                slot.batches@,
                i,
            )
            &&& !crate::entry_cache::covered(slot.batches@, last + 1)
        }),
{
    law_consumed_is_first_missing(slot);
    if let Some(last) = slot.last_index {
        if (forall|i: int| 0 <= i <= last ==> #[trigger] crate::entry_cache::covered(
            slot.batches@,
            i,
        )) && !crate::entry_cache::covered(slot.batches@, last + 1) {
            if slot.consumed <= last {
                assert(crate::entry_cache::covered(slot.batches@, slot.consumed as int));
            }
            if slot.consumed > last + 1 {
                assert(crate::entry_cache::covered(slot.batches@, last + 1));
            }
        }
    }
}

/// A shred is there exactly where some batch begins at or before it and ends behind it.
pub proof fn law_batch_covers_its_shreds(batches: Map<u64, CachedEntryBatch>, i: int)
    requires
        crate::entry_cache::runs_add_up(batches),
    ensures
        crate::entry_cache::covered(batches, i) <==> exists|k: u64| #[trigger]
            batches.contains_key(k) && k <= i < k + batches[k].num_shreds,
{
    if crate::entry_cache::covered(batches, i) {
        let k = choose|k: u64| #[trigger]
            batches.contains_key(k) && k <= i < batches[k].next_shred_index;
        assert(batches.contains_key(k) && k <= i < k + batches[k].num_shreds);
    }
    if exists|k: u64| #[trigger]
        batches.contains_key(k) && k <= i < k + batches[k].num_shreds {
        let k = choose|k: u64| #[trigger]
            batches.contains_key(k) && k <= i < k + batches[k].num_shreds;
        assert(batches.contains_key(k) && k <= i < batches[k].next_shred_index);
    }
}

/// The slot was accessed after every other one.
pub open spec fn is_newest(slots: Map<u64, CachedSlotEntries>, slot: u64) -> bool {
    &&& slots.contains_key(slot)
    &&& forall|k: u64| #[trigger]
        slots.contains_key(k) && k != slot ==> slots[k].last_accessed < slots[slot].last_accessed
}

/// A read that finds something counts as a hit and makes its slot the one accessed last; it changes
/// no contents, and no other slot. A read that finds nothing counts as a miss and changes nothing
/// else.
pub proof fn law_reads_refresh_their_slot(
    before: EntryCache,
    after: EntryCache,
    slot: u64,
    start: u64,
    read: crate::entry_cache::ReadView,
    other: u64,
)
    requires
        before.valid(),
        before.hits < u64::MAX,
        before.misses < u64::MAX,
        crate::entry_cache::slot_read(before, after, slot, start, read),
    ensures
        read is Some ==> {
            let held = before.slots@[slot];
            let kept = after.slots@[slot];
            &&& before.slots@.contains_key(slot)
            &&& after.hits == before.hits + 1
            &&& after.misses == before.misses
            &&& is_newest(after.slots@, slot)
            &&& kept.batches@ == held.batches@
            &&& kept.consumed == held.consumed
            &&& kept.last_index == held.last_index
            &&& other != slot ==> (after.slots@.contains_key(other) <==> before.slots@.contains_key(
                other,
            )) && after.slots@[other] == before.slots@[other]
        },
        read is None ==> {
            &&& after.hits == before.hits
            &&& after.misses == before.misses + 1
            &&& after.slots@ == before.slots@
        },
        !before.slots@.contains_key(slot) ==> read is None,
{
}

/// What a read through the cache is answered where no batch of the slot starts inside another one:
/// something exactly for the shreds before the first missing one; then the number of shreds up to
/// there, whether the slot is full, and the entries of the batch that holds `start` before those of
/// the next batches.
pub proof fn law_cache_reads_up_to_first_missing(
    before: EntryCache,
    after: EntryCache,
    slot: u64,
    start: u64,
    read: crate::entry_cache::ReadView,
    key: u64,
)
    requires
        before.valid(),
        before.slots@.contains_key(slot),
        crate::entry_cache::disjoint(before.slots@[slot].batches@),
        crate::entry_cache::slot_read(before, after, slot, start, read),
    ensures
        ({
            let held = before.slots@[slot];
            &&& read is Some <==> start < held.consumed
            &&& forall|i: int| 0 <= i < held.consumed ==> #[trigger] crate::entry_cache::covered(
                held.batches@,
                i,
            )
            &&& !crate::entry_cache::covered(held.batches@, held.consumed as int)
            &&& read matches Some((entries, shreds, full)) ==> {
                let own = crate::entry::entry_views(held.batches@[key].entries@);
                &&& start + shreds == held.consumed
                &&& full == (held.last_index matches Some(last) && held.consumed == last + 1)
                &&& held.batches@.contains_key(key) && key <= start
                    < held.batches@[key].next_shred_index ==> {
                    &&& own.len() <= entries.len()
                    &&& entries.subrange(0, own.len() as int) == own
                }
            }
        }),
{
    let held = before.slots@[slot];
    law_consumed_is_first_missing(held);
    law_read_reaches_consumed(held, start);
    if read is Some && held.batches@.contains_key(key) && key <= start
        < held.batches@[key].next_shred_index {
        law_read_joins_batches_in_order(held, start, key);
        let own = crate::entry::entry_views(held.batches@[key].entries@);
        let entries = read->Some_0.0;
        assert(entries.subrange(0, own.len() as int) =~= own);
    }
}

/// An insertion makes its slot the one accessed last, and counts neither as a hit nor as a miss.
/// Where another slot goes, it is the one accessed before all others.
pub proof fn law_insertions_refresh_their_slot(
    before: EntryCache,
    after: EntryCache,
    slot: u64,
    start: u64,
    batch: CachedEntryBatch,
    last_index: Option<u64>,
    left: Map<u64, CachedSlotEntries>,
    held: CachedSlotEntries,
    other: u64,
)
    requires
        before.valid(),
        crate::entry_cache::batch_inserted(
            before,
            after,
            slot,
            start,
            batch,
            last_index,
            left,
            held,
        ),
    ensures
        is_newest(after.slots@, slot),
        after.hits == before.hits,
        after.misses == before.misses,
        after.slots@[slot].batches@.contains_key(start),
        after.slots@[slot].batches@[start] == batch,
        before.slots@.contains_key(slot) ==> forall|k: u64|
            k != start ==> (#[trigger] after.slots@[slot].batches@.contains_key(k)
                <==> before.slots@[slot].batches@.contains_key(k)),
        before.slots@.contains_key(slot) ==> (other != slot ==> (after.slots@.contains_key(other)
            <==> before.slots@.contains_key(other))),
        before.slots@.contains_key(other) && other != slot && !after.slots@.contains_key(other)
            ==> forall|k: u64| #[trigger]
            before.slots@.contains_key(k) && k != other ==> before.slots@[other].last_accessed
                < before.slots@[k].last_accessed,
{
    if before.slots@.contains_key(other) && other != slot && !after.slots@.contains_key(other) {
        law_least_recently_used_goes(before.slots@, before.max_slots, slot, left, other);
    }
}

/// A cache in use holds no more slots than it was made for, and at least one may be held.
pub proof fn law_cache_is_bounded(cache: EntryCache)
    requires
        cache.valid(),
    ensures
        cache.max_slots > 0 ==> cache.slots@.dom().len() <= cache.max_slots,
        cache.max_slots == 0 ==> cache.slots@.dom().len() <= 1,
{
}

/// Removing the slots below a limit removes exactly those; the others stay as they are.
pub proof fn law_purge_keeps_slots_from_the_limit_on(
    slots: Map<u64, CachedSlotEntries>,
    min_slot: u64,
    slot: u64,
)
    ensures
        slot < min_slot ==> !crate::entry_cache::slots_from(slots, min_slot).contains_key(slot),
        slot >= min_slot ==> (crate::entry_cache::slots_from(slots, min_slot).contains_key(slot)
            <==> slots.contains_key(slot)),
        slot >= min_slot && slots.contains_key(slot) ==> crate::entry_cache::slots_from(
            slots,
            min_slot,
        )[slot] == slots[slot],
{
}

/// A report of a slot's last shred keeps the highest one, and changes nothing else of the cache; a
/// slot that is not there is not made.
pub proof fn law_reports_of_last_shreds(
    before: Map<u64, CachedSlotEntries>,
    after: Map<u64, CachedSlotEntries>,
    slot: u64,
    last_index: u64,
    other: u64,
)
    requires
        crate::entry_cache::last_index_set(before, after, slot, last_index),
    ensures
        after.contains_key(slot) <==> before.contains_key(slot),
        other != slot ==> (after.contains_key(other) <==> before.contains_key(other)),
        other != slot && before.contains_key(other) ==> after[other] == before[other],
        before.contains_key(slot) ==> {
            &&& after[slot].last_index matches Some(last)
            &&& last >= last_index
            &&& before[slot].last_index matches Some(known) ==> last >= known
            &&& last == last_index || Some(last) == before[slot].last_index
            &&& after[slot].batches@ == before[slot].batches@
            &&& after[slot].consumed == before[slot].consumed
            &&& after[slot].last_accessed == before[slot].last_accessed
        },
{
}

/// Following the batches goes from each one to the shred behind it, and ends where no batch with shreds
/// starts.
pub proof fn law_path_follows_batches(batches: Map<u64, CachedEntryBatch>, at: u64)
    ensures
        batches.contains_key(at) && batches[at].next_shred_index > at
            ==> crate::entry_cache::chain_end(batches, at) == crate::entry_cache::chain_end(
            batches,
            batches[at].next_shred_index,
        ),
        !batches.contains_key(at) || batches[at].next_shred_index <= at
            ==> crate::entry_cache::chain_end(batches, at) == at,
        at <= crate::entry_cache::chain_end(batches, at),
{
    crate::entry_cache::lemma_chain_advances(batches, at);
}

/// An insertion does not take `consumed` back, unless it puts a batch of another length in the place
/// of one before it; then `consumed` is found again from there. A batch that starts at the first
/// missing shred takes `consumed` at least behind it, and one behind a gap leaves it where it is.
pub proof fn law_consumed_goes_up(
    before: CachedSlotEntries,
    after: CachedSlotEntries,
    start: u64,
    batch: CachedEntryBatch,
    last_index: Option<u64>,
    access_time: u64,
)
    requires
        before.valid(),
        batch.next_shred_index >= start,
        crate::entry_cache::slot_after_insert(
            before,
            after,
            start,
            batch,
            last_index,
            access_time,
        ),
    ensures
        !(before.batches@.contains_key(start) && before.batches@[start].next_shred_index
            != batch.next_shred_index) ==> before.consumed <= after.consumed,
        start >= before.consumed ==> before.consumed <= after.consumed,
        before.batches@.contains_key(start) && before.batches@[start].next_shred_index
            != batch.next_shred_index && start < before.consumed ==> start <= after.consumed
            && batch.next_shred_index <= after.consumed,
        start == before.consumed ==> batch.next_shred_index <= after.consumed,
        start > before.consumed ==> after.consumed == before.consumed,
{
    let batches = before.batches@.insert(start, batch);
    crate::entry_cache::lemma_chain_advances(batches, before.consumed);
    crate::entry_cache::lemma_chain_advances(batches, start);
    crate::entry_cache::lemma_chain_advances(batches, batch.next_shred_index);
    if start > before.consumed {
        let at = before.consumed;
        if before.batches@.contains_key(at) && before.batches@[at].next_shred_index > at {
            crate::entry_cache::lemma_chain_advances(
                before.batches@,
                before.batches@[at].next_shred_index,
            );
        }
    }
}

} // verus!
