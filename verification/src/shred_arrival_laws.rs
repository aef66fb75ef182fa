//! What becomes of the arrivals of shreds.
use crate::shred_arrival_store::{
    CompletedDataSetWriteRequest, ShredArrivalMeta, ShredArrivalRow, ShredArrivalSource, StoredKey,
};
use vstd::prelude::*;

verus! {

/// Different shreds are stored under different keys: the slot, the index and whether a shred carries
/// data can be told from its key.
pub proof fn law_stored_keys_tell_shreds_apart(slot: u64, index: u32, is_data: bool)
    ensures
        crate::shred_arrival_store::stored((slot, index, is_data)).0 == slot,
        crate::shred_arrival_store::stored((slot, index, is_data)).1 == index,
        crate::shred_arrival_store::stored((slot, index, is_data)).2 == 1 <==> is_data,
        crate::shred_arrival_store::stored((slot, index, is_data)).2 <= 1,
{
}

/// A completed dataset takes out the arrivals of its slot with an index from `start` up to and
/// without `end`, data and code, as they were noted; those of other slots, before `start` and from
/// `end` on stay as they are.
pub proof fn law_dataset_has_bounds(
    arrivals: Map<StoredKey, ShredArrivalMeta>,
    slot: u64,
    start: u32,
    end: u32,
    key: StoredKey,
)
    requires
        arrivals.contains_key(key),
    ensures
        ({
            let dataset = crate::shred_arrival_store::dataset_keys(slot, start, end);
            let taken = arrivals.restrict(dataset);
            let left = arrivals.remove_keys(dataset);
            if key.0 == slot && start <= key.1 && key.1 < end {
                taken.contains_key(key) && taken[key] == arrivals[key] && !left.contains_key(key)
            } else {
                !taken.contains_key(key) && left.contains_key(key) && left[key] == arrivals[key]
            }
        }),
{
}

/// Completing two datasets of a slot that follow each other takes out the same arrivals as
/// completing one that spans both, each arrival once.
pub proof fn law_neighbouring_datasets_add_up(
    arrivals: Map<StoredKey, ShredArrivalMeta>,
    slot: u64,
    start: u32,
    middle: u32,
    end: u32,
)
    requires
        start <= middle <= end,
    ensures
        ({
            let first = crate::shred_arrival_store::dataset_keys(slot, start, middle);
            let second = crate::shred_arrival_store::dataset_keys(slot, middle, end);
            let both = crate::shred_arrival_store::dataset_keys(slot, start, end);
            let left = arrivals.remove_keys(first);
            &&& left.remove_keys(second) == arrivals.remove_keys(both)
            &&& left.restrict(second) == arrivals.restrict(second)
            &&& arrivals.restrict(first).union_prefer_right(left.restrict(second))
                == arrivals.restrict(both)
        }),
{
    let first = crate::shred_arrival_store::dataset_keys(slot, start, middle);
    let second = crate::shred_arrival_store::dataset_keys(slot, middle, end);
    let both = crate::shred_arrival_store::dataset_keys(slot, start, end);
    let left = arrivals.remove_keys(first);
    assert(left.remove_keys(second) =~= arrivals.remove_keys(both));
    assert(left.restrict(second) =~= arrivals.restrict(second));
    assert(arrivals.restrict(first).union_prefer_right(left.restrict(second)) =~= arrivals.restrict(
        both,
    ));
}

/// The first arrival of a shred is the one that is kept, and noting one changes no other.
pub proof fn law_first_arrival_is_kept(
    arrivals: Map<StoredKey, ShredArrivalMeta>,
    key: StoredKey,
    first: ShredArrivalMeta,
    later: ShredArrivalMeta,
    other: StoredKey,
)
    ensures
        ({
            let once = crate::shred_arrival_store::with_first(arrivals, key, first);
            let twice = crate::shred_arrival_store::with_first(once, key, later);
            &&& once.contains_key(key)
            &&& twice == once
            &&& arrivals.contains_key(key) ==> once == arrivals
            &&& !arrivals.contains_key(key) ==> once[key] == first
            &&& other != key ==> (once.contains_key(other) <==> arrivals.contains_key(other))
                && once[other] == arrivals[other]
        }),
{
}

/// Where there are too many arrivals, those of the lowest slot go, all of them and no others.
pub proof fn law_lowest_slot_is_dropped(
    arrivals: Map<StoredKey, ShredArrivalMeta>,
    lowest: u64,
    key: StoredKey,
)
    requires
        crate::shred_arrival_store::is_lowest_slot(arrivals, lowest),
        arrivals.contains_key(key),
    ensures
        ({
            let left = arrivals.remove_keys(crate::shred_arrival_store::slot_keys(lowest));
            &&& lowest <= key.0
            &&& key.0 == lowest ==> !left.contains_key(key)
            &&& key.0 > lowest ==> left.contains_key(key) && left[key] == arrivals[key]
            &&& exists|k: StoredKey| #[trigger] arrivals.contains_key(k) && k.0 == lowest
        }),
{
}

/// The rows of a request come in the order in which they are written: all data shreds by index, then
/// all code shreds by index.
pub proof fn law_rows_put_data_first(
    request: CompletedDataSetWriteRequest,
    keys: Seq<StoredKey>,
    rows: Seq<ShredArrivalRow>,
    i: int,
    j: int,
)
    requires
        crate::shred_arrival_store::lists(keys, request.arrivals@),
        crate::shred_arrival_store::in_write_order(keys),
        rows.len() == keys.len(),
        forall|n: int|
            0 <= n < rows.len() ==> crate::shred_arrival_store::is_row_of(
                #[trigger] rows[n],
                request,
                keys[n],
            ),
        forall|k: StoredKey| #[trigger] request.arrivals@.contains_key(k) ==> k.0 == request.slot
            && k.2 <= 1,
        0 <= i < j < rows.len(),
    ensures
        rows[i].is_data || !rows[j].is_data,
        rows[i].is_data == rows[j].is_data ==> rows[i].shred_index < rows[j].shred_index,
{
    assert(crate::shred_arrival_store::is_row_of(rows[i], request, keys[i]));
    assert(crate::shred_arrival_store::is_row_of(rows[j], request, keys[j]));
    assert(keys.contains(keys[i]) && keys.contains(keys[j]));
    assert(crate::shred_arrival_store::rank(keys[i]) <= crate::shred_arrival_store::rank(keys[j]));
    assert(keys[i] != keys[j]);
}

/// Each arrival of a request has exactly one row, which names its dataset by the slot and the
/// bounds, the shred by slot, index and sort, and gives the time and the source that were noted.
pub proof fn law_every_arrival_has_a_row(
    request: CompletedDataSetWriteRequest,
    keys: Seq<StoredKey>,
    rows: Seq<ShredArrivalRow>,
    key: StoredKey,
)
    requires
        crate::shred_arrival_store::lists(keys, request.arrivals@),
        rows.len() == keys.len(),
        forall|n: int|
            0 <= n < rows.len() ==> crate::shred_arrival_store::is_row_of(
                #[trigger] rows[n],
                request,
                keys[n],
            ),
        request.arrivals@.contains_key(key),
    ensures
        exists|n: int|
            0 <= n < rows.len() && keys[n] == key && {
                let row = #[trigger] rows[n];
                let meta = request.arrivals@[key];
                &&& row.dataset_id@ == crate::text::decimal(request.slot as int) + seq!['_']
                    + crate::text::decimal(request.indices.start as int) + seq!['_']
                    + crate::text::decimal(request.indices.end as int)
                &&& row.slot == key.0
                &&& row.shred_index == key.1
                &&& row.is_data == (key.2 == 1)
                &&& row.arrival_time_ms == meta.arrival_time_ms
                &&& row.arrival_time_us == meta.arrival_time_us
                &&& row.source_ip@ == meta.source_ip@
                &&& row.source_type@ == match meta.source {
                    ShredArrivalSource::TurbineUdp => "turbine_udp"@,
                    ShredArrivalSource::TurbineQuic => "turbine_quic"@,
                    ShredArrivalSource::RepairUdp => "repair_udp"@,
                    ShredArrivalSource::RepairQuic => "repair_quic"@,
                }
            },
        forall|n: int, m: int| 0 <= n < m < keys.len() ==> keys[n] != keys[m],
{
    assert(keys.contains(key));
    let n = choose|n: int| 0 <= n < keys.len() && keys[n] == key;
    assert(crate::shred_arrival_store::is_row_of(rows[n], request, keys[n]));
}

/// Noting an arrival never leaves more arrivals than the buffer may hold. As long as there is room,
/// the arrival is there afterwards and all others stay; otherwise only arrivals of one slot go, the
/// lowest there is.
pub proof fn law_buffer_stays_within_its_limit(
    before: Map<StoredKey, ShredArrivalMeta>,
    after: Map<StoredKey, ShredArrivalMeta>,
    max_size: usize,
    key: StoredKey,
    meta: ShredArrivalMeta,
    other: StoredKey,
)
    requires
        before.dom().finite(),
        before.dom().len() <= max_size,
        crate::shred_arrival_store::arrival_noted(before, after, max_size, key, meta),
    ensures
        after.dom().len() <= max_size,
        before.contains_key(key) ==> after == before,
        !before.contains_key(key) && before.dom().len() < max_size ==> {
            &&& after.contains_key(key) && after[key] == meta
            &&& other != key ==> (after.contains_key(other) <==> before.contains_key(other))
            &&& other != key && before.contains_key(other) ==> after[other] == before[other]
        },
        before.contains_key(other) && !after.contains_key(other) ==> {
            &&& before.dom().len() == max_size
            &&& other.0 <= key.0
            &&& forall|k: StoredKey| #[trigger] before.contains_key(k) ==> other.0 <= k.0
            &&& forall|k: StoredKey| #[trigger] before.contains_key(k) && k.0 != other.0
                ==> after.contains_key(k) && after[k] == before[k]
        },
{
    let noted = crate::shred_arrival_store::with_first(before, key, meta);
    assert(noted.dom() =~= before.dom().insert(key));
    if noted.dom().len() > max_size {
        let lowest = choose|lowest: u64| #[trigger]
            crate::shred_arrival_store::is_lowest_slot(noted, lowest) && after
                == noted.remove_keys(crate::shred_arrival_store::slot_keys(lowest));
        let k = choose|k: StoredKey| #[trigger] noted.contains_key(k) && k.0 == lowest;
        assert(noted.contains_key(key));
        assert(after.dom().subset_of(noted.dom().remove(k)));
        vstd::set_lib::lemma_len_subset(after.dom(), noted.dom().remove(k));
        assert forall|j: StoredKey| #[trigger] before.contains_key(j) implies lowest <= j.0 by {
            assert(noted.contains_key(j));
        }
    } else if !before.contains_key(key) {
    }
}

} // verus!
