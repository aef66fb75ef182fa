//! Where and when each shred arrived, kept until its dataset is complete and then written.
use crate::dataset_tracking::joined_span_id;
use crate::parquet_writer::{
    RotatingParquetWriter, WriterAction, FLUSH_INTERVAL_SECS, FLUSH_RECORD_THRESHOLD,
};
use crate::table::{required, Cell, CellKind, FieldSpec, IntoRecordBatch, TableRow};
use crate::text::owned;
use std::collections::BTreeMap;
use std::ops::Range;
use vstd::prelude::*;

verus! {

broadcast use {vstd::std_specs::btree::group_btree_axioms, vstd::laws_cmp::group_laws_cmp};

/// How a shred arrived.
#[derive(Debug, Clone, Copy, PartialEq, Eq, Structural)]
pub enum ShredArrivalSource {
    TurbineUdp,
    TurbineQuic,
    RepairUdp,
    RepairQuic,
}

/// The name of a source in tables.
pub open spec fn source_name(value: ShredArrivalSource) -> Seq<char> {
    match value {
        ShredArrivalSource::TurbineUdp => "turbine_udp"@,
        ShredArrivalSource::TurbineQuic => "turbine_quic"@,
        ShredArrivalSource::RepairUdp => "repair_udp"@,
        ShredArrivalSource::RepairQuic => "repair_quic"@,
    }
}

impl ShredArrivalSource {
    /// The name in tables.
    pub fn as_str(&self) -> (name: &'static str)
        ensures
            name@ == source_name(*self),
    {
        match self {
            ShredArrivalSource::TurbineUdp => "turbine_udp",
            ShredArrivalSource::TurbineQuic => "turbine_quic",
            ShredArrivalSource::RepairUdp => "repair_udp",
            ShredArrivalSource::RepairQuic => "repair_quic",
        }
    }
}

/// The arrival of one shred.
#[derive(Debug, Clone)]
pub struct ShredArrivalMeta {
    /// Milliseconds of a monotonic clock.
    pub arrival_time_ms: u64,
    /// Microseconds on top, below 1000.
    pub arrival_time_us: u32,
    pub source_ip: String,
    pub source: ShredArrivalSource,
}

/// A shred: its slot, its index and whether it carries data.
pub type ShredKey = (u64, u32, bool);

/// A shred as it is stored, with 1 for data and 0 for code.
pub type StoredKey = (u64, u32, u8);

/// The stored form of a key.
pub open spec fn stored(key: ShredKey) -> StoredKey {
    (
        key.0,
        key.1,
        if key.2 {
            1
        } else {
            0
        },
    )
}

/// The stored form of a key.
pub fn stored_key(key: ShredKey) -> (made: StoredKey)
    ensures
        made == stored(key),
{
    (
        key.0,
        key.1,
        if key.2 {
            1
        } else {
            0
        },
    )
}

/// Number of arrivals that are kept at most.
pub const MAX_BUFFER_SIZE: usize = 500_000;

/// The arrivals of a completed dataset.
#[derive(Debug)]
pub struct CompletedDataSetWriteRequest {
    pub slot: u64,
    pub indices: Range<u32>,
    pub arrivals: BTreeMap<StoredKey, ShredArrivalMeta>,
}

/// Arrivals whose datasets are not complete.
#[derive(Debug)]
pub struct ShredArrivalBuffer {
    pub arrivals: BTreeMap<StoredKey, ShredArrivalMeta>,
    /// Number of arrivals beyond which the oldest slot is dropped.
    pub max_buffer_size: usize,
}

/// The lowest slot with arrivals.
pub open spec fn is_lowest_slot(arrivals: Map<StoredKey, ShredArrivalMeta>, slot: u64) -> bool {
    &&& exists|k: StoredKey| #[trigger] arrivals.contains_key(k) && k.0 == slot
    &&& forall|k: StoredKey| #[trigger] arrivals.contains_key(k) ==> slot <= k.0
}

/// The arrivals with one more, unless the shred has arrived before.
pub open spec fn with_first(
    arrivals: Map<StoredKey, ShredArrivalMeta>,
    key: StoredKey,
    meta: ShredArrivalMeta,
) -> Map<StoredKey, ShredArrivalMeta> {
    if arrivals.contains_key(key) {
        arrivals
    } else {
        arrivals.insert(key, meta)
    }
}

/// The shreds of a slot.
pub open spec fn slot_keys(slot: u64) -> Set<StoredKey> {
    Set::new(|k: StoredKey| k.0 == slot)
}

/// The shreds of a slot with the indexes of a dataset.
pub open spec fn dataset_keys(slot: u64, start: u32, end: u32) -> Set<StoredKey> {
    Set::new(|k: StoredKey| k.0 == slot && start <= k.1 < end)
}

/// What noting an arrival makes of the buffer.
pub open spec fn arrival_noted(
    before: Map<StoredKey, ShredArrivalMeta>,
    after: Map<StoredKey, ShredArrivalMeta>,
    max_size: usize,
    key: StoredKey,
    meta: ShredArrivalMeta,
) -> bool {
    let noted = with_first(before, key, meta);
    if noted.dom().len() > max_size {
        exists|lowest: u64| #[trigger]
            is_lowest_slot(noted, lowest) && after == noted.remove_keys(slot_keys(lowest))
    } else {
        after == noted
    }
}

/// The keys of the map, each once, in any order.
fn listed_keys(arrivals: &BTreeMap<StoredKey, ShredArrivalMeta>) -> (keys: Vec<StoredKey>)
    ensures
        keys@.no_duplicates(),
        forall|k: StoredKey| keys@.contains(k) <==> arrivals@.contains_key(k),
{
    let mut keys: Vec<StoredKey> = Vec::new();
    let iter = arrivals.iter();
    let ghost all = vstd::std_specs::iter::IteratorSpec::remaining(&iter);
    let ghost all_keys = all.map_values(|kv: (&StoredKey, &ShredArrivalMeta)| *kv.0);
    for pair in it: iter
        invariant
            it.seq() == all,
            all_keys == all.map_values(|kv: (&StoredKey, &ShredArrivalMeta)| *kv.0),
            keys@ == all_keys.subrange(0, it.index()),
    {
        keys.push(*pair.0);
        assert(keys@ =~= all_keys.subrange(0, it.index() + 1));
    }
    assert(keys@ =~= all_keys);
    proof {
        assert forall|i: int, j: int| 0 <= i < keys@.len() && 0 <= j < keys@.len() && i
            != j implies keys@[i] != keys@[j] by {
            if keys@[i] == keys@[j] {
                assert(arrivals@[*all[i].0] == *all[i].1);
                assert(arrivals@[*all[j].0] == *all[j].1);
                assert(all[i] == all[j]);
            }
        }
        assert forall|k: StoredKey| keys@.contains(k) <==> arrivals@.contains_key(k) by {
            if arrivals@.contains_key(k) {
                assert(all.contains((&k, &arrivals@[k])));
                let i = choose|i: int| 0 <= i < all.len() && all[i] == (&k, &arrivals@[k]);
                assert(all_keys[i] == k);
            }
            if keys@.contains(k) {
                let i = choose|i: int| 0 <= i < keys@.len() && keys@[i] == k;
                assert(*all[i].0 == k);
                assert(arrivals@.contains_key(*all[i].0));
            }
        }
    }
    keys
}

impl ShredArrivalBuffer {
    /// Keys mark data with 1 and code with 0.
    pub open spec fn valid(&self) -> bool {
        forall|k: StoredKey| #[trigger] self.arrivals@.contains_key(k) ==> k.2 <= 1
    }

    /// A buffer without arrivals.
    pub fn new() -> (buffer: ShredArrivalBuffer)
        ensures
            buffer.valid(),
            buffer.arrivals@ == Map::<StoredKey, ShredArrivalMeta>::empty(),
            buffer.max_buffer_size == MAX_BUFFER_SIZE,
            buffer.max_buffer_size == 500_000,
    {
        ShredArrivalBuffer { arrivals: BTreeMap::new(), max_buffer_size: MAX_BUFFER_SIZE }
    }

    /// Notes the arrival of a shred, unless it is noted already. Where there are then too many
    /// arrivals, those of the lowest slot are dropped.
    pub fn record_arrival(
        &mut self,
        slot: u64,
        shred_index: u32,
        is_data: bool,
        meta: ShredArrivalMeta,
    )
        requires
            old(self).valid(),
        ensures
            final(self).valid(),
            final(self).max_buffer_size == old(self).max_buffer_size,
            ({
                let key = stored((slot, shred_index, is_data));
                let noted = with_first(old(self).arrivals@, key, meta);
                if noted.dom().len() > old(self).max_buffer_size {
                    exists|lowest: u64| #[trigger]
                        is_lowest_slot(noted, lowest) && final(self).arrivals@
                            == noted.remove_keys(slot_keys(lowest))
                } else {
                    final(self).arrivals@ == noted
                }
            }),
            arrival_noted(
                old(self).arrivals@,
                final(self).arrivals@,
                old(self).max_buffer_size,
                stored((slot, shred_index, is_data)),
                meta,
            ),
    {
        let key = stored_key((slot, shred_index, is_data));
        if !self.arrivals.contains_key(&key) {
            self.arrivals.insert(key, meta);
        }
        if self.arrivals.len() > self.max_buffer_size {
            assert(self.arrivals@.contains_key(key));
            self.evict_oldest_slot();
        }
    }

    /// Drops the arrivals of the lowest slot.
    fn evict_oldest_slot(&mut self)
        requires
            old(self).valid(),
            exists|k: StoredKey| old(self).arrivals@.contains_key(k),
        ensures
            final(self).valid(),
            final(self).max_buffer_size == old(self).max_buffer_size,
            exists|lowest: u64| #[trigger]
                is_lowest_slot(old(self).arrivals@, lowest) && final(self).arrivals@ == old(
                    self,
                ).arrivals@.remove_keys(slot_keys(lowest)),
    {
        let ghost before = self.arrivals@;
        let keys = listed_keys(&self.arrivals);
        let n: usize = keys.len();
        proof {
            let k = choose|k: StoredKey| before.contains_key(k);
            assert(keys@.contains(k));
        }
        let mut lowest: u64 = keys[0].0;
        let mut i: usize = 1;
        while i < n
            invariant
                1 <= i <= n,
                n == keys@.len(),
                forall|j: int| 0 <= j < i ==> lowest <= (#[trigger] keys@[j]).0,
                exists|j: int| 0 <= j < i && (#[trigger] keys@[j]).0 == lowest,
            decreases n - i,
        {
            if keys[i].0 < lowest {
                lowest = keys[i].0;
            }
            i += 1;
        }
        proof {
            let j = choose|j: int| 0 <= j < n && (#[trigger] keys@[j]).0 == lowest;
            assert(keys@.contains(keys@[j]));
            assert(before.contains_key(keys@[j]) && keys@[j].0 == lowest);
            assert forall|k: StoredKey| #[trigger] before.contains_key(k) implies lowest <= k.0 by {
                assert(keys@.contains(k));
                let a = choose|a: int| 0 <= a < n && keys@[a] == k;
                assert(lowest <= keys@[a].0);
            }
            assert(is_lowest_slot(before, lowest));
        }
        let mut m: usize = 0;
        while m < n
            invariant
                m <= n,
                n == keys@.len(),
                self.max_buffer_size == old(self).max_buffer_size,
                forall|k: StoredKey| #[trigger]
                    self.arrivals@.contains_key(k) ==> before.contains_key(k) && self.arrivals@[k]
                        == before[k],
                forall|k: StoredKey|
                    before.contains_key(k) && k.0 != lowest ==> #[trigger] self.arrivals@.contains_key(
                    k),
                forall|j: int|
                    0 <= j < m && (#[trigger] keys@[j]).0 == lowest ==> !self.arrivals@.contains_key(
                        keys@[j],
                    ),
            decreases n - m,
        {
            if keys[m].0 == lowest {
                self.arrivals.remove(&keys[m]);
            }
            m += 1;
        }
        proof {
            let wanted = before.remove_keys(slot_keys(lowest));
            assert forall|k: StoredKey| self.arrivals@.contains_key(k) <==> wanted.contains_key(
                k,
            ) by {
                if self.arrivals@.contains_key(k) && k.0 == lowest {
                    assert(keys@.contains(k));
                    let j = choose|j: int| 0 <= j < n && keys@[j] == k;
                    assert(!self.arrivals@.contains_key(keys@[j]));
                }
            }
            assert(self.arrivals@ =~= wanted);
        }
    }

    /// Takes the arrivals of a completed dataset out; `None` where there are none.
    pub fn on_completed_data_set(&mut self, slot: u64, indices: Range<u32>) -> (request: Option<
        CompletedDataSetWriteRequest,
    >)
        requires
            old(self).valid(),
        ensures
            final(self).valid(),
            final(self).max_buffer_size == old(self).max_buffer_size,
            ({
                let dataset = dataset_keys(slot, indices.start, indices.end);
                &&& final(self).arrivals@ == old(self).arrivals@.remove_keys(dataset)
                &&& request is None <==> old(self).arrivals@.restrict(dataset).dom().len() == 0
                &&& request matches Some(r) ==> {
                    &&& r.slot == slot
                    &&& r.indices == indices
                    &&& r.arrivals@ == old(self).arrivals@.restrict(dataset)
                }
            }),
            forall|k: StoredKey| #[trigger]
                final(self).arrivals@.contains_key(k) <==> old(self).arrivals@.contains_key(k) && !(
                k.0 == slot && indices.start <= k.1 && k.1 < indices.end),
            request matches Some(r) ==> forall|k: StoredKey| #[trigger]
                r.arrivals@.contains_key(k) <==> old(self).arrivals@.contains_key(k) && k.0 == slot
                    && indices.start <= k.1 && k.1 < indices.end,
    {
        let ghost before = self.arrivals@;
        let mut taken: BTreeMap<StoredKey, ShredArrivalMeta> = BTreeMap::new();
        let start: u32 = indices.start;
        let end: u32 = indices.end;
        let mut idx: u32 = start;
        while idx < end
            invariant
                start <= idx,
                idx <= end || idx == start,
                self.max_buffer_size == old(self).max_buffer_size,
                forall|k: StoredKey| #[trigger] before.contains_key(k) ==> k.2 <= 1,
                forall|k: StoredKey| #[trigger]
                    self.arrivals@.contains_key(k) <==> before.contains_key(k) && !(k.0 == slot
                        && start <= k.1 < idx),
                forall|k: StoredKey| #[trigger]
                    self.arrivals@.contains_key(k) ==> self.arrivals@[k] == before[k],
                forall|k: StoredKey| #[trigger]
                    taken@.contains_key(k) <==> before.contains_key(k) && k.0 == slot && start
                        <= k.1 < idx,
                forall|k: StoredKey| #[trigger]
                    taken@.contains_key(k) ==> taken@[k] == before[k],
            decreases end - idx,
        {
            let data_key = stored_key((slot, idx, true));
            let coding_key = stored_key((slot, idx, false));
            if let Some(meta) = self.arrivals.remove(&data_key) {
                taken.insert(data_key, meta);
            }
            if let Some(meta) = self.arrivals.remove(&coding_key) {
                taken.insert(coding_key, meta);
            }
            proof {
                assert forall|k: StoredKey| before.contains_key(k) && k.0 == slot && k.1
                    == idx implies k == data_key || k == coding_key by {}
            }
            idx += 1;
        }
        let ghost dataset = dataset_keys(slot, indices.start, indices.end);
        assert(self.arrivals@ =~= before.remove_keys(dataset));
        assert(taken@ =~= before.restrict(dataset));
        if taken.len() == 0 {
            None
        } else {
            Some(CompletedDataSetWriteRequest { slot, indices, arrivals: taken })
        }
    }
}

/// An arrival, as it is written.
#[derive(Debug)]
pub struct ShredArrivalRow {
    pub dataset_id: String,
    pub slot: u64,
    pub shred_index: u32,
    pub is_data: bool,
    pub arrival_time_ms: u64,
    pub arrival_time_us: u32,
    pub source_ip: String,
    pub source_type: String,
}

impl TableRow for ShredArrivalRow {
    open spec fn field_list() -> Seq<crate::table::FieldView> {
        seq![
            crate::table::required_field("dataset_id"@, CellKind::Text),
            crate::table::required_field("slot"@, CellKind::U64),
            crate::table::required_field("shred_index"@, CellKind::U32),
            crate::table::required_field("is_data"@, CellKind::Flag),
            crate::table::required_field("arrival_time_ms"@, CellKind::U64),
            crate::table::required_field("arrival_time_us"@, CellKind::U32),
            crate::table::required_field("source_ip"@, CellKind::Text),
            crate::table::required_field("source_type"@, CellKind::Text),
        ]
    }

    open spec fn row(&self) -> Seq<crate::table::CellView> {
        seq![
            crate::table::CellView::Text(Some(self.dataset_id@)),
            crate::table::CellView::U64(Some(self.slot)),
            crate::table::CellView::U32(Some(self.shred_index)),
            crate::table::CellView::Flag(Some(self.is_data)),
            crate::table::CellView::U64(Some(self.arrival_time_ms)),
            crate::table::CellView::U32(Some(self.arrival_time_us)),
            crate::table::CellView::Text(Some(self.source_ip@)),
            crate::table::CellView::Text(Some(self.source_type@)),
        ]
    }

    open spec fn cell_bound(&self, j: int) -> nat {
        self.row()[j].bytes()
    }

    proof fn lemma_row_fits(&self) {
    }

    fn fields() -> (fields: Vec<FieldSpec>) {
        let fields: Vec<FieldSpec> = vec![
            required("dataset_id", CellKind::Text),
            required("slot", CellKind::U64),
            required("shred_index", CellKind::U32),
            required("is_data", CellKind::Flag),
            required("arrival_time_ms", CellKind::U64),
            required("arrival_time_us", CellKind::U32),
            required("source_ip", CellKind::Text),
            required("source_type", CellKind::Text),
        ];
        assert(crate::table::field_views(fields@) =~= Self::field_list());
        fields
    }

    fn cells(&self) -> (cells: Vec<Cell>) {
        let cells: Vec<Cell> = vec![
            Cell::Text(Some(self.dataset_id.clone())),
            Cell::U64(Some(self.slot)),
            Cell::U32(Some(self.shred_index)),
            Cell::Flag(Some(self.is_data)),
            Cell::U64(Some(self.arrival_time_ms)),
            Cell::U32(Some(self.arrival_time_us)),
            Cell::Text(Some(self.source_ip.clone())),
            Cell::Text(Some(self.source_type.clone())),
        ];
        assert(crate::table::cell_views(cells@) =~= self.row());
        cells
    }
}

impl IntoRecordBatch for ShredArrivalRow {

}

impl ShredArrivalRow {
    /// Prefix of the files that hold these records.
    pub fn file_prefix() -> (prefix: &'static str)
        ensures
            prefix@ == "shred_arrivals"@,
    {
        "shred_arrivals"
    }
}

/// Place of a shred in the order of writing: data before code, each by index.
pub open spec fn rank(key: StoredKey) -> int {
    if key.2 == 1 {
        key.1 as int
    } else {
        0x1_0000_0000 + key.1
    }
}

fn rank_of(key: &StoredKey) -> (place: u64)
    ensures
        place == rank(*key),
{
    if key.2 == 1 {
        key.1 as u64
    } else {
        0x1_0000_0000 + key.1 as u64
    }
}

/// In the order of writing.
pub open spec fn in_write_order(keys: Seq<StoredKey>) -> bool {
    forall|i: int, j: int| 0 <= i < j < keys.len() ==> rank(keys[i]) <= rank(keys[j])
}

/// Each key of the map, once.
pub open spec fn lists(keys: Seq<StoredKey>, arrivals: Map<StoredKey, ShredArrivalMeta>) -> bool {
    &&& keys.no_duplicates()
    &&& forall|k: StoredKey| keys.contains(k) <==> arrivals.contains_key(k)
}

/// The row of one arrival of a request.
pub open spec fn is_row_of(
    row: ShredArrivalRow,
    request: CompletedDataSetWriteRequest,
    key: StoredKey,
) -> bool {
    let meta = request.arrivals@[key];
    &&& row.dataset_id@ == crate::dataset_tracking::dataset_span_id(
        request.slot,
        request.indices.start as int,
        request.indices.end as int,
    )
    &&& row.slot == key.0
    &&& row.shred_index == key.1
    &&& row.is_data == (key.2 == 1)
    &&& row.arrival_time_ms == meta.arrival_time_ms
    &&& row.arrival_time_us == meta.arrival_time_us
    &&& row.source_ip@ == meta.source_ip@
    &&& row.source_type@ == source_name(meta.source)
}

/// Inserts a key behind those that come before it or at the same place.
fn insert_in_order(keys: &mut Vec<StoredKey>, key: StoredKey)
    requires
        in_write_order(old(keys)@),
        !old(keys)@.contains(key),
        old(keys)@.no_duplicates(),
    ensures
        in_write_order(final(keys)@),
        final(keys)@.no_duplicates(),
        forall|k: StoredKey| final(keys)@.contains(k) <==> old(keys)@.contains(k) || k == key,
{
    let ghost before = keys@;
    let n: usize = keys.len();
    let mut at: usize = n;
    while at > 0 && rank_of(&keys[at - 1]) > rank_of(&key)
        invariant
            at <= n,
            n == keys@.len(),
            forall|j: int| at <= j < n ==> rank(#[trigger] keys@[j]) > rank(key),
        decreases at,
    {
        at -= 1;
    }
    keys.insert(at, key);
    proof {
        let after = keys@;
        assert forall|i: int, j: int| 0 <= i < j < after.len() implies rank(after[i]) <= rank(
            after[j],
        ) by {
            let a = if i < at {
                i
            } else {
                i - 1
            };
            let b = if j < at {
                j
            } else {
                j - 1
            };
            if i != at && j != at {
                assert(after[i] == before[a] && after[j] == before[b]);
            } else if i == at {
                assert(after[j] == before[b]);
            } else {
                assert(after[i] == before[a]);
                if at > 0 {
                    assert(a == at - 1 || rank(before[a]) <= rank(before[at - 1]));
                }
            }
        }
        assert forall|k: StoredKey| after.contains(k) <==> before.contains(k) || k == key by {
            if before.contains(k) {
                let i = choose|i: int| 0 <= i < before.len() && before[i] == k;
                if i < at {
                    assert(after[i] == k);
                } else {
                    assert(after[i + 1] == k);
                }
            }
            assert(after[at as int] == key);
            if after.contains(k) && k != key {
                let i = choose|i: int| 0 <= i < after.len() && after[i] == k;
                if i < at {
                    assert(before[i] == k);
                } else {
                    assert(before[i - 1] == k);
                }
            }
        }
        assert forall|i: int, j: int| 0 <= i < after.len() && 0 <= j < after.len() && i
            != j implies after[i] != after[j] by {
            if i != at && j != at {
                let a = if i < at {
                    i
                } else {
                    i - 1
                };
                let b = if j < at {
                    j
                } else {
                    j - 1
                };
                assert(before[a] != before[b]);
            } else if i == at {
                let b = if j < at {
                    j
                } else {
                    j - 1
                };
                assert(before.contains(before[b]));
            } else {
                let a = if i < at {
                    i
                } else {
                    i - 1
                };
                assert(before.contains(before[a]));
            }
        }
    }
}

/// The shreds of a request in the order of writing.
fn ordered_keys(arrivals: &BTreeMap<StoredKey, ShredArrivalMeta>) -> (ordered: Vec<StoredKey>)
    ensures
        lists(ordered@, arrivals@),
        in_write_order(ordered@),
{
    let keys = listed_keys(arrivals);
    let mut ordered: Vec<StoredKey> = Vec::new();
    let mut i: usize = 0;
    while i < keys.len()
        invariant
            i <= keys@.len(),
            keys@.no_duplicates(),
            in_write_order(ordered@),
            ordered@.no_duplicates(),
            forall|k: StoredKey| ordered@.contains(k) <==> keys@.subrange(0, i as int).contains(k),
        decreases keys@.len() - i,
    {
        let ghost shorter = keys@.subrange(0, i as int);
        let ghost longer = keys@.subrange(0, i + 1);
        proof {
            assert(longer =~= shorter.push(keys@[i as int]));
            if shorter.contains(keys@[i as int]) {
                let j = choose|j: int| 0 <= j < shorter.len() && shorter[j] == keys@[i as int];
                assert(keys@[j] == keys@[i as int]);
            }
        }
        insert_in_order(&mut ordered, keys[i]);
        proof {
            assert forall|k: StoredKey| longer.contains(k) <==> shorter.contains(k) || k
                == keys@[i as int] by {
                assert(longer[i as int] == keys@[i as int]);
                if shorter.contains(k) {
                    let j = choose|j: int| 0 <= j < shorter.len() && shorter[j] == k;
                    assert(longer[j] == k);
                }
                if longer.contains(k) && k != keys@[i as int] {
                    let j = choose|j: int| 0 <= j < longer.len() && longer[j] == k;
                    assert(shorter[j] == k);
                }
            }
        }
        i += 1;
    }
    assert(keys@.subrange(0, i as int) =~= keys@);
    ordered
}

/// The rows of a request: its arrivals, data before code, each by index.
pub fn request_rows(request: &CompletedDataSetWriteRequest) -> (rows: Vec<ShredArrivalRow>)
    ensures
        exists|keys: Seq<StoredKey>| #[trigger]
            lists(keys, request.arrivals@) && in_write_order(keys) && rows@.len() == keys.len()
                && forall|i: int|
                0 <= i < rows@.len() ==> is_row_of(#[trigger] rows@[i], *request, keys[i]),
{
    let keys = ordered_keys(&request.arrivals);
    let mut rows: Vec<ShredArrivalRow> = Vec::new();
    while rows.len() < keys.len()
        invariant
            lists(keys@, request.arrivals@),
            rows@.len() <= keys@.len(),
            forall|i: int|
                0 <= i < rows@.len() ==> is_row_of(#[trigger] rows@[i], *request, keys@[i]),
        decreases keys@.len() - rows@.len(),
    {
        let at: usize = rows.len();
        let key: StoredKey = keys[at];
        assert(keys@.contains(key));
        if let Some(meta) = request.arrivals.get(&key) {
            let row = ShredArrivalRow {
                dataset_id: joined_span_id(
                    request.slot,
                    request.indices.start as u64,
                    request.indices.end as u64,
                ),
                slot: key.0,
                shred_index: key.1,
                is_data: key.2 == 1,
                arrival_time_ms: meta.arrival_time_ms,
                arrival_time_us: meta.arrival_time_us,
                source_ip: meta.source_ip.clone(),
                source_type: owned(meta.source.as_str()),
            };
            rows.push(row);
        }
    }
    rows
}

/// The writer of arrivals.
pub struct ShredArrivalCsvWriter {
    pub inner: RotatingParquetWriter<ShredArrivalRow>,
}

impl ShredArrivalCsvWriter {
    /// Adds the rows of a request, `elapsed_secs` seconds after the last table was written. A table
    /// is written once it is complete or old enough.
    pub fn on_request(&mut self, request: &CompletedDataSetWriteRequest, elapsed_secs: u64) -> (action:
        WriterAction)
        ensures
            final(self).inner.prefix == old(self).inner.prefix,
            final(self).inner.sequence == old(self).inner.sequence,
            exists|keys: Seq<StoredKey>, rows: Seq<ShredArrivalRow>|
                #![trigger lists(keys, request.arrivals@), old(self).inner.buffer@ + rows]
                {
                    &&& lists(keys, request.arrivals@)
                    &&& in_write_order(keys)
                    &&& rows.len() == keys.len()
                    &&& forall|i: int|
                        0 <= i < rows.len() ==> is_row_of(#[trigger] rows[i], *request, keys[i])
                    &&& final(self).inner.buffer@ == old(self).inner.buffer@ + rows
                },
            action == if final(self).inner.buffer@.len() >= FLUSH_RECORD_THRESHOLD || elapsed_secs
                >= FLUSH_INTERVAL_SECS {
                WriterAction::Flush
            } else {
                WriterAction::Wait
            },
    {
        let mut rows = request_rows(request);
        let ghost added = rows@;
        let ghost before = self.inner.buffer@;
        self.inner.buffer.append(&mut rows);
        assert(self.inner.buffer@ == before + added);
        if self.inner.buffer.len() >= FLUSH_RECORD_THRESHOLD || elapsed_secs
            >= FLUSH_INTERVAL_SECS {
            WriterAction::Flush
        } else {
            WriterAction::Wait
        }
    }

    /// No request arrived for a second.
    pub fn on_timeout(&self, elapsed_secs: u64) -> (action: WriterAction)
        ensures
            action == if self.inner.buffer@.len() > 0 && elapsed_secs >= FLUSH_INTERVAL_SECS {
                WriterAction::Flush
            } else {
                WriterAction::Wait
            },
    {
        self.inner.on_timeout(elapsed_secs)
    }

    /// No request will arrive.
    pub fn on_disconnected(&self) -> (action: WriterAction)
        ensures
            action == if self.inner.buffer@.len() > 0 {
                WriterAction::FlushAndStop
            } else {
                WriterAction::Stop
            },
    {
        self.inner.on_disconnected()
    }
}

/// Taking a completed dataset out and what stays behind make up all arrivals, and no arrival is in
/// both.
pub proof fn law_dataset_is_taken_whole(
    arrivals: Map<StoredKey, ShredArrivalMeta>,
    slot: u64,
    start: u32,
    end: u32,
)
    ensures
        ({
            let dataset = dataset_keys(slot, start, end);
            let taken = arrivals.restrict(dataset);
            let left = arrivals.remove_keys(dataset);
            &&& taken.dom().disjoint(left.dom())
            &&& taken.union_prefer_right(left) == arrivals
        }),
{
    let dataset = dataset_keys(slot, start, end);
    let taken = arrivals.restrict(dataset);
    let left = arrivals.remove_keys(dataset);
    assert(taken.union_prefer_right(left) =~= arrivals);
}

} // verus!
