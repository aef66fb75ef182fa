//! Steps of the service that takes shreds in, with their times.
use crate::parquet_writer::RotatingParquetWriter;
use crate::table::{optional, required, Cell, CellKind, FieldSpec, IntoRecordBatch, TableRow};
use crate::text::{owned, push_decimal};
use vstd::prelude::*;

verus! {

/// A step.
#[derive(Debug, Clone, Copy, PartialEq, Eq, Structural)]
pub enum WindowServiceEventType {
    RunInsertStart,
    RecvWaitStart,
    RecvWaitEnd,
    BatchMergeStart,
    BatchMergeEnd,
    HandlePacketsStart,
    HandlePacketsEnd,
    PayloadBuildStart,
    PayloadBuildEnd,
    LatencyEventRecord,
    BlockstoreInsertStart,
    BlockstoreInsertEnd,
    EntryCacheStart,
    EntryCacheEnd,
    ShredArrivalRecordStart,
    ShredArrivalRecordEnd,
    SignalStart,
    SignalEnd,
    RunInsertEnd,
}

/// The name of a step in tables.
pub open spec fn event_name(value: WindowServiceEventType) -> Seq<char> {
    match value {
        WindowServiceEventType::RunInsertStart => "run_insert_start"@,
        WindowServiceEventType::RecvWaitStart => "recv_wait_start"@,
        WindowServiceEventType::RecvWaitEnd => "recv_wait_end"@,
        WindowServiceEventType::BatchMergeStart => "batch_merge_start"@,
        WindowServiceEventType::BatchMergeEnd => "batch_merge_end"@,
        WindowServiceEventType::HandlePacketsStart => "handle_packets_start"@,
        WindowServiceEventType::HandlePacketsEnd => "handle_packets_end"@,
        WindowServiceEventType::PayloadBuildStart => "payload_build_start"@,
        WindowServiceEventType::PayloadBuildEnd => "payload_build_end"@,
        WindowServiceEventType::LatencyEventRecord => "latency_event_record"@,
        WindowServiceEventType::BlockstoreInsertStart => "blockstore_insert_start"@,
        WindowServiceEventType::BlockstoreInsertEnd => "blockstore_insert_end"@,
        WindowServiceEventType::EntryCacheStart => "entry_cache_start"@,
        WindowServiceEventType::EntryCacheEnd => "entry_cache_end"@,
        WindowServiceEventType::ShredArrivalRecordStart => "shred_arrival_record_start"@,
        WindowServiceEventType::ShredArrivalRecordEnd => "shred_arrival_record_end"@,
        WindowServiceEventType::SignalStart => "signal_start"@,
        WindowServiceEventType::SignalEnd => "signal_end"@,
        WindowServiceEventType::RunInsertEnd => "run_insert_end"@,
    }
}

impl WindowServiceEventType {
    /// The name in tables.
    pub fn as_str(&self) -> (name: &'static str)
        ensures
            name@ == event_name(*self),
    {
        match self {
            WindowServiceEventType::RunInsertStart => "run_insert_start",
            WindowServiceEventType::RecvWaitStart => "recv_wait_start",
            WindowServiceEventType::RecvWaitEnd => "recv_wait_end",
            WindowServiceEventType::BatchMergeStart => "batch_merge_start",
            WindowServiceEventType::BatchMergeEnd => "batch_merge_end",
            WindowServiceEventType::HandlePacketsStart => "handle_packets_start",
            WindowServiceEventType::HandlePacketsEnd => "handle_packets_end",
            WindowServiceEventType::PayloadBuildStart => "payload_build_start",
            WindowServiceEventType::PayloadBuildEnd => "payload_build_end",
            WindowServiceEventType::LatencyEventRecord => "latency_event_record",
            WindowServiceEventType::BlockstoreInsertStart => "blockstore_insert_start",
            WindowServiceEventType::BlockstoreInsertEnd => "blockstore_insert_end",
            WindowServiceEventType::EntryCacheStart => "entry_cache_start",
            WindowServiceEventType::EntryCacheEnd => "entry_cache_end",
            WindowServiceEventType::ShredArrivalRecordStart => "shred_arrival_record_start",
            WindowServiceEventType::ShredArrivalRecordEnd => "shred_arrival_record_end",
            WindowServiceEventType::SignalStart => "signal_start",
            WindowServiceEventType::SignalEnd => "signal_end",
            WindowServiceEventType::RunInsertEnd => "run_insert_end",
        }
    }
}

/// A step of one round of the service.
#[derive(Debug, Clone)]
pub struct WindowServiceEvent {
    /// Unix time in microseconds.
    pub timestamp_us: u64,
    pub event_type: WindowServiceEventType,
    /// Number of the round.
    pub batch_id: u64,
    pub num_shreds: Option<usize>,
    /// The slots concerned, each once, separated by semicolons.
    pub slots: Option<String>,
    pub num_completed_data_sets: Option<usize>,
    pub context: Option<String>,
}

/// Slots separated by semicolons.
pub open spec fn slot_list(slots: Seq<u64>) -> Seq<char>
    decreases slots.len(),
{
    if slots.len() == 0 {
        seq![]
    } else if slots.len() == 1 {
        crate::text::decimal(slots[0] as int)
    } else {
        slot_list(slots.drop_last()) + seq![';'] + crate::text::decimal(slots.last() as int)
    }
}

/// The slots without repetitions, in the order of their first occurrence.
pub open spec fn distinct(slots: Seq<u64>) -> Seq<u64>
    decreases slots.len(),
{
    if slots.len() == 0 {
        seq![]
    } else {
        let before = distinct(slots.drop_last());
        if before.contains(slots.last()) {
            before
        } else {
            before.push(slots.last())
        }
    }
}

/// A number as a cell holds it.
pub open spec fn wide(number: Option<usize>) -> Option<u64> {
    match number {
        Some(n) => Some(n as u64),
        None => None,
    }
}

fn widened(number: Option<usize>) -> (value: Option<u64>)
    ensures
        value == wide(number),
{
    match number {
        Some(n) => Some(n as u64),
        None => None,
    }
}

fn copied(text: &Option<String>) -> (copy: Option<String>)
    ensures
        crate::table::text_view(copy) == crate::table::text_view(*text),
{
    match text {
        Some(t) => Some(t.clone()),
        None => None,
    }
}

/// Leaves repetitions out.
pub fn distinct_slots(slots: &Vec<u64>) -> (kept: Vec<u64>)
    ensures
        kept@ == distinct(slots@),
{
    let mut kept: Vec<u64> = Vec::new();
    let mut i: usize = 0;
    assert(slots@.subrange(0, 0) =~= seq![]);
    while i < slots.len()
        invariant
            i <= slots@.len(),
            kept@ == distinct(slots@.subrange(0, i as int)),
        decreases slots@.len() - i,
    {
        let slot: u64 = slots[i];
        let mut known = false;
        let mut j: usize = 0;
        while j < kept.len()
            invariant
                j <= kept@.len(),
                known == exists|k: int| 0 <= k < j && #[trigger] kept@[k] == slot,
            decreases kept@.len() - j,
        {
            if kept[j] == slot {
                known = true;
            }
            j += 1;
        }
        assert(slots@.subrange(0, i + 1).drop_last() =~= slots@.subrange(0, i as int));
        assert(known == kept@.contains(slot));
        if !known {
            kept.push(slot);
        }
        i += 1;
    }
    assert(slots@.subrange(0, i as int) =~= slots@);
    kept
}

/// Joins slots with semicolons.
pub fn joined_slots(slots: &Vec<u64>) -> (text: String)
    ensures
        text@ == slot_list(slots@),
{
    let mut text: String = String::new();
    let mut i: usize = 0;
    assert(slots@.subrange(0, 0) =~= seq![]);
    while i < slots.len()
        invariant
            i <= slots@.len(),
            text@ == slot_list(slots@.subrange(0, i as int)),
        decreases slots@.len() - i,
    {
        assert(slots@.subrange(0, i + 1).drop_last() =~= slots@.subrange(0, i as int));
        let ghost before = text@;
        if i > 0 {
            text.push(';');
        }
        push_decimal(&mut text, slots[i]);
        assert(text@ =~= slot_list(slots@.subrange(0, i + 1)));
        i += 1;
    }
    assert(slots@.subrange(0, i as int) =~= slots@);
    text
}

impl WindowServiceEvent {
    /// A step at `timestamp_us`, without details.
    pub fn new(event_type: WindowServiceEventType, batch_id: u64, timestamp_us: u64) -> (event:
        WindowServiceEvent)
        ensures
            event == (WindowServiceEvent {
                timestamp_us,
                event_type,
                batch_id,
                num_shreds: None,
                slots: None,
                num_completed_data_sets: None,
                context: None,
            }),
    {
        WindowServiceEvent {
            timestamp_us,
            event_type,
            batch_id,
            num_shreds: None,
            slots: None,
            num_completed_data_sets: None,
            context: None,
        }
    }

    /// The same step with a number of shreds.
    pub fn with_num_shreds(self, num_shreds: usize) -> (event: WindowServiceEvent)
        ensures
            event == (WindowServiceEvent { num_shreds: Some(num_shreds), ..self }),
    {
        let mut event = self;
        event.num_shreds = Some(num_shreds);
        event
    }

    /// The same step with the slots concerned, each once; no slots leave it as it is.
    pub fn with_slots(self, slots: &Vec<u64>) -> (event: WindowServiceEvent)
        ensures
            slots@.len() == 0 ==> event == self,
            slots@.len() > 0 ==> {
                &&& event.slots matches Some(text)
                &&& text@ == slot_list(distinct(slots@))
                &&& event == (WindowServiceEvent { slots: event.slots, ..self })
            },
    {
        let mut event = self;
        if slots.len() > 0 {
            let kept = distinct_slots(slots);
            event.slots = Some(joined_slots(&kept));
        }
        event
    }

    /// The same step with a number of completed data sets.
    pub fn with_completed_data_sets(self, count: usize) -> (event: WindowServiceEvent)
        ensures
            event == (WindowServiceEvent { num_completed_data_sets: Some(count), ..self }),
    {
        let mut event = self;
        event.num_completed_data_sets = Some(count);
        event
    }

    /// The same step with a remark.
    pub fn with_context(self, context: String) -> (event: WindowServiceEvent)
        ensures
            event == (WindowServiceEvent { context: Some(context), ..self }),
    {
        let mut event = self;
        event.context = Some(context);
        event
    }
}

impl TableRow for WindowServiceEvent {
    open spec fn field_list() -> Seq<crate::table::FieldView> {
        seq![
            crate::table::required_field("timestamp_us"@, CellKind::U64),
            crate::table::required_field("event_type"@, CellKind::Text),
            crate::table::required_field("batch_id"@, CellKind::U64),
            crate::table::optional_field("num_shreds"@, CellKind::U64),
            crate::table::optional_field("slots"@, CellKind::Text),
            crate::table::optional_field("num_completed_data_sets"@, CellKind::U64),
            crate::table::optional_field("context"@, CellKind::Text),
        ]
    }

    open spec fn row(&self) -> Seq<crate::table::CellView> {
        seq![
            crate::table::CellView::U64(Some(self.timestamp_us)),
            crate::table::CellView::Text(Some(event_name(self.event_type))),
            crate::table::CellView::U64(Some(self.batch_id)),
            crate::table::CellView::U64(wide(self.num_shreds)),
            crate::table::CellView::Text(crate::table::text_view(self.slots)),
            crate::table::CellView::U64(wide(self.num_completed_data_sets)),
            crate::table::CellView::Text(crate::table::text_view(self.context)),
        ]
    }

    open spec fn cell_bound(&self, j: int) -> nat {
        self.row()[j].bytes()
    }

    proof fn lemma_row_fits(&self) {
    }

    fn fields() -> (fields: Vec<FieldSpec>) {
        let fields: Vec<FieldSpec> = vec![
            required("timestamp_us", CellKind::U64),
            required("event_type", CellKind::Text),
            required("batch_id", CellKind::U64),
            optional("num_shreds", CellKind::U64),
            optional("slots", CellKind::Text),
            optional("num_completed_data_sets", CellKind::U64),
            optional("context", CellKind::Text),
        ];
        assert(crate::table::field_views(fields@) =~= Self::field_list());
        fields
    }

    fn cells(&self) -> (cells: Vec<Cell>) {
        let cells: Vec<Cell> = vec![
            Cell::U64(Some(self.timestamp_us)),
            Cell::Text(Some(owned(self.event_type.as_str()))),
            Cell::U64(Some(self.batch_id)),
            Cell::U64(widened(self.num_shreds)),
            Cell::Text(copied(&self.slots)),
            Cell::U64(widened(self.num_completed_data_sets)),
            Cell::Text(copied(&self.context)),
        ];
        assert(crate::table::cell_views(cells@) =~= self.row());
        cells
    }
}

impl IntoRecordBatch for WindowServiceEvent {

}

impl WindowServiceEvent {
    /// Prefix of the files that hold these records.
    pub fn file_prefix() -> (prefix: &'static str)
        ensures
            prefix@ == "window_service_events"@,
    {
        "window_service_events"
    }
}

/// The writer of events.
pub type WindowServiceEventCsvWriter = RotatingParquetWriter<WindowServiceEvent>;

/// The slots of an event are listed once each, and none is left out.
pub proof fn law_slots_are_listed_once(slots: Seq<u64>)
    ensures
        distinct(slots).no_duplicates(),
        forall|slot: u64| distinct(slots).contains(slot) <==> slots.contains(slot),
    decreases slots.len(),
{
    if slots.len() > 0 {
        let shorter = slots.drop_last();
        let before = distinct(shorter);
        law_slots_are_listed_once(shorter);
        assert forall|slot: u64| distinct(slots).contains(slot) <==> slots.contains(slot) by {
            if slots.contains(slot) {
                let i = choose|i: int| 0 <= i < slots.len() && slots[i] == slot;
                if i < shorter.len() {
                    assert(shorter[i] == slot);
                    assert(shorter.contains(slot));
                    assert(before.contains(slot));
                    let k = choose|k: int| 0 <= k < before.len() && before[k] == slot;
                    assert(distinct(slots)[k] == slot);
                } else if !before.contains(slot) {
                    assert(distinct(slots)[before.len() as int] == slot);
                }
            }
            if distinct(slots).contains(slot) {
                let k = choose|k: int| 0 <= k < distinct(slots).len() && distinct(slots)[k] == slot;
                if k < before.len() {
                    assert(before[k] == slot);
                    assert(before.contains(slot));
                    assert(shorter.contains(slot));
                    let i = choose|i: int| 0 <= i < shorter.len() && shorter[i] == slot;
                    assert(slots[i] == slot);
                } else {
                    assert(slots[slots.len() - 1] == slot);
                }
            }
        }
    }
}

} // verus!
