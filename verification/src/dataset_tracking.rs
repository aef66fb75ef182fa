//! Records on datasets, ticks, replay, block-store insertions and transactions, and the tables
//! they are written as.
//!
//! Times are microseconds of one monotonic clock.
use crate::base58::{text_of_hash, text_of_signature};
use crate::parquet_writer::{
    RotatingParquetWriter, WriterAction, FLUSH_INTERVAL_SECS, FLUSH_RECORD_THRESHOLD,
};
use crate::table::{required, Cell, CellKind, FieldSpec, IntoRecordBatch, TableRow};
use crate::text::{owned, push_decimal};
use std::ops::Range;
use vstd::prelude::*;

verus! {

/// The slot and the first shred of a dataset, joined.
pub open spec fn dataset_id(slot: u64, start: int) -> Seq<char> {
    crate::text::decimal(slot as int) + seq!['_'] + crate::text::decimal(start)
}

/// The slot, the first shred and the shred behind a dataset, joined.
pub open spec fn dataset_span_id(slot: u64, start: int, end: int) -> Seq<char> {
    dataset_id(slot, start) + seq!['_'] + crate::text::decimal(end)
}

/// Joins a slot and a shred index.
pub fn joined_id(slot: u64, start: u64) -> (id: String)
    ensures
        id@ == dataset_id(slot, start as int),
{
    let mut id: String = String::new();
    push_decimal(&mut id, slot);
    id.push('_');
    push_decimal(&mut id, start);
    assert(id@ =~= dataset_id(slot, start as int));
    id
}

/// Joins a slot and two shred indexes.
pub fn joined_span_id(slot: u64, start: u64, end: u64) -> (id: String)
    ensures
        id@ == dataset_span_id(slot, start as int, end as int),
{
    let mut id: String = joined_id(slot, start);
    id.push('_');
    push_decimal(&mut id, end);
    assert(id@ =~= dataset_span_id(slot, start as int, end as int));
    id
}

/// Time from `start` to `end`, 0 where it is not later.
pub open spec fn duration(start: u64, end: u64) -> u64 {
    if end >= start {
        (end - start) as u64
    } else {
        0
    }
}

/// Time from `start` to `end`, 0 where it is not later.
pub fn duration_us(start: u64, end: u64) -> (micros: u64)
    ensures
        micros == duration(start, end),
{
    end.saturating_sub(start)
}


/// The first and the last transaction of a completed dataset.
#[derive(Debug)]
pub struct DatasetSignatureRecord {
    pub slot: u64,
    pub indices: Range<u32>,
    pub first_tx_signature: [u8; 64],
    pub last_tx_signature: [u8; 64],
    pub num_transactions: u64,
    pub timestamp_us: u64,
}

impl TableRow for DatasetSignatureRecord {
    open spec fn field_list() -> Seq<crate::table::FieldView> {
        seq![
            crate::table::required_field("dataset_id"@, CellKind::Text),
            crate::table::required_field("slot"@, CellKind::U64),
            crate::table::required_field("first_tx_signature"@, CellKind::Text),
            crate::table::required_field("last_tx_signature"@, CellKind::Text),
            crate::table::required_field("num_transactions"@, CellKind::U64),
            crate::table::required_field("timestamp_us"@, CellKind::U64),
        ]
    }

    open spec fn row(&self) -> Seq<crate::table::CellView> {
        seq![
            crate::table::CellView::Text(Some(dataset_id(self.slot, self.indices.start as int))),
            crate::table::CellView::U64(Some(self.slot)),
            crate::table::CellView::Text(Some(crate::base58::signature_text(self.first_tx_signature@))),
            crate::table::CellView::Text(Some(crate::base58::signature_text(self.last_tx_signature@))),
            crate::table::CellView::U64(Some(self.num_transactions)),
            crate::table::CellView::U64(Some(self.timestamp_us)),
        ]
    }

    open spec fn cell_bound(&self, j: int) -> nat {
        if j == 2 || j == 3 {
            88
        } else {
            self.row()[j].bytes()
        }
    }

    proof fn lemma_row_fits(&self) {
    }

    fn fields() -> (fields: Vec<FieldSpec>) {
        let fields: Vec<FieldSpec> = vec![
            required("dataset_id", CellKind::Text),
            required("slot", CellKind::U64),
            required("first_tx_signature", CellKind::Text),
            required("last_tx_signature", CellKind::Text),
            required("num_transactions", CellKind::U64),
            required("timestamp_us", CellKind::U64),
        ];
        assert(crate::table::field_views(fields@) =~= Self::field_list());
        fields
    }

    fn cells(&self) -> (cells: Vec<Cell>) {
        let cells: Vec<Cell> = vec![
            Cell::Text(Some(joined_id(self.slot, self.indices.start as u64))),
            Cell::U64(Some(self.slot)),
            Cell::Text(Some(text_of_signature(&self.first_tx_signature))),
            Cell::Text(Some(text_of_signature(&self.last_tx_signature))),
            Cell::U64(Some(self.num_transactions)),
            Cell::U64(Some(self.timestamp_us)),
        ];
        assert(crate::table::cell_views(cells@) =~= self.row());
        cells
    }
}

impl IntoRecordBatch for DatasetSignatureRecord {

}

impl DatasetSignatureRecord {
    /// Prefix of the files that hold these records.
    pub fn file_prefix() -> (prefix: &'static str)
        ensures
            prefix@ == "dataset_signatures"@,
    {
        "dataset_signatures"
    }
}

/// The writer of dataset signatures.
pub type DatasetSignatureCsvWriter = RotatingParquetWriter<DatasetSignatureRecord>;

/// Timing of one execution of a dataset's entries.
#[derive(Debug)]
pub struct DatasetExecutionRecord {
    pub slot: u64,
    pub shred_start: u64,
    pub shred_end: u64,
    pub execution_start_us: u64,
    pub execution_end_us: u64,
    pub duration_us: u64,
    pub num_entries: u64,
    pub num_transactions: u64,
}

/// What the writer of execution timings is told.
#[derive(Debug)]
pub enum ExecutionTrackingMessage {
    /// A dataset was executed.
    DatasetComplete {
        slot: u64,
        shred_start: u64,
        shred_end: u64,
        execution_start_us: u64,
        execution_end_us: u64,
        num_entries: u64,
        num_transactions: u64,
    },
    /// A slot was executed.
    SlotComplete { slot: u64 },
}

/// Timing of one execution, as it is written.
#[derive(Debug)]
pub struct DatasetExecutionRow {
    pub dataset_id: String,
    pub slot: u64,
    pub execution_start_us: u64,
    pub execution_end_us: u64,
    pub duration_us: u64,
    pub num_entries: u64,
    pub num_transactions: u64,
}

impl TableRow for DatasetExecutionRow {
    open spec fn field_list() -> Seq<crate::table::FieldView> {
        seq![
            crate::table::required_field("dataset_id"@, CellKind::Text),
            crate::table::required_field("slot"@, CellKind::U64),
            crate::table::required_field("execution_start_us"@, CellKind::U64),
            crate::table::required_field("execution_end_us"@, CellKind::U64),
            crate::table::required_field("duration_us"@, CellKind::U64),
            crate::table::required_field("num_entries"@, CellKind::U64),
            crate::table::required_field("num_transactions"@, CellKind::U64),
        ]
    }

    open spec fn row(&self) -> Seq<crate::table::CellView> {
        seq![
            crate::table::CellView::Text(Some(self.dataset_id@)),
            crate::table::CellView::U64(Some(self.slot)),
            crate::table::CellView::U64(Some(self.execution_start_us)),
            crate::table::CellView::U64(Some(self.execution_end_us)),
            crate::table::CellView::U64(Some(self.duration_us)),
            crate::table::CellView::U64(Some(self.num_entries)),
            crate::table::CellView::U64(Some(self.num_transactions)),
        ]
    }

    open spec fn cell_bound(&self, j: int) -> nat {
        self.row()[j].bytes()
    }

    proof fn lemma_row_fits(&self) {
    }

    fn fields() -> (fields: Vec<FieldSpec>) {
        let fields: Vec<FieldSpec> = vec![
            required("dataset_id", CellKind::Text),
            required("slot", CellKind::U64),
            required("execution_start_us", CellKind::U64),
            required("execution_end_us", CellKind::U64),
            required("duration_us", CellKind::U64),
            required("num_entries", CellKind::U64),
            required("num_transactions", CellKind::U64),
        ];
        assert(crate::table::field_views(fields@) =~= Self::field_list());
        fields
    }

    fn cells(&self) -> (cells: Vec<Cell>) {
        let cells: Vec<Cell> = vec![
            Cell::Text(Some(self.dataset_id.clone())),
            Cell::U64(Some(self.slot)),
            Cell::U64(Some(self.execution_start_us)),
            Cell::U64(Some(self.execution_end_us)),
            Cell::U64(Some(self.duration_us)),
            Cell::U64(Some(self.num_entries)),
            Cell::U64(Some(self.num_transactions)),
        ];
        assert(crate::table::cell_views(cells@) =~= self.row());
        cells
    }
}

impl IntoRecordBatch for DatasetExecutionRow {

}

impl DatasetExecutionRow {
    /// Prefix of the files that hold these records.
    pub fn file_prefix() -> (prefix: &'static str)
        ensures
            prefix@ == "dataset_execution"@,
    {
        "dataset_execution"
    }
}

/// Whether this is the row of a message; a message that a slot was executed has none.
pub open spec fn is_execution_row(
    row: Option<DatasetExecutionRow>,
    message: ExecutionTrackingMessage,
) -> bool {
    match message {
        ExecutionTrackingMessage::DatasetComplete {
            slot,
            shred_start,
            shred_end,
            execution_start_us,
            execution_end_us,
            num_entries,
            num_transactions,
        } => {
            &&& row matches Some(r)
            &&& r.dataset_id@ == dataset_span_id(slot, shred_start as int, shred_end as int)
            &&& r.slot == slot
            &&& r.execution_start_us == execution_start_us
            &&& r.execution_end_us == execution_end_us
            &&& r.duration_us == duration(execution_start_us, execution_end_us)
            &&& r.num_entries == num_entries
            &&& r.num_transactions == num_transactions
        },
        ExecutionTrackingMessage::SlotComplete { .. } => row is None,
    }
}

/// The row of a message; a message that a slot was executed has none.
pub fn execution_row(message: &ExecutionTrackingMessage) -> (row: Option<DatasetExecutionRow>)
    ensures
        is_execution_row(row, *message),
{
    match message {
        ExecutionTrackingMessage::DatasetComplete {
            slot,
            shred_start,
            shred_end,
            execution_start_us,
            execution_end_us,
            num_entries,
            num_transactions,
        } => Some(
            DatasetExecutionRow {
                dataset_id: joined_span_id(*slot, *shred_start, *shred_end),
                slot: *slot,
                execution_start_us: *execution_start_us,
                execution_end_us: *execution_end_us,
                duration_us: duration_us(*execution_start_us, *execution_end_us),
                num_entries: *num_entries,
                num_transactions: *num_transactions,
            },
        ),
        ExecutionTrackingMessage::SlotComplete { .. } => None,
    }
}

/// The writer of execution times.
pub struct DatasetExecutionCsvWriter {
    pub inner: RotatingParquetWriter<DatasetExecutionRow>,
}

impl DatasetExecutionCsvWriter {
    /// A message arrived. Its row is collected; a table is written once it is complete.
    pub fn on_message(&mut self, message: &ExecutionTrackingMessage) -> (action: WriterAction)
        requires
            old(self).inner.buffer@.len() < usize::MAX,
        ensures
            final(self).inner.prefix == old(self).inner.prefix,
            final(self).inner.sequence == old(self).inner.sequence,
            *message is SlotComplete ==> {
                &&& final(self).inner.buffer@ == old(self).inner.buffer@
                &&& action == WriterAction::Wait
            },
            *message is DatasetComplete ==> {
                &&& final(self).inner.buffer@.len() == old(self).inner.buffer@.len() + 1
                &&& final(self).inner.buffer@.drop_last() == old(self).inner.buffer@
                &&& is_execution_row(Some(final(self).inner.buffer@.last()), *message)
                &&& action == if final(self).inner.buffer@.len() >= FLUSH_RECORD_THRESHOLD {
                    WriterAction::Flush
                } else {
                    WriterAction::Wait
                }
            },
    {
        let ghost before = self.inner.buffer@;
        match execution_row(message) {
            Some(row) => {
                self.inner.buffer.push(row);
                assert(self.inner.buffer@.drop_last() =~= before);
                if self.inner.buffer.len() >= FLUSH_RECORD_THRESHOLD {
                    WriterAction::Flush
                } else {
                    WriterAction::Wait
                }
            },
            None => WriterAction::Wait,
        }
    }

    /// No message arrived for a second.
    pub fn on_timeout(&self, elapsed_secs: u64) -> (action: WriterAction)
        ensures
            action == if self.inner.buffer@.len() > 0 && elapsed_secs >= FLUSH_INTERVAL_SECS {
                WriterAction::Flush
            } else {
                WriterAction::Wait
            },
    {
        self.inner.on_timeout(elapsed_secs)
    }

    /// No message will arrive.
    pub fn on_disconnected(&self) -> (action: WriterAction)
        ensures
            action == if self.inner.buffer@.len() > 0 {
                WriterAction::FlushAndStop
            } else {
                WriterAction::Stop
            },
    {
        self.inner.on_disconnected()
    }
}

/// A tick, with the transactions of the entry before it.
#[derive(Debug)]
pub struct TickRecord {
    pub slot: u64,
    pub tick_height: u64,
    pub tick_hash: [u8; 32],
    pub first_tx_signature: Option<[u8; 64]>,
    pub last_tx_signature: Option<[u8; 64]>,
    pub num_transactions: u64,
    pub timestamp_us: u64,
}

/// The text of a signature, empty where there is none.
pub open spec fn optional_signature_text(signature: Option<[u8; 64]>) -> Seq<char> {
    match signature {
        Some(bytes) => crate::base58::signature_text(bytes@),
        None => seq![],
    }
}

/// The text of a signature, empty where there is none.
fn text_or_empty(signature: &Option<[u8; 64]>) -> (text: String)
    ensures
        text@ == optional_signature_text(*signature),
        vstd::utf8::encode_utf8(text@).len() <= 88,
{
    match signature {
        Some(bytes) => text_of_signature(bytes),
        None => String::new(),
    }
}

impl TableRow for TickRecord {
    open spec fn field_list() -> Seq<crate::table::FieldView> {
        seq![
            crate::table::required_field("slot"@, CellKind::U64),
            crate::table::required_field("tick_height"@, CellKind::U64),
            crate::table::required_field("tick_hash"@, CellKind::Text),
            crate::table::required_field("first_tx_signature"@, CellKind::Text),
            crate::table::required_field("last_tx_signature"@, CellKind::Text),
            crate::table::required_field("num_transactions"@, CellKind::U64),
            crate::table::required_field("timestamp_us"@, CellKind::U64),
        ]
    }

    open spec fn row(&self) -> Seq<crate::table::CellView> {
        seq![
            crate::table::CellView::U64(Some(self.slot)),
            crate::table::CellView::U64(Some(self.tick_height)),
            crate::table::CellView::Text(Some(crate::base58::hash_text(self.tick_hash@))),
            crate::table::CellView::Text(Some(optional_signature_text(self.first_tx_signature))),
            crate::table::CellView::Text(Some(optional_signature_text(self.last_tx_signature))),
            crate::table::CellView::U64(Some(self.num_transactions)),
            crate::table::CellView::U64(Some(self.timestamp_us)),
        ]
    }

    open spec fn cell_bound(&self, j: int) -> nat {
        if j == 2 || j == 3 || j == 4 {
            88
        } else {
            self.row()[j].bytes()
        }
    }

    proof fn lemma_row_fits(&self) {
    }

    fn fields() -> (fields: Vec<FieldSpec>) {
        let fields: Vec<FieldSpec> = vec![
            required("slot", CellKind::U64),
            required("tick_height", CellKind::U64),
            required("tick_hash", CellKind::Text),
            required("first_tx_signature", CellKind::Text),
            required("last_tx_signature", CellKind::Text),
            required("num_transactions", CellKind::U64),
            required("timestamp_us", CellKind::U64),
        ];
        assert(crate::table::field_views(fields@) =~= Self::field_list());
        fields
    }

    fn cells(&self) -> (cells: Vec<Cell>) {
        let cells: Vec<Cell> = vec![
            Cell::U64(Some(self.slot)),
            Cell::U64(Some(self.tick_height)),
            Cell::Text(Some(text_of_hash(&self.tick_hash))),
            Cell::Text(Some(text_or_empty(&self.first_tx_signature))),
            Cell::Text(Some(text_or_empty(&self.last_tx_signature))),
            Cell::U64(Some(self.num_transactions)),
            Cell::U64(Some(self.timestamp_us)),
        ];
        assert(crate::table::cell_views(cells@) =~= self.row());
        cells
    }
}

impl IntoRecordBatch for TickRecord {

}

impl TickRecord {
    /// Prefix of the files that hold these records.
    pub fn file_prefix() -> (prefix: &'static str)
        ensures
            prefix@ == "ticks"@,
    {
        "ticks"
    }
}

/// The writer of ticks.
pub type TickTrackingCsvWriter = RotatingParquetWriter<TickRecord>;

/// What a replay record is about.
#[derive(Debug, Clone, Copy, PartialEq, Eq, Structural)]
pub enum ReplayEventType {
    Wakeup,
    Finish,
}

/// The name of a replay event in tables.
pub open spec fn replay_event_name(value: ReplayEventType) -> Seq<char> {
    match value {
        ReplayEventType::Wakeup => "wakeup"@,
        ReplayEventType::Finish => "finish"@,
    }
}

impl ReplayEventType {
    /// The name in tables.
    pub fn as_str(&self) -> (name: &'static str)
        ensures
            name@ == replay_event_name(*self),
    {
        match self {
            ReplayEventType::Wakeup => "wakeup",
            ReplayEventType::Finish => "finish",
        }
    }
}

/// The start or the end of the replay of a batch.
#[derive(Debug)]
pub struct ReplayBatchRecord {
    pub slot: u64,
    pub timestamp_us: u64,
    pub event_type: ReplayEventType,
    /// 0 at the start.
    pub num_entries: u64,
    /// 0 at the start.
    pub num_transactions: u64,
    /// 0 at the start.
    pub duration_us: u64,
}

impl ReplayBatchRecord {
    /// The start of a replay.
    pub fn wakeup(slot: u64, timestamp_us: u64) -> (record: ReplayBatchRecord)
        ensures
            record == (ReplayBatchRecord {
                slot,
                timestamp_us,
                event_type: ReplayEventType::Wakeup,
                num_entries: 0,
                num_transactions: 0,
                duration_us: 0,
            }),
    {
        ReplayBatchRecord {
            slot,
            timestamp_us,
            event_type: ReplayEventType::Wakeup,
            num_entries: 0,
            num_transactions: 0,
            duration_us: 0,
        }
    }

    /// The end of a replay.
    pub fn finish(
        slot: u64,
        timestamp_us: u64,
        num_entries: u64,
        num_transactions: u64,
        duration_us: u64,
    ) -> (record: ReplayBatchRecord)
        ensures
            record == (ReplayBatchRecord {
                slot,
                timestamp_us,
                event_type: ReplayEventType::Finish,
                num_entries,
                num_transactions,
                duration_us,
            }),
    {
        ReplayBatchRecord {
            slot,
            timestamp_us,
            event_type: ReplayEventType::Finish,
            num_entries,
            num_transactions,
            duration_us,
        }
    }
}

impl TableRow for ReplayBatchRecord {
    open spec fn field_list() -> Seq<crate::table::FieldView> {
        seq![
            crate::table::required_field("slot"@, CellKind::U64),
            crate::table::required_field("timestamp_us"@, CellKind::U64),
            crate::table::required_field("event_type"@, CellKind::Text),
            crate::table::required_field("num_entries"@, CellKind::U64),
            crate::table::required_field("num_transactions"@, CellKind::U64),
            crate::table::required_field("duration_us"@, CellKind::U64),
        ]
    }

    open spec fn row(&self) -> Seq<crate::table::CellView> {
        seq![
            crate::table::CellView::U64(Some(self.slot)),
            crate::table::CellView::U64(Some(self.timestamp_us)),
            crate::table::CellView::Text(Some(replay_event_name(self.event_type))),
            crate::table::CellView::U64(Some(self.num_entries)),
            crate::table::CellView::U64(Some(self.num_transactions)),
            crate::table::CellView::U64(Some(self.duration_us)),
        ]
    }

    open spec fn cell_bound(&self, j: int) -> nat {
        self.row()[j].bytes()
    }

    proof fn lemma_row_fits(&self) {
    }

    fn fields() -> (fields: Vec<FieldSpec>) {
        let fields: Vec<FieldSpec> = vec![
            required("slot", CellKind::U64),
            required("timestamp_us", CellKind::U64),
            required("event_type", CellKind::Text),
            required("num_entries", CellKind::U64),
            required("num_transactions", CellKind::U64),
            required("duration_us", CellKind::U64),
        ];
        assert(crate::table::field_views(fields@) =~= Self::field_list());
        fields
    }

    fn cells(&self) -> (cells: Vec<Cell>) {
        let cells: Vec<Cell> = vec![
            Cell::U64(Some(self.slot)),
            Cell::U64(Some(self.timestamp_us)),
            Cell::Text(Some(owned(self.event_type.as_str()))),
            Cell::U64(Some(self.num_entries)),
            Cell::U64(Some(self.num_transactions)),
            Cell::U64(Some(self.duration_us)),
        ];
        assert(crate::table::cell_views(cells@) =~= self.row());
        cells
    }
}

impl IntoRecordBatch for ReplayBatchRecord {

}

impl ReplayBatchRecord {
    /// Prefix of the files that hold these records.
    pub fn file_prefix() -> (prefix: &'static str)
        ensures
            prefix@ == "replay_batches"@,
    {
        "replay_batches"
    }
}

/// The writer of replay events.
pub type ReplayBatchCsvWriter = RotatingParquetWriter<ReplayBatchRecord>;

/// Phases of the insertion of shreds into the block store.
#[derive(Debug, Clone, Copy, PartialEq, Eq, Structural)]
pub enum BlockstoreInsertPhase {
    /// Waiting for the lock.
    LockAcquire,
    /// Inserting the shreds.
    AttemptInsertion,
    /// Recovering missing shreds.
    ShredRecovery,
    /// Chaining slots.
    Chaining,
    /// Collecting the updates.
    CommitUpdates,
    /// Writing the updates.
    WriteBatch,
    /// Telling others of completed slots.
    SignalCompletion,
}

/// The name of a phase in tables.
pub open spec fn phase_name(value: BlockstoreInsertPhase) -> Seq<char> {
    match value {
        BlockstoreInsertPhase::LockAcquire => "lock_acquire"@,
        BlockstoreInsertPhase::AttemptInsertion => "attempt_insertion"@,
        BlockstoreInsertPhase::ShredRecovery => "shred_recovery"@,
        BlockstoreInsertPhase::Chaining => "chaining"@,
        BlockstoreInsertPhase::CommitUpdates => "commit_updates"@,
        BlockstoreInsertPhase::WriteBatch => "write_batch"@,
        BlockstoreInsertPhase::SignalCompletion => "signal_completion"@,
    }
}

impl BlockstoreInsertPhase {
    /// The name in tables.
    pub fn as_str(&self) -> (name: &'static str)
        ensures
            name@ == phase_name(*self),
    {
        match self {
            BlockstoreInsertPhase::LockAcquire => "lock_acquire",
            BlockstoreInsertPhase::AttemptInsertion => "attempt_insertion",
            BlockstoreInsertPhase::ShredRecovery => "shred_recovery",
            BlockstoreInsertPhase::Chaining => "chaining",
            BlockstoreInsertPhase::CommitUpdates => "commit_updates",
            BlockstoreInsertPhase::WriteBatch => "write_batch",
            BlockstoreInsertPhase::SignalCompletion => "signal_completion",
        }
    }
}

/// One phase of one insertion.
#[derive(Debug)]
pub struct BlockstoreInsertPhaseRecord {
    /// Number of the insertion.
    pub batch_id: u64,
    /// First slot of the insertion.
    pub slot: u64,
    pub phase: BlockstoreInsertPhase,
    pub start_us: u64,
    pub end_us: u64,
    pub num_shreds: u64,
    pub num_recovered: u64,
    pub num_completed_datasets: u64,
}

impl TableRow for BlockstoreInsertPhaseRecord {
    open spec fn field_list() -> Seq<crate::table::FieldView> {
        seq![
            crate::table::required_field("batch_id"@, CellKind::U64),
            crate::table::required_field("slot"@, CellKind::U64),
            crate::table::required_field("phase"@, CellKind::Text),
            crate::table::required_field("start_us"@, CellKind::U64),
            crate::table::required_field("end_us"@, CellKind::U64),
            crate::table::required_field("duration_us"@, CellKind::U64),
            crate::table::required_field("num_shreds"@, CellKind::U64),
            crate::table::required_field("num_recovered"@, CellKind::U64),
            crate::table::required_field("num_completed_datasets"@, CellKind::U64),
        ]
    }

    open spec fn row(&self) -> Seq<crate::table::CellView> {
        seq![
            crate::table::CellView::U64(Some(self.batch_id)),
            crate::table::CellView::U64(Some(self.slot)),
            crate::table::CellView::Text(Some(phase_name(self.phase))),
            crate::table::CellView::U64(Some(self.start_us)),
            crate::table::CellView::U64(Some(self.end_us)),
            crate::table::CellView::U64(Some(crate::dataset_tracking::duration(self.start_us, self.end_us))),
            crate::table::CellView::U64(Some(self.num_shreds)),
            crate::table::CellView::U64(Some(self.num_recovered)),
            crate::table::CellView::U64(Some(self.num_completed_datasets)),
        ]
    }

    open spec fn cell_bound(&self, j: int) -> nat {
        self.row()[j].bytes()
    }

    proof fn lemma_row_fits(&self) {
    }

    fn fields() -> (fields: Vec<FieldSpec>) {
        let fields: Vec<FieldSpec> = vec![
            required("batch_id", CellKind::U64),
            required("slot", CellKind::U64),
            required("phase", CellKind::Text),
            required("start_us", CellKind::U64),
            required("end_us", CellKind::U64),
            required("duration_us", CellKind::U64),
            required("num_shreds", CellKind::U64),
            required("num_recovered", CellKind::U64),
            required("num_completed_datasets", CellKind::U64),
        ];
        assert(crate::table::field_views(fields@) =~= Self::field_list());
        fields
    }

    fn cells(&self) -> (cells: Vec<Cell>) {
        let cells: Vec<Cell> = vec![
            Cell::U64(Some(self.batch_id)),
            Cell::U64(Some(self.slot)),
            Cell::Text(Some(owned(self.phase.as_str()))),
            Cell::U64(Some(self.start_us)),
            Cell::U64(Some(self.end_us)),
            Cell::U64(Some(duration_us(self.start_us, self.end_us))),
            Cell::U64(Some(self.num_shreds)),
            Cell::U64(Some(self.num_recovered)),
            Cell::U64(Some(self.num_completed_datasets)),
        ];
        assert(crate::table::cell_views(cells@) =~= self.row());
        cells
    }
}

impl IntoRecordBatch for BlockstoreInsertPhaseRecord {

}

impl BlockstoreInsertPhaseRecord {
    /// Prefix of the files that hold these records.
    pub fn file_prefix() -> (prefix: &'static str)
        ensures
            prefix@ == "blockstore_insert_phases"@,
    {
        "blockstore_insert_phases"
    }
}

/// The writer of insertion phases.
pub type BlockstoreInsertPhaseCsvWriter = RotatingParquetWriter<BlockstoreInsertPhaseRecord>;

/// Numbers insertions.
#[derive(Debug)]
pub struct BatchCounter {
    pub next: u64,
}

impl BatchCounter {
    /// A counter that starts at 0.
    pub fn new() -> (counter: BatchCounter)
        ensures
            counter.next == 0,
    {
        BatchCounter { next: 0 }
    }

    /// The next number.
    pub fn next_batch_id(&mut self) -> (id: u64)
        ensures
            id == old(self).next,
            final(self).next == old(self).next.wrapping_add(1),
    {
        let id: u64 = self.next;
        self.next = id.wrapping_add(1);
        id
    }
}

/// The insertion of one shred.
#[derive(Debug, Clone, Copy)]
pub struct ShredInsertRecord {
    pub batch_id: u64,
    pub slot: u64,
    pub shred_index: u32,
    pub is_data: bool,
    pub is_recovered: bool,
    pub timestamp_us: u64,
}

impl TableRow for ShredInsertRecord {
    open spec fn field_list() -> Seq<crate::table::FieldView> {
        seq![
            crate::table::required_field("batch_id"@, CellKind::U64),
            crate::table::required_field("slot"@, CellKind::U64),
            crate::table::required_field("shred_index"@, CellKind::U32),
            crate::table::required_field("is_data"@, CellKind::Flag),
            crate::table::required_field("is_recovered"@, CellKind::Flag),
            crate::table::required_field("timestamp_us"@, CellKind::U64),
        ]
    }

    open spec fn row(&self) -> Seq<crate::table::CellView> {
        seq![
            crate::table::CellView::U64(Some(self.batch_id)),
            crate::table::CellView::U64(Some(self.slot)),
            crate::table::CellView::U32(Some(self.shred_index)),
            crate::table::CellView::Flag(Some(self.is_data)),
            crate::table::CellView::Flag(Some(self.is_recovered)),
            crate::table::CellView::U64(Some(self.timestamp_us)),
        ]
    }

    open spec fn cell_bound(&self, j: int) -> nat {
        self.row()[j].bytes()
    }

    proof fn lemma_row_fits(&self) {
    }

    fn fields() -> (fields: Vec<FieldSpec>) {
        let fields: Vec<FieldSpec> = vec![
            required("batch_id", CellKind::U64),
            required("slot", CellKind::U64),
            required("shred_index", CellKind::U32),
            required("is_data", CellKind::Flag),
            required("is_recovered", CellKind::Flag),
            required("timestamp_us", CellKind::U64),
        ];
        assert(crate::table::field_views(fields@) =~= Self::field_list());
        fields
    }

    fn cells(&self) -> (cells: Vec<Cell>) {
        let cells: Vec<Cell> = vec![
            Cell::U64(Some(self.batch_id)),
            Cell::U64(Some(self.slot)),
            Cell::U32(Some(self.shred_index)),
            Cell::Flag(Some(self.is_data)),
            Cell::Flag(Some(self.is_recovered)),
            Cell::U64(Some(self.timestamp_us)),
        ];
        assert(crate::table::cell_views(cells@) =~= self.row());
        cells
    }
}

impl IntoRecordBatch for ShredInsertRecord {

}

impl ShredInsertRecord {
    /// Prefix of the files that hold these records.
    pub fn file_prefix() -> (prefix: &'static str)
        ensures
            prefix@ == "shred_inserts"@,
    {
        "shred_inserts"
    }
}

/// The writer of shred insertions.
pub type ShredInsertCsvWriter = RotatingParquetWriter<ShredInsertRecord>;

/// The execution of one transaction.
#[derive(Debug, Clone)]
pub struct TxExecutionRecord {
    pub slot: u64,
    pub signature: [u8; 64],
    pub execution_start_us: u64,
    pub execution_end_us: u64,
}

impl TableRow for TxExecutionRecord {
    open spec fn field_list() -> Seq<crate::table::FieldView> {
        seq![
            crate::table::required_field("slot"@, CellKind::U64),
            crate::table::required_field("signature"@, CellKind::Text),
            crate::table::required_field("execution_start_us"@, CellKind::U64),
            crate::table::required_field("execution_end_us"@, CellKind::U64),
            crate::table::required_field("duration_us"@, CellKind::U64),
        ]
    }

    open spec fn row(&self) -> Seq<crate::table::CellView> {
        seq![
            crate::table::CellView::U64(Some(self.slot)),
            crate::table::CellView::Text(Some(crate::base58::signature_text(self.signature@))),
            crate::table::CellView::U64(Some(self.execution_start_us)),
            crate::table::CellView::U64(Some(self.execution_end_us)),
            crate::table::CellView::U64(Some(crate::dataset_tracking::duration(self.execution_start_us, self.execution_end_us))),
        ]
    }

    open spec fn cell_bound(&self, j: int) -> nat {
        if j == 1 {
            88
        } else {
            self.row()[j].bytes()
        }
    }

    proof fn lemma_row_fits(&self) {
    }

    fn fields() -> (fields: Vec<FieldSpec>) {
        let fields: Vec<FieldSpec> = vec![
            required("slot", CellKind::U64),
            required("signature", CellKind::Text),
            required("execution_start_us", CellKind::U64),
            required("execution_end_us", CellKind::U64),
            required("duration_us", CellKind::U64),
        ];
        assert(crate::table::field_views(fields@) =~= Self::field_list());
        fields
    }

    fn cells(&self) -> (cells: Vec<Cell>) {
        let cells: Vec<Cell> = vec![
            Cell::U64(Some(self.slot)),
            Cell::Text(Some(text_of_signature(&self.signature))),
            Cell::U64(Some(self.execution_start_us)),
            Cell::U64(Some(self.execution_end_us)),
            Cell::U64(Some(duration_us(self.execution_start_us, self.execution_end_us))),
        ];
        assert(crate::table::cell_views(cells@) =~= self.row());
        cells
    }
}

impl IntoRecordBatch for TxExecutionRecord {

}

impl TxExecutionRecord {
    /// Prefix of the files that hold these records.
    pub fn file_prefix() -> (prefix: &'static str)
        ensures
            prefix@ == "tx_execution"@,
    {
        "tx_execution"
    }
}

/// The writer of transaction executions.
pub type TxExecutionCsvWriter = RotatingParquetWriter<TxExecutionRecord>;

/// The cost and the priority of one transaction.
#[derive(Debug, Clone)]
pub struct TxCostPriorityRecord {
    pub slot: u64,
    pub signature: [u8; 64],
    pub priority: u64,
    pub reward: u64,
    pub cost: u64,
    pub signature_cost: u64,
    pub write_lock_cost: u64,
    pub data_bytes_cost: u64,
    pub programs_execution_cost: u64,
    pub loaded_accounts_data_size_cost: u64,
    pub allocated_accounts_data_size: u64,
    pub is_simple_vote: bool,
    pub timestamp_us: u64,
}

impl TableRow for TxCostPriorityRecord {
    open spec fn field_list() -> Seq<crate::table::FieldView> {
        seq![
            crate::table::required_field("slot"@, CellKind::U64),
            crate::table::required_field("signature"@, CellKind::Text),
            crate::table::required_field("priority"@, CellKind::U64),
            crate::table::required_field("reward"@, CellKind::U64),
            crate::table::required_field("cost"@, CellKind::U64),
            crate::table::required_field("signature_cost"@, CellKind::U64),
            crate::table::required_field("write_lock_cost"@, CellKind::U64),
            crate::table::required_field("data_bytes_cost"@, CellKind::U64),
            crate::table::required_field("programs_execution_cost"@, CellKind::U64),
            crate::table::required_field("loaded_accounts_data_size_cost"@, CellKind::U64),
            crate::table::required_field("allocated_accounts_data_size"@, CellKind::U64),
            crate::table::required_field("is_simple_vote"@, CellKind::Flag),
            crate::table::required_field("timestamp_us"@, CellKind::U64),
        ]
    }

    open spec fn row(&self) -> Seq<crate::table::CellView> {
        seq![
            crate::table::CellView::U64(Some(self.slot)),
            crate::table::CellView::Text(Some(crate::base58::signature_text(self.signature@))),
            crate::table::CellView::U64(Some(self.priority)),
            crate::table::CellView::U64(Some(self.reward)),
            crate::table::CellView::U64(Some(self.cost)),
            crate::table::CellView::U64(Some(self.signature_cost)),
            crate::table::CellView::U64(Some(self.write_lock_cost)),
            crate::table::CellView::U64(Some(self.data_bytes_cost)),
            crate::table::CellView::U64(Some(self.programs_execution_cost)),
            crate::table::CellView::U64(Some(self.loaded_accounts_data_size_cost)),
            crate::table::CellView::U64(Some(self.allocated_accounts_data_size)),
            crate::table::CellView::Flag(Some(self.is_simple_vote)),
            crate::table::CellView::U64(Some(self.timestamp_us)),
        ]
    }

    open spec fn cell_bound(&self, j: int) -> nat {
        if j == 1 {
            88
        } else {
            self.row()[j].bytes()
        }
    }

    proof fn lemma_row_fits(&self) {
    }

    fn fields() -> (fields: Vec<FieldSpec>) {
        let fields: Vec<FieldSpec> = vec![
            required("slot", CellKind::U64),
            required("signature", CellKind::Text),
            required("priority", CellKind::U64),
            required("reward", CellKind::U64),
            required("cost", CellKind::U64),
            required("signature_cost", CellKind::U64),
            required("write_lock_cost", CellKind::U64),
            required("data_bytes_cost", CellKind::U64),
            required("programs_execution_cost", CellKind::U64),
            required("loaded_accounts_data_size_cost", CellKind::U64),
            required("allocated_accounts_data_size", CellKind::U64),
            required("is_simple_vote", CellKind::Flag),
            required("timestamp_us", CellKind::U64),
        ];
        assert(crate::table::field_views(fields@) =~= Self::field_list());
        fields
    }

    fn cells(&self) -> (cells: Vec<Cell>) {
        let cells: Vec<Cell> = vec![
            Cell::U64(Some(self.slot)),
            Cell::Text(Some(text_of_signature(&self.signature))),
            Cell::U64(Some(self.priority)),
            Cell::U64(Some(self.reward)),
            Cell::U64(Some(self.cost)),
            Cell::U64(Some(self.signature_cost)),
            Cell::U64(Some(self.write_lock_cost)),
            Cell::U64(Some(self.data_bytes_cost)),
            Cell::U64(Some(self.programs_execution_cost)),
            Cell::U64(Some(self.loaded_accounts_data_size_cost)),
            Cell::U64(Some(self.allocated_accounts_data_size)),
            Cell::Flag(Some(self.is_simple_vote)),
            Cell::U64(Some(self.timestamp_us)),
        ];
        assert(crate::table::cell_views(cells@) =~= self.row());
        cells
    }
}

impl IntoRecordBatch for TxCostPriorityRecord {

}

impl TxCostPriorityRecord {
    /// Prefix of the files that hold these records.
    pub fn file_prefix() -> (prefix: &'static str)
        ensures
            prefix@ == "tx_cost_priority"@,
    {
        "tx_cost_priority"
    }
}

/// The writer of transaction costs.
pub type TxCostPriorityCsvWriter = RotatingParquetWriter<TxCostPriorityRecord>;

} // verus!
