//! What stands where in the tables of records.
use crate::dataset_tracking::{BlockstoreInsertPhase, BlockstoreInsertPhaseRecord, DatasetExecutionRow, DatasetSignatureRecord, ReplayBatchRecord, ReplayEventType, ShredInsertRecord, TickRecord, TxCostPriorityRecord, TxExecutionRecord};
use crate::shred_arrival_store::ShredArrivalRow;
use crate::fetch_stage_tracer::FetchStageArrival;
use crate::window_service_tracer::{WindowServiceEvent, WindowServiceEventType};
use crate::table::{CellView, FieldView, TableRow};
use vstd::prelude::*;

verus! {

/// A column of the given name exists, may lack values or not as said, and holds the cell in the row;
/// no other column has that name.
pub open spec fn stands_under(
    fields: Seq<FieldView>,
    row: Seq<CellView>,
    name: Seq<char>,
    may_lack: bool,
    cell: CellView,
) -> bool {
    &&& exists|j: int| 0 <= j < fields.len() && (#[trigger] fields[j]).name == name
    &&& forall|j: int|
        0 <= j < fields.len() && (#[trigger] fields[j]).name == name ==> fields[j].nullable
            == may_lack && row[j] == cell
}

/// A table has one column per field and one row per record, in the order of the records: the cell
/// in row `i` of column `j` is the one that record `i` has for field `j`.
pub proof fn law_table_has_a_row_per_record<T: TableRow>(columns: Seq<Seq<CellView>>, records: Seq<T>)
    requires
        crate::table::is_table_of(columns, records),
    ensures
        columns.len() == T::field_list().len(),
        forall|j: int| 0 <= j < columns.len() ==> (#[trigger] columns[j]).len() == records.len(),
        forall|i: int, j: int|
            0 <= j < columns.len() && 0 <= i < records.len() ==> (#[trigger] columns[j][i])
                == records[i].row()[j],
{
    assert forall|i: int, j: int| 0 <= j < columns.len() && 0 <= i < records.len() implies (
    #[trigger] columns[j][i]) == records[i].row()[j] by {
        assert(columns[j] == Seq::new(records.len(), |k: int| records[k].row()[j]));
    }
}

/// The columns of a dataset signature's table: under each name stands the value that the name stands for.
pub proof fn law_dataset_signature_columns(record: DatasetSignatureRecord)
    ensures
        DatasetSignatureRecord::field_list().len() == 6,
        stands_under(
            DatasetSignatureRecord::field_list(),
            record.row(),
            "dataset_id"@,
            false,
            CellView::Text(Some(
                crate::text::decimal(record.slot as int) + seq!['_'] + crate::text::decimal(
                    record.indices.start as int,
                ),
            )),
        ),
        stands_under(
            DatasetSignatureRecord::field_list(),
            record.row(),
            "slot"@,
            false,
            CellView::U64(Some(record.slot)),
        ),
        stands_under(
            DatasetSignatureRecord::field_list(),
            record.row(),
            "first_tx_signature"@,
            false,
            CellView::Text(Some(crate::base58::signature_text(record.first_tx_signature@))),
        ),
        stands_under(
            DatasetSignatureRecord::field_list(),
            record.row(),
            "last_tx_signature"@,
            false,
            CellView::Text(Some(crate::base58::signature_text(record.last_tx_signature@))),
        ),
        stands_under(
            DatasetSignatureRecord::field_list(),
            record.row(),
            "num_transactions"@,
            false,
            CellView::U64(Some(record.num_transactions)),
        ),
        stands_under(
            DatasetSignatureRecord::field_list(),
            record.row(),
            "timestamp_us"@,
            false,
            CellView::U64(Some(record.timestamp_us)),
        ),
{
    reveal_strlit("dataset_id");
    reveal_strlit("slot");
    reveal_strlit("first_tx_signature");
    reveal_strlit("last_tx_signature");
    reveal_strlit("num_transactions");
    reveal_strlit("timestamp_us");
    let fields = DatasetSignatureRecord::field_list();
    assert(fields[0].name == "dataset_id"@);
    assert(fields[1].name == "slot"@);
    assert(fields[2].name == "first_tx_signature"@);
    assert(fields[3].name == "last_tx_signature"@);
    assert(fields[4].name == "num_transactions"@);
    assert(fields[5].name == "timestamp_us"@);
}

/// The columns of a dataset execution's table: under each name stands the value that the name stands for.
pub proof fn law_dataset_execution_columns(record: DatasetExecutionRow)
    ensures
        DatasetExecutionRow::field_list().len() == 7,
        stands_under(
            DatasetExecutionRow::field_list(),
            record.row(),
            "dataset_id"@,
            false,
            CellView::Text(Some(record.dataset_id@)),
        ),
        stands_under(
            DatasetExecutionRow::field_list(),
            record.row(),
            "slot"@,
            false,
            CellView::U64(Some(record.slot)),
        ),
        stands_under(
            DatasetExecutionRow::field_list(),
            record.row(),
            "execution_start_us"@,
            false,
            CellView::U64(Some(record.execution_start_us)),
        ),
        stands_under(
            DatasetExecutionRow::field_list(),
            record.row(),
            "execution_end_us"@,
            false,
            CellView::U64(Some(record.execution_end_us)),
        ),
        stands_under(
            DatasetExecutionRow::field_list(),
            record.row(),
            "duration_us"@,
            false,
            CellView::U64(Some(record.duration_us)),
        ),
        stands_under(
            DatasetExecutionRow::field_list(),
            record.row(),
            "num_entries"@,
            false,
            CellView::U64(Some(record.num_entries)),
        ),
        stands_under(
            DatasetExecutionRow::field_list(),
            record.row(),
            "num_transactions"@,
            false,
            CellView::U64(Some(record.num_transactions)),
        ),
{
    reveal_strlit("dataset_id");
    reveal_strlit("slot");
    reveal_strlit("execution_start_us");
    reveal_strlit("execution_end_us");
    reveal_strlit("duration_us");
    reveal_strlit("num_entries");
    reveal_strlit("num_transactions");
    assert("execution_end_us"@[0] != "num_transactions"@[0]);
    assert("duration_us"@[0] != "num_entries"@[0]);
    let fields = DatasetExecutionRow::field_list();
    assert(fields[0].name == "dataset_id"@);
    assert(fields[1].name == "slot"@);
    assert(fields[2].name == "execution_start_us"@);
    assert(fields[3].name == "execution_end_us"@);
    assert(fields[4].name == "duration_us"@);
    assert(fields[5].name == "num_entries"@);
    assert(fields[6].name == "num_transactions"@);
}

/// The columns of a tick's table: under each name stands the value that the name stands for.
pub proof fn law_tick_columns(record: TickRecord)
    ensures
        TickRecord::field_list().len() == 7,
        stands_under(
            TickRecord::field_list(),
            record.row(),
            "slot"@,
            false,
            CellView::U64(Some(record.slot)),
        ),
        stands_under(
            TickRecord::field_list(),
            record.row(),
            "tick_height"@,
            false,
            CellView::U64(Some(record.tick_height)),
        ),
        stands_under(
            TickRecord::field_list(),
            record.row(),
            "tick_hash"@,
            false,
            CellView::Text(Some(crate::base58::hash_text(record.tick_hash@))),
        ),
        stands_under(
            TickRecord::field_list(),
            record.row(),
            "first_tx_signature"@,
            false,
            CellView::Text(Some(
                match record.first_tx_signature {
                    Some(bytes) => crate::base58::signature_text(bytes@),
                    None => seq![],
                },
            )),
        ),
        stands_under(
            TickRecord::field_list(),
            record.row(),
            "last_tx_signature"@,
            false,
            CellView::Text(Some(
                match record.last_tx_signature {
                    Some(bytes) => crate::base58::signature_text(bytes@),
                    None => seq![],
                },
            )),
        ),
        stands_under(
            TickRecord::field_list(),
            record.row(),
            "num_transactions"@,
            false,
            CellView::U64(Some(record.num_transactions)),
        ),
        stands_under(
            TickRecord::field_list(),
            record.row(),
            "timestamp_us"@,
            false,
            CellView::U64(Some(record.timestamp_us)),
        ),
{
    reveal_strlit("slot");
    reveal_strlit("tick_height");
    reveal_strlit("tick_hash");
    reveal_strlit("first_tx_signature");
    reveal_strlit("last_tx_signature");
    reveal_strlit("num_transactions");
    reveal_strlit("timestamp_us");
    let fields = TickRecord::field_list();
    assert(fields[0].name == "slot"@);
    assert(fields[1].name == "tick_height"@);
    assert(fields[2].name == "tick_hash"@);
    assert(fields[3].name == "first_tx_signature"@);
    assert(fields[4].name == "last_tx_signature"@);
    assert(fields[5].name == "num_transactions"@);
    assert(fields[6].name == "timestamp_us"@);
}

/// The columns of a replay event's table: under each name stands the value that the name stands for.
pub proof fn law_replay_batch_columns(record: ReplayBatchRecord)
    ensures
        ReplayBatchRecord::field_list().len() == 6,
        stands_under(
            ReplayBatchRecord::field_list(),
            record.row(),
            "slot"@,
            false,
            CellView::U64(Some(record.slot)),
        ),
        stands_under(
            ReplayBatchRecord::field_list(),
            record.row(),
            "timestamp_us"@,
            false,
            CellView::U64(Some(record.timestamp_us)),
        ),
        stands_under(
            ReplayBatchRecord::field_list(),
            record.row(),
            "event_type"@,
            false,
            CellView::Text(Some(
                match record.event_type {
                    ReplayEventType::Wakeup => "wakeup"@,
                    ReplayEventType::Finish => "finish"@,
                },
            )),
        ),
        stands_under(
            ReplayBatchRecord::field_list(),
            record.row(),
            "num_entries"@,
            false,
            CellView::U64(Some(record.num_entries)),
        ),
        stands_under(
            ReplayBatchRecord::field_list(),
            record.row(),
            "num_transactions"@,
            false,
            CellView::U64(Some(record.num_transactions)),
        ),
        stands_under(
            ReplayBatchRecord::field_list(),
            record.row(),
            "duration_us"@,
            false,
            CellView::U64(Some(record.duration_us)),
        ),
{
    reveal_strlit("slot");
    reveal_strlit("timestamp_us");
    reveal_strlit("event_type");
    reveal_strlit("num_entries");
    reveal_strlit("num_transactions");
    reveal_strlit("duration_us");
    assert("num_entries"@[0] != "duration_us"@[0]);
    let fields = ReplayBatchRecord::field_list();
    assert(fields[0].name == "slot"@);
    assert(fields[1].name == "timestamp_us"@);
    assert(fields[2].name == "event_type"@);
    assert(fields[3].name == "num_entries"@);
    assert(fields[4].name == "num_transactions"@);
    assert(fields[5].name == "duration_us"@);
}

/// The columns of a insertion phase's table: under each name stands the value that the name stands for.
pub proof fn law_insert_phase_columns(record: BlockstoreInsertPhaseRecord)
    ensures
        BlockstoreInsertPhaseRecord::field_list().len() == 9,
        stands_under(
            BlockstoreInsertPhaseRecord::field_list(),
            record.row(),
            "batch_id"@,
            false,
            CellView::U64(Some(record.batch_id)),
        ),
        stands_under(
            BlockstoreInsertPhaseRecord::field_list(),
            record.row(),
            "slot"@,
            false,
            CellView::U64(Some(record.slot)),
        ),
        stands_under(
            BlockstoreInsertPhaseRecord::field_list(),
            record.row(),
            "phase"@,
            false,
            CellView::Text(Some(
                match record.phase {
                    BlockstoreInsertPhase::LockAcquire => "lock_acquire"@,
                    BlockstoreInsertPhase::AttemptInsertion => "attempt_insertion"@,
                    BlockstoreInsertPhase::ShredRecovery => "shred_recovery"@,
                    BlockstoreInsertPhase::Chaining => "chaining"@,
                    BlockstoreInsertPhase::CommitUpdates => "commit_updates"@,
                    BlockstoreInsertPhase::WriteBatch => "write_batch"@,
                    BlockstoreInsertPhase::SignalCompletion => "signal_completion"@,
                },
            )),
        ),
        stands_under(
            BlockstoreInsertPhaseRecord::field_list(),
            record.row(),
            "start_us"@,
            false,
            CellView::U64(Some(record.start_us)),
        ),
        stands_under(
            BlockstoreInsertPhaseRecord::field_list(),
            record.row(),
            "end_us"@,
            false,
            CellView::U64(Some(record.end_us)),
        ),
        stands_under(
            BlockstoreInsertPhaseRecord::field_list(),
            record.row(),
            "duration_us"@,
            false,
            CellView::U64(Some(
                if record.end_us >= record.start_us {
                    (record.end_us - record.start_us) as u64
                } else {
                    0
                },
            )),
        ),
        stands_under(
            BlockstoreInsertPhaseRecord::field_list(),
            record.row(),
            "num_shreds"@,
            false,
            CellView::U64(Some(record.num_shreds)),
        ),
        stands_under(
            BlockstoreInsertPhaseRecord::field_list(),
            record.row(),
            "num_recovered"@,
            false,
            CellView::U64(Some(record.num_recovered)),
        ),
        stands_under(
            BlockstoreInsertPhaseRecord::field_list(),
            record.row(),
            "num_completed_datasets"@,
            false,
            CellView::U64(Some(record.num_completed_datasets)),
        ),
{
    reveal_strlit("batch_id");
    reveal_strlit("slot");
    reveal_strlit("phase");
    reveal_strlit("start_us");
    reveal_strlit("end_us");
    reveal_strlit("duration_us");
    reveal_strlit("num_shreds");
    reveal_strlit("num_recovered");
    reveal_strlit("num_completed_datasets");
    assert("batch_id"@[0] != "start_us"@[0]);
    let fields = BlockstoreInsertPhaseRecord::field_list();
    assert(fields[0].name == "batch_id"@);
    assert(fields[1].name == "slot"@);
    assert(fields[2].name == "phase"@);
    assert(fields[3].name == "start_us"@);
    assert(fields[4].name == "end_us"@);
    assert(fields[5].name == "duration_us"@);
    assert(fields[6].name == "num_shreds"@);
    assert(fields[7].name == "num_recovered"@);
    assert(fields[8].name == "num_completed_datasets"@);
}

/// The columns of a shred insertion's table: under each name stands the value that the name stands for.
pub proof fn law_shred_insert_columns(record: ShredInsertRecord)
    ensures
        ShredInsertRecord::field_list().len() == 6,
        stands_under(
            ShredInsertRecord::field_list(),
            record.row(),
            "batch_id"@,
            false,
            CellView::U64(Some(record.batch_id)),
        ),
        stands_under(
            ShredInsertRecord::field_list(),
            record.row(),
            "slot"@,
            false,
            CellView::U64(Some(record.slot)),
        ),
        stands_under(
            ShredInsertRecord::field_list(),
            record.row(),
            "shred_index"@,
            false,
            CellView::U32(Some(record.shred_index)),
        ),
        stands_under(
            ShredInsertRecord::field_list(),
            record.row(),
            "is_data"@,
            false,
            CellView::Flag(Some(record.is_data)),
        ),
        stands_under(
            ShredInsertRecord::field_list(),
            record.row(),
            "is_recovered"@,
            false,
            CellView::Flag(Some(record.is_recovered)),
        ),
        stands_under(
            ShredInsertRecord::field_list(),
            record.row(),
            "timestamp_us"@,
            false,
            CellView::U64(Some(record.timestamp_us)),
        ),
{
    reveal_strlit("batch_id");
    reveal_strlit("slot");
    reveal_strlit("shred_index");
    reveal_strlit("is_data");
    reveal_strlit("is_recovered");
    reveal_strlit("timestamp_us");
    assert("is_recovered"@[0] != "timestamp_us"@[0]);
    let fields = ShredInsertRecord::field_list();
    assert(fields[0].name == "batch_id"@);
    assert(fields[1].name == "slot"@);
    assert(fields[2].name == "shred_index"@);
    assert(fields[3].name == "is_data"@);
    assert(fields[4].name == "is_recovered"@);
    assert(fields[5].name == "timestamp_us"@);
}

/// The columns of a transaction execution's table: under each name stands the value that the name stands for.
pub proof fn law_tx_execution_columns(record: TxExecutionRecord)
    ensures
        TxExecutionRecord::field_list().len() == 5,
        stands_under(
            TxExecutionRecord::field_list(),
            record.row(),
            "slot"@,
            false,
            CellView::U64(Some(record.slot)),
        ),
        stands_under(
            TxExecutionRecord::field_list(),
            record.row(),
            "signature"@,
            false,
            CellView::Text(Some(crate::base58::signature_text(record.signature@))),
        ),
        stands_under(
            TxExecutionRecord::field_list(),
            record.row(),
            "execution_start_us"@,
            false,
            CellView::U64(Some(record.execution_start_us)),
        ),
        stands_under(
            TxExecutionRecord::field_list(),
            record.row(),
            "execution_end_us"@,
            false,
            CellView::U64(Some(record.execution_end_us)),
        ),
        stands_under(
            TxExecutionRecord::field_list(),
            record.row(),
            "duration_us"@,
            false,
            CellView::U64(Some(
                if record.execution_end_us >= record.execution_start_us {
                    (record.execution_end_us - record.execution_start_us) as u64
                } else {
                    0
                },
            )),
        ),
{
    reveal_strlit("slot");
    reveal_strlit("signature");
    reveal_strlit("execution_start_us");
    reveal_strlit("execution_end_us");
    reveal_strlit("duration_us");
    let fields = TxExecutionRecord::field_list();
    assert(fields[0].name == "slot"@);
    assert(fields[1].name == "signature"@);
    assert(fields[2].name == "execution_start_us"@);
    assert(fields[3].name == "execution_end_us"@);
    assert(fields[4].name == "duration_us"@);
}

/// The columns of a transaction's cost's table: under each name stands the value that the name stands for.
pub proof fn law_tx_cost_columns(record: TxCostPriorityRecord)
    ensures
        TxCostPriorityRecord::field_list().len() == 13,
        stands_under(
            TxCostPriorityRecord::field_list(),
            record.row(),
            "slot"@,
            false,
            CellView::U64(Some(record.slot)),
        ),
        stands_under(
            TxCostPriorityRecord::field_list(),
            record.row(),
            "signature"@,
            false,
            CellView::Text(Some(crate::base58::signature_text(record.signature@))),
        ),
        stands_under(
            TxCostPriorityRecord::field_list(),
            record.row(),
            "priority"@,
            false,
            CellView::U64(Some(record.priority)),
        ),
        stands_under(
            TxCostPriorityRecord::field_list(),
            record.row(),
            "reward"@,
            false,
            CellView::U64(Some(record.reward)),
        ),
        stands_under(
            TxCostPriorityRecord::field_list(),
            record.row(),
            "cost"@,
            false,
            CellView::U64(Some(record.cost)),
        ),
        stands_under(
            TxCostPriorityRecord::field_list(),
            record.row(),
            "signature_cost"@,
            false,
            CellView::U64(Some(record.signature_cost)),
        ),
        stands_under(
            TxCostPriorityRecord::field_list(),
            record.row(),
            "write_lock_cost"@,
            false,
            CellView::U64(Some(record.write_lock_cost)),
        ),
        stands_under(
            TxCostPriorityRecord::field_list(),
            record.row(),
            "data_bytes_cost"@,
            false,
            CellView::U64(Some(record.data_bytes_cost)),
        ),
        stands_under(
            TxCostPriorityRecord::field_list(),
            record.row(),
            "programs_execution_cost"@,
            false,
            CellView::U64(Some(record.programs_execution_cost)),
        ),
        stands_under(
            TxCostPriorityRecord::field_list(),
            record.row(),
            "loaded_accounts_data_size_cost"@,
            false,
            CellView::U64(Some(record.loaded_accounts_data_size_cost)),
        ),
        stands_under(
            TxCostPriorityRecord::field_list(),
            record.row(),
            "allocated_accounts_data_size"@,
            false,
            CellView::U64(Some(record.allocated_accounts_data_size)),
        ),
        stands_under(
            TxCostPriorityRecord::field_list(),
            record.row(),
            "is_simple_vote"@,
            false,
            CellView::Flag(Some(record.is_simple_vote)),
        ),
        stands_under(
            TxCostPriorityRecord::field_list(),
            record.row(),
            "timestamp_us"@,
            false,
            CellView::U64(Some(record.timestamp_us)),
        ),
{
    reveal_strlit("slot");
    reveal_strlit("signature");
    reveal_strlit("priority");
    reveal_strlit("reward");
    reveal_strlit("cost");
    reveal_strlit("signature_cost");
    reveal_strlit("write_lock_cost");
    reveal_strlit("data_bytes_cost");
    reveal_strlit("programs_execution_cost");
    reveal_strlit("loaded_accounts_data_size_cost");
    reveal_strlit("allocated_accounts_data_size");
    reveal_strlit("is_simple_vote");
    reveal_strlit("timestamp_us");
    assert("slot"@[0] != "cost"@[0]);
    assert("signature_cost"@[0] != "is_simple_vote"@[0]);
    assert("write_lock_cost"@[0] != "data_bytes_cost"@[0]);
    let fields = TxCostPriorityRecord::field_list();
    assert(fields[0].name == "slot"@);
    assert(fields[1].name == "signature"@);
    assert(fields[2].name == "priority"@);
    assert(fields[3].name == "reward"@);
    assert(fields[4].name == "cost"@);
    assert(fields[5].name == "signature_cost"@);
    assert(fields[6].name == "write_lock_cost"@);
    assert(fields[7].name == "data_bytes_cost"@);
    assert(fields[8].name == "programs_execution_cost"@);
    assert(fields[9].name == "loaded_accounts_data_size_cost"@);
    assert(fields[10].name == "allocated_accounts_data_size"@);
    assert(fields[11].name == "is_simple_vote"@);
    assert(fields[12].name == "timestamp_us"@);
}

/// The columns of a shred arrival's table: under each name stands the value that the name stands for.
pub proof fn law_shred_arrival_columns(record: ShredArrivalRow)
    ensures
        ShredArrivalRow::field_list().len() == 8,
        stands_under(
            ShredArrivalRow::field_list(),
            record.row(),
            "dataset_id"@,
            false,
            CellView::Text(Some(record.dataset_id@)),
        ),
        stands_under(
            ShredArrivalRow::field_list(),
            record.row(),
            "slot"@,
            false,
            CellView::U64(Some(record.slot)),
        ),
        stands_under(
            ShredArrivalRow::field_list(),
            record.row(),
            "shred_index"@,
            false,
            CellView::U32(Some(record.shred_index)),
        ),
        stands_under(
            ShredArrivalRow::field_list(),
            record.row(),
            "is_data"@,
            false,
            CellView::Flag(Some(record.is_data)),
        ),
        stands_under(
            ShredArrivalRow::field_list(),
            record.row(),
            "arrival_time_ms"@,
            false,
            CellView::U64(Some(record.arrival_time_ms)),
        ),
        stands_under(
            ShredArrivalRow::field_list(),
            record.row(),
            "arrival_time_us"@,
            false,
            CellView::U32(Some(record.arrival_time_us)),
        ),
        stands_under(
            ShredArrivalRow::field_list(),
            record.row(),
            "source_ip"@,
            false,
            CellView::Text(Some(record.source_ip@)),
        ),
        stands_under(
            ShredArrivalRow::field_list(),
            record.row(),
            "source_type"@,
            false,
            CellView::Text(Some(record.source_type@)),
        ),
{
    reveal_strlit("dataset_id");
    reveal_strlit("slot");
    reveal_strlit("shred_index");
    reveal_strlit("is_data");
    reveal_strlit("arrival_time_ms");
    reveal_strlit("arrival_time_us");
    reveal_strlit("source_ip");
    reveal_strlit("source_type");
    assert("shred_index"@[1] != "source_type"@[1]);
    assert("arrival_time_ms"@[13] != "arrival_time_us"@[13]);
    let fields = ShredArrivalRow::field_list();
    assert(fields[0].name == "dataset_id"@);
    assert(fields[1].name == "slot"@);
    assert(fields[2].name == "shred_index"@);
    assert(fields[3].name == "is_data"@);
    assert(fields[4].name == "arrival_time_ms"@);
    assert(fields[5].name == "arrival_time_us"@);
    assert(fields[6].name == "source_ip"@);
    assert(fields[7].name == "source_type"@);
}

/// The columns of a packet's table: under each name stands the value that the name stands for.
pub proof fn law_fetch_stage_columns(record: FetchStageArrival)
    ensures
        FetchStageArrival::field_list().len() == 9,
        stands_under(
            FetchStageArrival::field_list(),
            record.row(),
            "timestamp_us"@,
            false,
            CellView::U64(Some(record.timestamp_us)),
        ),
        stands_under(
            FetchStageArrival::field_list(),
            record.row(),
            "slot"@,
            true,
            CellView::U64(record.slot),
        ),
        stands_under(
            FetchStageArrival::field_list(),
            record.row(),
            "shred_index"@,
            true,
            CellView::U32(record.shred_index),
        ),
        stands_under(
            FetchStageArrival::field_list(),
            record.row(),
            "is_data"@,
            true,
            CellView::Flag(record.is_data),
        ),
        stands_under(
            FetchStageArrival::field_list(),
            record.row(),
            "source_ip"@,
            false,
            CellView::Text(Some(record.source_ip@)),
        ),
        stands_under(
            FetchStageArrival::field_list(),
            record.row(),
            "source_port"@,
            false,
            CellView::U16(Some(record.source_port)),
        ),
        stands_under(
            FetchStageArrival::field_list(),
            record.row(),
            "packet_size"@,
            false,
            CellView::U64(Some(record.packet_size as u64)),
        ),
        stands_under(
            FetchStageArrival::field_list(),
            record.row(),
            "is_repair"@,
            false,
            CellView::Flag(Some(record.is_repair)),
        ),
        stands_under(
            FetchStageArrival::field_list(),
            record.row(),
            "is_quic"@,
            false,
            CellView::Flag(Some(record.is_quic)),
        ),
{
    reveal_strlit("timestamp_us");
    reveal_strlit("slot");
    reveal_strlit("shred_index");
    reveal_strlit("is_data");
    reveal_strlit("source_ip");
    reveal_strlit("source_port");
    reveal_strlit("packet_size");
    reveal_strlit("is_repair");
    reveal_strlit("is_quic");
    assert("shred_index"@[1] != "source_port"@[1]);
    assert("shred_index"@[0] != "packet_size"@[0]);
    assert("is_data"@[3] != "is_quic"@[3]);
    assert("source_ip"@[0] != "is_repair"@[0]);
    assert("source_port"@[0] != "packet_size"@[0]);
    let fields = FetchStageArrival::field_list();
    assert(fields[0].name == "timestamp_us"@);
    assert(fields[1].name == "slot"@);
    assert(fields[2].name == "shred_index"@);
    assert(fields[3].name == "is_data"@);
    assert(fields[4].name == "source_ip"@);
    assert(fields[5].name == "source_port"@);
    assert(fields[6].name == "packet_size"@);
    assert(fields[7].name == "is_repair"@);
    assert(fields[8].name == "is_quic"@);
}

/// The columns of a step of the window service's table: under each name stands the value that the name stands for.
pub proof fn law_window_service_columns(record: WindowServiceEvent)
    ensures
        WindowServiceEvent::field_list().len() == 7,
        stands_under(
            WindowServiceEvent::field_list(),
            record.row(),
            "timestamp_us"@,
            false,
            CellView::U64(Some(record.timestamp_us)),
        ),
        stands_under(
            WindowServiceEvent::field_list(),
            record.row(),
            "event_type"@,
            false,
            CellView::Text(Some(
                match record.event_type {
                    WindowServiceEventType::RunInsertStart => "run_insert_start"@,
                    WindowServiceEventType::RecvWaitStart => "recv_wait_start"@,
                    WindowServiceEventType::RecvWaitEnd => "recv_wait_end"@,
                    WindowServiceEventType::BatchMergeStart => "batch_merge_start"@,
                    WindowServiceEventType::BatchMergeEnd => "batch_merge_end"@,
                    WindowServiceEventType::HandlePacketsStart => "handle_packets_start"@,
                    WindowServiceEventType::HandlePacketsEnd => "handle_packets_end"@,
                    WindowServiceEventType::PayloadBuildStart => "payload_build_start"@,
                    WindowServiceEventType::PayloadBuildEnd => "payload_build_end"@,
                    WindowServiceEventType::LatencyEventRecord => "latency_event_record"@,
                    WindowServiceEventType::BlockstoreInsertStart => "blockstore_insert_start"@,
                    WindowServiceEventType::BlockstoreInsertEnd => "blockstore_insert_end"@,
                    WindowServiceEventType::EntryCacheStart => "entry_cache_start"@,
                    WindowServiceEventType::EntryCacheEnd => "entry_cache_end"@,
                    WindowServiceEventType::ShredArrivalRecordStart => "shred_arrival_record_start"@,
                    WindowServiceEventType::ShredArrivalRecordEnd => "shred_arrival_record_end"@,
                    WindowServiceEventType::SignalStart => "signal_start"@,
                    WindowServiceEventType::SignalEnd => "signal_end"@,
                    WindowServiceEventType::RunInsertEnd => "run_insert_end"@,
                },
            )),
        ),
        stands_under(
            WindowServiceEvent::field_list(),
            record.row(),
            "batch_id"@,
            false,
            CellView::U64(Some(record.batch_id)),
        ),
        stands_under(
            WindowServiceEvent::field_list(),
            record.row(),
            "num_shreds"@,
            true,
            CellView::U64(match record.num_shreds {
                Some(n) => Some(n as u64),
                None => None,
            }),
        ),
        stands_under(
            WindowServiceEvent::field_list(),
            record.row(),
            "slots"@,
            true,
            CellView::Text(match record.slots {
                Some(text) => Some(text@),
                None => None,
            }),
        ),
        stands_under(
            WindowServiceEvent::field_list(),
            record.row(),
            "num_completed_data_sets"@,
            true,
            CellView::U64(match record.num_completed_data_sets {
                Some(n) => Some(n as u64),
                None => None,
            }),
        ),
        stands_under(
            WindowServiceEvent::field_list(),
            record.row(),
            "context"@,
            true,
            CellView::Text(match record.context {
                Some(text) => Some(text@),
                None => None,
            }),
        ),
{
    reveal_strlit("timestamp_us");
    reveal_strlit("event_type");
    reveal_strlit("batch_id");
    reveal_strlit("num_shreds");
    reveal_strlit("slots");
    reveal_strlit("num_completed_data_sets");
    reveal_strlit("context");
    assert("event_type"@[0] != "num_shreds"@[0]);
    let fields = WindowServiceEvent::field_list();
    assert(fields[0].name == "timestamp_us"@);
    assert(fields[1].name == "event_type"@);
    assert(fields[2].name == "batch_id"@);
    assert(fields[3].name == "num_shreds"@);
    assert(fields[4].name == "slots"@);
    assert(fields[5].name == "num_completed_data_sets"@);
    assert(fields[6].name == "context"@);
}

} // verus!
