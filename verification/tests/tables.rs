use arrow::array::{Array, BooleanArray, StringArray, UInt16Array, UInt32Array, UInt64Array};
use arrow::datatypes::DataType;
use slot_stream::dataset_tracking::{
    duration_us, execution_row, joined_id, joined_span_id, BatchCounter, BlockstoreInsertPhase,
    BlockstoreInsertPhaseRecord, DatasetExecutionCsvWriter, DatasetExecutionRow,
    DatasetSignatureRecord, ExecutionTrackingMessage, ReplayBatchRecord, ReplayEventType,
    ShredInsertRecord, TickRecord, TxCostPriorityRecord, TxExecutionRecord,
};
use slot_stream::fetch_stage_tracer::FetchStageArrival;
use slot_stream::parquet_writer::{
    file_sequence, find_next_sequence, parquet_file_name, RotatingParquetWriter, WriterAction,
    WriterEvent, FLUSH_RECORD_THRESHOLD,
};
use slot_stream::table::{IntoRecordBatch, Table};
use slot_stream::window_service_tracer::{
    distinct_slots, joined_slots, WindowServiceEvent, WindowServiceEventType,
};

fn texts(table: &Table, column: &str) -> Vec<Option<String>> {
    let array = table.batch.column_by_name(column).unwrap();
    let array = array.as_any().downcast_ref::<StringArray>().unwrap();
    (0..array.len())
        .map(|i| {
            if array.is_null(i) {
                None
            } else {
                Some(array.value(i).to_string())
            }
        })
        .collect()
}

fn numbers(table: &Table, column: &str) -> Vec<Option<u64>> {
    let array = table.batch.column_by_name(column).unwrap();
    let array = array.as_any().downcast_ref::<UInt64Array>().unwrap();
    (0..array.len())
        .map(|i| {
            if array.is_null(i) {
                None
            } else {
                Some(array.value(i))
            }
        })
        .collect()
}

fn flags(table: &Table, column: &str) -> Vec<Option<bool>> {
    let array = table.batch.column_by_name(column).unwrap();
    let array = array.as_any().downcast_ref::<BooleanArray>().unwrap();
    (0..array.len())
        .map(|i| {
            if array.is_null(i) {
                None
            } else {
                Some(array.value(i))
            }
        })
        .collect()
}

#[test]
fn test_fetch_stage_arrival_creation() {
    let arrival = FetchStageArrival::new(
        1,
        Some(12345),
        Some(42),
        Some(true),
        "192.168.1.1".to_string(),
        8001,
        1228,
        false,
        false,
    );

    assert_eq!(arrival.slot, Some(12345));
    assert_eq!(arrival.shred_index, Some(42));
    assert_eq!(arrival.is_data, Some(true));
    assert_eq!(arrival.packet_size, 1228);
    assert!(!arrival.is_repair);
    assert!(!arrival.is_quic);
    assert!(arrival.timestamp_us > 0);
}

#[test]
fn test_window_service_event_creation() {
    let event = WindowServiceEvent::new(WindowServiceEventType::RunInsertStart, 42, 1)
        .with_num_shreds(10)
        .with_slots(&vec![100, 101, 102])
        .with_context("test context".to_string());

    assert_eq!(event.batch_id, 42);
    assert_eq!(event.event_type, WindowServiceEventType::RunInsertStart);
    assert_eq!(event.num_shreds, Some(10));
    assert_eq!(event.slots, Some("100;101;102".to_string()));
    assert_eq!(event.context, Some("test context".to_string()));
    assert!(event.timestamp_us > 0);
}

#[test]
fn test_event_type_as_str() {
    assert_eq!(
        WindowServiceEventType::RunInsertStart.as_str(),
        "run_insert_start"
    );
    assert_eq!(
        WindowServiceEventType::BlockstoreInsertEnd.as_str(),
        "blockstore_insert_end"
    );
}

#[test]
fn test_fetch_stage_parquet_writer() {
    let mut writer: RotatingParquetWriter<FetchStageArrival> =
        RotatingParquetWriter::new(FetchStageArrival::file_prefix().to_string(), &Vec::new());
    let first = FetchStageArrival::with_timestamp(
        1000000,
        Some(100),
        Some(0),
        Some(true),
        "10.0.0.1".to_string(),
        8001,
        1228,
        false,
        false,
    );
    let second = FetchStageArrival::with_timestamp(
        1000100,
        Some(100),
        Some(1),
        Some(true),
        "10.0.0.2".to_string(),
        8001,
        1228,
        true,
        false,
    );
    assert_eq!(writer.step(WriterEvent::Record(first), 0), WriterAction::Wait);
    assert_eq!(writer.step(WriterEvent::Record(second), 0), WriterAction::Wait);

    // With the sender gone, what is left is written
    assert_eq!(
        writer.step(WriterEvent::Disconnected, 0),
        WriterAction::FlushAndStop
    );
    let file = writer.flush_buffer().unwrap();
    assert!(file.name.ends_with(".parquet"));
    assert_eq!(file.table.batch.num_rows(), 2);
    assert_eq!(file.table.batch.schema(), file.schema);
    assert_eq!(
        texts(&file.table, "source_ip"),
        vec![Some("10.0.0.1".to_string()), Some("10.0.0.2".to_string())]
    );
    assert_eq!(numbers(&file.table, "slot"), vec![Some(100), Some(100)]);
    assert_eq!(flags(&file.table, "is_data"), vec![Some(true), Some(true)]);
    assert_eq!(flags(&file.table, "is_repair"), vec![Some(false), Some(true)]);
    let ports = file.table.batch.column_by_name("source_port").unwrap();
    let ports = ports.as_any().downcast_ref::<UInt16Array>().unwrap();
    assert_eq!((ports.value(0), ports.value(1)), (8001, 8001));
    let indexes = file.table.batch.column_by_name("shred_index").unwrap();
    let indexes = indexes.as_any().downcast_ref::<UInt32Array>().unwrap();
    assert_eq!((indexes.value(0), indexes.value(1)), (0, 1));
    assert!(writer.flush_buffer().is_none());
}

#[test]
fn missing_values_are_null() {
    let records = vec![FetchStageArrival::with_timestamp(
        1,
        None,
        None,
        None,
        "10.0.0.2".to_string(),
        8001,
        1228,
        true,
        false,
    )];
    let table = FetchStageArrival::to_record_batch(&records.clone());
    assert_eq!(numbers(&table, "slot"), vec![None]);
    assert_eq!(flags(&table, "is_data"), vec![None]);
    assert_eq!(flags(&table, "is_repair"), vec![Some(true)]);
}

#[test]
fn test_window_service_parquet_writer() {
    let mut counter = BatchCounter::new();
    let batch_id = counter.next_batch_id();
    let mut writer: RotatingParquetWriter<WindowServiceEvent> =
        RotatingParquetWriter::new(WindowServiceEvent::file_prefix().to_string(), &Vec::new());
    for event in [
        WindowServiceEvent::new(WindowServiceEventType::RunInsertStart, batch_id, 5)
            .with_num_shreds(5),
        WindowServiceEvent::new(WindowServiceEventType::RecvWaitStart, batch_id, 6),
        WindowServiceEvent::new(WindowServiceEventType::RunInsertEnd, batch_id, 7)
            .with_completed_data_sets(2),
    ] {
        assert_eq!(writer.step(WriterEvent::Record(event), 0), WriterAction::Wait);
    }
    assert_eq!(
        writer.step(WriterEvent::Disconnected, 0),
        WriterAction::FlushAndStop
    );
    let file = writer.flush_buffer().unwrap();
    assert_eq!(file.table.batch.num_rows(), 3);
    assert_eq!(
        texts(&file.table, "event_type"),
        vec![
            Some("run_insert_start".to_string()),
            Some("recv_wait_start".to_string()),
            Some("run_insert_end".to_string()),
        ]
    );
    assert_eq!(counter.next_batch_id(), batch_id + 1);
}

#[test]
fn schema_fields_are_typed() {
    let schema = ShredInsertRecord::arrow_schema();
    let fields: Vec<(String, DataType, bool)> = schema
        .fields()
        .iter()
        .map(|f| (f.name().clone(), f.data_type().clone(), f.is_nullable()))
        .collect();
    assert_eq!(
        fields,
        vec![
            ("batch_id".to_string(), DataType::UInt64, false),
            ("slot".to_string(), DataType::UInt64, false),
            ("shred_index".to_string(), DataType::UInt32, false),
            ("is_data".to_string(), DataType::Boolean, false),
            ("is_recovered".to_string(), DataType::Boolean, false),
            ("timestamp_us".to_string(), DataType::UInt64, false),
        ]
    );
    assert_eq!(
        FetchStageArrival::arrow_schema()
            .field_with_name("slot")
            .unwrap()
            .is_nullable(),
        true
    );
}

#[test]
fn signatures_and_hashes_are_written_in_base58() {
    let records = vec![TickRecord {
        slot: 3,
        tick_height: 9,
        tick_hash: [0u8; 32],
        first_tx_signature: Some([0u8; 64]),
        last_tx_signature: None,
        num_transactions: 1,
        timestamp_us: 10,
    }];
    let table = TickRecord::to_record_batch(&records);
    assert_eq!(
        texts(&table, "tick_hash"),
        vec![Some("11111111111111111111111111111111".to_string())]
    );
    assert_eq!(
        texts(&table, "first_tx_signature"),
        vec![Some("1".repeat(64))]
    );
    assert_eq!(
        texts(&table, "last_tx_signature"),
        vec![Some(String::new())]
    );
    assert_eq!(numbers(&table, "tick_height"), vec![Some(9)]);

    let records = vec![DatasetSignatureRecord {
        slot: 8,
        indices: 16..32,
        first_tx_signature: [0u8; 64],
        last_tx_signature: [0u8; 64],
        num_transactions: 2,
        timestamp_us: 5,
    }];
    let table = DatasetSignatureRecord::to_record_batch(&records);
    assert_eq!(
        texts(&table, "first_tx_signature"),
        vec![Some("1".repeat(64))]
    );
    assert_eq!(
        texts(&table, "dataset_id"),
        vec![Some("8_16".to_string())]
    );
}

#[test]
fn durations_are_derived() {
    assert_eq!(duration_us(10, 25), 15);
    assert_eq!(duration_us(25, 10), 0);
    let table = TxExecutionRecord::to_record_batch(&[TxExecutionRecord {
        slot: 1,
        signature: [0u8; 64],
        execution_start_us: 100,
        execution_end_us: 130,
    }]);
    assert_eq!(numbers(&table, "duration_us"), vec![Some(30)]);
    let table = BlockstoreInsertPhaseRecord::to_record_batch(&[BlockstoreInsertPhaseRecord {
        batch_id: 4,
        slot: 1,
        phase: BlockstoreInsertPhase::ShredRecovery,
        start_us: 7,
        end_us: 9,
        num_shreds: 1,
        num_recovered: 0,
        num_completed_datasets: 0,
    }]);
    assert_eq!(numbers(&table, "duration_us"), vec![Some(2)]);
    assert_eq!(
        texts(&table, "phase"),
        vec![Some("shred_recovery".to_string())]
    );
    let record = ReplayBatchRecord::finish(5, 6, 7, 8, 9);
    assert_eq!(record.event_type, ReplayEventType::Finish);
    assert_eq!((record.num_entries, record.duration_us), (7, 9));
    assert_eq!(ReplayBatchRecord::wakeup(5, 6).num_entries, 0);
}

#[test]
fn costs_are_written_field_by_field() {
    let table = TxCostPriorityRecord::to_record_batch(&[TxCostPriorityRecord {
        slot: 1,
        signature: [0u8; 64],
        priority: 2,
        reward: 3,
        cost: 4,
        signature_cost: 5,
        write_lock_cost: 6,
        data_bytes_cost: 7,
        programs_execution_cost: 8,
        loaded_accounts_data_size_cost: 9,
        allocated_accounts_data_size: 10,
        is_simple_vote: true,
        timestamp_us: 11,
    }]);
    assert_eq!(numbers(&table, "reward"), vec![Some(3)]);
    assert_eq!(
        numbers(&table, "allocated_accounts_data_size"),
        vec![Some(10)]
    );
    assert_eq!(flags(&table, "is_simple_vote"), vec![Some(true)]);
}

#[test]
fn names_are_joined() {
    assert_eq!(joined_id(12, 34), "12_34");
    assert_eq!(joined_span_id(12, 34, 56), "12_34_56");
    assert_eq!(joined_slots(&vec![]), "");
    assert_eq!(distinct_slots(&vec![7, 9, 7, 8, 9]), vec![7, 9, 8]);
    let event = WindowServiceEvent::new(WindowServiceEventType::RunInsertEnd, 1, 1);
    assert_eq!(event.with_slots(&vec![4, 4, 5]).slots, Some("4;5".to_string()));
    let event = WindowServiceEvent::new(WindowServiceEventType::RunInsertEnd, 1, 1);
    assert_eq!(event.with_slots(&vec![]).slots, None);
    assert_eq!(joined_slots(&vec![7]), "7");
}

#[test]
fn files_are_numbered_on() {
    assert_eq!(parquet_file_name("ticks", 7), "ticks_000007.parquet");
    assert_eq!(parquet_file_name("ticks", 12345678), "ticks_12345678.parquet");
    assert_eq!(file_sequence("ticks_000007.parquet", "ticks"), Some(7));
    assert_eq!(file_sequence("ticks_x.parquet", "ticks"), None);
    assert_eq!(file_sequence("tocks_000007.parquet", "ticks"), None);
    assert_eq!(file_sequence("ticks_000007.csv", "ticks"), None);
    let names = vec![
        "ticks_000003.parquet".to_string(),
        "other_000009.parquet".to_string(),
        "ticks_000001.parquet".to_string(),
    ];
    assert_eq!(find_next_sequence(&names, "ticks"), 4);
    assert_eq!(find_next_sequence(&Vec::new(), "ticks"), 0);

    // A number that was used is read back and never given again.
    let mut writer: RotatingParquetWriter<ReplayBatchRecord> =
        RotatingParquetWriter::new("ticks".to_string(), &names);
    writer.step(WriterEvent::Record(ReplayBatchRecord::wakeup(1, 2)), 0);
    let file = writer.flush_buffer().unwrap();
    assert_eq!(file.name, "ticks_000004.parquet");
    assert_eq!(writer.sequence, 5);
}

#[test]
fn tables_are_written_when_complete_or_old() {
    let mut writer: RotatingParquetWriter<ReplayBatchRecord> =
        RotatingParquetWriter::new("replay".to_string(), &Vec::new());
    assert_eq!(writer.step(WriterEvent::Timeout, 1000), WriterAction::Wait);
    assert_eq!(writer.step(WriterEvent::Disconnected, 0), WriterAction::Stop);
    let mut last = WriterAction::Wait;
    for _ in 0..FLUSH_RECORD_THRESHOLD {
        assert_eq!(last, WriterAction::Wait);
        last = writer.step(WriterEvent::Record(ReplayBatchRecord::wakeup(1, 2)), 59);
    }
    assert_eq!(last, WriterAction::Flush);
    assert_eq!(
        writer.flush_buffer().unwrap().table.batch.num_rows(),
        FLUSH_RECORD_THRESHOLD
    );
    assert_eq!(
        writer.step(WriterEvent::Record(ReplayBatchRecord::wakeup(1, 2)), 60),
        WriterAction::Flush
    );
    assert_eq!(writer.step(WriterEvent::Timeout, 60), WriterAction::Flush);
}

#[test]
fn executions_are_collected_by_dataset() {
    let complete = ExecutionTrackingMessage::DatasetComplete {
        slot: 4,
        shred_start: 0,
        shred_end: 32,
        execution_start_us: 10,
        execution_end_us: 14,
        num_entries: 3,
        num_transactions: 2,
    };
    let row = execution_row(&complete).unwrap();
    assert_eq!(row.dataset_id, "4_0_32");
    assert_eq!(row.duration_us, 4);
    let mut writer = DatasetExecutionCsvWriter {
        inner: RotatingParquetWriter::new(
            DatasetExecutionRow::file_prefix().to_string(),
            &Vec::new(),
        ),
    };
    assert_eq!(writer.on_message(&complete), WriterAction::Wait);
    assert_eq!(
        writer.on_message(&ExecutionTrackingMessage::SlotComplete { slot: 4 }),
        WriterAction::Wait
    );
    assert_eq!(writer.inner.buffer.len(), 1);
    assert_eq!(writer.on_timeout(60), WriterAction::Flush);
    assert_eq!(writer.on_disconnected(), WriterAction::FlushAndStop);
}
