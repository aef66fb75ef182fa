use slot_stream::parquet_writer::{RotatingParquetWriter, WriterAction};
use slot_stream::shred_arrival_store::{
    request_rows, stored_key, ShredArrivalBuffer, ShredArrivalCsvWriter, ShredArrivalMeta,
    ShredArrivalRow, ShredArrivalSource, MAX_BUFFER_SIZE,
};

fn meta(ms: u64, us: u32, ip: &str, source: ShredArrivalSource) -> ShredArrivalMeta {
    ShredArrivalMeta {
        arrival_time_ms: ms,
        arrival_time_us: us,
        source_ip: ip.to_string(),
        source,
    }
}

#[test]
fn test_shred_arrival_buffer() {
    let mut buffer = ShredArrivalBuffer::new();

    // Record some arrivals (both data and coding shreds)
    let meta1 = meta(1000, 500, "192.168.1.1", ShredArrivalSource::TurbineUdp);
    let meta2 = meta(2000, 750, "192.168.1.2", ShredArrivalSource::TurbineQuic);
    let meta3 = meta(1500, 250, "192.168.1.3", ShredArrivalSource::TurbineUdp);

    buffer.record_arrival(100, 0, true, meta1.clone()); // data shred
    buffer.record_arrival(100, 1, true, meta2.clone()); // data shred
    buffer.record_arrival(100, 0, false, meta3.clone()); // coding shred

    // Trigger completed data set; the request holds both data and coding shreds
    let request = buffer.on_completed_data_set(100, 0..2).unwrap();
    assert_eq!(request.slot, 100);
    assert_eq!(request.indices, 0..2);
    assert_eq!(request.arrivals.len(), 3); // 2 data + 1 coding
    assert!(request.arrivals.contains_key(&stored_key((100, 0, true))));
    assert!(request.arrivals.contains_key(&stored_key((100, 1, true))));
    assert!(request.arrivals.contains_key(&stored_key((100, 0, false))));
    assert!(buffer.arrivals.is_empty());
}

#[test]
fn test_shred_arrival_source_as_str() {
    assert_eq!(ShredArrivalSource::TurbineUdp.as_str(), "turbine_udp");
    assert_eq!(ShredArrivalSource::TurbineQuic.as_str(), "turbine_quic");
    assert_eq!(ShredArrivalSource::RepairUdp.as_str(), "repair_udp");
    assert_eq!(ShredArrivalSource::RepairQuic.as_str(), "repair_quic");
}

#[test]
fn the_first_arrival_of_a_shred_counts() {
    let mut buffer = ShredArrivalBuffer::new();
    assert_eq!(buffer.max_buffer_size, MAX_BUFFER_SIZE);
    buffer.record_arrival(5, 3, true, meta(1, 0, "a", ShredArrivalSource::RepairUdp));
    buffer.record_arrival(5, 3, true, meta(2, 0, "b", ShredArrivalSource::RepairUdp));
    assert_eq!(buffer.arrivals[&(5, 3, 1)].arrival_time_ms, 1);
    assert!(buffer.on_completed_data_set(5, 0..3).is_none());
    assert!(buffer.on_completed_data_set(6, 0..9).is_none());
    assert_eq!(buffer.arrivals.len(), 1);
}

#[test]
fn a_dataset_is_taken_whole_and_the_rest_stays() {
    let mut buffer = ShredArrivalBuffer::new();
    for (slot, index, is_data) in [(5, 0, true), (5, 1, false), (5, 2, true), (6, 0, true)] {
        buffer.record_arrival(
            slot,
            index,
            is_data,
            meta(0, 0, "ip", ShredArrivalSource::TurbineUdp),
        );
    }
    let request = buffer.on_completed_data_set(5, 0..2).unwrap();
    let taken: Vec<(u64, u32, u8)> = request.arrivals.keys().copied().collect();
    let left: Vec<(u64, u32, u8)> = buffer.arrivals.keys().copied().collect();
    assert_eq!(taken, vec![(5, 0, 1), (5, 1, 0)]);
    assert_eq!(left, vec![(5, 2, 1), (6, 0, 1)]);
}

#[test]
fn a_full_buffer_drops_the_lowest_slot() {
    let mut buffer = ShredArrivalBuffer::new();
    buffer.max_buffer_size = 3;
    for (slot, index) in [(9, 0), (7, 0), (7, 1), (8, 0)] {
        buffer.record_arrival(
            slot,
            index,
            true,
            meta(0, 0, "ip", ShredArrivalSource::TurbineUdp),
        );
    }
    let slots: Vec<u64> = buffer.arrivals.keys().map(|k| k.0).collect();
    assert_eq!(slots, vec![8, 9]);
}

#[test]
fn rows_list_data_before_code() {
    let mut buffer = ShredArrivalBuffer::new();
    for (index, is_data) in [(4, false), (5, true), (4, true), (5, false)] {
        buffer.record_arrival(
            12,
            index,
            is_data,
            meta(
                index as u64,
                7,
                "10.0.0.1",
                ShredArrivalSource::RepairQuic,
            ),
        );
    }
    let request = buffer.on_completed_data_set(12, 4..6).unwrap();
    let rows = request_rows(&request);
    let order: Vec<(u32, bool)> = rows.iter().map(|r| (r.shred_index, r.is_data)).collect();
    assert_eq!(order, vec![(4, true), (5, true), (4, false), (5, false)]);
    assert_eq!(rows[1].dataset_id, "12_4_6");
    assert_eq!(rows[1].slot, 12);
    assert_eq!(rows[1].arrival_time_ms, 5);
    assert_eq!(rows[1].arrival_time_us, 7);
    assert_eq!(rows[1].source_ip, "10.0.0.1");
    assert_eq!(rows[1].source_type, "repair_quic");

    let names: Vec<String> = Vec::new();
    let mut writer = ShredArrivalCsvWriter {
        inner: RotatingParquetWriter::new(ShredArrivalRow::file_prefix().to_string(), &names),
    };
    assert_eq!(writer.on_timeout(100), WriterAction::Wait);
    assert_eq!(writer.on_disconnected(), WriterAction::Stop);
    assert_eq!(writer.on_request(&request, 59), WriterAction::Wait);
    assert_eq!(writer.on_request(&request, 60), WriterAction::Flush);
    assert_eq!(writer.inner.buffer.len(), 8);
    assert_eq!(writer.on_timeout(59), WriterAction::Wait);
    assert_eq!(writer.on_timeout(60), WriterAction::Flush);
    assert_eq!(writer.on_disconnected(), WriterAction::FlushAndStop);
    let file = writer.inner.flush_buffer().unwrap();
    assert_eq!(file.name, "shred_arrivals_000000.parquet");
    assert_eq!(file.table.batch.num_rows(), 8);
}
