use slot_stream::entry::Entry;
use slot_stream::streaming_deserializer::{
    EntryRead, ShredPayload, StreamingDeserializeError, StreamingEntryDeserializer,
};
use solana_transaction::versioned::VersionedTransaction;

type WireEntry = (u64, [u8; 32], Vec<VersionedTransaction>);

fn create_test_entry(num_hashes: u64, hash: [u8; 32], num_txs: usize) -> WireEntry {
    (
        num_hashes,
        hash,
        vec![VersionedTransaction::default(); num_txs],
    )
}

fn serialize_entries(entries: &Vec<WireEntry>) -> Vec<u8> {
    wincode::serialize(entries).unwrap()
}

fn payload(data: &[u8], data_complete: bool) -> ShredPayload {
    ShredPayload {
        data_complete,
        data: Ok(data.to_vec()),
    }
}

#[test]
fn test_parse_single_entry() {
    let entries = vec![create_test_entry(1, [1u8; 32], 0)];
    let data = serialize_entries(&entries);

    let mut deser = StreamingEntryDeserializer::new(0);
    deser.buffer = data;
    deser.contiguous_through = Some(0);

    let parsed = deser.parse_available(0).unwrap();
    assert_eq!(parsed.len(), 1);
    assert_eq!(parsed[0].num_hashes, 1);
    assert!(deser.is_complete());
}

#[test]
fn test_parse_multiple_entries() {
    let entries = vec![
        create_test_entry(1, [1u8; 32], 0),
        create_test_entry(2, [2u8; 32], 0),
        create_test_entry(3, [3u8; 32], 0),
    ];
    let data = serialize_entries(&entries);

    let mut deser = StreamingEntryDeserializer::new(0);
    deser.buffer = data;
    deser.contiguous_through = Some(0);

    let parsed = deser.parse_available(0).unwrap();
    assert_eq!(parsed.len(), 3);
    assert_eq!(parsed[0].num_hashes, 1);
    assert_eq!(parsed[1].num_hashes, 2);
    assert_eq!(parsed[2].num_hashes, 3);
    assert!(deser.is_complete());
}

#[test]
fn test_incremental_parsing() {
    let entries = vec![
        create_test_entry(1, [1u8; 32], 0),
        create_test_entry(2, [2u8; 32], 0),
    ];
    let data = serialize_entries(&entries);

    let mut deser = StreamingEntryDeserializer::new(0);

    // Add bytes incrementally
    // First, add just the length prefix (8 bytes)
    deser.buffer.extend_from_slice(&data[0..8]);
    deser.contiguous_through = Some(0);

    let parsed = deser.parse_available(0).unwrap();
    assert_eq!(parsed.len(), 0);
    assert!(!deser.is_complete());
    assert_eq!(deser.expected_count(), Some(2));

    // Add rest of data
    deser.buffer.extend_from_slice(&data[8..]);

    let parsed = deser.parse_available(0).unwrap();
    assert_eq!(parsed.len(), 2);
    assert!(deser.is_complete());
}

#[test]
fn test_empty_entries() {
    let entries: Vec<WireEntry> = vec![];
    let data = serialize_entries(&entries);

    let mut deser = StreamingEntryDeserializer::new(0);
    deser.buffer = data;
    deser.contiguous_through = Some(0);

    let parsed = deser.parse_available(0).unwrap();
    assert_eq!(parsed.len(), 0);
    assert!(deser.is_complete());
    assert_eq!(deser.expected_count(), Some(0));
}

#[test]
fn test_need_more_data() {
    let entries = vec![create_test_entry(1, [1u8; 32], 0)];
    let data = serialize_entries(&entries);

    let mut deser = StreamingEntryDeserializer::new(0);

    // Add incomplete data (just part of the entry)
    let half = data.len() / 2;
    deser.buffer.extend_from_slice(&data[0..half]);
    deser.contiguous_through = Some(0);

    let parsed = deser.parse_available(0).unwrap();
    // Should parse nothing since entry is incomplete
    assert!(parsed.is_empty() || parsed.len() < 1);
}

#[test]
fn test_reset() {
    let mut deser = StreamingEntryDeserializer::new(0);
    deser.buffer = vec![1, 2, 3];
    deser.entries_parsed = 5;

    deser.reset(1);

    assert_eq!(deser.slot(), 1);
    assert!(deser.buffer.is_empty());
    assert_eq!(deser.entries_parsed(), 0);
}

#[test]
fn shreds_may_arrive_in_any_order() {
    let entries = vec![
        create_test_entry(4, [4u8; 32], 1),
        create_test_entry(5, [5u8; 32], 0),
    ];
    let data = serialize_entries(&entries);
    let third = data.len() / 3;
    let mut deser = StreamingEntryDeserializer::new(9);
    deser
        .add_shred(2, payload(&data[2 * third..], true), 30)
        .unwrap();
    assert_eq!(deser.buffer_len(), 0);
    assert_eq!(deser.pending_shreds_count(), 1);
    deser
        .add_shred(1, payload(&data[third..2 * third], false), 40)
        .unwrap();
    assert_eq!(deser.contiguous_through(), None);
    deser.add_shred(0, payload(&data[..third], false), 50).unwrap();
    assert_eq!(deser.contiguous_through(), Some(2));
    assert_eq!(deser.pending_shreds_count(), 0);
    assert_eq!(deser.buffer_len(), data.len());
    assert!(deser.has_data_complete());
    assert_eq!(deser.first_shred_arrival(), Some(30));
    assert_eq!(deser.data_complete_arrival(), Some(30));

    let parsed = deser.parse_available(1_000_050).unwrap();
    assert_eq!(parsed.len(), 2);
    assert_eq!(parsed[0].hash, [4u8; 32]);
    assert_eq!(
        parsed[0].transactions,
        vec![VersionedTransaction::default()]
    );
    assert_eq!(parsed[1].num_hashes, 5);
    assert!(deser.is_complete());
    assert_eq!(deser.entry_timestamps().len(), 2);
    deser.mark_entry_executed(1, 2_000_000);
    assert_eq!(deser.entry_timestamps()[1].executed, Some(2_000_000));
    let summary = deser.emit_slot_summary();
    assert_eq!(summary.slot, 9);
    assert_eq!(summary.total_entries, 2);
}

#[test]
fn cuts_make_no_difference() {
    let entries = vec![
        create_test_entry(1, [1u8; 32], 2),
        create_test_entry(2, [2u8; 32], 0),
        create_test_entry(3, [3u8; 32], 1),
    ];
    let data = serialize_entries(&entries);
    for step in [1, 7, 50, data.len()] {
        let mut deser = StreamingEntryDeserializer::new(0);
        deser.contiguous_through = Some(0);
        let mut hashes: Vec<u64> = Vec::new();
        for part in data.chunks(step) {
            deser.buffer.extend_from_slice(part);
            let parsed = deser.parse_available(0).unwrap();
            hashes.extend(parsed.iter().map(|e| e.num_hashes));
            assert_eq!(deser.entries_parsed(), hashes.len() as u64);
            assert_eq!(deser.entry_timestamps().len(), hashes.len());
        }
        assert_eq!(hashes, vec![1, 2, 3]);
        assert_eq!(deser.expected_count(), Some(3));
        assert!(deser.is_complete());
    }
}

#[test]
fn an_entry_counts_from_the_first_of_its_shreds() {
    let entries = vec![
        create_test_entry(1, [1u8; 32], 0),
        create_test_entry(2, [2u8; 32], 0),
    ];
    let data = serialize_entries(&entries);
    assert_eq!(data.len(), 104);
    let mut deser = StreamingEntryDeserializer::new(3);
    // The first entry takes bytes 8..56, the second one 56..104.
    assert_eq!(
        deser.add_shred(1, payload(&data[20..56], false), 10),
        Ok(false)
    );
    assert_eq!(
        deser.add_shred(0, payload(&data[..20], false), 20),
        Ok(true)
    );
    assert_eq!(
        deser.add_shred(2, payload(&data[56..], true), 2_030),
        Ok(true)
    );
    let spans: Vec<(u32, usize, usize)> = deser
        .shred_spans
        .iter()
        .map(|s| (s.index, s.begin, s.end))
        .collect();
    assert_eq!(spans, vec![(0, 0, 20), (1, 20, 56), (2, 56, 104)]);
    assert_eq!(deser.parse_available(5_030).unwrap().len(), 2);
    let times = deser.entry_timestamps();
    assert_eq!((times[0].shred_arrival, times[0].parsed), (10, 5_030));
    assert_eq!((times[1].shred_arrival, times[1].parsed), (2_030, 5_030));
    let summary = deser.emit_slot_summary();
    assert_eq!(summary.avg_parse_latency_us, 4);
    assert_eq!(summary.data_complete_latency_us, 2);
    assert_eq!(summary.avg_streaming_gain_us, 0);
    assert_eq!(summary.buffer_bytes_total, 104);
}

#[test]
fn too_many_pending_shreds_are_refused() {
    assert_eq!(
        StreamingEntryDeserializer::DEFAULT_MAX_PENDING_SHREDS,
        1024
    );
    let mut deser = StreamingEntryDeserializer::with_max_pending(0, 2);
    deser.add_shred(5, payload(&[1], false), 0).unwrap();
    deser.add_shred(6, payload(&[1], false), 0).unwrap();
    let refused = deser.add_shred(7, payload(&[1], false), 0);
    assert!(refused.is_err());
    assert_eq!(deser.pending_shreds_count(), 2);
}

#[test]
fn a_shred_without_data_is_refused() {
    let mut deser = StreamingEntryDeserializer::new(0);
    let refused = deser.add_shred(
        0,
        ShredPayload {
            data_complete: false,
            data: Err("bad size".to_string()),
        },
        0,
    );
    match refused {
        Err(e) => assert!(e.text().contains("bad size")),
        Ok(_) => panic!("expected an error"),
    }
}

#[test]
fn outcomes_of_a_read_are_applied() {
    let mut deser = StreamingEntryDeserializer::new(0);
    deser.buffer = vec![1, 0, 0, 0, 0, 0, 0, 0, 7, 7];
    deser.contiguous_through = Some(0);
    assert_eq!(deser.parse_available(0).unwrap().len(), 0);
    let entry = Entry {
        num_hashes: 3,
        hash: [0u8; 32],
        transactions: vec![],
    };
    let got = deser
        .apply_read(EntryRead::Complete(entry, 2), 9)
        .unwrap()
        .unwrap();
    assert_eq!(got.num_hashes, 3);
    assert_eq!(deser.entries_parsed(), 1);
    assert!(deser.is_complete());
}

#[test]
fn a_malformed_read_keeps_the_state() {
    let mut deser = StreamingEntryDeserializer::new(0);
    deser.buffer = vec![1, 0, 0, 0, 0, 0, 0, 0];
    deser.contiguous_through = Some(0);
    assert_eq!(deser.parse_available(0).unwrap().len(), 0);
    assert!(matches!(
        deser.apply_read(EntryRead::Incomplete, 0),
        Ok(None)
    ));
    match deser.apply_read(EntryRead::Malformed("odd".to_string()), 0) {
        Err(e) => assert_eq!(e.text(), "Deserialize error: odd"),
        Ok(_) => panic!("expected an error"),
    }
    assert_eq!(deser.entries_parsed(), 0);
}

#[test]
fn errors_have_a_text() {
    assert_eq!(
        StreamingDeserializeError::NeedMoreData.text(),
        "Need more data to continue parsing"
    );
    assert_eq!(
        StreamingDeserializeError::InvalidFormat("x".to_string()).text(),
        "Invalid format: x"
    );
    assert_eq!(
        StreamingDeserializeError::ShredError("y".to_string()).text(),
        "Shred error: y"
    );
    assert_eq!(
        StreamingDeserializeError::TooManyPendingShreds.text(),
        "Too many pending shreds"
    );
}

#[test]
fn shreds_come_in_any_order_and_more_than_once() {
    let data: Vec<Vec<u8>> = (0..6u8).map(|i| vec![i; i as usize + 1]).collect();
    let joined: Vec<u8> = data.concat();
    let orders: Vec<Vec<u32>> = vec![
        vec![0, 1, 2, 3, 4, 5],
        vec![5, 4, 3, 2, 1, 0],
        vec![3, 3, 5, 0, 0, 5, 2, 4, 4, 3, 1, 1, 0, 5],
    ];
    for order in orders {
        let mut deser = StreamingEntryDeserializer::with_max_pending(1, data.len());
        for index in order {
            let awaited = deser.contiguous_through().map_or(0, |last| last + 1);
            let answer = deser.add_shred(index, payload(&data[index as usize], false), 0);
            assert_eq!(answer, Ok(index == awaited));
        }
        assert_eq!(deser.contiguous_through(), Some(5));
        assert_eq!(deser.pending_shreds_count(), 0);
        assert_eq!(deser.buffer, joined);
    }
}

#[test]
fn cuts_make_no_difference_to_the_calls() {
    let entries = vec![
        create_test_entry(1, [1u8; 32], 0),
        create_test_entry(2, [2u8; 32], 1),
        create_test_entry(3, [3u8; 32], 0),
    ];
    let data = serialize_entries(&entries);
    for step in [1, 7, 40, data.len()] {
        let mut deser = StreamingEntryDeserializer::new(0);
        let mut parsed: Vec<u64> = Vec::new();
        for cut in data.chunks(step) {
            deser.buffer.extend_from_slice(cut);
            for entry in deser.parse_available(0).unwrap() {
                parsed.push(entry.num_hashes);
            }
        }
        assert_eq!(parsed, vec![1, 2, 3]);
        assert_eq!(deser.expected_count(), Some(3));
        assert!(deser.is_complete());
    }
}
