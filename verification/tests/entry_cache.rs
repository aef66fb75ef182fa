use slot_stream::entry::Entry;
use slot_stream::entry_cache::{new_shared_entry_cache, CachedSlotEntries, EntryCache};
use solana_transaction::versioned::VersionedTransaction;
use std::time::Instant;

fn create_test_entries(num: usize) -> Vec<Entry> {
    (0..num)
        .map(|i| Entry {
            num_hashes: i as u64,
            hash: [i as u8; 32],
            transactions: vec![],
        })
        .collect()
}

// ==================== Basic Tests ====================

#[test]
fn test_entry_cache_basic() {
    let mut cache = EntryCache::new(10);

    // Insert entries for slot 100 (no last_index yet, not full)
    let entries = create_test_entries(5);
    cache.insert_entries(100, 0, entries, 10, None);

    // Retrieve entries
    let result = cache.get_slot_entries(100, 0);
    assert!(result.is_some());
    let (retrieved, num_shreds, is_full) = result.unwrap();
    assert_eq!(retrieved.len(), 5);
    assert_eq!(num_shreds, 10);
    assert!(!is_full); // No last_index set

    // Set last_index to mark slot as full (consumed=10, last_index=9 means full)
    cache.set_last_index(100, 9);
    let result = cache.get_slot_entries(100, 0);
    assert!(result.unwrap().2); // is_full should be true (10 > 9)
}

#[test]
fn test_entry_cache_eviction() {
    let mut cache = EntryCache::new(3);

    // Insert 4 slots, should evict the oldest
    // last_index=4 with num_shreds=5 means consumed=5, 5>4 so is_full=true
    for slot in 100..104 {
        let entries = create_test_entries(2);
        cache.insert_entries(slot, 0, entries, 5, Some(4));
    }

    // Slot 100 should be evicted
    assert!(cache.get_slot_entries(100, 0).is_none());
    // Slots 101-103 should exist
    assert!(cache.get_slot_entries(101, 0).is_some());
    assert!(cache.get_slot_entries(102, 0).is_some());
    assert!(cache.get_slot_entries(103, 0).is_some());
}

#[test]
fn test_entry_cache_lru_eviction() {
    // Test that LRU eviction is based on access time, not slot number
    let mut cache = EntryCache::new(3);

    // Insert slots in order: 200, 201, 202
    cache.insert_entries(200, 0, create_test_entries(1), 5, Some(4));
    cache.insert_entries(201, 0, create_test_entries(1), 5, Some(4));
    cache.insert_entries(202, 0, create_test_entries(1), 5, Some(4));

    // Touch slot 200 again (update its access time) by adding more entries
    cache.insert_entries(200, 5, create_test_entries(1), 5, Some(9));

    // Now insert slot 100 (lower number, but requires eviction)
    // Should evict slot 201 (oldest access time), NOT slot 100 or 200
    cache.insert_entries(100, 0, create_test_entries(1), 5, Some(4));

    // Slot 201 should be evicted (oldest access time)
    assert!(cache.get_slot_entries(201, 0).is_none());

    // These should all exist:
    // - Slot 100: just inserted
    // - Slot 200: recently touched
    // - Slot 202: more recent than 201
    assert!(cache.get_slot_entries(100, 0).is_some());
    assert!(cache.get_slot_entries(200, 0).is_some());
    assert!(cache.get_slot_entries(202, 0).is_some());
}

#[test]
fn test_entry_cache_incremental_insert() {
    let mut cache = EntryCache::new(10);

    // Insert entries incrementally (simulating shred arrival)
    let entries1 = create_test_entries(3);
    cache.insert_entries(100, 0, entries1, 5, None);

    let entries2 = create_test_entries(2);
    cache.insert_entries(100, 5, entries2, 3, None);

    // Last batch with last_index=9 (consumed will be 10, 10>9 means full)
    let entries3 = create_test_entries(1);
    cache.insert_entries(100, 8, entries3, 2, Some(9));

    // Should get all entries
    let result = cache.get_slot_entries(100, 0);
    assert!(result.is_some());
    let (entries, num_shreds, is_full) = result.unwrap();
    assert_eq!(entries.len(), 6); // 3 + 2 + 1
    assert_eq!(num_shreds, 10); // 5 + 3 + 2
    assert!(is_full);
}

#[test]
fn test_entry_cache_stats() {
    let mut cache = EntryCache::new(10);

    let entries = create_test_entries(2);
    cache.insert_entries(100, 0, entries, 5, Some(4)); // full

    // Hit
    let _ = cache.get_slot_entries(100, 0);
    // Miss
    let _ = cache.get_slot_entries(999, 0);

    let (hits, misses) = cache.stats();
    assert_eq!(hits, 1);
    assert_eq!(misses, 1);
}

#[test]
fn test_purge_slots_below() {
    let mut cache = EntryCache::new(10);

    for slot in 100..110 {
        let entries = create_test_entries(1);
        cache.insert_entries(slot, 0, entries, 1, Some(0)); // full
    }

    cache.purge_slots_below(105);

    // Slots 100-104 should be purged
    for slot in 100..105 {
        assert!(cache.get_slot_entries(slot, 0).is_none());
    }
    // Slots 105-109 should remain
    for slot in 105..110 {
        assert!(cache.get_slot_entries(slot, 0).is_some());
    }
}

// ==================== Gap Detection Tests ====================

#[test]
fn test_gap_detection_query_from_gap() {
    let mut cache = EntryCache::new(10);

    // Insert batches with a gap: [0-5) and [10-15), missing [5-10)
    let entries1 = create_test_entries(3);
    cache.insert_entries(100, 0, entries1, 5, None);

    let entries2 = create_test_entries(2);
    cache.insert_entries(100, 10, entries2, 5, None);

    // Consumed should be 5 (first gap)
    assert_eq!(cache.get_consumed(100), Some(5));

    // Query from index 0 should work (within contiguous region)
    let result = cache.get_slot_entries(100, 0);
    assert!(result.is_some());
    let (entries, num_shreds, _) = result.unwrap();
    assert_eq!(entries.len(), 3);
    assert_eq!(num_shreds, 5);

    // Query from index 5 (gap) should fail
    let result = cache.get_slot_entries(100, 5);
    assert!(result.is_none());

    // Query from index 10 should fail (beyond consumed)
    let result = cache.get_slot_entries(100, 10);
    assert!(result.is_none());
}

#[test]
fn test_gap_detection_stops_at_gap() {
    let mut cache = EntryCache::new(10);

    // Insert batches: [0-5), [5-10), [15-20) - gap at [10-15)
    cache.insert_entries(100, 0, create_test_entries(2), 5, None);
    cache.insert_entries(100, 5, create_test_entries(2), 5, None);
    cache.insert_entries(100, 15, create_test_entries(2), 5, None);

    // Consumed should be 10
    assert_eq!(cache.get_consumed(100), Some(10));

    // Query from 0 should return first two batches only
    let result = cache.get_slot_entries(100, 0);
    assert!(result.is_some());
    let (entries, num_shreds, _) = result.unwrap();
    assert_eq!(entries.len(), 4); // 2 + 2, not including the third batch
    assert_eq!(num_shreds, 10); // 5 + 5
}

#[test]
fn test_contiguous_entries_returned() {
    let mut cache = EntryCache::new(10);

    // Insert fully contiguous batches with last_index=14 (consumed=15, 15>14 means full)
    cache.insert_entries(100, 0, create_test_entries(2), 5, None);
    cache.insert_entries(100, 5, create_test_entries(3), 5, None);
    cache.insert_entries(100, 10, create_test_entries(4), 5, Some(14));

    // Consumed should be 15 (all contiguous)
    assert_eq!(cache.get_consumed(100), Some(15));

    // Query from 0 should return all entries
    let result = cache.get_slot_entries(100, 0);
    assert!(result.is_some());
    let (entries, num_shreds, is_full) = result.unwrap();
    assert_eq!(entries.len(), 9); // 2 + 3 + 4
    assert_eq!(num_shreds, 15); // 5 + 5 + 5
    assert!(is_full);
}

// ==================== num_shreds Calculation Tests ====================

#[test]
fn test_num_shreds_single_batch() {
    let mut cache = EntryCache::new(10);

    cache.insert_entries(100, 0, create_test_entries(5), 10, None);

    let result = cache.get_slot_entries(100, 0);
    assert!(result.is_some());
    let (_, num_shreds, _) = result.unwrap();
    assert_eq!(num_shreds, 10); // Actual shred count, not span
}

#[test]
fn test_num_shreds_accumulation() {
    let mut cache = EntryCache::new(10);

    // Three batches with different shred counts
    cache.insert_entries(100, 0, create_test_entries(1), 3, None);
    cache.insert_entries(100, 3, create_test_entries(1), 7, None);
    cache.insert_entries(100, 10, create_test_entries(1), 2, None);

    let result = cache.get_slot_entries(100, 0);
    assert!(result.is_some());
    let (_, num_shreds, _) = result.unwrap();
    assert_eq!(num_shreds, 12); // 3 + 7 + 2, not span-based
}

#[test]
fn test_num_shreds_from_middle() {
    let mut cache = EntryCache::new(10);

    cache.insert_entries(100, 0, create_test_entries(2), 5, None);
    cache.insert_entries(100, 5, create_test_entries(3), 10, None);
    cache.insert_entries(100, 15, create_test_entries(1), 5, None);

    // Query from index 5 - should get batches starting at 5 and 15
    let result = cache.get_slot_entries(100, 5);
    assert!(result.is_some());
    let (entries, num_shreds, _) = result.unwrap();
    assert_eq!(entries.len(), 4); // 3 + 1
    assert_eq!(num_shreds, 15); // 10 + 5
}

// ==================== Index Mismatch Tests ====================

#[test]
fn test_query_beyond_data() {
    let mut cache = EntryCache::new(10);

    cache.insert_entries(100, 0, create_test_entries(2), 5, None);

    // Query at index 10 when only data at 0-4
    let result = cache.get_slot_entries(100, 10);
    assert!(result.is_none());

    // Query at index 5 (consumed boundary)
    let result = cache.get_slot_entries(100, 5);
    assert!(result.is_none());
}

#[test]
fn test_non_contiguous_indices() {
    let mut cache = EntryCache::new(10);

    // Batches at [0, 10, 20] with gaps
    cache.insert_entries(100, 0, create_test_entries(1), 5, None);
    cache.insert_entries(100, 10, create_test_entries(1), 5, None);
    cache.insert_entries(100, 20, create_test_entries(1), 5, None);

    // Consumed should only be 5 (first gap at 5)
    assert_eq!(cache.get_consumed(100), Some(5));

    // Only first batch accessible
    let result = cache.get_slot_entries(100, 0);
    assert!(result.is_some());
    let (entries, num_shreds, _) = result.unwrap();
    assert_eq!(entries.len(), 1);
    assert_eq!(num_shreds, 5);
}

#[test]
fn test_query_between_batches() {
    let mut cache = EntryCache::new(10);

    // Data at indices 0 and 10, query at 5
    cache.insert_entries(100, 0, create_test_entries(2), 5, None);
    cache.insert_entries(100, 10, create_test_entries(2), 5, None);

    // Query at index 5 (in the gap)
    let result = cache.get_slot_entries(100, 5);
    assert!(result.is_none());
}

// ==================== Integration Tests ====================

#[test]
fn test_producer_consumer_sync() {
    let mut cache = EntryCache::new(10);

    // Simulate window_service producing batches as shreds arrive
    // Producer inserts at shred indices as batches complete

    // First batch completes
    cache.insert_entries(100, 0, create_test_entries(2), 5, None);

    // Consumer (replay) queries from progress.num_shreds = 0
    let result = cache.get_slot_entries(100, 0);
    assert!(result.is_some());
    let (entries, num_shreds, _) = result.unwrap();
    assert_eq!(entries.len(), 2);
    assert_eq!(num_shreds, 5);

    // Simulate consumer advancing progress.num_shreds to 5
    // Second batch arrives
    cache.insert_entries(100, 5, create_test_entries(3), 10, None);

    // Consumer queries from 5
    let result = cache.get_slot_entries(100, 5);
    assert!(result.is_some());
    let (entries, num_shreds, _) = result.unwrap();
    assert_eq!(entries.len(), 3);
    assert_eq!(num_shreds, 10);
}

#[test]
fn test_incremental_consumption() {
    let mut cache = EntryCache::new(10);

    // Insert all batches, last one with last_index=14 (consumed=15, 15>14 means full)
    cache.insert_entries(100, 0, create_test_entries(2), 5, None);
    cache.insert_entries(100, 5, create_test_entries(3), 5, None);
    cache.insert_entries(100, 10, create_test_entries(4), 5, Some(14));

    // First read from 0
    let result = cache.get_slot_entries(100, 0).unwrap();
    assert_eq!(result.0.len(), 9); // All entries
    assert_eq!(result.1, 15); // All shreds

    // Simulate consumer advancing to 5, then read remaining
    let result = cache.get_slot_entries(100, 5).unwrap();
    assert_eq!(result.0.len(), 7); // 3 + 4
    assert_eq!(result.1, 10); // 5 + 5

    // Consumer advances to 10
    let result = cache.get_slot_entries(100, 10).unwrap();
    assert_eq!(result.0.len(), 4);
    assert_eq!(result.1, 5);
}

#[test]
fn test_out_of_order_insertion() {
    let mut cache = EntryCache::new(10);

    // Batches arrive out of order
    cache.insert_entries(100, 10, create_test_entries(3), 5, None);
    // Consumed should still be 0
    assert_eq!(cache.get_consumed(100), Some(0));

    cache.insert_entries(100, 5, create_test_entries(2), 5, None);
    // Still 0 (gap at 0-4)
    assert_eq!(cache.get_consumed(100), Some(0));

    cache.insert_entries(100, 0, create_test_entries(1), 5, None);
    // Now should jump to 15 (all contiguous)
    assert_eq!(cache.get_consumed(100), Some(15));

    // All entries now accessible
    let result = cache.get_slot_entries(100, 0);
    assert!(result.is_some());
    let (entries, num_shreds, _) = result.unwrap();
    assert_eq!(entries.len(), 6); // 1 + 2 + 3
    assert_eq!(num_shreds, 15);
}

#[test]
fn test_partial_gap_fill() {
    let mut cache = EntryCache::new(10);

    // Large gap initially
    cache.insert_entries(100, 0, create_test_entries(1), 5, None);
    cache.insert_entries(100, 20, create_test_entries(1), 5, None);

    assert_eq!(cache.get_consumed(100), Some(5));

    // Partially fill the gap
    cache.insert_entries(100, 5, create_test_entries(1), 5, None);
    assert_eq!(cache.get_consumed(100), Some(10));

    // Fill more
    cache.insert_entries(100, 10, create_test_entries(1), 5, None);
    assert_eq!(cache.get_consumed(100), Some(15));

    // Still gap at 15-19
    let result = cache.get_slot_entries(100, 0).unwrap();
    assert_eq!(result.0.len(), 3); // Only first 3 batches
}

// ==================== Performance Test ====================

#[test]
fn test_entry_cache_performance() {
    let mut cache = EntryCache::new(100);

    // Insert entries with varying sizes (last_index=19 makes consumed=20 > 19, so is_full=true)
    for slot in 0..50 {
        let entries = create_test_entries(10); // 10 entries per slot
        cache.insert_entries(slot, 0, entries, 20, Some(19));
    }

    // Benchmark cache hits
    let iterations = 10_000;
    let start = Instant::now();
    for i in 0..iterations {
        let slot = (i % 50) as u64;
        let _ = cache.get_slot_entries(slot, 0);
    }
    let cache_hit_duration = start.elapsed();

    // Benchmark cache misses (non-existent slots)
    let start = Instant::now();
    for i in 0..iterations {
        let slot = 100 + (i % 50) as u64; // Non-existent slots
        let _ = cache.get_slot_entries(slot, 0);
    }
    let cache_miss_duration = start.elapsed();

    let cache_hit_ns = cache_hit_duration.as_nanos() as u64 / iterations;
    let cache_miss_ns = cache_miss_duration.as_nanos() as u64 / iterations;

    println!("Entry cache performance test:");
    println!("  Cache hit average: {} ns per access", cache_hit_ns);
    println!("  Cache miss average: {} ns per access", cache_miss_ns);

    // Verify hits were counted
    let (hits, misses) = cache.stats();
    assert_eq!(hits, iterations);
    assert_eq!(misses, iterations);

    // Cache hits should be fast (< 10us typical, we allow generous margin)
    assert!(cache_hit_ns < 100_000, "Cache hit too slow: {} ns", cache_hit_ns);
}

// ==================== Edge Case Tests ====================

#[test]
fn test_empty_slot() {
    let mut cache = EntryCache::new(10);

    // Query non-existent slot
    assert!(cache.get_slot_entries(100, 0).is_none());
    assert_eq!(cache.get_consumed(100), None);
}

#[test]
fn test_zero_shred_batch() {
    let mut cache = EntryCache::new(10);

    // Edge case: batch with 0 shreds (shouldn't happen in practice)
    cache.insert_entries(100, 0, create_test_entries(1), 0, None);

    // next_shred_index would be 0+0=0, so consumed stays 0
    // This is technically a degenerate case
    assert_eq!(cache.get_consumed(100), Some(0));
}

#[test]
fn test_duplicate_batch_insert() {
    let mut cache = EntryCache::new(10);

    // Insert same batch twice
    cache.insert_entries(100, 0, create_test_entries(2), 5, None);
    cache.insert_entries(100, 0, create_test_entries(3), 5, None); // Overwrites

    let result = cache.get_slot_entries(100, 0).unwrap();
    assert_eq!(result.0.len(), 3); // Second insert wins
}

#[test]
fn test_overwrite_with_different_num_shreds() {
    // This test catches a bug where overwriting a batch with different num_shreds
    // would leave consumed pointing to stale data (not rescanning the chain)
    let mut cache = EntryCache::new(10);

    // Build a chain: [0-5) -> [5-10) -> [10-15)
    cache.insert_entries(100, 0, create_test_entries(1), 5, None);
    cache.insert_entries(100, 5, create_test_entries(1), 5, None);
    cache.insert_entries(100, 10, create_test_entries(1), 5, None);

    // consumed should be 15 (all contiguous)
    assert_eq!(cache.get_consumed(100), Some(15));

    // Now overwrite batch at 0 with DIFFERENT num_shreds (3 instead of 5)
    // This creates a gap at [3-5)
    cache.insert_entries(100, 0, create_test_entries(2), 3, None);

    // consumed should be 3 (gap at [3-5))
    // If this is 15, the bug was not fixed
    assert_eq!(cache.get_consumed(100), Some(3));

    // Query from 0 should only return the first batch
    let result = cache.get_slot_entries(100, 0).unwrap();
    assert_eq!(result.0.len(), 2);
    assert_eq!(result.1, 3);

    // Query from 3 should fail (gap)
    assert!(cache.get_slot_entries(100, 3).is_none());

    // Query from 5 should fail (beyond consumed)
    assert!(cache.get_slot_entries(100, 5).is_none());
}

#[test]
fn test_overwrite_fills_gap() {
    let mut cache = EntryCache::new(10);

    // Build a chain with a gap: [0-3) and [5-10)
    cache.insert_entries(100, 0, create_test_entries(1), 3, None);
    cache.insert_entries(100, 5, create_test_entries(1), 5, None);

    // consumed should be 3
    assert_eq!(cache.get_consumed(100), Some(3));

    // Now overwrite batch at 0 with larger num_shreds to close the gap
    cache.insert_entries(100, 0, create_test_entries(2), 5, None);

    // consumed should now be 10 (gap closed)
    assert_eq!(cache.get_consumed(100), Some(10));

    // Query from 0 should return both batches
    let result = cache.get_slot_entries(100, 0).unwrap();
    assert_eq!(result.0.len(), 3); // 2 + 1
    assert_eq!(result.1, 10); // 5 + 5
}

#[test]
fn test_last_index_with_gap() {
    let mut cache = EntryCache::new(10);

    // Insert with gaps but set last_index (simulating LAST_SHRED_IN_SLOT before all data arrives)
    cache.insert_entries(100, 0, create_test_entries(1), 5, None);
    // Second batch at index 10 with last_index=14 (last shred in slot)
    cache.insert_entries(100, 10, create_test_entries(1), 5, Some(14));

    // consumed is still only 5 due to gap
    assert_eq!(cache.get_consumed(100), Some(5));
    // last_index is set
    assert_eq!(cache.get_last_index(100), Some(Some(14)));
    // is_full should be false (consumed=5 is not > last_index=14)
    assert_eq!(cache.is_slot_full(100), Some(false));

    let result = cache.get_slot_entries(100, 0).unwrap();
    assert_eq!(result.0.len(), 1);
    assert!(!result.2); // is_full false (gap exists)
}

#[test]
fn test_is_full_computation() {
    let mut cache = EntryCache::new(10);

    // Insert entries with last_index set to make it full
    // consumed will be 10, last_index=9, so 10 > 9 means is_full=true
    cache.insert_entries(100, 0, create_test_entries(2), 5, None);
    cache.insert_entries(100, 5, create_test_entries(2), 5, Some(9));

    assert_eq!(cache.get_consumed(100), Some(10));
    assert_eq!(cache.get_last_index(100), Some(Some(9)));
    assert_eq!(cache.is_slot_full(100), Some(true));

    let result = cache.get_slot_entries(100, 0).unwrap();
    assert!(result.2); // is_full true
}

// ==================== Mid-Batch Query Tests ====================

#[test]
fn test_mid_batch_query() {
    let mut cache = EntryCache::new(10);

    // Insert a batch covering [0-10)
    cache.insert_entries(100, 0, create_test_entries(5), 10, None);

    // Query from middle of batch at index 5
    let result = cache.get_slot_entries(100, 5);
    assert!(result.is_some());
    let (entries, num_shreds, _) = result.unwrap();
    // Returns all entries from the batch (can't split entries)
    assert_eq!(entries.len(), 5);
    // num_shreds accounts for the skipped shreds (10 - 5 = 5 remaining)
    assert_eq!(num_shreds, 5);
}

#[test]
fn test_mid_batch_query_with_continuation() {
    let mut cache = EntryCache::new(10);

    // Insert two contiguous batches: [0-10) and [10-20)
    cache.insert_entries(100, 0, create_test_entries(3), 10, None);
    cache.insert_entries(100, 10, create_test_entries(2), 10, None);

    // Query from middle of first batch at index 5
    let result = cache.get_slot_entries(100, 5);
    assert!(result.is_some());
    let (entries, num_shreds, _) = result.unwrap();
    // Returns entries from both batches
    assert_eq!(entries.len(), 5); // 3 + 2
    // num_shreds: 5 (remaining from first) + 10 (second) = 15
    assert_eq!(num_shreds, 15);
}

// ==================== Further Tests ====================

#[test]
fn entries_come_back_as_they_went_in() {
    let mut cache = EntryCache::new(10);
    let entry = Entry {
        num_hashes: 7,
        hash: [9u8; 32],
        transactions: vec![VersionedTransaction::default(); 2],
    };
    cache.insert_entries(5, 0, vec![entry], 1, None);
    let (entries, num_shreds, is_full) = cache.get_slot_entries(5, 0).unwrap();
    assert_eq!((num_shreds, is_full), (1, false));
    assert_eq!(entries.len(), 1);
    assert_eq!(entries[0].num_hashes, 7);
    assert_eq!(entries[0].hash, [9u8; 32]);
    assert_eq!(
        entries[0].transactions,
        vec![VersionedTransaction::default(); 2]
    );
}

#[test]
fn slots_are_counted_and_removed() {
    let mut cache = EntryCache::default();
    assert!(cache.is_empty());
    assert_eq!(cache.max_slots, 32);
    cache.insert_entries(1, 0, create_test_entries(1), 1, None);
    cache.insert_entries(2, 0, create_test_entries(1), 1, None);
    assert_eq!(cache.len(), 2);
    assert!(cache.has_slot(1));
    cache.remove_slot(1);
    assert!(!cache.has_slot(1));
    assert_eq!(cache.len(), 1);
    assert_eq!(new_shared_entry_cache(4).max_slots, 4);
}

#[test]
fn a_slot_without_batches_is_not_full() {
    let slot = CachedSlotEntries::new();
    assert!(!slot.is_full());
    assert!(slot.get_contiguous_entries_from(0).is_none());
    assert_eq!(slot.get_entries_from(0).1, 0);
}

#[test]
fn overlapping_batches_can_hide_a_read() {
    let mut cache = EntryCache::new(10);
    cache.insert_entries(100, 0, create_test_entries(1), 10, None);
    cache.insert_entries(100, 5, create_test_entries(1), 1, None);
    assert_eq!(cache.get_consumed(100), Some(10));
    // The batch that starts last before index 7 ends at 6.
    assert!(cache.get_slot_entries(100, 7).is_none());
}

#[test]
fn a_read_reaches_the_first_missing_shred() {
    let mut cache = EntryCache::new(10);
    for start in [10, 0, 5, 20] {
        cache.insert_entries(7, start, create_test_entries(1), 5, None);
    }
    assert_eq!(cache.get_consumed(7), Some(15));
    for start in 0..15 {
        let (_, shreds, _) = cache.get_slot_entries(7, start).unwrap();
        assert_eq!(start + shreds, 15);
    }
    assert!(cache.get_slot_entries(7, 15).is_none());
}

#[test]
fn a_read_counts_as_an_access() {
    let mut cache = EntryCache::new(3);
    for slot in [200, 201, 202] {
        cache.insert_entries(slot, 0, create_test_entries(1), 5, Some(4));
    }
    assert!(cache.get_slot_entries(200, 0).is_some());
    // A read that is not answered does not count.
    assert!(cache.get_slot_entries(201, 9).is_none());
    cache.insert_entries(203, 0, create_test_entries(1), 5, Some(4));
    assert_eq!(cache.len(), 3);
    assert!(!cache.has_slot(201));
    assert!(cache.has_slot(200) && cache.has_slot(202) && cache.has_slot(203));
}
