use dashmap::DashMap;
use gxhash::GxBuildHasher;
use slot_stream::shm::{
    size_up, needed_bytes, reserve, Admission, RecHeader, ShmError, ShmHeader, ShmIoErrorKind, ShmReader, ShmRing,
    ShmWriter, CL, IS_COMMITED_MASK, IS_WRAP_MARKER, MAGIC, TX_END_MARKER_PUBKEY, VERSION,
};
use slot_stream::shm_segment::{
    after_open, align_up, checked_capacity, clock_micros, fallback_open_mode, first_open_mode,
    is_valid_posix_shm_name, normalized_shm_name, segment_size, tip_cursor, AfterOpen, OpenMode,
};
use slot_stream::trace::{is_slow_delivery, TraceOp};
use solana_pubkey::Pubkey;
use std::sync::atomic::{AtomicU32, AtomicU64, Ordering};

type Accounts = DashMap<Pubkey, Vec<u8>, GxBuildHasher>;

const SIG0: [u8; 64] = [0u8; 64];
const SIG1: [u8; 64] = [1u8; 64];

fn new_map() -> Accounts {
    DashMap::with_hasher(GxBuildHasher::default())
}

fn new_writer_reader(cap: usize, name: &str) -> (ShmWriter, ShmReader, ShmRing) {
    let (w, ring) = ShmWriter::create(name, cap).expect("create shm");
    let r = ShmReader::open(&ring).expect("open shm");
    (w, r, ring)
}

fn stored(map: &Accounts, pk: [u8; 32]) -> Vec<u8> {
    let key: Pubkey = pk.into();
    let v = map.get(&key).unwrap();
    v.clone()
}

#[test]
fn header_offsets_are_atomic() {
    let dummy = ShmHeader {
        magic: 0,
        version: 0,
        capacity: 0,
        _pad0: [0; CL - (4 + 4 + 8)],
        alloc_off: AtomicU64::new(0),

        _pad1: [0; CL - 8],

        read_off: AtomicU64::new(0),
        _pad2: [0; CL - 8],

        flags: AtomicU32::new(0),
        _pad3a: 0,
        _reserved: [0; 8],
        last_end_off: AtomicU64::new(0),
        _pad3b: [0; CL - (4 + 4 + 8 + 8)],
    };

    // The parameter types fix the types of the fields.
    fn load64(word: &AtomicU64) -> u64 {
        word.load(Ordering::Relaxed)
    }
    fn load32(word: &AtomicU32) -> u32 {
        word.load(Ordering::Relaxed)
    }

    assert_eq!(load64(&dummy.alloc_off), 0);
    assert_eq!(load64(&dummy.read_off), 0);
    assert_eq!(load64(&dummy.last_end_off), 0);
    assert_eq!(load32(&dummy.flags), 0);
}

#[test]
fn publish_flag_is_4byte_aligned_after_each_push() {
    let (w, _r, mut ring) = new_writer_reader(8192, "/t_pubalign_ok");
    let pubkey = [0u8; 32];

    for payload_len in 0..16 {
        let (_seq, start) = w
            .push(&mut ring, &pubkey, &vec![0xAB; payload_len], 42, &SIG1)
            .expect("push");
        let need = RecHeader::size() + ((payload_len + 7) & !7);
        let next_start = (start + need) % w.cap;
        assert_eq!(next_start % 4, 0);
    }
}

#[test]
fn align_up_behaves_as_expected() {
    assert_eq!(align_up(0, 8), 0);
    assert_eq!(align_up(1, 8), 8);
    assert_eq!(align_up(7, 8), 8);
    assert_eq!(align_up(8, 8), 8);
    assert_eq!(align_up(9, 8), 16);

    assert_eq!(align_up(15, 16), 16);
    assert_eq!(align_up(16, 16), 16);
    assert_eq!(align_up(17, 16), 32);
}

#[test]
fn posix_shm_name_validation() {
    assert!(is_valid_posix_shm_name("/foo"));
    assert!(is_valid_posix_shm_name("/x"));
    assert!(!is_valid_posix_shm_name("foo")); // missing leading slash
    assert!(!is_valid_posix_shm_name("/foo/bar")); // extra slash
    assert!(!is_valid_posix_shm_name("")); // empty
}

#[test]
fn create_or_open_existing_size_mismatch_errors() {
    // Choose capacities so that the aligned total_len values are different.
    let total1 = segment_size(1024).unwrap();
    let total2 = segment_size(8192).unwrap();
    assert_ne!(
        total1, total2,
        "totals must differ for this test to be meaningful"
    );

    // A new segment is given its size.
    assert!(matches!(
        after_open(true, true, 0, total1 as u64),
        Ok(AfterOpen::Resize)
    ));
    match after_open(true, false, total1 as u64, total2 as u64) {
        Err(ShmError::Io(e)) => assert_eq!(e.kind, ShmIoErrorKind::InvalidInput),
        _ => panic!("expected Io(InvalidInput)"),
    }
}

#[test]
fn open_fails_on_invalid_header_magic() {
    let (_w, _r, mut ring) = new_writer_reader(4096, "/t_invalid_header_magic");
    ring.magic = MAGIC.wrapping_add(1); // corrupt magic
    let err = ShmReader::open(&ring).unwrap_err();
    assert!(matches!(err, ShmError::InvalidHeader));
}

#[test]
fn single_writer_single_reader_roundtrip() {
    let (w, mut r, mut ring) = new_writer_reader(64 * 1024, "/t_roundtrip");
    let mut map = new_map();

    let pk = [1u8; 32];
    let payload = b"hello world".to_vec();

    let (seq, _start) = w.push(&mut ring, &pk, &payload, 123, &SIG0).unwrap();
    assert_eq!(seq, 0);

    let (out_pk, lamports, updated, is_end, ts) = r
        .poll_next_into_dashmap(&ring, &mut map, 77)
        .expect("record");
    assert_eq!(out_pk, pk);
    assert_eq!(lamports, 123);
    assert!(updated);
    assert!(!is_end);
    assert_eq!(ts, 77);

    assert_eq!(stored(&map, pk).as_slice(), payload.as_slice());

    // ring is empty now
    assert!(r.poll_next_into_dashmap(&ring, &mut map, 0).is_none());
}

#[test]
fn at_tip_reader_only_sees_new_records() {
    let (w, mut r, mut ring) = new_writer_reader(4096, "/t_at_tip");
    let mut map = new_map();

    // At creation, reader starts at tip; with no writes, it should see nothing.
    assert!(r.poll_next_into_dashmap(&ring, &mut map, 0).is_none());

    let pk = [7u8; 32];
    let payload = b"tip-tests".to_vec();
    w.push(&mut ring, &pk, &payload, 99, &SIG1).unwrap();
    w.push_tx_end_marker(&mut ring, &SIG1).unwrap();

    let (got_pk, lamports, updated, is_end, _ts) = r
        .poll_next_into_dashmap(&ring, &mut map, 0)
        .expect("record after tip");
    assert_eq!(got_pk, pk);
    assert_eq!(lamports, 99);
    assert!(updated);
    assert!(!is_end);
    assert_eq!(stored(&map, pk).as_slice(), payload.as_slice());

    // The end of the transaction follows as a record of its own.
    let (end_pk, _lamports, _updated, is_end, _ts) = r
        .poll_next_into_dashmap(&ring, &mut map, 0)
        .expect("end of the transaction");
    assert_eq!(end_pk, TX_END_MARKER_PUBKEY);
    assert!(is_end);

    // Ring is empty after consuming these records
    assert!(r.poll_next_into_dashmap(&ring, &mut map, 0).is_none());
}

#[test]
fn seek_to_start_reads_from_beginning_for_new_reader() {
    let (w, mut ring) = ShmWriter::create("/t_seek_to_start", 16 * 1024).unwrap();

    // write some records before opening the reader
    let base_pk = [0u8; 32];
    let num = 10u8;
    for i in 0..num {
        let mut pk = base_pk;
        pk[0] = i;
        let payload = vec![i; 4];
        w.push(&mut ring, &pk, &payload, i as u64, &SIG0).unwrap();
    }

    let mut r = ShmReader::open(&ring).unwrap();
    let mut map = new_map();

    // Reader starts at tip: it sees no historical records.
    assert!(r.poll_next_into_dashmap(&ring, &mut map, 0).is_none());

    // Move to logical start and read everything.
    r.seek_to_start(&ring);

    let mut seen = 0;
    while let Some((pk, lamports, updated, is_end, _)) =
        r.poll_next_into_dashmap(&ring, &mut map, 0)
    {
        seen += 1;
        assert!(updated);
        assert!(!is_end);
        let v = stored(&map, pk);
        assert_eq!(v.len(), 4);
        assert_eq!(v[0], lamports as u8);
    }
    assert_eq!(seen, num as usize);
}

#[test]
fn updated_flag_reflects_payload_changes() {
    let (w, mut r, mut ring) = new_writer_reader(4096, "/t_updated_flag");
    let mut map = new_map();

    let pk = [5u8; 32];

    // 1) first write: updated = true
    let p1 = vec![1u8, 2, 3];
    w.push(&mut ring, &pk, &p1, 1, &SIG0).unwrap();
    let (_, _, updated1, _, _) = r.poll_next_into_dashmap(&ring, &mut map, 0).unwrap();
    assert!(updated1);

    // 2) write identical payload: updated = false
    let p1b = vec![1u8, 2, 3];
    w.push(&mut ring, &pk, &p1b, 2, &SIG0).unwrap();
    let (_, _, updated2, _, _) = r.poll_next_into_dashmap(&ring, &mut map, 0).unwrap();
    assert!(!updated2);

    // 3) write different payload (same len): updated = true
    let p2 = vec![4u8, 5, 6];
    w.push(&mut ring, &pk, &p2, 3, &SIG0).unwrap();
    let (_, _, updated3, _, _) = r.poll_next_into_dashmap(&ring, &mut map, 0).unwrap();
    assert!(updated3);

    assert_eq!(stored(&map, pk).as_slice(), p2.as_slice());
}

#[test]
fn multi_writer_single_reader_stress() {
    const NUM_WRITERS: usize = 8;
    const PER_WRITER: usize = 64;
    const TOTAL: usize = NUM_WRITERS * PER_WRITER;

    let (w, mut r, mut ring) = new_writer_reader(128 * 1024, "/t_multiwriter_single_reader");
    let mut map = new_map();

    // The writers take turns; the reader drains the ring now and then.
    for i in 0..PER_WRITER {
        for t in 0..NUM_WRITERS {
            let mut pk = [0u8; 32];
            let id: u64 = ((t as u64) << 32) | (i as u64);
            pk[..8].copy_from_slice(&id.to_le_bytes());
            let payload = format!("writer-{t}-record-{i}").into_bytes();
            w.push(&mut ring, &pk, &payload, i as u64, &SIG0).unwrap();
        }
        if i % 7 == 0 {
            while r.poll_next_into_dashmap(&ring, &mut map, 0).is_some() {}
        }
    }
    while r.poll_next_into_dashmap(&ring, &mut map, 0).is_some() {}

    assert_eq!(map.len(), TOTAL);

    // Verify payloads
    for t in 0..NUM_WRITERS {
        for i in 0..PER_WRITER {
            let id: u64 = ((t as u64) << 32) | (i as u64);
            let mut pk = [0u8; 32];
            pk[..8].copy_from_slice(&id.to_le_bytes());
            assert_eq!(
                stored(&map, pk).as_slice(),
                format!("writer-{t}-record-{i}").as_bytes()
            );
        }
    }
}

#[test]
fn multi_reader_independent_cursors() {
    const N: usize = 16;

    let (w, mut ring) = ShmWriter::create("/t_multireader_single_writer", 16 * 1024).unwrap();

    // write some records before opening any reader
    let base_pk = [0u8; 32];
    for i in 0..N {
        let mut pk = base_pk;
        pk[0] = i as u8;
        let payload = vec![i as u8; 8];
        w.push(&mut ring, &pk, &payload, i as u64, &SIG0).unwrap();
    }

    // Open readers at tip; they shouldn't see historical data yet
    let mut r1 = ShmReader::open(&ring).unwrap();
    let mut r2 = ShmReader::open(&ring).unwrap();

    let mut map1 = new_map();
    let mut map2 = new_map();

    assert!(r1.poll_next_into_dashmap(&ring, &mut map1, 0).is_none());
    assert!(r2.poll_next_into_dashmap(&ring, &mut map2, 0).is_none());

    // Now write a fresh batch; both readers should see all of those.
    for i in 0..N {
        let mut pk = base_pk;
        pk[0] = (i + N) as u8;
        let payload = vec![(i + N) as u8; 8];
        w.push(&mut ring, &pk, &payload, (i + N) as u64, &SIG0)
            .unwrap();
    }

    while r1.poll_next_into_dashmap(&ring, &mut map1, 0).is_some() {}
    while r2.poll_next_into_dashmap(&ring, &mut map2, 0).is_some() {}

    assert_eq!(map1.len(), N);
    assert_eq!(map2.len(), N);
}

/// Writes records with the given lamports in turn and reads them back `batch` at a time; returns
/// what was read.
fn read_while_writing(
    cap: usize,
    pk: [u8; 32],
    payload_len: usize,
    lamports: &[u64],
    batch: usize,
) -> Vec<u64> {
    let (w, mut r, mut ring) = new_writer_reader(cap, "/t_interleaved");
    let mut map = new_map();
    let mut seen: Vec<u64> = Vec::new();
    let mut pending = 0;
    for l in lamports {
        let payload = vec![(*l & 0xFF) as u8; payload_len];
        w.push(&mut ring, &pk, &payload, *l, &SIG0).unwrap();
        pending += 1;
        if pending == batch {
            pending = 0;
            while let Some((_, lamports, _, _, _)) = r.poll_next_into_dashmap(&ring, &mut map, 0) {
                seen.push(lamports);
            }
        }
    }
    while let Some((_, lamports, _, _, _)) = r.poll_next_into_dashmap(&ring, &mut map, 0) {
        seen.push(lamports);
    }
    // Once drained, the reader stays where it is.
    let off_after_drain = r.r_off;
    for _ in 0..1000 {
        assert!(r.poll_next_into_dashmap(&ring, &mut map, 0).is_none());
        assert_eq!(r.r_off, off_after_drain);
    }
    seen
}

#[test]
fn reader_never_sees_decreasing_lamports_under_pressure() {
    let lamports: Vec<u64> = (1u64..10_000).collect();
    let seen = read_while_writing(80 * 4096, [42u8; 32], 32, &lamports, 900);
    let mut last = 0u64;
    for l in &seen {
        assert!(*l > last, "lamports not monotonic: {l} <= {last}");
        last = *l;
    }
    assert!(last > 0);
    assert_eq!(seen, lamports);
}

#[test]
fn reader_never_sees_per_writer_reordering_with_multiple_writers() {
    const NUM_WRITERS: usize = 16;
    const STEPS_PER_WRITER: u64 = 1_000;

    // Writer k writes lamports = k + n * NUM_WRITERS; the turns differ from step to step.
    let mut lamports: Vec<u64> = Vec::new();
    for step in 0..=STEPS_PER_WRITER {
        for t in 0..NUM_WRITERS {
            let writer_id = (t as u64 + step * 5) % NUM_WRITERS as u64;
            lamports.push(writer_id + step * NUM_WRITERS as u64);
        }
    }
    let seen = read_while_writing(10 * 4096, [42u8; 32], 32, &lamports, 100);

    let mut last_by_writer = vec![0u64; NUM_WRITERS];
    let mut seen_any_for_writer = vec![false; NUM_WRITERS];
    for l in &seen {
        let writer_id = (*l % NUM_WRITERS as u64) as usize;
        if seen_any_for_writer[writer_id] {
            let last = last_by_writer[writer_id];
            assert!(
                *l > last,
                "writer {writer_id}: lamports not monotonic: {l} <= {last}"
            );
        } else {
            seen_any_for_writer[writer_id] = true;
        }
        last_by_writer[writer_id] = *l;
    }
    assert!(
        seen_any_for_writer.iter().any(|&x| x),
        "reader did not observe any entries from any writer"
    );
    assert_eq!(seen, lamports);
}

#[test]
fn reader_does_not_rewind_when_idle_after_drain() {
    const NUM_RECORDS: u64 = 5_000;
    let lamports: Vec<u64> = (0..NUM_RECORDS).collect();
    let seen = read_while_writing(100 * 4096, [7u8; 32], 32, &lamports, 1000);
    for pair in seen.windows(2) {
        assert!(pair[1] > pair[0]);
    }
    assert_eq!(seen.last().copied(), Some(NUM_RECORDS - 1));
}

#[test]
fn reader_sees_monotonic_lamports_across_wraparound() {
    const NUM_RECORDS: u64 = 50_000;
    let lamports: Vec<u64> = (0..NUM_RECORDS).collect();
    // Smallish buffer to force wrap-around
    let seen = read_while_writing(80 * 1024, [99u8; 32], 32, &lamports, 300);
    for pair in seen.windows(2) {
        assert!(pair[1] > pair[0]);
    }
    assert!(seen.len() > 0, "reader did not observe any entries at all");
    assert_eq!(seen.last().copied(), Some(NUM_RECORDS - 1));
}

#[test]
fn reader_started_late_skips_old_entries_and_starts_at_tail() {
    const WARMUP_RECORDS: u64 = 5_000;
    const EXTRA_RECORDS: u64 = 5_000;

    let (w, mut ring) = ShmWriter::create("/t_late_reader", 4096).unwrap();
    let pk = [13u8; 32];
    let payload = [0xDDu8; 32];

    // Phase 1: warmup before reader exists.
    for i in 0..WARMUP_RECORDS {
        w.push(&mut ring, &pk, &payload, i, &SIG0).unwrap();
    }

    // Late reader: attach to the same ring, at tail.
    let mut r = ShmReader::open(&ring).unwrap();
    let mut map = new_map();

    // Phase 2: extra records that the late reader should see.
    let mut count = 0u64;
    for i in WARMUP_RECORDS..(WARMUP_RECORDS + EXTRA_RECORDS) {
        w.push(&mut ring, &pk, &payload, i, &SIG0).unwrap();
        if i % 10 == 0 {
            while let Some((_pk, lamports, _updated, _is_end, _ts)) =
                r.poll_next_into_dashmap(&ring, &mut map, 0)
            {
                // Late reader must never see warmup entries.
                assert!(
                    lamports >= WARMUP_RECORDS,
                    "late reader saw old entry: lamports = {lamports} < WARMUP_RECORDS={WARMUP_RECORDS}"
                );
                count += 1;
            }
        }
    }
    assert!(
        count > 0,
        "late reader did not observe any post-warmup entries"
    );
}

#[test]
fn reader_does_not_rescan_ring_on_idle_after_drain() {
    const NUM_RECORDS: u64 = 5_000;

    let (w, mut r, mut ring) = new_writer_reader(80 * 4096, "/t_idle_no_rescan");
    let mut map = new_map();
    let pk = [123u8; 32];
    let payload = [0xEEu8; 32];
    let mut last = None::<u64>;

    for i in 0..NUM_RECORDS {
        w.push(&mut ring, &pk, &payload, i, &SIG0).unwrap();
        if i % 512 != 0 && i + 1 != NUM_RECORDS {
            continue;
        }
        while let Some((_pk, lamports, _updated, _is_end, _ts)) =
            r.poll_next_into_dashmap(&ring, &mut map, 0)
        {
            if let Some(prev) = last {
                assert!(
                    lamports > prev,
                    "lamports not monotonic: {lamports} <= {prev}"
                );
            }
            last = Some(lamports);
        }
    }
    assert_eq!(last, Some(NUM_RECORDS - 1));

    // Snapshot the cursor after full drain.
    let off_after_drain = r.r_off;

    // Now repeatedly poll while writer is idle; cursor must not move and we must not
    // accidentally "rewind" and rescan the ring.
    for _ in 0..1000 {
        assert!(r.poll_next_into_dashmap(&ring, &mut map, 0).is_none());
        let cur_off = r.r_off;
        assert_eq!(
            cur_off, off_after_drain,
            "reader cursor moved during idle: {} -> {}",
            off_after_drain, cur_off
        );
    }
}

#[test]
fn reader_hits_corrupt_header_path_twice_in_a_row() {
    // We want a tiny ring so we can reason about offsets easily.
    let (_w, mut r, mut ring) = new_writer_reader(512, "/t_two_corrupt_headers");
    let mut map = new_map();
    let hdr_sz = RecHeader::size();
    let second_off = (hdr_sz + 7) & !7;
    assert!(second_off + 4 <= ring.buf.len()); // enough room for another u32 header

    // Two headers that start with an impossible word.
    ring.buf[..4].copy_from_slice(&13u32.to_le_bytes());
    ring.buf[second_off..second_off + 4].copy_from_slice(&13u32.to_le_bytes());

    // Put the reader exactly at the first bad header.
    r.r_off = 0;

    assert!(r.poll_next_into_dashmap(&ring, &mut map, 0).is_none());
    assert!(r.poll_next_into_dashmap(&ring, &mut map, 0).is_none());
}

#[test]
fn writer_handles_exact_capacity_boundary() {
    let cap = 1024;
    let (w, mut r, mut ring) = new_writer_reader(cap, "/t_exact_capacity");
    let mut map = new_map();

    let pk = [1u8; 32];

    // Calculate payload size that exactly fills the buffer
    let hdr_sz = RecHeader::size();
    let payload_size = cap - hdr_sz - 8; // -8 for padding alignment
    let payload = vec![0xAB; payload_size];

    // This should succeed
    assert!(w.push(&mut ring, &pk, &payload, 1, &SIG0).is_ok());

    // Verify we can read it back
    let result = r.poll_next_into_dashmap(&ring, &mut map, 0);
    assert!(result.is_some());
}

#[test]
fn writer_rejects_oversized_payload() {
    let cap = 1024;
    let (w, _r, mut ring) = new_writer_reader(cap, "/t_oversized");

    let pk = [1u8; 32];
    let oversized_payload = vec![0xAB; cap + 100];

    // This should fail with NoSpace
    let result = w.push(&mut ring, &pk, &oversized_payload, 1, &SIG0);
    assert!(matches!(result, Err(ShmError::NoSpace)));
}

#[test]
fn reader_handles_rapid_wrapping() {
    let lamports: Vec<u64> = (0..100_000u64).collect();
    // Small buffer to force frequent wrapping
    let seen = read_while_writing(50 * 512, [99u8; 32], 8, &lamports, 60);
    for pair in seen.windows(2) {
        assert!(pair[1] > pair[0], "non-monotonic lamports");
    }
    assert!(seen.len() > 0);
}

#[test]
fn multiple_readers_at_different_speeds() {
    const NUM_RECORDS: usize = 1000;

    let (w, mut ring) = ShmWriter::create("/t_multi_speed_readers", 16 * 1024).unwrap();
    let pk = [77u8; 32];

    // Write all records first
    for i in 0..NUM_RECORDS {
        let payload = vec![(i & 0xFF) as u8; 16];
        w.push(&mut ring, &pk, &payload, i as u64, &SIG0).unwrap();
    }

    // Open 3 readers: one from start, two from tip
    let mut r1 = ShmReader::open(&ring).unwrap();
    let mut r2 = ShmReader::open(&ring).unwrap();
    let mut r3 = ShmReader::open(&ring).unwrap();

    r1.seek_to_start(&ring); // Read from beginning

    let mut map1 = new_map();
    let mut map2 = new_map();
    let mut map3 = new_map();

    // r1 should see all historical records
    let mut count1 = 0;
    while r1.poll_next_into_dashmap(&ring, &mut map1, 0).is_some() {
        count1 += 1;
    }
    assert!(count1 > 0, "r1 should see historical records");

    // r2 and r3 should see no historical records (started at tip)
    assert!(r2.poll_next_into_dashmap(&ring, &mut map2, 0).is_none());
    assert!(r3.poll_next_into_dashmap(&ring, &mut map3, 0).is_none());

    // Write new records; r2 and r3 should see them (using different pubkey to force update)
    for i in NUM_RECORDS..(NUM_RECORDS + 100) {
        let mut pk_new = pk;
        pk_new[1] = ((i - NUM_RECORDS) & 0xFF) as u8; // Different pubkey for each record
        let payload = vec![(i & 0xFF) as u8; 16];
        w.push(&mut ring, &pk_new, &payload, i as u64, &SIG0)
            .unwrap();
    }

    let mut count2 = 0;
    let mut count3 = 0;
    while r1.poll_next_into_dashmap(&ring, &mut map1, 0).is_some() {}
    while r2.poll_next_into_dashmap(&ring, &mut map2, 0).is_some() {
        count2 += 1;
    }
    while r3.poll_next_into_dashmap(&ring, &mut map3, 0).is_some() {
        count3 += 1;
    }

    assert!(count2 >= 100, "r2 should see new records, got {}", count2);
    assert!(count3 >= 100, "r3 should see new records, got {}", count3);
}

#[test]
fn writer_handles_various_alignment_sizes() {
    let (w, mut r, mut ring) = new_writer_reader(8192, "/t_alignment");
    let mut map = new_map();

    let pk = [55u8; 32];

    // Test various payload sizes to exercise padding logic
    for size in [
        0, 1, 7, 8, 9, 15, 16, 17, 31, 32, 33, 63, 64, 65, 127, 128, 129,
    ] {
        let payload = vec![(size & 0xFF) as u8; size];
        w.push(&mut ring, &pk, &payload, size as u64, &SIG0).unwrap();
    }

    // Read all back and verify sizes
    let mut count = 0;
    while let Some((_pk, lamports, _updated, _is_end, _ts)) =
        r.poll_next_into_dashmap(&ring, &mut map, 0)
    {
        assert_eq!(stored(&map, pk).len(), lamports as usize);
        count += 1;
    }

    assert_eq!(count, 17);
}

#[test]
fn concurrent_writers_with_slow_reader() {
    const NUM_WRITERS: usize = 8;
    const PER_WRITER: usize = 500;

    let (w, mut r, mut ring) = new_writer_reader(8192, "/t_slow_reader");
    let mut map = new_map();
    let mut total_read = 0;

    for i in 0..PER_WRITER {
        for writer_id in 0..NUM_WRITERS {
            let mut pk = [0u8; 32];
            pk[0] = writer_id as u8;
            pk[1] = (i & 0xFF) as u8;
            let payload = vec![writer_id as u8; 32];
            w.push(&mut ring, &pk, &payload, i as u64, &SIG0).unwrap();
        }
        // Slow reader: it comes only after several rounds
        if i % 5 == 0 {
            while r.poll_next_into_dashmap(&ring, &mut map, 0).is_some() {
                total_read += 1;
            }
        }
    }

    assert!(total_read > 0);
}

#[test]
fn zero_length_payload() {
    let (w, mut r, mut ring) = new_writer_reader(1024, "/t_zero_len");
    let mut map = new_map();

    let pk = [22u8; 32];
    let empty_payload: Vec<u8> = vec![];

    w.push(&mut ring, &pk, &empty_payload, 42, &SIG0).unwrap();

    let (out_pk, lamports, _updated, _is_end, _ts) = r
        .poll_next_into_dashmap(&ring, &mut map, 0)
        .expect("zero-length record");

    assert_eq!(out_pk, pk);
    assert_eq!(lamports, 42);
    assert_eq!(stored(&map, pk).len(), 0);
}

#[test]
fn reader_can_replay_history_with_seek_to_start() {
    let (w, mut ring) = ShmWriter::create("/t_reader_replay", 4096).unwrap();
    let pk = [11u8; 32];

    // Write some records before opening reader
    for i in 0..10u64 {
        w.push(&mut ring, &pk, &vec![1u8; 8], i, &SIG0).unwrap();
    }

    // Open reader AFTER writes - it starts at tip (end of existing data)
    let mut r = ShmReader::open(&ring).unwrap();
    let mut map = new_map();

    // Reader at tip should not see historical records
    let mut historical_count = 0;
    for _ in 0..5 {
        if r.poll_next_into_dashmap(&ring, &mut map, 0).is_some() {
            historical_count += 1;
        }
    }
    assert!(
        historical_count < 10,
        "reader at tip should not see all historical records"
    );

    // Seek to start and read all
    r.seek_to_start(&ring);
    let mut count = 0;
    while r.poll_next_into_dashmap(&ring, &mut map, 0).is_some() {
        count += 1;
    }
    assert_eq!(
        count, 10,
        "should read all 10 historical records after seek_to_start"
    );

    // Seek to start again should allow replaying the same records
    r.seek_to_start(&ring);
    count = 0;
    while r.poll_next_into_dashmap(&ring, &mut map, 0).is_some() {
        count += 1;
    }
    assert_eq!(count, 10, "should replay all 10 records after second seek");

    // Write new records with different pubkeys to ensure they're seen
    for i in 10..20u64 {
        let mut pk_new = pk;
        pk_new[0] = i as u8;
        w.push(&mut ring, &pk_new, &vec![2u8; 8], i, &SIG0).unwrap();
    }

    // Should see new records
    count = 0;
    while r.poll_next_into_dashmap(&ring, &mut map, 0).is_some() {
        count += 1;
    }
    assert_eq!(count, 10, "should see all 10 new records");
}

#[test]
fn stress_test_single_writer_single_reader_sustained_load() {
    const NUM_RECORDS: u64 = 100_000;
    let lamports: Vec<u64> = (0..NUM_RECORDS).collect();
    let seen = read_while_writing(64 * 1024, [33u8; 32], 64, &lamports, 200);
    for pair in seen.windows(2) {
        assert!(pair[1] > pair[0]);
    }
    assert_eq!(seen.last().copied(), Some(NUM_RECORDS - 1));
}

#[test]
fn record_layout_is_exact() {
    assert_eq!(RecHeader::size(), 128);
    assert_eq!(needed_bytes(0), 136);
    assert_eq!(needed_bytes(9), 152);

    let (w, _r, mut ring) = new_writer_reader(1024, "/t_layout");
    assert_eq!(ring.magic, MAGIC);
    assert_eq!(ring.version, VERSION);
    let pk = [0x5Au8; 32];
    let (seq, start) = w.push(&mut ring, &pk, b"123456789", 7, &SIG1).unwrap();
    assert_eq!((seq, start), (0, 0));
    assert_eq!(ring.alloc_off, 152);
    assert_eq!(ring.buf[..8], IS_COMMITED_MASK.to_le_bytes());
    assert_eq!(ring.buf[8..12], 152u32.to_le_bytes());
    assert_eq!(ring.buf[12..16], 9u32.to_le_bytes());
    assert_eq!(ring.buf[16..24], 0u64.to_le_bytes());
    assert_eq!(ring.buf[24..56], pk);
    assert_eq!(ring.buf[56..64], 7u64.to_le_bytes());
    assert_eq!(ring.buf[64..128], SIG1);
    assert_eq!(&ring.buf[128..137], b"123456789");
}

#[test]
fn a_record_that_does_not_fit_starts_the_next_lap() {
    let (w, mut r, mut ring) = new_writer_reader(512, "/t_lap");
    let mut map = new_map();
    let pk = [9u8; 32];
    // 136 + 96 = 232 bytes each: two fit, the third turns back.
    for i in 0..2u64 {
        w.push(&mut ring, &pk, &[i as u8; 96], i, &SIG0).unwrap();
        let got = r.poll_next_into_dashmap(&ring, &mut map, 0).unwrap();
        assert_eq!(got.1, i);
    }
    let (_seq, start) = w.push(&mut ring, &pk, &[2u8; 96], 2, &SIG0).unwrap();
    assert_eq!(start, 0);
    assert_eq!(ring.alloc_off, 512 + 232);
    assert_eq!(ring.buf[464..472], IS_WRAP_MARKER.to_le_bytes());
    assert_eq!(ring.buf[16..24], 1u64.to_le_bytes());
    let got = r.poll_next_into_dashmap(&ring, &mut map, 0).unwrap();
    assert_eq!(got.1, 2);
    assert!(r.poll_next_into_dashmap(&ring, &mut map, 0).is_none());
}

#[test]
fn a_reader_at_an_old_wrap_marker_waits() {
    let (w, mut r, mut ring) = new_writer_reader(512, "/t_old_marker");
    let mut map = new_map();
    let pk = [9u8; 32];
    // 232 bytes each: two to a lap, and every lap ends at the same offset.
    for i in 0..20u64 {
        w.push(&mut ring, &pk, &[i as u8; 96], i, &SIG0).unwrap();
        let got = r.poll_next_into_dashmap(&ring, &mut map, 0).unwrap();
        assert_eq!(got.1, i);
        let (off, lap) = (r.r_off, r.read_gen);
        assert!(r.poll_next_into_dashmap(&ring, &mut map, 0).is_none());
        assert_eq!((r.r_off, r.read_gen), (off, lap));
    }
}

#[test]
fn a_segment_that_is_taken_over_keeps_its_bytes() {
    let (w, mut ring) = ShmWriter::create("/t_take_over", 3840).unwrap();
    w.push(&mut ring, &[1u8; 32], b"old", 5, &SIG0).unwrap();
    let held = ring.buf.clone();
    let (w, mut ring) = ShmWriter::take_over("/t_take_over", 3840, held.clone()).unwrap();
    assert_eq!(ring.alloc_off, 0);
    assert_eq!(ring.buf, held);
    // A reader that seeks to the start finds the old record until it is overwritten.
    let mut reader = ShmReader::open(&ring).unwrap();
    let mut map = new_map();
    reader.seek_to_start(&ring);
    assert_eq!(
        reader.poll_next_into_dashmap(&ring, &mut map, 0).unwrap().1,
        5
    );
    w.push(&mut ring, &[1u8; 32], b"new", 6, &SIG0).unwrap();
    reader.seek_to_start(&ring);
    assert_eq!(
        reader.poll_next_into_dashmap(&ring, &mut map, 0).unwrap().1,
        6
    );
    match ShmWriter::take_over("/t_take_over", 8192, held) {
        Err(ShmError::Io(e)) => {
            assert_eq!(e.kind, ShmIoErrorKind::InvalidInput);
            assert_eq!(e.message, "existing shm has size 4096, expected 12288");
        }
        _ => panic!("expected Io(InvalidInput)"),
    }
}

#[test]
fn admission_is_exact() {
    assert_eq!(size_up(888, 1024).unwrap(), Admission::Write(1024));
    assert!(matches!(size_up(889, 1024), Err(ShmError::NoSpace)));
    assert!(matches!(size_up(usize::MAX, 1024), Err(ShmError::NoSpace)));
    let large = u32::MAX as usize;
    assert_eq!(size_up(large, 2 * large).unwrap(), Admission::Skip(3));
}

#[test]
fn reservation_is_exact() {
    let fits = reserve(1000, 16, 1024);
    assert!(fits.fits);
    assert_eq!((fits.start, fits.next, fits.rec_start, fits.generation), (1000, 1016, 1000, 0));
    let turns = reserve(1000, 24, 1024);
    assert!(!turns.fits);
    assert_eq!((turns.start, turns.next, turns.rec_start, turns.generation), (1000, 1048, 0, 1));
}

#[test]
fn segment_names_and_sizes() {
    assert_eq!(normalized_shm_name("accounts").unwrap(), "/accounts");
    assert_eq!(normalized_shm_name("/accounts").unwrap(), "/accounts");
    match normalized_shm_name("a/b") {
        Err(ShmError::InvalidShmName(name)) => assert_eq!(name, "/a/b"),
        other => panic!("expected InvalidShmName, got {other:?}"),
    }
    assert_eq!(segment_size(1024).unwrap(), 4096);
    assert_eq!(segment_size(3840).unwrap(), 4096);
    assert_eq!(segment_size(3841).unwrap(), 8192);
    match segment_size(0) {
        Err(ShmError::Io(e)) => {
            assert_eq!(e.kind, ShmIoErrorKind::InvalidInput);
            assert_eq!(e.message, "capacity_bytes=0");
        }
        other => panic!("expected Io(InvalidInput), got {other:?}"),
    }
    assert_eq!(clock_micros(3, 4_999), 3_000_004);
    assert_eq!(tip_cursor(5000, 4096), (904, 1));
}

#[test]
fn opening_follows_the_mode() {
    assert!(matches!(first_open_mode(true), OpenMode::CreateExclusive));
    assert!(matches!(first_open_mode(false), OpenMode::Existing));
    assert!(matches!(fallback_open_mode(true), OpenMode::Create));
    assert!(matches!(fallback_open_mode(false), OpenMode::Existing));
    assert!(matches!(
        after_open(false, false, 4096, 8192),
        Ok(AfterOpen::Keep)
    ));
    assert!(matches!(
        after_open(true, false, 4096, 4096),
        Ok(AfterOpen::Keep)
    ));
}

#[test]
fn capacity_of_a_segment_is_checked() {
    assert_eq!(checked_capacity(MAGIC, VERSION, 3840, 4096).unwrap(), 3840);
    assert!(matches!(
        checked_capacity(MAGIC, VERSION + 1, 3840, 4096),
        Err(ShmError::InvalidHeader)
    ));
    assert!(matches!(
        checked_capacity(MAGIC, VERSION, 3841, 4096),
        Err(ShmError::InvalidHeader)
    ));
    assert!(matches!(
        checked_capacity(MAGIC, VERSION, 0, 4096),
        Err(ShmError::InvalidHeader)
    ));
}

#[test]
fn header_of_a_new_segment() {
    let header = ShmHeader::new(4096);
    assert_eq!(header.magic, MAGIC);
    assert_eq!(header.version, VERSION);
    assert_eq!(header.capacity, 4096);
}

#[test]
fn test_reader_not_stuck_on_stale_seq_at_tail() {
    const CAP: usize = 8192;
    let (w, mut r, mut ring) = new_writer_reader(CAP, "/test_stuck_reader");

    let pubkey = [42u8; 32];
    let data = vec![0xCC; 200];

    // Write enough to fill the ring and wrap around
    let records_to_wrap = (CAP / 256) + 10;

    for i in 0..records_to_wrap {
        w.push(&mut ring, &pubkey, &data, i as u64, &SIG0).unwrap();
    }

    // Reader drains everything
    let mut map = new_map();
    let mut count = 0;
    for _ in 0..records_to_wrap * 2 {
        if r.poll_next_into_dashmap(&ring, &mut map, 0).is_some() {
            count += 1;
        }
    }
    println!("Reader consumed {} records before wrapping", count);

    // Now write a few more to overwrite old positions
    for i in 0..5 {
        w.push(&mut ring, &pubkey, &data, (records_to_wrap + i) as u64, &SIG0)
            .unwrap();
    }

    // Reader should be able to read these new records without getting stuck
    let mut new_reads = 0;
    while r.poll_next_into_dashmap(&ring, &mut map, 0).is_some() {
        new_reads += 1;
        if new_reads >= 5 {
            break;
        }
    }
    assert!(
        new_reads >= 3,
        "Reader should not get stuck and should read most new records"
    );
}

#[test]
fn a_reader_that_was_overrun_by_many_laps_goes_on() {
    let (w, mut r, mut ring) = new_writer_reader(1024, "/t_overrun");
    let mut map = new_map();
    let pk = [3u8; 32];
    for i in 0..100u64 {
        w.push(&mut ring, &pk, &[0xAA; 32], i, &SIG0).unwrap();
    }
    let mut seen: Vec<u64> = Vec::new();
    while let Some((_, lamports, _, _, _)) = r.poll_next_into_dashmap(&ring, &mut map, 0) {
        seen.push(lamports);
    }
    // 168 bytes each: six to a lap, so the last lap holds the last four.
    assert_eq!(seen, vec![96, 97, 98, 99]);
}

#[test]
fn records_that_fill_the_ring_are_read_in_turn() {
    let (w, mut r, mut ring) = new_writer_reader(1024, "/t_full_ring");
    let mut map = new_map();
    let pk = [4u8; 32];
    for i in 0..5u64 {
        w.push(&mut ring, &pk, &[i as u8; 888], i, &SIG0).unwrap();
        let got = r.poll_next_into_dashmap(&ring, &mut map, 0).unwrap();
        assert_eq!((got.0, got.1, got.2), (pk, i, true));
        assert_eq!(stored(&map, pk), vec![i as u8; 888]);
        assert!(r.poll_next_into_dashmap(&ring, &mut map, 0).is_none());
    }
}

fn poll_traced(
    r: &mut ShmReader,
    ring: &ShmRing,
    map: &mut Accounts,
) -> (Option<([u8; 32], u64, bool, bool, u64)>, Vec<String>) {
    let mut steps: Vec<TraceOp> = Vec::new();
    let taken = r.poll_traced(&ring.buf, map, 9, &mut steps);
    (taken, steps.iter().map(|step| format!("{:?}", step)).collect())
}

#[test]
fn a_poll_tells_its_steps() {
    let (w, mut r, mut ring) = new_writer_reader(4096, "t_steps");
    let mut map = new_map();
    let pk = [7u8; 32];
    let same_lap = "GenValidation { rec_gen: 0, expected_gen: 0, matched: true }";

    // Nothing was written yet.
    let (taken, steps) = poll_traced(&mut r, &ring, &mut map);
    assert!(taken.is_none());
    assert!(steps.is_empty());

    let cases: Vec<(&[u8], String)> = vec![
        (b"abc", format!("DashNewInsert({:?})", pk)),
        (b"abd", "DashSameLengthUpdated".to_string()),
        (b"ab", "DashDataLengthDecreased".to_string()),
        (b"abcdefgh", "DashDataLengthIncreased".to_string()),
    ];
    for (data, step) in cases {
        w.push(&mut ring, &pk, data, 5, &SIG0).unwrap();
        let (taken, steps) = poll_traced(&mut r, &ring, &mut map);
        assert_eq!(taken, Some((pk, 5, true, false, 9)));
        let read = format!("RecordRead {{ lamports: 5, data_len: {} }}", data.len());
        assert_eq!(steps, vec![same_lap, &read, &step, "Complete"]);
        assert_eq!(stored(&map, pk), data.to_vec());
    }

    // The same payload again changes nothing; an end marker is not stored.
    w.push(&mut ring, &pk, b"abcdefgh", 6, &SIG0).unwrap();
    let (taken, steps) = poll_traced(&mut r, &ring, &mut map);
    assert_eq!(taken, Some((pk, 6, false, false, 9)));
    assert_eq!(
        steps,
        vec![same_lap, "RecordRead { lamports: 6, data_len: 8 }", "Complete"]
    );
    w.push_tx_end_marker(&mut ring, &SIG1).unwrap();
    let (taken, steps) = poll_traced(&mut r, &ring, &mut map);
    assert_eq!(taken, Some((TX_END_MARKER_PUBKEY, 0, true, true, 9)));
    assert_eq!(
        steps,
        vec![same_lap, "RecordRead { lamports: 0, data_len: 1 }", "Complete"]
    );
    assert_eq!(map.len(), 1);
}

#[test]
fn a_poll_tells_of_laps() {
    // A record of 100 bytes takes 240 of the 600 bytes.
    let (w, mut r, mut ring) = new_writer_reader(600, "t_lap_steps");
    let mut map = new_map();
    for i in 0..2u8 {
        w.push(&mut ring, &[i; 32], &[i; 100], 1, &SIG0).unwrap();
        poll_traced(&mut r, &ring, &mut map);
    }
    w.push(&mut ring, &[2u8; 32], &[2; 100], 1, &SIG0).unwrap();
    let (taken, steps) = poll_traced(&mut r, &ring, &mut map);
    assert_eq!(taken, Some(([2u8; 32], 1, true, false, 9)));
    assert_eq!(
        steps,
        vec![
            "WrapMarker".to_string(),
            "GenValidation { rec_gen: 1, expected_gen: 1, matched: true }".to_string(),
            "RecordRead { lamports: 1, data_len: 100 }".to_string(),
            format!("DashNewInsert({:?})", [2u8; 32]),
            "Complete".to_string(),
        ]
    );
    // What stands behind it is left over from the first lap.
    let (taken, steps) = poll_traced(&mut r, &ring, &mut map);
    assert!(taken.is_none());
    assert_eq!(
        steps,
        vec![
            "GenValidation { rec_gen: 0, expected_gen: 1, matched: false }",
            "StaleRecord"
        ]
    );
}

#[test]
fn slow_deliveries_are_told_from_others() {
    assert!(!is_slow_delivery(10, 1_010));
    assert!(is_slow_delivery(10, 1_011));
    assert!(!is_slow_delivery(10, 3));
}

#[test]
fn a_reader_at_the_tip_gets_every_record_across_laps() {
    let (w, _, mut ring) = new_writer_reader(1024, "t_session");
    w.push(&mut ring, &[99u8; 32], b"before the reader", 1, &SIG0)
        .unwrap();
    let mut r = ShmReader::open(&ring).expect("open shm");
    let mut map = new_map();
    let mut read: u64 = 0;
    for pushed in 0..201u64 {
        let key = [(pushed % 5) as u8; 32];
        let data = vec![pushed as u8; (pushed % 90) as usize];
        w.push(&mut ring, &key, &data, pushed, &SIG0).unwrap();
        // Every third record waits for the next one.
        if pushed % 3 == 1 {
            continue;
        }
        while read <= pushed {
            let earlier: Vec<(Pubkey, Vec<u8>)> = map
                .iter()
                .map(|entry| (*entry.key(), entry.value().clone()))
                .collect();
            let (key, lamports, _, is_end, ts) =
                r.poll_next_into_dashmap(&ring, &mut map, read).unwrap();
            assert_eq!((lamports, is_end, ts), (read, false, read));
            assert_eq!(key, [(read % 5) as u8; 32]);
            assert_eq!(stored(&map, key), vec![read as u8; (read % 90) as usize]);
            for (other, value) in earlier {
                if other != Pubkey::new_from_array(key) {
                    assert_eq!(stored(&map, other.to_bytes()), value);
                }
            }
            read += 1;
        }
        assert!(r.poll_next_into_dashmap(&ring, &mut map, 0).is_none());
    }
    assert_eq!(read, 201);
    assert!(ring.alloc_off > 10 * 1024);
    assert!(map.get(&Pubkey::new_from_array([99u8; 32])).is_none());
}
