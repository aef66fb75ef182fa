//! Where everything stands in a ring and its segment, in plain offsets.
use crate::shm::{
    Record, ShmError, ShmReader, ShmRing, Sight, HEADER_SIZE, IS_COMMITED_MASK, IS_WRAP_MARKER, MAGIC, PAGE_SIZE,
    REC_HEADER_SIZE, TX_END_MARKER_PUBKEY, VERSION,
};
use crate::trace::TraceOp;
use dashmap::DashMap;
use gxhash::GxBuildHasher;
use solana_pubkey::Pubkey;
use vstd::prelude::*;

verus! {

/// The layout of a record: a word of ones, the reserved size and the payload's size in 4 bytes each,
/// the lap in 8, the key in 32, the lamports in 8, the signature in 64, and then the payload, filled
/// up with zeros to whole words. Numbers are little-endian.
pub proof fn law_record_layout(rec: Record, lap: u64)
    requires
        rec.valid(),
    ensures
        ({
            let bytes = crate::shm::record_bytes(rec, lap);
            let n = rec.data.len() as int;
            &&& bytes.len() % 8 == 0
            &&& 128 + n <= bytes.len() < 128 + n + 8
            &&& bytes.subrange(0, 8) == vstd::bytes::spec_u64_to_le_bytes(0xffff_ffff_ffff_ffff)
            &&& bytes.subrange(8, 12) == vstd::bytes::spec_u32_to_le_bytes(
                (bytes.len() + 8) as u32,
            )
            &&& bytes.subrange(12, 16) == vstd::bytes::spec_u32_to_le_bytes(n as u32)
            &&& bytes.subrange(16, 24) == vstd::bytes::spec_u64_to_le_bytes(lap)
            &&& bytes.subrange(24, 56) == rec.pubkey
            &&& bytes.subrange(56, 64) == vstd::bytes::spec_u64_to_le_bytes(rec.lamports)
            &&& bytes.subrange(64, 128) == rec.trigger_sig
            &&& bytes.subrange(128, 128 + n) == rec.data
            &&& forall|i: int| 128 + n <= i < bytes.len() ==> #[trigger] bytes[i] == 0
        }),
{
    vstd::bytes::lemma_auto_spec_u64_to_from_le_bytes();
    vstd::bytes::lemma_auto_spec_u32_to_from_le_bytes();
    crate::shm::lemma_record_bytes_len(rec, lap);
    let bytes = crate::shm::record_bytes(rec, lap);
    let n = rec.data.len() as int;
    assert(bytes.subrange(0, 8) =~= vstd::bytes::spec_u64_to_le_bytes(IS_COMMITED_MASK));
    assert(bytes.subrange(8, 12) =~= vstd::bytes::spec_u32_to_le_bytes(
        crate::shm::record_need(n) as u32,
    ));
    assert(bytes.subrange(12, 16) =~= vstd::bytes::spec_u32_to_le_bytes(n as u32));
    assert(bytes.subrange(16, 24) =~= vstd::bytes::spec_u64_to_le_bytes(lap));
    assert(bytes.subrange(24, 56) =~= rec.pubkey);
    assert(bytes.subrange(56, 64) =~= vstd::bytes::spec_u64_to_le_bytes(rec.lamports));
    assert(bytes.subrange(64, 128) =~= rec.trigger_sig);
    assert(bytes.subrange(128, 128 + n) =~= rec.data);
}

/// A record with `n` bytes of payload takes a header of 128 bytes, the payload in whole words, and
/// one more word.
pub proof fn law_record_size(n: int)
    requires
        0 <= n,
    ensures
        crate::shm::record_need(n) % 8 == 0,
        n + 136 <= crate::shm::record_need(n) < n + 144,
{
}

/// A record starts at the cursor where it ends, with a word to spare, before the end of the lap, and
/// at the start of the next lap otherwise. It never reaches over the end of the ring.
pub proof fn law_record_place(cur: int, need: int, cap: int)
    requires
        0 <= cur,
        0 < need <= cap,
    ensures
        ({
            let pos = crate::shm::record_position(cur, need, cap);
            let start = cur % cap;
            &&& start + need + 8 <= cap ==> pos == cur
            &&& start + need + 8 > cap ==> pos % cap == 0 && cur < pos <= cur + cap && pos / cap
                == cur / cap + 1
            &&& pos % cap + need <= cap
        }),
{
    crate::shm::lemma_next_offset(cur, need, cap);
    vstd::arithmetic::div_mod::lemma_mod_bound(cur, cap);
}

/// A push changes the bytes of its record, and where it turns back to the start of the ring the word
/// at the cursor, which becomes the wrap marker unless the record reaches it; it changes no others.
pub proof fn law_push_touches_its_place_only(
    buf: Seq<u8>,
    cap: int,
    cur: int,
    rec: Record,
    i: int,
)
    requires
        rec.valid(),
        0 < cap <= buf.len(),
        0 <= cur,
        crate::shm::record_need(rec.data.len() as int) <= cap,
        0 <= i < buf.len(),
    ensures
        ({
            let need = crate::shm::record_need(rec.data.len() as int);
            let pos = crate::shm::record_position(cur, need, cap);
            let off = pos % cap;
            let bytes = crate::shm::record_bytes(rec, (pos / cap) as u64);
            let after = crate::shm::ring_after_push(buf, cap, cur, rec);
            let turned = cur % cap + need + 8 > cap;
            let start = cur % cap;
            &&& after.len() == buf.len()
            &&& off <= i < off + bytes.len() ==> after[i] == bytes[i - off]
            &&& !(off <= i < off + bytes.len()) && turned && start <= i < start + 8 ==> after[i]
                == vstd::bytes::spec_u64_to_le_bytes(0xf0f0_f0f0_f0f0_f0f0)[i - start]
            &&& !(off <= i < off + bytes.len()) && !(turned && start <= i < start + 8) ==> after[i]
                == buf[i]
        }),
{
    vstd::bytes::lemma_auto_spec_u64_to_from_le_bytes();
    let need = crate::shm::record_need(rec.data.len() as int);
    let pos = crate::shm::record_position(cur, need, cap);
    crate::shm::lemma_next_offset(cur, need, cap);
    crate::shm::lemma_record_bytes_len(rec, (pos / cap) as u64);
}

/// What a poll takes from the place where it lands: the key from byte 24 on, the lamports from byte
/// 56 on, the payload from byte 128 on with the length given at byte 12; it stands behind the record
/// afterwards, by the size given at byte 8. The payload is stored under the key, in place of any
/// earlier one, unless the key is the one of ones that ends a transaction; other entries stay.
pub proof fn law_poll_reads_the_layout(
    before: ShmReader,
    after: ShmReader,
    buf: Seq<u8>,
    map_before: DashMap<Pubkey, Vec<u8>, GxBuildHasher>,
    map_after: DashMap<Pubkey, Vec<u8>, GxBuildHasher>,
    receive_ts: u64,
    taken: Option<([u8; 32], u64, bool, bool, u64)>,
    other: Seq<u8>,
)
    requires
        crate::shm::polled(before, after, buf, map_before, map_after, receive_ts, taken),
    ensures
        ({
            let r = before.r_off as int % before.cap as int;
            let end = crate::shm::landing(buf, r, before.read_gen);
            let at = if end.moved {
                0
            } else {
                r
            };
            let old_map = crate::account_map::account_payloads(map_before);
            let new_map = crate::account_map::account_payloads(map_after);
            let size = vstd::bytes::spec_u32_from_le_bytes(buf.subrange(at + 8, at + 12));
            let n = vstd::bytes::spec_u32_from_le_bytes(buf.subrange(at + 12, at + 16));
            let key = buf.subrange(at + 24, at + 56);
            let data = buf.subrange(at + 128, at + 128 + n);
            let ends = key == Seq::new(32, |i: int| 255u8);
            &&& taken is None ==> map_after == map_before
            &&& taken matches Some((pubkey, lamports, updated, is_end, ts)) ==> {
                &&& pubkey@ == key
                &&& lamports == vstd::bytes::spec_u64_from_le_bytes(buf.subrange(at + 56, at + 64))
                &&& is_end == ends
                &&& ts == receive_ts
                &&& ends ==> map_after == map_before && updated
                &&& !ends ==> {
                    &&& new_map.contains_key(key)
                    &&& new_map[key] == data
                    &&& updated <==> !(old_map.contains_key(key) && old_map[key] == data)
                    &&& other != key ==> (new_map.contains_key(other)
                        <==> old_map.contains_key(other)) && new_map[other] == old_map[other]
                }
                &&& at + size != before.cap ==> after.r_off == at + size && after.read_gen
                    == end.lap
                &&& at + size == before.cap && end.lap < u64::MAX ==> after.r_off == 0
                    && after.read_gen == end.lap + 1
            }
        }),
{
    assert(TX_END_MARKER_PUBKEY@ =~= Seq::new(32, |i: int| 255u8));
}

/// The steps of a poll: those of its looks, and where it took a record, that the record was read,
/// what became of its payload in the map, and that the poll is complete. A payload that is new,
/// differs at the same length, is shorter or is longer has one step; one that is the same, or that
/// of an end marker, has none.
pub proof fn law_steps_of_a_poll(
    before: ShmReader,
    buf: Seq<u8>,
    payloads: Map<Seq<u8>, Seq<u8>>,
    taken: Option<([u8; 32], u64, bool, bool, u64)>,
)
    ensures
        ({
            let r = before.r_off as int % before.cap as int;
            let end = crate::shm::landing(buf, r, before.read_gen);
            let at = if end.moved {
                0
            } else {
                r
            };
            let looked = crate::shm::landing_steps(buf, r, before.read_gen);
            let steps = crate::shm::poll_steps(before, buf, payloads, taken);
            let n = crate::bytes::word32(buf, at + 12);
            let data = buf.subrange(at + 128, at + 128 + n);
            let m = looked.len() as int;
            &&& m <= steps.len()
            &&& steps.subrange(0, m) == looked
            &&& taken is None ==> steps.len() == m
            &&& taken matches Some((pubkey, lamports, _, is_end, _)) ==> {
                let known = payloads.contains_key(pubkey@);
                let held = payloads[pubkey@];
                let stored = !is_end && !(known && held == data);
                &&& steps[m] == (TraceOp::RecordRead { lamports, data_len: n as usize })
                &&& steps.last() == TraceOp::Complete
                &&& steps.len() == m + if stored {
                    3int
                } else {
                    2
                }
                &&& stored && !known ==> steps[m + 1] == TraceOp::DashNewInsert(pubkey)
                &&& stored && known && held.len() == data.len() ==> steps[m + 1]
                    == TraceOp::DashSameLengthUpdated
                &&& stored && known && held.len() > data.len() ==> steps[m + 1]
                    == TraceOp::DashDataLengthDecreased
                &&& stored && known && held.len() < data.len() ==> steps[m + 1]
                    == TraceOp::DashDataLengthIncreased
            }
        }),
{
    let r = before.r_off as int % before.cap as int;
    let looked = crate::shm::landing_steps(buf, r, before.read_gen);
    let steps = crate::shm::poll_steps(before, buf, payloads, taken);
    assert(steps.subrange(0, looked.len() as int) =~= looked);
}

/// The steps of one look: a wrap marker is one step; a complete record's lap is compared with the
/// expected one, and a record of an earlier lap is left over; anything else is no step.
pub proof fn law_steps_of_a_look(buf: Seq<u8>, r: int, lap: u64)
    requires
        0 <= r,
        r + 128 <= buf.len(),
    ensures
        ({
            let steps = crate::shm::look_steps(buf, r, lap);
            let first = crate::bytes::word64(buf, r);
            let rec_gen = crate::bytes::word64(buf, r + 16);
            let compared = TraceOp::GenValidation {
                rec_gen,
                expected_gen: lap,
                matched: rec_gen == lap,
            };
            &&& first == 0xf0f0_f0f0_f0f0_f0f0 ==> steps == seq![TraceOp::WrapMarker]
            &&& first == 0xffff_ffff_ffff_ffff && rec_gen >= lap ==> steps == seq![compared]
            &&& first == 0xffff_ffff_ffff_ffff && rec_gen < lap ==> steps == seq![
                compared,
                TraceOp::StaleRecord,
            ]
            &&& first != 0xf0f0_f0f0_f0f0_f0f0 && first != 0xffff_ffff_ffff_ffff ==> steps.len()
                == 0
        }),
{
}

/// Sizes and marks of the format.
pub proof fn law_format_is_fixed()
    ensures
        MAGIC == 0x5348_4D41,
        VERSION == 5,
        HEADER_SIZE == 256,
        REC_HEADER_SIZE == 128,
        PAGE_SIZE == 4096,
        IS_COMMITED_MASK == 0xffff_ffff_ffff_ffff,
        IS_WRAP_MARKER == 0xf0f0_f0f0_f0f0_f0f0,
        TX_END_MARKER_PUBKEY@ == Seq::new(32, |i: int| 255u8),
{
    assert(TX_END_MARKER_PUBKEY@ =~= Seq::new(32, |i: int| 255u8));
}

/// A segment takes whole pages of 4096 bytes, as few as hold its header and its ring.
pub proof fn law_segment_takes_whole_pages(capacity: int)
    requires
        0 <= capacity,
    ensures
        ({
            let total = crate::shm_segment::aligned(HEADER_SIZE + capacity, PAGE_SIZE as int);
            &&& total % 4096 == 0
            &&& 256 + capacity <= total < 256 + capacity + 4096
        }),
{
}

/// A name is given a slash in front unless it has one, and is accepted exactly where that is the
/// only one.
pub proof fn law_segment_names(name: Seq<char>)
    ensures
        ({
            let full = crate::shm_segment::with_slash(name);
            &&& name.len() > 0 && name[0] == '/' ==> full == name
            &&& name.len() == 0 || name[0] != '/' ==> full == seq!['/'] + name
            &&& crate::shm_segment::valid_shm_name(name) <==> name.len() > 0 && name[0] == '/'
                && !name.subrange(1, name.len() as int).contains('/')
        }),
{
    if name.len() > 0 {
        let rest = name.subrange(1, name.len() as int);
        if rest.contains('/') {
            let i = choose|i: int| 0 <= i < rest.len() && rest[i] == '/';
            assert(name[i + 1] == '/');
        }
        if !crate::shm_segment::valid_shm_name(name) && name[0] == '/' {
            let i = choose|i: int| 1 <= i < name.len() && name[i] == '/';
            assert(rest[i - 1] == '/');
        }
    }
}

/// The error for a segment of the wrong size names the size it has and the one expected.
pub proof fn law_wrong_size_is_named(current: int, expected: int)
    ensures
        crate::shm_segment::size_mismatch_text(current, expected) == "existing shm has size "@ + (
        crate::text::decimal(current) + (", expected "@ + crate::text::decimal(expected))),
{
    assert(crate::shm_segment::size_mismatch_text(current, expected) =~= "existing shm has size "@
        + (crate::text::decimal(current) + (", expected "@ + crate::text::decimal(expected))));
}

/// A record whose header, padded payload and spare word are larger than the ring is refused, and one
/// whose size does not fit 32 bits is skipped with status 3; neither changes anything. Every other
/// record is written with status 0, at the place that is returned, and moves the cursor behind it.
pub proof fn law_push_outcomes(
    before: ShmRing,
    after: ShmRing,
    cap: int,
    rec: Record,
    outcome: Result<(u64, usize), ShmError>,
)
    requires
        crate::shm::pushed(before, after, cap, rec, outcome),
        0 < cap <= usize::MAX,
    ensures
        ({
            let padded = (rec.data.len() + 7) / 8 * 8;
            let need = 128 + padded + 8;
            let start = before.alloc_off as int % cap;
            &&& after.capacity == before.capacity && after.magic == before.magic && after.version
                == before.version
            &&& need > cap ==> outcome == Err::<(u64, usize), ShmError>(ShmError::NoSpace) && after
                == before
            &&& need <= cap && need > 0xffff_ffff ==> outcome == Ok::<(u64, usize), ShmError>(
                (3, 0),
            ) && after == before
            &&& need <= cap && need <= 0xffff_ffff ==> {
                &&& outcome matches Ok((status, at))
                &&& status == 0
                &&& start + need + 8 <= cap ==> at == start && after.alloc_off == before.alloc_off
                    + need
                &&& start + need + 8 > cap ==> at == 0 && after.alloc_off == before.alloc_off - start
                    + cap + need
            }
        }),
{
    let need = crate::shm::record_need(rec.data.len() as int);
    if need <= cap {
        crate::shm::lemma_next_offset(before.alloc_off as int, need, cap);
        vstd::arithmetic::div_mod::lemma_mod_bound(before.alloc_off as int, cap);
    }
}

/// A segment can be used where it starts with the right mark and version and its ring is not empty and
/// lies within it, behind the 256 bytes of the header.
pub proof fn law_usable_segments(magic: u32, version: u32, capacity: u64, len: int)
    ensures
        crate::shm_segment::usable_segment(magic, version, capacity, len) <==> {
            &&& magic == 0x5348_4D41
            &&& version == 5
            &&& 0 < capacity
            &&& 256 + capacity <= len
        },
{
}

/// A new reader stands exactly where the next record begins that stays on the lap, on that lap: its
/// linear position is the writers' cursor.
pub proof fn law_new_reader_is_at_the_cursor(ring: ShmRing, reader: ShmReader)
    requires
        0 < ring.capacity,
        crate::shm_segment::at_tip(ring, reader),
    ensures
        reader.read_gen * ring.capacity + reader.r_off == ring.alloc_off,
        reader.r_off < ring.capacity,
        reader.cap == ring.capacity,
{
    let cap = ring.capacity as int;
    let alloc = ring.alloc_off as int;
    vstd::arithmetic::div_mod::lemma_fundamental_div_mod(alloc, cap);
    vstd::arithmetic::div_mod::lemma_mod_bound(alloc, cap);
    vstd::arithmetic::mul::lemma_mul_is_commutative(cap, alloc / cap);
}

/// What a reader that expects a lap sees at a place with room for a record's header. It sees its
/// record where one lies complete, on that lap, with its payload inside the ring. It is sent to the
/// start of the ring where a record of a later lap lies complete, and by a wrap marker once the
/// record at the start is complete and of a later lap, to which it then goes over. It sees nothing
/// otherwise.
pub proof fn law_what_a_reader_sees(buf: Seq<u8>, r: int, lap: u64)
    requires
        0 <= r,
        r + 128 <= buf.len(),
    ensures
        ({
            let seen = crate::shm::sight(buf, r, lap);
            let first = crate::bytes::word64(buf, r);
            let own_lap = crate::bytes::word64(buf, r + 16);
            let start_lap = crate::bytes::word64(buf, 16);
            let complete = first == 0xffff_ffff_ffff_ffff;
            let marker = first == 0xf0f0_f0f0_f0f0_f0f0;
            let turned = marker && crate::bytes::word64(buf, 0) == 0xffff_ffff_ffff_ffff
                && start_lap > lap;
            &&& seen is Here <==> complete && own_lap == lap && r + 128 + crate::bytes::word32(
                buf,
                r + 12,
            ) <= buf.len()
            &&& seen is Restart <==> turned || complete && own_lap > lap
            &&& turned ==> seen == Sight::Restart(start_lap)
            &&& complete && own_lap > lap ==> seen == Sight::Restart(own_lap)
        }),
{
}

/// Where a reader lands: at its place, unless it is sent to the start of the ring; then it stands
/// there, on the lap of what sent it or a later one. It finds a record exactly where it sees its
/// record at the place where it stands.
pub proof fn law_where_a_reader_lands(buf: Seq<u8>, r: int, lap: u64)
    ensures
        ({
            let end = crate::shm::landing(buf, r, lap);
            let steps = crate::shm::landing_steps(buf, r, lap);
            match crate::shm::sight(buf, r, lap) {
                Sight::Restart(next) => {
                    &&& end.moved
                    &&& end.lap >= next
                    &&& end.found <==> crate::shm::sight(buf, 0, end.lap) is Here
                    &&& crate::shm::sight(buf, 0, next) matches Sight::Restart(last) ==> end.lap
                        == last && steps == crate::shm::look_steps(buf, r, lap)
                        + crate::shm::look_steps(buf, 0, next) + crate::shm::look_steps(buf, 0, last)
                    &&& !(crate::shm::sight(buf, 0, next) is Restart) ==> end.lap == next && steps
                        == crate::shm::look_steps(buf, r, lap) + crate::shm::look_steps(buf, 0, next)
                },
                seen => {
                    &&& !end.moved
                    &&& end.lap == lap
                    &&& end.found <==> seen is Here
                    &&& steps == crate::shm::look_steps(buf, r, lap)
                },
            }
        }),
{
}

} // verus!
