//! What writers and readers of a ring can rely on together.
use crate::shm::{Landing, Record, Sight, IS_COMMITED_MASK, IS_WRAP_MARKER, REC_HEADER_SIZE};
use vstd::prelude::*;

verus! {

/// The bytes of a wrap marker.
pub open spec fn marker_bytes() -> Seq<u8> {
    vstd::bytes::spec_u64_to_le_bytes(IS_WRAP_MARKER)
}

/// The ring holds the records of `log`, in order, between the linear positions `from` and `to`.
pub open spec fn backlog(buf: Seq<u8>, cap: int, from: int, log: Seq<Record>, to: int) -> bool
    decreases log.len(),
{
    if log.len() == 0 {
        from == to
    } else {
        let need = crate::shm::record_need(log[0].data.len() as int);
        let pos = crate::shm::record_position(from, need, cap);
        let bytes = crate::shm::record_bytes(log[0], (pos / cap) as u64);
        &&& log[0].valid()
        &&& need <= cap
        &&& pos / cap <= u64::MAX
        &&& buf.subrange(pos % cap, pos % cap + bytes.len()) == bytes
        &&& !crate::shm::fits_lap(from, need, cap) && from % cap != 0 ==> buf.subrange(
            from % cap,
            from % cap + 8,
        ) == marker_bytes()
        &&& backlog(buf, cap, pos + need, log.drop_first(), to)
    }
}

/// A reader whose next record is the one at linear position `from`.
pub open spec fn stands_at(r_off: int, read_gen: int, cap: int, from: int) -> bool {
    &&& r_off % cap == from % cap
    &&& read_gen == from / cap
}

/// Shape of the ring that the laws speak of: `cap` bytes of it carry records, the cursor
/// positions are word-aligned.
pub open spec fn ring_shape(buf: Seq<u8>, cap: int) -> bool {
    &&& 0 < cap <= buf.len()
    &&& buf.len() % 8 == 0
    &&& REC_HEADER_SIZE <= buf.len()
}

/// A record pushed at `to` does not reach what a reader at `from` has not read yet.
pub open spec fn leaves_unread_alone(from: int, to: int, need: int, cap: int) -> bool {
    ||| crate::shm::record_position(to, need, cap) + need - 8 - from <= cap
    ||| from == to && to % cap == 0
}

/// The byte that linear position `x` stands for.
spec fn cell(buf: Seq<u8>, x: int, cap: int) -> u8 {
    buf[x % cap]
}

/// `after` differs from `before` at most outside the linear positions `from..to` and, behind
/// the ring's end, by the bytes of a wrap marker.
spec fn agrees(before: Seq<u8>, after: Seq<u8>, cap: int, from: int, to: int) -> bool {
    let s = cap / 8 * 8;
    &&& before.len() == after.len()
    &&& forall|x: int| from <= x < to ==> #[trigger] cell(after, x, cap) == cell(before, x, cap)
    &&& forall|i: int|
        #![trigger after[i]]
        cap <= i < before.len() ==> after[i] == before[i] || i < s + 8 && after[i]
            == marker_bytes()[i - s]
}

proof fn lemma_offset_inside_lap(x: int, j: int, cap: int)
    requires
        0 < cap,
        0 <= j,
        x % cap + j < cap,
    ensures
        (x + j) % cap == x % cap + j,
{
    vstd::arithmetic::div_mod::lemma_fundamental_div_mod(x, cap);
    assert(x + j == (x / cap) * cap + (x % cap + j)) by (nonlinear_arith)
        requires
            x == cap * (x / cap) + x % cap,
    ;
    vstd::arithmetic::div_mod::lemma_fundamental_div_mod_converse(
        x + j,
        cap,
        x / cap,
        x % cap + j,
    );
}

proof fn lemma_distinct_offsets(x: int, y: int, cap: int)
    requires
        0 < cap,
        x < y < x + cap,
    ensures
        x % cap != y % cap,
{
    vstd::arithmetic::div_mod::lemma_fundamental_div_mod(x, cap);
    vstd::arithmetic::div_mod::lemma_fundamental_div_mod(y, cap);
    if x % cap == y % cap {
        assert(y - x == cap * (y / cap - x / cap)) by (nonlinear_arith)
            requires
                x == cap * (x / cap) + x % cap,
                y == cap * (y / cap) + y % cap,
                x % cap == y % cap,
        ;
        let k = y / cap - x / cap;
        assert(false) by (nonlinear_arith)
            requires
                0 < cap,
                0 < cap * k < cap,
        ;
    }
}

/// A backlog ends no earlier than it starts, and no earlier than its first record.
pub proof fn law_backlog_grows(buf: Seq<u8>, cap: int, from: int, log: Seq<Record>, to: int)
    requires
        0 < cap,
        0 <= from,
        backlog(buf, cap, from, log, to),
    ensures
        from <= to,
        log.len() > 0 ==> {
            let need = crate::shm::record_need(log[0].data.len() as int);
            crate::shm::record_position(from, need, cap) + need <= to
        },
    decreases log.len(),
{
    if log.len() > 0 {
        let need = crate::shm::record_need(log[0].data.len() as int);
        let pos = crate::shm::record_position(from, need, cap);
        crate::shm::lemma_next_offset(from, need, cap);
        assert(pos >= from) by {
            vstd::arithmetic::div_mod::lemma_mod_bound(from, cap);
        }
        law_backlog_grows(buf, cap, pos + need, log.drop_first(), to);
    }
}

/// Writing outside of a backlog leaves it in place.
proof fn lemma_backlog_frame(
    before: Seq<u8>,
    after: Seq<u8>,
    cap: int,
    from: int,
    log: Seq<Record>,
    to: int,
)
    requires
        ring_shape(before, cap),
        0 <= from,
        from % cap % 8 == 0,
        backlog(before, cap, from, log, to),
        agrees(before, after, cap, from, to),
    ensures
        backlog(after, cap, from, log, to),
    decreases log.len(),
{
    if log.len() > 0 {
        let need = crate::shm::record_need(log[0].data.len() as int);
        let pos = crate::shm::record_position(from, need, cap);
        let off = pos % cap;
        let bytes = crate::shm::record_bytes(log[0], (pos / cap) as u64);
        let s = cap / 8 * 8;
        crate::shm::lemma_next_offset(from, need, cap);
        crate::shm::lemma_record_bytes_len(log[0], (pos / cap) as u64);
        law_backlog_grows(before, cap, from, log, to);
        vstd::arithmetic::div_mod::lemma_mod_bound(from, cap);
        assert forall|j: int| 0 <= j < bytes.len() implies #[trigger] after.subrange(
            off,
            off + bytes.len(),
        )[j] == before.subrange(off, off + bytes.len())[j] by {
            lemma_offset_inside_lap(pos, j, cap);
            assert(cell(after, pos + j, cap) == cell(before, pos + j, cap));
        }
        assert(after.subrange(off, off + bytes.len()) =~= before.subrange(off, off + bytes.len()));
        if !crate::shm::fits_lap(from, need, cap) && from % cap != 0 {
            vstd::bytes::lemma_auto_spec_u64_to_from_le_bytes();
            let a = from % cap;
            assert forall|j: int| 0 <= j < 8 implies after[a + j] == #[trigger] marker_bytes()[j] by {
                assert(before.subrange(a, a + 8)[j] == before[a + j]);
                if a + j < cap {
                    lemma_offset_inside_lap(from, j, cap);
                    assert(cell(after, from + j, cap) == cell(before, from + j, cap));
                } else {
                    assert(a == s);
                    assert(after[a + j] == before[a + j] || after[a + j] == marker_bytes()[a + j
                        - s]);
                }
            }
            assert(after.subrange(a, a + 8) =~= marker_bytes());
        }
        assert(agrees(before, after, cap, pos + need, to)) by {
            assert forall|x: int| pos + need <= x < to implies #[trigger] cell(after, x, cap)
                == cell(before, x, cap) by {
                assert(from <= x);
            }
        }
        lemma_backlog_frame(before, after, cap, pos + need, log.drop_first(), to);
    }
}

/// A backlog followed by one more record.
proof fn lemma_backlog_append(
    buf: Seq<u8>,
    cap: int,
    from: int,
    log: Seq<Record>,
    mid: int,
    rec: Record,
    to: int,
)
    requires
        backlog(buf, cap, from, log, mid),
        backlog(buf, cap, mid, seq![rec], to),
    ensures
        backlog(buf, cap, from, log.push(rec), to),
    decreases log.len(),
{
    if log.len() == 0 {
        assert(log.push(rec) =~= seq![rec]);
    } else {
        let need = crate::shm::record_need(log[0].data.len() as int);
        let pos = crate::shm::record_position(from, need, cap);
        lemma_backlog_append(buf, cap, pos + need, log.drop_first(), mid, rec, to);
        assert(log.push(rec).drop_first() =~= log.drop_first().push(rec));
        assert(log.push(rec)[0] == log[0]);
    }
}

/// A push appends its record to the backlog of every reader that it does not overrun.
pub proof fn law_push_extends_backlog(
    buf: Seq<u8>,
    cap: int,
    from: int,
    log: Seq<Record>,
    to: int,
    rec: Record,
)
    requires
        ring_shape(buf, cap),
        0 <= from,
        from % cap % 8 == 0,
        to % cap % 8 == 0,
        to + 2 * cap <= u64::MAX,
        backlog(buf, cap, from, log, to),
        rec.valid(),
        crate::shm::record_need(rec.data.len() as int) <= cap,
        leaves_unread_alone(from, to, crate::shm::record_need(rec.data.len() as int), cap),
    ensures
        ({
            let need = crate::shm::record_need(rec.data.len() as int);
            backlog(
                crate::shm::ring_after_push(buf, cap, to, rec),
                cap,
                from,
                log.push(rec),
                crate::shm::record_position(to, need, cap) + need,
            )
        }),
{
    let need = crate::shm::record_need(rec.data.len() as int);
    let pos = crate::shm::record_position(to, need, cap);
    let off = pos % cap;
    let lap = (pos / cap) as u64;
    let bytes = crate::shm::record_bytes(rec, lap);
    let fits = crate::shm::fits_lap(to, need, cap);
    let after = crate::shm::ring_after_push(buf, cap, to, rec);
    let start = to % cap;
    let s = cap / 8 * 8;
    law_backlog_grows(buf, cap, from, log, to);
    crate::shm::lemma_next_offset(to, need, cap);
    crate::shm::lemma_record_bytes_len(rec, lap);
    vstd::arithmetic::div_mod::lemma_mod_bound(to, cap);
    vstd::bytes::lemma_auto_spec_u64_to_from_le_bytes();
    assert(pos / cap <= u64::MAX) by {
        assert(pos / cap <= pos) by (nonlinear_arith)
            requires
                0 < cap,
                0 <= pos,
        ;
    }
    assert forall|x: int| from <= x < to implies #[trigger] cell(after, x, cap) == cell(
        buf,
        x,
        cap,
    ) by {
        let i = x % cap;
        vstd::arithmetic::div_mod::lemma_mod_bound(x, cap);
        if off <= i < off + bytes.len() {
            lemma_offset_inside_lap(pos, i - off, cap);
            lemma_distinct_offsets(x, pos + (i - off), cap);
        }
        if !fits && start <= i < start + 8 {
            lemma_offset_inside_lap(to, i - start, cap);
            lemma_distinct_offsets(x, to + (i - start), cap);
        }
    }
    assert(agrees(buf, after, cap, from, to)) by {
        assert forall|i: int|
            #![trigger after[i]]
            cap <= i < buf.len() implies after[i] == buf[i] || i < s + 8 && after[i]
            == marker_bytes()[i - s] by {
            if !fits && start <= i < start + 8 {
                assert(start == s);
            }
        }
    }
    lemma_backlog_frame(buf, after, cap, from, log, to);
    assert(after.subrange(off, off + bytes.len()) =~= bytes);
    if !fits && start != 0 {
        assert forall|j: int| 0 <= j < 8 implies after[start + j] == #[trigger] marker_bytes()[j] by {
            if start + j < bytes.len() {
                lemma_offset_inside_lap(to, j, cap);
                lemma_offset_inside_lap(pos, start + j, cap);
                lemma_distinct_offsets(to + j, pos + (start + j), cap);
            }
        }
        assert(after.subrange(start, start + 8) =~= marker_bytes());
    }
    let single = seq![rec];
    assert(single.drop_first() =~= Seq::<Record>::empty());
    assert(backlog(after, cap, pos + need, single.drop_first(), pos + need));
    assert(backlog(after, cap, to, single, pos + need));
    lemma_backlog_append(after, cap, from, log, to, rec, pos + need);
}

/// The fields of a record read back from its bytes.
pub proof fn law_record_reads_back(buf: Seq<u8>, at: int, rec: Record, lap: u64)
    requires
        rec.valid(),
        0 <= at,
        at + crate::shm::record_need(rec.data.len() as int) - 8 <= buf.len(),
        buf.subrange(at, at + crate::shm::record_need(rec.data.len() as int) - 8)
            == crate::shm::record_bytes(rec, lap),
    ensures
        crate::bytes::word64(buf, at) == IS_COMMITED_MASK,
        crate::bytes::word32(buf, at + 8) == crate::shm::record_need(rec.data.len() as int),
        crate::bytes::word32(buf, at + 12) == rec.data.len(),
        crate::bytes::word64(buf, at + 16) == lap,
        crate::shm::pubkey_at(buf, at) == rec.pubkey,
        crate::bytes::word64(buf, at + 56) == rec.lamports,
        buf.subrange(at + 64, at + 128) == rec.trigger_sig,
        crate::shm::payload_at(buf, at) == rec.data,
{
    vstd::bytes::lemma_auto_spec_u64_to_from_le_bytes();
    vstd::bytes::lemma_auto_spec_u32_to_from_le_bytes();
    let bytes = crate::shm::record_bytes(rec, lap);
    let n = rec.data.len() as int;
    let window = buf.subrange(at, at + bytes.len());
    crate::shm::lemma_record_bytes_len(rec, lap);
    assert forall|a: int, b: int| 0 <= a <= b <= bytes.len() implies #[trigger] buf.subrange(
        at + a,
        at + b,
    ) == bytes.subrange(a, b) by {
        assert(buf.subrange(at + a, at + b) =~= window.subrange(a, b));
    }
    assert(buf.subrange(at + 0, at + 8) =~= vstd::bytes::spec_u64_to_le_bytes(IS_COMMITED_MASK));
    assert(buf.subrange(at + 8, at + 12) =~= vstd::bytes::spec_u32_to_le_bytes(
        crate::shm::record_need(n) as u32,
    ));
    assert(buf.subrange(at + 12, at + 16) =~= vstd::bytes::spec_u32_to_le_bytes(n as u32));
    assert(buf.subrange(at + 16, at + 24) =~= vstd::bytes::spec_u64_to_le_bytes(lap));
    assert(buf.subrange(at + 24, at + 56) =~= rec.pubkey);
    assert(buf.subrange(at + 56, at + 64) =~= vstd::bytes::spec_u64_to_le_bytes(rec.lamports));
    assert(buf.subrange(at + 64, at + 128) =~= rec.trigger_sig);
    assert(buf.subrange(at + 128, at + (128 + n)) =~= rec.data);
}

/// A reader takes the oldest record of its backlog, as it was pushed, and then stands at the
/// one behind it.
pub proof fn law_poll_takes_oldest(
    buf: Seq<u8>,
    cap: int,
    from: int,
    log: Seq<Record>,
    to: int,
    r_off: int,
    read_gen: u64,
)
    requires
        ring_shape(buf, cap),
        0 <= from,
        from % cap % 8 == 0,
        0 <= r_off,
        log.len() > 0,
        backlog(buf, cap, from, log, to),
        stands_at(r_off, read_gen as int, cap, from),
    ensures
        ({
            let need = crate::shm::record_need(log[0].data.len() as int);
            let pos = crate::shm::record_position(from, need, cap);
            let end = crate::shm::landing(buf, r_off % cap, read_gen);
            let at = if end.moved {
                0
            } else {
                r_off % cap
            };
            &&& end.found
            &&& at == pos % cap
            &&& end.lap == pos / cap
            &&& crate::shm::pubkey_at(buf, at) == log[0].pubkey
            &&& crate::shm::payload_at(buf, at) == log[0].data
            &&& crate::bytes::word64(buf, at + 56) == log[0].lamports
            &&& crate::bytes::word32(buf, at + 8) == need
            &&& backlog(buf, cap, pos + need, log.drop_first(), to)
            &&& pos / cap < u64::MAX ==> {
                let behind = crate::shm::place_behind(at, need, cap, end.lap);
                stands_at(behind.0, behind.1 as int, cap, pos + need)
            }
        }),
{
    let rec = log[0];
    let need = crate::shm::record_need(rec.data.len() as int);
    let pos = crate::shm::record_position(from, need, cap);
    let lap = (pos / cap) as u64;
    let off = pos % cap;
    let r = r_off % cap;
    crate::shm::lemma_next_offset(from, need, cap);
    crate::shm::lemma_record_bytes_len(rec, lap);
    law_record_reads_back(buf, off, rec, lap);
    vstd::bytes::lemma_auto_spec_u64_to_from_le_bytes();
    assert(crate::shm::sight(buf, off, lap) is Here);
    if !crate::shm::fits_lap(from, need, cap) {
        assert(off == 0);
        assert(lap > read_gen);
        if from % cap != 0 {
            assert(crate::bytes::word64(buf, r) == IS_WRAP_MARKER);
            assert(crate::shm::sight(buf, r, read_gen) == Sight::Restart(lap));
        }
        assert(crate::shm::sight(buf, 0, read_gen) == Sight::Restart(lap));
    } else if lap != read_gen {
        assert(crate::shm::sight(buf, 0, read_gen) == Sight::Restart(lap));
    }
    if off + need == cap {
        vstd::arithmetic::div_mod::lemma_small_mod(0, cap as nat);
    } else {
        vstd::arithmetic::div_mod::lemma_small_mod((off + need) as nat, cap as nat);
    }
}

/// After a seek to the start, a reader finds the record at the start of the ring, on whatever
/// lap it was written, so the records behind it can be read again any number of times.
pub proof fn law_seek_to_start_replays(
    buf: Seq<u8>,
    cap: int,
    from: int,
    log: Seq<Record>,
    to: int,
)
    requires
        ring_shape(buf, cap),
        0 <= from,
        from % cap == 0,
        log.len() > 0,
        backlog(buf, cap, from, log, to),
    ensures
        ({
            let need = crate::shm::record_need(log[0].data.len() as int);
            let pos = crate::shm::record_position(from, need, cap);
            let lap = crate::bytes::word64(buf, 16);
            &&& crate::shm::landing(buf, 0, lap) == (Landing { moved: false, lap, found: true })
            &&& crate::shm::pubkey_at(buf, 0) == log[0].pubkey
            &&& crate::shm::payload_at(buf, 0) == log[0].data
            &&& crate::shm::fits_lap(from, need, cap) ==> stands_at(0, lap as int, cap, from)
            &&& need < cap ==> stands_at(need, lap as int, cap, pos + need)
        }),
{
    let rec = log[0];
    let need = crate::shm::record_need(rec.data.len() as int);
    let pos = crate::shm::record_position(from, need, cap);
    let lap = (pos / cap) as u64;
    crate::shm::lemma_next_offset(from, need, cap);
    crate::shm::lemma_record_bytes_len(rec, lap);
    law_record_reads_back(buf, 0, rec, lap);
    if need < cap {
        vstd::arithmetic::div_mod::lemma_small_mod(need as nat, cap as nat);
    }
    vstd::arithmetic::div_mod::lemma_small_mod(0, cap as nat);
}

/// A reader that was overrun, and finds a complete record of a later lap at its offset, goes on
/// with the record at the start of the ring, if that one is complete and no older.
pub proof fn law_overrun_reader_goes_on(buf: Seq<u8>, r: int, read_gen: u64)
    requires
        0 <= r,
        r + REC_HEADER_SIZE <= buf.len(),
        crate::bytes::word64(buf, r) == IS_COMMITED_MASK,
        crate::bytes::word64(buf, r + 16) > read_gen,
        crate::bytes::word64(buf, 0) == IS_COMMITED_MASK,
        crate::bytes::word64(buf, 16) >= crate::bytes::word64(buf, r + 16),
        REC_HEADER_SIZE + crate::bytes::word32(buf, 12) <= buf.len(),
    ensures
        crate::shm::landing(buf, r, read_gen) == (Landing {
            moved: true,
            lap: crate::bytes::word64(buf, 16),
            found: true,
        }),
{
}

/// A reader never goes back: the linear position at which it stands after a poll is the one before
/// it or a later one, a later one where it went to the start of the ring, and one behind the
/// record where it took one. So no record is taken twice, and records come out in the order of
/// their positions.
pub proof fn law_reader_never_goes_back(buf: Seq<u8>, cap: int, r_off: int, read_gen: u64)
    requires
        0 < cap,
        0 <= r_off,
    ensures
        ({
            let r = r_off % cap;
            let end = crate::shm::landing(buf, r, read_gen);
            let at = if end.moved {
                0
            } else {
                r
            };
            let need = crate::bytes::word32(buf, at + 8) as int;
            let behind = crate::shm::place_behind(at, need, cap, end.lap);
            &&& read_gen * cap + r <= end.lap * cap + at
            &&& end.moved ==> read_gen * cap + r < end.lap * cap + at
            &&& !end.moved ==> end.lap == read_gen
            &&& end.found && at + need <= cap ==> behind.1 * cap + behind.0 == end.lap * cap + at
                + need
        }),
{
    let r = r_off % cap;
    let end = crate::shm::landing(buf, r, read_gen);
    vstd::arithmetic::div_mod::lemma_mod_bound(r_off, cap);
    if end.moved {
        assert(end.lap >= read_gen + 1);
        assert(read_gen * cap + r < end.lap * cap) by (nonlinear_arith)
            requires
                end.lap >= read_gen + 1,
                0 <= r < cap,
        ;
    }
    assert((end.lap + 1) * cap == end.lap * cap + cap) by (nonlinear_arith);
}

/// A reader that has read everything reports nothing and does not move: neither its offset nor
/// its lap changes while what stands at its offset is not complete or left over from an earlier
/// lap, a wrap marker among that.
pub proof fn law_idle_reader_stays(buf: Seq<u8>, cap: int, r_off: int, read_gen: u64)
    requires
        ring_shape(buf, cap),
        0 <= r_off,
        r_off % cap + 8 <= buf.len(),
        ({
            let first = crate::bytes::word64(buf, r_off % cap);
            let lap = crate::bytes::word64(buf, r_off % cap + 16);
            ||| first != IS_COMMITED_MASK && first != IS_WRAP_MARKER
            ||| first == IS_COMMITED_MASK && lap < read_gen
            ||| first == IS_WRAP_MARKER && !crate::shm::later_lap_begun(buf, read_gen)
        }),
    ensures
        crate::shm::landing(buf, r_off % cap, read_gen) == (Landing {
            moved: false,
            lap: read_gen,
            found: false,
        }),
{
}

} // verus!
