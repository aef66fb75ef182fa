//! What a reader gets of a whole series of pushes and polls.
use crate::shm::{Record, ShmReader, ShmRing, IS_COMMITED_MASK, IS_WRAP_MARKER, TX_END_MARKER_PUBKEY};
use dashmap::DashMap;
use gxhash::GxBuildHasher;
use solana_pubkey::Pubkey;
use vstd::prelude::*;

verus! {

/// A ring with one of its readers and the map that the reader keeps.
pub ghost struct Session {
    pub ring: ShmRing,
    pub reader: ShmReader,
    pub map: DashMap<Pubkey, Vec<u8>, GxBuildHasher>,
}

/// What happens to a session.
pub ghost enum RingEvent {
    /// A writer pushes a record.
    Push(Record),
    /// The reader polls at a time, and takes something or nothing.
    Poll(u64, Option<([u8; 32], u64, bool, bool, u64)>),
}

/// A push, as `ShmWriter::push` does it, or a poll, as `ShmReader::poll_next_into_dashmap` does it.
pub open spec fn happens(before: Session, event: RingEvent, after: Session) -> bool {
    match event {
        RingEvent::Push(rec) => {
            let cap = before.ring.capacity as int;
            let cur = before.ring.alloc_off as int;
            let need = crate::shm::record_need(rec.data.len() as int);
            &&& after.reader == before.reader
            &&& after.map == before.map
            &&& after.ring.valid()
            &&& after.ring.capacity == before.ring.capacity
            &&& after.ring.alloc_off == crate::shm::record_position(cur, need, cap) + need
            &&& after.ring.buf@ == crate::shm::ring_after_push(before.ring.buf@, cap, cur, rec)
        },
        RingEvent::Poll(receive_ts, taken) => {
            &&& after.ring == before.ring
            &&& crate::shm::polled(
                before.reader,
                after.reader,
                before.ring.buf@,
                before.map,
                after.map,
                receive_ts,
                taken,
            )
        },
    }
}

/// The records that were pushed, in order.
pub open spec fn pushes(events: Seq<RingEvent>) -> Seq<Record>
    decreases events.len(),
{
    if events.len() == 0 {
        seq![]
    } else {
        let earlier = pushes(events.drop_last());
        match events.last() {
            RingEvent::Push(rec) => earlier.push(rec),
            _ => earlier,
        }
    }
}

/// How many polls took a record.
pub open spec fn takes(events: Seq<RingEvent>) -> int
    decreases events.len(),
{
    if events.len() == 0 {
        0
    } else {
        takes(events.drop_last()) + match events.last() {
            RingEvent::Poll(_, Some(_)) => 1int,
            _ => 0,
        }
    }
}

/// The linear position behind some records that were pushed from `start` on.
pub open spec fn position_behind(start: int, recs: Seq<Record>, cap: int) -> int
    decreases recs.len(),
{
    if recs.len() == 0 {
        start
    } else {
        let need = crate::shm::record_need(recs.last().data.len() as int);
        crate::shm::record_position(position_behind(start, recs.drop_last(), cap), need, cap) + need
    }
}

/// The linear position of the first record that the reader has not taken.
pub open spec fn reader_position(start: int, events: Seq<RingEvent>, cap: int) -> int {
    position_behind(start, pushes(events).take(takes(events)), cap)
}

/// A place that shows the reader nothing to take or to follow: what stands there is not complete,
/// or left over from an earlier lap.
pub open spec fn idle_place(buf: Seq<u8>, r: int, lap: u64) -> bool {
    let first = crate::bytes::word64(buf, r);
    &&& r + 8 <= buf.len()
    &&& {
        ||| first != IS_COMMITED_MASK && first != IS_WRAP_MARKER
        ||| first == IS_COMMITED_MASK && crate::bytes::word64(buf, r + 16) < lap
        ||| first == IS_WRAP_MARKER && !crate::shm::later_lap_begun(buf, lap)
    }
}

/// The next event is one that the reader keeps up with: a record that fits the ring and does not
/// reach what the reader has not read, or a poll while there is an unread record or nothing new
/// stands at the reader's place.
pub open spec fn keeps_up(start: int, events: Seq<RingEvent>, now: Session, next: RingEvent) -> bool {
    let cap = now.ring.capacity as int;
    match next {
        RingEvent::Push(rec) => {
            let need = crate::shm::record_need(rec.data.len() as int);
            &&& rec.valid()
            &&& need <= cap
            &&& now.ring.alloc_off + 2 * cap <= u64::MAX
            &&& crate::shm_laws::leaves_unread_alone(
                reader_position(start, events, cap),
                now.ring.alloc_off as int,
                need,
                cap,
            )
        },
        RingEvent::Poll(_, _) => takes(events) < pushes(events).len() || idle_place(
            now.ring.buf@,
            now.reader.r_off as int % cap,
            now.reader.read_gen,
        ),
    }
}

/// A series of events on a ring whose reader was opened at the tip, and keeps up.
pub open spec fn is_session(states: Seq<Session>, events: Seq<RingEvent>) -> bool {
    &&& states.len() == events.len() + 1
    &&& states[0].ring.valid()
    &&& states[0].reader.cap == states[0].ring.capacity
    &&& crate::shm_laws::stands_at(
        states[0].reader.r_off as int,
        states[0].reader.read_gen as int,
        states[0].ring.capacity as int,
        states[0].ring.alloc_off as int,
    )
    &&& forall|i: int|
        #![trigger events[i]]
        0 <= i < events.len() ==> happens(states[i], events[i], states[i + 1]) && keeps_up(
            states[0].ring.alloc_off as int,
            events.take(i),
            states[i],
            events[i],
        )
}

/// The unread records lie in the ring, and the reader stands at the first of them.
spec fn is_current(start: int, events: Seq<RingEvent>, now: Session) -> bool {
    let cap = now.ring.capacity as int;
    let from = reader_position(start, events, cap);
    let to = now.ring.alloc_off as int;
    &&& now.ring.valid()
    &&& now.reader.cap == now.ring.capacity
    &&& 0 <= takes(events) <= pushes(events).len()
    &&& 0 <= from
    &&& from % cap % 8 == 0
    &&& to == position_behind(start, pushes(events), cap)
    &&& crate::shm_laws::stands_at(
        now.reader.r_off as int,
        now.reader.read_gen as int,
        cap,
        from,
    )
    &&& crate::shm_laws::backlog(
        now.ring.buf@,
        cap,
        from,
        pushes(events).skip(takes(events)),
        to,
    )
}

proof fn lemma_position_is_aligned(cur: int, need: int, cap: int)
    requires
        0 <= cur,
        0 < need <= cap,
        need % 8 == 0,
        cur % cap % 8 == 0,
    ensures
        0 <= crate::shm::record_position(cur, need, cap) + need,
        (crate::shm::record_position(cur, need, cap) + need) % cap % 8 == 0,
{
    crate::shm::lemma_next_offset(cur, need, cap);
    vstd::arithmetic::div_mod::lemma_mod_bound(cur, cap);
}

/// One event keeps the reader current; a poll takes the first unread record.
proof fn lemma_event(
    start: int,
    events: Seq<RingEvent>,
    before: Session,
    event: RingEvent,
    after: Session,
)
    requires
        is_current(start, events, before),
        keeps_up(start, events, before, event),
        happens(before, event, after),
    ensures
        is_current(start, events.push(event), after),
        after.ring.capacity == before.ring.capacity,
        event matches RingEvent::Poll(ts, taken) ==> if takes(events) < pushes(events).len() {
            took(pushes(events)[takes(events)], before, after, ts, taken)
        } else {
            taken is None && after == before
        },
{
    let cap = before.ring.capacity as int;
    let from = reader_position(start, events, cap);
    let to = before.ring.alloc_off as int;
    let log = pushes(events);
    let k = takes(events);
    let unread = log.skip(k);
    let buf = before.ring.buf@;
    let longer = events.push(event);
    assert(longer.drop_last() =~= events);
    match event {
        RingEvent::Push(rec) => {
            let need = crate::shm::record_need(rec.data.len() as int);
            crate::shm_laws::law_push_extends_backlog(buf, cap, from, unread, to, rec);
            assert(pushes(longer) == log.push(rec));
            assert(log.push(rec).skip(k) =~= unread.push(rec));
            assert(log.push(rec).take(k) =~= log.take(k));
            assert(log.push(rec).drop_last() =~= log);
        },
        RingEvent::Poll(ts, taken) => {
            if k < log.len() {
                let rec = log[k];
                let need = crate::shm::record_need(rec.data.len() as int);
                let pos = crate::shm::record_position(from, need, cap);
                assert(unread[0] == rec);
                crate::shm_laws::law_poll_takes_oldest(
                    buf,
                    cap,
                    from,
                    unread,
                    to,
                    before.reader.r_off as int,
                    before.reader.read_gen,
                );
                crate::shm_laws::law_backlog_grows(buf, cap, from, unread, to);
                assert(pos / cap < u64::MAX) by (nonlinear_arith)
                    requires
                        0 < cap,
                        0 <= pos < u64::MAX,
                ;
                lemma_position_is_aligned(from, need, cap);
                assert(log.skip(k + 1) =~= unread.drop_first());
                assert(log.take(k + 1).drop_last() =~= log.take(k));
                assert(log.take(k + 1).last() == rec);
            } else {
                crate::shm_laws::law_idle_reader_stays(
                    buf,
                    cap,
                    before.reader.r_off as int,
                    before.reader.read_gen,
                );
            }
        },
    }
}

/// A poll took a record: its key, its lamports and whether it ends a transaction are those of the
/// record; its payload stands in the map afterwards, unless it ends a transaction, and every other
/// entry is as before.
pub open spec fn took(
    rec: Record,
    before: Session,
    after: Session,
    receive_ts: u64,
    taken: Option<([u8; 32], u64, bool, bool, u64)>,
) -> bool {
    let payloads = crate::account_map::account_payloads(before.map);
    let is_end = rec.pubkey == TX_END_MARKER_PUBKEY@;
    &&& taken matches Some((pubkey, lamports, updated, end, ts))
    &&& pubkey@ == rec.pubkey
    &&& lamports == rec.lamports
    &&& end == is_end
    &&& ts == receive_ts
    &&& updated == (is_end || !payloads.dom().contains(rec.pubkey) || payloads[rec.pubkey]
        != rec.data)
    &&& crate::account_map::account_payloads(after.map) == if is_end {
        payloads
    } else {
        payloads.insert(rec.pubkey, rec.data)
    }
}

proof fn lemma_session(states: Seq<Session>, events: Seq<RingEvent>, i: int)
    requires
        is_session(states, events),
        0 <= i <= events.len(),
    ensures
        is_current(states[0].ring.alloc_off as int, events.take(i), states[i]),
        states[i].ring.capacity == states[0].ring.capacity,
    decreases i,
{
    let start = states[0].ring.alloc_off as int;
    if i == 0 {
        assert(events.take(0) =~= seq![]);
        assert(pushes(events.take(0)).take(0) =~= Seq::<Record>::empty());
        assert(pushes(events.take(0)).skip(0) =~= Seq::<Record>::empty());
    } else {
        lemma_session(states, events, i - 1);
        assert(events[i - 1] == events[i - 1]);
        lemma_event(start, events.take(i - 1), states[i - 1], events[i - 1], states[i]);
        assert(events.take(i) =~= events.take(i - 1).push(events[i - 1]));
    }
}

/// A reader opened at the tip that keeps up gets every record that is pushed from there on, once,
/// in order and as it was pushed, on however many laps: the poll at event `i` takes the first record
/// that no earlier poll took, and takes nothing and changes nothing where there is none.
pub proof fn law_reader_gets_every_record(states: Seq<Session>, events: Seq<RingEvent>, i: int)
    requires
        is_session(states, events),
        0 <= i < events.len(),
    ensures
        ({
            let pushed = pushes(events.take(i));
            let taken_before = takes(events.take(i));
            &&& 0 <= taken_before <= pushed.len()
            &&& events[i] matches RingEvent::Poll(ts, taken) ==> if taken_before < pushed.len() {
                took(pushed[taken_before], states[i], states[i + 1], ts, taken)
            } else {
                taken is None && states[i + 1] == states[i]
            }
        }),
{
    lemma_session(states, events, i);
    lemma_event(
        states[0].ring.alloc_off as int,
        events.take(i),
        states[i],
        events[i],
        states[i + 1],
    );
}

} // verus!
