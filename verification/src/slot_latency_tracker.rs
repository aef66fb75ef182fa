//! Latency of the stages that a slot passes from its first shred to its frozen bank.
//!
//! Times are nanoseconds of one monotonic clock.
use std::collections::HashMap;
use vstd::prelude::*;

verus! {

broadcast use vstd::std_specs::hash::group_hash_axioms;

/// What woke the replay stage.
#[derive(Clone, Copy, Debug, PartialEq, Eq, Structural)]
pub enum WakeupSource {
    /// New data in the block store.
    BlockstoreSignal,
    /// No signal for too long.
    Timeout,
}

/// The name of a source in reports.
pub open spec fn source_name(source: WakeupSource) -> Seq<char> {
    match source {
        WakeupSource::BlockstoreSignal => "blockstore_signal"@,
        WakeupSource::Timeout => "timeout"@,
    }
}

impl WakeupSource {
    /// The name of the source in reports.
    pub fn as_str(&self) -> (name: &'static str)
        ensures
            name@ == source_name(*self),
    {
        match self {
            WakeupSource::BlockstoreSignal => "blockstore_signal",
            WakeupSource::Timeout => "timeout",
        }
    }
}

/// A stage that a slot has reached.
#[derive(Clone, Copy, Debug, PartialEq, Eq, Structural)]
pub enum LatencyEvent {
    FirstShredReceived { slot: u64, timestamp: u64 },
    ReplayWakeup { slot: u64, timestamp: u64, source: WakeupSource },
    BankCreated { slot: u64, timestamp: u64 },
    BankFrozen { slot: u64, timestamp: u64 },
}

impl LatencyEvent {
    /// The slot that the event is about.
    pub open spec fn about(self) -> u64 {
        match self {
            LatencyEvent::FirstShredReceived { slot, .. } => slot,
            LatencyEvent::ReplayWakeup { slot, .. } => slot,
            LatencyEvent::BankCreated { slot, .. } => slot,
            LatencyEvent::BankFrozen { slot, .. } => slot,
        }
    }
}

/// When a slot reached each stage for the first time.
#[derive(Clone, Copy, Debug, PartialEq, Eq, Structural)]
pub struct SlotTimestamps {
    pub first_shred_received: Option<u64>,
    pub replay_wakeup: Option<u64>,
    pub wakeup_source: Option<WakeupSource>,
    pub bank_created: Option<u64>,
    pub bank_frozen: Option<u64>,
}

/// No stage was reached.
pub open spec fn no_stage() -> SlotTimestamps {
    SlotTimestamps {
        first_shred_received: None,
        replay_wakeup: None,
        wakeup_source: None,
        bank_created: None,
        bank_frozen: None,
    }
}

/// The first of two times: the one noted before, if there is one.
pub open spec fn first_of(noted: Option<u64>, timestamp: u64) -> Option<u64> {
    match noted {
        Some(time) => Some(time),
        None => Some(timestamp),
    }
}

/// What an event makes of a slot's times; only the first event of each sort counts.
pub open spec fn noted(times: SlotTimestamps, event: LatencyEvent) -> SlotTimestamps {
    match event {
        LatencyEvent::FirstShredReceived { timestamp, .. } => SlotTimestamps {
            first_shred_received: first_of(times.first_shred_received, timestamp),
            ..times
        },
        LatencyEvent::ReplayWakeup { timestamp, source, .. } => SlotTimestamps {
            replay_wakeup: first_of(times.replay_wakeup, timestamp),
            wakeup_source: if times.replay_wakeup is None {
                Some(source)
            } else {
                times.wakeup_source
            },
            ..times
        },
        LatencyEvent::BankCreated { timestamp, .. } => SlotTimestamps {
            bank_created: first_of(times.bank_created, timestamp),
            ..times
        },
        LatencyEvent::BankFrozen { timestamp, .. } => SlotTimestamps {
            bank_frozen: first_of(times.bank_frozen, timestamp),
            ..times
        },
    }
}

/// The times noted for a slot.
pub open spec fn times_of(slots: Map<u64, SlotTimestamps>, slot: u64) -> SlotTimestamps {
    if slots.contains_key(slot) {
        slots[slot]
    } else {
        no_stage()
    }
}

/// The slots after an event.
pub open spec fn after_event(slots: Map<u64, SlotTimestamps>, event: LatencyEvent) -> Map<
    u64,
    SlotTimestamps,
> {
    slots.insert(event.about(), noted(times_of(slots, event.about()), event))
}

/// The slots after several events.
pub open spec fn after_events(slots: Map<u64, SlotTimestamps>, events: Seq<LatencyEvent>) -> Map<
    u64,
    SlotTimestamps,
>
    decreases events.len(),
{
    if events.len() == 0 {
        slots
    } else {
        after_event(after_events(slots, events.drop_last()), events.last())
    }
}

/// What is reported of a slot; times are microseconds since its first shred, -1 for a stage that
/// was not reached.
#[derive(Clone, Copy, Debug)]
pub struct SlotLatency {
    pub slot: u64,
    pub first_shred_to_replay_wakeup_us: i64,
    pub first_shred_to_bank_created_us: i64,
    pub first_shred_to_bank_frozen_us: i64,
    pub wakeup_source: &'static str,
}

/// Microseconds from the first shred to a stage, -1 where it was not reached, 0 where it was
/// reached before.
pub open spec fn stage_latency(first_shred: u64, reached: Option<u64>) -> int {
    match reached {
        Some(time) => if time >= first_shred {
            (time - first_shred) / 1000
        } else {
            0
        },
        None => -1,
    }
}

/// What is reported of a slot with these times.
pub open spec fn reported(slot: u64, times: SlotTimestamps, report: SlotLatency) -> bool {
    let first = times.first_shred_received->Some_0;
    &&& times.first_shred_received is Some
    &&& report.slot == slot
    &&& report.first_shred_to_replay_wakeup_us == stage_latency(first, times.replay_wakeup)
    &&& report.first_shred_to_bank_created_us == stage_latency(first, times.bank_created)
    &&& report.first_shred_to_bank_frozen_us == stage_latency(first, times.bank_frozen)
    &&& report.wakeup_source@ == match times.wakeup_source {
        Some(source) => source_name(source),
        None => "unknown"@,
    }
}

/// What a cleanup up to `new_root` leaves, and what it reports.
pub open spec fn cleaned_up(
    slots: Map<u64, SlotTimestamps>,
    new_root: u64,
    left: Map<u64, SlotTimestamps>,
    reports: Seq<SlotLatency>,
) -> bool {
    &&& forall|k: u64| #[trigger] left.contains_key(k) <==> slots.contains_key(k) && k > new_root
    &&& forall|k: u64| #[trigger] left.contains_key(k) ==> left[k] == slots[k]
    &&& forall|i: int|
        0 <= i < reports.len() ==> slots.contains_key((#[trigger] reports[i]).slot)
            && reports[i].slot <= new_root && reported(
            reports[i].slot,
            slots[reports[i].slot],
            reports[i],
        )
    &&& forall|k: u64|
        #[trigger] slots.contains_key(k) && k <= new_root && slots[k].first_shred_received is Some
            ==> exists|i: int| 0 <= i < reports.len() && (#[trigger] reports[i]).slot == k
    &&& forall|i: int, j: int|
        0 <= i < j < reports.len() ==> (#[trigger] reports[i]).slot != (#[trigger] reports[j]).slot
}

/// Microseconds from the first shred to a stage.
pub fn latency_us(first_shred: u64, reached: Option<u64>) -> (micros: i64)
    ensures
        micros == stage_latency(first_shred, reached),
{
    match reached {
        Some(time) => (time.saturating_sub(first_shred) / 1000) as i64,
        None => -1,
    }
}

/// The report of a slot; `None` where its first shred was not noted.
pub fn slot_report(slot: u64, times: &SlotTimestamps) -> (report: Option<SlotLatency>)
    ensures
        report is Some <==> times.first_shred_received is Some,
        report matches Some(r) ==> reported(slot, *times, r),
{
    let first_shred: u64 = match times.first_shred_received {
        Some(time) => time,
        None => {
            return None;
        },
    };
    let wakeup_source: &'static str = match times.wakeup_source {
        Some(source) => source.as_str(),
        None => "unknown",
    };
    Some(
        SlotLatency {
            slot,
            first_shred_to_replay_wakeup_us: latency_us(first_shred, times.replay_wakeup),
            first_shred_to_bank_created_us: latency_us(first_shred, times.bank_created),
            first_shred_to_bank_frozen_us: latency_us(first_shred, times.bank_frozen),
            wakeup_source,
        },
    )
}

/// Collects the times of all slots.
#[derive(Debug)]
pub struct SlotLatencyAggregator {
    pub slots: HashMap<u64, SlotTimestamps>,
}

impl SlotLatencyAggregator {
    /// An aggregator without slots.
    pub fn new() -> (made: SlotLatencyAggregator)
        ensures
            made.slots@ == Map::<u64, SlotTimestamps>::empty(),
    {
        SlotLatencyAggregator { slots: HashMap::new() }
    }

    /// Notes an event.
    pub fn handle_event(&mut self, event: LatencyEvent)
        ensures
            final(self).slots@ == after_event(old(self).slots@, event),
    {
        let slot: u64 = match event {
            LatencyEvent::FirstShredReceived { slot, .. } => slot,
            LatencyEvent::ReplayWakeup { slot, .. } => slot,
            LatencyEvent::BankCreated { slot, .. } => slot,
            LatencyEvent::BankFrozen { slot, .. } => slot,
        };
        let mut times: SlotTimestamps = match self.slots.get(&slot) {
            Some(times) => *times,
            None => SlotTimestamps {
                first_shred_received: None,
                replay_wakeup: None,
                wakeup_source: None,
                bank_created: None,
                bank_frozen: None,
            },
        };
        match event {
            LatencyEvent::FirstShredReceived { timestamp, .. } => {
                if times.first_shred_received.is_none() {
                    times.first_shred_received = Some(timestamp);
                }
            },
            LatencyEvent::ReplayWakeup { timestamp, source, .. } => {
                if times.replay_wakeup.is_none() {
                    times.replay_wakeup = Some(timestamp);
                    times.wakeup_source = Some(source);
                }
            },
            LatencyEvent::BankCreated { timestamp, .. } => {
                if times.bank_created.is_none() {
                    times.bank_created = Some(timestamp);
                }
            },
            LatencyEvent::BankFrozen { timestamp, .. } => {
                if times.bank_frozen.is_none() {
                    times.bank_frozen = Some(timestamp);
                }
            },
        }
        self.slots.insert(slot, times);
    }

    /// Notes the events that have arrived, in order.
    pub fn process_pending_events(&mut self, events: &Vec<LatencyEvent>)
        ensures
            final(self).slots@ == after_events(old(self).slots@, events@),
    {
        let ghost before = self.slots@;
        let mut i: usize = 0;
        assert(events@.subrange(0, 0) =~= seq![]);
        while i < events.len()
            invariant
                i <= events@.len(),
                self.slots@ == after_events(before, events@.subrange(0, i as int)),
            decreases events@.len() - i,
        {
            assert(events@.subrange(0, i + 1).drop_last() =~= events@.subrange(0, i as int));
            self.handle_event(events[i]);
            i += 1;
        }
        assert(events@.subrange(0, i as int) =~= events@);
    }

    /// The tracked slots up to `new_root`, in any order.
    fn slots_up_to(&self, new_root: u64) -> (found: Vec<u64>)
        ensures
            found@.no_duplicates(),
            forall|k: u64| found@.contains(k) <==> self.slots@.contains_key(k) && k <= new_root,
    {
        let mut found: Vec<u64> = Vec::new();
        let iter = self.slots.iter();
        let ghost all = vstd::std_specs::iter::IteratorSpec::remaining(&iter);
        proof {
            assert forall|i: int, j: int| 0 <= i < j < all.len() implies *all[i].0 != *all[j].0 by {
                if *all[i].0 == *all[j].0 {
                    assert(self.slots@[*all[i].0] == *all[i].1);
                    assert(self.slots@[*all[j].0] == *all[j].1);
                    assert(all[i] == all[j]);
                }
            }
        }
        for pair in it: iter
            invariant
                it.seq() == all,
                forall|i: int| 0 <= i < all.len() ==> self.slots@.contains_key(*(#[trigger] all[i]).0),
                forall|i: int, j: int| 0 <= i < j < all.len() ==> *all[i].0 != *all[j].0,
                found@.no_duplicates(),
                forall|i: int|
                    0 <= i < it.index() && *(#[trigger] all[i]).0 <= new_root ==> found@.contains(
                        *all[i].0,
                    ),
                forall|j: int|
                    0 <= j < found@.len() ==> (#[trigger] found@[j]) <= new_root && exists|i: int|
                        0 <= i < it.index() && *(#[trigger] all[i]).0 == found@[j],
        {
            let ghost index = it.index() as int;
            let ghost before = found@;
            assert(*pair.0 == *all[index].0);
            if *pair.0 <= new_root {
                proof {
                    if before.contains(*pair.0) {
                        let j = choose|j: int| 0 <= j < before.len() && before[j] == *pair.0;
                        let i = choose|i: int|
                            0 <= i < index && *(#[trigger] all[i]).0 == before[j];
                        assert(*all[i].0 != *all[index].0);
                    }
                }
                found.push(*pair.0);
                proof {
                    assert(found@[before.len() as int] == *pair.0);
                    assert forall|k: u64| before.contains(k) implies found@.contains(k) by {
                        let j = choose|j: int| 0 <= j < before.len() && before[j] == k;
                        assert(found@[j] == k);
                    }
                    assert forall|j: int| 0 <= j < found@.len() implies (#[trigger] found@[j])
                        <= new_root && exists|i: int|
                        0 <= i < index + 1 && *(#[trigger] all[i]).0 == found@[j] by {
                        if j < before.len() {
                            assert(found@[j] == before[j]);
                        } else {
                            assert(*all[index].0 == found@[j]);
                        }
                    }
                }
            }
        }
        proof {
            assert forall|k: u64| found@.contains(k) <==> self.slots@.contains_key(k) && k
                <= new_root by {
                if found@.contains(k) {
                    let j = choose|j: int| 0 <= j < found@.len() && found@[j] == k;
                    assert(found@[j] <= new_root);
                }
                if self.slots@.contains_key(k) && k <= new_root {
                    assert(all.contains((&k, &self.slots@[k])));
                    let i = choose|i: int| 0 <= i < all.len() && all[i] == (&k, &self.slots@[k]);
                    assert(*all[i].0 <= new_root);
                }
            }
        }
        found
    }

    /// Notes the events that have arrived, and then takes out and reports every slot up to
    /// `new_root`, in any order; slots whose first shred was not noted are taken out without a
    /// report.
    pub fn report_and_cleanup(&mut self, events: &Vec<LatencyEvent>, new_root: u64) -> (reports: Vec<
        SlotLatency,
    >)
        ensures
            ({
                let slots = after_events(old(self).slots@, events@);
                &&& final(self).slots@ == slots.remove_keys(Set::new(|k: u64| k <= new_root))
                &&& forall|i: int|
                    0 <= i < reports@.len() ==> slots.contains_key((#[trigger] reports@[i]).slot)
                        && reports@[i].slot <= new_root && reported(
                        reports@[i].slot,
                        slots[reports@[i].slot],
                        reports@[i],
                    )
                &&& forall|k: u64|
                    #[trigger] slots.contains_key(k) && k <= new_root
                        && slots[k].first_shred_received is Some ==> exists|i: int|
                        0 <= i < reports@.len() && (#[trigger] reports@[i]).slot == k
                &&& forall|i: int, j: int|
                    0 <= i < j < reports@.len() ==> (#[trigger] reports@[i]).slot != (
                    #[trigger] reports@[j]).slot
            }),
            cleaned_up(
                after_events(old(self).slots@, events@),
                new_root,
                final(self).slots@,
                reports@,
            ),
    {
        self.process_pending_events(events);
        let ghost slots = self.slots@;
        let rooted = self.slots_up_to(new_root);
        proof {
            assert forall|j: int| 0 <= j < rooted@.len() implies slots.contains_key(
                #[trigger] rooted@[j],
            ) by {
                assert(rooted@.contains(rooted@[j]));
            }
        }
        let reports = self.report_all(&rooted);
        self.remove_all(&rooted);
        proof {
            let wanted = slots.remove_keys(Set::new(|k: u64| k <= new_root));
            assert forall|k: u64| self.slots@.contains_key(k) <==> wanted.contains_key(k) by {
                assert(rooted@.contains(k) <==> slots.contains_key(k) && k <= new_root);
            }
            assert(self.slots@ =~= wanted);
            assert forall|i: int| 0 <= i < reports@.len() implies slots.contains_key(
                (#[trigger] reports@[i]).slot,
            ) && reports@[i].slot <= new_root by {
                assert(rooted@.contains(reports@[i].slot));
            }
            assert forall|k: u64|
                #[trigger] slots.contains_key(k) && k <= new_root
                    && slots[k].first_shred_received is Some implies exists|i: int|
                0 <= i < reports@.len() && (#[trigger] reports@[i]).slot == k by {
                assert(rooted@.contains(k));
                let j = choose|j: int| 0 <= j < rooted@.len() && rooted@[j] == k;
                assert(slots[rooted@[j]].first_shred_received is Some);
            }
        }
        reports
    }

    /// The reports of the listed slots, in order, without those whose first shred was not noted.
    fn report_all(&self, list: &Vec<u64>) -> (reports: Vec<SlotLatency>)
        requires
            list@.no_duplicates(),
            forall|j: int| 0 <= j < list@.len() ==> self.slots@.contains_key(#[trigger] list@[j]),
        ensures
            forall|i: int|
                0 <= i < reports@.len() ==> list@.contains((#[trigger] reports@[i]).slot)
                    && reported(reports@[i].slot, self.slots@[reports@[i].slot], reports@[i]),
            forall|j: int|
                0 <= j < list@.len() && self.slots@[#[trigger] list@[j]].first_shred_received is Some
                    ==> exists|i: int|
                    0 <= i < reports@.len() && (#[trigger] reports@[i]).slot == list@[j],
            forall|i: int, j: int|
                0 <= i < j < reports@.len() ==> (#[trigger] reports@[i]).slot != (
                #[trigger] reports@[j]).slot,
    {
        let ghost slots = self.slots@;
        let mut reports: Vec<SlotLatency> = Vec::new();
        let ghost mut source: Seq<int> = seq![];
        let ghost mut place: Seq<int> = seq![];
        let mut n: usize = 0;
        while n < list.len()
            invariant
                n <= list@.len(),
                slots == self.slots@,
                forall|j: int| 0 <= j < list@.len() ==> slots.contains_key(#[trigger] list@[j]),
                source.len() == reports@.len(),
                place.len() == n,
                forall|i: int| 0 <= i < source.len() ==> 0 <= #[trigger] source[i] < n,
                forall|i: int|
                    0 <= i < reports@.len() ==> list@[source[i]] == (#[trigger] reports@[i]).slot,
                forall|i: int|
                    0 <= i < reports@.len() ==> reported(
                        (#[trigger] reports@[i]).slot,
                        slots[reports@[i].slot],
                        reports@[i],
                    ),
                forall|i: int, j: int| 0 <= i < j < source.len() ==> source[i] < source[j],
                forall|j: int|
                    0 <= j < n && slots[list@[j]].first_shred_received is Some ==> 0
                        <= #[trigger] place[j] < reports@.len() && reports@[place[j]].slot
                        == list@[j],
            decreases list@.len() - n,
        {
            let slot: u64 = list[n];
            let ghost earlier = reports@;
            let ghost known = source;
            assert(slots.contains_key(list@[n as int]));
            if let Some(times) = self.slots.get(&slot) {
                if let Some(report) = slot_report(slot, times) {
                    reports.push(report);
                    proof {
                        source = source.push(n as int);
                        assert forall|i: int, j: int| 0 <= i < j < source.len() implies source[i]
                            < source[j] by {
                            assert(source[i] == known[i]);
                            if j < known.len() {
                                assert(source[j] == known[j]);
                            }
                        }
                        assert forall|i: int| 0 <= i < reports@.len() implies list@[source[i]] == (
                        #[trigger] reports@[i]).slot by {
                            if i < earlier.len() {
                                assert(reports@[i] == earlier[i]);
                                assert(source[i] == known[i]);
                            }
                        }
                    }
                }
            }
            proof {
                place = place.push(earlier.len() as int);
                assert forall|j: int|
                    0 <= j < n + 1 && slots[list@[j]].first_shred_received is Some implies 0
                    <= #[trigger] place[j] < reports@.len() && reports@[place[j]].slot
                    == list@[j] by {
                    if j < n {
                        assert(reports@[place[j]] == earlier[place[j]]);
                    }
                }
            }
            n += 1;
        }
        proof {
            assert forall|i: int| 0 <= i < reports@.len() implies list@.contains(
                (#[trigger] reports@[i]).slot,
            ) by {
                assert(list@[source[i]] == reports@[i].slot);
            }
            assert forall|j: int|
                0 <= j < list@.len() && slots[#[trigger] list@[j]].first_shred_received is Some
                    implies exists|i: int|
                0 <= i < reports@.len() && (#[trigger] reports@[i]).slot == list@[j] by {
                assert(reports@[place[j]].slot == list@[j]);
            }
            assert forall|i: int, j: int| 0 <= i < j < reports@.len() implies (
            #[trigger] reports@[i]).slot != (#[trigger] reports@[j]).slot by {
                assert(source[i] < source[j]);
            }
        }
        reports
    }

    /// Takes the listed slots out.
    fn remove_all(&mut self, list: &Vec<u64>)
        ensures
            forall|k: u64| #[trigger]
                final(self).slots@.contains_key(k) <==> old(self).slots@.contains_key(k)
                    && !list@.contains(k),
            forall|k: u64| #[trigger]
                final(self).slots@.contains_key(k) ==> final(self).slots@[k] == old(
                    self,
                ).slots@[k],
    {
        let ghost before = self.slots@;
        let mut n: usize = 0;
        assert(list@.subrange(0, 0) =~= seq![]);
        while n < list.len()
            invariant
                n <= list@.len(),
                forall|k: u64| #[trigger]
                    self.slots@.contains_key(k) <==> before.contains_key(k) && !list@.subrange(
                        0,
                        n as int,
                    ).contains(k),
                forall|k: u64| #[trigger]
                    self.slots@.contains_key(k) ==> self.slots@[k] == before[k],
            decreases list@.len() - n,
        {
            let ghost shorter = list@.subrange(0, n as int);
            let ghost longer = list@.subrange(0, n + 1);
            let ghost held = self.slots@;
            self.slots.remove(&list[n]);
            proof {
                assert(longer =~= shorter.push(list@[n as int]));
                assert forall|k: u64| #[trigger] self.slots@.contains_key(k)
                    <==> before.contains_key(k) && !longer.contains(k) by {
                    assert(held.contains_key(k) <==> before.contains_key(k) && !shorter.contains(
                        k,
                    ));
                    assert(longer[n as int] == list@[n as int]);
                    if shorter.contains(k) {
                        let j = choose|j: int| 0 <= j < shorter.len() && shorter[j] == k;
                        assert(longer[j] == k);
                    }
                    if longer.contains(k) && k != list@[n as int] {
                        let j = choose|j: int| 0 <= j < longer.len() && longer[j] == k;
                        assert(shorter[j] == k);
                    }
                }
            }
            n += 1;
        }
        assert(list@.subrange(0, n as int) =~= list@);
    }
}

/// Only the first event of a sort counts: a later one of the same sort for the same slot changes
/// nothing.
pub proof fn law_first_event_counts(times: SlotTimestamps, first: LatencyEvent, later: LatencyEvent)
    requires
        match (first, later) {
            (LatencyEvent::FirstShredReceived { .. }, LatencyEvent::FirstShredReceived { .. }) =>
                true,
            (LatencyEvent::ReplayWakeup { .. }, LatencyEvent::ReplayWakeup { .. }) => true,
            (LatencyEvent::BankCreated { .. }, LatencyEvent::BankCreated { .. }) => true,
            (LatencyEvent::BankFrozen { .. }, LatencyEvent::BankFrozen { .. }) => true,
            _ => false,
        },
    ensures
        noted(noted(times, first), later) == noted(times, first),
{
}

/// Events about different slots do not touch each other, so their order is irrelevant.
pub proof fn law_slots_are_independent(
    slots: Map<u64, SlotTimestamps>,
    a: LatencyEvent,
    b: LatencyEvent,
)
    requires
        a.about() != b.about(),
    ensures
        after_event(after_event(slots, a), b) == after_event(after_event(slots, b), a),
{
    assert(after_event(after_event(slots, a), b) =~= after_event(after_event(slots, b), a));
}

} // verus!
