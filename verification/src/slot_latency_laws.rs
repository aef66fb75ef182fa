//! What the reports on a slot's latency measure.
use crate::slot_latency_tracker::{LatencyEvent, SlotLatency, SlotTimestamps, WakeupSource};
use vstd::prelude::*;

verus! {

/// The stages of a slot.
pub ghost enum Stage {
    FirstShred,
    Wakeup,
    Created,
    Frozen,
}

/// The time at which a slot reached a stage by this event, if the event is about that.
pub open spec fn reached(event: LatencyEvent, about: u64, stage: Stage) -> Option<u64> {
    match (event, stage) {
        (LatencyEvent::FirstShredReceived { slot, timestamp }, Stage::FirstShred) => if slot
            == about {
            Some(timestamp)
        } else {
            None
        },
        (LatencyEvent::ReplayWakeup { slot, timestamp, source }, Stage::Wakeup) => if slot == about {
            Some(timestamp)
        } else {
            None
        },
        (LatencyEvent::BankCreated { slot, timestamp }, Stage::Created) => if slot == about {
            Some(timestamp)
        } else {
            None
        },
        (LatencyEvent::BankFrozen { slot, timestamp }, Stage::Frozen) => if slot == about {
            Some(timestamp)
        } else {
            None
        },
        _ => None,
    }
}

/// The time that is noted for a stage.
pub open spec fn time_of(times: SlotTimestamps, stage: Stage) -> Option<u64> {
    match stage {
        Stage::FirstShred => times.first_shred_received,
        Stage::Wakeup => times.replay_wakeup,
        Stage::Created => times.bank_created,
        Stage::Frozen => times.bank_frozen,
    }
}

/// The figure that is reported for a stage behind the first shred.
pub open spec fn figure(report: SlotLatency, stage: Stage) -> int {
    match stage {
        Stage::FirstShred => 0,
        Stage::Wakeup => report.first_shred_to_replay_wakeup_us as int,
        Stage::Created => report.first_shred_to_bank_created_us as int,
        Stage::Frozen => report.first_shred_to_bank_frozen_us as int,
    }
}

/// The event at `i` is the first one by which a slot reached a stage at the given time.
pub open spec fn first_reached(
    events: Seq<LatencyEvent>,
    slot: u64,
    stage: Stage,
    i: int,
    time: u64,
) -> bool {
    &&& 0 <= i < events.len()
    &&& reached(events[i], slot, stage) == Some(time)
    &&& forall|j: int| 0 <= j < i ==> reached(#[trigger] events[j], slot, stage) is None
}

/// No event is about a slot and a stage.
pub open spec fn never_reached(events: Seq<LatencyEvent>, slot: u64, stage: Stage) -> bool {
    forall|j: int| 0 <= j < events.len() ==> reached(#[trigger] events[j], slot, stage) is None
}

/// The time that is noted for a slot's stage is that of the first event about it, whatever events
/// about other slots and stages come between, and in whatever order the stages come. A time that was
/// noted before stays, and without such an event none is noted.
pub proof fn law_first_event_gives_the_time(
    slots: Map<u64, SlotTimestamps>,
    events: Seq<LatencyEvent>,
    slot: u64,
    stage: Stage,
    i: int,
    time: u64,
)
    ensures
        ({
            let before = time_of(crate::slot_latency_tracker::times_of(slots, slot), stage);
            let after = time_of(
                crate::slot_latency_tracker::times_of(
                    crate::slot_latency_tracker::after_events(slots, events),
                    slot,
                ),
                stage,
            );
            &&& before is Some ==> after == before
            &&& before is None && first_reached(events, slot, stage, i, time) ==> after == Some(time)
            &&& never_reached(events, slot, stage) ==> after == before
        }),
    decreases events.len(),
{
    if events.len() > 0 {
        let shorter = events.drop_last();
        let last = events.len() - 1;
        law_first_event_gives_the_time(slots, shorter, slot, stage, i, time);
        assert(events.last() == events[last]);
        if first_reached(events, slot, stage, i, time) {
            if i < last {
                assert(shorter[i] == events[i]);
                assert forall|j: int| 0 <= j < i implies reached(
                    #[trigger] shorter[j],
                    slot,
                    stage,
                ) is None by {
                    assert(shorter[j] == events[j]);
                }
            } else {
                assert forall|j: int| 0 <= j < shorter.len() implies reached(
                    #[trigger] shorter[j],
                    slot,
                    stage,
                ) is None by {
                    assert(shorter[j] == events[j]);
                }
            }
        }
        if never_reached(events, slot, stage) {
            assert forall|j: int| 0 <= j < shorter.len() implies reached(
                #[trigger] shorter[j],
                slot,
                stage,
            ) is None by {
                assert(shorter[j] == events[j]);
            }
            assert(reached(events[last], slot, stage) is None);
        }
    }
}

/// The source of a wakeup is that of the first wakeup of the slot.
pub proof fn law_first_wakeup_gives_the_source(
    slots: Map<u64, SlotTimestamps>,
    events: Seq<LatencyEvent>,
    slot: u64,
    i: int,
    time: u64,
)
    requires
        crate::slot_latency_tracker::times_of(slots, slot).replay_wakeup is None,
        first_reached(events, slot, Stage::Wakeup, i, time),
    ensures
        crate::slot_latency_tracker::times_of(
            crate::slot_latency_tracker::after_events(slots, events),
            slot,
        ).wakeup_source == Some(events[i]->ReplayWakeup_source),
    decreases events.len(),
{
    let shorter = events.drop_last();
    let last = events.len() - 1;
    assert(events.last() == events[last]);
    if i < last {
        assert(shorter[i] == events[i]);
        assert forall|j: int| 0 <= j < i implies reached(
            #[trigger] shorter[j],
            slot,
            Stage::Wakeup,
        ) is None by {
            assert(shorter[j] == events[j]);
        }
        law_first_wakeup_gives_the_source(slots, shorter, slot, i, time);
        law_first_event_gives_the_time(slots, shorter, slot, Stage::Wakeup, i, time);
    } else {
        assert forall|j: int| 0 <= j < shorter.len() implies reached(
            #[trigger] shorter[j],
            slot,
            Stage::Wakeup,
        ) is None by {
            assert(shorter[j] == events[j]);
        }
        law_first_event_gives_the_time(slots, shorter, slot, Stage::Wakeup, i, time);
    }
}

/// A report measures each stage from the slot's first shred to that stage's own time, in whole
/// microseconds: 0 for a stage reached before, -1 for one not reached. No figure depends on another
/// stage.
pub proof fn law_report_measures_from_first_shred(
    slot: u64,
    times: SlotTimestamps,
    report: SlotLatency,
    stage: Stage,
    first: u64,
)
    requires
        crate::slot_latency_tracker::reported(slot, times, report),
        times.first_shred_received == Some(first),
        stage != Stage::FirstShred,
    ensures
        report.slot == slot,
        time_of(times, stage) is None ==> figure(report, stage) == -1,
        time_of(times, stage) matches Some(time) ==> {
            &&& time >= first ==> figure(report, stage) == (time - first) / 1000
            &&& time < first ==> figure(report, stage) == 0
        },
        report.wakeup_source@ == match times.wakeup_source {
            Some(WakeupSource::BlockstoreSignal) => "blockstore_signal"@,
            Some(WakeupSource::Timeout) => "timeout"@,
            None => "unknown"@,
        },
{
}

/// From events to a report: whenever the first shred of a slot came at `first` and the slot reached
/// a stage for the first time at `time`, its report gives the time between them for that stage,
/// whatever else was noted and in whatever order.
pub proof fn law_report_follows_from_events(
    events: Seq<LatencyEvent>,
    slot: u64,
    report: SlotLatency,
    stage: Stage,
    i: int,
    first: u64,
    j: int,
    time: u64,
)
    requires
        crate::slot_latency_tracker::reported(
            slot,
            crate::slot_latency_tracker::times_of(
                crate::slot_latency_tracker::after_events(Map::empty(), events),
                slot,
            ),
            report,
        ),
        first_reached(events, slot, Stage::FirstShred, i, first),
        stage != Stage::FirstShred,
    ensures
        first_reached(events, slot, stage, j, time) && time >= first ==> figure(report, stage) == (
        time - first) / 1000,
        first_reached(events, slot, stage, j, time) && time < first ==> figure(report, stage) == 0,
        never_reached(events, slot, stage) ==> figure(report, stage) == -1,
{
    let none = Map::<u64, SlotTimestamps>::empty();
    let times = crate::slot_latency_tracker::times_of(
        crate::slot_latency_tracker::after_events(none, events),
        slot,
    );
    law_first_event_gives_the_time(none, events, slot, Stage::FirstShred, i, first);
    law_first_event_gives_the_time(none, events, slot, stage, j, time);
    law_report_measures_from_first_shred(slot, times, report, stage, first);
}

/// Whether an event is about a slot, whatever the stage.
pub open spec fn concerns(event: LatencyEvent, about: u64) -> bool {
    match event {
        LatencyEvent::FirstShredReceived { slot, .. } => slot == about,
        LatencyEvent::ReplayWakeup { slot, .. } => slot == about,
        LatencyEvent::BankCreated { slot, .. } => slot == about,
        LatencyEvent::BankFrozen { slot, .. } => slot == about,
    }
}

/// A slot is known exactly where it was before or an event is about it.
pub proof fn law_events_make_slots_known(
    slots: Map<u64, SlotTimestamps>,
    events: Seq<LatencyEvent>,
    slot: u64,
)
    ensures
        crate::slot_latency_tracker::after_events(slots, events).contains_key(slot) <==> (
        slots.contains_key(slot) || exists|i: int|
            0 <= i < events.len() && concerns(#[trigger] events[i], slot)),
    decreases events.len(),
{
    if events.len() > 0 {
        let shorter = events.drop_last();
        let last = events.len() - 1;
        law_events_make_slots_known(slots, shorter, slot);
        assert(events.last() == events[last]);
        if exists|i: int| 0 <= i < shorter.len() && concerns(#[trigger] shorter[i], slot) {
            let i = choose|i: int| 0 <= i < shorter.len() && concerns(#[trigger] shorter[i], slot);
            assert(concerns(events[i], slot));
        }
        if exists|i: int| 0 <= i < events.len() && concerns(#[trigger] events[i], slot) {
            let i = choose|i: int| 0 <= i < events.len() && concerns(#[trigger] events[i], slot);
            if i < last {
                assert(concerns(shorter[i], slot));
            }
        }
    }
}

/// A cleanup reports every slot up to the new root whose first shred was noted, once, and takes all
/// slots up to there out, so that none is reported a second time; later slots stay as they are.
pub proof fn law_rooted_slots_are_reported_once(
    slots: Map<u64, SlotTimestamps>,
    new_root: u64,
    left: Map<u64, SlotTimestamps>,
    reports: Seq<SlotLatency>,
    slot: u64,
    later_root: u64,
    later_left: Map<u64, SlotTimestamps>,
    later: Seq<SlotLatency>,
)
    requires
        crate::slot_latency_tracker::cleaned_up(slots, new_root, left, reports),
        crate::slot_latency_tracker::cleaned_up(left, later_root, later_left, later),
    ensures
        slot <= new_root && slots.contains_key(slot) && slots[slot].first_shred_received is Some
            ==> exists|i: int| 0 <= i < reports.len() && (#[trigger] reports[i]).slot == slot,
        slot > new_root || !slots.contains_key(slot) || slots[slot].first_shred_received is None
            ==> forall|i: int| 0 <= i < reports.len() ==> (#[trigger] reports[i]).slot != slot,
        forall|i: int, j: int|
            0 <= i < reports.len() && 0 <= j < later.len() ==> (#[trigger] reports[i]).slot != (
            #[trigger] later[j]).slot,
        slot <= new_root ==> !left.contains_key(slot),
        slot > new_root ==> (left.contains_key(slot) <==> slots.contains_key(slot)),
        slot > new_root && slots.contains_key(slot) ==> left[slot] == slots[slot],
{
}

} // verus!
