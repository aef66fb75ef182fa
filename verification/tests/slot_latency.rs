use slot_stream::slot_latency_tracker::{
    latency_us, LatencyEvent, SlotLatencyAggregator, WakeupSource,
};

#[test]
fn test_latency_event_handling() {
    let mut aggregator = SlotLatencyAggregator::new();
    let now = 5_000_000;
    let slot = 100;

    let events = vec![
        LatencyEvent::FirstShredReceived {
            slot,
            timestamp: now,
        },
        LatencyEvent::ReplayWakeup {
            slot,
            timestamp: now,
            source: WakeupSource::BlockstoreSignal,
        },
        LatencyEvent::BankCreated {
            slot,
            timestamp: now,
        },
        LatencyEvent::BankFrozen {
            slot,
            timestamp: now,
        },
    ];

    // Process events
    aggregator.process_pending_events(&events);

    // Verify state
    assert!(aggregator.slots.contains_key(&slot));
    let ts = aggregator.slots.get(&slot).unwrap();
    assert!(ts.first_shred_received.is_some());
    assert!(ts.replay_wakeup.is_some());
    assert!(ts.bank_created.is_some());
    assert!(ts.bank_frozen.is_some());
    assert!(matches!(
        ts.wakeup_source,
        Some(WakeupSource::BlockstoreSignal)
    ));
}

#[test]
fn test_cleanup_removes_old_slots() {
    let mut aggregator = SlotLatencyAggregator::new();
    let now = 5_000_000;

    // Add events for slots 100, 101, 102
    let mut events: Vec<LatencyEvent> = Vec::new();
    for slot in 100..=102 {
        events.push(LatencyEvent::FirstShredReceived {
            slot,
            timestamp: now,
        });
    }

    aggregator.process_pending_events(&events);
    assert_eq!(aggregator.slots.len(), 3);

    // Cleanup with root at 101 should remove 100 and 101
    let none: Vec<LatencyEvent> = Vec::new();
    aggregator.report_and_cleanup(&none, 101);
    assert_eq!(aggregator.slots.len(), 1);
    assert!(aggregator.slots.contains_key(&102));
}

#[test]
fn test_only_first_occurrence_recorded() {
    let mut aggregator = SlotLatencyAggregator::new();
    let first_time = 5_000_000;
    let slot = 100;
    let second_time = first_time + 1_000_000;

    // The second event of a kind is ignored
    let events = vec![
        LatencyEvent::FirstShredReceived {
            slot,
            timestamp: first_time,
        },
        LatencyEvent::FirstShredReceived {
            slot,
            timestamp: second_time,
        },
    ];
    aggregator.process_pending_events(&events);

    let ts = aggregator.slots.get(&slot).unwrap();
    assert_eq!(ts.first_shred_received.unwrap(), first_time);
}

#[test]
fn latencies_are_reported_in_microseconds() {
    let mut aggregator = SlotLatencyAggregator::new();
    let events = vec![
        LatencyEvent::FirstShredReceived {
            slot: 7,
            timestamp: 1_000_000,
        },
        LatencyEvent::ReplayWakeup {
            slot: 7,
            timestamp: 3_500_000,
            source: WakeupSource::BlockstoreSignal,
        },
        LatencyEvent::BankFrozen {
            slot: 7,
            timestamp: 9_000_999,
        },
        LatencyEvent::BankCreated {
            slot: 8,
            timestamp: 9_000_999,
        },
    ];
    let reports = aggregator.report_and_cleanup(&events, 8);
    // Slot 8 has no first shred and is dropped without a report.
    assert_eq!(reports.len(), 1);
    assert_eq!(reports[0].slot, 7);
    assert_eq!(reports[0].first_shred_to_replay_wakeup_us, 2_500);
    assert_eq!(reports[0].first_shred_to_bank_created_us, -1);
    assert_eq!(reports[0].first_shred_to_bank_frozen_us, 8_000);
    assert_eq!(
        reports[0].wakeup_source,
        WakeupSource::BlockstoreSignal.as_str()
    );
    assert!(aggregator.slots.is_empty());
    assert_eq!(latency_us(10_000, Some(25_999)), 15);
    assert_eq!(latency_us(10_000, None), -1);
}
