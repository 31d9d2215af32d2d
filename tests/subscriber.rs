use beeclock::subscriber::keeps;
use beeclock::snapshot::copy_outcome;
use beeclock::{Clock, ClockSnapshot, Delivery, PartitionState, PulseFired, TickOutcome};

#[test]
fn unbounded_subscriber_receives_every_outcome() {
    let mut clock = Clock::default();
    let rx = clock.subscribe();
    clock.tick();
    clock.tick();
    let first = rx.try_recv().unwrap();
    let second = rx.try_recv().unwrap();
    assert_eq!(first.snapshot.tick, 1);
    assert_eq!(second.snapshot.tick, 2);
    assert_eq!(second.snapshot.get("sec"), 2);
    assert!(rx.try_recv().is_err());
}

#[test]
fn full_bounded_subscriber_is_kept_and_closed_one_removed() {
    let mut clock = Clock::default();
    let rx = clock.subscribe_bounded(1);
    assert_eq!(clock.subscriber_count(), 1);
    clock.tick();
    clock.tick();
    assert_eq!(clock.subscriber_count(), 1);
    let got = rx.try_recv().unwrap();
    assert_eq!(got.snapshot.tick, 1);
    assert!(rx.try_recv().is_err());
    clock.tick();
    assert_eq!(rx.try_recv().unwrap().snapshot.tick, 3);
    drop(rx);
    assert_eq!(clock.subscriber_count(), 1);
    let outcome = clock.tick();
    assert_eq!(outcome.snapshot.tick, 4);
    assert_eq!(clock.subscriber_count(), 0);
}

#[test]
fn closed_unbounded_subscriber_is_removed_others_kept() {
    let mut clock = Clock::default();
    let a = clock.subscribe();
    let b = clock.subscribe_bounded(4);
    drop(a);
    clock.tick();
    assert_eq!(clock.subscriber_count(), 1);
    assert_eq!(b.try_recv().unwrap().snapshot.tick, 1);
}

#[test]
fn only_closed_deliveries_drop_a_subscriber() {
    assert!(keeps(Delivery::Delivered));
    assert!(keeps(Delivery::Dropped));
    assert!(!keeps(Delivery::Closed));
}

#[test]
fn subscriber_receives_a_copy_of_the_returned_outcome() {
    let mut clock = Clock::builder()
        .least_significant_first()
        .partition("sec", 2)
        .partition("min", 3)
        .pulse_every("p", 2)
        .build()
        .unwrap();
    let rx = clock.subscribe();
    clock.tick();
    let returned = clock.tick();
    rx.try_recv().unwrap();
    let got = rx.try_recv().unwrap();
    assert_eq!(got.snapshot.tick, returned.snapshot.tick);
    assert_eq!(got.snapshot.epoch, returned.snapshot.epoch);
    assert_eq!(got.overflowed, returned.overflowed);
    assert_eq!(got.snapshot.partitions.len(), 2);
    assert_eq!(got.snapshot.get("sec"), 0);
    assert_eq!(got.snapshot.get("min"), 1);
    assert_eq!(got.pulses.len(), 1);
    assert_eq!(got.pulses[0].name, "p");
    assert_eq!(got.pulses[0].tick, 2);
}

#[test]
fn copy_outcome_keeps_every_field() {
    let o = TickOutcome {
        snapshot: ClockSnapshot {
            tick: 9,
            epoch: 4,
            partitions: vec![PartitionState { name: "sec".to_string(), value: 3, modulus: 5 }],
        },
        pulses: vec![PulseFired { name: "x".to_string(), tick: 9, epoch: 4 }],
        overflowed: true,
    };
    let c = copy_outcome(&o);
    assert_eq!(c.snapshot.tick, 9);
    assert_eq!(c.snapshot.epoch, 4);
    assert_eq!(c.snapshot.partitions[0].name, "sec");
    assert_eq!(c.snapshot.partitions[0].value, 3);
    assert_eq!(c.snapshot.partitions[0].modulus, 5);
    assert_eq!(c.pulses[0].name, "x");
    assert_eq!(c.pulses[0].tick, 9);
    assert!(c.overflowed);
}

#[test]
fn tick_removes_exactly_the_closed_subscribers() {
    let mut clock = Clock::default();
    let a = clock.subscribe();
    let b = clock.subscribe_bounded(0);
    let c = clock.subscribe();
    let d = clock.subscribe_bounded(2);
    drop(a);
    drop(c);
    clock.tick();
    assert_eq!(clock.subscriber_count(), 2);
    assert!(b.try_recv().is_err());
    assert_eq!(d.try_recv().unwrap().snapshot.tick, 1);
    clock.tick();
    assert_eq!(clock.subscriber_count(), 2);
}
