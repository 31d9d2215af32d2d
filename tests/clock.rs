use beeclock::{Clock, ClockError, PartitionOrder, PartitionSpec, PulseCondition};

#[test]
fn tick_cascades_partitions() {
    let mut clock = Clock::builder()
        .least_significant_first()
        .partition("sec", 2)
        .partition("min", 3)
        .build()
        .unwrap();

    let tick1 = clock.tick();
    assert_eq!(tick1.snapshot.partition("sec").unwrap().value, 1);
    assert_eq!(tick1.snapshot.partition("min").unwrap().value, 0);

    let tick2 = clock.tick();
    assert_eq!(tick2.snapshot.partition("sec").unwrap().value, 0);
    assert_eq!(tick2.snapshot.partition("min").unwrap().value, 1);
}

#[test]
fn pulses_fire_on_period() {
    let mut clock = Clock::builder()
        .least_significant_first()
        .partition("sec", 10)
        .pulse_every("pulse", 3)
        .build()
        .unwrap();

    assert!(clock.tick().pulses.is_empty());
    assert!(clock.tick().pulses.is_empty());

    let tick3 = clock.tick();
    assert_eq!(tick3.pulses.len(), 1);
    assert_eq!(tick3.pulses[0].name, "pulse");
}

#[test]
fn default_clock_works() {
    let mut clock = Clock::default();
    let outcome = clock.tick();
    assert_eq!(outcome.snapshot.tick, 1);
    assert_eq!(outcome.snapshot.get("sec"), 1);
    assert_eq!(outcome.snapshot.get("min"), 0);
    assert_eq!(outcome.snapshot.get("hour"), 0);
}

#[test]
fn default_clock_first_tick_keeps_epoch() {
    let mut clock = Clock::default();
    let outcome = clock.tick();
    assert_eq!(clock.tick_count(), 1);
    assert_eq!(clock.epoch(), 0);
    assert_eq!(outcome.snapshot.epoch, 0);
    assert!(!outcome.overflowed);
    assert!(outcome.pulses.is_empty());
}

#[test]
fn periodic_pulse_fires_on_multiples_only() {
    let mut clock = Clock::builder()
        .least_significant_first()
        .partition("sec", 10)
        .pulse_every("p", 3)
        .build()
        .unwrap();
    for t in 1..=9u64 {
        let outcome = clock.tick();
        if t % 3 == 0 {
            assert_eq!(outcome.pulses.len(), 1);
            assert_eq!(outcome.pulses[0].name, "p");
            assert_eq!(outcome.pulses[0].tick, t);
            assert_eq!(outcome.pulses[0].epoch, 0);
        } else {
            assert!(outcome.pulses.is_empty());
        }
    }
}

#[test]
fn ticks_count_in_mixed_radix() {
    let mut clock = Clock::builder()
        .least_significant_first()
        .partition("a", 2)
        .partition("b", 3)
        .partition("c", 4)
        .build()
        .unwrap();
    for n in 1..=60u64 {
        let outcome = clock.tick();
        let s = &outcome.snapshot;
        let decoded = s.get("a") + 2 * (s.get("b") + 3 * s.get("c"));
        assert_eq!(decoded, n % 24);
    }
}

#[test]
fn most_significant_first_carries_towards_front() {
    let mut clock = Clock::builder()
        .most_significant_first()
        .partition("hour", 2)
        .partition("min", 2)
        .build()
        .unwrap();
    let t1 = clock.tick();
    assert_eq!(t1.snapshot.get("min"), 1);
    assert_eq!(t1.snapshot.get("hour"), 0);
    let t2 = clock.tick();
    assert_eq!(t2.snapshot.get("min"), 0);
    assert_eq!(t2.snapshot.get("hour"), 1);
    let t4 = {
        clock.tick();
        clock.tick()
    };
    assert_eq!(t4.snapshot.get("min"), 0);
    assert_eq!(t4.snapshot.get("hour"), 0);
}

#[test]
fn partition_chain_sets_order_and_appends() {
    let specs = vec![
        PartitionSpec { name: "x".to_string(), modulus: 3 },
        PartitionSpec { name: "y".to_string(), modulus: 5 },
    ];
    let mut clock = Clock::builder()
        .partition_chain(PartitionOrder::LeastSignificantFirst, specs)
        .build()
        .unwrap();
    for _ in 0..4 {
        clock.tick();
    }
    let s = clock.snapshot();
    assert_eq!(s.get("x"), 1);
    assert_eq!(s.get("y"), 1);
    assert_eq!(s.partitions.len(), 2);
    assert_eq!(s.partitions[1].modulus, 5);
}

#[test]
fn snapshot_get_defaults_to_zero_for_unknown() {
    let clock = Clock::default();
    let s = clock.snapshot();
    assert_eq!(s.get("day"), 0);
    assert!(s.partition("day").is_none());
    assert_eq!(s.partition("hour").unwrap().modulus, 24);
}

#[test]
fn builder_without_order_fails_with_partitions() {
    let err = Clock::builder().partition("sec", 60).build().unwrap_err();
    assert_eq!(err, ClockError::MissingPartitionOrder);
}

#[test]
fn builder_without_order_and_partitions_is_least_significant_first() {
    let mut clock = Clock::builder().pulse_every("p", 2).build().unwrap();
    assert!(clock.tick().pulses.is_empty());
    assert_eq!(clock.tick().pulses.len(), 1);
    assert!(clock.snapshot().partitions.is_empty());
}

#[test]
fn builder_with_order_and_no_partitions_succeeds() {
    let clock = Clock::builder().most_significant_first().build().unwrap();
    assert_eq!(clock.tick_count(), 0);
}

#[test]
fn zero_partition_modulus_is_rejected() {
    let err = Clock::builder()
        .least_significant_first()
        .partition("sec", 60)
        .partition("bad", 0)
        .build()
        .unwrap_err();
    assert_eq!(err, ClockError::ZeroModulus { name: "bad".to_string() });
}

#[test]
fn zero_period_is_rejected() {
    let err = Clock::builder().least_significant_first().pulse_every("never", 0).build().unwrap_err();
    assert_eq!(err, ClockError::ZeroPeriod { name: "never".to_string() });
}

#[test]
fn unknown_partition_is_rejected() {
    let err = Clock::builder()
        .least_significant_first()
        .partition("sec", 60)
        .pulse_when(
            "noon",
            PulseCondition::Not(Box::new(PulseCondition::PartitionEquals {
                name: "hour".to_string(),
                value: 12,
            })),
        )
        .build()
        .unwrap_err();
    assert_eq!(
        err,
        ClockError::UnknownPartition { pulse: "noon".to_string(), partition: "hour".to_string() }
    );
}

#[test]
fn zero_condition_modulus_is_rejected() {
    let err = Clock::builder()
        .least_significant_first()
        .partition("sec", 60)
        .pulse_when(
            "m",
            PulseCondition::Or(vec![
                PulseCondition::TickRange { start: 0, end: 5 },
                PulseCondition::PartitionModulo { name: "sec".to_string(), modulus: 0, remainder: 0 },
            ]),
        )
        .build()
        .unwrap_err();
    assert_eq!(
        err,
        ClockError::ZeroConditionModulus { pulse: "m".to_string(), partition: "sec".to_string() }
    );
}

#[test]
fn inverted_tick_range_is_rejected() {
    let err = Clock::builder()
        .least_significant_first()
        .pulse_when("r", PulseCondition::And(vec![PulseCondition::TickRange { start: 9, end: 3 }]))
        .build()
        .unwrap_err();
    assert_eq!(err, ClockError::InvalidTickRange { pulse: "r".to_string(), start: 9, end: 3 });
}

#[test]
fn first_violation_is_reported() {
    let err = Clock::builder()
        .least_significant_first()
        .partition("sec", 60)
        .pulse_every("a", 0)
        .pulse_when("b", PulseCondition::TickRange { start: 2, end: 1 })
        .build()
        .unwrap_err();
    assert_eq!(err, ClockError::ZeroPeriod { name: "a".to_string() });
}

#[test]
fn clock_new_validates_like_the_builder() {
    let specs = vec![PartitionSpec { name: "sec".to_string(), modulus: 0 }];
    let err = Clock::new(PartitionOrder::LeastSignificantFirst, specs, Vec::new()).unwrap_err();
    assert_eq!(err, ClockError::ZeroModulus { name: "sec".to_string() });
}

#[test]
fn conditional_pulses_fire_in_declaration_order() {
    let mut clock = Clock::builder()
        .least_significant_first()
        .partition("sec", 4)
        .pulse_when("even", PulseCondition::PartitionModulo { name: "sec".to_string(), modulus: 2, remainder: 0 })
        .pulse_when("two", PulseCondition::PartitionEquals { name: "sec".to_string(), value: 2 })
        .pulse_when("early", PulseCondition::TickRange { start: 1, end: 2 })
        .build()
        .unwrap();
    let t1 = clock.tick();
    let names: Vec<&str> = t1.pulses.iter().map(|p| p.name.as_str()).collect();
    assert_eq!(names, vec!["early"]);
    let t2 = clock.tick();
    let names: Vec<&str> = t2.pulses.iter().map(|p| p.name.as_str()).collect();
    assert_eq!(names, vec!["even", "two", "early"]);
    let t3 = clock.tick();
    assert!(t3.pulses.is_empty());
    let t4 = clock.tick();
    let names: Vec<&str> = t4.pulses.iter().map(|p| p.name.as_str()).collect();
    assert_eq!(names, vec!["even"]);
}
