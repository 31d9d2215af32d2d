use beeclock::{ClockSnapshot, PartitionState, PulseCondition};

fn snapshot_with(sec: u64) -> ClockSnapshot {
    ClockSnapshot {
        tick: 7,
        epoch: 0,
        partitions: vec![PartitionState { name: "sec".to_string(), value: sec, modulus: 60 }],
    }
}

fn samples() -> Vec<PulseCondition> {
    vec![
        PulseCondition::Every(7),
        PulseCondition::Every(2),
        PulseCondition::PartitionEquals { name: "sec".to_string(), value: 5 },
        PulseCondition::PartitionModulo { name: "sec".to_string(), modulus: 4, remainder: 1 },
        PulseCondition::TickRange { start: 8, end: 9 },
    ]
}

#[test]
fn empty_and_or_are_false() {
    let s = snapshot_with(5);
    assert!(!PulseCondition::And(vec![]).is_met(7, &s));
    assert!(!PulseCondition::Or(vec![]).is_met(7, &s));
    assert!(!PulseCondition::And(vec![]).is_met(0, &s));
}

#[test]
fn single_and_matches_child() {
    let s = snapshot_with(5);
    for c in samples() {
        let expected = c.is_met(7, &s);
        assert_eq!(PulseCondition::And(vec![c]).is_met(7, &s), expected);
    }
}

#[test]
fn double_negation_matches_child() {
    let s = snapshot_with(5);
    for c in samples() {
        let expected = c.is_met(7, &s);
        let nn = PulseCondition::Not(Box::new(PulseCondition::Not(Box::new(c))));
        assert_eq!(nn.is_met(7, &s), expected);
    }
}

#[test]
fn leaf_conditions_evaluate() {
    let s = snapshot_with(5);
    assert!(PulseCondition::Every(7).is_met(7, &s));
    assert!(!PulseCondition::Every(2).is_met(7, &s));
    assert!(!PulseCondition::Every(1).is_met(0, &s));
    assert!(PulseCondition::PartitionEquals { name: "sec".to_string(), value: 5 }.is_met(7, &s));
    assert!(!PulseCondition::PartitionEquals { name: "min".to_string(), value: 0 }.is_met(7, &s));
    assert!(PulseCondition::PartitionModulo { name: "sec".to_string(), modulus: 4, remainder: 1 }
        .is_met(7, &s));
    assert!(!PulseCondition::PartitionModulo { name: "sec".to_string(), modulus: 0, remainder: 5 }
        .is_met(7, &s));
    assert!(PulseCondition::TickRange { start: 7, end: 7 }.is_met(7, &s));
    assert!(!PulseCondition::TickRange { start: 8, end: 9 }.is_met(7, &s));
    assert!(PulseCondition::Or(samples()).is_met(7, &s));
    assert!(!PulseCondition::And(samples()).is_met(7, &s));
}
