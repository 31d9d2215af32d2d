use beeclock::raw::{
    parse_partition_order, pulse_bits, raw_pulse_words, raw_snapshot_len, snapshot_words,
    split_u64, words_of_values,
};
use beeclock::{Clock, ClockSnapshot, PartitionOrder, PartitionState, PulseFired, TickOutcome};

#[test]
fn split_u64_gives_low_then_high_word() {
    assert_eq!(split_u64(0x1234_5678_9abc_def0), (0x9abc_def0, 0x1234_5678));
    assert_eq!(split_u64(u64::MAX), (u32::MAX, u32::MAX));
    assert_eq!(split_u64(7), (7, 0));
}

#[test]
fn raw_lengths() {
    assert_eq!(raw_snapshot_len(0), 6);
    assert_eq!(raw_snapshot_len(3), 12);
    assert_eq!(raw_pulse_words(0), 1);
    assert_eq!(raw_pulse_words(31), 1);
    assert_eq!(raw_pulse_words(32), 2);
}

#[test]
fn snapshot_words_layout() {
    let snapshot = ClockSnapshot {
        tick: (5u64 << 32) | 9,
        epoch: 2,
        partitions: vec![
            PartitionState { name: "sec".to_string(), value: 59, modulus: 60 },
            PartitionState { name: "big".to_string(), value: 1u64 << 33, modulus: u64::MAX },
        ],
    };
    assert_eq!(snapshot_words(&snapshot, true), vec![9, 5, 2, 0, 1, 2, 59, 0, 0, 2]);
    assert_eq!(snapshot_words(&snapshot, false)[4], 0);
}

#[test]
fn snapshot_words_after_tick() {
    let mut clock = Clock::default();
    let outcome = clock.tick();
    assert_eq!(
        snapshot_words(&outcome.snapshot, outcome.overflowed),
        vec![1, 0, 0, 0, 0, 3, 1, 0, 0, 0, 0, 0]
    );
}

#[test]
fn words_of_values_pairs() {
    assert_eq!(words_of_values(&vec![60, 1u64 << 32]), vec![60, 0, 0, 1]);
    assert!(words_of_values(&vec![]).is_empty());
}

fn fired(name: &str) -> PulseFired {
    PulseFired { name: name.to_string(), tick: 3, epoch: 0 }
}

#[test]
fn pulse_bits_mark_fired_pulses_and_overflow() {
    let names: Vec<String> = vec!["a".to_string(), "b".to_string(), "c".to_string()];
    let snapshot = ClockSnapshot { tick: 0, epoch: 1, partitions: vec![] };
    let outcome = TickOutcome {
        snapshot,
        pulses: vec![fired("c"), fired("a"), fired("__overflow__")],
        overflowed: true,
    };
    assert_eq!(pulse_bits(&names, &outcome), vec![0b1101]);
}

#[test]
fn pulse_bits_span_words() {
    let names: Vec<String> = (0..40).map(|i| format!("p{i}")).collect();
    let snapshot = ClockSnapshot { tick: 1, epoch: 0, partitions: vec![] };
    let outcome = TickOutcome { snapshot, pulses: vec![fired("p33"), fired("x")], overflowed: false };
    assert_eq!(pulse_bits(&names, &outcome), vec![0, 1 << 1]);
}

#[test]
fn partition_order_names() {
    assert_eq!(parse_partition_order("lsf"), Some(PartitionOrder::LeastSignificantFirst));
    assert_eq!(parse_partition_order("least"), Some(PartitionOrder::LeastSignificantFirst));
    assert_eq!(
        parse_partition_order("least_significant_first"),
        Some(PartitionOrder::LeastSignificantFirst)
    );
    assert_eq!(parse_partition_order("msf"), Some(PartitionOrder::MostSignificantFirst));
    assert_eq!(parse_partition_order("most"), Some(PartitionOrder::MostSignificantFirst));
    assert_eq!(
        parse_partition_order("most_significant_first"),
        Some(PartitionOrder::MostSignificantFirst)
    );
    assert_eq!(parse_partition_order("LSF"), None);
    assert_eq!(parse_partition_order(""), None);
}
