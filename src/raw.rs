//! The flat numeric layout that hands clock state to a host: a snapshot as
//! 32-bit words, and the fired pulses as a bitset.

use vstd::prelude::*;

use crate::clock::OVERFLOW_PULSE;
use crate::partition::{PartitionOrder, PartitionState};
use crate::pulse::PulseFired;
use crate::snapshot::{ClockSnapshot, TickOutcome};

verus! {

/// Words before the partition values: tick (2), epoch (2), overflow flag,
/// partition count.
pub const RAW_HEADER_WORDS: u32 = 6;

/// Index of the low word of the tick.
pub const RAW_TICK_LO: u32 = 0;

/// Index of the low word of the epoch.
pub const RAW_EPOCH_LO: u32 = 2;

/// Index of the overflow flag word.
pub const RAW_OVERFLOWED: u32 = 4;

/// Index of the partition count word.
pub const RAW_PARTITION_COUNT: u32 = 5;

/// The low 32 bits of `v`.
pub open spec fn lo_word(v: u64) -> u32 {
    (v % 0x1_0000_0000) as u32
}

/// The high 32 bits of `v`.
pub open spec fn hi_word(v: u64) -> u32 {
    (v / 0x1_0000_0000) as u32
}

/// Split a 64-bit value into its low and high words.
pub fn split_u64(value: u64) -> (r: (u32, u32))
    ensures
        r.0 == lo_word(value),
        r.1 == hi_word(value),
{
    let lo = (value & 0xffff_ffff) as u32;
    let hi = (value >> 32u64) as u32;
    assert(value & 0xffff_ffff == value % 0x1_0000_0000) by (bit_vector);
    assert(value >> 32u64 == value / 0x1_0000_0000) by (bit_vector);
    (lo, hi)
}

/// Append `value` as two words, low word first.
fn push_u64(out: &mut Vec<u32>, value: u64)
    ensures
        final(out)@ == old(out)@.push(lo_word(value)).push(hi_word(value)),
{
    let (lo, hi) = split_u64(value);
    out.push(lo);
    out.push(hi);
}

/// The words of `values`, two per value, low word first.
pub open spec fn value_words(values: Seq<u64>) -> Seq<u32>
    decreases values.len(),
{
    if values.len() == 0 {
        Seq::empty()
    } else {
        value_words(values.drop_last()) + seq![lo_word(values.last()), hi_word(values.last())]
    }
}

/// The values of the partitions, in sequence order.
pub open spec fn partition_values(parts: Seq<PartitionState>) -> Seq<u64> {
    parts.map_values(|p: PartitionState| p.value)
}

/// The flat snapshot: the header, then one two-word value per partition.
pub open spec fn snapshot_layout(tick: u64, epoch: u64, overflowed: bool, parts: Seq<PartitionState>) -> Seq<
    u32,
> {
    seq![
        lo_word(tick),
        hi_word(tick),
        lo_word(epoch),
        hi_word(epoch),
        if overflowed { 1u32 } else { 0u32 },
        parts.len() as u32,
    ] + value_words(partition_values(parts))
}

/// Number of words in a flat snapshot of `partition_count` partitions.
pub fn raw_snapshot_len(partition_count: usize) -> (r: u32)
    requires
        6 + 2 * partition_count <= u32::MAX,
    ensures
        r == 6 + 2 * partition_count,
{
    RAW_HEADER_WORDS + (partition_count as u32) * 2
}

/// Number of words in the pulse bitset for `pulse_count` pulses: one bit
/// per pulse and one for the overflow record.
pub fn raw_pulse_words(pulse_count: usize) -> (r: u32)
    requires
        pulse_count + 32 <= u32::MAX,
    ensures
        r == (pulse_count + 32) / 32,
{
    let bits = pulse_count as u32 + 1;
    (bits + 31) / 32
}

/// Encode 64-bit values as words, two per value, low word first.
pub fn words_of_values(values: &Vec<u64>) -> (r: Vec<u32>)
    ensures
        r@ == value_words(values@),
{
    let mut out: Vec<u32> = Vec::new();
    let mut i: usize = 0;
    while i < values.len()
        invariant
            0 <= i <= values@.len(),
            out@ == value_words(values@.take(i as int)),
        decreases values@.len() - i,
    {
        push_u64(&mut out, values[i]);
        proof {
            assert(values@.take(i + 1).drop_last() =~= values@.take(i as int));
        }
        i = i + 1;
    }
    proof {
        assert(values@.take(i as int) =~= values@);
    }
    out
}

/// The flat snapshot of `snapshot`, with the given overflow flag.
pub fn snapshot_words(snapshot: &ClockSnapshot, overflowed: bool) -> (r: Vec<u32>)
    requires
        snapshot.partitions@.len() <= u32::MAX,
    ensures
        r@ == snapshot_layout(snapshot.tick, snapshot.epoch, overflowed, snapshot.partitions@),
{
    let mut out: Vec<u32> = Vec::new();
    push_u64(&mut out, snapshot.tick);
    push_u64(&mut out, snapshot.epoch);
    out.push(if overflowed { 1 } else { 0 });
    out.push(snapshot.partitions.len() as u32);
    let ghost header = out@;
    let mut values: Vec<u64> = Vec::new();
    let mut i: usize = 0;
    while i < snapshot.partitions.len()
        invariant
            0 <= i <= snapshot.partitions@.len(),
            values@ == partition_values(snapshot.partitions@.take(i as int)),
        decreases snapshot.partitions@.len() - i,
    {
        values.push(snapshot.partitions[i].value);
        proof {
            assert(partition_values(snapshot.partitions@.take(i + 1)) =~= partition_values(
                snapshot.partitions@.take(i as int),
            ).push(snapshot.partitions@[i as int].value));
        }
        i = i + 1;
    }
    proof {
        assert(snapshot.partitions@.take(i as int) =~= snapshot.partitions@);
    }
    let mut words = words_of_values(&values);
    out.append(&mut words);
    proof {
        assert(out@ =~= snapshot_layout(snapshot.tick, snapshot.epoch, overflowed, snapshot.partitions@));
    }
    out
}

/// Parse a host's name for a partition order: "lsf", "least",
/// "least_significant_first", "msf", "most", "most_significant_first".
pub open spec fn order_named(s: Seq<char>) -> Option<PartitionOrder> {
    if s == "lsf"@ || s == "least"@ || s == "least_significant_first"@ {
        Some(PartitionOrder::LeastSignificantFirst)
    } else if s == "msf"@ || s == "most"@ || s == "most_significant_first"@ {
        Some(PartitionOrder::MostSignificantFirst)
    } else {
        None
    }
}

/// Parse a partition order from its name; `None` for an unknown name.
pub fn parse_partition_order(name: &str) -> (r: Option<PartitionOrder>)
    ensures
        r == order_named(name@),
{
    let s = name.to_owned();
    if s == "lsf".to_owned() || s == "least".to_owned() || s == "least_significant_first".to_owned() {
        Some(PartitionOrder::LeastSignificantFirst)
    } else if s == "msf".to_owned() || s == "most".to_owned() || s == "most_significant_first".to_owned() {
        Some(PartitionOrder::MostSignificantFirst)
    } else {
        None
    }
}

/// Whether bit `k` of `words` is set; bit `k` is bit `k % 32` of word `k / 32`.
pub open spec fn bit_of(words: Seq<u32>, k: int) -> bool {
    (words[k / 32] >> ((k % 32) as u32)) & 1u32 == 1u32
}

/// Whether a record among `fired[..i]`, other than the overflow record,
/// carries the name `name`.
pub open spec fn user_fired_before(fired: Seq<PulseFired>, i: int, name: Seq<char>) -> bool {
    exists|j: int| 0 <= j < i && #[trigger] fired[j].name@ == name && fired[j].name@ != OVERFLOW_PULSE@
}

/// The bit that the pulse bitset holds at `k`: one per configured pulse
/// that fired, then one for the overflow record.
pub open spec fn pulse_bit(names: Seq<String>, outcome: TickOutcome, k: int) -> bool {
    ||| (0 <= k < names.len() && user_fired_before(
        outcome.pulses@,
        outcome.pulses@.len() as int,
        names[k]@,
    ))
    ||| (k == names.len() && outcome.overflowed)
}

proof fn lemma_or_bit(x: u32, b: u32, c: u32)
    requires
        b < 32,
        c < 32,
    ensures
        ((x | (1u32 << b)) >> c) & 1u32 == 1u32 <==> ((x >> c) & 1u32 == 1u32 || c == b),
{
    assert(((x | (1u32 << b)) >> c) & 1u32 == 1u32 <==> ((x >> c) & 1u32 == 1u32 || c == b))
        by (bit_vector)
        requires
            b < 32,
            c < 32,
    ;
}

/// Set bit `bit` of `words`, leaving every other bit as it was.
fn set_bit(words: &mut Vec<u32>, bit: usize)
    requires
        bit < 32 * old(words)@.len(),
    ensures
        final(words)@.len() == old(words)@.len(),
        forall|k: int|
            0 <= k < 32 * old(words)@.len() ==> (bit_of(final(words)@, k) <==> (bit_of(
                old(words)@,
                k,
            ) || k == bit)),
{
    let w = bit / 32;
    let b = (bit % 32) as u32;
    let v = words[w];
    words.set(w, v | (1u32 << b));
    proof {
        assert forall|k: int| 0 <= k < 32 * old(words)@.len() implies (bit_of(words@, k) <==> (
        bit_of(old(words)@, k) || k == bit)) by {
            if k / 32 == w as int {
                lemma_or_bit(v, b, (k % 32) as u32);
                assert(k == bit <==> k % 32 == b as int);
            } else {
                assert(k != bit);
            }
        }
    }
}

/// The pulse bitset of `outcome`: bit `k` is set for each configured pulse
/// `pulse_names[k]` that fired, and bit `pulse_names.len()` on overflow.
pub fn pulse_bits(pulse_names: &Vec<String>, outcome: &TickOutcome) -> (r: Vec<u32>)
    requires
        pulse_names@.len() + 32 <= u32::MAX,
    ensures
        r@.len() == (pulse_names@.len() + 32) / 32,
        forall|k: int| 0 <= k < 32 * r@.len() ==> (bit_of(r@, k) <==> pulse_bit(pulse_names@, *outcome, k)),
{
    let n = pulse_names.len();
    let count = raw_pulse_words(n) as usize;
    let mut out: Vec<u32> = Vec::new();
    while out.len() < count
        invariant
            out@.len() <= count,
            forall|j: int| 0 <= j < out@.len() ==> out@[j] == 0u32,
        decreases count - out@.len(),
    {
        out.push(0);
    }
    proof {
        assert forall|k: int| 0 <= k < 32 * out@.len() implies !bit_of(out@, k) by {
            let c = (k % 32) as u32;
            assert(out@[k / 32] == 0u32);
            assert((0u32 >> c) & 1u32 == 0u32) by (bit_vector);
        }
    }
    assert(n < 32 * count) by (nonlinear_arith)
        requires
            count == (n + 32) / 32,
    ;
    let fired = &outcome.pulses;
    let overflow_name = OVERFLOW_PULSE.to_owned();
    let mut i: usize = 0;
    while i < fired.len()
        invariant
            0 <= i <= fired@.len(),
            n < 32 * count,
            n == pulse_names@.len(),
            out@.len() == count,
            count == (n + 32) / 32,
            overflow_name@ == OVERFLOW_PULSE@,
            forall|k: int|
                0 <= k < 32 * count ==> (bit_of(out@, k) <==> (0 <= k < n && user_fired_before(
                    fired@,
                    i as int,
                    pulse_names@[k]@,
                ))),
        decreases fired@.len() - i,
    {
        let record = &fired[i];
        let user = !(record.name == overflow_name);
        let mut idx: usize = 0;
        while idx < n
            invariant
                0 <= idx <= n,
                i < fired@.len(),
                *record == fired@[i as int],
                n < 32 * count,
                n == pulse_names@.len(),
                out@.len() == count,
                count == (n + 32) / 32,
                user == (fired@[i as int].name@ != OVERFLOW_PULSE@),
                forall|k: int|
                    0 <= k < 32 * count ==> (bit_of(out@, k) <==> (0 <= k < n && (user_fired_before(
                        fired@,
                        i as int,
                        pulse_names@[k]@,
                    ) || (k < idx && user && fired@[i as int].name@ == pulse_names@[k]@)))),
            decreases n - idx,
        {
            let ghost before = out@;
            let same = pulse_names[idx] == record.name;
            let hit = user && same;
            if hit {
                set_bit(&mut out, idx);
            }
            proof {
                assert(hit == (user && fired@[i as int].name@ == pulse_names@[idx as int]@));
                assert forall|k: int| 0 <= k < 32 * count implies (bit_of(out@, k) <==> (0 <= k < n && (
                user_fired_before(fired@, i as int, pulse_names@[k]@) || (k < idx + 1 && user
                    && fired@[i as int].name@ == pulse_names@[k]@)))) by {
                    if !hit {
                        assert(out@ == before);
                    }
                }
            }
            idx = idx + 1;
        }
        proof {
            assert forall|k: int| 0 <= k < n implies user_fired_before(fired@, i + 1, pulse_names@[k]@) == (
            user_fired_before(fired@, i as int, pulse_names@[k]@) || (user && fired@[i as int].name@
                == pulse_names@[k]@)) by {
                if user && fired@[i as int].name@ == pulse_names@[k]@ {
                    assert(user_fired_before(fired@, i + 1, pulse_names@[k]@));
                }
                if user_fired_before(fired@, i + 1, pulse_names@[k]@) {
                    let j = choose|j: int|
                        0 <= j < i + 1 && #[trigger] fired@[j].name@ == pulse_names@[k]@ && fired@[j].name@
                            != OVERFLOW_PULSE@;
                    if j < i {
                        assert(user_fired_before(fired@, i as int, pulse_names@[k]@));
                    }
                }
            }
        }
        i = i + 1;
    }
    if outcome.overflowed {
        set_bit(&mut out, n);
    }
    proof {
        assert forall|k: int| 0 <= k < 32 * out@.len() implies (bit_of(out@, k) <==> pulse_bit(
            pulse_names@,
            *outcome,
            k,
        )) by {}
    }
    out
}

} // verus!
