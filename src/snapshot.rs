//! Read-only views of the clock state and of one tick's result.

use vstd::prelude::*;

use crate::partition::PartitionState;
use crate::pulse::PulseFired;

verus! {

/// The first partition in `parts` whose name is `name`, if any.
pub open spec fn lookup(parts: Seq<PartitionState>, name: Seq<char>) -> Option<PartitionState>
    decreases parts.len(),
{
    if parts.len() == 0 {
        None
    } else if parts[0].name@ == name {
        Some(parts[0])
    } else {
        lookup(parts.drop_first(), name)
    }
}

/// The value of the first partition named `name`, or zero where there is none.
pub open spec fn value_or_zero(parts: Seq<PartitionState>, name: Seq<char>) -> u64 {
    match lookup(parts, name) {
        Some(p) => p.value,
        None => 0,
    }
}

/// Immutable snapshot of the clock state at a tick.
#[derive(Clone, Debug)]
pub struct ClockSnapshot {
    pub tick: u64,
    pub epoch: u64,
    pub partitions: Vec<PartitionState>,
}

impl ClockSnapshot {
    /// Get a partition by name.
    pub fn partition(&self, name: &str) -> (r: Option<&PartitionState>)
        ensures
            match r {
                Some(p) => lookup(self.partitions@, name@) == Some(*p),
                None => lookup(self.partitions@, name@) is None,
            },
    {
        let key = name.to_owned();
        let mut i: usize = 0;
        assert(self.partitions@.skip(0) =~= self.partitions@);
        while i < self.partitions.len()
            invariant
                0 <= i <= self.partitions@.len(),
                key@ == name@,
                lookup(self.partitions@, name@) == lookup(self.partitions@.skip(i as int), name@),
            decreases self.partitions@.len() - i,
        {
            let ghost rest = self.partitions@.skip(i as int);
            assert(rest.drop_first() =~= self.partitions@.skip(i + 1));
            if self.partitions[i].name == key {
                return Some(&self.partitions[i]);
            }
            i = i + 1;
        }
        None
    }

    /// Get a partition value by name, returning 0 if not found.
    pub fn get(&self, name: &str) -> (r: u64)
        ensures
            r == value_or_zero(self.partitions@, name@),
    {
        match self.partition(name) {
            Some(p) => p.value,
            None => 0,
        }
    }
}

/// Result of a single tick: the snapshot and the pulses that fired.
#[derive(Clone, Debug)]
pub struct TickOutcome {
    pub snapshot: ClockSnapshot,
    pub pulses: Vec<PulseFired>,
    pub overflowed: bool,
}

impl TickOutcome {
    /// Whether `self` and `other` hold the same values, each `Vec` compared
    /// by its contents.
    pub open spec fn same_as(&self, other: &TickOutcome) -> bool {
        &&& self.snapshot.tick == other.snapshot.tick
        &&& self.snapshot.epoch == other.snapshot.epoch
        &&& self.snapshot.partitions@ == other.snapshot.partitions@
        &&& self.pulses@ == other.pulses@
        &&& self.overflowed == other.overflowed
    }
}

/// A field-by-field copy of a partition state.
fn copy_state(p: &PartitionState) -> (r: PartitionState)
    ensures
        r == *p,
{
    PartitionState { name: p.name.clone(), value: p.value, modulus: p.modulus }
}

/// A copy of every partition state, in order.
pub fn copy_partitions(v: &Vec<PartitionState>) -> (r: Vec<PartitionState>)
    ensures
        r@ == v@,
{
    let mut out: Vec<PartitionState> = Vec::new();
    let mut i: usize = 0;
    while i < v.len()
        invariant
            0 <= i <= v@.len(),
            out@ == v@.take(i as int),
        decreases v@.len() - i,
    {
        out.push(copy_state(&v[i]));
        proof {
            assert(v@.take(i + 1) =~= v@.take(i as int).push(v@[i as int]));
        }
        i = i + 1;
    }
    proof {
        assert(v@.take(i as int) =~= v@);
    }
    out
}

/// A field-by-field copy of a pulse record.
fn copy_fired(p: &PulseFired) -> (r: PulseFired)
    ensures
        r == *p,
{
    PulseFired { name: p.name.clone(), tick: p.tick, epoch: p.epoch }
}

/// A copy of an outcome that holds the same values.
pub fn copy_outcome(o: &TickOutcome) -> (r: TickOutcome)
    ensures
        r.same_as(o),
{
    let mut pulses: Vec<PulseFired> = Vec::new();
    let mut i: usize = 0;
    while i < o.pulses.len()
        invariant
            0 <= i <= o.pulses@.len(),
            pulses@ == o.pulses@.take(i as int),
        decreases o.pulses@.len() - i,
    {
        pulses.push(copy_fired(&o.pulses[i]));
        proof {
            assert(o.pulses@.take(i + 1) =~= o.pulses@.take(i as int).push(o.pulses@[i as int]));
        }
        i = i + 1;
    }
    proof {
        assert(o.pulses@.take(i as int) =~= o.pulses@);
    }
    TickOutcome {
        snapshot: ClockSnapshot {
            tick: o.snapshot.tick,
            epoch: o.snapshot.epoch,
            partitions: copy_partitions(&o.snapshot.partitions),
        },
        pulses,
        overflowed: o.overflowed,
    }
}

} // verus!
