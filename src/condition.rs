//! Pulse condition predicates.

use vstd::prelude::*;

use crate::partition::PartitionState;
use crate::snapshot::{lookup, ClockSnapshot};

verus! {

/// Predicate describing when a pulse should fire.
#[derive(Debug)]
pub enum PulseCondition {
    /// Fire every N ticks (starting at tick N).
    Every(u64),
    /// Fire when a partition equals a specific value.
    PartitionEquals { name: String, value: u64 },
    /// Fire when a partition value modulo `modulus` equals `remainder`.
    PartitionModulo { name: String, modulus: u64, remainder: u64 },
    /// Fire when tick is within an inclusive range.
    TickRange { start: u64, end: u64 },
    /// Logical negation of another condition.
    Not(Box<PulseCondition>),
    /// All conditions must be true (an empty list is false).
    And(Vec<PulseCondition>),
    /// Any condition must be true (an empty list is false).
    Or(Vec<PulseCondition>),
}

/// The children of an `And` or `Or` node, and nothing for the other nodes.
pub open spec fn children(c: PulseCondition) -> Seq<PulseCondition> {
    match c {
        PulseCondition::And(cs) => cs@,
        PulseCondition::Or(cs) => cs@,
        _ => Seq::empty(),
    }
}

pub proof fn lemma_child_decreases(c: PulseCondition, i: int)
    requires
        0 <= i < children(c).len(),
    ensures
        decreases_to!(c => children(c)[i]),
{
    match c {
        PulseCondition::And(cs) => {
            assert(decreases_to!(c => c->And_0));
            assert(decreases_to!(c->And_0 => c->And_0@));
            assert(decreases_to!(c->And_0@ => c->And_0@[i]));
        },
        PulseCondition::Or(cs) => {
            assert(decreases_to!(c => c->Or_0));
            assert(decreases_to!(c->Or_0 => c->Or_0@));
            assert(decreases_to!(c->Or_0@ => c->Or_0@[i]));
        },
        _ => {},
    }
}

impl PulseCondition {
    /// Whether the condition holds at `tick` over the partition states `parts`.
    pub open spec fn met(self, tick: u64, parts: Seq<PartitionState>) -> bool
        decreases self,
    {
        match self {
            PulseCondition::Every(period) => period != 0 && tick != 0 && tick % period == 0,
            PulseCondition::PartitionEquals { name, value } => match lookup(parts, name@) {
                Some(p) => p.value == value,
                None => false,
            },
            PulseCondition::PartitionModulo { name, modulus, remainder } => match lookup(
                parts,
                name@,
            ) {
                Some(p) => modulus != 0 && p.value % modulus == remainder,
                None => false,
            },
            PulseCondition::TickRange { start, end } => start <= tick && tick <= end,
            PulseCondition::Not(c) => !(*c).met(tick, parts),
            PulseCondition::And(cs) => cs@.len() > 0 && forall|i: int|
                0 <= i < cs@.len() ==> (#[trigger] cs@[i]).met(tick, parts),
            PulseCondition::Or(cs) => exists|i: int|
                0 <= i < cs@.len() && (#[trigger] cs@[i]).met(tick, parts),
        }
    }

    /// Evaluate whether this condition is met at the given tick and snapshot.
    pub fn is_met(&self, tick: u64, snapshot: &ClockSnapshot) -> (r: bool)
        ensures
            r == self.met(tick, snapshot.partitions@),
        decreases self,
    {
        match self {
            PulseCondition::Every(period) => *period != 0 && tick != 0 && tick % *period == 0,
            PulseCondition::PartitionEquals { name, value } => match snapshot.partition(
                name.as_str(),
            ) {
                Some(p) => p.value == *value,
                None => false,
            },
            PulseCondition::PartitionModulo { name, modulus, remainder } => match snapshot.partition(
                name.as_str(),
            ) {
                Some(p) => *modulus != 0 && p.value % *modulus == *remainder,
                None => false,
            },
            PulseCondition::TickRange { start, end } => *start <= tick && tick <= *end,
            PulseCondition::Not(c) => !c.is_met(tick, snapshot),
            PulseCondition::And(cs) => {
                if cs.len() == 0 {
                    return false;
                }
                let mut i: usize = 0;
                while i < cs.len()
                    invariant
                        0 <= i <= cs@.len(),
                        *self == PulseCondition::And(*cs),
                        forall|j: int| 0 <= j < i ==> (#[trigger] cs@[j]).met(tick, snapshot.partitions@),
                    decreases cs@.len() - i,
                {
                    proof {
                        lemma_child_decreases(*self, i as int);
                    }
                    if !cs[i].is_met(tick, snapshot) {
                        assert(!cs@[i as int].met(tick, snapshot.partitions@));
                        return false;
                    }
                    i = i + 1;
                }
                true
            },
            PulseCondition::Or(cs) => {
                let mut i: usize = 0;
                while i < cs.len()
                    invariant
                        0 <= i <= cs@.len(),
                        *self == PulseCondition::Or(*cs),
                        forall|j: int| 0 <= j < i ==> !(#[trigger] cs@[j]).met(tick, snapshot.partitions@),
                    decreases cs@.len() - i,
                {
                    proof {
                        lemma_child_decreases(*self, i as int);
                    }
                    if cs[i].is_met(tick, snapshot) {
                        assert(cs@[i as int].met(tick, snapshot.partitions@));
                        return true;
                    }
                    i = i + 1;
                }
                false
            },
        }
    }
}

} // verus!
