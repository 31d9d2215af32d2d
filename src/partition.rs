//! Partitions: the digits of the mixed-radix counter.

use vstd::prelude::*;

verus! {

/// Configuration of one partition (a mixed-radix digit).
#[derive(Clone, Debug)]
pub struct PartitionSpec {
    pub name: String,
    pub modulus: u64,
}

/// Direction in which a carry travels over the partition sequence.
#[derive(Copy, Clone, Debug, PartialEq, Eq, Structural)]
pub enum PartitionOrder {
    /// Least-significant partition first (sec, min, hour).
    LeastSignificantFirst,
    /// Most-significant partition first (hour, min, sec).
    MostSignificantFirst,
}

/// Runtime state of one partition.
#[derive(Clone, Debug)]
pub struct PartitionState {
    pub name: String,
    pub value: u64,
    pub modulus: u64,
}

impl PartitionState {
    /// A partition holds a value strictly below its modulus.
    pub open spec fn wf(self) -> bool {
        self.value < self.modulus
    }

    /// Whether incrementing this partition overflows into the next one.
    pub open spec fn carries(self) -> bool {
        self.value + 1 >= self.modulus
    }

    /// The state after one increment: the value plus one, or zero on carry.
    pub open spec fn stepped(self) -> PartitionState {
        PartitionState {
            name: self.name,
            value: if self.carries() { 0 } else { (self.value + 1) as u64 },
            modulus: self.modulus,
        }
    }

    /// Create a zeroed partition state from its configuration.
    pub fn from_spec(spec: &PartitionSpec) -> (r: PartitionState)
        ensures
            r == (PartitionState { name: spec.name, value: 0, modulus: spec.modulus }),
    {
        PartitionState { name: spec.name.clone(), value: 0, modulus: spec.modulus }
    }

    /// Increment the partition, returning true if it overflowed (carry).
    pub fn increment(&mut self) -> (carry: bool)
        requires
            old(self).wf(),
        ensures
            carry == old(self).carries(),
            *final(self) == old(self).stepped(),
            final(self).wf(),
    {
        self.value = self.value + 1;
        if self.value >= self.modulus {
            self.value = 0;
            true
        } else {
            false
        }
    }
}

} // verus!
