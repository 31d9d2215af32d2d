//! Pulse configuration and firing records.

use vstd::prelude::*;

use crate::condition::PulseCondition;

verus! {

/// A named pulse and the condition under which it fires.
#[derive(Debug)]
pub struct PulseSpec {
    pub name: String,
    pub condition: PulseCondition,
}

/// Emitted when a pulse fires.
#[derive(Clone, Debug)]
pub struct PulseFired {
    pub name: String,
    pub tick: u64,
    pub epoch: u64,
}

impl View for PulseFired {
    type V = (Seq<char>, u64, u64);

    open spec fn view(&self) -> (Seq<char>, u64, u64) {
        (self.name@, self.tick, self.epoch)
    }
}

} // verus!
