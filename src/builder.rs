//! Step-by-step configuration of a clock.

use vstd::prelude::*;

use crate::clock::Clock;
use crate::condition::PulseCondition;
use crate::error::ClockError;
use crate::partition::{PartitionOrder, PartitionSpec};
use crate::pulse::PulseSpec;
use crate::validate::config_error;

verus! {

/// Builder for configuring a clock.
#[derive(Debug)]
pub struct ClockBuilder {
    partitions: Vec<PartitionSpec>,
    pulses: Vec<PulseSpec>,
    order: Option<PartitionOrder>,
}

impl ClockBuilder {
    /// The partitions added so far, in order.
    pub closed spec fn specs(&self) -> Seq<PartitionSpec> {
        self.partitions@
    }

    /// The pulses added so far, in order.
    pub closed spec fn pulse_list(&self) -> Seq<PulseSpec> {
        self.pulses@
    }

    /// The explicitly chosen partition order, if any.
    pub closed spec fn chosen_order(&self) -> Option<PartitionOrder> {
        self.order
    }

    /// The order `build` uses: the chosen one, or least-significant-first
    /// where nothing is chosen and there is no partition to orient.
    pub open spec fn effective_order(&self) -> Option<PartitionOrder> {
        match self.chosen_order() {
            Some(o) => Some(o),
            None => if self.specs().len() == 0 {
                Some(PartitionOrder::LeastSignificantFirst)
            } else {
                None
            },
        }
    }

    /// Start a new builder with no partitions or pulses.
    pub fn new() -> (r: ClockBuilder)
        ensures
            r.specs().len() == 0,
            r.pulse_list().len() == 0,
            r.chosen_order() is None,
    {
        ClockBuilder { partitions: Vec::new(), pulses: Vec::new(), order: None }
    }

    /// Set the partition order explicitly.
    pub fn partition_order(self, order: PartitionOrder) -> (r: ClockBuilder)
        ensures
            r.specs() == self.specs(),
            r.pulse_list() == self.pulse_list(),
            r.chosen_order() == Some(order),
    {
        let mut b = self;
        b.order = Some(order);
        b
    }

    /// Configure least-significant-first order.
    pub fn least_significant_first(self) -> (r: ClockBuilder)
        ensures
            r.specs() == self.specs(),
            r.pulse_list() == self.pulse_list(),
            r.chosen_order() == Some(PartitionOrder::LeastSignificantFirst),
    {
        self.partition_order(PartitionOrder::LeastSignificantFirst)
    }

    /// Configure most-significant-first order.
    pub fn most_significant_first(self) -> (r: ClockBuilder)
        ensures
            r.specs() == self.specs(),
            r.pulse_list() == self.pulse_list(),
            r.chosen_order() == Some(PartitionOrder::MostSignificantFirst),
    {
        self.partition_order(PartitionOrder::MostSignificantFirst)
    }

    /// Add a single partition.
    pub fn partition(self, name: &str, modulus: u64) -> (r: ClockBuilder)
        ensures
            r.specs().len() == self.specs().len() + 1,
            r.specs().drop_last() == self.specs(),
            r.specs().last().name@ == name@,
            r.specs().last().modulus == modulus,
            r.pulse_list() == self.pulse_list(),
            r.chosen_order() == self.chosen_order(),
    {
        let mut b = self;
        b.partitions.push(PartitionSpec { name: name.to_owned(), modulus });
        proof {
            assert(b.partitions@.drop_last() =~= self.partitions@);
        }
        b
    }

    /// Add partitions in an explicit order.
    pub fn partition_chain(self, order: PartitionOrder, specs: Vec<PartitionSpec>) -> (r: ClockBuilder)
        ensures
            r.specs() == self.specs() + specs@,
            r.pulse_list() == self.pulse_list(),
            r.chosen_order() == Some(order),
    {
        let mut b = self;
        let mut more = specs;
        b.order = Some(order);
        b.partitions.append(&mut more);
        b
    }

    /// Add a periodic pulse.
    pub fn pulse_every(self, name: &str, period: u64) -> (r: ClockBuilder)
        ensures
            r.pulse_list().len() == self.pulse_list().len() + 1,
            r.pulse_list().drop_last() == self.pulse_list(),
            r.pulse_list().last().name@ == name@,
            r.pulse_list().last().condition == PulseCondition::Every(period),
            r.specs() == self.specs(),
            r.chosen_order() == self.chosen_order(),
    {
        let mut b = self;
        b.pulses.push(PulseSpec { name: name.to_owned(), condition: PulseCondition::Every(period) });
        proof {
            assert(b.pulses@.drop_last() =~= self.pulses@);
        }
        b
    }

    /// Add a predicate-based pulse.
    pub fn pulse_when(self, name: &str, condition: PulseCondition) -> (r: ClockBuilder)
        ensures
            r.pulse_list().len() == self.pulse_list().len() + 1,
            r.pulse_list().drop_last() == self.pulse_list(),
            r.pulse_list().last().name@ == name@,
            r.pulse_list().last().condition == condition,
            r.specs() == self.specs(),
            r.chosen_order() == self.chosen_order(),
    {
        let mut b = self;
        b.pulses.push(PulseSpec { name: name.to_owned(), condition });
        proof {
            assert(b.pulses@.drop_last() =~= self.pulses@);
        }
        b
    }

    /// Build the configured clock. Fails with `MissingPartitionOrder` exactly
    /// when partitions were added and no order was chosen; otherwise as
    /// `Clock::new` with the effective order.
    pub fn build(self) -> (r: Result<Clock, ClockError>)
        ensures
            match self.effective_order() {
                None => r == Err::<Clock, ClockError>(ClockError::MissingPartitionOrder),
                Some(o) => match r {
                    Ok(c) => config_error(self.specs(), self.pulse_list()) is None && c.is_fresh(
                        o,
                        self.specs(),
                        self.pulse_list(),
                    ),
                    Err(e) => config_error(self.specs(), self.pulse_list()) == Some(e),
                },
            },
            (r matches Err(ClockError::MissingPartitionOrder)) <==> (self.chosen_order() is None
                && self.specs().len() > 0),
            self.chosen_order() is None && self.specs().len() == 0 && config_error(
                self.specs(),
                self.pulse_list(),
            ) is None ==> (r matches Ok(c) && c.order() == PartitionOrder::LeastSignificantFirst),
    {
        let order = match self.order {
            Some(order) => order,
            None => {
                if self.partitions.len() == 0 {
                    PartitionOrder::LeastSignificantFirst
                } else {
                    return Err(ClockError::MissingPartitionOrder);
                }
            },
        };
        let r = Clock::new(order, self.partitions, self.pulses);
        proof {
            crate::validate::lemma_config_error_not_missing_order(self.specs(), self.pulse_list());
        }
        r
    }
}

} // verus!
