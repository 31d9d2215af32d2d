//! Validation of a clock configuration.

use vstd::prelude::*;

use crate::condition::PulseCondition;
use crate::error::ClockError;
use crate::partition::PartitionSpec;
use crate::pulse::PulseSpec;

verus! {

/// The names of the configured partitions.
pub open spec fn spec_names(specs: Seq<PartitionSpec>) -> Seq<Seq<char>> {
    specs.map_values(|s: PartitionSpec| s.name@)
}

/// The first violation in condition `c` of pulse `pulse`, walking the tree
/// depth-first and left to right, given the known partition `names`.
pub open spec fn condition_error(c: PulseCondition, names: Seq<Seq<char>>, pulse: String) -> Option<
    ClockError,
>
    decreases c, 0int,
{
    match c {
        PulseCondition::Every(period) => if period == 0 {
            Some(ClockError::ZeroPeriod { name: pulse })
        } else {
            None
        },
        PulseCondition::PartitionEquals { name, .. } => if names.contains(name@) {
            None
        } else {
            Some(ClockError::UnknownPartition { pulse, partition: name })
        },
        PulseCondition::PartitionModulo { name, modulus, .. } => if modulus == 0 {
            Some(ClockError::ZeroConditionModulus { pulse, partition: name })
        } else if names.contains(name@) {
            None
        } else {
            Some(ClockError::UnknownPartition { pulse, partition: name })
        },
        PulseCondition::TickRange { start, end } => if start > end {
            Some(ClockError::InvalidTickRange { pulse, start, end })
        } else {
            None
        },
        PulseCondition::Not(inner) => condition_error(*inner, names, pulse),
        PulseCondition::And(cs) => list_error(cs@, 0, names, pulse),
        PulseCondition::Or(cs) => list_error(cs@, 0, names, pulse),
    }
}

/// The first violation among the conditions `cs[i..]`.
pub open spec fn list_error(cs: Seq<PulseCondition>, i: int, names: Seq<Seq<char>>, pulse: String) -> Option<
    ClockError,
>
    decreases cs, cs.len() - i,
{
    if i < 0 || i >= cs.len() {
        None
    } else {
        match condition_error(cs[i], names, pulse) {
            Some(e) => Some(e),
            None => list_error(cs, i + 1, names, pulse),
        }
    }
}

/// The first partition of `specs[i..]` with a zero modulus, as an error.
pub open spec fn partition_error(specs: Seq<PartitionSpec>, i: int) -> Option<ClockError>
    decreases specs.len() - i,
{
    if i < 0 || i >= specs.len() {
        None
    } else if specs[i].modulus == 0 {
        Some(ClockError::ZeroModulus { name: specs[i].name })
    } else {
        partition_error(specs, i + 1)
    }
}

/// The first violation among the pulses `pulses[i..]`.
pub open spec fn pulse_error(pulses: Seq<PulseSpec>, i: int, names: Seq<Seq<char>>) -> Option<
    ClockError,
>
    decreases pulses.len() - i,
{
    if i < 0 || i >= pulses.len() {
        None
    } else {
        match condition_error(pulses[i].condition, names, pulses[i].name) {
            Some(e) => Some(e),
            None => pulse_error(pulses, i + 1, names),
        }
    }
}

/// The first violation of a configuration: partitions are checked before
/// pulses, each in declaration order.
pub open spec fn config_error(specs: Seq<PartitionSpec>, pulses: Seq<PulseSpec>) -> Option<ClockError> {
    match partition_error(specs, 0) {
        Some(e) => Some(e),
        None => pulse_error(pulses, 0, spec_names(specs)),
    }
}

/// A condition tree never reports a missing partition order.
pub proof fn lemma_condition_error_not_missing_order(c: PulseCondition, names: Seq<Seq<char>>, pulse: String)
    ensures
        condition_error(c, names, pulse) != Some(ClockError::MissingPartitionOrder),
    decreases c, 0int,
{
    match c {
        PulseCondition::Not(inner) => lemma_condition_error_not_missing_order(*inner, names, pulse),
        PulseCondition::And(cs) => lemma_list_error_not_missing_order(cs@, 0, names, pulse),
        PulseCondition::Or(cs) => lemma_list_error_not_missing_order(cs@, 0, names, pulse),
        _ => {},
    }
}

/// A list of condition trees never reports a missing partition order.
pub proof fn lemma_list_error_not_missing_order(
    cs: Seq<PulseCondition>,
    i: int,
    names: Seq<Seq<char>>,
    pulse: String,
)
    ensures
        list_error(cs, i, names, pulse) != Some(ClockError::MissingPartitionOrder),
    decreases cs, cs.len() - i,
{
    if 0 <= i < cs.len() {
        lemma_condition_error_not_missing_order(cs[i], names, pulse);
        lemma_list_error_not_missing_order(cs, i + 1, names, pulse);
    }
}

proof fn lemma_partition_error_not_missing_order(specs: Seq<PartitionSpec>, i: int)
    ensures
        partition_error(specs, i) != Some(ClockError::MissingPartitionOrder),
    decreases specs.len() - i,
{
    if 0 <= i < specs.len() {
        lemma_partition_error_not_missing_order(specs, i + 1);
    }
}

proof fn lemma_pulse_error_not_missing_order(pulses: Seq<PulseSpec>, i: int, names: Seq<Seq<char>>)
    ensures
        pulse_error(pulses, i, names) != Some(ClockError::MissingPartitionOrder),
    decreases pulses.len() - i,
{
    if 0 <= i < pulses.len() {
        lemma_condition_error_not_missing_order(pulses[i].condition, names, pulses[i].name);
        lemma_pulse_error_not_missing_order(pulses, i + 1, names);
    }
}

/// Validating a configuration never reports a missing partition order: that
/// error belongs to the builder alone.
pub proof fn lemma_config_error_not_missing_order(specs: Seq<PartitionSpec>, pulses: Seq<PulseSpec>)
    ensures
        config_error(specs, pulses) != Some(ClockError::MissingPartitionOrder),
{
    lemma_partition_error_not_missing_order(specs, 0);
    lemma_pulse_error_not_missing_order(pulses, 0, spec_names(specs));
}

/// Whether `name` is among `names`.
fn contains_name(names: &Vec<String>, name: &String) -> (r: bool)
    ensures
        r == names@.map_values(|s: String| s@).contains(name@),
{
    let ghost view = names@.map_values(|s: String| s@);
    let mut i: usize = 0;
    while i < names.len()
        invariant
            0 <= i <= names@.len(),
            view == names@.map_values(|s: String| s@),
            forall|j: int| 0 <= j < i ==> view[j] != name@,
        decreases names@.len() - i,
    {
        if names[i] == *name {
            assert(view[i as int] == name@);
            return true;
        }
        i = i + 1;
    }
    assert(!view.contains(name@));
    false
}

/// Check one pulse condition tree against the known partition names.
pub fn validate_condition(condition: &PulseCondition, names: &Vec<String>, pulse_name: &String) -> (r:
    Result<(), ClockError>)
    ensures
        match r {
            Ok(()) => condition_error(*condition, names@.map_values(|s: String| s@), *pulse_name) is None,
            Err(e) => condition_error(*condition, names@.map_values(|s: String| s@), *pulse_name)
                == Some(e),
        },
    decreases condition,
{
    let ghost known = names@.map_values(|s: String| s@);
    match condition {
        PulseCondition::Every(period) => {
            if *period == 0 {
                Err(ClockError::ZeroPeriod { name: pulse_name.clone() })
            } else {
                Ok(())
            }
        },
        PulseCondition::PartitionEquals { name, .. } => {
            if contains_name(names, name) {
                Ok(())
            } else {
                Err(ClockError::UnknownPartition { pulse: pulse_name.clone(), partition: name.clone() })
            }
        },
        PulseCondition::PartitionModulo { name, modulus, .. } => {
            if *modulus == 0 {
                return Err(
                    ClockError::ZeroConditionModulus {
                        pulse: pulse_name.clone(),
                        partition: name.clone(),
                    },
                );
            }
            if contains_name(names, name) {
                Ok(())
            } else {
                Err(ClockError::UnknownPartition { pulse: pulse_name.clone(), partition: name.clone() })
            }
        },
        PulseCondition::TickRange { start, end } => {
            if *start > *end {
                Err(ClockError::InvalidTickRange { pulse: pulse_name.clone(), start: *start, end: *end })
            } else {
                Ok(())
            }
        },
        PulseCondition::Not(inner) => validate_condition(inner, names, pulse_name),
        PulseCondition::And(cs) | PulseCondition::Or(cs) => {
            let mut i: usize = 0;
            while i < cs.len()
                invariant
                    0 <= i <= cs@.len(),
                    crate::condition::children(*condition) == cs@,
                    condition_error(*condition, known, *pulse_name) == list_error(cs@, i as int, known, *pulse_name),
                    known == names@.map_values(|s: String| s@),
                decreases cs@.len() - i,
            {
                proof {
                    crate::condition::lemma_child_decreases(*condition, i as int);
                }
                match validate_condition(&cs[i], names, pulse_name) {
                    Ok(()) => {},
                    Err(e) => return Err(e),
                }
                i = i + 1;
            }
            Ok(())
        },
    }
}

} // verus!
