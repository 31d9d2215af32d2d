//! Configuration errors raised while building a clock.

use vstd::prelude::*;

verus! {

/// Errors that can occur when building a clock.
#[derive(Debug, Clone, PartialEq, Eq)]
pub enum ClockError {
    /// Partition modulus must be greater than 0.
    ZeroModulus { name: String },
    /// Pulse period must be greater than 0.
    ZeroPeriod { name: String },
    /// Partition order must be specified when partitions exist.
    MissingPartitionOrder,
    /// Pulse references an unknown partition.
    UnknownPartition { pulse: String, partition: String },
    /// Pulse condition has zero modulus.
    ZeroConditionModulus { pulse: String, partition: String },
    /// Tick range is invalid (start > end).
    InvalidTickRange { pulse: String, start: u64, end: u64 },
}

} // verus!
