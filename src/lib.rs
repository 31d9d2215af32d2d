//! A logical clock: a tick-driven mixed-radix counter whose digits
//! ("partitions") cascade like an odometer, and named pulses that fire
//! when predicates over the tick and the partition values hold.

pub mod builder;
pub mod clock;
pub mod condition;
pub mod error;
pub mod laws;
pub mod partition;
pub mod pulse;
pub mod raw;
pub mod snapshot;
pub mod subscriber;
pub mod validate;

pub use builder::ClockBuilder;
pub use clock::Clock;
pub use condition::PulseCondition;
pub use error::ClockError;
pub use partition::{PartitionOrder, PartitionSpec, PartitionState};
pub use pulse::{PulseFired, PulseSpec};
pub use snapshot::{ClockSnapshot, TickOutcome};
pub use subscriber::{Delivery, Subscriber};
