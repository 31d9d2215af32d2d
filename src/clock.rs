//! The clock: tick advancement, partition cascade, pulse evaluation and
//! broadcast to subscribers.

use std::sync::mpsc::Receiver;

use vstd::prelude::*;

use crate::builder::ClockBuilder;
use crate::error::ClockError;
use crate::partition::{PartitionOrder, PartitionSpec, PartitionState};
use crate::pulse::{PulseFired, PulseSpec};
use crate::snapshot::{copy_partitions, ClockSnapshot, TickOutcome};
use crate::subscriber::{keeps, stays, Delivery, Subscriber};
use crate::validate::{config_error, validate_condition};

verus! {

/// The name of the synthetic pulse emitted when the tick counter wraps.
pub const OVERFLOW_PULSE: &'static str = "__overflow__";

/// `x + 1`, wrapping to zero past `u64::MAX`.
pub open spec fn wrapping_inc(x: u64) -> u64 {
    if x == u64::MAX {
        0
    } else {
        (x + 1) as u64
    }
}

/// Every partition holds a value below its modulus.
pub open spec fn all_wf(ps: Seq<PartitionState>) -> bool {
    forall|i: int| 0 <= i < ps.len() ==> (#[trigger] ps[i]).wf()
}

/// Increment `ps[i]`, and go on towards higher indices while a carry is
/// produced; a carry out of the last partition is discarded.
pub open spec fn cascade_up(ps: Seq<PartitionState>, i: int) -> Seq<PartitionState>
    decreases ps.len() - i,
{
    if i < 0 || i >= ps.len() {
        ps
    } else if ps[i].carries() {
        cascade_up(ps.update(i, ps[i].stepped()), i + 1)
    } else {
        ps.update(i, ps[i].stepped())
    }
}

/// Increment `ps[k - 1]`, and go on towards lower indices while a carry is
/// produced; a carry out of the first partition is discarded.
pub open spec fn cascade_down(ps: Seq<PartitionState>, k: int) -> Seq<PartitionState>
    decreases k,
{
    if k <= 0 || k > ps.len() {
        ps
    } else if ps[k - 1].carries() {
        cascade_down(ps.update(k - 1, ps[k - 1].stepped()), k - 1)
    } else {
        ps.update(k - 1, ps[k - 1].stepped())
    }
}

/// One cascade step over the whole partition sequence, in the given order.
pub open spec fn cascade(ps: Seq<PartitionState>, order: PartitionOrder) -> Seq<PartitionState> {
    match order {
        PartitionOrder::LeastSignificantFirst => cascade_up(ps, 0),
        PartitionOrder::MostSignificantFirst => cascade_down(ps, ps.len() as int),
    }
}

/// Zeroed partition states for the given configuration.
pub open spec fn zeroed(specs: Seq<PartitionSpec>) -> Seq<PartitionState> {
    specs.map_values(|s: PartitionSpec| PartitionState { name: s.name, value: 0, modulus: s.modulus })
}

/// The records of the configured pulses whose condition holds, in
/// declaration order.
pub open spec fn fired_from(
    pulses: Seq<PulseSpec>,
    tick: u64,
    epoch: u64,
    parts: Seq<PartitionState>,
) -> Seq<(Seq<char>, u64, u64)>
    decreases pulses.len(),
{
    if pulses.len() == 0 {
        Seq::empty()
    } else {
        let prev = fired_from(pulses.drop_last(), tick, epoch, parts);
        if pulses.last().condition.met(tick, parts) {
            prev.push((pulses.last().name@, tick, epoch))
        } else {
            prev
        }
    }
}

/// The subscribers of `subs` that stay after the delivery results `ds`.
pub open spec fn retained(subs: Seq<Subscriber>, ds: Seq<Delivery>) -> Seq<Subscriber>
    decreases subs.len(),
{
    if subs.len() == 0 {
        Seq::empty()
    } else {
        let prev = retained(subs.drop_last(), ds.drop_last());
        if stays(ds.last()) {
            prev.push(subs.last())
        } else {
            prev
        }
    }
}

/// Delivery results that `subs` can report, one per subscriber: an
/// unbounded subscriber never drops an outcome.
pub open spec fn deliveries_fit(subs: Seq<Subscriber>, ds: Seq<Delivery>) -> bool {
    &&& ds.len() == subs.len()
    &&& forall|i: int| 0 <= i < ds.len() ==> (subs[i] is Unbounded ==> !((#[trigger] ds[i]) is Dropped))
}

/// How many of the delivery results `ds` report a closed receiving side.
pub open spec fn closed_count(ds: Seq<Delivery>) -> nat
    decreases ds.len(),
{
    if ds.len() == 0 {
        0
    } else {
        closed_count(ds.drop_last()) + if ds.last() is Closed {
            1nat
        } else {
            0nat
        }
    }
}

/// Logical clock with partitioned time and predicate pulses.
#[derive(Debug)]
pub struct Clock {
    tick: u64,
    epoch: u64,
    partitions: Vec<PartitionState>,
    partition_order: PartitionOrder,
    pulses: Vec<PulseSpec>,
    subscribers: Vec<Subscriber>,
}

impl Clock {
    /// The tick counter.
    pub closed spec fn tick_value(&self) -> u64 {
        self.tick
    }

    /// The epoch counter.
    pub closed spec fn epoch_value(&self) -> u64 {
        self.epoch
    }

    /// The partition states, in configured order.
    pub closed spec fn parts(&self) -> Seq<PartitionState> {
        self.partitions@
    }

    /// The cascade direction.
    pub closed spec fn order(&self) -> PartitionOrder {
        self.partition_order
    }

    /// The configured pulses, in declaration order.
    pub closed spec fn pulse_list(&self) -> Seq<PulseSpec> {
        self.pulses@
    }

    /// The registered subscribers, in registration order.
    pub closed spec fn subscriber_list(&self) -> Seq<Subscriber> {
        self.subscribers@
    }

    /// The clock's invariant: every partition value is below its modulus.
    pub open spec fn wf(&self) -> bool {
        all_wf(self.parts())
    }

    /// A clock just built from this configuration.
    pub open spec fn is_fresh(
        &self,
        order: PartitionOrder,
        specs: Seq<PartitionSpec>,
        pulses: Seq<PulseSpec>,
    ) -> bool {
        &&& self.wf()
        &&& self.tick_value() == 0
        &&& self.epoch_value() == 0
        &&& self.order() == order
        &&& self.parts() == zeroed(specs)
        &&& self.pulse_list() == pulses
        &&& self.subscriber_list().len() == 0
    }

    /// Create a builder for configuring partitions, order, and pulses.
    pub fn builder() -> (r: ClockBuilder)
        ensures
            r.specs().len() == 0,
            r.pulse_list().len() == 0,
            r.chosen_order() is None,
    {
        ClockBuilder::new()
    }

    /// Construct a clock with explicit partition order. Fails with the first
    /// violation: partitions first, then each pulse's condition tree.
    pub fn new(partition_order: PartitionOrder, partitions: Vec<PartitionSpec>, pulses: Vec<PulseSpec>) -> (r:
        Result<Clock, ClockError>)
        ensures
            match r {
                Ok(c) => config_error(partitions@, pulses@) is None && c.is_fresh(
                    partition_order,
                    partitions@,
                    pulses@,
                ),
                Err(e) => config_error(partitions@, pulses@) == Some(e),
            },
    {
        let mut names: Vec<String> = Vec::new();
        let mut states: Vec<PartitionState> = Vec::new();
        let mut i: usize = 0;
        while i < partitions.len()
            invariant
                0 <= i <= partitions@.len(),
                names@.map_values(|s: String| s@) == crate::validate::spec_names(partitions@.take(i as int)),
                states@ == zeroed(partitions@.take(i as int)),
                all_wf(states@),
                crate::validate::partition_error(partitions@, 0) == crate::validate::partition_error(
                    partitions@,
                    i as int,
                ),
            decreases partitions@.len() - i,
        {
            let spec = &partitions[i];
            if spec.modulus == 0 {
                return Err(ClockError::ZeroModulus { name: spec.name.clone() });
            }
            let ghost prev = names@;
            names.push(spec.name.clone());
            states.push(PartitionState::from_spec(spec));
            proof {
                assert(names@.map_values(|s: String| s@) =~= prev.map_values(|s: String| s@).push(
                    spec.name@,
                ));
                assert(partitions@.take(i + 1) =~= partitions@.take(i as int).push(partitions@[i as int]));
                assert(names@.map_values(|s: String| s@) =~= crate::validate::spec_names(
                    partitions@.take(i + 1),
                ));
                assert(states@ =~= zeroed(partitions@.take(i + 1)));
            }
            i = i + 1;
        }
        proof {
            assert(partitions@.take(i as int) =~= partitions@);
        }
        let mut j: usize = 0;
        while j < pulses.len()
            invariant
                0 <= j <= pulses@.len(),
                names@.map_values(|s: String| s@) == crate::validate::spec_names(partitions@),
                config_error(partitions@, pulses@) == crate::validate::pulse_error(
                    pulses@,
                    j as int,
                    crate::validate::spec_names(partitions@),
                ),
            decreases pulses@.len() - j,
        {
            match validate_condition(&pulses[j].condition, &names, &pulses[j].name) {
                Ok(()) => {},
                Err(e) => return Err(e),
            }
            j = j + 1;
        }
        Ok(
            Clock {
                tick: 0,
                epoch: 0,
                partitions: states,
                partition_order,
                pulses,
                subscribers: Vec::new(),
            },
        )
    }

    /// Get the current tick count.
    pub fn tick_count(&self) -> (r: u64)
        ensures
            r == self.tick_value(),
    {
        self.tick
    }

    /// Get the current epoch (increments on tick overflow).
    pub fn epoch(&self) -> (r: u64)
        ensures
            r == self.epoch_value(),
    {
        self.epoch
    }

    /// The number of registered subscribers.
    pub fn subscriber_count(&self) -> (r: usize)
        ensures
            r == self.subscriber_list().len(),
    {
        self.subscribers.len()
    }

    /// Get a snapshot without advancing time.
    pub fn snapshot(&self) -> (r: ClockSnapshot)
        ensures
            r.tick == self.tick_value(),
            r.epoch == self.epoch_value(),
            r.partitions@ == self.parts(),
    {
        let parts = copy_partitions(&self.partitions);
        ClockSnapshot { tick: self.tick, epoch: self.epoch, partitions: parts }
    }

    /// Subscribe with an unbounded channel (backpressure ignored).
    pub fn subscribe(&mut self) -> (r: Receiver<TickOutcome>)
        ensures
            final(self).subscriber_list().len() == old(self).subscriber_list().len() + 1,
            final(self).subscriber_list().drop_last() == old(self).subscriber_list(),
            final(self).subscriber_list().last() is Unbounded,
            final(self).tick_value() == old(self).tick_value(),
            final(self).epoch_value() == old(self).epoch_value(),
            final(self).parts() == old(self).parts(),
            final(self).order() == old(self).order(),
            final(self).pulse_list() == old(self).pulse_list(),
    {
        let (tx, rx) = std::sync::mpsc::channel();
        self.subscribers.push(Subscriber::Unbounded(tx));
        proof {
            assert(self.subscribers@.drop_last() =~= old(self).subscribers@);
        }
        rx
    }

    /// Subscribe with a bounded channel (drops on full).
    pub fn subscribe_bounded(&mut self, capacity: usize) -> (r: Receiver<TickOutcome>)
        ensures
            final(self).subscriber_list().len() == old(self).subscriber_list().len() + 1,
            final(self).subscriber_list().drop_last() == old(self).subscriber_list(),
            final(self).subscriber_list().last() is Bounded,
            final(self).tick_value() == old(self).tick_value(),
            final(self).epoch_value() == old(self).epoch_value(),
            final(self).parts() == old(self).parts(),
            final(self).order() == old(self).order(),
            final(self).pulse_list() == old(self).pulse_list(),
    {
        let (tx, rx) = std::sync::mpsc::sync_channel(capacity);
        self.subscribers.push(Subscriber::Bounded(tx));
        proof {
            assert(self.subscribers@.drop_last() =~= old(self).subscribers@);
        }
        rx
    }

    /// Advance logical time by one tick and return the outcome. The tick
    /// counter wraps, and the epoch advances on each wrap; the partitions
    /// cascade once; every pulse whose condition holds is recorded in
    /// declaration order, followed by the overflow record on a wrap; the
    /// outcome is offered to every subscriber, and those whose receiving
    /// side is gone are dropped.
    pub fn tick(&mut self) -> (r: TickOutcome)
        requires
            old(self).wf(),
        ensures
            final(self).wf(),
            r.overflowed == (old(self).tick_value() == u64::MAX),
            final(self).tick_value() == wrapping_inc(old(self).tick_value()),
            final(self).epoch_value() == if r.overflowed {
                wrapping_inc(old(self).epoch_value())
            } else {
                old(self).epoch_value()
            },
            final(self).parts() == cascade(old(self).parts(), old(self).order()),
            final(self).order() == old(self).order(),
            final(self).pulse_list() == old(self).pulse_list(),
            r.snapshot.tick == final(self).tick_value(),
            r.snapshot.epoch == final(self).epoch_value(),
            r.snapshot.partitions@ == final(self).parts(),
            r.pulses@.map_values(|f: PulseFired| f@) == fired_from(
                old(self).pulse_list(),
                final(self).tick_value(),
                final(self).epoch_value(),
                final(self).parts(),
            ) + if r.overflowed {
                seq![(OVERFLOW_PULSE@, final(self).tick_value(), final(self).epoch_value())]
            } else {
                Seq::empty()
            },
            exists|ds: Seq<Delivery>|
                deliveries_fit(old(self).subscriber_list(), ds) && final(self).subscriber_list()
                    == retained(old(self).subscriber_list(), ds),
    {
        let overflowed: bool = self.tick == u64::MAX;
        if overflowed {
            self.tick = 0;
            if self.epoch == u64::MAX {
                self.epoch = 0;
            } else {
                self.epoch = self.epoch + 1;
            }
        } else {
            self.tick = self.tick + 1;
        }

        self.advance_partitions();

        let snapshot = self.snapshot();

        let mut fired: Vec<PulseFired> = Vec::new();
        let mut i: usize = 0;
        while i < self.pulses.len()
            invariant
                0 <= i <= self.pulses@.len(),
                snapshot.partitions@ == self.partitions@,
                fired@.map_values(|f: PulseFired| f@) == fired_from(
                    self.pulses@.take(i as int),
                    self.tick,
                    self.epoch,
                    self.partitions@,
                ),
            decreases self.pulses@.len() - i,
        {
            let pulse = &self.pulses[i];
            let ghost prev = fired@;
            if pulse.condition.is_met(self.tick, &snapshot) {
                fired.push(PulseFired { name: pulse.name.clone(), tick: self.tick, epoch: self.epoch });
                proof {
                    assert(fired@.map_values(|f: PulseFired| f@) =~= prev.map_values(
                        |f: PulseFired| f@,
                    ).push((pulse.name@, self.tick, self.epoch)));
                }
            }
            proof {
                assert(self.pulses@.take(i + 1).drop_last() =~= self.pulses@.take(i as int));
            }
            i = i + 1;
        }
        proof {
            assert(self.pulses@.take(i as int) =~= self.pulses@);
        }

        if overflowed {
            let ghost prev = fired@;
            fired.push(PulseFired { name: OVERFLOW_PULSE.to_owned(), tick: self.tick, epoch: self.epoch });
            proof {
                assert(fired@.map_values(|f: PulseFired| f@) =~= prev.map_values(|f: PulseFired| f@)
                    + seq![(OVERFLOW_PULSE@, self.tick, self.epoch)]);
            }
        } else {
            proof {
                assert(fired@.map_values(|f: PulseFired| f@) =~= fired@.map_values(|f: PulseFired| f@)
                    + Seq::empty());
            }
        }

        let outcome = TickOutcome { snapshot, pulses: fired, overflowed };

        self.broadcast(&outcome);
        proof {
            let ds = choose|ds: Seq<Delivery>|
                deliveries_fit(old(self).subscribers@, ds) && self.subscribers@ == retained(
                    old(self).subscribers@,
                    ds,
                );
            assert(deliveries_fit(old(self).subscriber_list(), ds) && self.subscriber_list() == retained(
                old(self).subscriber_list(),
                ds,
            ));
        }
        outcome
    }

    /// Cascade one increment through the partitions in the configured order.
    fn advance_partitions(&mut self)
        requires
            all_wf(old(self).partitions@),
        ensures
            all_wf(final(self).partitions@),
            final(self).partitions@ == cascade(old(self).partitions@, old(self).partition_order),
            final(self).tick == old(self).tick,
            final(self).epoch == old(self).epoch,
            final(self).partition_order == old(self).partition_order,
            final(self).pulses == old(self).pulses,
            final(self).subscribers == old(self).subscribers,
    {
        let mut carry = true;
        match self.partition_order {
            PartitionOrder::LeastSignificantFirst => {
                let mut i: usize = 0;
                while carry && i < self.partitions.len()
                    invariant
                        0 <= i <= self.partitions@.len(),
                        self.partitions@.len() == old(self).partitions@.len(),
                        all_wf(self.partitions@),
                        carry ==> cascade_up(self.partitions@, i as int) == cascade_up(
                            old(self).partitions@,
                            0,
                        ),
                        !carry ==> self.partitions@ == cascade_up(old(self).partitions@, 0),
                        self.tick == old(self).tick,
                        self.epoch == old(self).epoch,
                        self.partition_order == old(self).partition_order,
                        self.pulses == old(self).pulses,
                        self.subscribers == old(self).subscribers,
                    decreases self.partitions@.len() - i,
                {
                    let ghost before = self.partitions@;
                    carry = self.partitions[i].increment();
                    proof {
                        assert(self.partitions@ == before.update(i as int, before[i as int].stepped()));
                        assert(all_wf(self.partitions@));
                    }
                    i = i + 1;
                }
            },
            PartitionOrder::MostSignificantFirst => {
                let mut k: usize = self.partitions.len();
                while carry && k > 0
                    invariant
                        0 <= k <= self.partitions@.len(),
                        self.partitions@.len() == old(self).partitions@.len(),
                        all_wf(self.partitions@),
                        carry ==> cascade_down(self.partitions@, k as int) == cascade_down(
                            old(self).partitions@,
                            old(self).partitions@.len() as int,
                        ),
                        !carry ==> self.partitions@ == cascade_down(
                            old(self).partitions@,
                            old(self).partitions@.len() as int,
                        ),
                        self.tick == old(self).tick,
                        self.epoch == old(self).epoch,
                        self.partition_order == old(self).partition_order,
                        self.pulses == old(self).pulses,
                        self.subscribers == old(self).subscribers,
                    decreases k,
                {
                    let ghost before = self.partitions@;
                    carry = self.partitions[k - 1].increment();
                    proof {
                        assert(self.partitions@ == before.update(k - 1, before[k - 1].stepped()));
                        assert(all_wf(self.partitions@));
                    }
                    k = k - 1;
                }
            },
        }
    }

    /// Offer a copy of `outcome` to every subscriber once, in registration
    /// order, keeping those whose receiving side is still there.
    fn broadcast(&mut self, outcome: &TickOutcome)
        ensures
            final(self).tick == old(self).tick,
            final(self).epoch == old(self).epoch,
            final(self).partitions == old(self).partitions,
            final(self).partition_order == old(self).partition_order,
            final(self).pulses == old(self).pulses,
            exists|ds: Seq<Delivery>|
                deliveries_fit(old(self).subscribers@, ds) && final(self).subscribers@ == retained(
                    old(self).subscribers@,
                    ds,
                ),
    {
        let mut pending: Vec<Subscriber> = Vec::new();
        std::mem::swap(&mut pending, &mut self.subscribers);
        let ghost all = pending@;
        let ghost mut ds: Seq<Delivery> = Seq::empty();
        let mut n: usize = 0;
        assert(all.len() == pending.len());
        while pending.len() > 0
            invariant
                n + pending@.len() == all.len(),
                all.len() <= usize::MAX,
                pending@ == all.skip(n as int),
                ds.len() == n,
                deliveries_fit(all.take(n as int), ds),
                self.subscribers@ == retained(all.take(n as int), ds),
                self.tick == old(self).tick,
                self.epoch == old(self).epoch,
                self.partitions == old(self).partitions,
                self.partition_order == old(self).partition_order,
                self.pulses == old(self).pulses,
                all == old(self).subscribers@,
            decreases pending@.len(),
        {
            let sub = pending.remove(0);
            let d = sub.deliver(outcome);
            let ghost prev_ds = ds;
            proof {
                ds = ds.push(d);
                assert(all.take(n + 1).drop_last() =~= all.take(n as int));
                assert(ds.drop_last() =~= prev_ds);
                assert(all.take(n + 1).last() == sub);
                assert(pending@ =~= all.skip(n + 1));
                assert forall|j: int| 0 <= j < ds.len() implies (all.take(n + 1)[j] is Unbounded ==> !((
                #[trigger] ds[j]) is Dropped)) by {
                    if j < n {
                        assert(ds[j] == prev_ds[j]);
                        assert(all.take(n + 1)[j] == all.take(n as int)[j]);
                    }
                }
            }
            if keeps(d) {
                self.subscribers.push(sub);
            }
            proof {
                assert(self.subscribers@ == retained(all.take(n + 1), ds));
            }
            n = n + 1;
        }
        proof {
            assert(all.take(n as int) =~= all);
        }
    }
}

impl Default for Clock {
    /// The default clock: least-significant-first partitions "sec" (60),
    /// "min" (60) and "hour" (24), and no pulses.
    fn default() -> (r: Clock)
        ensures
            r.wf(),
            r.tick_value() == 0,
            r.epoch_value() == 0,
            r.order() == PartitionOrder::LeastSignificantFirst,
            r.parts().len() == 3,
            r.parts()[0].name@ == "sec"@ && r.parts()[0].modulus == 60 && r.parts()[0].value == 0,
            r.parts()[1].name@ == "min"@ && r.parts()[1].modulus == 60 && r.parts()[1].value == 0,
            r.parts()[2].name@ == "hour"@ && r.parts()[2].modulus == 24 && r.parts()[2].value == 0,
            r.pulse_list().len() == 0,
            r.subscriber_list().len() == 0,
    {
        let b = Clock::builder().least_significant_first().partition("sec", 60).partition(
            "min",
            60,
        ).partition("hour", 24);
        proof {
            let specs = b.specs();
            assert(specs.len() == 3);
            assert(specs[0].modulus == 60 && specs[1].modulus == 60 && specs[2].modulus == 24) by {
                assert(specs.drop_last().drop_last().last() == specs[0]);
                assert(specs.drop_last().last() == specs[1]);
            }
            assert(crate::validate::partition_error(specs, 3) is None);
            assert(crate::validate::partition_error(specs, 2) is None);
            assert(crate::validate::partition_error(specs, 1) is None);
            assert(crate::validate::partition_error(specs, 0) is None);
            assert(crate::validate::pulse_error(b.pulse_list(), 0, crate::validate::spec_names(specs))
                is None);
        }
        let built = b.build();
        proof {
            let specs = b.specs();
            assert(specs.drop_last().drop_last().last() == specs[0]);
            assert(specs.drop_last().last() == specs[1]);
        }
        built.unwrap()
    }
}

} // verus!
