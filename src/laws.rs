//! Properties of the cascade and of the condition combinators.

use vstd::arithmetic::div_mod::{lemma_add_mod_noop, lemma_small_mod, lemma_truncate_middle};
use vstd::prelude::*;

use crate::clock::{all_wf, cascade, cascade_up, closed_count, retained};
use crate::condition::PulseCondition;
use crate::partition::{PartitionOrder, PartitionState};
use crate::subscriber::{stays, Delivery, Subscriber};

verus! {

/// The number the partitions spell, read as a mixed-radix numeral whose
/// first partition is the least significant digit.
pub open spec fn decode(ps: Seq<PartitionState>) -> int
    decreases ps.len(),
{
    if ps.len() == 0 {
        0
    } else {
        ps[0].value + ps[0].modulus * decode(ps.drop_first())
    }
}

/// The product of the moduli of `ps`: how many distinct states they have.
pub open spec fn capacity(ps: Seq<PartitionState>) -> int
    decreases ps.len(),
{
    if ps.len() == 0 {
        1
    } else {
        ps[0].modulus * capacity(ps.drop_first())
    }
}

/// The partition states after `n` cascade steps in the given order.
pub open spec fn after_ticks(ps: Seq<PartitionState>, order: PartitionOrder, n: nat) -> Seq<
    PartitionState,
>
    decreases n,
{
    if n == 0 {
        ps
    } else {
        cascade(after_ticks(ps, order, (n - 1) as nat), order)
    }
}

/// Every partition value is zero.
pub open spec fn all_zero(ps: Seq<PartitionState>) -> bool {
    forall|i: int| 0 <= i < ps.len() ==> (#[trigger] ps[i]).value == 0
}

proof fn lemma_decode_bounds(ps: Seq<PartitionState>)
    requires
        all_wf(ps),
    ensures
        capacity(ps) >= 1,
        0 <= decode(ps) < capacity(ps),
    decreases ps.len(),
{
    if ps.len() > 0 {
        let rest = ps.drop_first();
        assert(all_wf(rest)) by {
            assert forall|i: int| 0 <= i < rest.len() implies (#[trigger] rest[i]).wf() by {
                assert(rest[i] == ps[i + 1]);
            }
        }
        assert(ps[0].wf());
        lemma_decode_bounds(rest);
        let v = ps[0].value as int;
        let m = ps[0].modulus as int;
        let d = decode(rest);
        let c = capacity(rest);
        assert(0 <= v + m * d < m * c) by (nonlinear_arith)
            requires
                0 <= v < m,
                0 <= d < c,
        ;
        assert(m * c >= 1) by (nonlinear_arith)
            requires
                m >= 1,
                c >= 1,
        ;
    }
}

proof fn lemma_cascade_up_shift(ps: Seq<PartitionState>, i: int)
    requires
        ps.len() > 0,
        0 <= i,
    ensures
        cascade_up(ps, i + 1) == seq![ps[0]] + cascade_up(ps.drop_first(), i),
    decreases ps.len() - i,
{
    let rest = ps.drop_first();
    if i + 1 >= ps.len() {
        assert(seq![ps[0]] + rest =~= ps);
    } else {
        let q = ps.update(i + 1, ps[i + 1].stepped());
        assert(q.drop_first() =~= rest.update(i, rest[i].stepped()));
        assert(q[0] == ps[0]);
        if ps[i + 1].carries() {
            lemma_cascade_up_shift(q, i + 1);
        } else {
            assert(seq![ps[0]] + rest.update(i, rest[i].stepped()) =~= q);
        }
    }
}

proof fn lemma_cascade_up_step(ps: Seq<PartitionState>)
    requires
        all_wf(ps),
    ensures
        all_wf(cascade_up(ps, 0)),
        capacity(cascade_up(ps, 0)) == capacity(ps),
        decode(cascade_up(ps, 0)) == (decode(ps) + 1) % capacity(ps),
    decreases ps.len(),
{
    lemma_decode_bounds(ps);
    if ps.len() > 0 {
        let rest = ps.drop_first();
        assert(all_wf(rest)) by {
            assert forall|i: int| 0 <= i < rest.len() implies (#[trigger] rest[i]).wf() by {
                assert(rest[i] == ps[i + 1]);
            }
        }
        lemma_decode_bounds(rest);
        assert(ps[0].wf());
        let v = ps[0].value as int;
        let m = ps[0].modulus as int;
        let d = decode(rest);
        let c = capacity(rest);
        let q = ps.update(0, ps[0].stepped());
        if ps[0].carries() {
            lemma_cascade_up_step(rest);
            assert(q.drop_first() =~= rest);
            lemma_cascade_up_shift(q, 0);
            let out = cascade_up(ps, 0);
            assert(out == seq![q[0]] + cascade_up(rest, 0));
            assert(out.drop_first() =~= cascade_up(rest, 0));
            assert(out[0] == ps[0].stepped());
            assert(all_wf(out)) by {
                assert forall|i: int| 0 <= i < out.len() implies (#[trigger] out[i]).wf() by {
                    if i > 0 {
                        assert(out[i] == cascade_up(rest, 0)[i - 1]);
                    }
                }
            }
            assert(v + 1 == m);
            assert(decode(out) == m * ((d + 1) % c));
            lemma_truncate_middle(d + 1, m, c);
            assert(m * (d + 1) == v + m * d + 1) by (nonlinear_arith)
                requires
                    v + 1 == m,
            ;
        } else {
            let out = cascade_up(ps, 0);
            assert(out == q);
            assert(q.drop_first() =~= rest);
            assert(all_wf(out)) by {
                assert forall|i: int| 0 <= i < out.len() implies (#[trigger] out[i]).wf() by {
                    if i > 0 {
                        assert(out[i] == ps[i]);
                    }
                }
            }
            assert(0 <= v + 1 + m * d < m * c) by (nonlinear_arith)
                requires
                    0 <= v,
                    v + 1 < m,
                    0 <= d < c,
            ;
            lemma_small_mod((v + 1 + m * d) as nat, (m * c) as nat);
        }
    } else {
        assert(cascade_up(ps, 0) == ps);
    }
}

/// Counting law: starting from all-zero partitions in least-significant-first
/// order, after `n` ticks the partitions spell `n` modulo the product of
/// their moduli.
pub proof fn lemma_ticks_count_mixed_radix(ps: Seq<PartitionState>, n: nat)
    requires
        all_wf(ps),
        all_zero(ps),
    ensures
        all_wf(after_ticks(ps, PartitionOrder::LeastSignificantFirst, n)),
        capacity(after_ticks(ps, PartitionOrder::LeastSignificantFirst, n)) == capacity(ps),
        decode(after_ticks(ps, PartitionOrder::LeastSignificantFirst, n)) == (n as int) % capacity(ps),
    decreases n,
{
    let lsf = PartitionOrder::LeastSignificantFirst;
    lemma_decode_bounds(ps);
    if n == 0 {
        lemma_zero_decodes_to_zero(ps);
        lemma_small_mod(0, capacity(ps) as nat);
    } else {
        lemma_ticks_count_mixed_radix(ps, (n - 1) as nat);
        let prev = after_ticks(ps, lsf, (n - 1) as nat);
        lemma_cascade_up_step(prev);
        lemma_add_mod_noop((n - 1) as int, 1, capacity(ps));
        if capacity(ps) > 1 {
            lemma_small_mod(1, capacity(ps) as nat);
        } else {
            assert((n - 1) % 1 == 0 && n % 1 == 0);
        }
    }
}

proof fn lemma_zero_decodes_to_zero(ps: Seq<PartitionState>)
    requires
        all_zero(ps),
    ensures
        decode(ps) == 0,
    decreases ps.len(),
{
    if ps.len() > 0 {
        let rest = ps.drop_first();
        assert(all_zero(rest)) by {
            assert forall|i: int| 0 <= i < rest.len() implies (#[trigger] rest[i]).value == 0 by {
                assert(rest[i] == ps[i + 1]);
            }
        }
        lemma_zero_decodes_to_zero(rest);
        assert(ps[0].value == 0);
    }
}

/// An empty conjunction and an empty disjunction never hold.
pub proof fn lemma_empty_and_or_never_hold(
    empty: Vec<PulseCondition>,
    tick: u64,
    parts: Seq<PartitionState>,
)
    requires
        empty@.len() == 0,
    ensures
        !PulseCondition::And(empty).met(tick, parts),
        !PulseCondition::Or(empty).met(tick, parts),
{
}

/// A conjunction of one condition holds exactly when that condition does.
pub proof fn lemma_single_and_is_its_child(
    c: PulseCondition,
    single: Vec<PulseCondition>,
    tick: u64,
    parts: Seq<PartitionState>,
)
    requires
        single@ == seq![c],
    ensures
        PulseCondition::And(single).met(tick, parts) == c.met(tick, parts),
{
    assert(single@[0] == c);
}

/// Negating a condition twice gives back its value.
pub proof fn lemma_double_negation(c: PulseCondition, tick: u64, parts: Seq<PartitionState>)
    ensures
        PulseCondition::Not(Box::new(PulseCondition::Not(Box::new(c)))).met(tick, parts) == c.met(
            tick,
            parts,
        ),
{
    let inner = PulseCondition::Not(Box::new(c));
    assert(inner.met(tick, parts) == !c.met(tick, parts));
}

/// A broadcast in which no receiving side has closed (every outcome was
/// enqueued or dropped for a full channel) keeps every subscriber, in order.
pub proof fn lemma_broadcast_keeps_open_subscribers(subs: Seq<Subscriber>, ds: Seq<Delivery>)
    requires
        ds.len() == subs.len(),
        forall|i: int| 0 <= i < ds.len() ==> stays(#[trigger] ds[i]),
    ensures
        retained(subs, ds) == subs,
    decreases subs.len(),
{
    if subs.len() > 0 {
        let (s0, d0) = (subs.drop_last(), ds.drop_last());
        assert forall|i: int| 0 <= i < d0.len() implies stays(#[trigger] d0[i]) by {
            assert(d0[i] == ds[i]);
        }
        lemma_broadcast_keeps_open_subscribers(s0, d0);
        assert(stays(ds[ds.len() - 1]));
        assert(s0.push(subs.last()) =~= subs);
    }
}

/// After a broadcast exactly the subscribers whose receiving side closed are
/// gone: as many remain as reported anything else.
pub proof fn lemma_broadcast_removes_closed_subscribers(subs: Seq<Subscriber>, ds: Seq<Delivery>)
    requires
        ds.len() == subs.len(),
    ensures
        closed_count(ds) <= ds.len(),
        retained(subs, ds).len() == subs.len() - closed_count(ds),
    decreases subs.len(),
{
    if subs.len() > 0 {
        lemma_broadcast_removes_closed_subscribers(subs.drop_last(), ds.drop_last());
    }
}

/// A subscriber whose delivery did not report a closed receiving side
/// (delivered, or dropped on a full channel) stays registered.
pub proof fn lemma_broadcast_keeps_live_subscriber(subs: Seq<Subscriber>, ds: Seq<Delivery>, i: int)
    requires
        ds.len() == subs.len(),
        0 <= i < subs.len(),
        stays(ds[i]),
    ensures
        retained(subs, ds).contains(subs[i]),
    decreases subs.len(),
{
    let (s0, d0) = (subs.drop_last(), ds.drop_last());
    let prev = retained(s0, d0);
    if i == subs.len() - 1 {
        assert(retained(subs, ds) == prev.push(subs[i]));
        assert(retained(subs, ds)[prev.len() as int] == subs[i]);
    } else {
        assert(d0[i] == ds[i]);
        lemma_broadcast_keeps_live_subscriber(s0, d0, i);
        let k = choose|k: int| 0 <= k < prev.len() && prev[k] == s0[i];
        if stays(ds.last()) {
            assert(retained(subs, ds)[k] == prev[k]);
        }
        assert(retained(subs, ds)[k] == subs[i]);
    }
}

} // verus!
