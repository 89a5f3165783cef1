use vstd::prelude::*;

use crate::order::Order;
use crate::participants::Dispatchable;

verus! {

/// Total capacity of each dispatchable, in order.
pub open spec fn capacities(ds: Seq<Dispatchable>) -> Seq<int> {
    ds.map_values(|d: Dispatchable| d.total_capacity_spec())
}

/// Demand left for the dispatchables in `frame` once always-on supply is used.
pub open spec fn residual(order: Order, frame: int) -> int {
    order.demand_spec(frame) - order.always_on_spec(frame)
}

/// The load that walking the units from `i` on, with `remaining` demand left,
/// writes for unit `j`: full capacity up to the marginal unit, what is left to
/// the marginal unit when that is positive, and nothing after it.
pub open spec fn assigned(caps: Seq<int>, remaining: int, i: nat, j: nat) -> Option<int>
    decreases caps.len() - i,
{
    if i >= caps.len() {
        None
    } else if caps[i as int] < remaining {
        if j == i {
            Some(caps[i as int])
        } else {
            assigned(caps, remaining - caps[i as int], i + 1, j)
        }
    } else if j == i && remaining > 0 {
        Some(remaining)
    } else {
        None
    }
}

/// The marginal unit found by walking the units from `i` on with `remaining`
/// demand left: the first whose capacity is not below what is still left.
pub open spec fn marginal(caps: Seq<int>, remaining: int, i: nat) -> Option<nat>
    decreases caps.len() - i,
{
    if i >= caps.len() {
        None
    } else if caps[i as int] < remaining {
        marginal(caps, remaining - caps[i as int], i + 1)
    } else {
        Some(i)
    }
}

/// Capacity of the units from `i` on.
pub open spec fn capacity_from(caps: Seq<int>, i: nat) -> int
    decreases caps.len() - i,
{
    if i >= caps.len() {
        0
    } else {
        caps[i as int] + capacity_from(caps, i + 1)
    }
}

/// A load series after a frame's write `a`, if any.
pub open spec fn written(prev: Seq<u64>, frame: int, a: Option<int>) -> Seq<u64> {
    match a {
        Some(v) => prev.update(frame, v as u64),
        None => prev,
    }
}

/// The price setter of a frame after the walk found `m`, if any.
pub open spec fn priced(prev: Option<usize>, m: Option<nat>) -> Option<usize> {
    match m {
        Some(i) => Some(i as usize),
        None => prev,
    }
}

/// Every profile reaches the end of the horizon.
pub open spec fn profiles_cover(order: Order) -> bool {
    &&& forall|f: int| 0 <= f < order.horizon() ==> order.consumers_cover(f)
    &&& forall|f: int| 0 <= f < order.horizon() ==> order.always_ons_cover(f)
}

/// `after` is `before` with the loads of frame `frame` and its price setter
/// written by one dispatch of that frame.
pub open spec fn frame_dispatched(before: Order, after: Order, frame: int) -> bool {
    let caps = capacities(before.dispatchables@);
    let rem = residual(before, frame);
    &&& after.always_ons == before.always_ons
    &&& after.consumers == before.consumers
    &&& after.dispatchables@.len() == before.dispatchables@.len()
    &&& forall|j: int|
        0 <= j < before.dispatchables@.len() ==> {
            &&& (#[trigger] after.dispatchables@[j]).same_unit(before.dispatchables@[j])
            &&& after.dispatchables@[j].load@ == written(
                before.dispatchables@[j].load@,
                frame,
                assigned(caps, rem, 0, j as nat),
            )
        }
    &&& after.price_setters@ == before.price_setters@.update(
        frame,
        priced(before.price_setters@[frame], marginal(caps, rem, 0)),
    )
}

/// `after` is `before` with every frame of the horizon dispatched.
pub open spec fn calculated(before: Order, after: Order) -> bool {
    let caps = capacities(before.dispatchables@);
    &&& after.always_ons == before.always_ons
    &&& after.consumers == before.consumers
    &&& after.dispatchables@.len() == before.dispatchables@.len()
    &&& after.price_setters@.len() == before.price_setters@.len()
    &&& forall|j: int|
        0 <= j < before.dispatchables@.len() ==> {
            &&& (#[trigger] after.dispatchables@[j]).same_unit(before.dispatchables@[j])
            &&& after.dispatchables@[j].load@.len() == before.dispatchables@[j].load@.len()
        }
    &&& forall|j: int, f: int|
        0 <= j < before.dispatchables@.len() && 0 <= f < before.horizon() ==> #[trigger] after.dispatchables@[j].load@[f]
            == written(before.dispatchables@[j].load@, f, assigned(caps, residual(before, f), 0, j as nat))[f]
    &&& forall|f: int|
        0 <= f < before.horizon() ==> #[trigger] after.price_setters@[f] == priced(
            before.price_setters@[f],
            marginal(caps, residual(before, f), 0),
        )
}

proof fn lemma_capacities_nonnegative(ds: Seq<Dispatchable>)
    ensures
        forall|k: int| 0 <= k < ds.len() ==> 0 <= #[trigger] capacities(ds)[k],
{
    assert forall|k: int| 0 <= k < ds.len() implies 0 <= #[trigger] capacities(ds)[k] by {
        let d = ds[k];
        assert(0 <= d.capacity as int * d.units as int) by (nonlinear_arith);
    }
}

proof fn lemma_capacity_from_nonnegative(caps: Seq<int>, i: nat)
    requires
        forall|k: int| 0 <= k < caps.len() ==> 0 <= #[trigger] caps[k],
    ensures
        0 <= capacity_from(caps, i),
    decreases caps.len() - i,
{
    if i < caps.len() {
        lemma_capacity_from_nonnegative(caps, i + 1);
    }
}

proof fn lemma_shortage_walk(caps: Seq<int>, remaining: int, i: nat)
    requires
        forall|k: int| 0 <= k < caps.len() ==> 0 <= #[trigger] caps[k],
        capacity_from(caps, i) < remaining,
    ensures
        marginal(caps, remaining, i) is None,
        forall|j: nat| i <= j < caps.len() ==> #[trigger] assigned(caps, remaining, i, j) == Some(caps[j as int]),
    decreases caps.len() - i,
{
    if i < caps.len() {
        lemma_capacity_from_nonnegative(caps, i + 1);
        lemma_shortage_walk(caps, remaining - caps[i as int], i + 1);
        assert forall|j: nat| i <= j < caps.len() implies #[trigger] assigned(caps, remaining, i, j)
            == Some(caps[j as int]) by {
            if j > i {
                assert(assigned(caps, remaining - caps[i as int], i + 1, j) == Some(caps[j as int]));
            }
        }
    }
}

/// When the dispatchables and the always-on supply together fall short of
/// demand in a frame, every dispatchable runs at full capacity in that frame
/// and no price setter is recorded for it.
pub proof fn lemma_shortage_leaves_price_unset(before: Order, after: Order, frame: int)
    requires
        before.wf(),
        calculated(before, after),
        0 <= frame < before.horizon(),
        before.price_setters@[frame] is None,
        capacity_from(capacities(before.dispatchables@), 0) + before.always_on_spec(frame)
            < before.demand_spec(frame),
    ensures
        after.price_setters@[frame] is None,
        forall|j: int|
            0 <= j < before.dispatchables@.len() ==> (#[trigger] after.dispatchables@[j]).load@[frame] as int
                == before.dispatchables@[j].total_capacity_spec(),
{
    let caps = capacities(before.dispatchables@);
    lemma_capacities_nonnegative(before.dispatchables@);
    lemma_shortage_walk(caps, residual(before, frame), 0);
    assert forall|j: int| 0 <= j < before.dispatchables@.len() implies (#[trigger] after.dispatchables@[j]).load@[frame] as int
        == before.dispatchables@[j].total_capacity_spec() by {
        assert(before.dispatchables@[j].spans(before.horizon()));
        assert(assigned(caps, residual(before, frame), 0, j as nat) == Some(caps[j]));
        assert(0 <= before.dispatchables@[j].capacity as int * before.dispatchables@[j].units as int
            <= u32::MAX as int * u32::MAX as int) by (nonlinear_arith);
        assert(after.dispatchables@[j].load@[frame] == written(
            before.dispatchables@[j].load@,
            frame,
            assigned(caps, residual(before, frame), 0, j as nat),
        )[frame]);
    }
}

/// When always-on supply alone meets demand in a frame and a dispatchable
/// exists, the first dispatchable sets the price of that frame and its load
/// there is left as it was (zero for a unit never dispatched before).
pub proof fn lemma_covered_demand_prices_first_unit(before: Order, after: Order, frame: int)
    requires
        before.wf(),
        calculated(before, after),
        0 <= frame < before.horizon(),
        before.dispatchables@.len() > 0,
        before.demand_spec(frame) <= before.always_on_spec(frame),
    ensures
        after.price_setters@[frame] == Some(0usize),
        after.dispatchables@[0].load@[frame] == before.dispatchables@[0].load@[frame],
{
    let caps = capacities(before.dispatchables@);
    lemma_capacities_nonnegative(before.dispatchables@);
    assert(0 <= caps[0]);
    assert(marginal(caps, residual(before, frame), 0) == Some(0nat));
    assert(assigned(caps, residual(before, frame), 0, 0) is None);
    assert(after.dispatchables@[0].load@[frame] == written(
        before.dispatchables@[0].load@,
        frame,
        assigned(caps, residual(before, frame), 0, 0),
    )[frame]);
}

/// Dispatches one frame: subtracts always-on production from demand, then
/// loads each dispatchable in turn at full capacity until one can take all
/// that is left; that one gets the rest, when positive, and sets the price.
fn calculate_frame(frame: usize, order: &mut Order)
    requires
        old(order).wf(),
        frame < old(order).horizon(),
        old(order).consumers_cover(frame as int),
        old(order).always_ons_cover(frame as int),
    ensures
        frame_dispatched(*old(order), *final(order), frame as int),
        final(order).wf(),
{
    let ghost before: Order = *order;
    let ghost caps: Seq<int> = capacities(order.dispatchables@);
    let n_consumers = order.consumers.len();
    let n_always_ons = order.always_ons.len();
    let demand = order.demand_at(frame);
    let supply = order.always_on_at(frame);
    assert(demand <= 0x2_0000_0000_0000_0000_0000_0000_0000) by (nonlinear_arith)
        requires
            demand <= n_consumers * 0x2000_0000_0000,
            n_consumers <= usize::MAX,
    ;
    assert(supply <= 0x2_0000_0000_0000_0000_0000_0000_0000) by (nonlinear_arith)
        requires
            supply <= n_always_ons * 0x2000_0000_0000,
            n_always_ons <= usize::MAX,
    ;
    let mut remaining: i128 = demand as i128 - supply as i128;
    let ghost r0: int = remaining as int;
    let n = order.dispatchables.len();
    let mut index: usize = 0;
    while index < n && (order.dispatchables[index].total_capacity() as i128) < remaining
        invariant
            n == before.dispatchables@.len(),
            index <= n,
            frame < before.horizon(),
            order.wf(),
            order.always_ons == before.always_ons,
            order.consumers == before.consumers,
            order.price_setters == before.price_setters,
            order.dispatchables@.len() == n,
            caps == capacities(before.dispatchables@),
            r0 == residual(before, frame as int),
            -0x2_0000_0000_0000_0000_0000_0000_0000 <= r0 <= 0x2_0000_0000_0000_0000_0000_0000_0000,
            r0 < 0 ==> r0 <= remaining <= 0,
            0 <= r0 ==> 0 <= remaining <= r0,
            index > 0 ==> 0 < remaining,
            marginal(caps, r0, 0) == marginal(caps, remaining as int, index as nat),
            forall|j: nat|
                index <= j < n ==> #[trigger] assigned(caps, r0, 0, j) == assigned(
                    caps,
                    remaining as int,
                    index as nat,
                    j,
                ),
            forall|j: nat| j < index ==> #[trigger] assigned(caps, r0, 0, j) == Some(caps[j as int]),
            forall|j: int|
                0 <= j < n ==> (#[trigger] order.dispatchables@[j]).same_unit(
                    before.dispatchables@[j],
                ),
            forall|j: int|
                0 <= j < index ==> (#[trigger] order.dispatchables@[j]).load@ == written(
                    before.dispatchables@[j].load@,
                    frame as int,
                    Some(caps[j]),
                ),
            forall|j: int| index <= j < n ==> #[trigger] order.dispatchables@[j] == before.dispatchables@[j],
        decreases n - index,
    {
        let cap = order.dispatchables[index].total_capacity();
        let _ = order.dispatchables[index].set_load_at(frame, cap);
        remaining = remaining - cap as i128;
        index = index + 1;
    }
    if index < n {
        // This unit can take all that is left: it is the marginal unit. When
        // always-on supply already covers demand it keeps a load of zero.
        if remaining > 0 {
            let _ = order.dispatchables[index].set_load_at(frame, remaining as u64);
        }
        order.price_setters.set(frame, Some(index));
        proof {
            assert forall|j: int| 0 <= j < n implies (#[trigger] order.dispatchables@[j]).load@
                == written(before.dispatchables@[j].load@, frame as int, assigned(caps, r0, 0, j as nat)) by {
                if j >= index {
                    assert(assigned(caps, r0, 0, j as nat) == assigned(caps, remaining as int, index as nat, j as nat));
                } else {
                    assert(assigned(caps, r0, 0, j as nat) == Some(caps[j]));
                }
            }
            assert(marginal(caps, remaining as int, index as nat) == Some(index as nat));
        }
    } else {
        proof {
            assert(marginal(caps, r0, 0) is None);
            assert forall|j: int| 0 <= j < n implies (#[trigger] order.dispatchables@[j]).load@
                == written(before.dispatchables@[j].load@, frame as int, assigned(caps, r0, 0, j as nat)) by {
                assert(assigned(caps, r0, 0, j as nat) == Some(caps[j]));
            }
            assert(order.price_setters@ =~= before.price_setters@.update(
                frame as int,
                priced(before.price_setters@[frame as int], marginal(caps, r0, 0)),
            ));
        }
    }
}

/// Dispatches every frame of the horizon in ascending order, writing the
/// loads of the dispatchables and the price setter of each frame.
pub fn calculate(order: &mut Order)
    requires
        old(order).wf(),
        profiles_cover(*old(order)),
    ensures
        calculated(*old(order), *final(order)),
        final(order).wf(),
{
    let ghost before: Order = *order;
    let ghost caps: Seq<int> = capacities(order.dispatchables@);
    let horizon = order.price_setters.len();
    let mut frame: usize = 0;
    while frame < horizon
        invariant
            horizon == before.horizon(),
            order.horizon() == horizon,
            frame <= horizon,
            order.wf(),
            profiles_cover(before),
            caps == capacities(before.dispatchables@),
            before.wf(),
            order.always_ons == before.always_ons,
            order.consumers == before.consumers,
            order.dispatchables@.len() == before.dispatchables@.len(),
            forall|j: int|
                0 <= j < before.dispatchables@.len() ==> (#[trigger] order.dispatchables@[j]).same_unit(
                    before.dispatchables@[j],
                ),
            forall|j: int, f: int|
                0 <= j < before.dispatchables@.len() && 0 <= f < frame ==> #[trigger] order.dispatchables@[j].load@[f]
                    == written(
                    before.dispatchables@[j].load@,
                    f,
                    assigned(caps, residual(before, f), 0, j as nat),
                )[f],
            forall|j: int, f: int|
                0 <= j < before.dispatchables@.len() && frame <= f < horizon ==> #[trigger] order.dispatchables@[j].load@[f]
                    == before.dispatchables@[j].load@[f],
            forall|f: int|
                0 <= f < frame ==> #[trigger] order.price_setters@[f] == priced(
                    before.price_setters@[f],
                    marginal(caps, residual(before, f), 0),
                ),
            forall|f: int|
                frame <= f < horizon ==> #[trigger] order.price_setters@[f] == before.price_setters@[f],
        decreases horizon - frame,
    {
        let ghost mid: Order = *order;
        proof {
            assert(capacities(mid.dispatchables@) =~= caps);
            assert(residual(mid, frame as int) == residual(before, frame as int));
            assert(before.consumers_cover(frame as int));
            assert(before.always_ons_cover(frame as int));
            assert(mid.consumers_cover(frame as int));
            assert(mid.always_ons_cover(frame as int));
        }
        calculate_frame(frame, order);
        proof {
            let rem = residual(before, frame as int);
            assert forall|j: int, f: int|
                0 <= j < before.dispatchables@.len() && 0 <= f < frame + 1 implies #[trigger] order.dispatchables@[j].load@[f]
                    == written(
                    before.dispatchables@[j].load@,
                    f,
                    assigned(caps, residual(before, f), 0, j as nat),
                )[f] by {
                assert(order.dispatchables@[j].load@ == written(
                    mid.dispatchables@[j].load@,
                    frame as int,
                    assigned(caps, rem, 0, j as nat),
                ));
            }
            assert forall|j: int, f: int|
                0 <= j < before.dispatchables@.len() && frame + 1 <= f < horizon implies #[trigger] order.dispatchables@[j].load@[f]
                    == before.dispatchables@[j].load@[f] by {
                assert(order.dispatchables@[j].load@ == written(
                    mid.dispatchables@[j].load@,
                    frame as int,
                    assigned(caps, rem, 0, j as nat),
                ));
            }
        }
        frame = frame + 1;
    }
}

} // verus!
