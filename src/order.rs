use vstd::prelude::*;

use crate::participants::{AlwaysOn, Consumer, Dispatchable};
use crate::HORIZON;

verus! {

/// Upper bound of a single participant's load in one frame.
pub const LOAD_BOUND: u64 = 0x2000_0000_0000;

/// Total demand of `consumers` in `frame`.
pub open spec fn demand_of(consumers: Seq<Consumer>, frame: int) -> int
    decreases consumers.len(),
{
    if consumers.len() == 0 {
        0
    } else {
        demand_of(consumers.drop_last(), frame) + consumers.last().load_spec(frame)
    }
}

/// Total production of `producers` in `frame`.
pub open spec fn supply_of(producers: Seq<AlwaysOn>, frame: int) -> int
    decreases producers.len(),
{
    if producers.len() == 0 {
        0
    } else {
        supply_of(producers.drop_last(), frame) + producers.last().load_spec(frame)
    }
}

/// The participants of a merit order, with the unit that set the price in
/// each frame.
pub struct Order {
    pub always_ons: Vec<AlwaysOn>,
    pub consumers: Vec<Consumer>,
    /// Dispatched in this order; callers keep them sorted by cost.
    pub dispatchables: Vec<Dispatchable>,
    /// Index of the marginal dispatchable of each frame; `None` where no unit
    /// was marginal (demand was not met, or no dispatchable exists).
    pub price_setters: Vec<Option<usize>>,
}

impl Order {
    /// Number of frames the order is calculated for.
    pub open spec fn horizon(&self) -> int {
        self.price_setters@.len() as int
    }

    /// Every dispatchable has a load entry for each frame of the horizon.
    pub open spec fn wf(&self) -> bool {
        forall|j: int|
            0 <= j < self.dispatchables@.len() ==> (#[trigger] self.dispatchables@[j]).spans(
                self.horizon(),
            )
    }

    /// Every consumer's profile reaches `frame`.
    pub open spec fn consumers_cover(&self, frame: int) -> bool {
        forall|i: int|
            0 <= i < self.consumers@.len() ==> frame < (#[trigger] self.consumers@[i]).profile@.len()
    }

    /// Every always-on profile reaches `frame`.
    pub open spec fn always_ons_cover(&self, frame: int) -> bool {
        forall|i: int|
            0 <= i < self.always_ons@.len() ==> frame < (#[trigger] self.always_ons@[i]).profile@.len()
    }

    pub open spec fn demand_spec(&self, frame: int) -> int {
        demand_of(self.consumers@, frame)
    }

    pub open spec fn always_on_spec(&self, frame: int) -> int {
        supply_of(self.always_ons@, frame)
    }

    /// An empty order over the default horizon.
    pub fn new() -> (r: Order)
        ensures
            r.wf(),
            r.horizon() == HORIZON,
            r.always_ons@.len() == 0,
            r.consumers@.len() == 0,
            r.dispatchables@.len() == 0,
            forall|f: int| 0 <= f < HORIZON ==> r.price_setters@[f] is None,
    {
        Order::with_horizon(HORIZON)
    }

    /// An empty order over `horizon` frames.
    pub fn with_horizon(horizon: usize) -> (r: Order)
        ensures
            r.wf(),
            r.horizon() == horizon,
            r.always_ons@.len() == 0,
            r.consumers@.len() == 0,
            r.dispatchables@.len() == 0,
            forall|f: int| 0 <= f < horizon ==> r.price_setters@[f] is None,
    {
        Order {
            always_ons: Vec::new(),
            consumers: Vec::new(),
            dispatchables: Vec::new(),
            price_setters: vec![None; horizon],
        }
    }

    /// Total demand of all consumers in `frame`.
    pub fn demand_at(&self, frame: usize) -> (r: u128)
        requires
            self.consumers_cover(frame as int),
        ensures
            r as int == self.demand_spec(frame as int),
            r <= self.consumers@.len() * LOAD_BOUND,
    {
        let n = self.consumers.len();
        let mut sum: u128 = 0;
        let mut i: usize = 0;
        while i < n
            invariant
                n == self.consumers@.len(),
                self.consumers_cover(frame as int),
                i <= n,
                sum as int == demand_of(self.consumers@.subrange(0, i as int), frame as int),
                sum <= i * LOAD_BOUND,
            decreases n - i,
        {
            let load = self.consumers[i].load_at(frame);
            proof {
                crate::participants::lemma_share_bounds(
                    self.consumers@[i as int].profile@[frame as int],
                    self.consumers@[i as int].total_demand,
                );
                assert(self.consumers@.subrange(0, i + 1).drop_last() =~= self.consumers@.subrange(
                    0,
                    i as int,
                ));
            }
            sum = sum + load as u128;
            i = i + 1;
        }
        assert(self.consumers@.subrange(0, n as int) =~= self.consumers@);
        sum
    }

    /// Total production of all always-on participants in `frame`.
    pub fn always_on_at(&self, frame: usize) -> (r: u128)
        requires
            self.always_ons_cover(frame as int),
        ensures
            r as int == self.always_on_spec(frame as int),
            r <= self.always_ons@.len() * LOAD_BOUND,
    {
        let n = self.always_ons.len();
        let mut sum: u128 = 0;
        let mut i: usize = 0;
        while i < n
            invariant
                n == self.always_ons@.len(),
                self.always_ons_cover(frame as int),
                i <= n,
                sum as int == supply_of(self.always_ons@.subrange(0, i as int), frame as int),
                sum <= i * LOAD_BOUND,
            decreases n - i,
        {
            let load = self.always_ons[i].load_at(frame);
            proof {
                crate::participants::lemma_share_bounds(
                    self.always_ons@[i as int].profile@[frame as int],
                    self.always_ons@[i as int].total_production,
                );
                assert(self.always_ons@.subrange(0, i + 1).drop_last() =~= self.always_ons@.subrange(
                    0,
                    i as int,
                ));
            }
            sum = sum + load as u128;
            i = i + 1;
        }
        assert(self.always_ons@.subrange(0, n as int) =~= self.always_ons@);
        sum
    }

    /// Adds an always-on participant to the order.
    pub fn add_always_on(&mut self, ao: AlwaysOn)
        ensures
            final(self).always_ons@ == old(self).always_ons@.push(ao),
            final(self).consumers == old(self).consumers,
            final(self).dispatchables == old(self).dispatchables,
            final(self).price_setters == old(self).price_setters,
    {
        self.always_ons.push(ao);
    }

    /// Adds a consumer to the order.
    pub fn add_consumer(&mut self, co: Consumer)
        ensures
            final(self).consumers@ == old(self).consumers@.push(co),
            final(self).always_ons == old(self).always_ons,
            final(self).dispatchables == old(self).dispatchables,
            final(self).price_setters == old(self).price_setters,
    {
        self.consumers.push(co);
    }

    /// Adds a dispatchable participant to the order, after those already in it.
    pub fn add_dispatchable(&mut self, di: Dispatchable)
        ensures
            final(self).dispatchables@ == old(self).dispatchables@.push(di),
            final(self).always_ons == old(self).always_ons,
            final(self).consumers == old(self).consumers,
            final(self).price_setters == old(self).price_setters,
            old(self).wf() && di.spans(old(self).horizon()) ==> final(self).wf(),
    {
        self.dispatchables.push(di);
    }
}

} // verus!
