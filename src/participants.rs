use vstd::prelude::*;

use crate::HORIZON;

verus! {

/// A profile value of this size stands for a utilization of one: profiles are
/// written in millionths.
pub const SHARE_SCALE: u64 = 1_000_000;

/// Load of a participant in a frame: the profile share applied to the
/// participant's magnitude, rounded down to a whole energy unit.
pub open spec fn share_of(share: u32, magnitude: u32) -> int {
    (share as int * magnitude as int) / (SHARE_SCALE as int)
}

/// A load never exceeds `0x2000_0000_0000`, the bound that sums over
/// participants rely on.
pub proof fn lemma_share_bounds(share: u32, magnitude: u32)
    ensures
        0 <= share as int * magnitude as int <= u64::MAX,
        0 <= share_of(share, magnitude) <= 0x2000_0000_0000,
{
    let p = share as int * magnitude as int;
    assert(0 <= p <= (u32::MAX as int) * (u32::MAX as int)) by (nonlinear_arith)
        requires
            p == share as int * magnitude as int,
    ;
    assert(p / 1_000_000 <= 0x2000_0000_0000) by (nonlinear_arith)
        requires
            0 <= p <= 18446744065119617025,
    ;
}

fn scaled_load(share: u32, magnitude: u32) -> (r: u64)
    ensures
        r as int == share_of(share, magnitude),
{
    proof {
        lemma_share_bounds(share, magnitude);
    }
    (share as u64 * magnitude as u64) / SHARE_SCALE
}

/// A must-run producer whose output follows a fixed profile.
pub struct AlwaysOn {
    pub key: String,
    pub profile: Vec<u32>,
    pub total_production: u32,
}

impl AlwaysOn {
    pub open spec fn load_spec(&self, frame: int) -> int {
        share_of(self.profile@[frame], self.total_production)
    }

    pub fn new(key: String, profile: Vec<u32>, total_production: u32) -> (r: AlwaysOn)
        ensures
            r.key == key,
            r.profile@ == profile@,
            r.total_production == total_production,
    {
        AlwaysOn { key, profile, total_production }
    }

    pub fn load_at(&self, frame: usize) -> (r: u64)
        requires
            frame < self.profile@.len(),
        ensures
            r as int == self.load_spec(frame as int),
    {
        scaled_load(self.profile[frame], self.total_production)
    }
}

/// Exogenous demand that follows a fixed profile.
pub struct Consumer {
    pub key: String,
    pub profile: Vec<u32>,
    pub total_demand: u32,
}

impl Consumer {
    pub open spec fn load_spec(&self, frame: int) -> int {
        share_of(self.profile@[frame], self.total_demand)
    }

    pub fn new(key: String, profile: Vec<u32>, total_demand: u32) -> (r: Consumer)
        ensures
            r.key == key,
            r.profile@ == profile@,
            r.total_demand == total_demand,
    {
        Consumer { key, profile, total_demand }
    }

    pub fn load_at(&self, frame: usize) -> (r: u64)
        requires
            frame < self.profile@.len(),
        ensures
            r as int == self.load_spec(frame as int),
    {
        scaled_load(self.profile[frame], self.total_demand)
    }
}

/// Why a load could not be written.
#[derive(Debug, Clone, Copy, PartialEq, Eq)]
pub enum LoadError {
    /// The frame lies at or beyond the end of the participant's load series.
    FrameOutOfRange,
}

/// A producer whose output in each frame is decided by the dispatch engine.
pub struct Dispatchable {
    pub key: String,
    /// Marginal cost; only an ordering key for whoever builds the order.
    pub cost: i64,
    /// Capacity of a single unit.
    pub capacity: u32,
    pub units: u32,
    /// Load assigned in each frame.
    pub load: Vec<u64>,
}

impl Dispatchable {
    pub open spec fn total_capacity_spec(&self) -> int {
        self.capacity as int * self.units as int
    }

    /// The same unit as `other`, whatever the loads.
    pub open spec fn same_unit(&self, other: Dispatchable) -> bool {
        &&& self.key == other.key
        &&& self.cost == other.cost
        &&& self.capacity == other.capacity
        &&& self.units == other.units
    }

    /// The load series has one entry for each frame of `horizon`.
    pub open spec fn spans(&self, horizon: int) -> bool {
        self.load@.len() == horizon
    }

    /// A unit with no load yet over the default horizon.
    pub fn new(key: String, cost: i64, capacity: u32, units: u32) -> (r: Dispatchable)
        ensures
            r.spans(HORIZON as int),
            r.key == key,
            r.cost == cost,
            r.capacity == capacity,
            r.units == units,
            forall|f: int| 0 <= f < HORIZON ==> r.load@[f] == 0,
    {
        Dispatchable::with_horizon(key, cost, capacity, units, HORIZON)
    }

    /// A unit with no load yet over `horizon` frames.
    pub fn with_horizon(key: String, cost: i64, capacity: u32, units: u32, horizon: usize) -> (r:
        Dispatchable)
        ensures
            r.spans(horizon as int),
            r.key == key,
            r.cost == cost,
            r.capacity == capacity,
            r.units == units,
            forall|f: int| 0 <= f < horizon ==> r.load@[f] == 0,
    {
        Dispatchable { key, cost, capacity, units, load: vec![0; horizon] }
    }

    pub fn total_capacity(&self) -> (r: u64)
        ensures
            r as int == self.total_capacity_spec(),
    {
        assert(0 <= self.capacity as int * self.units as int <= (u32::MAX as int) * (u32::MAX as int))
            by (nonlinear_arith);
        self.capacity as u64 * self.units as u64
    }

    /// Writes the load of one frame, refusing a frame outside the load series.
    pub fn set_load_at(&mut self, frame: usize, amount: u64) -> (r: Result<u64, LoadError>)
        ensures
            frame < old(self).load@.len() ==> r == Ok::<u64, LoadError>(amount) && final(self).load@
                == old(self).load@.update(frame as int, amount),
            frame >= old(self).load@.len() ==> r == Err::<u64, LoadError>(LoadError::FrameOutOfRange)
                && *final(self) == *old(self),
            final(self).key == old(self).key,
            final(self).cost == old(self).cost,
            final(self).capacity == old(self).capacity,
            final(self).units == old(self).units,
    {
        if frame >= self.load.len() {
            return Err(LoadError::FrameOutOfRange);
        }
        self.load[frame] = amount;
        Ok(amount)
    }

    pub fn load_at(&self, frame: usize) -> (r: u64)
        requires
            frame < self.load@.len(),
        ensures
            r == self.load@[frame as int],
    {
        self.load[frame]
    }
}

} // verus!
