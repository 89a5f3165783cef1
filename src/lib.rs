use vstd::prelude::*;

pub mod participants;
pub mod calculate;
pub mod order;
pub mod reserve;

verus! {

/// Number of frames (hours) in one calculated year.
pub const HORIZON: usize = 8760;

} // verus!
