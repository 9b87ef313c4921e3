use vstd::prelude::*;

verus! {

/// Refractive indices of common media, in ticks.
pub const AIR: i64 = 1_000_290_000;

pub const GLASS: i64 = 1_520_000_000;

pub const DIAMOND: i64 = 2_417_000_000;

pub const VACUUM: i64 = 1_000_000_000;

pub const DEFAULT: i64 = 1_000_000_000;

} // verus!
