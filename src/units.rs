use vstd::prelude::*;

verus! {

/// Ticks in one simulated minute: a tick is a thousandth of a minute.
pub const TICKS_PER_MINUTE: u64 = 1000;

/// Ticks in one simulated hour.
pub const TICKS_PER_HOUR: u64 = 60000;

} // verus!
