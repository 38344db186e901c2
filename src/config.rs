use vstd::prelude::*;
use crate::dispatch::DispatchPolicy;
use crate::units::TICKS_PER_HOUR;

verus! {

/// Why a configuration was refused.
#[derive(Clone, Copy, Debug, PartialEq, Eq, Structural)]
pub enum ConfigError {
    /// The dispatch policy asked for has no rule.
    UnsupportedPolicy,
    /// A headway of zero would release trains without time passing.
    ZeroHeadway,
    /// A line needs at least two stations.
    TooFewStations,
    /// There must be one travel time for each pair of neighbouring stations.
    TravelTimeCount,
    /// There must be one baseline rate for each station.
    BaselineCount,
    /// A train must have room for at least one rider.
    ZeroCapacity,
    /// The demand table must have a knot at each hour boundary up to the
    /// horizon and one after it.
    DemandTableTooShort,
    /// The dispatch calendar must cover the hour that holds the horizon.
    CalendarTooShort,
}

/// Everything a run is built from. Times are in ticks.
#[derive(Debug)]
pub struct Config {
    pub line_name: String,
    /// Station names from west to east.
    pub station_names: Vec<String>,
    /// Travel time of each segment between neighbouring stations.
    pub travel_times: Vec<u64>,
    /// Baseline arrival rate of each station, in thousandths of a customer
    /// per minute.
    pub baselines: Vec<u32>,
    /// Demand multiplier, in hundredths, at each hour boundary.
    pub demand: Vec<u32>,
    /// Number of trains.
    pub trains: usize,
    /// Riders each train can carry.
    pub capacity: u32,
    /// Time a train stands at a station, and takes from release to its
    /// first arrival.
    pub dwell: u64,
    /// Time at which the run ends.
    pub horizon: u64,
    /// Time of the first customer arrival at every station.
    pub first_arrival: u64,
    pub policy: DispatchPolicy,
}

/// The first thing wrong with `c`, checked in the order of the variants
/// below, or `None` when it can be run.
pub open spec fn config_error(c: Config) -> Option<ConfigError> {
    let n = c.station_names@.len();
    if n < 2 {
        Some(ConfigError::TooFewStations)
    } else if c.travel_times@.len() != n - 1 {
        Some(ConfigError::TravelTimeCount)
    } else if c.baselines@.len() != n {
        Some(ConfigError::BaselineCount)
    } else if c.capacity == 0 {
        Some(ConfigError::ZeroCapacity)
    } else if c.demand@.len() < 2 || c.horizon > (c.demand@.len() - 1) * TICKS_PER_HOUR {
        Some(ConfigError::DemandTableTooShort)
    } else {
        match c.policy {
            DispatchPolicy::Constant(h) => if h == 0 {
                Some(ConfigError::ZeroHeadway)
            } else {
                None
            },
            DispatchPolicy::EmpiricalCalendar(t) => if c.horizon / TICKS_PER_HOUR >= t@.len() {
                Some(ConfigError::CalendarTooShort)
            } else if exists|i: int| 0 <= i < t@.len() && t@[i] == 0 {
                Some(ConfigError::ZeroHeadway)
            } else {
                None
            },
        }
    }
}

/// Whether every entry of `t` is positive.
fn all_positive(t: &Vec<u64>) -> (r: bool)
    ensures
        r == (forall|i: int| 0 <= i < t@.len() ==> t@[i] != 0),
{
    let mut i: usize = 0;
    while i < t.len()
        invariant
            0 <= i <= t@.len(),
            forall|j: int| 0 <= j < i ==> t@[j] != 0,
        decreases t@.len() - i,
    {
        if t[i] == 0 {
            return false;
        }
        i += 1;
    }
    true
}

/// Checks `c`, returning the error that `config_error` names.
pub fn validate(c: &Config) -> (r: Result<(), ConfigError>)
    ensures
        r matches Ok(_) <==> config_error(*c) is None,
        r matches Err(e) ==> config_error(*c) == Some(e),
{
    let n = c.station_names.len();
    if n < 2 {
        return Err(ConfigError::TooFewStations);
    }
    if c.travel_times.len() != n - 1 {
        return Err(ConfigError::TravelTimeCount);
    }
    if c.baselines.len() != n {
        return Err(ConfigError::BaselineCount);
    }
    if c.capacity == 0 {
        return Err(ConfigError::ZeroCapacity);
    }
    let d = c.demand.len();
    if d == 0 {
        return Err(ConfigError::DemandTableTooShort);
    }
    assert((d - 1) * 60000 <= 0xffff_ffff_ffff_ffff * 60000) by (nonlinear_arith)
        requires
            1 <= d <= 0xffff_ffff_ffff_ffff,
    ;
    if d < 2 || c.horizon as u128 > (d as u128 - 1) * TICKS_PER_HOUR as u128 {
        return Err(ConfigError::DemandTableTooShort);
    }
    match &c.policy {
        DispatchPolicy::Constant(h) => {
            if *h == 0 {
                return Err(ConfigError::ZeroHeadway);
            }
        },
        DispatchPolicy::EmpiricalCalendar(t) => {
            if c.horizon / TICKS_PER_HOUR >= t.len() as u64 {
                return Err(ConfigError::CalendarTooShort);
            }
            if !all_positive(t) {
                return Err(ConfigError::ZeroHeadway);
            }
        },
    }
    Ok(())
}

} // verus!
