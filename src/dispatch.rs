use vstd::prelude::*;
use crate::config::ConfigError;
use crate::units::TICKS_PER_HOUR;

verus! {

/// Headway of the constant policy when none is given: six minutes.
pub const DEFAULT_HEADWAY: u64 = 6000;

/// The dispatch policies that can be asked for by name.
#[derive(Clone, Copy, Debug, PartialEq, Eq, Structural)]
pub enum PolicyKind {
    /// A fixed headway.
    Constant,
    /// A headway from the time of day plus an offset: not supported.
    TimeBased,
    /// A headway scaled by the waiting population: not supported.
    PopBased,
    /// A headway looked up in an hourly calendar.
    EmpiricalCalendar,
}

/// How long to wait, after releasing a train, before the next release in
/// the same direction.
#[derive(Debug)]
pub enum DispatchPolicy {
    /// The same headway, in ticks, all day.
    Constant(u64),
    /// One headway in ticks for each hour of the day, not interpolated.
    EmpiricalCalendar(Vec<u64>),
}

impl DispatchPolicy {
    /// Every headway is positive and the calendar covers the hour that
    /// holds the horizon.
    pub open spec fn wf(&self, horizon: u64) -> bool {
        match self {
            DispatchPolicy::Constant(h) => *h > 0,
            DispatchPolicy::EmpiricalCalendar(table) => {
                &&& horizon / TICKS_PER_HOUR < table@.len()
                &&& forall|i: int| 0 <= i < table@.len() ==> table@[i] > 0
            },
        }
    }

    /// The delay to the next release when one is made at `time`: the
    /// calendar is read at the hour of `time` clamped to `[0, horizon]`.
    pub open spec fn delay_at(&self, time: u64, horizon: u64) -> u64 {
        match self {
            DispatchPolicy::Constant(h) => *h,
            DispatchPolicy::EmpiricalCalendar(table) => {
                let t = if time < horizon {
                    time
                } else {
                    horizon
                };
                table@[(t / TICKS_PER_HOUR) as int]
            },
        }
    }

    /// Builds the policy of the given kind. The constant policy takes
    /// `parameter` as its headway, or `DEFAULT_HEADWAY` when there is none;
    /// the calendar policy takes `calendar` and ignores `parameter`.
    pub fn configure(kind: PolicyKind, parameter: Option<u64>, calendar: Vec<u64>) -> (r: Result<
        DispatchPolicy,
        ConfigError,
    >)
        ensures
            kind == PolicyKind::Constant ==> {
                let h = match parameter {
                    Some(p) => p,
                    None => DEFAULT_HEADWAY,
                };
                &&& h > 0 ==> (r matches Ok(DispatchPolicy::Constant(x)) && x == h)
                &&& h == 0 ==> r == Err::<DispatchPolicy, ConfigError>(ConfigError::ZeroHeadway)
            },
            kind == PolicyKind::TimeBased || kind == PolicyKind::PopBased ==> r == Err::<
                DispatchPolicy,
                ConfigError,
            >(ConfigError::UnsupportedPolicy),
            kind == PolicyKind::EmpiricalCalendar ==> (r matches Ok(
                DispatchPolicy::EmpiricalCalendar(t),
            ) && t@ == calendar@),
    {
        match kind {
            PolicyKind::Constant => {
                let h = match parameter {
                    Some(p) => p,
                    None => DEFAULT_HEADWAY,
                };
                if h > 0 {
                    Ok(DispatchPolicy::Constant(h))
                } else {
                    Err(ConfigError::ZeroHeadway)
                }
            },
            PolicyKind::TimeBased => Err(ConfigError::UnsupportedPolicy),
            PolicyKind::PopBased => Err(ConfigError::UnsupportedPolicy),
            PolicyKind::EmpiricalCalendar => Ok(DispatchPolicy::EmpiricalCalendar(calendar)),
        }
    }

    /// The delay before the next release in the same direction, for a
    /// release made at `time`.
    pub fn release_delay(&self, time: u64, horizon: u64) -> (r: u64)
        requires
            self.wf(horizon),
        ensures
            r == self.delay_at(time, horizon),
            r > 0,
    {
        match self {
            DispatchPolicy::Constant(h) => *h,
            DispatchPolicy::EmpiricalCalendar(table) => {
                let t = if time < horizon {
                    time
                } else {
                    horizon
                };
                assert(t / TICKS_PER_HOUR <= horizon / TICKS_PER_HOUR) by (nonlinear_arith)
                    requires
                        t <= horizon,
                ;
                let n = table.len();
                let idx = t / TICKS_PER_HOUR;
                assert(idx < n);
                table[idx as usize]
            },
        }
    }
}

} // verus!
