use vstd::prelude::*;
use crate::units::TICKS_PER_HOUR;

verus! {

/// A station's baseline arrival rate is given in thousandths of a customer
/// per minute.
pub const BASELINE_SCALE: u64 = 1000;

/// An hourly demand multiplier is given in hundredths.
pub const MULTIPLIER_SCALE: u64 = 100;

/// A rate returned by `current_rate` is customers per minute times this
/// scale: the baseline scale, the multiplier scale and the ticks of an hour
/// over which the multiplier is interpolated.
pub const RATE_SCALE: u128 = 6_000_000_000;

/// The hourly multiplier table interpolated linearly at `time`, scaled by
/// the ticks of an hour: with `h` the hour and `f` the ticks into it,
/// `(HOUR - f) * table[h] + f * table[h + 1]`.
pub open spec fn interpolated(table: Seq<u32>, time: int) -> int {
    let hour = TICKS_PER_HOUR as int;
    let h = time / hour;
    let f = time % hour;
    (hour - f) * table[h] + f * table[h + 1]
}

/// The scaled arrival rate of a station with the given baseline at `time`.
pub open spec fn rate_at(baseline: int, table: Seq<u32>, time: int) -> int {
    baseline * interpolated(table, time)
}

/// The arrival rate at `time` of a station with baseline rate `baseline`,
/// in units of `1 / RATE_SCALE` customers per minute: the baseline times
/// the multiplier table interpolated linearly between the knots of the hour
/// that holds `time` and of the next hour.
pub fn current_rate(baseline: u32, table: &Vec<u32>, time: u64) -> (r: u128)
    requires
        time / TICKS_PER_HOUR + 1 < table@.len(),
    ensures
        r == rate_at(baseline as int, table@, time as int),
{
    let n = table.len();
    let hour = time / TICKS_PER_HOUR;
    assert(hour + 1 < n);
    let h = hour as usize;
    let f = time % TICKS_PER_HOUR;
    let a = table[h];
    let b = table[h + 1];
    let wa = (TICKS_PER_HOUR - f) as u128;
    let wf = f as u128;
    proof {
        assert(wa * a <= 60000 * 0xffff_ffff) by (nonlinear_arith)
            requires
                wa <= 60000,
                a <= 0xffff_ffff,
        ;
        assert(wf * b <= 60000 * 0xffff_ffff) by (nonlinear_arith)
            requires
                wf <= 60000,
                b <= 0xffff_ffff,
        ;
    }
    let weight = wa * a as u128 + wf * b as u128;
    proof {
        assert(baseline * weight <= 0xffff_ffff * (120000 * 0xffff_ffff)) by (nonlinear_arith)
            requires
                weight <= 120000 * 0xffff_ffff,
                baseline <= 0xffff_ffff,
        ;
    }
    assert(h == time as int / TICKS_PER_HOUR as int);
    assert(f == time as int % TICKS_PER_HOUR as int);
    assert(a == table@[h as int] && b == table@[h + 1]);
    assert(weight == interpolated(table@, time as int));
    baseline as u128 * weight
}

/// Half way through any hour, the rate is the baseline times the mean of
/// the multipliers of that hour and the next.
pub proof fn lemma_midpoint_rate(baseline: u32, table: Seq<u32>, hour: nat)
    requires
        hour + 1 < table.len(),
    ensures
        2 * rate_at(baseline as int, table, hour * TICKS_PER_HOUR + TICKS_PER_HOUR / 2) == baseline
            * (table[hour as int] + table[hour + 1int]) * TICKS_PER_HOUR,
{
    let t = hour * TICKS_PER_HOUR + TICKS_PER_HOUR / 2;
    assert(t / (TICKS_PER_HOUR as int) == hour) by (nonlinear_arith)
        requires
            t == hour * 60000 + 30000,
    ;
    assert(t % (TICKS_PER_HOUR as int) == 30000) by (nonlinear_arith)
        requires
            t == hour * 60000 + 30000,
    ;
    let a = table[hour as int] as int;
    let b = table[hour + 1int] as int;
    assert(2 * (baseline * (30000 * a + 30000 * b)) == baseline * (a + b) * 60000)
        by (nonlinear_arith);
}

} // verus!
