use vstd::prelude::*;
use crate::entities::Train;
use crate::units::TICKS_PER_HOUR;

verus! {

/// Running totals kept while the simulation runs.
#[derive(Clone, Copy, Debug, PartialEq, Eq, Structural)]
pub struct Statistics {
    /// Customers created.
    pub generated: u64,
    /// Customers who boarded a train.
    pub boarded: u64,
    /// Customers who left a train at their destination.
    pub departed: u64,
    /// Customers left waiting when a train of their direction departed,
    /// counted once per departure (saturating).
    pub missed: u64,
    /// Sum of the waiting times, in ticks, of all boarded customers.
    pub total_wait: u128,
    /// Longest waiting time seen, in ticks.
    pub max_wait: u64,
    /// Time at which the longest wait ended.
    pub max_wait_at: u64,
}

/// Sum of a sequence of integers.
pub open spec fn sum(s: Seq<int>) -> int
    decreases s.len(),
{
    if s.len() == 0 {
        0
    } else {
        sum(s.drop_last()) + s.last()
    }
}

/// Replacing one term changes the sum by the difference.
pub proof fn lemma_sum_update(s: Seq<int>, i: int, v: int)
    requires
        0 <= i < s.len(),
    ensures
        sum(s.update(i, v)) == sum(s) - s[i] + v,
    decreases s.len(),
{
    let u = s.update(i, v);
    if i == s.len() - 1 {
        assert(u.drop_last() =~= s.drop_last());
    } else {
        assert(u.drop_last() =~= s.drop_last().update(i, v));
        lemma_sum_update(s.drop_last(), i, v);
    }
}

/// A sum of non-negative terms is non-negative.
pub proof fn lemma_sum_nonneg(s: Seq<int>)
    requires
        forall|i: int| 0 <= i < s.len() ==> s[i] >= 0,
    ensures
        sum(s) >= 0,
    decreases s.len(),
{
    if s.len() > 0 {
        lemma_sum_nonneg(s.drop_last());
    }
}

/// A sum of non-negative terms is at least each of its terms.
pub proof fn lemma_sum_ge_term(s: Seq<int>, i: int)
    requires
        0 <= i < s.len(),
        forall|j: int| 0 <= j < s.len() ==> s[j] >= 0,
    ensures
        sum(s) >= s[i],
{
    lemma_sum_update(s, i, 0);
    lemma_sum_nonneg(s.update(i, 0));
}

/// The sum of a sequence of zeros.
pub proof fn lemma_sum_zeros(s: Seq<int>)
    requires
        forall|i: int| 0 <= i < s.len() ==> s[i] == 0,
    ensures
        sum(s) == 0,
    decreases s.len(),
{
    if s.len() > 0 {
        lemma_sum_zeros(s.drop_last());
    }
}

impl Statistics {
    /// Counts are ordered as the flow of customers orders them, and the
    /// total wait is at most the longest possible wait per boarding.
    pub open spec fn wf(&self) -> bool {
        &&& self.departed <= self.boarded <= self.generated
        &&& self.total_wait <= self.boarded * (u64::MAX as int)
    }

    pub open spec fn new_spec() -> Statistics {
        Statistics {
            generated: 0,
            boarded: 0,
            departed: 0,
            missed: 0,
            total_wait: 0,
            max_wait: 0,
            max_wait_at: 0,
        }
    }

    /// All totals zero.
    pub fn new() -> (r: Statistics)
        ensures
            r == Statistics::new_spec(),
    {
        Statistics {
            generated: 0,
            boarded: 0,
            departed: 0,
            missed: 0,
            total_wait: 0,
            max_wait: 0,
            max_wait_at: 0,
        }
    }

    /// The totals after one boarding at `now` after a wait of `wait` ticks.
    pub open spec fn after_boarding(self, wait: u64, now: u64) -> Statistics {
        Statistics {
            boarded: (self.boarded + 1) as u64,
            total_wait: (self.total_wait + wait) as u128,
            max_wait: if wait > self.max_wait {
                wait
            } else {
                self.max_wait
            },
            max_wait_at: if wait > self.max_wait {
                now
            } else {
                self.max_wait_at
            },
            ..self
        }
    }

    /// Records a boarding at `now` after a wait of `wait` ticks.
    pub fn record_boarding(&mut self, wait: u64, now: u64)
        requires
            old(self).wf(),
            old(self).boarded < old(self).generated,
        ensures
            final(self).wf(),
            *final(self) == old(self).after_boarding(wait, now),
    {
        proof {
            assert(self.total_wait + wait <= (self.boarded + 1) * (u64::MAX as int))
                by (nonlinear_arith)
                requires
                    self.total_wait <= self.boarded * (u64::MAX as int),
                    wait <= u64::MAX,
            ;
            assert((self.boarded + 1) * (u64::MAX as int) <= u64::MAX * (u64::MAX as int))
                by (nonlinear_arith)
                requires
                    self.boarded + 1 <= u64::MAX,
            ;
        }
        self.boarded = self.boarded + 1;
        self.total_wait = self.total_wait + wait as u128;
        if wait > self.max_wait {
            self.max_wait = wait;
            self.max_wait_at = now;
        }
    }
}

/// Scale of the percentages in a report: thousandths of a percent.
pub const PERCENT_SCALE: u64 = 100_000;

/// Mean occupancy of `t` over its samples, in thousandths of a percent of
/// its capacity.
pub open spec fn utilization(t: Train) -> int {
    (t.occupancy_sum * PERCENT_SCALE) as int / (t.samples * t.capacity) as int
}

/// Share of the samples of `t` in which it was full, in thousandths of a
/// percent.
pub open spec fn full_share(t: Train) -> int {
    (t.full_samples * PERCENT_SCALE) as int / t.samples as int
}

/// Largest occupancy of `t`, in thousandths of a percent of its capacity.
pub open spec fn peak(t: Train) -> int {
    (t.max_onboard * PERCENT_SCALE) as int / t.capacity as int
}

/// One for each train that was sampled.
pub open spec fn sampled_flags(ts: Seq<Train>) -> Seq<int> {
    ts.map_values(|t: Train| if t.samples > 0 { 1int } else { 0int })
}

/// The utilisation of each sampled train, zero for the others.
pub open spec fn utilizations(ts: Seq<Train>) -> Seq<int> {
    ts.map_values(|t: Train| if t.samples > 0 { utilization(t) } else { 0int })
}

/// The full share of each sampled train, zero for the others.
pub open spec fn full_shares(ts: Seq<Train>) -> Seq<int> {
    ts.map_values(|t: Train| if t.samples > 0 { full_share(t) } else { 0int })
}

/// Largest value of `s`, or 0 when it is empty.
pub open spec fn max_of(s: Seq<int>) -> int
    decreases s.len(),
{
    if s.len() == 0 {
        0
    } else {
        let m = max_of(s.drop_last());
        if s.last() > m {
            s.last()
        } else {
            m
        }
    }
}

/// The peak occupancy of each train.
pub open spec fn peaks(ts: Seq<Train>) -> Seq<int> {
    ts.map_values(|t: Train| peak(t))
}

/// What is reported at the end of a run. Averages over trains are taken
/// over the trains that were sampled at least once; a value that would
/// divide by zero is `None`.
#[derive(Clone, Copy, Debug, PartialEq, Eq, Structural)]
pub struct Report {
    pub generated: u64,
    pub boarded: u64,
    pub departed: u64,
    pub missed: u64,
    /// Mean wait of the boarded customers, in ticks.
    pub average_wait: Option<u64>,
    /// Longest wait, in ticks, and the time at which it ended.
    pub max_wait: u64,
    pub max_wait_at: u64,
    /// Departed customers per hour of simulated time, in thousandths.
    pub throughput: Option<u128>,
    /// Mean utilisation of the trains, in thousandths of a percent.
    pub average_utilization: Option<u64>,
    /// Largest occupancy of any train, in thousandths of a percent.
    pub max_utilization: Option<u64>,
    /// Mean share of samples in which a train was full, in thousandths of
    /// a percent.
    pub average_full: Option<u64>,
}

/// Sum of the first `i + 1` terms.
pub proof fn lemma_sum_take_succ(s: Seq<int>, i: int)
    requires
        0 <= i < s.len(),
    ensures
        sum(s.take(i + 1)) == sum(s.take(i)) + s[i],
{
    assert(s.take(i + 1).drop_last() =~= s.take(i));
}

/// Maximum of the first `i + 1` terms.
pub proof fn lemma_max_take_succ(s: Seq<int>, i: int)
    requires
        0 <= i < s.len(),
    ensures
        max_of(s.take(i + 1)) == if s[i] > max_of(s.take(i)) {
            s[i]
        } else {
            max_of(s.take(i))
        },
{
    assert(s.take(i + 1).drop_last() =~= s.take(i));
}

/// A share `x / y` of a whole, with `x <= y`, is at most the scale.
pub proof fn lemma_share_bounded(x: int, y: int)
    requires
        0 <= x <= y,
        0 < y,
    ensures
        0 <= (x * PERCENT_SCALE) / y <= PERCENT_SCALE,
{
    let p = PERCENT_SCALE as int;
    assert(x * p <= y * p) by (nonlinear_arith)
        requires
            x <= y,
            p > 0,
    ;
    assert(0 <= x * p) by (nonlinear_arith)
        requires
            x >= 0,
            p > 0,
    ;
    vstd::arithmetic::div_mod::lemma_div_is_ordered(x * p, y * p, y);
    vstd::arithmetic::div_mod::lemma_div_is_ordered(0, x * p, y);
    vstd::arithmetic::div_mod::lemma_div_by_multiple(p, y);
    assert(y * p == p * y) by (nonlinear_arith);
}

} // verus!
