use vstd::prelude::*;
use vstd::multiset::Multiset;
use std::collections::VecDeque;
use crate::dispatch::DispatchPolicy;
use crate::entities::{staying, travel_direction, waits_at, Customer, Direction, Station, Train};
use crate::events::{Event, EventQueue, Scheduled};
use crate::line::{next_station, segment, Line};
use crate::stats::{
    full_shares, lemma_max_take_succ, lemma_share_bounded, lemma_sum_ge_term, lemma_sum_take_succ,
    lemma_sum_update, lemma_sum_zeros, max_of, peaks, sampled_flags, sum, utilizations, Report,
    Statistics, PERCENT_SCALE,
};
use crate::config::{config_error, validate, Config, ConfigError};
use crate::units::TICKS_PER_HOUR;
use crate::demand::rate_at;
use crate::random::draw_destination;
use rand_chacha::ChaCha8Rng;

verus! {

/// `a + b`, or `u64::MAX` when that does not fit.
pub open spec fn sat_add(a: u64, b: u64) -> u64 {
    if a + b > u64::MAX {
        u64::MAX
    } else {
        (a + b) as u64
    }
}

/// Rider counts of the trains, in order.
pub open spec fn onboard_counts(ts: Seq<Train>) -> Seq<int> {
    ts.map_values(|t: Train| t.onboard@.len() as int)
}

/// Waiting counts of the stations, in order.
pub open spec fn waiting_counts(ss: Seq<Station>) -> Seq<int> {
    ss.map_values(|s: Station| s.waiting())
}

/// A rider of a train going in direction `dir`, at or heading to `at`, has
/// not yet passed its destination: while the train stands at a station the
/// destination lies strictly ahead.
pub open spec fn rider_ahead(c: Customer, dir: Direction, at: int, in_motion: bool) -> bool {
    match dir {
        Direction::East => if in_motion {
            c.destination >= at
        } else {
            c.destination > at
        },
        Direction::West => if in_motion {
            c.destination <= at
        } else {
            c.destination < at
        },
    }
}

/// A staged train is empty; an active train standing at a station is not
/// at the terminal it travels towards; every rider's destination is a
/// station ahead.
pub open spec fn on_route(t: Train, n: int) -> bool {
    &&& !t.active ==> t.onboard@.len() == 0
    &&& t.active && !t.in_motion ==> 0 <= segment(t.direction, t.at_station as int) < n - 1
    &&& forall|k: int|
        0 <= k < t.onboard@.len() ==> {
            &&& rider_ahead(#[trigger] t.onboard@[k], t.direction, t.at_station as int, t.in_motion)
            &&& t.onboard@[k].destination < n
        }
}

/// Station `s` is the terminal that a train in direction `dir` travels
/// towards.
pub open spec fn at_terminal(dir: Direction, s: int, n: int) -> bool {
    !(0 <= segment(dir, s) < n - 1)
}

/// The terminal a train released in direction `dir` starts from.
pub open spec fn start_station(dir: Direction, n: int) -> int {
    match dir {
        Direction::East => 0,
        Direction::West => n - 1,
    }
}

/// `riders` as they board at `now`: each gets `now` as its boarding time.
pub open spec fn board_all(riders: Seq<Customer>, now: u64) -> Seq<Customer> {
    riders.map_values(|c: Customer| Customer { boarded_at: Some(now), ..c })
}

/// How long `c` waited when boarding at `now`.
pub open spec fn boarding_wait(c: Customer, now: u64) -> u64 {
    if c.arrival <= now {
        (now - c.arrival) as u64
    } else {
        0
    }
}

/// The totals after `riders`, in order, board at `now`.
pub open spec fn boarded_stats(st: Statistics, riders: Seq<Customer>, now: u64) -> Statistics
    decreases riders.len(),
{
    if riders.len() == 0 {
        st
    } else {
        boarded_stats(st, riders.drop_last(), now).after_boarding(
            boarding_wait(riders.last(), now),
            now,
        )
    }
}

/// How many of `waiting` customers board a train with `room` free places.
pub open spec fn boarding_count(waiting: int, room: int) -> int {
    if waiting < room {
        waiting
    } else {
        room
    }
}

/// Boards customers from the front of `queue` onto `train` at `now`, in
/// order, until the queue is empty or the train is full; each boarding is
/// recorded in `stats`. Returns how many boarded.
pub fn board(queue: &mut VecDeque<Customer>, train: &mut Train, stats: &mut Statistics, now: u64) -> (k: usize)
    requires
        old(train).onboard@.len() <= old(train).capacity,
        old(stats).wf(),
        old(stats).boarded + old(queue)@.len() <= old(stats).generated,
    ensures
        k == boarding_count(old(queue)@.len() as int, old(train).capacity - old(train).onboard@.len()),
        final(queue)@ == old(queue)@.skip(k as int),
        final(train).onboard@ == old(train).onboard@ + board_all(old(queue)@.take(k as int), now),
        *final(train) == (Train { onboard: final(train).onboard, ..*old(train) }),
        *final(stats) == boarded_stats(*old(stats), old(queue)@.take(k as int), now),
        final(stats).wf(),
{
    let ghost q0 = queue@;
    let ghost t0 = train.onboard@;
    let ghost s0 = *stats;
    let mut k: usize = 0;
    while train.has_capacity() && queue.len() > 0
        invariant
            0 <= k <= q0.len(),
            queue@ == q0.skip(k as int),
            train.onboard@ == t0 + board_all(q0.take(k as int), now),
            train.onboard@.len() <= train.capacity,
            *train == (Train { onboard: train.onboard, ..*old(train) }),
            *stats == boarded_stats(s0, q0.take(k as int), now),
            stats.wf(),
            stats.boarded == s0.boarded + k,
            s0.boarded + q0.len() <= s0.generated,
            stats.generated == s0.generated,
        decreases queue@.len(),
    {
        let ghost q_before = queue@;
        let c = queue.pop_front().unwrap();
        assert(c == q0[k as int]);
        let wait = now.saturating_sub(c.arrival);
        stats.record_boarding(wait, now);
        train.onboard.push(Customer { boarded_at: Some(now), ..c });
        proof {
            assert(q0.take(k + 1) =~= q0.take(k as int).push(c));
            assert(q0.take(k + 1).drop_last() =~= q0.take(k as int));
            assert(board_all(q0.take(k + 1), now) =~= board_all(q0.take(k as int), now).push(
                Customer { boarded_at: Some(now), ..c },
            ));
            assert(queue@ =~= q0.skip(k + 1));
        }
        k = k + 1;
    }
    k
}

/// The events pending at the start of a run on a line of `stations`
/// stations: a release in each direction at time 0, the end of the run at
/// `horizon`, and the first customer arrival at each station at `first`.
pub open spec fn initial_events(stations: nat, horizon: u64, first: u64) -> Multiset<Scheduled>
    decreases stations,
{
    if stations == 0 {
        Multiset::empty().insert(
            Scheduled { time: 0, event: Event::TrainRelease(Direction::East) },
        ).insert(Scheduled { time: 0, event: Event::TrainRelease(Direction::West) }).insert(
            Scheduled { time: horizon, event: Event::Sentinel },
        )
    } else {
        initial_events((stations - 1) as nat, horizon, first).insert(
            Scheduled { time: first, event: Event::CustomerArrival((stations - 1) as usize) },
        )
    }
}

/// The initial events hold the end of the run.
pub proof fn lemma_initial_events_contain_end(stations: nat, horizon: u64, first: u64)
    ensures
        initial_events(stations, horizon, first).count(
            Scheduled { time: horizon, event: Event::Sentinel },
        ) > 0,
    decreases stations,
{
    broadcast use vstd::multiset::group_multiset_properties;

    if stations > 0 {
        lemma_initial_events_contain_end((stations - 1) as nat, horizon, first);
    }
}

/// Even-numbered trains start in the eastward pool.
pub open spec fn initial_east_pool(trains: nat) -> Seq<usize> {
    Seq::new((trains + 1) / 2, |i: int| (2 * i) as usize)
}

/// Odd-numbered trains start in the westward pool.
pub open spec fn initial_west_pool(trains: nat) -> Seq<usize> {
    Seq::new(trains / 2, |i: int| (2 * i + 1) as usize)
}

/// The whole state of a run: the line, the trains, the pending events, the
/// clock, the totals and the dispatch policy.
#[derive(Debug)]
pub struct Simulation {
    pub line: Line,
    pub trains: Vec<Train>,
    pub queue: EventQueue,
    /// Current simulated time, in ticks.
    pub clock: u64,
    /// Time at which the run ends.
    pub horizon: u64,
    /// Time a train spends at a station, and between its release and its
    /// first arrival.
    pub dwell: u64,
    pub stats: Statistics,
    pub policy: DispatchPolicy,
}

impl Simulation {
    pub open spec fn n(&self) -> int {
        self.line.n()
    }

    /// The pool of trains waiting for release in direction `dir`.
    pub open spec fn pool(&self, dir: Direction) -> Seq<usize> {
        match dir {
            Direction::East => self.line.east_pool@,
            Direction::West => self.line.west_pool@,
        }
    }

    /// Each staged train is in exactly one pool, once, and a train is
    /// staged exactly when it is inactive.
    pub open spec fn pools_ok(&self) -> bool {
        let e = self.line.east_pool@;
        let w = self.line.west_pool@;
        let nt = self.trains@.len();
        &&& e.no_duplicates()
        &&& w.no_duplicates()
        &&& forall|i: int| 0 <= i < e.len() ==> #[trigger] e[i] < nt && !w.contains(e[i])
        &&& forall|i: int| 0 <= i < w.len() ==> #[trigger] w[i] < nt
        &&& forall|t: usize|
            t < nt ==> (!(#[trigger] self.trains@[t as int]).active <==> (e.contains(t) || w.contains(
                t,
            )))
    }

    /// The event that ends the run.
    pub open spec fn end_of_run(&self) -> Scheduled {
        Scheduled { time: self.horizon, event: Event::Sentinel }
    }

    /// Every train is consistent with the line.
    pub open spec fn trains_ok(&self) -> bool {
        forall|t: int|
            0 <= t < self.trains@.len() ==> (#[trigger] self.trains@[t]).wf(self.n() as nat)
                && on_route(self.trains@[t], self.n())
    }

    /// The invariant of a run.
    pub open spec fn wf(&self) -> bool {
        &&& self.line.wf()
        &&& self.line.demand@.len() >= 2
        &&& self.horizon <= (self.line.demand@.len() - 1) * TICKS_PER_HOUR
        &&& self.policy.wf(self.horizon)
        &&& self.queue.wf()
        &&& forall|i: int| 0 <= i < self.queue@.len() ==> #[trigger] self.queue@[i].time >= self.clock
        &&& self.clock < self.horizon ==> self.queue@.contains(self.end_of_run())
        &&& self.trains_ok()
        &&& self.pools_ok()
        &&& self.stats.wf()
        &&& self.stats.boarded - self.stats.departed == sum(onboard_counts(self.trains@))
        &&& self.stats.generated - self.stats.boarded == sum(waiting_counts(self.line.stations@))
    }

    /// Builds a run from `config`: the line with empty station queues, the
    /// staged trains (even-numbered ones eastward, odd-numbered ones
    /// westward), the clock at 0, all totals at 0, and the initial events.
    /// Fails with the error that `config_error` names.
    pub fn new(config: Config) -> (r: Result<Simulation, ConfigError>)
        ensures
            r matches Ok(_) <==> config_error(config) is None,
            r matches Err(e) ==> config_error(config) == Some(e),
            r matches Ok(sim) ==> {
                &&& sim.wf()
                &&& sim.clock == 0
                &&& sim.horizon == config.horizon
                &&& sim.dwell == config.dwell
                &&& sim.policy == config.policy
                &&& sim.stats == Statistics::new_spec()
                &&& sim.line.name == config.line_name
                &&& sim.line.stations@.len() == config.station_names@.len()
                &&& forall|s: int|
                    0 <= s < sim.line.stations@.len() ==> {
                        &&& (#[trigger] sim.line.stations@[s]).name == config.station_names@[s]
                        &&& sim.line.stations@[s].baseline == config.baselines@[s]
                        &&& sim.line.stations@[s].east_queue@.len() == 0
                        &&& sim.line.stations@[s].west_queue@.len() == 0
                    }
                &&& sim.line.travel_times@ == config.travel_times@
                &&& sim.line.demand@ == config.demand@
                &&& sim.trains@.len() == config.trains
                &&& forall|t: int|
                    0 <= t < sim.trains@.len() ==> {
                        &&& (#[trigger] sim.trains@[t]).id == t
                        &&& sim.trains@[t].capacity == config.capacity
                        &&& !sim.trains@[t].active
                        &&& !sim.trains@[t].in_motion
                        &&& sim.trains@[t].at_station == 0
                        &&& sim.trains@[t].onboard@.len() == 0
                        &&& sim.trains@[t].samples == 0
                        &&& sim.trains@[t].occupancy_sum == 0
                        &&& sim.trains@[t].max_onboard == 0
                        &&& sim.trains@[t].full_samples == 0
                    }
                &&& sim.line.east_pool@ == initial_east_pool(config.trains as nat)
                &&& sim.line.west_pool@ == initial_west_pool(config.trains as nat)
                &&& sim.queue@.to_multiset() == initial_events(
                    config.station_names@.len(),
                    config.horizon,
                    config.first_arrival,
                )
            },
    {
        match validate(&config) {
            Err(e) => {
                return Err(e);
            },
            Ok(_) => {},
        }
        let mut line = Line::new(
            config.line_name,
            &config.station_names,
            config.travel_times,
            &config.baselines,
            config.demand,
        );
        let count = config.trains;
        let mut east_pool: VecDeque<usize> = VecDeque::new();
        let mut west_pool: VecDeque<usize> = VecDeque::new();
        let mut trains: Vec<Train> = Vec::new();
        let mut i: usize = 0;
        while i < count
            invariant
                0 <= i <= count,
                trains@.len() == i,
                forall|t: int|
                    0 <= t < i ==> {
                        &&& (#[trigger] trains@[t]).id == t
                        &&& trains@[t].capacity == config.capacity
                        &&& !trains@[t].active
                        &&& !trains@[t].in_motion
                        &&& trains@[t].at_station == 0
                        &&& trains@[t].direction == Direction::East
                        &&& trains@[t].onboard@.len() == 0
                        &&& trains@[t].samples == 0
                        &&& trains@[t].occupancy_sum == 0
                        &&& trains@[t].max_onboard == 0
                        &&& trains@[t].full_samples == 0
                    },
                east_pool@ == initial_east_pool(i as nat),
                west_pool@ == initial_west_pool(i as nat),
            decreases count - i,
        {
            trains.push(Train::new(i, config.capacity));
            if i % 2 == 0 {
                east_pool.push_back(i);
            } else {
                west_pool.push_back(i);
            }
            proof {
                assert(east_pool@ =~= initial_east_pool((i + 1) as nat));
                assert(west_pool@ =~= initial_west_pool((i + 1) as nat));
            }
            i += 1;
        }
        line.east_pool = east_pool;
        line.west_pool = west_pool;
        let mut queue = EventQueue::new();
        proof {
            broadcast use vstd::seq_lib::group_to_multiset_ensures, vstd::multiset::lemma_multiset_empty_len;

            assert(queue@.to_multiset() =~= Multiset::empty());
        }
        queue.schedule(Event::TrainRelease(Direction::East), 0);
        queue.schedule(Event::TrainRelease(Direction::West), 0);
        queue.schedule(Event::Sentinel, config.horizon);
        let n = line.length();
        let mut s: usize = 0;
        while s < n
            invariant
                0 <= s <= n,
                queue.wf(),
                queue@.to_multiset() == initial_events(s as nat, config.horizon, config.first_arrival),
            decreases n - s,
        {
            queue.schedule(Event::CustomerArrival(s), config.first_arrival);
            s += 1;
        }
        let sim = Simulation {
            line,
            trains,
            queue,
            clock: 0,
            horizon: config.horizon,
            dwell: config.dwell,
            stats: Statistics::new(),
            policy: config.policy,
        };
        proof {
            let e = sim.line.east_pool@;
            let w = sim.line.west_pool@;
            assert forall|s: int| 0 <= s < sim.line.n() implies #[trigger] sim.line.stations@[s].wf(
                s,
                sim.line.n(),
            ) by {}
            assert(sim.trains_ok());
            assert forall|a: int, b: int| 0 <= a < e.len() && 0 <= b < e.len() && a != b implies e[a]
                != e[b] by {}
            assert forall|a: int, b: int| 0 <= a < w.len() && 0 <= b < w.len() && a != b implies w[a]
                != w[b] by {}
            assert forall|a: int| 0 <= a < e.len() implies #[trigger] e[a] < sim.trains@.len()
                && !w.contains(e[a]) by {
                if w.contains(e[a]) {
                    let b = choose|b: int| 0 <= b < w.len() && w[b] == e[a];
                }
            }
            assert forall|t: usize| t < sim.trains@.len() implies (!(
            #[trigger] sim.trains@[t as int]).active <==> (e.contains(t) || w.contains(t))) by {
                if t % 2 == 0 {
                    assert(e[(t / 2) as int] == t);
                } else {
                    assert(w[(t / 2) as int] == t);
                }
            }
            assert(sim.pools_ok());
            lemma_sum_zeros(onboard_counts(sim.trains@));
            lemma_sum_zeros(waiting_counts(sim.line.stations@));
            assert forall|i: int| 0 <= i < sim.queue@.len() implies #[trigger] sim.queue@[i].time
                >= sim.clock by {}
            lemma_initial_events_contain_end(n as nat, config.horizon, config.first_arrival);
            broadcast use vstd::seq_lib::group_to_multiset_ensures;

            assert(sim.queue@.contains(sim.end_of_run()));
        }
        Ok(sim)
    }

    /// Schedules `event` after `delay` ticks (at `u64::MAX` when that does
    /// not fit).
    fn schedule_in(&mut self, event: Event, delay: u64)
        requires
            old(self).queue.wf(),
            forall|i: int|
                0 <= i < old(self).queue@.len() ==> #[trigger] old(self).queue@[i].time >= old(
                    self,
                ).clock,
        ensures
            final(self).queue.wf(),
            forall|i: int|
                0 <= i < final(self).queue@.len() ==> #[trigger] final(self).queue@[i].time
                    >= final(self).clock,
            final(self).queue@.to_multiset() == old(self).queue@.to_multiset().insert(
                Scheduled { time: sat_add(old(self).clock, delay), event },
            ),
            *final(self) == (Simulation { queue: final(self).queue, ..*old(self) }),
            forall|e: Scheduled| old(self).queue@.contains(e) ==> final(self).queue@.contains(e),
    {
        let time = self.clock.saturating_add(delay);
        let ghost before = self.queue@;
        self.queue.schedule(event, time);
        assert forall|i: int| 0 <= i < self.queue@.len() implies #[trigger] self.queue@[i].time
            >= self.clock by {
            if self.queue@[i] != (Scheduled { time, event }) {
                let j = choose|j: int| 0 <= j < before.len() && before[j] == self.queue@[i];
                assert(before[j].time >= self.clock);
            }
        }
        proof {
            broadcast use vstd::seq_lib::group_to_multiset_ensures;

            assert forall|e: Scheduled| before.contains(e) implies self.queue@.contains(e) by {
                assert(before.to_multiset().count(e) > 0);
                vstd::multiset::lemma_insert_non_decreasing(
                    before.to_multiset(),
                    Scheduled { time, event },
                    e,
                );
                assert(self.queue@.to_multiset().count(e) > 0);
            }
        }
    }

    /// Pops the event due first and advances the clock to its time. Returns
    /// it while that time is before the horizon; returns `None` once the
    /// horizon has been reached, which ends the run. The queue never runs
    /// dry before the horizon: the end-of-run event stays pending until
    /// then.
    pub fn pop_event(&mut self) -> (r: Option<Event>)
        requires
            old(self).wf(),
        ensures
            final(self).wf(),
            final(self).clock >= old(self).clock,
            r is None ==> final(self).clock >= final(self).horizon,
            old(self).queue@.len() == 0 ==> r is None && *final(self) == *old(self),
            old(self).queue@.len() > 0 ==> {
                let next = old(self).queue@.last();
                &&& final(self).clock == next.time
                &&& final(self).queue@ == old(self).queue@.drop_last()
                &&& *final(self) == (Simulation {
                    queue: final(self).queue,
                    clock: next.time,
                    ..*old(self)
                })
                &&& r == if next.time < old(self).horizon {
                    Some(next.event)
                } else {
                    None
                }
            },
    {
        match self.queue.pop_next() {
            None => None,
            Some(next) => {
                proof {
                    broadcast use vstd::seq_lib::group_to_multiset_ensures;

                    let q0 = old(self).queue@;
                    let sentinel = old(self).end_of_run();
                    if next.time < self.horizon && q0.contains(sentinel) {
                        assert(next != sentinel);
                        assert(q0.to_multiset().count(sentinel) > 0);
                        assert(self.queue@.to_multiset() == q0.to_multiset().remove(next));
                        assert(self.queue@.to_multiset().count(sentinel) > 0);
                    }
                }
                self.clock = next.time;
                if next.time < self.horizon {
                    Some(next.event)
                } else {
                    None
                }
            },
        }
    }

    /// The effect of `release_train(dir)`.
    pub open spec fn released(old_self: Simulation, new_self: Simulation, dir: Direction) -> bool {
        &&& ({
            let next_release = Scheduled {
                time: sat_add(old_self.clock, old_self.policy.delay_at(old_self.clock, old_self.horizon)),
                event: Event::TrainRelease(dir),
            };
            let pool = old_self.pool(dir);
            if pool.len() == 0 {
                &&& new_self.trains == old_self.trains
                &&& new_self.line == old_self.line
                &&& new_self.queue@.to_multiset() == old_self.queue@.to_multiset().insert(next_release)
            } else {
                let t = pool[0];
                let start = start_station(dir, old_self.n());
                &&& new_self.trains@ == old_self.trains@.update(
                    t as int,
                    Train {
                        active: true,
                        in_motion: false,
                        direction: dir,
                        at_station: start as usize,
                        ..old_self.trains@[t as int]
                    },
                )
                &&& new_self.pool(dir) == pool.drop_first()
                &&& new_self.pool(dir.opposite_spec()) == old_self.pool(dir.opposite_spec())
                &&& new_self.line == (Line {
                    east_pool: new_self.line.east_pool,
                    west_pool: new_self.line.west_pool,
                    ..old_self.line
                })
                &&& new_self.queue@.to_multiset() == old_self.queue@.to_multiset().insert(
                    Scheduled {
                        time: sat_add(old_self.clock, old_self.dwell),
                        event: Event::TrainArrival(t, start as usize),
                    },
                ).insert(next_release)
            }
        })
        &&& new_self.clock == old_self.clock
        &&& new_self.horizon == old_self.horizon
        &&& new_self.dwell == old_self.dwell
        &&& new_self.stats == old_self.stats
        &&& new_self.policy == old_self.policy
    }

    /// Handles a release in direction `dir`: the first train of that
    /// direction's pool, if any, becomes active at the starting terminal
    /// and is due there after the dwell time; in every case the next
    /// release in `dir` is scheduled after the policy's delay.
    pub fn release_train(&mut self, dir: Direction)
        requires
            old(self).wf(),
        ensures
            final(self).wf(),
            Self::released(*old(self), *final(self), dir),
    {
        let n = self.line.length();
        let ghost old_self = *self;
        let popped = match dir {
            Direction::East => self.line.release_eastward(),
            Direction::West => self.line.release_westward(),
        };
        match popped {
            Some(t) => {
                let ghost e = old_self.line.east_pool@;
                let ghost w = old_self.line.west_pool@;
                assert(t < self.trains@.len());
                assert(!old_self.trains@[t as int].active);
                let start: usize = match dir {
                    Direction::East => 0,
                    Direction::West => n - 1,
                };
                assert(dir == Direction::East ==> e[0] == t);
                assert(dir == Direction::West ==> w[0] == t);
                self.trains[t].active = true;
                self.trains[t].in_motion = false;
                self.trains[t].direction = dir;
                self.trains[t].at_station = start;
                proof {
                    assert(onboard_counts(self.trains@) =~= onboard_counts(old_self.trains@));
                    assert(self.trains_ok()) by {
                        assert forall|k: int| 0 <= k < self.trains@.len() implies (
                        #[trigger] self.trains@[k]).wf(self.n() as nat) && on_route(
                            self.trains@[k],
                            self.n(),
                        ) by {
                            if k != t {
                                assert(self.trains@[k] == old_self.trains@[k]);
                            }
                        }
                    }
                    let e2 = self.line.east_pool@;
                    let w2 = self.line.west_pool@;
                    match dir {
                        Direction::East => {
                            assert(e[0] == t);
                            assert(!w.contains(t));
                            assert(!e2.contains(t)) by {
                                if e2.contains(t) {
                                    let j = choose|j: int| 0 <= j < e2.len() && e2[j] == t;
                                    assert(e[j + 1] == t);
                                }
                            }
                            assert(e2.no_duplicates());
                        },
                        Direction::West => {
                            assert(w[0] == t);
                            assert(!e.contains(t)) by {
                                if e.contains(t) {
                                    let j = choose|j: int| 0 <= j < e.len() && e[j] == t;
                                    assert(w.contains(e[j]));
                                }
                            }
                            assert(!w2.contains(t)) by {
                                if w2.contains(t) {
                                    let j = choose|j: int| 0 <= j < w2.len() && w2[j] == t;
                                    assert(w[j + 1] == t);
                                }
                            }
                            assert(w2.no_duplicates());
                            assert forall|i: int| 0 <= i < e2.len() implies #[trigger] e2[i]
                                < self.trains@.len() && !w2.contains(e2[i]) by {
                                assert(e2[i] == e[i]);
                                if w2.contains(e2[i]) {
                                    let j = choose|j: int| 0 <= j < w2.len() && w2[j] == e2[i];
                                    assert(w.contains(w[j + 1]));
                                }
                            }
                        },
                    }
                    assert(self.pools_ok()) by {
                        assert forall|k: usize| k < self.trains@.len() implies (!(
                        #[trigger] self.trains@[k as int]).active <==> (e2.contains(k)
                            || w2.contains(k))) by {
                            if k != t {
                                assert(self.trains@[k as int] == old_self.trains@[k as int]);
                                if e.contains(k) {
                                    let j = choose|j: int| 0 <= j < e.len() && e[j] == k;
                                    if dir == Direction::East {
                                        assert(j != 0);
                                        assert(e2[j - 1] == k);
                                    } else {
                                        assert(e2[j] == k);
                                    }
                                }
                                if w.contains(k) {
                                    let j = choose|j: int| 0 <= j < w.len() && w[j] == k;
                                    if dir == Direction::West {
                                        assert(j != 0);
                                        assert(w2[j - 1] == k);
                                    } else {
                                        assert(w2[j] == k);
                                    }
                                }
                            }
                        }
                    }
                }
                assert(self.trains@ =~= old_self.trains@.update(
                    t as int,
                    Train {
                        active: true,
                        in_motion: false,
                        direction: dir,
                        at_station: start,
                        ..old_self.trains@[t as int]
                    },
                ));
                self.schedule_in(Event::TrainArrival(t, start), self.dwell);
            },
            None => {},
        }
        let delay = self.policy.release_delay(self.clock, self.horizon);
        self.schedule_in(Event::TrainRelease(dir), delay);
    }

    /// An arrival of `train` at `station` is acted on: the train is known,
    /// active, and at or heading to `station`.
    pub open spec fn arrival_applies(&self, train: usize, station: usize) -> bool {
        &&& train < self.trains@.len()
        &&& station < self.n()
        &&& self.trains@[train as int].active
        &&& self.trains@[train as int].at_station == station
    }

    /// A departure of `train` for `next` is acted on: the train is known,
    /// active, standing at a station, and `next` is the station ahead.
    pub open spec fn departure_applies(&self, train: usize, next: usize) -> bool {
        &&& train < self.trains@.len()
        &&& self.trains@[train as int].active
        &&& !self.trains@[train as int].in_motion
        &&& next == next_station(
            self.trains@[train as int].direction,
            self.trains@[train as int].at_station as int,
        )
    }

    /// The effect of `train_arrival(train, station)`.
    pub open spec fn arrived(old_self: Simulation, new_self: Simulation, train: usize, station: usize) -> bool {
        &&& !old_self.arrival_applies(train, station) ==> new_self == old_self
        &&& old_self.arrival_applies(train, station) ==> {
            let before = old_self.trains@[train as int];
            let after = new_self.trains@[train as int];
            let dir = before.direction;
            &&& after.onboard@ == staying(before.onboard@, station)
            &&& new_self.stats == (Statistics {
                departed: (old_self.stats.departed + before.onboard@.len()
                    - after.onboard@.len()) as u64,
                ..old_self.stats
            })
            &&& new_self.trains@ == old_self.trains@.update(train as int, after)
            &&& if at_terminal(dir, station as int, old_self.n()) {
                &&& after == (Train {
                    active: false,
                    in_motion: false,
                    onboard: after.onboard,
                    ..before
                })
                &&& after.onboard@.len() == 0
                &&& new_self.pool(dir.opposite_spec()) == old_self.pool(
                    dir.opposite_spec(),
                ).push(train)
                &&& new_self.pool(dir) == old_self.pool(dir)
                &&& new_self.line == (Line {
                    east_pool: new_self.line.east_pool,
                    west_pool: new_self.line.west_pool,
                    ..old_self.line
                })
                &&& new_self.queue == old_self.queue
            } else {
                &&& after == (Train {
                    in_motion: false,
                    at_station: station,
                    onboard: after.onboard,
                    ..before
                })
                &&& new_self.line == old_self.line
                &&& new_self.queue@.to_multiset() == old_self.queue@.to_multiset().insert(
                    Scheduled {
                        time: sat_add(old_self.clock, old_self.dwell),
                        event: Event::TrainDeparture(
                            train,
                            next_station(dir, station as int) as usize,
                        ),
                    },
                )
            }
        }
        &&& new_self.clock == old_self.clock
        &&& new_self.horizon == old_self.horizon
        &&& new_self.dwell == old_self.dwell
        &&& new_self.policy == old_self.policy
    }

    /// Handles the arrival of train `train` at station `station`. Riders
    /// for `station` leave the train and are counted as departed. At the
    /// terminal the train travels towards, it is then taken off the line
    /// and staged, once, in the pool of the opposite direction; elsewhere
    /// it stands at `station` and departs for the next station after the
    /// dwell time. An arrival of an unknown, inactive or misplaced train is
    /// ignored.
    pub fn train_arrival(&mut self, train: usize, station: usize)
        requires
            old(self).wf(),
        ensures
            final(self).wf(),
            Self::arrived(*old(self), *final(self), train, station),
    {
        if train >= self.trains.len() || station >= self.line.length() {
            return;
        }
        if !self.trains[train].active || self.trains[train].at_station != station {
            return;
        }
        let ghost old_self = *self;
        let ghost before = self.trains@[train as int];
        let n = self.line.length();
        assert(self.trains@[train as int].wf(n as nat) && on_route(before, n as int));
        let left = self.trains[train].alight_at(station);
        proof {
            let oc = onboard_counts(old_self.trains@);
            assert forall|j: int| 0 <= j < oc.len() implies oc[j] >= 0 by {}
            lemma_sum_ge_term(oc, train as int);
            assert(onboard_counts(self.trains@) =~= oc.update(
                train as int,
                self.trains@[train as int].onboard@.len() as int,
            ));
            lemma_sum_update(oc, train as int, self.trains@[train as int].onboard@.len() as int);
        }
        self.stats.departed = self.stats.departed + left as u64;
        let dir = self.trains[train].direction;
        let terminal = match dir {
            Direction::West => station == 0,
            Direction::East => station == n - 1,
        };
        let ghost kept = self.trains@[train as int].onboard@;
        assert forall|k: int| 0 <= k < kept.len() implies rider_ahead(
            #[trigger] kept[k],
            dir,
            station as int,
            false,
        ) && kept[k].destination < n by {
            let j = choose|j: int| 0 <= j < before.onboard@.len() && before.onboard@[j] == kept[k];
            assert(rider_ahead(before.onboard@[j], dir, station as int, before.in_motion));
        }
        if terminal {
            assert(kept.len() == 0) by {
                if kept.len() > 0 {
                    assert(rider_ahead(kept[0], dir, station as int, false));
                }
            }
            self.trains[train].disable();
            let ghost e = self.line.east_pool@;
            let ghost w = self.line.west_pool@;
            assert(!e.contains(train) && !w.contains(train));
            match dir {
                Direction::West => self.line.east_pool.push_back(train),
                Direction::East => self.line.west_pool.push_back(train),
            }
            proof {
                let e2 = self.line.east_pool@;
                let w2 = self.line.west_pool@;
                assert forall|k: int| 0 <= k < self.trains@.len() implies (
                #[trigger] self.trains@[k]).wf(self.n() as nat) && on_route(
                    self.trains@[k],
                    self.n(),
                ) by {
                    if k != train {
                        assert(self.trains@[k] == old_self.trains@[k]);
                    }
                }
                assert(e2.no_duplicates() && w2.no_duplicates());
                assert forall|i: int| 0 <= i < e2.len() implies #[trigger] e2[i]
                    < self.trains@.len() && !w2.contains(e2[i]) by {
                    if i < e.len() {
                        assert(e2[i] == e[i]);
                        if w2.contains(e2[i]) {
                            let j = choose|j: int| 0 <= j < w2.len() && w2[j] == e2[i];
                            if j < w.len() {
                                assert(w.contains(w[j]));
                            }
                        }
                    } else {
                        assert(e2[i] == train);
                    }
                }
                assert forall|i: int| 0 <= i < w2.len() implies #[trigger] w2[i]
                    < self.trains@.len() by {
                    if i < w.len() {
                        assert(w2[i] == w[i]);
                    }
                }
                assert forall|k: usize| k < self.trains@.len() implies (!(
                #[trigger] self.trains@[k as int]).active <==> (e2.contains(k) || w2.contains(k)))
                    by {
                    if k != train {
                        assert(self.trains@[k as int] == old_self.trains@[k as int]);
                        if e2.contains(k) {
                            let j = choose|j: int| 0 <= j < e2.len() && e2[j] == k;
                            assert(j < e.len() ==> e.contains(e[j]));
                        }
                        if w2.contains(k) {
                            let j = choose|j: int| 0 <= j < w2.len() && w2[j] == k;
                            assert(j < w.len() ==> w.contains(w[j]));
                        }
                        if e.contains(k) {
                            let j = choose|j: int| 0 <= j < e.len() && e[j] == k;
                            assert(e2[j] == k);
                        }
                        if w.contains(k) {
                            let j = choose|j: int| 0 <= j < w.len() && w[j] == k;
                            assert(w2[j] == k);
                        }
                    } else {
                        match dir {
                            Direction::West => assert(e2[e.len() as int] == k),
                            Direction::East => assert(w2[w.len() as int] == k),
                        }
                    }
                }
                assert(onboard_counts(self.trains@) =~= onboard_counts(old_self.trains@).update(train as int, 0));
                assert(self.trains@ =~= old_self.trains@.update(train as int, self.trains@[train as int]));
            }
        } else {
            self.trains[train].arrive_at(station);
            proof {
                assert forall|k: int| 0 <= k < self.trains@.len() implies (
                #[trigger] self.trains@[k]).wf(self.n() as nat) && on_route(
                    self.trains@[k],
                    self.n(),
                ) by {
                    if k != train {
                        assert(self.trains@[k] == old_self.trains@[k]);
                    }
                }
            }
            let next: usize = match dir {
                Direction::East => station + 1,
                Direction::West => station - 1,
            };
            assert(onboard_counts(self.trains@) =~= onboard_counts(old_self.trains@).update(
                train as int,
                kept.len() as int,
            ));
            assert(self.trains@ =~= old_self.trains@.update(train as int, self.trains@[train as int]));
            self.schedule_in(Event::TrainDeparture(train, next), self.dwell);
        }
    }

    /// The effect of `train_departure(train, next)`.
    pub open spec fn departed(old_self: Simulation, new_self: Simulation, train: usize, next: usize) -> bool {
        &&& !old_self.departure_applies(train, next) ==> new_self == old_self
        &&& old_self.departure_applies(train, next) ==> {
            let before = old_self.trains@[train as int];
            let at = before.at_station as int;
            let dir = before.direction;
            let st = old_self.line.stations@[at];
            let q = match dir {
                Direction::East => st.east_queue@,
                Direction::West => st.west_queue@,
            };
            let k = boarding_count(q.len() as int, before.capacity - before.onboard@.len());
            let riders = q.take(k);
            let after = new_self.trains@[train as int];
            let fst = new_self.line.stations@[at];
            let boarded = boarded_stats(old_self.stats, riders, old_self.clock);
            &&& after.onboard@ == before.onboard@ + board_all(riders, old_self.clock)
            &&& after == (Train {
                in_motion: true,
                at_station: next,
                ..(Train { onboard: after.onboard, ..before }).sampled()
            })
            &&& new_self.trains@ == old_self.trains@.update(train as int, after)
            &&& dir == Direction::East ==> fst.east_queue@ == q.skip(k) && fst.west_queue@
                == st.west_queue@
            &&& dir == Direction::West ==> fst.west_queue@ == q.skip(k) && fst.east_queue@
                == st.east_queue@
            &&& fst.name == st.name && fst.baseline == st.baseline
            &&& new_self.line.stations@.len() == old_self.line.stations@.len()
            &&& forall|j: int|
                0 <= j < old_self.n() && j != at ==> #[trigger] new_self.line.stations@[j]
                    == old_self.line.stations@[j]
            &&& new_self.line == (Line { stations: new_self.line.stations, ..old_self.line })
            &&& new_self.stats == (Statistics {
                missed: sat_add(boarded.missed, (q.len() - k) as u64),
                ..boarded
            })
            &&& new_self.queue@.to_multiset() == old_self.queue@.to_multiset().insert(
                Scheduled {
                    time: sat_add(
                        old_self.clock,
                        old_self.line.travel_times@[segment(dir, at)],
                    ),
                    event: Event::TrainArrival(train, next),
                },
            )
        }
        &&& new_self.clock == old_self.clock
        &&& new_self.horizon == old_self.horizon
        &&& new_self.dwell == old_self.dwell
        &&& new_self.policy == old_self.policy
    }

    /// Handles the departure of train `train` for station `next`. The
    /// customers waiting at the train's station for its direction board in
    /// order until the queue is empty or the train is full; those left
    /// behind are counted as missed. The train's occupancy is sampled, and
    /// it leaves for `next`, where it is due after the segment's travel
    /// time. A departure of an unknown, inactive or moving train, or one
    /// whose `next` is not the neighbour ahead, is ignored.
    pub fn train_departure(&mut self, train: usize, next: usize)
        requires
            old(self).wf(),
        ensures
            final(self).wf(),
            Self::departed(*old(self), *final(self), train, next),
    {
        if train >= self.trains.len() {
            return;
        }
        if !self.trains[train].active || self.trains[train].in_motion {
            return;
        }
        let n = self.line.length();
        let at = self.trains[train].at_station;
        let dir = self.trains[train].direction;
        assert(self.trains@[train as int].wf(n as nat) && on_route(self.trains@[train as int], n as int));
        let expected: usize = match dir {
            Direction::East => at + 1,
            Direction::West => at - 1,
        };
        if next != expected {
            return;
        }
        let ghost old_self = *self;
        let ghost before = self.trains@[train as int];
        let ghost st = self.line.stations@[at as int];
        let now = self.clock;
        proof {
            let wc = waiting_counts(self.line.stations@);
            assert forall|j: int| 0 <= j < wc.len() implies wc[j] >= 0 by {}
            lemma_sum_ge_term(wc, at as int);
            assert(self.line.stations@[at as int].wf(at as int, n as int));
        }
        let k = match dir {
            Direction::East => board(
                &mut self.line.stations[at].east_queue,
                &mut self.trains[train],
                &mut self.stats,
                now,
            ),
            Direction::West => board(
                &mut self.line.stations[at].west_queue,
                &mut self.trains[train],
                &mut self.stats,
                now,
            ),
        };
        let ghost q = match dir {
            Direction::East => st.east_queue@,
            Direction::West => st.west_queue@,
        };
        let remaining = match dir {
            Direction::East => self.line.stations[at].east_queue.len(),
            Direction::West => self.line.stations[at].west_queue.len(),
        };
        self.stats.missed = self.stats.missed.saturating_add(remaining as u64);
        let travel = self.line.travel_time(dir, at);
        self.trains[train].poll_usage();
        self.trains[train].leave_to(next);
        proof {
            let riders = q.take(k as int);
            let added = board_all(riders, now);
            let after = self.trains@[train as int];
            assert forall|j: int| 0 <= j < after.onboard@.len() implies {
                &&& rider_ahead(#[trigger] after.onboard@[j], dir, next as int, true)
                &&& after.onboard@[j].destination < n
            } by {
                if j < before.onboard@.len() {
                    assert(after.onboard@[j] == before.onboard@[j]);
                } else {
                    let i = j - before.onboard@.len();
                    assert(after.onboard@[j] == added[i]);
                    assert(q[i] == riders[i]);
                }
            }
            assert forall|m: int| 0 <= m < self.trains@.len() implies (
            #[trigger] self.trains@[m]).wf(self.n() as nat) && on_route(self.trains@[m], self.n()) by {
                if m != train {
                    assert(self.trains@[m] == old_self.trains@[m]);
                }
            }
            assert forall|j: int| 0 <= j < self.line.n() implies #[trigger] self.line.stations@[j].wf(
                j,
                self.line.n(),
            ) by {
                if j == at {
                    let fs = self.line.stations@[j];
                    assert forall|i: int| 0 <= i < fs.east_queue@.len() implies waits_at(
                        #[trigger] fs.east_queue@[i],
                        j,
                        self.n(),
                        Direction::East,
                    ) by {
                        if dir == Direction::East {
                            assert(fs.east_queue@[i] == st.east_queue@[i + k]);
                        }
                    }
                    assert forall|i: int| 0 <= i < fs.west_queue@.len() implies waits_at(
                        #[trigger] fs.west_queue@[i],
                        j,
                        self.n(),
                        Direction::West,
                    ) by {
                        if dir == Direction::West {
                            assert(fs.west_queue@[i] == st.west_queue@[i + k]);
                        }
                    }
                } else {
                    assert(self.line.stations@[j] == old_self.line.stations@[j]);
                }
            }
            assert(self.pools_ok()) by {
                assert forall|m: usize| m < self.trains@.len() implies (!(
                #[trigger] self.trains@[m as int]).active <==> (self.line.east_pool@.contains(m)
                    || self.line.west_pool@.contains(m))) by {
                    if m != train {
                        assert(self.trains@[m as int] == old_self.trains@[m as int]);
                    }
                }
            }
            assert(onboard_counts(self.trains@) =~= onboard_counts(old_self.trains@).update(
                train as int,
                after.onboard@.len() as int,
            ));
            lemma_sum_update(onboard_counts(old_self.trains@), train as int, after.onboard@.len() as int);
            assert(waiting_counts(self.line.stations@) =~= waiting_counts(old_self.line.stations@).update(
                at as int,
                self.line.stations@[at as int].waiting(),
            ));
            lemma_sum_update(waiting_counts(old_self.line.stations@), at as int, self.line.stations@[at as int].waiting());
            lemma_boarded_count(old_self.stats, riders, now);
        }
        assert(self.trains@ =~= old_self.trains@.update(train as int, self.trains@[train as int]));
        self.schedule_in(Event::TrainArrival(train, next), travel);
    }
    /// The effect of a customer appearing at `station` with the given
    /// destination: the customer joins the back of the station's queue for
    /// its direction, the generated count grows by one, and the station's
    /// next arrival is due after `interarrival` ticks.
    pub open spec fn admitted(
        old_self: Simulation,
        new_self: Simulation,
        station: usize,
        destination: usize,
        interarrival: u64,
    ) -> bool {
        let c = Customer {
            arrival: old_self.clock,
            boarded_at: None,
            origin: station,
            destination,
        };
        let st = old_self.line.stations@[station as int];
        let fst = new_self.line.stations@[station as int];
        &&& travel_direction(station as int, destination as int) == Direction::East ==> (
        fst.east_queue@ == st.east_queue@.push(c) && fst.west_queue@ == st.west_queue@)
        &&& travel_direction(station as int, destination as int) == Direction::West ==> (
        fst.west_queue@ == st.west_queue@.push(c) && fst.east_queue@ == st.east_queue@)
        &&& fst.name == st.name && fst.baseline == st.baseline
        &&& new_self.line.stations@.len() == old_self.line.stations@.len()
        &&& forall|j: int|
            0 <= j < old_self.n() && j != station ==> #[trigger] new_self.line.stations@[j]
                == old_self.line.stations@[j]
        &&& new_self.line == (Line { stations: new_self.line.stations, ..old_self.line })
        &&& new_self.stats == (Statistics {
            generated: (old_self.stats.generated + 1) as u64,
            ..old_self.stats
        })
        &&& new_self.trains == old_self.trains
        &&& new_self.queue@.to_multiset() == old_self.queue@.to_multiset().insert(
            Scheduled {
                time: sat_add(old_self.clock, interarrival),
                event: Event::CustomerArrival(station),
            },
        )
        &&& new_self.clock == old_self.clock
        &&& new_self.horizon == old_self.horizon
        &&& new_self.dwell == old_self.dwell
        &&& new_self.policy == old_self.policy
    }

    /// Handles the appearance of a customer at `station` bound for
    /// `destination`; see `admitted`. Ignored when either station is
    /// unknown, when they are the same, or when the generated count is at
    /// its largest value.
    pub fn admit_customer(&mut self, station: usize, destination: usize, interarrival: u64)
        requires
            old(self).wf(),
        ensures
            final(self).wf(),
            station < old(self).n() && destination < old(self).n() && destination != station
                && old(self).stats.generated < u64::MAX ==> Self::admitted(
                *old(self),
                *final(self),
                station,
                destination,
                interarrival,
            ),
            !(station < old(self).n() && destination < old(self).n() && destination != station
                && old(self).stats.generated < u64::MAX) ==> *final(self) == *old(self),
    {
        let n = self.line.length();
        if station >= n || destination >= n || destination == station
            || self.stats.generated == u64::MAX {
            return;
        }
        let ghost old_self = *self;
        let c = Customer::new(self.clock, station, destination);
        self.line.stations[station].add_customer(c);
        self.stats.generated = self.stats.generated + 1;
        proof {
            assert forall|j: int| 0 <= j < self.line.n() implies #[trigger] self.line.stations@[j].wf(
                j,
                self.line.n(),
            ) by {
                if j == station {
                    let fs = self.line.stations@[j];
                    let os = old_self.line.stations@[j];
                    assert(os.wf(j, self.n()));
                    assert forall|i: int| 0 <= i < fs.east_queue@.len() implies waits_at(
                        #[trigger] fs.east_queue@[i],
                        j,
                        self.n(),
                        Direction::East,
                    ) by {
                        if i < os.east_queue@.len() {
                            assert(fs.east_queue@[i] == os.east_queue@[i]);
                        }
                    }
                    assert forall|i: int| 0 <= i < fs.west_queue@.len() implies waits_at(
                        #[trigger] fs.west_queue@[i],
                        j,
                        self.n(),
                        Direction::West,
                    ) by {
                        if i < os.west_queue@.len() {
                            assert(fs.west_queue@[i] == os.west_queue@[i]);
                        }
                    }
                } else {
                    assert(self.line.stations@[j] == old_self.line.stations@[j]);
                }
            }
            assert(waiting_counts(self.line.stations@) =~= waiting_counts(old_self.line.stations@).update(
                station as int,
                old_self.line.stations@[station as int].waiting() + 1,
            ));
            lemma_sum_update(
                waiting_counts(old_self.line.stations@),
                station as int,
                old_self.line.stations@[station as int].waiting() + 1,
            );
        }
        self.schedule_in(Event::CustomerArrival(station), interarrival);
    }

    /// The effect of `customer_arrival(station, _, interarrival)`: a
    /// customer for some other station is admitted.
    pub open spec fn customer_arrived(old_self: Simulation, new_self: Simulation, station: usize, interarrival: u64) -> bool {
        &&& station < old_self.n() && old_self.stats.generated < u64::MAX ==> exists|d: usize|
            d < old_self.n() && d != station && Self::admitted(
                old_self,
                new_self,
                station,
                d,
                interarrival,
            )
        &&& !(station < old_self.n() && old_self.stats.generated < u64::MAX) ==> new_self
            == old_self
    }

    /// Handles a customer arrival at `station`: draws the customer's
    /// destination from `rng`, uniformly among the other stations, and
    /// admits the customer as `admit_customer` does.
    pub fn customer_arrival(&mut self, station: usize, rng: &mut ChaCha8Rng, interarrival: u64)
        requires
            old(self).wf(),
        ensures
            final(self).wf(),
            Self::customer_arrived(*old(self), *final(self), station, interarrival),
    {
        let n = self.line.length();
        if station >= n || self.stats.generated == u64::MAX {
            return;
        }
        let d = draw_destination(rng, station, n);
        self.admit_customer(station, d, interarrival);
    }

    /// The current arrival rate at `station`, in units of `1 / RATE_SCALE`
    /// customers per minute; `None` for an unknown station or once the
    /// horizon has been reached.
    pub fn arrival_rate(&self, station: usize) -> (r: Option<u128>)
        requires
            self.wf(),
        ensures
            station < self.n() && self.clock < self.horizon ==> r == Some(
                rate_at(
                    self.line.stations@[station as int].baseline as int,
                    self.line.demand@,
                    self.clock as int,
                ) as u128,
            ),
            !(station < self.n() && self.clock < self.horizon) ==> r is None,
    {
        if station >= self.line.length() || self.clock >= self.horizon {
            return None;
        }
        assert(self.clock / TICKS_PER_HOUR + 1 < self.line.demand@.len()) by (nonlinear_arith)
            requires
                self.clock < self.horizon,
                self.horizon <= (self.line.demand@.len() - 1) * 60000,
        ;
        Some(self.line.stations[station].current_rate(&self.line.demand, self.clock))
    }

    /// Handles one event popped from the queue. `rng` and `interarrival`
    /// serve a customer arrival: the destination is drawn from `rng`, and
    /// the station's next arrival is due after `interarrival` ticks.
    pub fn handle(&mut self, event: Event, rng: &mut ChaCha8Rng, interarrival: u64)
        requires
            old(self).wf(),
        ensures
            final(self).wf(),
            final(self).clock == old(self).clock,
            match event {
                Event::TrainArrival(t, s) => Self::arrived(*old(self), *final(self), t, s),
                Event::TrainDeparture(t, s) => Self::departed(*old(self), *final(self), t, s),
                Event::TrainRelease(dir) => Self::released(*old(self), *final(self), dir),
                Event::CustomerArrival(s) => Self::customer_arrived(
                    *old(self),
                    *final(self),
                    s,
                    interarrival,
                ),
                Event::Sentinel => *final(self) == *old(self),
            },
    {
        match event {
            Event::TrainArrival(t, s) => self.train_arrival(t, s),
            Event::TrainDeparture(t, s) => self.train_departure(t, s),
            Event::TrainRelease(dir) => self.release_train(dir),
            Event::CustomerArrival(s) => self.customer_arrival(s, rng, interarrival),
            Event::Sentinel => {},
        }
    }

    /// The end-of-run report: the totals, the mean wait, the throughput
    /// in departed customers per hour of simulated time up to the horizon,
    /// and the train utilisation figures.
    pub fn report(&self) -> (r: Report)
        requires
            self.wf(),
        ensures
            r == (Report {
                generated: self.stats.generated,
                boarded: self.stats.boarded,
                departed: self.stats.departed,
                missed: self.stats.missed,
                average_wait: if self.stats.boarded > 0 {
                    Some((self.stats.total_wait / self.stats.boarded as u128) as u64)
                } else {
                    None
                },
                max_wait: self.stats.max_wait,
                max_wait_at: self.stats.max_wait_at,
                throughput: if self.horizon > 0 {
                    Some(
                        (self.stats.departed * 1000 * TICKS_PER_HOUR / self.horizon as int) as u128,
                    )
                } else {
                    None
                },
                average_utilization: if sum(sampled_flags(self.trains@)) > 0 {
                    Some((sum(utilizations(self.trains@)) / sum(sampled_flags(self.trains@))) as u64)
                } else {
                    None
                },
                max_utilization: if self.trains@.len() > 0 {
                    Some(max_of(peaks(self.trains@)) as u64)
                } else {
                    None
                },
                average_full: if sum(sampled_flags(self.trains@)) > 0 {
                    Some((sum(full_shares(self.trains@)) / sum(sampled_flags(self.trains@))) as u64)
                } else {
                    None
                },
            }),
    {
        let st = self.stats;
        let average_wait = if st.boarded > 0 {
            proof {
                let m = u64::MAX as int;
                vstd::arithmetic::div_mod::lemma_div_is_ordered(
                    st.total_wait as int,
                    st.boarded * m,
                    st.boarded as int,
                );
                vstd::arithmetic::div_mod::lemma_div_by_multiple(m, st.boarded as int);
                assert(st.boarded * m == m * st.boarded) by (nonlinear_arith);
            }
            Some((st.total_wait / st.boarded as u128) as u64)
        } else {
            None
        };
        let throughput = if self.horizon > 0 {
            Some(st.departed as u128 * 1000 * TICKS_PER_HOUR as u128 / self.horizon as u128)
        } else {
            None
        };
        let ghost ts = self.trains@;
        let mut count: u128 = 0;
        let mut util_sum: u128 = 0;
        let mut full_sum: u128 = 0;
        let mut peak_max: u64 = 0;
        let mut i: usize = 0;
        while i < self.trains.len()
            invariant
                self.wf(),
                ts == self.trains@,
                0 <= i <= ts.len(),
                count == sum(sampled_flags(ts).take(i as int)),
                util_sum == sum(utilizations(ts).take(i as int)),
                full_sum == sum(full_shares(ts).take(i as int)),
                peak_max == max_of(peaks(ts).take(i as int)),
                count <= i,
                util_sum <= PERCENT_SCALE * count,
                full_sum <= PERCENT_SCALE * count,
                peak_max <= PERCENT_SCALE,
            decreases ts.len() - i,
        {
            let t = &self.trains[i];
            assert(ts[i as int].wf(self.n() as nat));
            proof {
                lemma_sum_take_succ(sampled_flags(ts), i as int);
                lemma_sum_take_succ(utilizations(ts), i as int);
                lemma_sum_take_succ(full_shares(ts), i as int);
                lemma_max_take_succ(peaks(ts), i as int);
                lemma_share_bounded(t.max_onboard as int, t.capacity as int);
            }
            if t.samples > 0 {
                proof {
                    assert(t.samples * t.capacity <= 0x1_0000_0000_0000_0000 * 0x1_0000_0000)
                        by (nonlinear_arith)
                        requires
                            t.samples <= 0xffff_ffff_ffff_ffff,
                            t.capacity <= 0xffff_ffff,
                    ;
                }
                let whole = t.samples as u128 * t.capacity as u128;
                proof {
                    assert(0 < t.samples * t.capacity) by (nonlinear_arith)
                        requires
                            t.samples > 0,
                            t.capacity > 0,
                    ;
                    lemma_share_bounded(t.occupancy_sum as int, whole as int);
                    lemma_share_bounded(t.full_samples as int, t.samples as int);
                }
                util_sum = util_sum + t.occupancy_sum * 100_000 / whole;
                full_sum = full_sum + t.full_samples as u128 * 100_000 / t.samples as u128;
                count = count + 1;
            }
            let pk = t.max_onboard * 100_000 / t.capacity as u64;
            if pk > peak_max {
                peak_max = pk;
            }
            i += 1;
        }
        proof {
            assert(sampled_flags(ts).take(ts.len() as int) =~= sampled_flags(ts));
            assert(utilizations(ts).take(ts.len() as int) =~= utilizations(ts));
            assert(full_shares(ts).take(ts.len() as int) =~= full_shares(ts));
            assert(peaks(ts).take(ts.len() as int) =~= peaks(ts));
        }
        let average_utilization = if count > 0 {
            proof {
                vstd::arithmetic::div_mod::lemma_div_is_ordered(util_sum as int, PERCENT_SCALE * count, count as int);
                vstd::arithmetic::div_mod::lemma_div_by_multiple(PERCENT_SCALE as int, count as int);
            }
            Some((util_sum / count) as u64)
        } else {
            None
        };
        let average_full = if count > 0 {
            proof {
                vstd::arithmetic::div_mod::lemma_div_is_ordered(full_sum as int, PERCENT_SCALE * count, count as int);
                vstd::arithmetic::div_mod::lemma_div_by_multiple(PERCENT_SCALE as int, count as int);
            }
            Some((full_sum / count) as u64)
        } else {
            None
        };
        let max_utilization = if self.trains.len() > 0 {
            Some(peak_max)
        } else {
            None
        };
        Report {
            generated: st.generated,
            boarded: st.boarded,
            departed: st.departed,
            missed: st.missed,
            average_wait,
            max_wait: st.max_wait,
            max_wait_at: st.max_wait_at,
            throughput,
            average_utilization,
            max_utilization,
            average_full,
        }
    }

}

/// Boarding `riders` adds their number to the boarded count and leaves the
/// other counts alone.
pub proof fn lemma_boarded_count(st: Statistics, riders: Seq<Customer>, now: u64)
    requires
        st.boarded + riders.len() <= u64::MAX,
    ensures
        boarded_stats(st, riders, now).boarded == st.boarded + riders.len(),
        boarded_stats(st, riders, now).generated == st.generated,
        boarded_stats(st, riders, now).departed == st.departed,
        boarded_stats(st, riders, now).missed == st.missed,
    decreases riders.len(),
{
    if riders.len() > 0 {
        lemma_boarded_count(st, riders.drop_last(), now);
    }
}


/// Rider counts of the active trains, zero for staged ones.
pub open spec fn active_onboard_counts(ts: Seq<Train>) -> Seq<int> {
    ts.map_values(|t: Train| if t.active { t.onboard@.len() as int } else { 0int })
}

/// Conservation of customers: at every instant of a run, no more customers
/// have boarded than were generated and no more have departed than
/// boarded, and those boarded but not departed are exactly the riders of
/// the active trains.
pub proof fn lemma_conservation(sim: Simulation)
    requires
        sim.wf(),
    ensures
        sim.stats.generated >= sim.stats.boarded >= sim.stats.departed,
        sim.stats.boarded - sim.stats.departed == sum(active_onboard_counts(sim.trains@)),
        sim.stats.generated - sim.stats.boarded == sum(waiting_counts(sim.line.stations@)),
{
    assert forall|t: int| 0 <= t < sim.trains@.len() implies #[trigger] active_onboard_counts(
        sim.trains@,
    )[t] == onboard_counts(sim.trains@)[t] by {
        assert(on_route(sim.trains@[t], sim.n()));
    }
    assert(active_onboard_counts(sim.trains@) =~= onboard_counts(sim.trains@));
}

/// Capacity: at every instant of a run, no train carries more riders than
/// its capacity.
pub proof fn lemma_capacity(sim: Simulation, t: int)
    requires
        sim.wf(),
        0 <= t < sim.trains@.len(),
    ensures
        sim.trains@[t].onboard@.len() <= sim.trains@[t].capacity,
{
    assert(sim.trains@[t].wf(sim.n() as nat));
}

/// Position bounds: at every instant of a run, every train's station index
/// lies in `[0, stations - 1]`.
pub proof fn lemma_position_bounds(sim: Simulation, t: int)
    requires
        sim.wf(),
        0 <= t < sim.trains@.len(),
    ensures
        0 <= sim.trains@[t].at_station < sim.line.stations@.len(),
{
    assert(sim.trains@[t].wf(sim.n() as nat));
}

/// Direction reversal: at every instant of a run, no active train stands
/// at the terminal it travels towards, and a train is staged exactly when
/// it is inactive, in one pool only, and only once.
pub proof fn lemma_terminal_discipline(sim: Simulation, t: usize)
    requires
        sim.wf(),
        t < sim.trains@.len(),
    ensures
        sim.trains@[t as int].active && !sim.trains@[t as int].in_motion ==> !at_terminal(
            sim.trains@[t as int].direction,
            sim.trains@[t as int].at_station as int,
            sim.n(),
        ),
        !sim.trains@[t as int].active <==> (sim.line.east_pool@.contains(t)
            || sim.line.west_pool@.contains(t)),
        !(sim.line.east_pool@.contains(t) && sim.line.west_pool@.contains(t)),
        sim.line.east_pool@.no_duplicates(),
        sim.line.west_pool@.no_duplicates(),
{
    assert(on_route(sim.trains@[t as int], sim.n()));
    if sim.line.east_pool@.contains(t) {
        let i = choose|i: int|
            0 <= i < sim.line.east_pool@.len() && sim.line.east_pool@[i] == t;
        assert(!sim.line.west_pool@.contains(sim.line.east_pool@[i]));
    }
}

} // verus!
