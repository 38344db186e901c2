use railsim::config::{Config, ConfigError};
use railsim::demand::RATE_SCALE;
use railsim::dispatch::DispatchPolicy;
use railsim::entities::Direction;
use railsim::events::Event;
use railsim::sim::Simulation;
use railsim::stats::Report;
use railsim::units::{TICKS_PER_HOUR, TICKS_PER_MINUTE};
use rand::SeedableRng;
use rand_chacha::ChaCha8Rng;
use rand_distr::{Distribution, Exp};

fn config(stations: usize, trains: usize, headway: u64, horizon: u64, first_arrival: u64) -> Config {
    Config {
        line_name: String::from("Test Line"),
        station_names: (0..stations).map(|i| format!("S{}", i)).collect(),
        travel_times: vec![1000; stations - 1],
        baselines: vec![2000; stations],
        demand: vec![100; (horizon / TICKS_PER_HOUR) as usize + 2],
        trains,
        capacity: 20,
        dwell: 500,
        horizon,
        first_arrival,
        policy: DispatchPolicy::Constant(headway),
    }
}

fn interarrival(rng: &mut ChaCha8Rng, rate: Option<u128>) -> u64 {
    match rate {
        Some(r) if r > 0 => {
            let lambda = r as f64 / RATE_SCALE as f64;
            let minutes: f64 = Exp::new(lambda).unwrap().sample(rng);
            (minutes * TICKS_PER_MINUTE as f64) as u64
        }
        _ => u64::MAX,
    }
}

/// Runs to the end, checking the invariants after every event; returns the
/// clock values observed.
fn run(sim: &mut Simulation, rng: &mut ChaCha8Rng) -> Vec<u64> {
    let mut clocks = Vec::new();
    let n = sim.line.length();
    while let Some(ev) = sim.pop_event() {
        clocks.push(sim.clock);
        let iat = match ev {
            Event::CustomerArrival(s) => interarrival(rng, sim.arrival_rate(s)),
            _ => 0,
        };
        sim.handle(ev, rng, iat);
        let st = sim.stats;
        assert!(st.generated >= st.boarded && st.boarded >= st.departed);
        let riding: usize = sim.trains.iter().filter(|t| t.active).map(|t| t.onboard.len()).sum();
        assert_eq!((st.boarded - st.departed) as usize, riding);
        for t in &sim.trains {
            assert!(t.onboard.len() <= t.capacity as usize);
            assert!(t.at_station < n);
            if t.active && !t.in_motion {
                match t.direction {
                    Direction::East => assert!(t.at_station < n - 1),
                    Direction::West => assert!(t.at_station > 0),
                }
            }
        }
    }
    clocks
}

fn full_run(seed: u64) -> Report {
    let mut sim = Simulation::new(config(5, 4, 6000, 2 * TICKS_PER_HOUR, 10_000)).unwrap();
    let mut rng = ChaCha8Rng::seed_from_u64(seed);
    run(&mut sim, &mut rng);
    sim.report()
}

#[test]
fn clock_never_goes_back() {
    let mut sim = Simulation::new(config(5, 4, 6000, 2 * TICKS_PER_HOUR, 10_000)).unwrap();
    let mut rng = ChaCha8Rng::seed_from_u64(11);
    let clocks = run(&mut sim, &mut rng);
    assert!(clocks.len() > 100);
    assert!(clocks.windows(2).all(|w| w[0] <= w[1]));
    assert!(clocks.iter().all(|c| *c < 2 * TICKS_PER_HOUR));
    assert_eq!(sim.clock, 2 * TICKS_PER_HOUR);
}

#[test]
fn same_seed_same_report() {
    let a = full_run(42);
    let b = full_run(42);
    assert_eq!(a, b);
    assert!(a.generated > 0);
    assert!(a.boarded > 0);
}

#[test]
fn initial_state_matches_configuration() {
    let sim = Simulation::new(config(3, 5, 6000, TICKS_PER_HOUR, 10_000)).unwrap();
    assert_eq!(sim.clock, 0);
    assert_eq!(sim.trains.len(), 5);
    assert_eq!(sim.line.east_pool.iter().copied().collect::<Vec<_>>(), vec![0, 2, 4]);
    assert_eq!(sim.line.west_pool.iter().copied().collect::<Vec<_>>(), vec![1, 3]);
    assert_eq!(sim.queue.len(), 3 + 3);
    assert!(sim.trains.iter().all(|t| !t.active));
}

#[test]
fn bad_configuration_is_refused() {
    let mut c = config(3, 1, 6000, TICKS_PER_HOUR, 0);
    c.travel_times = vec![1000];
    assert_eq!(Simulation::new(c).unwrap_err(), ConfigError::TravelTimeCount);
}

/// One train between two stations, travel time one minute, releases far
/// apart: riders queued at station 0 for station 1 are carried there.
#[test]
fn single_train_carries_queued_riders() {
    let horizon = TICKS_PER_HOUR;
    let mut sim = Simulation::new(config(2, 1, 10 * horizon, horizon, horizon + 1)).unwrap();
    for _ in 0..3 {
        sim.admit_customer(0, 1, u64::MAX);
    }
    assert_eq!(sim.line.stations[0].east_queue.len(), 3);
    let mut rng = ChaCha8Rng::seed_from_u64(0);
    let mut seen = Vec::new();
    while let Some(ev) = sim.pop_event() {
        seen.push((sim.clock, ev));
        sim.handle(ev, &mut rng, 0);
    }
    assert_eq!(
        seen,
        vec![
            (0, Event::TrainRelease(Direction::East)),
            (0, Event::TrainRelease(Direction::West)),
            (500, Event::TrainArrival(0, 0)),
            (1000, Event::TrainDeparture(0, 1)),
            (2000, Event::TrainArrival(0, 1)),
        ]
    );
    assert_eq!(sim.stats.boarded, 3);
    assert_eq!(sim.stats.departed, 3);
    assert_eq!(sim.stats.total_wait, 3 * 1000);
    assert_eq!(sim.stats.max_wait, 1000);
    assert_eq!(sim.stats.max_wait_at, 1000);
    let t = &sim.trains[0];
    assert!(!t.active);
    assert!(t.onboard.is_empty());
    assert_eq!(sim.line.west_pool.iter().copied().collect::<Vec<_>>(), vec![0]);
    assert!(sim.line.east_pool.is_empty());
}

/// The same train comes back westward and returns riders to station 0.
#[test]
fn train_returns_westward() {
    let horizon = TICKS_PER_HOUR;
    let mut sim = Simulation::new(config(2, 1, 5000, horizon, horizon + 1)).unwrap();
    sim.admit_customer(0, 1, u64::MAX);
    sim.admit_customer(1, 0, u64::MAX);
    sim.admit_customer(1, 0, u64::MAX);
    let mut rng = ChaCha8Rng::seed_from_u64(0);
    let mut arrivals = Vec::new();
    while let Some(ev) = sim.pop_event() {
        if let Event::TrainArrival(t, s) = ev {
            arrivals.push((sim.clock, t, s));
        }
        sim.handle(ev, &mut rng, 0);
        if sim.clock >= 7000 {
            break;
        }
    }
    assert_eq!(arrivals, vec![(500, 0, 0), (2000, 0, 1), (5500, 0, 1), (7000, 0, 0)]);
    assert_eq!(sim.stats.boarded, 3);
    assert_eq!(sim.stats.departed, 3);
    assert!(!sim.trains[0].active);
    assert_eq!(sim.line.east_pool.iter().copied().collect::<Vec<_>>(), vec![0]);
}

#[test]
fn full_train_leaves_riders_behind() {
    let horizon = TICKS_PER_HOUR;
    let mut c = config(2, 1, 10 * horizon, horizon, horizon + 1);
    c.capacity = 2;
    let mut sim = Simulation::new(c).unwrap();
    for _ in 0..5 {
        sim.admit_customer(0, 1, u64::MAX);
    }
    sim.release_train(Direction::East);
    sim.train_arrival(0, 0);
    sim.train_departure(0, 1);
    assert_eq!(sim.trains[0].onboard.len(), 2);
    assert_eq!(sim.stats.boarded, 2);
    assert_eq!(sim.stats.missed, 3);
    assert_eq!(sim.line.stations[0].east_queue.len(), 3);
    assert_eq!(sim.trains[0].full_samples, 1);
    assert!(sim.trains[0].in_motion);
}

#[test]
fn stale_events_are_ignored() {
    let horizon = TICKS_PER_HOUR;
    let mut sim = Simulation::new(config(3, 1, 10 * horizon, horizon, horizon + 1)).unwrap();
    sim.train_arrival(0, 0);
    sim.train_departure(0, 1);
    sim.train_arrival(5, 0);
    sim.admit_customer(1, 1, 0);
    sim.admit_customer(9, 1, 0);
    assert!(!sim.trains[0].active);
    assert_eq!(sim.stats.generated, 0);
    assert_eq!(sim.queue.len(), 3 + 3);
}

#[test]
fn report_guards_divisions() {
    let sim = Simulation::new(config(2, 0, 6000, TICKS_PER_HOUR, 0)).unwrap();
    let r = sim.report();
    assert_eq!(r.average_wait, None);
    assert_eq!(r.average_utilization, None);
    assert_eq!(r.max_utilization, None);
    assert_eq!(r.average_full, None);
    assert_eq!(r.throughput, Some(0));
}

#[test]
fn report_derives_figures() {
    let horizon = TICKS_PER_HOUR;
    let mut c = config(2, 1, 10 * horizon, horizon, horizon + 1);
    c.capacity = 4;
    let mut sim = Simulation::new(c).unwrap();
    for _ in 0..3 {
        sim.admit_customer(0, 1, u64::MAX);
    }
    let mut rng = ChaCha8Rng::seed_from_u64(0);
    while let Some(ev) = sim.pop_event() {
        sim.handle(ev, &mut rng, 0);
    }
    let r = sim.report();
    assert_eq!(r.boarded, 3);
    assert_eq!(r.departed, 3);
    assert_eq!(r.average_wait, Some(1000));
    // 3 departed over one hour, in thousandths
    assert_eq!(r.throughput, Some(3000));
    // one sample at 3 of 4 places: 75%
    assert_eq!(r.average_utilization, Some(75_000));
    assert_eq!(r.max_utilization, Some(75_000));
    assert_eq!(r.average_full, Some(0));
}

#[test]
fn arrival_rate_follows_demand() {
    let mut sim = Simulation::new(config(2, 1, 6000, TICKS_PER_HOUR, 0)).unwrap();
    assert_eq!(sim.arrival_rate(0), Some(2 * RATE_SCALE));
    assert_eq!(sim.arrival_rate(2), None);
    sim.clock = TICKS_PER_HOUR;
    assert_eq!(sim.arrival_rate(0), None);
}
