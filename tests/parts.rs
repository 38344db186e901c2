use railsim::config::{validate, Config, ConfigError};
use railsim::demand::{current_rate, RATE_SCALE};
use railsim::dispatch::{DispatchPolicy, PolicyKind, DEFAULT_HEADWAY};
use railsim::entities::{Customer, Direction, Station, Train};
use railsim::events::{Event, EventQueue};
use railsim::line::Line;
use railsim::random::{destination_from_draw, draw_destination};
use railsim::units::TICKS_PER_HOUR;
use rand::SeedableRng;
use rand_chacha::ChaCha8Rng;

fn names(n: usize) -> Vec<String> {
    (0..n).map(|i| format!("S{}", i)).collect()
}

fn base_config() -> Config {
    Config {
        line_name: String::from("Test Line"),
        station_names: names(3),
        travel_times: vec![1000, 2000],
        baselines: vec![1000, 2000, 3000],
        demand: vec![100, 100, 100],
        trains: 2,
        capacity: 10,
        dwell: 500,
        horizon: 2 * TICKS_PER_HOUR,
        first_arrival: 10_000,
        policy: DispatchPolicy::Constant(6000),
    }
}

#[test]
fn queue_pops_in_time_order() {
    let mut q = EventQueue::new();
    q.schedule(Event::Sentinel, 50);
    q.schedule(Event::CustomerArrival(1), 10);
    q.schedule(Event::CustomerArrival(2), 30);
    q.schedule(Event::CustomerArrival(3), 20);
    assert_eq!(q.len(), 4);
    let times: Vec<u64> = (0..4).map(|_| q.pop_next().unwrap().time).collect();
    assert_eq!(times, vec![10, 20, 30, 50]);
    assert!(q.is_empty());
    assert!(q.pop_next().is_none());
}

#[test]
fn queue_breaks_ties_in_scheduling_order() {
    let mut q = EventQueue::new();
    q.schedule(Event::TrainRelease(Direction::East), 0);
    q.schedule(Event::TrainRelease(Direction::West), 0);
    q.schedule(Event::CustomerArrival(7), 0);
    assert_eq!(q.pop_next().unwrap().event, Event::TrainRelease(Direction::East));
    assert_eq!(q.pop_next().unwrap().event, Event::TrainRelease(Direction::West));
    assert_eq!(q.pop_next().unwrap().event, Event::CustomerArrival(7));
}

#[test]
fn rate_halfway_is_mean_of_knots() {
    // baseline * (a + b) / 2 customers per minute, in units of 1 / RATE_SCALE
    let r = current_rate(2000, &vec![40, 60], TICKS_PER_HOUR / 2);
    assert_eq!(r * 2, 2000 * (40 + 60) * TICKS_PER_HOUR as u128);
    assert_eq!(r, 2000 * 50 * TICKS_PER_HOUR as u128);
}

#[test]
fn rate_interpolates_linearly() {
    // a quarter into the second hour: 3/4 of table[1] and 1/4 of table[2]
    let t = TICKS_PER_HOUR + TICKS_PER_HOUR / 4;
    let r = current_rate(1000, &vec![0, 100, 200], t);
    assert_eq!(r, 1000 * (45_000 * 100 + 15_000 * 200));
    // exactly at a knot the rate is that knot's multiplier
    let r0 = current_rate(1000, &vec![0, 100, 200], TICKS_PER_HOUR);
    assert_eq!(r0, 1000 * 100 * TICKS_PER_HOUR as u128);
    // 1.0 customers per minute at baseline 1.0 and multiplier 1.0
    assert_eq!(r0, RATE_SCALE);
}

#[test]
fn station_rate_uses_its_baseline() {
    let s = Station::new(String::from("A"), 3000);
    assert_eq!(s.current_rate(&vec![100, 100], 0), 3 * RATE_SCALE);
}

#[test]
fn constant_policy_uses_default_headway() {
    match DispatchPolicy::configure(PolicyKind::Constant, None, vec![]) {
        Ok(DispatchPolicy::Constant(h)) => assert_eq!(h, DEFAULT_HEADWAY),
        _ => panic!("expected a constant policy"),
    }
    match DispatchPolicy::configure(PolicyKind::Constant, Some(2500), vec![]) {
        Ok(p) => assert_eq!(p.release_delay(123, 1000), 2500),
        _ => panic!("expected a constant policy"),
    }
}

#[test]
fn unsupported_policies_are_refused() {
    assert_eq!(
        DispatchPolicy::configure(PolicyKind::TimeBased, Some(1), vec![]).unwrap_err(),
        ConfigError::UnsupportedPolicy
    );
    assert_eq!(
        DispatchPolicy::configure(PolicyKind::PopBased, None, vec![]).unwrap_err(),
        ConfigError::UnsupportedPolicy
    );
    assert_eq!(
        DispatchPolicy::configure(PolicyKind::Constant, Some(0), vec![]).unwrap_err(),
        ConfigError::ZeroHeadway
    );
}

#[test]
fn calendar_is_read_by_clamped_hour() {
    let p = DispatchPolicy::configure(PolicyKind::EmpiricalCalendar, None, vec![8000, 6000, 4000])
        .unwrap();
    let horizon = 2 * TICKS_PER_HOUR;
    assert_eq!(p.release_delay(0, horizon), 8000);
    assert_eq!(p.release_delay(TICKS_PER_HOUR - 1, horizon), 8000);
    assert_eq!(p.release_delay(TICKS_PER_HOUR + 30_000, horizon), 6000);
    assert_eq!(p.release_delay(horizon, horizon), 4000);
    assert_eq!(p.release_delay(10 * horizon, horizon), 4000);
}

#[test]
fn validation_names_each_error() {
    assert_eq!(validate(&base_config()), Ok(()));
    let mut c = base_config();
    c.station_names = names(1);
    assert_eq!(validate(&c), Err(ConfigError::TooFewStations));
    let mut c = base_config();
    c.travel_times = vec![1000];
    assert_eq!(validate(&c), Err(ConfigError::TravelTimeCount));
    let mut c = base_config();
    c.baselines = vec![1000, 2000];
    assert_eq!(validate(&c), Err(ConfigError::BaselineCount));
    let mut c = base_config();
    c.capacity = 0;
    assert_eq!(validate(&c), Err(ConfigError::ZeroCapacity));
    let mut c = base_config();
    c.demand = vec![100, 100];
    assert_eq!(validate(&c), Err(ConfigError::DemandTableTooShort));
    let mut c = base_config();
    c.policy = DispatchPolicy::Constant(0);
    assert_eq!(validate(&c), Err(ConfigError::ZeroHeadway));
    let mut c = base_config();
    c.policy = DispatchPolicy::EmpiricalCalendar(vec![6000, 6000]);
    assert_eq!(validate(&c), Err(ConfigError::CalendarTooShort));
    let mut c = base_config();
    c.policy = DispatchPolicy::EmpiricalCalendar(vec![6000, 0, 6000]);
    assert_eq!(validate(&c), Err(ConfigError::ZeroHeadway));
    let mut c = base_config();
    c.policy = DispatchPolicy::EmpiricalCalendar(vec![6000, 5000, 6000]);
    assert_eq!(validate(&c), Ok(()));
}

#[test]
fn customer_direction_follows_index() {
    assert_eq!(Customer::new(0, 1, 4).direction(), Direction::East);
    assert_eq!(Customer::new(0, 4, 1).direction(), Direction::West);
    let mut s = Station::new(String::from("B"), 1000);
    s.add_customer(Customer::new(5, 1, 4));
    s.add_customer(Customer::new(6, 1, 0));
    s.add_customer(Customer::new(7, 1, 2));
    assert_eq!(s.east_queue.len(), 2);
    assert_eq!(s.west_queue.len(), 1);
    assert_eq!(s.east_queue[1].arrival, 7);
}

#[test]
fn train_alights_only_riders_for_station() {
    let mut t = Train::new(0, 10);
    t.onboard.push(Customer::new(0, 0, 2));
    t.onboard.push(Customer::new(1, 0, 3));
    t.onboard.push(Customer::new(2, 1, 2));
    let left = t.alight_at(2);
    assert_eq!(left, 2);
    assert_eq!(t.onboard.len(), 1);
    assert_eq!(t.onboard[0].destination, 3);
    assert_eq!(t.alight_at(2), 0);
}

#[test]
fn usage_sample_flags_full_above_ninety_nine_percent() {
    let mut t = Train::new(0, 100);
    for i in 0..99 {
        t.onboard.push(Customer::new(i, 0, 1));
    }
    assert!(!t.poll_usage());
    t.onboard.push(Customer::new(99, 0, 1));
    assert!(t.poll_usage());
    assert!(!t.has_capacity());
    assert_eq!(t.samples, 2);
    assert_eq!(t.occupancy_sum, 199);
    assert_eq!(t.max_onboard, 100);
    assert_eq!(t.full_samples, 1);
}

#[test]
fn train_state_transitions() {
    let mut t = Train::new(3, 5);
    t.leave_to(2);
    assert!(t.in_motion);
    assert_eq!(t.at_station, 2);
    t.arrive_at(2);
    assert!(!t.in_motion);
    t.switch_direction();
    assert_eq!(t.direction, Direction::West);
    t.switch_direction();
    assert_eq!(t.direction, Direction::East);
    t.active = true;
    t.disable();
    assert!(!t.active && !t.in_motion);
}

#[test]
fn line_travel_time_by_direction() {
    let mut line = Line::new(
        String::from("L"),
        &names(3),
        vec![1000, 2000],
        &vec![1, 2, 3],
        vec![100, 100],
    );
    assert_eq!(line.length(), 3);
    assert_eq!(line.id_to_name(2), "S2");
    assert_eq!(line.travel_time(Direction::East, 0), 1000);
    assert_eq!(line.travel_time(Direction::East, 1), 2000);
    assert_eq!(line.travel_time(Direction::West, 1), 1000);
    assert_eq!(line.travel_time(Direction::West, 2), 2000);
    assert_eq!(line.release_eastward(), None);
    line.west_pool.push_back(4);
    assert_eq!(line.release_westward(), Some(4));
    assert_eq!(line.release_westward(), None);
}

#[test]
fn draw_skips_the_origin() {
    assert_eq!(destination_from_draw(2, 0, 5), 0);
    assert_eq!(destination_from_draw(2, 1, 5), 1);
    assert_eq!(destination_from_draw(2, 2, 5), 3);
    assert_eq!(destination_from_draw(2, 3, 5), 4);
}

#[test]
fn drawn_destinations_are_other_stations() {
    let mut rng = ChaCha8Rng::seed_from_u64(7);
    let mut seen = vec![false; 4];
    for _ in 0..400 {
        let d = draw_destination(&mut rng, 1, 4);
        assert!(d < 4);
        assert_ne!(d, 1);
        seen[d] = true;
    }
    assert_eq!(seen, vec![true, false, true, true]);
    // on two stations the only destination is the other one
    for _ in 0..20 {
        assert_eq!(draw_destination(&mut rng, 0, 2), 1);
        assert_eq!(draw_destination(&mut rng, 1, 2), 0);
    }
}
