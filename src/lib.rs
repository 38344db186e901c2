//! Discrete-event simulation of passenger flow and train dispatch on a
//! single bidirectional rail line.
//!
//! Simulated time is an integer count of ticks (thousandths of a minute),
//! so every rule of the kernel is exact integer arithmetic.
//!
//! - `events`: the event type and a priority queue by due time; events due
//!   at the same time come out in the order they were scheduled.
//! - `entities`: customers, trains and stations. Station 0 is the west
//!   terminal; a customer whose destination has the higher index travels
//!   east, and waits in the station's eastward queue.
//! - `line`: the stations, the segment travel times and the pools of
//!   staged trains.
//! - `demand`: the time-varying arrival rate of a station. The rate is read
//!   afresh at each arrival, which approximates a non-homogeneous Poisson
//!   process without thinning.
//! - `dispatch`: the headway between releases.
//! - `stats`: running totals and the end-of-run report.
//! - `random`: the draw of a customer's destination.
//! - `config`: a run's parameters and their validation.
//! - `sim`: the state of a run, its invariant, and one handler per event.
pub mod units;
pub mod entities;
pub mod events;
pub mod demand;
pub mod dispatch;
pub mod config;
pub mod line;
pub mod stats;
pub mod random;
pub mod sim;
