use vstd::prelude::*;
use std::collections::VecDeque;
use crate::entities::{Direction, Station};

verus! {

/// A single unbranched line: its stations from west (index 0) to east,
/// the travel time of each segment between neighbours, the hourly demand
/// multipliers shared by all stations, and one pool of staged trains for
/// each direction.
#[derive(Debug)]
pub struct Line {
    pub name: String,
    pub stations: Vec<Station>,
    /// `travel_times[i]` is the time, in ticks, between stations `i` and `i + 1`.
    pub travel_times: Vec<u64>,
    /// Demand multiplier at each hour boundary, in hundredths.
    pub demand: Vec<u32>,
    /// Trains waiting to be released eastward from station 0.
    pub east_pool: VecDeque<usize>,
    /// Trains waiting to be released westward from the last station.
    pub west_pool: VecDeque<usize>,
}

/// The segment crossed by a train leaving `at` in direction `dir`.
pub open spec fn segment(dir: Direction, at: int) -> int {
    match dir {
        Direction::East => at,
        Direction::West => at - 1,
    }
}

/// The station after `at` in direction `dir`.
pub open spec fn next_station(dir: Direction, at: int) -> int {
    match dir {
        Direction::East => at + 1,
        Direction::West => at - 1,
    }
}

impl Line {
    pub open spec fn n(&self) -> int {
        self.stations@.len() as int
    }

    /// At least two stations, one travel time per segment, and every
    /// station's queues consistent with its place on the line.
    pub open spec fn wf(&self) -> bool {
        &&& self.n() >= 2
        &&& self.travel_times@.len() == self.n() - 1
        &&& forall|s: int| 0 <= s < self.n() ==> #[trigger] self.stations@[s].wf(s, self.n())
    }

    /// A line whose stations have the given names and baseline rates, with
    /// no one waiting and no train staged.
    pub fn new(
        name: String,
        station_names: &Vec<String>,
        travel_times: Vec<u64>,
        baselines: &Vec<u32>,
        demand: Vec<u32>,
    ) -> (r: Line)
        requires
            station_names@.len() == baselines@.len(),
        ensures
            r.name == name,
            r.stations@.len() == station_names@.len(),
            forall|s: int|
                0 <= s < r.stations@.len() ==> {
                    &&& (#[trigger] r.stations@[s]).name == station_names@[s]
                    &&& r.stations@[s].baseline == baselines@[s]
                    &&& r.stations@[s].east_queue@.len() == 0
                    &&& r.stations@[s].west_queue@.len() == 0
                },
            r.travel_times@ == travel_times@,
            r.demand@ == demand@,
            r.east_pool@ == Seq::<usize>::empty(),
            r.west_pool@ == Seq::<usize>::empty(),
    {
        let mut stations: Vec<Station> = Vec::new();
        let mut i: usize = 0;
        while i < station_names.len()
            invariant
                station_names@.len() == baselines@.len(),
                i <= station_names@.len(),
                stations@.len() == i,
                forall|s: int|
                    0 <= s < i ==> {
                        &&& (#[trigger] stations@[s]).name == station_names@[s]
                        &&& stations@[s].baseline == baselines@[s]
                        &&& stations@[s].east_queue@.len() == 0
                        &&& stations@[s].west_queue@.len() == 0
                    },
            decreases station_names@.len() - i,
        {
            stations.push(Station::new(station_names[i].clone(), baselines[i]));
            i += 1;
        }
        Line {
            name,
            stations,
            travel_times,
            demand,
            east_pool: VecDeque::new(),
            west_pool: VecDeque::new(),
        }
    }

    /// Number of stations.
    pub fn length(&self) -> (r: usize)
        ensures
            r == self.n(),
    {
        self.stations.len()
    }

    /// Name of station `id`.
    pub fn id_to_name(&self, id: usize) -> (r: &String)
        requires
            id < self.n(),
        ensures
            *r == self.stations@[id as int].name,
    {
        &self.stations[id].name
    }

    /// Takes the next train out of the westward pool.
    pub fn release_westward(&mut self) -> (r: Option<usize>)
        ensures
            old(self).west_pool@.len() == 0 ==> r is None && *final(self) == *old(self),
            old(self).west_pool@.len() > 0 ==> r == Some(old(self).west_pool@[0])
                && final(self).west_pool@ == old(self).west_pool@.drop_first(),
            *final(self) == (Line { west_pool: final(self).west_pool, ..*old(self) }),
    {
        if self.west_pool.len() == 0 {
            return None;
        }
        self.west_pool.pop_front()
    }

    /// Takes the next train out of the eastward pool.
    pub fn release_eastward(&mut self) -> (r: Option<usize>)
        ensures
            old(self).east_pool@.len() == 0 ==> r is None && *final(self) == *old(self),
            old(self).east_pool@.len() > 0 ==> r == Some(old(self).east_pool@[0])
                && final(self).east_pool@ == old(self).east_pool@.drop_first(),
            *final(self) == (Line { east_pool: final(self).east_pool, ..*old(self) }),
    {
        if self.east_pool.len() == 0 {
            return None;
        }
        self.east_pool.pop_front()
    }

    /// The time to cross the segment leaving station `at` in direction
    /// `dir`: eastward the segment at `at`, westward the one at `at - 1`.
    pub fn travel_time(&self, dir: Direction, at: usize) -> (r: u64)
        requires
            self.travel_times@.len() == self.n() - 1,
            0 <= segment(dir, at as int) < self.n() - 1,
        ensures
            r == self.travel_times@[segment(dir, at as int)],
    {
        match dir {
            Direction::East => self.travel_times[at],
            Direction::West => self.travel_times[at - 1],
        }
    }
}

} // verus!
