use vstd::prelude::*;
use std::collections::VecDeque;
use crate::demand::{current_rate, rate_at};

verus! {

/// Direction of travel. Station 0 is the west terminal and the last
/// station is the east terminal, so eastward travel raises the index.
#[derive(Clone, Copy, Debug, PartialEq, Eq, Structural)]
pub enum Direction {
    East,
    West,
}

impl Direction {
    pub open spec fn opposite_spec(self) -> Direction {
        match self {
            Direction::East => Direction::West,
            Direction::West => Direction::East,
        }
    }

    /// The other direction.
    pub fn opposite(self) -> (r: Direction)
        ensures
            r == self.opposite_spec(),
    {
        match self {
            Direction::East => Direction::West,
            Direction::West => Direction::East,
        }
    }
}

/// The direction in which a rider from `origin` travels to `destination`.
pub open spec fn travel_direction(origin: int, destination: int) -> Direction {
    if destination > origin {
        Direction::East
    } else {
        Direction::West
    }
}

/// A passenger: created at a station, carried by one train, discarded on
/// alighting.
#[derive(Clone, Copy, Debug, PartialEq, Eq, Structural)]
pub struct Customer {
    /// Time at which the customer reached the origin station.
    pub arrival: u64,
    /// Time at which the customer boarded a train, once boarded.
    pub boarded_at: Option<u64>,
    pub origin: usize,
    pub destination: usize,
}

impl Customer {
    /// A customer waiting at `origin` since `arrival`, not yet boarded.
    pub fn new(arrival: u64, origin: usize, destination: usize) -> (r: Customer)
        ensures
            r == (Customer { arrival, boarded_at: None, origin, destination }),
    {
        Customer { arrival, boarded_at: None, origin, destination }
    }

    /// The direction this customer travels in: east when the destination
    /// has the higher index.
    pub fn direction(&self) -> (r: Direction)
        ensures
            r == travel_direction(self.origin as int, self.destination as int),
    {
        if self.destination > self.origin {
            Direction::East
        } else {
            Direction::West
        }
    }
}

/// Holds of a rider who does not leave the train at `station`.
pub open spec fn stays(station: usize) -> spec_fn(Customer) -> bool {
    |c: Customer| c.destination != station
}

/// The riders of `s` who do not leave the train at `station`, in order.
pub open spec fn staying(s: Seq<Customer>, station: usize) -> Seq<Customer> {
    s.filter(stays(station))
}

/// A train: its position, its riders and its running utilisation tallies.
#[derive(Debug)]
pub struct Train {
    pub id: usize,
    /// Seats available to riders.
    pub capacity: u32,
    /// On the line (true) or staged in a pool (false).
    pub active: bool,
    /// The station the train stands at, or is travelling to.
    pub at_station: usize,
    /// Between stations (true) or standing at one (false).
    pub in_motion: bool,
    pub direction: Direction,
    pub onboard: Vec<Customer>,
    /// Number of occupancy samples taken.
    pub samples: u64,
    /// Sum of the rider counts over all samples.
    pub occupancy_sum: u128,
    /// Largest rider count seen in a sample.
    pub max_onboard: u64,
    /// Number of samples in which the train was more than 99% full.
    pub full_samples: u64,
}

/// A rider count is "full" when it exceeds 99% of the capacity.
pub open spec fn is_full(onboard: int, capacity: int) -> bool {
    onboard * 100 > capacity * 99
}

impl Train {
    /// Local consistency of a train on a line of `stations` stations.
    pub open spec fn wf(&self, stations: nat) -> bool {
        &&& self.capacity > 0
        &&& self.onboard@.len() <= self.capacity
        &&& self.at_station < stations
        &&& self.wf_tallies()
    }

    /// The utilisation tallies agree with a rider count bounded by the
    /// capacity at every sample.
    pub open spec fn wf_tallies(&self) -> bool {
        &&& self.occupancy_sum <= self.samples * self.capacity
        &&& self.full_samples <= self.samples
        &&& self.max_onboard <= self.capacity
    }

    /// The train after one occupancy sample of its current rider count;
    /// unchanged once `u64::MAX` samples have been taken.
    pub open spec fn sampled(self) -> Train {
        let riders = self.onboard@.len();
        if self.samples < u64::MAX {
            Train {
                samples: (self.samples + 1) as u64,
                occupancy_sum: (self.occupancy_sum + riders) as u128,
                max_onboard: if riders > self.max_onboard {
                    riders as u64
                } else {
                    self.max_onboard
                },
                full_samples: if is_full(riders as int, self.capacity as int) {
                    (self.full_samples + 1) as u64
                } else {
                    self.full_samples
                },
                ..self
            }
        } else {
            self
        }
    }

    /// A staged, empty train standing at station 0, facing east.
    pub fn new(id: usize, capacity: u32) -> (r: Train)
        ensures
            r.id == id,
            r.capacity == capacity,
            !r.active,
            r.at_station == 0,
            !r.in_motion,
            r.direction == Direction::East,
            r.onboard@ == Seq::<Customer>::empty(),
            r.samples == 0,
            r.occupancy_sum == 0,
            r.max_onboard == 0,
            r.full_samples == 0,
    {
        Train {
            id,
            capacity,
            active: false,
            at_station: 0,
            in_motion: false,
            direction: Direction::East,
            onboard: Vec::new(),
            samples: 0,
            occupancy_sum: 0,
            max_onboard: 0,
            full_samples: 0,
        }
    }

    /// Stands the train at `station`.
    pub fn arrive_at(&mut self, station: usize)
        ensures
            *final(self) == (Train { in_motion: false, at_station: station, ..*old(self) }),
    {
        self.in_motion = false;
        self.at_station = station;
    }

    /// Sets the train moving towards `station`.
    pub fn leave_to(&mut self, station: usize)
        ensures
            *final(self) == (Train { in_motion: true, at_station: station, ..*old(self) }),
    {
        self.in_motion = true;
        self.at_station = station;
    }

    /// Reverses the direction of travel.
    pub fn switch_direction(&mut self)
        ensures
            *final(self) == (Train { direction: old(self).direction.opposite_spec(), ..*old(self) }),
    {
        self.direction = self.direction.opposite();
    }

    /// Takes the train off the line, to wait in a pool.
    pub fn disable(&mut self)
        ensures
            *final(self) == (Train { in_motion: false, active: false, ..*old(self) }),
    {
        self.in_motion = false;
        self.active = false;
    }

    /// Whether another rider fits.
    pub fn has_capacity(&self) -> (r: bool)
        ensures
            r == (self.onboard@.len() < self.capacity),
    {
        self.onboard.len() < self.capacity as usize
    }

    /// Lets off every rider whose destination is `station`, keeping the
    /// others in order; returns how many left.
    pub fn alight_at(&mut self, station: usize) -> (count: usize)
        ensures
            final(self).onboard@ == staying(old(self).onboard@, station),
            count == old(self).onboard@.len() - final(self).onboard@.len(),
            *final(self) == (Train { onboard: final(self).onboard, ..*old(self) }),
            forall|k: int|
                0 <= k < final(self).onboard@.len() ==> old(self).onboard@.contains(
                    #[trigger] final(self).onboard@[k],
                ) && final(self).onboard@[k].destination != station,
    {
        let mut kept: Vec<Customer> = Vec::new();
        let n = self.onboard.len();
        let mut i: usize = 0;
        while i < n
            invariant
                n == self.onboard@.len(),
                i <= n,
                kept@ == staying(self.onboard@.take(i as int), station),
            decreases n - i,
        {
            let c = self.onboard[i];
            proof {
                self.onboard@.lemma_take_succ_push(i as int);
                self.onboard@.take(i as int).lemma_filter_push(c, stays(station));
            }
            if c.destination != station {
                kept.push(c);
            }
            i += 1;
        }
        proof {
            assert(self.onboard@.take(n as int) =~= self.onboard@);
            self.onboard@.lemma_filter_len(stays(station));
            assert forall|k: int| 0 <= k < kept@.len() implies self.onboard@.contains(
                #[trigger] kept@[k],
            ) && kept@[k].destination != station by {
                self.onboard@.lemma_filter_pred(stays(station), k);
                self.onboard@.lemma_filter_contains_rev(stays(station), kept@[k]);
            }
        }
        let count = n - kept.len();
        self.onboard = kept;
        count
    }

    /// Records one occupancy sample: the rider count is added to the
    /// running sum and maximum, and counted as full above 99% of capacity.
    /// Returns whether the train is full. Once `u64::MAX` samples have been
    /// taken, further samples are not recorded.
    pub fn poll_usage(&mut self) -> (full: bool)
        requires
            old(self).onboard@.len() <= old(self).capacity,
            old(self).wf_tallies(),
        ensures
            full == is_full(old(self).onboard@.len() as int, old(self).capacity as int),
            *final(self) == old(self).sampled(),
            final(self).wf_tallies(),
    {
        let riders = self.onboard.len() as u64;
        let full = riders as u128 * 100 > self.capacity as u128 * 99;
        if self.samples < u64::MAX {
            proof {
                let (os, sm, cp) = (self.occupancy_sum as int, self.samples as int, self.capacity as int);
                assert(os + riders <= (sm + 1) * cp) by (nonlinear_arith)
                    requires
                        os <= sm * cp,
                        riders <= cp,
                ;
                assert((sm + 1) * cp <= 0x1_0000_0000_0000_0000 * 0x1_0000_0000) by (nonlinear_arith)
                    requires
                        sm + 1 <= 0x1_0000_0000_0000_0000,
                        0 <= cp <= 0x1_0000_0000,
                ;
            }
            self.samples = self.samples + 1;
            self.occupancy_sum = self.occupancy_sum + riders as u128;
            if riders > self.max_onboard {
                self.max_onboard = riders;
            }
            if full {
                self.full_samples = self.full_samples + 1;
            }
        }
        full
    }
}

/// A station: its name, its baseline arrival rate and one queue of waiting
/// customers for each direction.
#[derive(Debug)]
pub struct Station {
    pub name: String,
    /// Baseline arrival rate, in thousandths of a customer per minute.
    pub baseline: u32,
    pub east_queue: VecDeque<Customer>,
    pub west_queue: VecDeque<Customer>,
}

/// `c` waits at station `index` of a line of `stations` stations, not yet
/// boarded, for a train in direction `dir`.
pub open spec fn waits_at(c: Customer, index: int, stations: int, dir: Direction) -> bool {
    &&& c.origin == index
    &&& c.destination < stations
    &&& c.destination != index
    &&& c.boarded_at is None
    &&& travel_direction(index, c.destination as int) == dir
}

impl Station {
    /// Every customer in a queue waits here for a train of that queue's
    /// direction.
    pub open spec fn wf(&self, index: int, stations: int) -> bool {
        &&& forall|k: int|
            0 <= k < self.east_queue@.len() ==> waits_at(
                #[trigger] self.east_queue@[k],
                index,
                stations,
                Direction::East,
            )
        &&& forall|k: int|
            0 <= k < self.west_queue@.len() ==> waits_at(
                #[trigger] self.west_queue@[k],
                index,
                stations,
                Direction::West,
            )
    }

    /// Number of customers waiting here, both directions.
    pub open spec fn waiting(&self) -> int {
        (self.east_queue@.len() + self.west_queue@.len()) as int
    }

    /// A station with no one waiting.
    pub fn new(name: String, baseline: u32) -> (r: Station)
        ensures
            r.name == name,
            r.baseline == baseline,
            r.east_queue@ == Seq::<Customer>::empty(),
            r.west_queue@ == Seq::<Customer>::empty(),
    {
        Station { name, baseline, east_queue: VecDeque::new(), west_queue: VecDeque::new() }
    }

    /// Puts `c` at the back of the queue of its direction.
    pub fn add_customer(&mut self, c: Customer)
        ensures
            travel_direction(c.origin as int, c.destination as int) == Direction::East ==> (
            final(self).east_queue@ == old(self).east_queue@.push(c) && final(self).west_queue@
                == old(self).west_queue@),
            travel_direction(c.origin as int, c.destination as int) == Direction::West ==> (
            final(self).west_queue@ == old(self).west_queue@.push(c) && final(self).east_queue@
                == old(self).east_queue@),
            final(self).name == old(self).name,
            final(self).baseline == old(self).baseline,
    {
        match c.direction() {
            Direction::East => self.east_queue.push_back(c),
            Direction::West => self.west_queue.push_back(c),
        }
    }

    /// The arrival rate here at `time`; see `current_rate`.
    pub fn current_rate(&self, table: &Vec<u32>, time: u64) -> (r: u128)
        requires
            time / crate::units::TICKS_PER_HOUR + 1 < table@.len(),
        ensures
            r == rate_at(self.baseline as int, table@, time as int),
    {
        current_rate(self.baseline, table, time)
    }
}

} // verus!
