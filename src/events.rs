use vstd::prelude::*;
use crate::entities::Direction;

verus! {

/// What happens at a scheduled instant.
#[derive(Clone, Copy, Debug, PartialEq, Eq, Structural)]
pub enum Event {
    /// A train (first field) reaches a station (second field).
    TrainArrival(usize, usize),
    /// A train (first field) leaves its station for the next one (second field).
    TrainDeparture(usize, usize),
    /// A train is put on the line in the given direction.
    TrainRelease(Direction),
    /// A customer appears at a station.
    CustomerArrival(usize),
    /// Marks the end of the run.
    Sentinel,
}

/// An event with the time at which it is due.
#[derive(Clone, Copy, Debug, PartialEq, Eq, Structural)]
pub struct Scheduled {
    pub time: u64,
    pub event: Event,
}

/// Times never increase along `s`.
pub open spec fn sorted_desc(s: Seq<Scheduled>) -> bool {
    forall|i: int, j: int| 0 <= i <= j < s.len() ==> s[i].time >= s[j].time
}

/// Every entry of `s` before `pos` is due later than `time`, every entry
/// from `pos` on no later.
pub open spec fn splits_at(s: Seq<Scheduled>, pos: int, time: u64) -> bool {
    &&& 0 <= pos <= s.len()
    &&& forall|j: int| 0 <= j < pos ==> s[j].time > time
    &&& forall|j: int| pos <= j < s.len() ==> s[j].time <= time
}

/// A priority queue of events by due time.
///
/// The entries are kept with due times in non-increasing order, so the
/// next event to pop is the last one. Events due at the same time come out
/// in the order in which they were scheduled.
#[derive(Debug)]
pub struct EventQueue {
    items: Vec<Scheduled>,
}

impl View for EventQueue {
    type V = Seq<Scheduled>;

    closed spec fn view(&self) -> Seq<Scheduled> {
        self.items@
    }
}

impl EventQueue {
    pub open spec fn wf(&self) -> bool {
        sorted_desc(self@)
    }

    /// An empty queue.
    pub fn new() -> (r: EventQueue)
        ensures
            r.wf(),
            r@ == Seq::<Scheduled>::empty(),
    {
        EventQueue { items: Vec::new() }
    }

    /// Number of pending events.
    pub fn len(&self) -> (r: usize)
        ensures
            r == self@.len(),
    {
        self.items.len()
    }

    /// Whether no event is pending.
    pub fn is_empty(&self) -> (r: bool)
        ensures
            r == (self@.len() == 0),
    {
        self.items.len() == 0
    }

    /// Adds `event`, due at `time`, behind every pending event due at the
    /// same time or earlier.
    pub fn schedule(&mut self, event: Event, time: u64)
        requires
            old(self).wf(),
        ensures
            final(self).wf(),
            exists|pos: int|
                splits_at(old(self)@, pos, time) && final(self)@ == old(self)@.insert(
                    pos,
                    Scheduled { time, event },
                ),
            final(self)@.to_multiset() == old(self)@.to_multiset().insert(
                Scheduled { time, event },
            ),
            forall|i: int|
                0 <= i < final(self)@.len() ==> #[trigger] final(self)@[i] == (Scheduled {
                    time,
                    event,
                }) || old(self)@.contains(final(self)@[i]),
    {
        let mut lo: usize = 0;
        let mut hi: usize = self.items.len();
        while lo < hi
            invariant
                self.wf(),
                0 <= lo <= hi <= self@.len(),
                forall|j: int| 0 <= j < lo ==> self@[j].time > time,
                forall|j: int| hi <= j < self@.len() ==> self@[j].time <= time,
            decreases hi - lo,
        {
            let mid = lo + (hi - lo) / 2;
            if self.items[mid].time > time {
                lo = mid + 1;
            } else {
                hi = mid;
            }
        }
        let item = Scheduled { time, event };
        let ghost before = self@;
        self.items.insert(lo, item);
        assert(splits_at(before, lo as int, time));
        proof {
            broadcast use vstd::seq_lib::group_to_multiset_ensures;

            assert(self@.remove(lo as int) =~= before);
            assert(self@[lo as int] == item);
            assert(self@.to_multiset().count(item) > 0);
            assert(self@.to_multiset() =~= before.to_multiset().insert(item));
            assert forall|i: int| 0 <= i < self@.len() implies #[trigger] self@[i] == item
                || before.contains(self@[i]) by {
                if i < lo {
                    assert(self@[i] == before[i]);
                } else if i > lo {
                    assert(self@[i] == before[i - 1]);
                }
            }
        }
        assert forall|i: int, j: int| 0 <= i <= j < self@.len() implies self@[i].time
            >= self@[j].time by {
            assert(sorted_desc(before));
        }
    }

    /// Removes and returns the pending event due first, or `None` when the
    /// queue is empty.
    pub fn pop_next(&mut self) -> (r: Option<Scheduled>)
        requires
            old(self).wf(),
        ensures
            final(self).wf(),
            old(self)@.len() == 0 ==> r is None && *final(self) == *old(self),
            old(self)@.len() > 0 ==> r == Some(old(self)@.last()) && final(self)@ == old(
                self,
            )@.drop_last(),
            r matches Some(x) ==> forall|i: int|
                0 <= i < old(self)@.len() ==> x.time <= #[trigger] old(self)@[i].time,
            r matches Some(x) ==> final(self)@.to_multiset() == old(self)@.to_multiset().remove(x),
    {
        proof {
            broadcast use vstd::seq_lib::group_to_multiset_ensures;

            if self@.len() > 0 {
                assert(self@.remove(self@.len() - 1) =~= self@.drop_last());
            }
        }
        if self.items.len() == 0 {
            return None;
        }
        self.items.pop()
    }
}

} // verus!
