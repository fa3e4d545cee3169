//! Simulated time and the time-ordered event timeline.
use vstd::prelude::*;

verus! {

/// A point in simulated time, counted in minutes since the start of a run.
#[derive(Debug, Clone, Copy, PartialEq, Eq, Structural, PartialOrd, Ord, Hash)]
pub struct SimulationTime(pub u32);

impl SimulationTime {
    pub fn new(minutes: u32) -> (r: SimulationTime)
        ensures
            r.0 == minutes,
    {
        SimulationTime(minutes)
    }

    pub fn as_minutes(&self) -> (r: u32)
        ensures
            r == self.0,
    {
        self.0
    }

    /// Minutes from `self` until `other`; zero when `other` is not later.
    pub fn duration_until(&self, other: SimulationTime) -> (r: u32)
        ensures
            r == if other.0 >= self.0 { (other.0 - self.0) as u32 } else { 0u32 },
    {
        if other.0 >= self.0 {
            other.0 - self.0
        } else {
            0
        }
    }

    pub fn add_minutes(&self, minutes: u32) -> (r: SimulationTime)
        requires
            self.0 + minutes <= u32::MAX,
        ensures
            r.0 == self.0 + minutes,
    {
        SimulationTime(self.0 + minutes)
    }
}

/// What happens at an event.
#[derive(Debug, Clone, Copy, PartialEq, Eq, Structural)]
pub enum EventType {
    ProcessStart { machine_id: u32, process_id: u32 },
    ProcessComplete { machine_id: u32, process_id: u32 },
    MaterialArrival { material_id: u32 },
    StaffAvailable { staff_id: u32 },
    StaffAssigned { staff_id: u32, machine_id: u32, process_id: u32 },
    StaffReleased { staff_id: u32, machine_id: u32 },
    StaffUnavailable { machine_id: u32, process_id: u32 },
}

/// An event together with the time at which it happens.
#[derive(Debug, Clone, Copy)]
pub struct Event {
    pub time: SimulationTime,
    pub event_type: EventType,
}

/// `i` is the position of the earliest event of `q`, and the first of the
/// events that share that time.
pub open spec fn is_first_earliest(q: Seq<Event>, i: int) -> bool {
    &&& 0 <= i < q.len()
    &&& forall|j: int| 0 <= j < q.len() ==> q[i].time.0 <= #[trigger] q[j].time.0
    &&& forall|j: int| 0 <= j < i ==> q[i].time.0 < #[trigger] q[j].time.0
}

/// The latest time among the events of `q` (zero for no events).
pub open spec fn latest_time(q: Seq<Event>) -> u32
    decreases q.len(),
{
    if q.len() == 0 {
        0
    } else {
        let rest = latest_time(q.drop_last());
        if q.last().time.0 > rest {
            q.last().time.0
        } else {
            rest
        }
    }
}

/// `latest_time` bounds every event of `q` and is the time of one of them.
proof fn lemma_latest_time(q: Seq<Event>)
    requires
        q.len() > 0,
    ensures
        forall|j: int| 0 <= j < q.len() ==> #[trigger] q[j].time.0 <= latest_time(q),
        exists|j: int| 0 <= j < q.len() && q[j].time.0 == latest_time(q),
    decreases q.len(),
{
    let rest = q.drop_last();
    if q.len() == 1 {
        assert(q[0].time.0 == latest_time(q));
    } else {
        lemma_latest_time(rest);
        assert forall|j: int| 0 <= j < q.len() implies #[trigger] q[j].time.0 <= latest_time(q) by {
            if j < q.len() - 1 {
                assert(q[j] == rest[j]);
            }
        }
        if q.last().time.0 > latest_time(rest) {
            assert(q[q.len() - 1].time.0 == latest_time(q));
        } else {
            let k = choose|k: int| 0 <= k < rest.len() && rest[k].time.0 == latest_time(rest);
            assert(q[k] == rest[k]);
        }
    }
}

/// Taking out an earliest event leaves the latest time unchanged, or, when it
/// was the only event, the latest time was its time.
proof fn lemma_latest_after_removing_earliest(q: Seq<Event>, i: int)
    requires
        is_first_earliest(q, i),
    ensures
        q.remove(i).len() > 0 ==> latest_time(q.remove(i)) == latest_time(q),
        q.remove(i).len() == 0 ==> latest_time(q) == q[i].time.0,
{
    let r = q.remove(i);
    lemma_latest_time(q);
    if r.len() > 0 {
        lemma_latest_time(r);
        let k = choose|k: int| 0 <= k < r.len() && r[k].time.0 == latest_time(r);
        if k < i {
            assert(r[k] == q[k]);
        } else {
            assert(r[k] == q[k + 1]);
        }
        let j = choose|j: int| 0 <= j < q.len() && q[j].time.0 == latest_time(q);
        if j < i {
            assert(r[j] == q[j]);
        } else if j > i {
            assert(r[j - 1] == q[j]);
        } else {
            assert(r[0] == q[if i == 0 { 1 } else { 0 }]);
        }
    } else {
        assert(q.len() == 1);
    }
}

/// Two steps in a row, with nothing scheduled in between, return events in
/// time order: the second event is never earlier than the first.
pub proof fn lemma_steps_in_time_order(q: Seq<Event>, i: int, k: int)
    requires
        is_first_earliest(q, i),
        is_first_earliest(q.remove(i), k),
    ensures
        q[i].time.0 <= q.remove(i)[k].time.0,
{
    if k < i {
        assert(q.remove(i)[k] == q[k]);
    } else {
        assert(q.remove(i)[k] == q[k + 1]);
    }
}

/// Positions of first earliest events are unique.
pub proof fn lemma_first_earliest_index(q: Seq<Event>, i: int, j: int)
    requires
        is_first_earliest(q, i),
        is_first_earliest(q, j),
    ensures
        i == j,
{
    if i < j {
        assert(q[j].time.0 < q[i].time.0);
    } else if j < i {
        assert(q[i].time.0 < q[j].time.0);
    }
}

/// The events of `q` in the order in which the timeline hands them out:
/// earliest first, and among equal times in the order of scheduling.
pub open spec fn drain_order(q: Seq<Event>) -> Seq<Event>
    decreases q.len(),
{
    let i = choose|i: int| is_first_earliest(q, i);
    if q.len() > 0 && 0 <= i < q.len() {
        seq![q[i]] + drain_order(q.remove(i))
    } else {
        Seq::empty()
    }
}

/// A nonempty timeline has a first earliest event.
pub proof fn lemma_first_earliest_exists(q: Seq<Event>)
    requires
        q.len() > 0,
    ensures
        exists|i: int| is_first_earliest(q, i),
    decreases q.len(),
{
    if q.len() == 1 {
        assert(is_first_earliest(q, 0));
    } else {
        let r = q.drop_last();
        lemma_first_earliest_exists(r);
        let i = choose|i: int| is_first_earliest(r, i);
        assert forall|j: int| 0 <= j < r.len() implies q[j] == r[j] by {}
        if q.last().time.0 < q[i].time.0 {
            assert(is_first_earliest(q, q.len() - 1));
        } else {
            assert(is_first_earliest(q, i));
        }
    }
}

/// Stepping a timeline to the end hands out every event once, never a
/// later one before an earlier one: `drain_order` holds as many events as
/// the timeline, each taken from it, in non-decreasing time.
pub proof fn lemma_drain_order_sorted(q: Seq<Event>)
    ensures
        drain_order(q).len() == q.len(),
        forall|k: int| 0 <= k < q.len() ==> q.contains(#[trigger] drain_order(q)[k]),
        forall|a: int, b: int| 0 <= a < b < q.len() ==> drain_order(q)[a].time.0 <= drain_order(q)[b].time.0,
    decreases q.len(),
{
    if q.len() > 0 {
        lemma_first_earliest_exists(q);
        let i = choose|i: int| is_first_earliest(q, i);
        let rest = q.remove(i);
        lemma_drain_order_sorted(rest);
        let d = drain_order(q);
        assert(d == seq![q[i]] + drain_order(rest));
        assert forall|k: int| 0 <= k < rest.len() implies q.contains(#[trigger] rest[k]) by {
            if k < i {
                assert(rest[k] == q[k]);
            } else {
                assert(rest[k] == q[k + 1]);
            }
        }
        assert forall|k: int| 0 <= k < q.len() implies q.contains(#[trigger] d[k]) by {
            if k > 0 {
                assert(d[k] == drain_order(rest)[k - 1]);
                assert(rest.contains(drain_order(rest)[k - 1]));
            } else {
                assert(d[0] == q[i]);
            }
        }
        assert forall|a: int, b: int| 0 <= a < b < q.len() implies d[a].time.0 <= d[b].time.0 by {
            assert(d[b] == drain_order(rest)[b - 1]);
            if a > 0 {
                assert(d[a] == drain_order(rest)[a - 1]);
            } else {
                assert(rest.contains(drain_order(rest)[b - 1]));
                let y = choose|y: int| 0 <= y < rest.len() && rest[y] == drain_order(rest)[b - 1];
                assert(q.contains(rest[y]));
                let z = choose|z: int| 0 <= z < q.len() && q[z] == rest[y];
                assert(q[i].time.0 <= q[z].time.0);
            }
        }
    }
}

/// The clock and the pending events.
///
/// Events leave the timeline earliest time first. Among events that share a
/// time, the one scheduled first leaves first: the timeline picks insertion
/// order as its secondary key, so that runs are reproducible.
pub struct Simulator {
    pub current_time: SimulationTime,
    pub event_queue: Vec<Event>,
}

impl Simulator {
    /// The pending events, in the order in which they were scheduled.
    pub open spec fn pending(&self) -> Seq<Event> {
        self.event_queue@
    }

    pub fn new() -> (r: Simulator)
        ensures
            r.current_time.0 == 0,
            r.pending() == Seq::<Event>::empty(),
    {
        Simulator { current_time: SimulationTime(0), event_queue: Vec::new() }
    }

    /// Adds an event; its time may lie before the current time.
    pub fn schedule_event(&mut self, time: SimulationTime, event_type: EventType)
        ensures
            final(self).pending() == old(self).pending().push(Event { time, event_type }),
            final(self).current_time == old(self).current_time,
    {
        self.event_queue.push(Event { time, event_type });
    }

    pub fn has_events(&self) -> (r: bool)
        ensures
            r == (self.pending().len() > 0),
    {
        self.event_queue.len() > 0
    }

    /// The position of the event that leaves the timeline next.
    fn earliest_index(&self) -> (r: usize)
        requires
            self.pending().len() > 0,
        ensures
            is_first_earliest(self.pending(), r as int),
    {
        let mut best: usize = 0;
        let mut i: usize = 1;
        while i < self.event_queue.len()
            invariant
                1 <= i <= self.event_queue@.len(),
                best < i,
                forall|j: int| 0 <= j < i ==> self.event_queue@[best as int].time.0 <= #[trigger] self.event_queue@[j].time.0,
                forall|j: int| 0 <= j < best ==> self.event_queue@[best as int].time.0 < #[trigger] self.event_queue@[j].time.0,
            decreases self.event_queue@.len() - i,
        {
            if self.event_queue[i].time.0 < self.event_queue[best].time.0 {
                best = i;
            }
            i += 1;
        }
        best
    }

    /// The event that leaves the timeline next, left in place.
    pub fn peek_next_event(&self) -> (r: Option<&Event>)
        ensures
            self.pending().len() == 0 ==> r is None,
            self.pending().len() > 0 ==> exists|i: int|
                is_first_earliest(self.pending(), i) && r == Some(&self.pending()[i]),
    {
        if self.event_queue.len() == 0 {
            None
        } else {
            let i = self.earliest_index();
            Some(&self.event_queue[i])
        }
    }

    /// Removes and returns the earliest event; the clock does not move.
    pub fn next_event(&mut self) -> (r: Option<Event>)
        ensures
            final(self).current_time == old(self).current_time,
            old(self).pending().len() == 0 ==> r is None && final(self).pending() == old(self).pending(),
            old(self).pending().len() > 0 ==> exists|i: int|
                is_first_earliest(old(self).pending(), i) && r == Some(old(self).pending()[i])
                    && final(self).pending() == old(self).pending().remove(i),
    {
        if self.event_queue.len() == 0 {
            None
        } else {
            let i = self.earliest_index();
            let e = self.event_queue.remove(i);
            Some(e)
        }
    }

    /// Removes the earliest event and moves the clock to its time.
    ///
    /// No event that stays pending is earlier than the one returned.
    pub fn step(&mut self) -> (r: Option<Event>)
        ensures
            old(self).pending().len() == 0 ==> r is None && final(self).pending() == old(self).pending()
                && final(self).current_time == old(self).current_time,
            old(self).pending().len() > 0 ==> exists|i: int|
                is_first_earliest(old(self).pending(), i) && r == Some(old(self).pending()[i])
                    && final(self).pending() == old(self).pending().remove(i),
            r matches Some(e) ==> final(self).current_time == e.time,
            r matches Some(e) ==> forall|k: int| 0 <= k < final(self).pending().len()
                ==> e.time.0 <= #[trigger] final(self).pending()[k].time.0,
    {
        let r = self.next_event();
        match r {
            Some(event) => {
                self.current_time = event.time;
                proof {
                    let i = choose|i: int| is_first_earliest(old(self).pending(), i) && r == Some(old(self).pending()[i])
                        && self.pending() == old(self).pending().remove(i);
                    assert forall|k: int| 0 <= k < self.pending().len()
                        implies event.time.0 <= #[trigger] self.pending()[k].time.0 by {
                        if k < i {
                            assert(self.pending()[k] == old(self).pending()[k]);
                        } else {
                            assert(self.pending()[k] == old(self).pending()[k + 1]);
                        }
                    }
                }
                Some(event)
            },
            None => None,
        }
    }

    /// Steps through every pending event, earliest first, and hands each to
    /// `callback` together with the simulator as it stands after the step,
    /// its clock at the event's time. Returns the events in the order handed.
    pub fn run_all<F: FnMut(&Simulator, Event)>(&mut self, mut callback: F) -> (handed: Ghost<Seq<Event>>)
        requires
            forall|s: &Simulator, e: Event| s.current_time == e.time ==> call_requires(callback, (s, e)),
        ensures
            handed@ == drain_order(old(self).pending()),
            final(self).pending().len() == 0,
            old(self).pending().len() > 0 ==> final(self).current_time.0 == latest_time(old(self).pending()),
            old(self).pending().len() == 0 ==> final(self).current_time == old(self).current_time,
    {
        let ghost first = old(self).pending();
        let ghost mut handed: Seq<Event> = Seq::empty();
        while self.event_queue.len() > 0
            invariant
                forall|s: &Simulator, e: Event| s.current_time == e.time ==> call_requires(callback, (s, e)),
                handed + drain_order(self.pending()) == drain_order(first),
                first.len() == 0 ==> self.pending().len() == 0 && self.current_time == old(self).current_time,
                first.len() > 0 && self.pending().len() > 0 ==> latest_time(self.pending()) == latest_time(first),
                first.len() > 0 && self.pending().len() == 0 ==> self.current_time.0 == latest_time(first),
            decreases self.event_queue@.len(),
        {
            let ghost before = self.pending();
            let event = self.step();
            proof {
                let i = choose|i: int| is_first_earliest(before, i) && event == Some(before[i])
                    && self.pending() == before.remove(i);
                lemma_latest_after_removing_earliest(before, i);
                let c = choose|c: int| is_first_earliest(before, c);
                lemma_first_earliest_index(before, i, c);
                assert(drain_order(before) == seq![before[i]] + drain_order(before.remove(i)));
                handed = handed.push(before[i]);
                assert(handed + drain_order(self.pending()) =~= drain_order(first));
            }
            match event {
                Some(e) => callback(self, e),
                None => {},
            }
        }
        assert(drain_order(self.pending()) =~= Seq::<Event>::empty());
        assert(handed =~= drain_order(first));
        Ghost(handed)
    }

    pub fn elapsed_time(&self) -> (r: u32)
        ensures
            r == self.current_time.0,
    {
        self.current_time.as_minutes()
    }

    /// Moves the clock to `time` without consuming events.
    pub fn set_time(&mut self, time: SimulationTime)
        ensures
            final(self).current_time == time,
            final(self).pending() == old(self).pending(),
    {
        self.current_time = time;
    }
}

} // verus!
