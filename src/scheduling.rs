//! The scheduling engine: machines at run time, staff acquisition for a
//! process, and idle-time bookkeeping.
use vstd::prelude::*;
use crate::machine::MachineType;
use crate::staff::{Staff, sat_add, sat_sub};
use crate::time::{Event, EventType, SimulationTime, Simulator};

verus! {

/// Why an idle machine is waiting.
#[derive(Debug, Clone, Copy, PartialEq, Eq, Structural)]
pub enum WaitingReason {
    /// Not enough qualified staff was available to start.
    Staff,
    /// The machine finished its last process and waits for new work.
    NextProcess,
}

/// A machine together with its state during a run.
#[derive(Debug, Clone)]
pub struct MachineState {
    pub machine: MachineType,
    pub is_operating: bool,
    /// Ids of the staff members operating the machine.
    pub assigned_staff: Vec<u32>,
    pub waiting_for: Option<WaitingReason>,
    pub idle_time: u32,
    pub last_status_change: u32,
}

impl MachineState {
    pub fn new(machine: MachineType) -> (r: MachineState)
        ensures
            r.machine == machine,
            !r.is_operating,
            r.assigned_staff@.len() == 0,
            r.waiting_for is None,
            r.idle_time == 0,
            r.last_status_change == 0,
    {
        MachineState {
            machine,
            is_operating: false,
            assigned_staff: Vec::new(),
            waiting_for: None,
            idle_time: 0,
            last_status_change: 0,
        }
    }
}

/// The staff member may be taken for `machine_id` now.
pub open spec fn eligible(s: Staff, machine_id: u32) -> bool {
    s.is_available && s.role.allows(machine_id)
}

/// Positions, in registration order, of the eligible staff among the first `n`.
pub open spec fn eligible_among(staff: Seq<Staff>, machine_id: u32, n: int) -> Seq<int>
    decreases n,
{
    if n <= 0 {
        Seq::empty()
    } else {
        let p = eligible_among(staff, machine_id, n - 1);
        if eligible(staff[n - 1], machine_id) {
            p.push(n - 1)
        } else {
            p
        }
    }
}

/// The staff taken for a machine that needs `k` of them: the first `k`
/// eligible ones in registration order.
pub open spec fn selection(staff: Seq<Staff>, machine_id: u32, k: nat) -> Seq<int> {
    eligible_among(staff, machine_id, staff.len() as int).take(k as int)
}

pub open spec fn enough_staff(staff: Seq<Staff>, machine_id: u32, k: nat) -> bool {
    eligible_among(staff, machine_id, staff.len() as int).len() >= k
}

/// The release events scheduled for the staff at positions `sel`.
pub open spec fn release_events(staff: Seq<Staff>, sel: Seq<int>, machine_id: u32, end: u32) -> Seq<Event> {
    sel.map_values(|i: int| Event {
        time: SimulationTime(end),
        event_type: EventType::StaffReleased { staff_id: staff[i].id, machine_id },
    })
}

pub open spec fn staff_ids(staff: Seq<Staff>, sel: Seq<int>) -> Seq<u32> {
    sel.map_values(|i: int| staff[i].id)
}

proof fn lemma_eligible_among(staff: Seq<Staff>, machine_id: u32, n: int)
    requires
        0 <= n <= staff.len(),
    ensures
        forall|a: int, b: int| 0 <= a < b < eligible_among(staff, machine_id, n).len()
            ==> eligible_among(staff, machine_id, n)[a] < eligible_among(staff, machine_id, n)[b],
        forall|a: int| 0 <= a < eligible_among(staff, machine_id, n).len() ==> {
            let i = #[trigger] eligible_among(staff, machine_id, n)[a];
            0 <= i < n && eligible(staff[i], machine_id)
        },
        forall|i: int| 0 <= i < n && eligible(staff[i], machine_id)
            ==> #[trigger] eligible_among(staff, machine_id, n).contains(i),
        eligible_among(staff, machine_id, n).len() <= n,
    decreases n,
{
    if n > 0 {
        lemma_eligible_among(staff, machine_id, n - 1);
        let p = eligible_among(staff, machine_id, n - 1);
        assert forall|i: int| 0 <= i < n && eligible(staff[i], machine_id)
            implies #[trigger] eligible_among(staff, machine_id, n).contains(i) by {
            if i < n - 1 {
                assert(p.contains(i));
                let a = choose|a: int| 0 <= a < p.len() && p[a] == i;
                assert(eligible_among(staff, machine_id, n)[a] == i);
            } else {
                assert(eligible_among(staff, machine_id, n)[p.len() as int] == i);
            }
        }
    }
}

proof fn lemma_eligible_prefix(staff: Seq<Staff>, machine_id: u32, n: int, m: int)
    requires
        0 <= n <= m,
    ensures
        eligible_among(staff, machine_id, n).len() <= eligible_among(staff, machine_id, m).len(),
        eligible_among(staff, machine_id, m).take(eligible_among(staff, machine_id, n).len() as int)
            == eligible_among(staff, machine_id, n),
    decreases m - n,
{
    if n < m {
        lemma_eligible_prefix(staff, machine_id, n, m - 1);
        let p = eligible_among(staff, machine_id, m - 1);
        let q = eligible_among(staff, machine_id, m);
        let k = eligible_among(staff, machine_id, n).len() as int;
        assert(q.take(k) =~= p.take(k));
    }
}

/// `after` is `before` started at `now`: idle time accrued up to `now`,
/// operating, waiting for nothing; staff as in `before` unless said otherwise.
pub open spec fn started_at(before: MachineState, after: MachineState, now: u32) -> bool {
    &&& after.machine == before.machine
    &&& after.is_operating
    &&& after.waiting_for is None
    &&& after.idle_time == sat_add(before.idle_time, sat_sub(now, before.last_status_change))
    &&& after.last_status_change == now
}

/// `after` is `before` marked as waiting for staff, and nothing else.
pub open spec fn marked_waiting(before: MachineState, after: MachineState) -> bool {
    &&& after.machine == before.machine
    &&& after.is_operating == before.is_operating
    &&& after.assigned_staff@ == before.assigned_staff@
    &&& after.waiting_for == Some(WaitingReason::Staff)
    &&& after.idle_time == before.idle_time
    &&& after.last_status_change == before.last_status_change
}

/// The staff member is marked busy on a machine that is unknown, stopped,
/// or no longer lists them.
pub open spec fn detached(s: Staff, machines: Seq<MachineState>) -> bool {
    match s.current_machine {
        Some(m) => m >= machines.len() || !machines[m as int].is_operating
            || !machines[m as int].assigned_staff@.contains(s.id),
        None => false,
    }
}

/// The staff member freed at `now` whatever the assignment's end.
pub open spec fn forced_free(s: Staff, now: u32) -> Staff {
    Staff { is_available: true, current_machine: None, last_status_change: now, ..s }
}

/// A staff member after the first reconciliation pass at `now`: released
/// when the assignment is over, freed outright when detached from their
/// machine, then, where `accrue` holds, idle time accrued.
pub open spec fn settled(s: Staff, machines: Seq<MachineState>, now: u32, accrue: bool) -> Staff {
    let s1 = if !s.is_available && now >= s.available_at { s.spec_released(now) } else { s };
    let s2 = if !s1.is_available && detached(s1, machines) { forced_free(s1, now) } else { s1 };
    if accrue { s2.spec_idle_until(now) } else { s2 }
}

/// Some stopped machine still lists staff id `id`.
pub open spec fn listed_on_stopped_machine(machines: Seq<MachineState>, id: u32) -> bool {
    exists|j: int| 0 <= j < machines.len() && !machines[j].is_operating
        && (#[trigger] machines[j].assigned_staff@).contains(id)
}

/// No staff member before position `i` has the id of the one at `i`.
pub open spec fn first_with_id(staff: Seq<Staff>, i: int) -> bool {
    forall|k: int| 0 <= k < i ==> (#[trigger] staff[k]).id != staff[i].id
}

/// The staff after a reconciliation pass at `now`, with or without
/// accrual of idle time.
pub open spec fn swept_staff(staff: Seq<Staff>, machines: Seq<MachineState>, now: u32, accrue: bool) -> Seq<Staff> {
    Seq::new(staff.len(), |i: int| {
        let s = settled(staff[i], machines, now, accrue);
        if first_with_id(staff, i) && listed_on_stopped_machine(machines, staff[i].id) {
            s.spec_released(now)
        } else {
            s
        }
    })
}

/// `after` is machine `before` after a reconciliation pass at `now`: a
/// stopped machine lists no staff and, where `accrue` holds, has its idle
/// time accrued up to `now`.
pub open spec fn machine_swept(before: MachineState, after: MachineState, now: u32, accrue: bool) -> bool {
    &&& after.machine == before.machine
    &&& after.is_operating == before.is_operating
    &&& after.waiting_for == before.waiting_for
    &&& after.assigned_staff@ == if before.is_operating { before.assigned_staff@ } else { Seq::empty() }
    &&& if accrue && !before.is_operating && now > before.last_status_change {
        &&& after.idle_time == sat_add(before.idle_time, now - before.last_status_change)
        &&& after.last_status_change == now
    } else {
        &&& after.idle_time == before.idle_time
        &&& after.last_status_change == before.last_status_change
    }
}

/// `after` is `before` after a reconciliation pass at `now`.
pub open spec fn is_swept(before: ProductionSimulator, after: ProductionSimulator, now: u32, accrue: bool) -> bool {
    &&& after.simulator == before.simulator
    &&& after.staff@ == swept_staff(before.staff@, before.machines@, now, accrue)
    &&& after.machines@.len() == before.machines@.len()
    &&& forall|j: int| 0 <= j < before.machines@.len()
        ==> machine_swept(before.machines@[j], #[trigger] after.machines@[j], now, accrue)
}

/// `after` is `before` with its idle-time ledgers reconciled at `now`.
pub open spec fn is_finalized(before: ProductionSimulator, after: ProductionSimulator, now: u32) -> bool {
    is_swept(before, after, now, true)
}

/// Reconciling twice at the same time counts no idle time twice.
pub proof fn lemma_finalize_idempotent(x: ProductionSimulator, y: ProductionSimulator, z: ProductionSimulator, now: u32)
    requires
        is_finalized(x, y, now),
        is_finalized(y, z, now),
    ensures
        z.staff@.len() == y.staff@.len(),
        forall|i: int| 0 <= i < y.staff@.len() ==> (#[trigger] z.staff@[i]).idle_time == y.staff@[i].idle_time,
        z.machines@.len() == y.machines@.len(),
        forall|j: int| 0 <= j < y.machines@.len() ==> (#[trigger] z.machines@[j]).idle_time == y.machines@[j].idle_time,
{
    assert forall|i: int| 0 <= i < y.staff@.len() implies (#[trigger] z.staff@[i]).idle_time == y.staff@[i].idle_time by {
        let s = y.staff@[i];
        assert(s == swept_staff(x.staff@, x.machines@, now, true)[i]);
        assert(s.is_available ==> s.last_status_change >= now);
        assert(z.staff@[i] == swept_staff(y.staff@, y.machines@, now, true)[i]);
    }
    assert forall|j: int| 0 <= j < y.machines@.len() implies (#[trigger] z.machines@[j]).idle_time == y.machines@[j].idle_time by {
        assert(machine_swept(x.machines@[j], y.machines@[j], now, true));
        assert(machine_swept(y.machines@[j], z.machines@[j], now, true));
    }
}

/// Reconciling twice, the second time no earlier than the first, never
/// lowers any staff member's or machine's idle time.
pub proof fn lemma_finalize_monotone(x: ProductionSimulator, y: ProductionSimulator, z: ProductionSimulator, t1: u32, t2: u32)
    requires
        is_finalized(x, y, t1),
        is_finalized(y, z, t2),
        t1 <= t2,
    ensures
        forall|i: int| 0 <= i < x.staff@.len() ==> {
            &&& x.staff@[i].idle_time <= y.staff@[i].idle_time
            &&& y.staff@[i].idle_time <= (#[trigger] z.staff@[i]).idle_time
        },
        forall|j: int| 0 <= j < x.machines@.len() ==> {
            &&& x.machines@[j].idle_time <= y.machines@[j].idle_time
            &&& y.machines@[j].idle_time <= (#[trigger] z.machines@[j]).idle_time
        },
{
    assert forall|i: int| 0 <= i < x.staff@.len() implies {
        &&& x.staff@[i].idle_time <= y.staff@[i].idle_time
        &&& y.staff@[i].idle_time <= (#[trigger] z.staff@[i]).idle_time
    } by {
        assert(y.staff@[i] == swept_staff(x.staff@, x.machines@, t1, true)[i]);
        assert(z.staff@[i] == swept_staff(y.staff@, y.machines@, t2, true)[i]);
    }
    assert forall|j: int| 0 <= j < x.machines@.len() implies {
        &&& x.machines@[j].idle_time <= y.machines@[j].idle_time
        &&& y.machines@[j].idle_time <= (#[trigger] z.machines@[j]).idle_time
    } by {
        assert(machine_swept(x.machines@[j], y.machines@[j], t1, true));
        assert(machine_swept(y.machines@[j], z.machines@[j], t2, true));
    }
}

/// Idle time adds up: for a staff member available at the start, or a
/// machine stopped at the start, whose last status change is no later than
/// `t1`, reconciling at `t1` and then at `t2` accrues exactly the time from
/// that change to `t2`, where the total stays below the saturation point.
pub proof fn lemma_finalize_additive(x: ProductionSimulator, y: ProductionSimulator, z: ProductionSimulator, t1: u32, t2: u32)
    requires
        is_finalized(x, y, t1),
        is_finalized(y, z, t2),
        t1 <= t2,
    ensures
        forall|i: int| 0 <= i < x.staff@.len() && (#[trigger] x.staff@[i]).is_available
            && x.staff@[i].last_status_change <= t1
            && x.staff@[i].idle_time + (t2 - x.staff@[i].last_status_change) <= u32::MAX
            ==> z.staff@[i].idle_time == x.staff@[i].idle_time + (t2 - x.staff@[i].last_status_change)
                && z.staff@[i].last_status_change == t2,
        forall|j: int| 0 <= j < x.machines@.len() && !(#[trigger] x.machines@[j]).is_operating
            && x.machines@[j].last_status_change <= t1
            && x.machines@[j].idle_time + (t2 - x.machines@[j].last_status_change) <= u32::MAX
            ==> z.machines@[j].idle_time == x.machines@[j].idle_time + (t2 - x.machines@[j].last_status_change)
                && z.machines@[j].last_status_change == t2,
{
    assert forall|i: int| 0 <= i < x.staff@.len() && (#[trigger] x.staff@[i]).is_available
        && x.staff@[i].last_status_change <= t1
        && x.staff@[i].idle_time + (t2 - x.staff@[i].last_status_change) <= u32::MAX
        implies z.staff@[i].idle_time == x.staff@[i].idle_time + (t2 - x.staff@[i].last_status_change)
            && z.staff@[i].last_status_change == t2 by {
        assert(y.staff@[i] == swept_staff(x.staff@, x.machines@, t1, true)[i]);
        assert(z.staff@[i] == swept_staff(y.staff@, y.machines@, t2, true)[i]);
        let ys = y.staff@[i];
        assert(ys.is_available && ys.last_status_change == t1
            && ys.idle_time == x.staff@[i].idle_time + (t1 - x.staff@[i].last_status_change));
    }
    assert forall|j: int| 0 <= j < x.machines@.len() && !(#[trigger] x.machines@[j]).is_operating
        && x.machines@[j].last_status_change <= t1
        && x.machines@[j].idle_time + (t2 - x.machines@[j].last_status_change) <= u32::MAX
        implies z.machines@[j].idle_time == x.machines@[j].idle_time + (t2 - x.machines@[j].last_status_change)
            && z.machines@[j].last_status_change == t2 by {
        assert(machine_swept(x.machines@[j], y.machines@[j], t1, true));
        assert(machine_swept(y.machines@[j], z.machines@[j], t2, true));
    }
}

fn contains_id(v: &Vec<u32>, x: u32) -> (r: bool)
    ensures
        r == v@.contains(x),
{
    let mut i: usize = 0;
    while i < v.len()
        invariant
            i <= v@.len(),
            forall|j: int| 0 <= j < i ==> v@[j] != x,
        decreases v@.len() - i,
    {
        if v[i] == x {
            return true;
        }
        i += 1;
    }
    false
}

/// What `try_start_process(machine_id, process_id, duration, current_time)`
/// does to the engine: `before` becomes `after` and the result is `r`.
pub open spec fn start_outcome(
    before: ProductionSimulator,
    after: ProductionSimulator,
    machine_id: u32,
    process_id: u32,
    duration: u32,
    current_time: u32,
    r: bool,
) -> bool {
    &&& after.simulator.current_time == before.simulator.current_time
    &&& after.simulator.pending().len() <= before.simulator.pending().len() + before.staff@.len() + 1
    &&& after.simulator.pending().subrange(0, before.simulator.pending().len() as int)
            == before.simulator.pending()
    &&& forall|k: int| before.simulator.pending().len() <= k < after.simulator.pending().len()
            ==> (#[trigger] after.simulator.pending()[k]).time.0 >= current_time
    &&& after.staff@.len() == before.staff@.len()
    &&& after.machines@.len() == before.machines@.len()
    &&& forall|j: int| 0 <= j < before.machines@.len() && j != machine_id
            ==> after.machines@[j] == before.machines@[j]
    &&& machine_id >= before.machines@.len() ==> {
            &&& !r
            &&& after.machines@ == before.machines@
            &&& after.staff@ == before.staff@
            &&& after.simulator.pending() == before.simulator.pending()
        }
    &&& machine_id < before.machines@.len() ==> ({
            let mb = before.machines@[machine_id as int];
            let ma = after.machines@[machine_id as int];
            let k = mb.machine.staff_required as nat;
            let sel = selection(before.staff@, machine_id, k);
            let end = (current_time + duration) as u32;
            let complete = Event {
                time: SimulationTime(end),
                event_type: EventType::ProcessComplete { machine_id, process_id },
            };
            if mb.machine.is_automated {
                &&& r
                &&& started_at(mb, ma, current_time)
                &&& ma.assigned_staff@ == mb.assigned_staff@
                &&& after.staff@ == before.staff@
                &&& after.simulator.pending() == before.simulator.pending().push(complete)
            } else if !enough_staff(before.staff@, machine_id, k) {
                &&& !r
                &&& marked_waiting(mb, ma)
                &&& after.staff@ == before.staff@
                &&& after.simulator.pending() == before.simulator.pending().push(Event {
                    time: SimulationTime(current_time),
                    event_type: EventType::StaffUnavailable { machine_id, process_id },
                })
            } else {
                &&& r
                &&& started_at(mb, ma, current_time)
                &&& ma.assigned_staff@ == mb.assigned_staff@ + staff_ids(before.staff@, sel)
                &&& after.staff@.len() == before.staff@.len()
                &&& forall|i: int| 0 <= i < before.staff@.len() ==> #[trigger] after.staff@[i] == if sel.contains(i) {
                    before.staff@[i].spec_assigned(machine_id, duration, current_time)
                } else {
                    before.staff@[i]
                }
                &&& after.simulator.pending() == (before.simulator.pending()
                    + release_events(before.staff@, sel, machine_id, end)).push(complete)
            }
        })
}

/// The engine: timeline, machines and staff.
pub struct ProductionSimulator {
    pub simulator: Simulator,
    pub machines: Vec<MachineState>,
    pub staff: Vec<Staff>,
}

impl ProductionSimulator {
    pub fn new() -> (r: ProductionSimulator)
        ensures
            r.simulator.current_time.0 == 0,
            r.simulator.pending().len() == 0,
            r.machines@.len() == 0,
            r.staff@.len() == 0,
    {
        ProductionSimulator { simulator: Simulator::new(), machines: Vec::new(), staff: Vec::new() }
    }

    /// Registers a staff member; registration order decides who is taken first.
    pub fn add_staff(&mut self, staff: Staff)
        ensures
            final(self).staff@ == old(self).staff@.push(staff),
            final(self).machines@ == old(self).machines@,
            final(self).simulator == old(self).simulator,
    {
        self.staff.push(staff);
    }

    /// Registers a machine, idle; its position is its id.
    pub fn add_machine(&mut self, machine: MachineType)
        ensures
            final(self).staff@ == old(self).staff@,
            final(self).machines@.len() == old(self).machines@.len() + 1,
            forall|j: int| 0 <= j < old(self).machines@.len() ==> final(self).machines@[j] == old(self).machines@[j],
            final(self).machines@.last().machine == machine,
            !final(self).machines@.last().is_operating,
            final(self).machines@.last().assigned_staff@.len() == 0,
            final(self).machines@.last().waiting_for is None,
            final(self).machines@.last().idle_time == 0,
            final(self).machines@.last().last_status_change == 0,
            final(self).simulator == old(self).simulator,
    {
        self.machines.push(MachineState::new(machine));
    }

    /// Tries to start process `process_id` on machine `machine_id` at
    /// `current_time` for `duration` minutes.
    ///
    /// An unknown machine gives `false` and changes nothing. An automated
    /// machine always starts. Any other machine takes the first
    /// `staff_required` staff members, in registration order, that are
    /// available and allowed on it; if there are fewer, a `StaffUnavailable`
    /// event is scheduled at `current_time`, the machine is marked as
    /// waiting for staff, and the result is `false`. On a start the machine
    /// operates, each staff member taken is assigned and gets a
    /// `StaffReleased` event at the end, and a `ProcessComplete` event is
    /// scheduled at the end.
    pub fn try_start_process(&mut self, machine_id: u32, process_id: u32, duration: u32, current_time: u32) -> (r: bool)
        requires
            machine_id < old(self).machines@.len() && ({
                let m = old(self).machines@[machine_id as int];
                m.machine.is_automated || enough_staff(old(self).staff@, machine_id, m.machine.staff_required as nat)
            }) ==> current_time + duration <= u32::MAX,
        ensures
            start_outcome(*old(self), *final(self), machine_id, process_id, duration, current_time, r),
    {
        if machine_id as usize >= self.machines.len() {
            assert(self.simulator.pending().subrange(0, self.simulator.pending().len() as int)
                =~= self.simulator.pending());
            return false;
        }
        let mi = machine_id as usize;
        if self.machines[mi].machine.is_automated {
            let end = current_time + duration;
            let gap = current_time.saturating_sub(self.machines[mi].last_status_change);
            self.machines[mi].idle_time = self.machines[mi].idle_time.saturating_add(gap);
            self.machines[mi].last_status_change = current_time;
            self.machines[mi].is_operating = true;
            self.machines[mi].waiting_for = None;
            self.simulator.schedule_event(
                SimulationTime::new(end),
                EventType::ProcessComplete { machine_id, process_id },
            );
            assert(self.simulator.pending().subrange(0, old(self).simulator.pending().len() as int)
                =~= old(self).simulator.pending());
            return true;
        }
        let staff_needed = self.machines[mi].machine.staff_required as usize;
        let mut available_staff: Vec<usize> = Vec::new();
        let mut i: usize = 0;
        while i < self.staff.len() && available_staff.len() < staff_needed
            invariant
                i <= self.staff@.len(),
                available_staff@.len() <= staff_needed,
                available_staff@.map_values(|x: usize| x as int) == eligible_among(self.staff@, machine_id, i as int),
            decreases self.staff@.len() - i,
        {
            if self.staff[i].is_available && self.staff[i].can_work_on(machine_id) {
                available_staff.push(i);
                assert(available_staff@.map_values(|x: usize| x as int)
                    =~= eligible_among(self.staff@, machine_id, i as int).push(i as int));
            } else {
                assert(available_staff@.map_values(|x: usize| x as int)
                    =~= eligible_among(self.staff@, machine_id, i as int + 1));
            }
            i += 1;
        }
        let ghost full = eligible_among(self.staff@, machine_id, self.staff@.len() as int);
        let ghost sel = selection(self.staff@, machine_id, staff_needed as nat);
        proof {
            lemma_eligible_prefix(self.staff@, machine_id, i as int, self.staff@.len() as int);
            lemma_eligible_among(self.staff@, machine_id, self.staff@.len() as int);
        }
        if available_staff.len() < staff_needed {
            self.simulator.schedule_event(
                SimulationTime::new(current_time),
                EventType::StaffUnavailable { machine_id, process_id },
            );
            self.machines[mi].waiting_for = Some(WaitingReason::Staff);
            assert(self.simulator.pending().subrange(0, old(self).simulator.pending().len() as int)
                =~= old(self).simulator.pending());
            return false;
        }
        proof {
            assert(available_staff@.map_values(|x: usize| x as int) =~= sel);
            assert(enough_staff(self.staff@, machine_id, staff_needed as nat));
        }
        let end = current_time + duration;
        let gap = current_time.saturating_sub(self.machines[mi].last_status_change);
        self.machines[mi].idle_time = self.machines[mi].idle_time.saturating_add(gap);
        self.machines[mi].last_status_change = current_time;
        self.machines[mi].is_operating = true;
        self.machines[mi].waiting_for = None;
        assert(forall|j: int| 0 <= j < self.machines@.len() && j != mi ==> self.machines@[j] == old(self).machines@[j]);
        let ghost staff0 = self.staff@;
        let ghost pending0 = self.simulator.pending();
        let ghost assigned0 = self.machines@[mi as int].assigned_staff@;
        let ghost machines0 = self.machines@;
        let mut k: usize = 0;
        while k < available_staff.len()
            invariant
                k <= available_staff@.len(),
                available_staff@.map_values(|x: usize| x as int) == sel,
                sel.len() == available_staff@.len(),
                forall|a: int, b: int| 0 <= a < b < sel.len() ==> sel[a] < sel[b],
                forall|a: int| 0 <= a < sel.len() ==> 0 <= #[trigger] sel[a] < staff0.len() && eligible(staff0[sel[a]], machine_id),
                current_time + duration <= u32::MAX,
                end == current_time + duration,
                mi == machine_id,
                mi < machines0.len(),
                self.staff@.len() == staff0.len(),
                forall|x: int| 0 <= x < staff0.len() ==> #[trigger] self.staff@[x] == if sel.take(k as int).contains(x) {
                    staff0[x].spec_assigned(machine_id, duration, current_time)
                } else {
                    staff0[x]
                },
                self.machines@.len() == machines0.len(),
                forall|j: int| 0 <= j < machines0.len() && j != mi ==> self.machines@[j] == old(self).machines@[j],
                self.machines@[mi as int].machine == machines0[mi as int].machine,
                self.machines@[mi as int].is_operating,
                self.machines@[mi as int].waiting_for is None,
                self.machines@[mi as int].idle_time == machines0[mi as int].idle_time,
                self.machines@[mi as int].last_status_change == current_time,
                self.machines@[mi as int].assigned_staff@ == assigned0 + staff_ids(staff0, sel.take(k as int)),
                self.simulator.current_time == old(self).simulator.current_time,
                self.simulator.pending() == pending0 + release_events(staff0, sel.take(k as int), machine_id, end),
            decreases available_staff@.len() - k,
        {
            let staff_idx = available_staff[k];
            assert(sel[k as int] == staff_idx as int);
            assert(!sel.take(k as int).contains(staff_idx as int)) by {
                if sel.take(k as int).contains(staff_idx as int) {
                    let a = choose|a: int| 0 <= a < k && sel.take(k as int)[a] == staff_idx as int;
                    assert(sel[a] < sel[k as int]);
                }
            }
            let staff_id = self.staff[staff_idx].id;
            let ok = self.staff[staff_idx].assign_to_machine(machine_id, duration, current_time);
            self.machines[mi].assigned_staff.push(staff_id);
            self.simulator.schedule_event(
                SimulationTime::new(end),
                EventType::StaffReleased { staff_id, machine_id },
            );
            proof {
                let t0 = sel.take(k as int);
                let t1 = sel.take(k as int + 1);
                assert(t1 =~= t0.push(staff_idx as int));
                assert forall|x: int| 0 <= x < staff0.len() implies #[trigger] self.staff@[x] == if t1.contains(x) {
                    staff0[x].spec_assigned(machine_id, duration, current_time)
                } else {
                    staff0[x]
                } by {
                    if x != staff_idx as int {
                        assert(t1.contains(x) == t0.contains(x));
                    } else {
                        assert(t1[k as int] == x);
                    }
                }
                assert(staff_ids(staff0, t1) =~= staff_ids(staff0, t0).push(staff_id));
                assert(release_events(staff0, t1, machine_id, end)
                    =~= release_events(staff0, t0, machine_id, end).push(Event {
                        time: SimulationTime(end),
                        event_type: EventType::StaffReleased { staff_id, machine_id },
                    }));
            }
            k += 1;
        }
        self.simulator.schedule_event(
            SimulationTime::new(end),
            EventType::ProcessComplete { machine_id, process_id },
        );
        proof {
            assert(sel.take(sel.len() as int) =~= sel);
            let ev = release_events(staff0, sel, machine_id, end);
            assert(sel.len() <= full.len());
            assert(self.simulator.pending().subrange(0, pending0.len() as int) =~= pending0);
            assert forall|k: int| pending0.len() <= k < self.simulator.pending().len()
                implies (#[trigger] self.simulator.pending()[k]).time.0 >= current_time by {
                if k < pending0.len() + ev.len() {
                    assert(self.simulator.pending()[k] == ev[k - pending0.len()]);
                }
            }
        }
        true
    }

    /// Whether staff member `staff_id`, marked busy on `machine_id`, has lost
    /// that machine.
    fn machine_lost(&self, machine_id: u32, staff_id: u32) -> (r: bool)
        ensures
            r == (machine_id >= self.machines@.len() || !self.machines@[machine_id as int].is_operating
                || !self.machines@[machine_id as int].assigned_staff@.contains(staff_id)),
    {
        if machine_id as usize >= self.machines.len() {
            return true;
        }
        let m = &self.machines[machine_id as usize];
        !m.is_operating || !contains_id(&m.assigned_staff, staff_id)
    }

    fn listed_on_stopped(&self, staff_id: u32) -> (r: bool)
        ensures
            r == listed_on_stopped_machine(self.machines@, staff_id),
    {
        let mut j: usize = 0;
        while j < self.machines.len()
            invariant
                j <= self.machines@.len(),
                forall|k: int| 0 <= k < j ==> !(!self.machines@[k].is_operating
                    && (#[trigger] self.machines@[k].assigned_staff@).contains(staff_id)),
            decreases self.machines@.len() - j,
        {
            if !self.machines[j].is_operating && contains_id(&self.machines[j].assigned_staff, staff_id) {
                return true;
            }
            j += 1;
        }
        false
    }

    fn is_first_with_id(&self, i: usize) -> (r: bool)
        requires
            i < self.staff@.len(),
        ensures
            r == first_with_id(self.staff@, i as int),
    {
        let mut k: usize = 0;
        while k < i
            invariant
                i < self.staff@.len(),
                k <= i,
                forall|x: int| 0 <= x < k ==> (#[trigger] self.staff@[x]).id != self.staff@[i as int].id,
            decreases i - k,
        {
            if self.staff[k].id == self.staff[i].id {
                return false;
            }
            k += 1;
        }
        true
    }

    /// Reconciles the ledgers at `current_time`. Each staff member is
    /// released when the assignment is over, and freed outright, even before
    /// its end, when marked busy on a machine that is unknown, stopped, or no
    /// longer lists them; then available staff accrue idle time up to
    /// `current_time`. Staff still listed on a
    /// stopped machine are released, the machine's list is emptied, and the
    /// stopped machine accrues idle time. Safe to repeat: see
    /// `lemma_finalize_idempotent`.
    pub fn finalize_idle_time(&mut self, current_time: u32)
        ensures
            is_finalized(*old(self), *final(self), current_time),
    {
        self.sweep(current_time, true);
    }

    /// The reconciliation pass behind `finalize_idle_time`; without
    /// `accrue` it releases stale staff and touches no idle time.
    pub(crate) fn sweep(&mut self, current_time: u32, accrue: bool)
        ensures
            is_swept(*old(self), *final(self), current_time, accrue),
    {
        let ghost staff0 = self.staff@;
        let ghost machines0 = self.machines@;
        let mut i: usize = 0;
        while i < self.staff.len()
            invariant
                i <= self.staff@.len(),
                self.staff@.len() == staff0.len(),
                self.machines@ == machines0,
                self.simulator == old(self).simulator,
                machines0 == old(self).machines@,
                staff0 == old(self).staff@,
                forall|x: int| 0 <= x < i ==> #[trigger] self.staff@[x] == settled(staff0[x], machines0, current_time, accrue),
                forall|x: int| i <= x < staff0.len() ==> #[trigger] self.staff@[x] == staff0[x],
            decreases staff0.len() - i,
        {
            if !self.staff[i].is_available && current_time >= self.staff[i].available_at {
                self.staff[i].release_from_machine(current_time);
            }
            if !self.staff[i].is_available {
                match self.staff[i].current_machine {
                    Some(machine_id) => {
                        let id = self.staff[i].id;
                        if self.machine_lost(machine_id, id) {
                            self.staff[i].is_available = true;
                            self.staff[i].current_machine = None;
                            self.staff[i].last_status_change = current_time;
                        }
                    },
                    None => {},
                }
            }
            if accrue {
                self.staff[i].accumulate_idle_until(current_time);
            }
            i += 1;
        }
        let ghost staff1 = self.staff@;
        i = 0;
        while i < self.staff.len()
            invariant
                i <= self.staff@.len(),
                self.staff@.len() == staff0.len(),
                staff1.len() == staff0.len(),
                self.machines@ == machines0,
                self.simulator == old(self).simulator,
                forall|x: int| 0 <= x < staff0.len() ==> #[trigger] staff1[x] == settled(staff0[x], machines0, current_time, accrue),
                forall|x: int| 0 <= x < i ==> #[trigger] self.staff@[x] == swept_staff(staff0, machines0, current_time, accrue)[x],
                forall|x: int| i <= x < staff0.len() ==> #[trigger] self.staff@[x] == staff1[x],
            decreases staff0.len() - i,
        {
            assert(forall|x: int| 0 <= x < staff0.len() ==> (#[trigger] self.staff@[x]).id == staff0[x].id);
            let first = self.is_first_with_id(i);
            let id = self.staff[i].id;
            let listed = self.listed_on_stopped(id);
            proof {
                assert(first == first_with_id(staff0, i as int)) by {
                    assert(forall|x: int| 0 <= x < staff0.len() ==> (#[trigger] staff0[x]).id == self.staff@[x].id);
                }
            }
            if first && listed {
                self.staff[i].release_from_machine(current_time);
            }
            i += 1;
        }
        assert(self.staff@ =~= swept_staff(staff0, machines0, current_time, accrue));
        let mut j: usize = 0;
        while j < self.machines.len()
            invariant
                j <= self.machines@.len(),
                self.machines@.len() == machines0.len(),
                self.staff@ == swept_staff(staff0, machines0, current_time, accrue),
                self.simulator == old(self).simulator,
                forall|x: int| 0 <= x < j ==> machine_swept(machines0[x], #[trigger] self.machines@[x], current_time, accrue),
                forall|x: int| j <= x < machines0.len() ==> #[trigger] self.machines@[x] == machines0[x],
            decreases machines0.len() - j,
        {
            if !self.machines[j].is_operating {
                self.machines[j].assigned_staff.clear();
                if accrue && current_time > self.machines[j].last_status_change {
                    let gap = current_time - self.machines[j].last_status_change;
                    self.machines[j].idle_time = self.machines[j].idle_time.saturating_add(gap);
                    self.machines[j].last_status_change = current_time;
                }
            }
            j += 1;
        }
    }
}

} // verus!
