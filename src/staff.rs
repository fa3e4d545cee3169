//! Roles and the staff members who operate machines.
use vstd::prelude::*;

verus! {

/// A role; a specialist role lists the only machines it may operate.
#[derive(Debug, Clone, PartialEq, Eq)]
pub struct Role {
    pub id: u32,
    pub name: String,
    /// The machines this role is restricted to; empty means any machine.
    pub machine_ids: Vec<u32>,
}

impl Role {
    pub open spec fn allows(&self, machine_id: u32) -> bool {
        self.machine_ids@.len() == 0 || self.machine_ids@.contains(machine_id)
    }

    /// A role without restriction.
    pub fn new(id: u32, name: &str) -> (r: Role)
        ensures
            r.id == id,
            r.name@ == name@,
            r.machine_ids@.len() == 0,
    {
        Role { id, name: name.to_owned(), machine_ids: Vec::new() }
    }

    /// A role restricted to `machine_ids` (no restriction when it is empty).
    pub fn specialist(id: u32, name: &str, machine_ids: Vec<u32>) -> (r: Role)
        ensures
            r.id == id,
            r.name@ == name@,
            r.machine_ids@ == machine_ids@,
    {
        Role { id, name: name.to_owned(), machine_ids }
    }

    pub fn can_work_on(&self, machine_id: u32) -> (r: bool)
        ensures
            r == self.allows(machine_id),
    {
        if self.machine_ids.len() == 0 {
            return true;
        }
        let mut i: usize = 0;
        while i < self.machine_ids.len()
            invariant
                i <= self.machine_ids@.len(),
                forall|j: int| 0 <= j < i ==> self.machine_ids@[j] != machine_id,
            decreases self.machine_ids@.len() - i,
        {
            if self.machine_ids[i] == machine_id {
                return true;
            }
            i += 1;
        }
        false
    }
}

/// A role restricted to machines 0 and 1 allows exactly those two machines.
pub proof fn lemma_two_machine_specialist(r: Role)
    requires
        r.machine_ids@ == seq![0u32, 1u32],
    ensures
        r.allows(0),
        r.allows(1),
        forall|m: u32| m != 0 && m != 1 ==> !#[trigger] r.allows(m),
{
    assert(r.machine_ids@[0] == 0);
    assert(r.machine_ids@[1] == 1);
}

/// A staff member.
#[derive(Debug, Clone)]
pub struct Staff {
    pub id: u32,
    pub name: String,
    pub role: Role,
    pub is_available: bool,
    /// The machine being operated, if any.
    pub current_machine: Option<u32>,
    /// The time at which the current assignment ends.
    pub available_at: u32,
    /// Minutes spent available, accrued at status changes.
    pub idle_time: u32,
    /// The time of the last status change, from which idle time accrues.
    pub last_status_change: u32,
}

/// `a + b`, or `u32::MAX` where the sum does not fit.
pub open spec fn sat_add(a: u32, b: int) -> u32 {
    if a + b > u32::MAX { u32::MAX } else { (a + b) as u32 }
}

/// `a - b`, or zero where `b` is the larger.
pub open spec fn sat_sub(a: u32, b: u32) -> int {
    if a >= b { a - b } else { 0 }
}

impl Staff {
    pub open spec fn spec_assigned(self, machine_id: u32, duration: u32, now: u32) -> Staff {
        Staff {
            idle_time: sat_add(self.idle_time, sat_sub(now, self.last_status_change)),
            is_available: false,
            current_machine: Some(machine_id),
            available_at: (now + duration) as u32,
            last_status_change: now,
            ..self
        }
    }

    /// The staff member after a release at `now`: nothing changes before the
    /// assignment's end.
    pub open spec fn spec_released(self, now: u32) -> Staff {
        if now >= self.available_at {
            Staff { is_available: true, current_machine: None, last_status_change: now, ..self }
        } else {
            self
        }
    }

    pub open spec fn spec_idle_until(self, now: u32) -> Staff {
        if self.is_available && now > self.last_status_change {
            Staff {
                idle_time: sat_add(self.idle_time, now - self.last_status_change),
                last_status_change: now,
                ..self
            }
        } else {
            self
        }
    }

    /// A new staff member, available from time zero.
    pub fn new(id: u32, name: &str, role: Role) -> (r: Staff)
        ensures
            r.id == id,
            r.name@ == name@,
            r.role == role,
            r.is_available,
            r.current_machine is None,
            r.available_at == 0,
            r.idle_time == 0,
            r.last_status_change == 0,
    {
        Staff {
            id,
            name: name.to_owned(),
            role,
            is_available: true,
            current_machine: None,
            available_at: 0,
            idle_time: 0,
            last_status_change: 0,
        }
    }

    pub fn can_work_on(&self, machine_id: u32) -> (r: bool)
        ensures
            r == self.role.allows(machine_id),
    {
        self.role.can_work_on(machine_id)
    }

    /// Assigns the staff member to `machine_id` for `duration` minutes from
    /// `current_time`. Fails, changing nothing, unless the staff member is
    /// available and allowed on the machine. Idle time accrues up to
    /// `current_time` (nothing where it lies before the last status change;
    /// the total saturates at `u32::MAX`).
    pub fn assign_to_machine(&mut self, machine_id: u32, duration: u32, current_time: u32) -> (r: bool)
        requires
            old(self).is_available && old(self).role.allows(machine_id) ==> current_time + duration <= u32::MAX,
        ensures
            r == (old(self).is_available && old(self).role.allows(machine_id)),
            r ==> *final(self) == old(self).spec_assigned(machine_id, duration, current_time),
            !r ==> *final(self) == *old(self),
    {
        if self.is_available && self.can_work_on(machine_id) {
            self.idle_time = self.idle_time.saturating_add(current_time.saturating_sub(self.last_status_change));
            self.is_available = false;
            self.current_machine = Some(machine_id);
            self.available_at = current_time + duration;
            self.last_status_change = current_time;
            true
        } else {
            false
        }
    }

    /// Releases the staff member at `current_time`; does nothing before the
    /// end of the current assignment.
    pub fn release_from_machine(&mut self, current_time: u32)
        ensures
            *final(self) == old(self).spec_released(current_time),
    {
        if current_time >= self.available_at {
            self.is_available = true;
            self.current_machine = None;
            self.last_status_change = current_time;
        }
    }

    /// Folds the time spent available since the last status change into
    /// the idle total.
    pub fn accumulate_idle_until(&mut self, current_time: u32)
        ensures
            *final(self) == old(self).spec_idle_until(current_time),
    {
        if self.is_available && current_time > self.last_status_change {
            self.idle_time = self.idle_time.saturating_add(current_time - self.last_status_change);
            self.last_status_change = current_time;
        }
    }
}

/// A release right after a successful assignment, at a time before the
/// assignment ends, changes nothing: the staff member stays busy.
pub proof fn lemma_early_release_is_no_op(s: Staff, machine_id: u32, duration: u32, now: u32, later: u32)
    requires
        now + duration <= u32::MAX,
        s.is_available,
        s.role.allows(machine_id),
        later < now + duration,
    ensures
        s.spec_assigned(machine_id, duration, now).spec_released(later) == s.spec_assigned(machine_id, duration, now),
        !s.spec_assigned(machine_id, duration, now).spec_released(later).is_available,
{
}

} // verus!
