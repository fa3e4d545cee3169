//! Static machine definitions.
use vstd::prelude::*;

verus! {

/// A machine that processes items, possibly operated by staff.
#[derive(Debug, Clone)]
pub struct MachineType {
    pub id: u32,
    pub name: String,
    /// Number of staff members needed to operate the machine.
    pub staff_required: u32,
    /// Whether the machine runs without staff.
    pub is_automated: bool,
}

impl MachineType {
    pub open spec fn spec_needs_staff(&self) -> bool {
        !self.is_automated && self.staff_required > 0
    }

    /// A machine operated by `staff_required` staff members.
    pub fn new(id: u32, name: &str, staff_required: u32) -> (r: MachineType)
        ensures
            r.id == id,
            r.name@ == name@,
            r.staff_required == staff_required,
            !r.is_automated,
    {
        MachineType { id, name: name.to_owned(), staff_required, is_automated: false }
    }

    /// A fully automated machine, which needs no staff.
    pub fn automated(id: u32, name: &str) -> (r: MachineType)
        ensures
            r.id == id,
            r.name@ == name@,
            r.staff_required == 0,
            r.is_automated,
    {
        MachineType { id, name: name.to_owned(), staff_required: 0, is_automated: true }
    }

    pub fn needs_staff(&self) -> (r: bool)
        ensures
            r == self.spec_needs_staff(),
    {
        !self.is_automated && self.staff_required > 0
    }
}

} // verus!
