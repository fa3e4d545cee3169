//! Materials, processes and production lines as plain descriptions.
use vstd::prelude::*;
use crate::machine::MachineType;

verus! {

/// A material that enters or leaves a production line.
pub struct Material {
    pub name: String,
}

/// A process: the machines it needs and the minutes per unit.
pub struct Process {
    pub required_machine: Vec<MachineType>,
    pub time_per_unit: u32,
}

/// A named line that turns one material into another.
pub struct ProductionLine {
    pub name: String,
    pub start_material: Material,
    pub end_material: Material,
}

} // verus!
