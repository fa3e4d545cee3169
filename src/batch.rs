//! A single machine that processes a batch of items back to back.
use vstd::prelude::*;
use crate::time::{Event, EventType, SimulationTime, Simulator};

verus! {

/// The start and completion events of `n` items of `process_time` minutes
/// each, processed one after another from time zero on `machine_id`.
pub open spec fn batch_events(machine_id: u32, n: nat, process_time: u32) -> Seq<Event>
    decreases n,
{
    if n == 0 {
        Seq::empty()
    } else {
        let item = (n - 1) as nat;
        batch_events(machine_id, item, process_time)
            .push(Event {
                time: SimulationTime((item * process_time) as u32),
                event_type: EventType::ProcessStart { machine_id, process_id: item as u32 },
            })
            .push(Event {
                time: SimulationTime((n * process_time) as u32),
                event_type: EventType::ProcessComplete { machine_id, process_id: item as u32 },
            })
    }
}

/// A timeline for one machine.
pub struct MachineSimulator {
    pub simulator: Simulator,
    pub machine_id: u32,
}

impl MachineSimulator {
    pub fn new(machine_id: u32) -> (r: MachineSimulator)
        ensures
            r.machine_id == machine_id,
            r.simulator.current_time.0 == 0,
            r.simulator.pending() == Seq::<Event>::empty(),
    {
        MachineSimulator { simulator: Simulator::new(), machine_id }
    }

    /// Schedules `num_items` items of `process_time` minutes each, each one
    /// starting when the one before completes.
    pub fn schedule_batch(&mut self, num_items: u32, process_time: u32)
        requires
            num_items * process_time <= u32::MAX,
        ensures
            final(self).machine_id == old(self).machine_id,
            final(self).simulator.current_time == old(self).simulator.current_time,
            final(self).simulator.pending() == old(self).simulator.pending()
                + batch_events(old(self).machine_id, num_items as nat, process_time),
    {
        let mut current_time: u32 = 0;
        let mut item_id: u32 = 0;
        while item_id < num_items
            invariant
                item_id <= num_items,
                num_items * process_time <= u32::MAX,
                current_time == item_id * process_time,
                self.machine_id == old(self).machine_id,
                self.simulator.current_time == old(self).simulator.current_time,
                self.simulator.pending() == old(self).simulator.pending()
                    + batch_events(old(self).machine_id, item_id as nat, process_time),
            decreases num_items - item_id,
        {
            proof {
                assert((item_id + 1) * process_time <= num_items * process_time) by (nonlinear_arith)
                    requires item_id + 1 <= num_items;
                assert((item_id + 1) * process_time == item_id * process_time + process_time) by (nonlinear_arith);
            }
            let start_time = SimulationTime::new(current_time);
            let end_time = SimulationTime::new(current_time + process_time);
            self.simulator.schedule_event(
                start_time,
                EventType::ProcessStart { machine_id: self.machine_id, process_id: item_id },
            );
            self.simulator.schedule_event(
                end_time,
                EventType::ProcessComplete { machine_id: self.machine_id, process_id: item_id },
            );
            current_time = current_time + process_time;
            item_id = item_id + 1;
            proof {
                let b = batch_events(old(self).machine_id, item_id as nat, process_time);
                assert(self.simulator.pending() =~= old(self).simulator.pending() + b);
            }
        }
    }

    /// The simulator's clock.
    pub fn total_time_minutes(&self) -> (r: u32)
        ensures
            r == self.simulator.current_time.0,
    {
        self.simulator.elapsed_time()
    }
}

} // verus!
