use assemblysim::config::{default_items, MachineConfig, RoleConfig, StaffConfig};
use assemblysim::line::{
    handle_event, rebalance, seed_first_step, sim_complete, step_simulation, try_start_jobs,
    AssemblyLine, PendingJob, ProcessStep,
};
use assemblysim::report::bucket_display_name;
use assemblysim::time::{Event, EventType, SimulationTime};

fn machine(id: u32, name: &str, staff_required: Option<u32>, automated: bool, count: u32) -> MachineConfig {
    MachineConfig {
        id,
        name: name.to_string(),
        staff_required,
        is_automated: Some(automated),
        count: Some(count),
    }
}

fn person(id: u32, name: &str, role_id: u32, role: &str, machine_ids: Vec<u32>) -> StaffConfig {
    StaffConfig {
        id,
        name: name.to_string(),
        role: RoleConfig { id: role_id, name: role.to_string(), machine_ids },
    }
}

fn step(bucket_id: u32, duration: u32) -> ProcessStep {
    ProcessStep { bucket_id, process_id: None, duration }
}

fn run_to_end(line: &mut AssemblyLine, max_ticks: u32) -> u32 {
    let mut ticks = 0;
    while !sim_complete(line) && ticks < max_ticks {
        assert!(step_simulation(line));
        ticks += 1;
    }
    ticks
}

#[test]
fn default_item_count_is_one() {
    assert_eq!(default_items(), 1);
}

#[test]
fn config_expands_counts_into_buckets() {
    let machines = vec![machine(0, "Cutter", Some(1), false, 2), machine(5, "Oven", None, true, 1)];
    let staff = vec![person(0, "Alex", 0, "Operator", vec![])];
    let line = AssemblyLine::from_config(&machines, &staff, vec![step(0, 12), step(9, 3)], 3);
    assert_eq!(line.production.machines.len(), 3);
    assert_eq!(line.production.machines[1].machine.id, 1);
    assert_eq!(line.production.machines[1].machine.name, "Cutter");
    assert_eq!(line.production.machines[1].machine.staff_required, 1);
    assert!(line.production.machines[2].machine.is_automated);
    assert_eq!(line.production.machines[2].machine.staff_required, 0);
    assert_eq!(line.buckets.len(), 3);
    assert_eq!(line.buckets[0].id, 0);
    assert_eq!(line.buckets[0].machine_ids, vec![0, 1]);
    assert_eq!(line.buckets[1].id, 5);
    assert_eq!(line.buckets[1].machine_ids, vec![2]);
    assert_eq!(line.buckets[2].id, 9);
    assert!(line.buckets[2].machine_ids.is_empty());
    assert_eq!(line.production.staff.len(), 1);
    assert!(line.production.staff[0].role.machine_ids.is_empty());
    assert_eq!(line.steps.len(), 2);
    assert_eq!(line.items, 3);
}

#[test]
fn config_defaults_to_one_staffed_machine() {
    let machines = vec![MachineConfig {
        id: 2,
        name: "Drill".to_string(),
        staff_required: None,
        is_automated: None,
        count: None,
    }];
    let line = AssemblyLine::from_config(&machines, &vec![], vec![step(2, 4)], default_items());
    assert_eq!(line.production.machines.len(), 1);
    assert_eq!(line.production.machines[0].machine.staff_required, 1);
    assert!(!line.production.machines[0].machine.is_automated);
}

#[test]
fn dispatch_prefers_furthest_along_job() {
    let machines = vec![machine(0, "Belt", None, true, 1)];
    let steps = vec![step(0, 5), step(0, 5), step(0, 5), step(0, 5)];
    let mut line = AssemblyLine::from_config(&machines, &vec![], steps, 6);
    line.buckets[0].queue.push(PendingJob { duration: 5, step_index: 2, item_id: 5 });
    line.buckets[0].queue.push(PendingJob { duration: 5, step_index: 3, item_id: 1 });
    try_start_jobs(&mut line, 0, 0);
    assert_eq!(line.process_meta[0], Some((3, 1)));
    assert_eq!(line.buckets[0].queue, vec![PendingJob { duration: 5, step_index: 2, item_id: 5 }]);
    assert!(line.production.machines[0].is_operating);
}

#[test]
fn dispatch_breaks_ties_by_lowest_item() {
    let machines = vec![machine(0, "Belt", None, true, 1)];
    let mut line = AssemblyLine::from_config(&machines, &vec![], vec![step(0, 5), step(0, 5)], 6);
    line.buckets[0].queue.push(PendingJob { duration: 5, step_index: 1, item_id: 4 });
    line.buckets[0].queue.push(PendingJob { duration: 5, step_index: 1, item_id: 2 });
    line.buckets[0].queue.push(PendingJob { duration: 5, step_index: 0, item_id: 0 });
    try_start_jobs(&mut line, 0, 0);
    assert_eq!(line.process_meta[0], Some((1, 2)));
}

#[test]
fn dispatch_requeues_when_staff_short() {
    let machines = vec![machine(0, "Press", Some(2), false, 2)];
    let staff = vec![person(0, "Solo", 0, "Operator", vec![])];
    let mut line = AssemblyLine::from_config(&machines, &staff, vec![step(0, 5)], 2);
    seed_first_step(&mut line);
    assert_eq!(line.buckets[0].queue.len(), 2);
    assert_eq!(line.next_pid, 1);
    assert!(!line.production.machines[0].is_operating);
    assert_eq!(
        line.production.machines[0].waiting_for,
        Some(assemblysim::scheduling::WaitingReason::Staff)
    );
}

#[test]
fn dispatch_without_idle_machine_changes_nothing() {
    let machines = vec![machine(0, "Belt", None, true, 1)];
    let mut line = AssemblyLine::from_config(&machines, &vec![], vec![step(0, 5)], 2);
    seed_first_step(&mut line);
    assert_eq!(line.next_pid, 1);
    assert_eq!(line.buckets[0].queue.len(), 1);
    try_start_jobs(&mut line, 0, 1);
    assert_eq!(line.next_pid, 1);
    assert_eq!(line.buckets[0].queue.len(), 1);
}

#[test]
fn single_automated_machine_runs_items_one_after_another() {
    let machines = vec![machine(0, "Belt", None, true, 1)];
    let mut line = AssemblyLine::from_config(&machines, &vec![], vec![step(0, 10)], 3);
    seed_first_step(&mut line);
    let ticks = run_to_end(&mut line, 100);
    assert!(ticks < 100);
    assert_eq!(line.finished_goods, 3);
    assert_eq!(line.production.simulator.elapsed_time(), 30);
}

#[test]
fn three_automated_machines_run_items_together() {
    let machines = vec![machine(0, "Belt", None, true, 3)];
    let mut line = AssemblyLine::from_config(&machines, &vec![], vec![step(0, 10)], 3);
    seed_first_step(&mut line);
    run_to_end(&mut line, 100);
    assert_eq!(line.finished_goods, 3);
    assert_eq!(line.production.simulator.elapsed_time(), 10);
}

#[test]
fn two_step_line_with_minimum_staff_completes() {
    let machines = vec![machine(0, "CNC", Some(1), false, 1), machine(1, "Assembly", Some(2), false, 1)];
    let staff = vec![
        person(0, "Jane", 1, "CNC Specialist", vec![0]),
        person(1, "Bob", 2, "Generalist", vec![]),
        person(2, "Alice", 2, "Generalist", vec![]),
    ];
    let mut line = AssemblyLine::from_config(&machines, &staff, vec![step(0, 15), step(1, 20)], 4);
    seed_first_step(&mut line);
    let ticks = run_to_end(&mut line, 1000);
    assert!(ticks < 1000);
    assert_eq!(line.finished_goods, 4);
    assert!(line.production.staff.iter().all(|s| s.is_available));
    assert!(line.production.staff.iter().all(|s| s.current_machine.is_none()));
}

#[test]
fn tick_stops_at_next_event() {
    let machines = vec![machine(0, "Belt", None, true, 1)];
    let mut line = AssemblyLine::from_config(&machines, &vec![], vec![step(0, 4)], 1);
    seed_first_step(&mut line);
    assert!(step_simulation(&mut line));
    assert_eq!(line.production.simulator.elapsed_time(), 4);
    assert_eq!(line.finished_goods, 1);
    assert!(sim_complete(&line));
}

#[test]
fn tick_advances_ten_minutes_when_idle() {
    let mut line = AssemblyLine::from_config(&vec![], &vec![], vec![], 0);
    assert!(sim_complete(&line));
    assert!(step_simulation(&mut line));
    assert_eq!(line.production.simulator.elapsed_time(), 10);
}

#[test]
fn tick_refuses_to_pass_the_end_of_time() {
    let mut line = AssemblyLine::from_config(&vec![], &vec![], vec![step(0, 5)], 1);
    line.production.simulator.set_time(SimulationTime::new(u32::MAX - 12));
    assert!(!step_simulation(&mut line));
    assert_eq!(line.production.simulator.elapsed_time(), u32::MAX - 12);
}

#[test]
fn completion_needs_quiescence_or_all_items() {
    let machines = vec![machine(0, "Belt", None, true, 1)];
    let mut line = AssemblyLine::from_config(&machines, &vec![], vec![step(0, 10)], 2);
    assert!(sim_complete(&line));
    seed_first_step(&mut line);
    assert!(!sim_complete(&line));
    line.finished_goods = 2;
    assert!(sim_complete(&line));
}

#[test]
fn process_complete_moves_item_to_next_step() {
    let machines = vec![machine(0, "Cut", None, true, 1), machine(1, "Pack", None, true, 1)];
    let mut line = AssemblyLine::from_config(&machines, &vec![], vec![step(0, 3), step(1, 6)], 1);
    seed_first_step(&mut line);
    assert_eq!(line.process_meta[0], Some((0, 0)));
    handle_event(
        &mut line,
        Event { time: SimulationTime::new(3), event_type: EventType::ProcessComplete { machine_id: 0, process_id: 0 } },
    );
    assert_eq!(line.process_meta[0], None);
    assert_eq!(line.process_meta[1], Some((1, 0)));
    assert!(!line.production.machines[0].is_operating);
    assert!(line.production.machines[1].is_operating);
    assert_eq!(line.finished_goods, 0);
    handle_event(
        &mut line,
        Event { time: SimulationTime::new(9), event_type: EventType::ProcessComplete { machine_id: 1, process_id: 1 } },
    );
    assert_eq!(line.finished_goods, 1);
}

#[test]
fn rebalance_clears_stopped_machines() {
    let machines = vec![machine(0, "Lathe", Some(1), false, 1)];
    let staff = vec![person(0, "Op", 0, "Operator", vec![])];
    let mut line = AssemblyLine::from_config(&machines, &staff, vec![step(0, 10)], 1);
    seed_first_step(&mut line);
    assert!(!line.production.staff[0].is_available);
    line.production.machines[0].is_operating = false;
    rebalance(&mut line, 4);
    assert!(line.production.machines[0].assigned_staff.is_empty());
    assert!(line.production.staff[0].is_available);
    assert_eq!(line.production.staff[0].last_status_change, 4);
    assert_eq!(line.production.staff[0].idle_time, 0);
}

#[test]
fn bucket_names() {
    let machines = vec![machine(0, "Cutter", Some(1), false, 2), machine(1, "  ", None, true, 1)];
    let line = AssemblyLine::from_config(&machines, &vec![], vec![step(7, 1)], 1);
    assert_eq!(bucket_display_name(&line, 0), "Cutter (x2)");
    assert_eq!(bucket_display_name(&line, 1), "Bucket 1");
    assert_eq!(bucket_display_name(&line, 7), "Bucket 7");
    assert_eq!(bucket_display_name(&line, 42), "Bucket 42");
}

#[test]
fn load_simulation_from_config_builds_production_state() {
    let machines = vec![MachineConfig {
        id: 0,
        name: "Cutter".to_string(),
        staff_required: Some(1),
        is_automated: None,
        count: Some(2),
    }];
    let staff = vec![person(0, "Alex", 0, "Operator", vec![])];
    let steps = vec![ProcessStep { bucket_id: 0, process_id: Some(5), duration: 12 }];
    let loaded = AssemblyLine::from_config(&machines, &staff, steps, 3);
    assert_eq!(loaded.production.machines.len(), 2);
    let bucket = loaded.buckets.iter().find(|b| b.id == 0).unwrap();
    assert_eq!(bucket.machine_ids.len(), 2);
    assert!(bucket.machine_ids.contains(&0));
    assert!(bucket.machine_ids.contains(&1));
    assert_eq!(loaded.production.staff.len(), 1);
    assert_eq!(loaded.steps.len(), 1);
    assert_eq!(loaded.items, 3);
}

#[test]
fn two_step_line_completes_for_many_durations() {
    for d1 in 1..=12u32 {
        for d2 in 1..=12u32 {
            for items in 1..=4u32 {
                let machines = vec![machine(0, "CNC", Some(1), false, 1), machine(1, "Assembly", Some(2), false, 1)];
                let staff = vec![
                    person(0, "Jane", 1, "CNC Specialist", vec![0]),
                    person(1, "Bob", 2, "Generalist", vec![]),
                    person(2, "Alice", 2, "Generalist", vec![]),
                ];
                let mut line = AssemblyLine::from_config(&machines, &staff, vec![step(0, d1), step(1, d2)], items);
                seed_first_step(&mut line);
                let ticks = run_to_end(&mut line, 10_000);
                assert!(ticks < 10_000);
                assert_eq!(line.finished_goods, items, "d1={} d2={} items={}", d1, d2, items);
                assert!(line.production.staff.iter().all(|s| s.is_available));
            }
        }
    }
}

#[test]
fn automated_machines_finish_batches() {
    for count in 1..=4u32 {
        for items in 1..=6u32 {
            let machines = vec![machine(0, "Belt", None, true, count)];
            let mut line = AssemblyLine::from_config(&machines, &vec![], vec![step(0, 10)], items);
            seed_first_step(&mut line);
            run_to_end(&mut line, 1000);
            assert_eq!(line.finished_goods, items);
            let rounds = (items + count - 1) / count;
            assert_eq!(line.production.simulator.elapsed_time(), 10 * rounds);
        }
    }
}
