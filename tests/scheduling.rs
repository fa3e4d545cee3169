use assemblysim::machine::MachineType;
use assemblysim::scheduling::{ProductionSimulator, WaitingReason};
use assemblysim::staff::{Role, Staff};
use assemblysim::time::EventType;

#[test]
fn test_automated_machine() {
    let mut prod = ProductionSimulator::new();

    let auto_machine = MachineType::automated(0, "Conveyor Belt");
    prod.add_machine(auto_machine);

    let success = prod.try_start_process(0, 0, 10, 0);
    assert!(success);
    assert!(prod.machines[0].is_operating);
    assert_eq!(prod.machines[0].assigned_staff.len(), 0);
}

#[test]
fn test_machine_with_staff() {
    let mut prod = ProductionSimulator::new();

    let machine = MachineType::new(0, "CNC Machine", 1);
    prod.add_machine(machine);

    let role = Role::new(0, "Operator");
    let staff = Staff::new(0, "John", role);
    prod.add_staff(staff);

    let success = prod.try_start_process(0, 0, 10, 0);
    assert!(success);
    assert!(prod.machines[0].is_operating);
    assert_eq!(prod.machines[0].assigned_staff.len(), 1);
    assert!(!prod.staff[0].is_available);
}

#[test]
fn test_staff_unavailable() {
    let mut prod = ProductionSimulator::new();

    let machine = MachineType::new(0, "Press", 2);
    prod.add_machine(machine);

    let role = Role::new(0, "Operator");
    let staff = Staff::new(0, "John", role);
    prod.add_staff(staff);

    let success = prod.try_start_process(0, 0, 10, 0);
    assert!(!success);
    assert!(!prod.machines[0].is_operating);
}

#[test]
fn too_few_staff_signals_unavailable_at_call_time() {
    let mut prod = ProductionSimulator::new();
    prod.add_machine(MachineType::new(0, "Press", 2));
    prod.add_staff(Staff::new(0, "John", Role::new(0, "Operator")));

    assert!(!prod.try_start_process(0, 4, 10, 7));
    assert!(!prod.machines[0].is_operating);
    assert_eq!(prod.machines[0].waiting_for, Some(WaitingReason::Staff));
    assert!(prod.staff[0].is_available);
    let e = prod.simulator.step().unwrap();
    assert_eq!(e.time.as_minutes(), 7);
    assert_eq!(e.event_type, EventType::StaffUnavailable { machine_id: 0, process_id: 4 });
    assert!(!prod.simulator.has_events());
}

#[test]
fn unknown_machine_is_refused_without_change() {
    let mut prod = ProductionSimulator::new();
    prod.add_machine(MachineType::automated(0, "Conveyor"));
    assert!(!prod.try_start_process(1, 0, 10, 0));
    assert!(!prod.machines[0].is_operating);
    assert!(!prod.simulator.has_events());
}

#[test]
fn start_takes_first_eligible_staff_and_schedules_releases() {
    let mut prod = ProductionSimulator::new();
    prod.add_machine(MachineType::new(0, "Lathe", 1));
    prod.add_machine(MachineType::new(1, "Assembly", 2));
    prod.add_staff(Staff::new(10, "Spec", Role::specialist(1, "Lathe only", vec![0])));
    prod.add_staff(Staff::new(11, "Ann", Role::new(0, "General")));
    prod.add_staff(Staff::new(12, "Ben", Role::new(0, "General")));
    prod.add_staff(Staff::new(13, "Cat", Role::new(0, "General")));

    assert!(prod.try_start_process(1, 9, 15, 5));
    assert_eq!(prod.machines[1].assigned_staff, vec![11, 12]);
    assert!(prod.staff[0].is_available);
    assert!(!prod.staff[1].is_available);
    assert!(!prod.staff[2].is_available);
    assert!(prod.staff[3].is_available);
    assert_eq!(prod.staff[1].available_at, 20);
    assert_eq!(prod.staff[1].idle_time, 5);
    assert_eq!(prod.machines[1].idle_time, 5);
    assert_eq!(prod.machines[1].last_status_change, 5);

    let mut seen = Vec::new();
    prod.simulator.run_all(|_s, e| seen.push((e.time.as_minutes(), e.event_type)));
    assert_eq!(
        seen,
        vec![
            (20, EventType::StaffReleased { staff_id: 11, machine_id: 1 }),
            (20, EventType::StaffReleased { staff_id: 12, machine_id: 1 }),
            (20, EventType::ProcessComplete { machine_id: 1, process_id: 9 }),
        ]
    );
}

#[test]
fn test_specialist_staff() {
    let mut prod = ProductionSimulator::new();

    let machine_a = MachineType::new(0, "CNC", 1);
    let machine_b = MachineType::new(1, "Lathe", 1);
    prod.add_machine(machine_a);
    prod.add_machine(machine_b);

    let role = Role::specialist(0, "CNC Specialist", vec![0]);
    let specialist = Staff::new(0, "Jane", role);
    prod.add_staff(specialist);

    let success_a = prod.try_start_process(0, 0, 10, 0);
    assert!(success_a);

    prod.staff[0].release_from_machine(10);
    let success_b = prod.try_start_process(1, 0, 10, 10);
    assert!(!success_b);
}

#[test]
fn test_multiple_sequential_processes() {
    let mut prod = ProductionSimulator::new();

    let machine = MachineType::new(0, "Welding Station", 1);
    prod.add_machine(machine);

    let role = Role::new(0, "Welder");
    let staff = Staff::new(0, "Bob", role);
    prod.add_staff(staff);

    let success1 = prod.try_start_process(0, 0, 10, 0);
    assert!(success1);
    assert!(!prod.staff[0].is_available);

    prod.staff[0].release_from_machine(10);

    let success2 = prod.try_start_process(0, 1, 10, 10);
    assert!(success2);
    assert!(!prod.staff[0].is_available);
    assert_eq!(prod.staff[0].available_at, 20);
}

#[test]
fn test_full_simulation_with_staff() {
    let mut prod = ProductionSimulator::new();

    let machine = MachineType::new(0, "Assembly", 1);
    prod.add_machine(machine);

    let role = Role::new(0, "Assembler");
    let staff = Staff::new(0, "Alice", role);
    prod.add_staff(staff);

    for item_id in 0..3 {
        let current_time = item_id * 15;
        prod.try_start_process(0, item_id, 10, current_time);

        if item_id < 2 {
            prod.staff[0].release_from_machine((item_id + 1) * 15);
        }
    }

    let mut event_count = 0;
    prod.simulator.run_all(|sim, event| {
        event_count += 1;
        println!(
            "Time {}: {:?}",
            sim.elapsed_time(),
            event.event_type
        );
    });

    assert!(event_count > 0);
}

#[test]
fn test_staff_status() {
    let mut prod = ProductionSimulator::new();

    let machine = MachineType::new(0, "Machine A", 1);
    prod.add_machine(machine);

    let role = Role::new(0, "Worker");
    let staff = Staff::new(0, "Tom", role);
    prod.add_staff(staff);

    let _status_before = prod.get_status();
    prod.try_start_process(0, 0, 10, 0);
    let _status_after = prod.get_status();

    assert!(!_status_before.is_empty());
    assert!(!_status_after.is_empty());
}

#[test]
fn status_report_lists_machines_and_staff() {
    let mut prod = ProductionSimulator::new();
    prod.add_machine(MachineType::new(12, "Press", 1));
    prod.add_machine(MachineType::automated(13, "Belt"));
    prod.add_staff(Staff::new(40, "Tom", Role::new(0, "Worker")));
    prod.simulator.set_time(assemblysim::time::SimulationTime::new(250));
    assert!(prod.try_start_process(0, 0, 10, 250));
    let text = prod.get_status();
    assert_eq!(
        text,
        "Production Status at time 250\n\
         Machines:\n  \
         - Press (ID: 12): Operating with 1 staff | Idle: 250 mins\n  \
         - Belt (ID: 13): Idle with 0 staff | Waiting for Next task | Idle: 0 mins\n\
         Staff:\n  \
         - Tom (ID: 40): Busy (on machine 0) | Idle: 250 mins\n"
    );
}

#[test]
fn finalize_idle_time_releases_stuck_staff() {
    let mut prod = ProductionSimulator::new();
    let machine = MachineType::new(0, "Machine A", 1);
    prod.add_machine(machine);

    let role = Role::new(0, "Operator");
    let staff = Staff::new(0, "Op", role);
    prod.add_staff(staff);

    assert!(prod.try_start_process(0, 0, 10, 0));
    prod.machines[0].is_operating = false;
    prod.finalize_idle_time(15);

    assert!(prod.staff[0].is_available);
    assert_eq!(prod.staff[0].current_machine, None);
    assert_eq!(prod.machines[0].assigned_staff.len(), 0);
    assert_eq!(prod.machines[0].idle_time, 15);

    prod.finalize_idle_time(20);
    assert_eq!(prod.staff[0].idle_time, 5);
}

#[test]
fn finalize_twice_at_same_time_counts_once() {
    let mut prod = ProductionSimulator::new();
    prod.add_machine(MachineType::new(0, "A", 1));
    prod.add_machine(MachineType::new(1, "B", 1));
    prod.add_staff(Staff::new(0, "Op", Role::new(0, "Operator")));
    prod.add_staff(Staff::new(1, "Ed", Role::new(0, "Operator")));
    assert!(prod.try_start_process(0, 0, 30, 5));

    prod.finalize_idle_time(20);
    let staff_idle: Vec<u32> = prod.staff.iter().map(|s| s.idle_time).collect();
    let machine_idle: Vec<u32> = prod.machines.iter().map(|m| m.idle_time).collect();
    assert_eq!(staff_idle, vec![5, 20]);
    assert_eq!(machine_idle, vec![5, 20]);

    prod.finalize_idle_time(20);
    let again: Vec<u32> = prod.staff.iter().map(|s| s.idle_time).collect();
    let again_m: Vec<u32> = prod.machines.iter().map(|m| m.idle_time).collect();
    assert_eq!(again, staff_idle);
    assert_eq!(again_m, machine_idle);

    prod.finalize_idle_time(26);
    assert_eq!(prod.staff[1].idle_time, 26);
    assert_eq!(prod.machines[1].idle_time, 26);
    assert_eq!(prod.staff[0].idle_time, 5);
    assert_eq!(prod.machines[0].idle_time, 5);
    assert!(!prod.staff[0].is_available);
}

#[test]
fn finalize_frees_staff_whose_machine_dropped_them() {
    let mut prod = ProductionSimulator::new();
    prod.add_machine(MachineType::new(0, "A", 1));
    prod.add_staff(Staff::new(7, "Op", Role::new(0, "Operator")));
    assert!(prod.try_start_process(0, 0, 30, 0));
    prod.machines[0].assigned_staff.clear();
    prod.finalize_idle_time(10);
    // the machine no longer lists them, so they are freed before the end at 30
    assert!(prod.staff[0].is_available);
    assert_eq!(prod.staff[0].current_machine, None);
    assert_eq!(prod.staff[0].last_status_change, 10);
    prod.finalize_idle_time(30);
    assert_eq!(prod.staff[0].idle_time, 20);
}

#[test]
fn finalize_frees_staff_of_a_stopped_machine_early() {
    let mut prod = ProductionSimulator::new();
    prod.add_machine(MachineType::new(0, "A", 1));
    prod.add_staff(Staff::new(0, "Op", Role::new(0, "Operator")));
    assert!(prod.try_start_process(0, 0, 100, 0));
    prod.machines[0].is_operating = false;
    prod.finalize_idle_time(5);
    assert!(prod.staff[0].is_available);
    assert_eq!(prod.staff[0].current_machine, None);
    assert!(prod.machines[0].assigned_staff.is_empty());
}

#[test]
fn finalize_keeps_staff_of_a_running_machine() {
    let mut prod = ProductionSimulator::new();
    prod.add_machine(MachineType::new(0, "A", 1));
    prod.add_staff(Staff::new(0, "Op", Role::new(0, "Operator")));
    assert!(prod.try_start_process(0, 0, 100, 0));
    prod.finalize_idle_time(5);
    assert!(!prod.staff[0].is_available);
    assert_eq!(prod.staff[0].current_machine, Some(0));
}

#[test]
fn failed_start_near_the_end_of_time() {
    let mut prod = ProductionSimulator::new();
    prod.add_machine(MachineType::new(0, "Press", 2));
    assert!(!prod.try_start_process(0, 1, u32::MAX, u32::MAX));
    assert!(!prod.try_start_process(3, 1, u32::MAX, u32::MAX));
    let e = prod.simulator.step().unwrap();
    assert_eq!(e.time.as_minutes(), u32::MAX);
}
