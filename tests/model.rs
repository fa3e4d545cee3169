use assemblysim::args::parse_config_path;
use assemblysim::batch::MachineSimulator;
use assemblysim::log_level::LogLevel;
use assemblysim::machine::MachineType;
use assemblysim::materials::{Material, Process, ProductionLine};
use assemblysim::staff::{Role, Staff};
use assemblysim::time::{EventType, SimulationTime, Simulator};

#[test]
fn test_log_level_ordering() {
    assert!(LogLevel::Debug < LogLevel::Info);
    assert!(LogLevel::Info < LogLevel::Warning);
    assert!(LogLevel::Warning < LogLevel::Error);
}

#[test]
fn log_level_labels() {
    assert_eq!(LogLevel::Debug.as_str(), "DEBUG");
    assert_eq!(LogLevel::Info.as_str(), "INFO");
    assert_eq!(LogLevel::Warning.as_str(), "WARNING");
    assert_eq!(LogLevel::Error.as_str(), "ERROR");
}

#[test]
fn parse_config_path_supports_flags_and_positionals() {
    let args = vec![
        "assemblysim".to_string(),
        "--config".to_string(),
        "path/a.json".to_string(),
    ];
    assert_eq!(parse_config_path(&args), Some("path/a.json".to_string()));

    let args = vec![
        "assemblysim".to_string(),
        "-c".to_string(),
        "path/b.json".to_string(),
    ];
    assert_eq!(parse_config_path(&args), Some("path/b.json".to_string()));

    let args = vec!["assemblysim".to_string(), "path/c.json".to_string()];
    assert_eq!(parse_config_path(&args), Some("path/c.json".to_string()));

    let args = vec!["assemblysim".to_string()];
    assert_eq!(parse_config_path(&args), None);
}

#[test]
fn parse_config_path_flag_without_value() {
    let args = vec!["assemblysim".to_string(), "--config".to_string()];
    assert_eq!(parse_config_path(&args), None);
}

#[test]
fn creates_manual_machine() {
    let machine = MachineType::new(1, "Press", 2);
    assert_eq!(machine.id, 1);
    assert_eq!(machine.name, "Press");
    assert_eq!(machine.staff_required, 2);
    assert!(machine.needs_staff());
    assert!(!machine.is_automated);
}

#[test]
fn creates_automated_machine() {
    let machine = MachineType::automated(2, "Conveyor");
    assert_eq!(machine.id, 2);
    assert_eq!(machine.name, "Conveyor");
    assert_eq!(machine.staff_required, 0);
    assert!(machine.is_automated);
    assert!(!machine.needs_staff());
}

#[test]
fn detects_staff_not_required_when_zero() {
    let machine = MachineType {
        staff_required: 0,
        ..MachineType::new(3, "Buffer", 0)
    };
    assert!(!machine.needs_staff());
}

#[test]
fn material_keeps_name() {
    let material = Material {
        name: "Steel Sheet".to_string(),
    };
    assert_eq!(material.name, "Steel Sheet");
}

#[test]
fn process_carries_required_machines_and_duration() {
    let welder = MachineType::new(0, "Welder", 1);
    let assembler = MachineType::new(1, "Assembler", 2);
    let process = Process {
        required_machine: vec![welder.clone(), assembler.clone()],
        time_per_unit: 15,
    };

    assert_eq!(process.time_per_unit, 15);
    assert_eq!(process.required_machine.len(), 2);
    assert_eq!(process.required_machine[0].name, welder.name);
    assert_eq!(process.required_machine[1].staff_required, assembler.staff_required);
}

#[test]
fn production_line_links_materials() {
    let start = Material {
        name: "Raw Steel".to_string(),
    };
    let end = Material {
        name: "Chassis".to_string(),
    };
    let line = ProductionLine {
        name: "Chassis Line".to_string(),
        start_material: start,
        end_material: end,
    };

    assert_eq!(line.name, "Chassis Line");
    assert_eq!(line.start_material.name, "Raw Steel");
    assert_eq!(line.end_material.name, "Chassis");
}

#[test]
fn test_machine_processing_batch() {
    let mut machine = MachineSimulator::new(0);

    machine.schedule_batch(3, 10);

    let mut events = Vec::new();
    machine.simulator.run_all(|sim, event| {
        events.push((sim.elapsed_time(), event.event_type.clone()));
    });

    assert_eq!(events.len(), 6);

    assert_eq!(events[0].0, 0);
    assert_eq!(events[1].0, 10);
    assert_eq!(events[2].0, 10);
    assert_eq!(events[3].0, 20);
    assert_eq!(events[4].0, 20);
    assert_eq!(events[5].0, 30);

    println!("Machine finished all items at time: {} minutes",
             machine.simulator.elapsed_time());
}

#[test]
fn test_multiple_machines_timeline() {
    let mut machine_a = MachineSimulator::new(0);
    let mut machine_b = MachineSimulator::new(1);

    machine_a.schedule_batch(3, 10);
    machine_b.schedule_batch(2, 15);

    machine_a.simulator.run_all(|_sim, _event| {});
    machine_b.simulator.run_all(|_sim, _event| {});

    let time_a = machine_a.simulator.elapsed_time();
    let time_b = machine_b.simulator.elapsed_time();

    println!("Machine A finishes at: {} minutes", time_a);
    println!("Machine B finishes at: {} minutes", time_b);

    assert_eq!(time_a, 30);
    assert_eq!(time_b, 30);
    assert_eq!(machine_a.total_time_minutes(), 30);
}

#[test]
fn batch_events_alternate_start_and_complete() {
    let mut machine = MachineSimulator::new(4);
    machine.schedule_batch(2, 7);
    let mut seen = Vec::new();
    machine.simulator.run_all(|_sim, event| seen.push(event.event_type));
    assert_eq!(
        seen,
        vec![
            EventType::ProcessStart { machine_id: 4, process_id: 0 },
            EventType::ProcessComplete { machine_id: 4, process_id: 0 },
            EventType::ProcessStart { machine_id: 4, process_id: 1 },
            EventType::ProcessComplete { machine_id: 4, process_id: 1 },
        ]
    );
}

#[test]
fn test_role_creation() {
    let role = Role::new(0, "Operator");
    assert_eq!(role.name, "Operator");
    assert_eq!(role.id, 0);
    assert!(role.machine_ids.is_empty());
}

#[test]
fn test_specialist_role() {
    let role = Role::specialist(1, "CNC Specialist", vec![0, 1]);
    assert_eq!(role.name, "CNC Specialist");
    assert!(role.can_work_on(0));
    assert!(role.can_work_on(1));
    assert!(!role.can_work_on(2));
}

#[test]
fn specialist_for_two_machines_refuses_every_other_id() {
    let role = Role::specialist(1, "CNC Specialist", vec![0, 1]);
    for id in [2u32, 3, 17, 1000, u32::MAX] {
        assert!(!role.can_work_on(id));
    }
    let anyone = Role::new(2, "General");
    assert!(anyone.can_work_on(u32::MAX));
}

#[test]
fn test_staff_creation() {
    let role = Role::new(0, "Operator");
    let staff = Staff::new(0, "John", role);
    assert_eq!(staff.id, 0);
    assert_eq!(staff.name, "John");
    assert!(staff.is_available);
    assert_eq!(staff.current_machine, None);
    assert_eq!(staff.idle_time, 0);
}

#[test]
fn test_staff_assignment() {
    let role = Role::new(0, "Operator");
    let mut staff = Staff::new(0, "John", role);

    let success = staff.assign_to_machine(0, 10, 0);
    assert!(success);
    assert!(!staff.is_available);
    assert_eq!(staff.current_machine, Some(0));
    assert_eq!(staff.available_at, 10);
    assert_eq!(staff.idle_time, 0);

    let success = staff.assign_to_machine(1, 10, 5);
    assert!(!success);
    assert_eq!(staff.current_machine, Some(0));

    staff.release_from_machine(10);
    assert!(staff.is_available);
    assert_eq!(staff.current_machine, None);
    staff.accumulate_idle_until(20);
    assert_eq!(staff.idle_time, 10);
}

#[test]
fn test_specialist_restriction() {
    let role = Role::specialist(0, "CNC Op", vec![0, 1]);
    let mut staff = Staff::new(0, "Jane", role);

    let success = staff.assign_to_machine(0, 10, 0);
    assert!(success);

    staff.release_from_machine(10);
    let success = staff.assign_to_machine(2, 10, 10);
    assert!(!success);
}

#[test]
fn early_release_keeps_staff_busy() {
    let mut staff = Staff::new(3, "Kim", Role::new(0, "Operator"));
    assert!(staff.assign_to_machine(1, 10, 5));
    staff.release_from_machine(14);
    assert!(!staff.is_available);
    assert_eq!(staff.current_machine, Some(1));
    assert_eq!(staff.last_status_change, 5);
    staff.release_from_machine(15);
    assert!(staff.is_available);
    assert_eq!(staff.last_status_change, 15);
}

#[test]
fn assignment_accrues_idle_gap_and_ignores_earlier_times() {
    let mut staff = Staff::new(1, "Lee", Role::new(0, "Operator"));
    assert!(staff.assign_to_machine(0, 5, 12));
    assert_eq!(staff.idle_time, 12);
    staff.release_from_machine(17);
    assert!(staff.assign_to_machine(0, 5, 10));
    assert_eq!(staff.idle_time, 12);
    assert_eq!(staff.last_status_change, 10);
}

#[test]
fn idle_time_saturates() {
    let mut staff = Staff::new(1, "Lee", Role::new(0, "Operator"));
    staff.idle_time = u32::MAX - 1;
    staff.accumulate_idle_until(100);
    assert_eq!(staff.idle_time, u32::MAX);
}

#[test]
fn test_simulation_time_creation() {
    let time = SimulationTime::new(100);
    assert_eq!(time.as_minutes(), 100);
}

#[test]
fn test_time_arithmetic() {
    let time1 = SimulationTime::new(10);
    let time2 = time1.add_minutes(20);
    assert_eq!(time2.as_minutes(), 30);
    assert_eq!(time1.duration_until(time2), 20);
}

#[test]
fn duration_until_an_earlier_time_is_zero() {
    assert_eq!(SimulationTime::new(30).duration_until(SimulationTime::new(10)), 0);
    assert_eq!(SimulationTime::new(7).duration_until(SimulationTime::new(7)), 0);
}

#[test]
fn test_simulator_creation() {
    let sim = Simulator::new();
    assert_eq!(sim.elapsed_time(), 0);
    assert!(!sim.has_events());
}

#[test]
fn test_event_scheduling() {
    let mut sim = Simulator::new();

    sim.schedule_event(
        SimulationTime::new(10),
        EventType::ProcessStart { machine_id: 0, process_id: 1 },
    );
    sim.schedule_event(
        SimulationTime::new(5),
        EventType::MaterialArrival { material_id: 1 },
    );

    assert_eq!(sim.has_events(), true);

    let event = sim.step();
    assert!(event.is_some());
    assert_eq!(sim.current_time.as_minutes(), 5);
}

#[test]
fn test_simulation_loop() {
    let mut sim = Simulator::new();

    sim.schedule_event(
        SimulationTime::new(10),
        EventType::ProcessStart { machine_id: 0, process_id: 1 },
    );
    sim.schedule_event(
        SimulationTime::new(20),
        EventType::ProcessComplete { machine_id: 0, process_id: 1 },
    );

    let mut event_count = 0;
    sim.run_all(|_sim, event| {
        event_count += 1;
        println!("Event at time {}: {:?}", _sim.current_time.as_minutes(), event.event_type);
    });

    assert_eq!(event_count, 2);
    assert!(!sim.has_events());
}

#[test]
fn steps_come_out_earliest_first() {
    let mut sim = Simulator::new();
    for (t, id) in [(5u32, 0u32), (3, 1), (9, 2), (3, 3), (1, 4)] {
        sim.schedule_event(SimulationTime::new(t), EventType::MaterialArrival { material_id: id });
    }
    let mut order = Vec::new();
    while let Some(e) = sim.step() {
        assert_eq!(sim.elapsed_time(), e.time.as_minutes());
        order.push((e.time.as_minutes(), e.event_type));
    }
    let times: Vec<u32> = order.iter().map(|p| p.0).collect();
    assert_eq!(times, vec![1, 3, 3, 5, 9]);
    // equal times leave in the order they were scheduled
    assert_eq!(order[1].1, EventType::MaterialArrival { material_id: 1 });
    assert_eq!(order[2].1, EventType::MaterialArrival { material_id: 3 });
    assert!(sim.step().is_none());
    assert_eq!(sim.elapsed_time(), 9);
}

#[test]
fn peek_and_next_event_leave_the_clock() {
    let mut sim = Simulator::new();
    assert!(sim.peek_next_event().is_none());
    assert!(sim.next_event().is_none());
    sim.schedule_event(SimulationTime::new(8), EventType::StaffAvailable { staff_id: 2 });
    sim.schedule_event(SimulationTime::new(4), EventType::StaffAvailable { staff_id: 1 });
    assert_eq!(sim.peek_next_event().unwrap().time.as_minutes(), 4);
    let e = sim.next_event().unwrap();
    assert_eq!(e.event_type, EventType::StaffAvailable { staff_id: 1 });
    assert_eq!(sim.elapsed_time(), 0);
    sim.set_time(SimulationTime::new(50));
    assert_eq!(sim.elapsed_time(), 50);
    assert!(sim.has_events());
}

#[test]
fn run_all_on_empty_timeline_keeps_clock() {
    let mut sim = Simulator::new();
    sim.set_time(SimulationTime::new(12));
    let mut calls = 0;
    sim.run_all(|_s, _e| calls += 1);
    assert_eq!(calls, 0);
    assert_eq!(sim.elapsed_time(), 12);
}
