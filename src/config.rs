//! Building a line from its configuration: machine groups expanded into
//! numbered machines and buckets, roles and staff registered in order.
use vstd::prelude::*;
use crate::line::{AssemblyLine, Bucket, ProcessStep, find_bucket};
use crate::machine::MachineType;
use crate::scheduling::{MachineState, ProductionSimulator};
use crate::staff::{Role, Staff};

verus! {

/// Every bucket lists its machines in increasing id order, each once.
#[verifier::opaque]
pub open spec fn lists_increasing(buckets: Seq<Bucket>) -> bool {
    forall|b: int, x: int, y: int| 0 <= b < buckets.len() && 0 <= x < y < buckets[b].machine_ids@.len()
        ==> buckets[b].machine_ids@[x] < buckets[b].machine_ids@[y]
}

/// A group of identical machines as configured.
#[derive(Debug, Clone)]
pub struct MachineConfig {
    /// The bucket the machines form.
    pub id: u32,
    pub name: String,
    /// Staff needed per machine; one when absent.
    pub staff_required: Option<u32>,
    /// Whether the machines run without staff; no when absent.
    pub is_automated: Option<bool>,
    /// How many identical machines; one when absent.
    pub count: Option<u32>,
}

/// A role as configured; an empty machine list means no restriction.
#[derive(Debug, Clone)]
pub struct RoleConfig {
    pub id: u32,
    pub name: String,
    pub machine_ids: Vec<u32>,
}

/// A staff member as configured.
#[derive(Debug, Clone)]
pub struct StaffConfig {
    pub id: u32,
    pub name: String,
    pub role: RoleConfig,
}

/// The number of items run when the configuration names none.
pub fn default_items() -> (r: u32)
    ensures
        r == 1,
{
    1
}

pub open spec fn config_count(c: MachineConfig) -> nat {
    match c.count {
        Some(n) => n as nat,
        None => 1,
    }
}

/// For each machine made from the first `n` configurations, in id order,
/// the position of its configuration.
pub open spec fn plan_upto(cfgs: Seq<MachineConfig>, n: int) -> Seq<int>
    decreases n,
{
    if n <= 0 {
        Seq::empty()
    } else {
        plan_upto(cfgs, n - 1) + Seq::new(config_count(cfgs[n - 1]), |_k: int| n - 1)
    }
}

/// For each machine of the line, in id order, the position of its configuration.
pub open spec fn machine_plan(cfgs: Seq<MachineConfig>) -> Seq<int> {
    plan_upto(cfgs, cfgs.len() as int)
}

/// Machine `m` is built as configuration `c` says.
pub open spec fn built_from(m: MachineState, c: MachineConfig, id: int) -> bool {
    &&& m.machine.id == id
    &&& m.machine.name@ == c.name@
    &&& m.machine.is_automated == (c.is_automated == Some(true))
    &&& m.machine.staff_required == if c.is_automated == Some(true) {
        0
    } else {
        match c.staff_required {
            Some(k) => k,
            None => 1u32,
        }
    }
    &&& !m.is_operating
    &&& m.assigned_staff@.len() == 0
    &&& m.waiting_for is None
    &&& m.idle_time == 0
    &&& m.last_status_change == 0
}

/// Staff member `s` is built as configuration `c` says.
pub open spec fn staff_built_from(s: Staff, c: StaffConfig) -> bool {
    &&& s.id == c.id
    &&& s.name@ == c.name@
    &&& s.role.id == c.role.id
    &&& s.role.name@ == c.role.name@
    &&& s.role.machine_ids@ == c.role.machine_ids@
    &&& s.is_available
    &&& s.current_machine is None
    &&& s.available_at == 0
    &&& s.idle_time == 0
    &&& s.last_status_change == 0
}

proof fn lemma_plan_grows(cfgs: Seq<MachineConfig>, n: int, m: int)
    requires
        0 <= n <= m,
    ensures
        plan_upto(cfgs, n).len() <= plan_upto(cfgs, m).len(),
        forall|k: int| 0 <= k < plan_upto(cfgs, n).len() ==> #[trigger] plan_upto(cfgs, m)[k] == plan_upto(cfgs, n)[k],
    decreases m - n,
{
    if n < m {
        lemma_plan_grows(cfgs, n, m - 1);
    }
}

proof fn lemma_plan_range(cfgs: Seq<MachineConfig>, n: int)
    requires
        0 <= n <= cfgs.len(),
    ensures
        forall|k: int| 0 <= k < plan_upto(cfgs, n).len() ==> 0 <= #[trigger] plan_upto(cfgs, n)[k] < n,
    decreases n,
{
    if n > 0 {
        lemma_plan_range(cfgs, n - 1);
        let prev = plan_upto(cfgs, n - 1);
        assert forall|k: int| 0 <= k < plan_upto(cfgs, n).len() implies 0 <= #[trigger] plan_upto(cfgs, n)[k] < n by {
            if k < prev.len() {
                assert(plan_upto(cfgs, n)[k] == prev[k]);
            } else {
                assert(plan_upto(cfgs, n)[k] == n - 1);
            }
        }
    }
}

impl AssemblyLine {
    /// Builds a line from its configuration: each machine configuration
    /// gives `count` machines with consecutive ids from zero, grouped in the
    /// bucket named by the configuration's id; every step's bucket exists;
    /// staff are registered in order; nothing is queued yet.
    #[verifier::spinoff_prover]
    #[verifier::rlimit(100)]
    pub fn from_config(machines: &Vec<MachineConfig>, staff: &Vec<StaffConfig>, steps: Vec<ProcessStep>, items: u32) -> (r: AssemblyLine)
        requires
            machine_plan(machines@).len() <= u32::MAX,
        ensures
            r.wf(),
            r.production.simulator.current_time.0 == 0,
            r.production.simulator.pending().len() == 0,
            r.production.machines@.len() == machine_plan(machines@).len(),
            forall|k: int| 0 <= k < r.production.machines@.len() ==> {
                &&& built_from(#[trigger] r.production.machines@[k], machines@[machine_plan(machines@)[k]], k)
                &&& exists|b: int| 0 <= b < r.buckets@.len() && r.buckets@[b].id == machines@[machine_plan(machines@)[k]].id
                    && (#[trigger] r.buckets@[b].machine_ids@).contains(k as u32)
            },
            r.production.staff@.len() == staff@.len(),
            forall|i: int| 0 <= i < staff@.len() ==> staff_built_from(#[trigger] r.production.staff@[i], staff@[i]),
            forall|b: int, x: int| 0 <= b < r.buckets@.len() && 0 <= x < r.buckets@[b].machine_ids@.len() ==> {
                let m = #[trigger] r.buckets@[b].machine_ids@[x];
                m < r.production.machines@.len() && machines@[machine_plan(machines@)[m as int]].id == r.buckets@[b].id
            },
            forall|b1: int, b2: int| 0 <= b1 < b2 < r.buckets@.len() ==> r.buckets@[b1].id != r.buckets@[b2].id,
            lists_increasing(r.buckets@),
            forall|b: int| 0 <= b < r.buckets@.len() ==> (#[trigger] r.buckets@[b]).queue@.len() == 0,
            forall|s: int| 0 <= s < steps@.len() ==> exists|b: int|
                0 <= b < r.buckets@.len() && (#[trigger] r.buckets@[b]).id == (#[trigger] steps@[s]).bucket_id,
            r.steps@ == steps@,
            r.items == items,
            r.next_pid == 0,
            r.finished_goods == 0,
            r.playing,
    {
        let ghost cfgs = machines@;
        let mut production = ProductionSimulator::new();
        let mut buckets: Vec<Bucket> = Vec::new();
        proof {
            reveal(lists_increasing);
        }
        let mut next_machine_id: u32 = 0;
        let mut ci: usize = 0;
        while ci < machines.len()
            invariant
                ci <= cfgs.len(),
                cfgs == machines@,
                machine_plan(cfgs).len() <= u32::MAX,
                next_machine_id == plan_upto(cfgs, ci as int).len(),
                production.machines@.len() == next_machine_id,
                production.staff@.len() == 0,
                production.simulator.current_time.0 == 0,
                production.simulator.pending().len() == 0,
                forall|k: int| 0 <= k < production.machines@.len() ==> {
                    &&& built_from(#[trigger] production.machines@[k], cfgs[plan_upto(cfgs, ci as int)[k]], k)
                    &&& exists|b: int| 0 <= b < buckets@.len() && buckets@[b].id == cfgs[plan_upto(cfgs, ci as int)[k]].id
                        && (#[trigger] buckets@[b].machine_ids@).contains(k as u32)
                },
                forall|b: int, x: int| 0 <= b < buckets@.len() && 0 <= x < buckets@[b].machine_ids@.len() ==> {
                    let m = #[trigger] buckets@[b].machine_ids@[x];
                    m < production.machines@.len() && cfgs[plan_upto(cfgs, ci as int)[m as int]].id == buckets@[b].id
                },
                forall|b1: int, b2: int| 0 <= b1 < b2 < buckets@.len() ==> buckets@[b1].id != buckets@[b2].id,
                lists_increasing(buckets@),
                forall|b: int| 0 <= b < buckets@.len() ==> (#[trigger] buckets@[b]).queue@.len() == 0,
            decreases cfgs.len() - ci,
        {
            let cfg = &machines[ci];
            let count: u32 = match cfg.count {
                Some(n) => n,
                None => 1,
            };
            let automated = match cfg.is_automated {
                Some(a) => a,
                None => false,
            };
            let ghost base = plan_upto(cfgs, ci as int);
            proof {
                lemma_plan_grows(cfgs, ci as int + 1, cfgs.len() as int);
                lemma_plan_range(cfgs, ci as int);
            }
            proof {
                assert forall|k: int| 0 <= k < production.machines@.len() implies {
                    &&& built_from(#[trigger] production.machines@[k], cfgs[if k < base.len() { base[k] } else { ci as int }], k)
                    &&& exists|b: int| 0 <= b < buckets@.len() && buckets@[b].id == cfgs[if k < base.len() { base[k] } else { ci as int }].id
                        && (#[trigger] buckets@[b].machine_ids@).contains(k as u32)
                } by {
                    assert(k < base.len());
                    assert(built_from(production.machines@[k], cfgs[plan_upto(cfgs, ci as int)[k]], k));
                }
            }
            let mut done: u32 = 0;
            while done < count
                invariant
                    ci < cfgs.len(),
                    cfgs == machines@,
                    *cfg == cfgs[ci as int],
                    count as nat == config_count(cfgs[ci as int]),
                    automated == (cfgs[ci as int].is_automated == Some(true)),
                    base == plan_upto(cfgs, ci as int),
                    forall|k: int| 0 <= k < base.len() ==> 0 <= #[trigger] base[k] < ci,
                    plan_upto(cfgs, ci as int + 1).len() <= u32::MAX,
                    done <= count,
                    next_machine_id == base.len() + done,
                    production.machines@.len() == next_machine_id,
                    production.staff@.len() == 0,
                    production.simulator.current_time.0 == 0,
                    production.simulator.pending().len() == 0,
                    forall|k: int| 0 <= k < production.machines@.len() ==> {
                        &&& built_from(#[trigger] production.machines@[k], cfgs[if k < base.len() { base[k] } else { ci as int }], k)
                        &&& exists|b: int| 0 <= b < buckets@.len() && buckets@[b].id == cfgs[if k < base.len() { base[k] } else { ci as int }].id
                            && (#[trigger] buckets@[b].machine_ids@).contains(k as u32)
                    },
                    forall|b: int, x: int| 0 <= b < buckets@.len() && 0 <= x < buckets@[b].machine_ids@.len() ==> {
                        let m = #[trigger] buckets@[b].machine_ids@[x];
                        m < production.machines@.len()
                            && cfgs[if m < base.len() { base[m as int] } else { ci as int }].id == buckets@[b].id
                    },
                    forall|b1: int, b2: int| 0 <= b1 < b2 < buckets@.len() ==> buckets@[b1].id != buckets@[b2].id,
                    lists_increasing(buckets@),
                    forall|b: int| 0 <= b < buckets@.len() ==> (#[trigger] buckets@[b]).queue@.len() == 0,
                decreases count - done,
            {
                let machine_id = next_machine_id;
                next_machine_id = next_machine_id + 1;
                let machine = if automated {
                    MachineType::automated(machine_id, cfg.name.as_str())
                } else {
                    let staff_needed: u32 = match cfg.staff_required {
                        Some(k) => k,
                        None => 1,
                    };
                    MachineType::new(machine_id, cfg.name.as_str(), staff_needed)
                };
                let ghost machines_before = production.machines@;
                production.add_machine(machine);
                let ghost buckets0 = buckets@;
                let ghost mut wb: int = 0;
                match find_bucket(&buckets, cfg.id) {
                    Some(b) => {
                        buckets[b].machine_ids.push(machine_id);
                        proof {
                            wb = b as int;
                        }
                        proof {
                            assert forall|x: int| 0 <= x < buckets0.len() implies
                                (#[trigger] buckets@[x]).id == buckets0[x].id
                                && buckets@[x].queue@ == buckets0[x].queue@
                                && forall|y: int| 0 <= y < buckets0[x].machine_ids@.len()
                                    ==> buckets@[x].machine_ids@[y] == buckets0[x].machine_ids@[y] by {}
                            assert(buckets@[b as int].machine_ids@.last() == machine_id);
                            reveal(lists_increasing);
                            assert forall|bb: int, x: int, y: int| 0 <= bb < buckets@.len()
                                && 0 <= x < y < buckets@[bb].machine_ids@.len()
                                implies buckets@[bb].machine_ids@[x] < buckets@[bb].machine_ids@[y] by {
                                if bb == b as int && y == buckets0[bb].machine_ids@.len() {
                                    let m = buckets0[bb].machine_ids@[x];
                                    assert(m < machines_before.len());
                                    assert(buckets@[bb].machine_ids@[x] == m);
                                } else if bb == b as int {
                                    assert(buckets@[bb].machine_ids@[x] == buckets0[bb].machine_ids@[x]);
                                    assert(buckets@[bb].machine_ids@[y] == buckets0[bb].machine_ids@[y]);
                                } else {
                                    assert(buckets@[bb] == buckets0[bb]);
                                }
                            }
                        }
                    },
                    None => {
                        let mut ids: Vec<u32> = Vec::new();
                        ids.push(machine_id);
                        buckets.push(Bucket { id: cfg.id, machine_ids: ids, queue: Vec::new() });
                        proof {
                            wb = buckets@.len() - 1;
                            assert(buckets@.last().machine_ids@[0] == machine_id);
                            reveal(lists_increasing);
                            assert forall|bb: int, x: int, y: int| 0 <= bb < buckets@.len()
                                && 0 <= x < y < buckets@[bb].machine_ids@.len()
                                implies buckets@[bb].machine_ids@[x] < buckets@[bb].machine_ids@[y] by {
                                if bb < buckets0.len() {
                                    assert(buckets@[bb] == buckets0[bb]);
                                }
                            }
                        }
                    },
                }
                proof {
                    assert forall|k: int| 0 <= k < production.machines@.len() implies {
                        &&& built_from(#[trigger] production.machines@[k], cfgs[if k < base.len() { base[k] } else { ci as int }], k)
                        &&& exists|b: int| 0 <= b < buckets@.len() && buckets@[b].id == cfgs[if k < base.len() { base[k] } else { ci as int }].id
                            && (#[trigger] buckets@[b].machine_ids@).contains(k as u32)
                    } by {
                        if k < machine_id {
                            assert(machines_before[k] == production.machines@[k]);
                            let b = choose|b: int| 0 <= b < buckets0.len() && buckets0[b].id == cfgs[if k < base.len() { base[k] } else { ci as int }].id
                                && (#[trigger] buckets0[b].machine_ids@).contains(k as u32);
                            let y = choose|y: int| 0 <= y < buckets0[b].machine_ids@.len() && buckets0[b].machine_ids@[y] == k as u32;
                            assert(buckets@[b].machine_ids@[y] == k as u32);
                        } else {
                            assert(buckets@[wb].machine_ids@.contains(machine_id));
                        }
                    }
                }
                done = done + 1;
            }
            proof {
                assert(plan_upto(cfgs, ci as int + 1) =~= base + Seq::new(config_count(cfgs[ci as int]), |_k: int| ci as int));
            }
            ci += 1;
        }
        proof {
            assert(plan_upto(cfgs, ci as int) == machine_plan(cfgs));
        }
        let mut s: usize = 0;
        while s < steps.len()
            invariant
                s <= steps@.len(),
                forall|x: int| 0 <= x < s ==> exists|b: int| 0 <= b < buckets@.len() && (#[trigger] buckets@[b]).id == (#[trigger] steps@[x]).bucket_id,
                production.simulator.current_time.0 == 0,
                production.simulator.pending().len() == 0,
                production.staff@.len() == 0,
                production.machines@.len() == machine_plan(cfgs).len(),
                cfgs == machines@,
                forall|k: int| 0 <= k < production.machines@.len() ==> {
                    &&& built_from(#[trigger] production.machines@[k], cfgs[machine_plan(cfgs)[k]], k)
                    &&& exists|b: int| 0 <= b < buckets@.len() && buckets@[b].id == cfgs[machine_plan(cfgs)[k]].id
                        && (#[trigger] buckets@[b].machine_ids@).contains(k as u32)
                },
                forall|b: int, x: int| 0 <= b < buckets@.len() && 0 <= x < buckets@[b].machine_ids@.len() ==> {
                    let m = #[trigger] buckets@[b].machine_ids@[x];
                    m < production.machines@.len() && cfgs[machine_plan(cfgs)[m as int]].id == buckets@[b].id
                },
                forall|b1: int, b2: int| 0 <= b1 < b2 < buckets@.len() ==> buckets@[b1].id != buckets@[b2].id,
                lists_increasing(buckets@),
                forall|b: int| 0 <= b < buckets@.len() ==> (#[trigger] buckets@[b]).queue@.len() == 0,
            decreases steps@.len() - s,
        {
            let id = steps[s].bucket_id;
            let ghost buckets0 = buckets@;
            if find_bucket(&buckets, id).is_none() {
                buckets.push(Bucket { id, machine_ids: Vec::new(), queue: Vec::new() });
                assert(buckets@[buckets0.len() as int].id == id);
                proof {
                    reveal(lists_increasing);
                    assert forall|bb: int, x: int, y: int| 0 <= bb < buckets@.len()
                        && 0 <= x < y < buckets@[bb].machine_ids@.len()
                        implies buckets@[bb].machine_ids@[x] < buckets@[bb].machine_ids@[y] by {
                        if bb < buckets0.len() {
                            assert(buckets@[bb] == buckets0[bb]);
                        }
                    }
                }
            }
            proof {
                assert(buckets0.len() <= buckets@.len());
                assert(forall|b: int| 0 <= b < buckets0.len() ==> buckets@[b] == buckets0[b]);
                assert forall|k: int| 0 <= k < production.machines@.len() implies {
                    &&& built_from(#[trigger] production.machines@[k], cfgs[machine_plan(cfgs)[k]], k)
                    &&& exists|b: int| 0 <= b < buckets@.len() && buckets@[b].id == cfgs[machine_plan(cfgs)[k]].id
                        && (#[trigger] buckets@[b].machine_ids@).contains(k as u32)
                } by {
                    assert(built_from(production.machines@[k], cfgs[machine_plan(cfgs)[k]], k));
                    let b = choose|b: int| 0 <= b < buckets0.len() && buckets0[b].id == cfgs[machine_plan(cfgs)[k]].id
                        && (#[trigger] buckets0[b].machine_ids@).contains(k as u32);
                    assert(buckets@[b] == buckets0[b]);
                }
                assert forall|x: int| 0 <= x < s + 1 implies exists|b: int| 0 <= b < buckets@.len()
                    && (#[trigger] buckets@[b]).id == (#[trigger] steps@[x]).bucket_id by {
                    if x < s {
                        let b = choose|b: int| 0 <= b < buckets0.len() && (#[trigger] buckets0[b]).id == steps@[x].bucket_id;
                        assert(buckets@[b] == buckets0[b]);
                    } else if buckets@.len() > buckets0.len() {
                        assert(buckets@[buckets0.len() as int].id == steps@[x].bucket_id);
                    } else {
                        let b = choose|b: int| 0 <= b < buckets0.len() && buckets0[b].id == id;
                        assert(buckets@[b].id == steps@[x].bucket_id);
                    }
                }
            }
            s += 1;
        }
        let mut i: usize = 0;
        while i < staff.len()
            invariant
                i <= staff@.len(),
                production.staff@.len() == i,
                forall|x: int| 0 <= x < i ==> staff_built_from(#[trigger] production.staff@[x], staff@[x]),
                production.simulator.current_time.0 == 0,
                production.simulator.pending().len() == 0,
                production.machines@.len() == machine_plan(cfgs).len(),
                cfgs == machines@,
                forall|k: int| 0 <= k < production.machines@.len() ==> {
                    &&& built_from(#[trigger] production.machines@[k], cfgs[machine_plan(cfgs)[k]], k)
                    &&& exists|b: int| 0 <= b < buckets@.len() && buckets@[b].id == cfgs[machine_plan(cfgs)[k]].id
                        && (#[trigger] buckets@[b].machine_ids@).contains(k as u32)
                },
                forall|b: int, x: int| 0 <= b < buckets@.len() && 0 <= x < buckets@[b].machine_ids@.len() ==> {
                    let m = #[trigger] buckets@[b].machine_ids@[x];
                    m < production.machines@.len() && cfgs[machine_plan(cfgs)[m as int]].id == buckets@[b].id
                },
                forall|x: int| 0 <= x < steps@.len() ==> exists|b: int| 0 <= b < buckets@.len() && (#[trigger] buckets@[b]).id == (#[trigger] steps@[x]).bucket_id,
                forall|b1: int, b2: int| 0 <= b1 < b2 < buckets@.len() ==> buckets@[b1].id != buckets@[b2].id,
                lists_increasing(buckets@),
                forall|b: int| 0 <= b < buckets@.len() ==> (#[trigger] buckets@[b]).queue@.len() == 0,
            decreases staff@.len() - i,
        {
            let cfg = &staff[i];
            let role = if cfg.role.machine_ids.len() == 0 {
                Role::new(cfg.role.id, cfg.role.name.as_str())
            } else {
                Role::specialist(cfg.role.id, cfg.role.name.as_str(), copy_ids(&cfg.role.machine_ids))
            };
            proof {
                if cfg.role.machine_ids@.len() == 0 {
                    assert(role.machine_ids@ =~= cfg.role.machine_ids@);
                }
            }
            let ghost production0 = production;
            let ghost buckets0 = buckets@;
            production.add_staff(Staff::new(cfg.id, cfg.name.as_str(), role));
            proof {
                assert forall|k: int| 0 <= k < production.machines@.len() implies {
                    &&& built_from(#[trigger] production.machines@[k], cfgs[machine_plan(cfgs)[k]], k)
                    &&& exists|b: int| 0 <= b < buckets@.len() && buckets@[b].id == cfgs[machine_plan(cfgs)[k]].id
                        && (#[trigger] buckets@[b].machine_ids@).contains(k as u32)
                } by {
                    assert(production.machines@[k] == production0.machines@[k]);
                    assert(built_from(production0.machines@[k], cfgs[machine_plan(cfgs)[k]], k));
                    let b = choose|b: int| 0 <= b < buckets0.len() && buckets0[b].id == cfgs[machine_plan(cfgs)[k]].id
                        && (#[trigger] buckets0[b].machine_ids@).contains(k as u32);
                    assert(buckets@[b] == buckets0[b]);
                }
                assert(production.staff@[i as int] == production.staff@.last());
            }
            i += 1;
        }
        AssemblyLine {
            production,
            buckets,
            steps,
            items,
            next_pid: 0,
            process_meta: Vec::new(),
            finished_goods: 0,
            playing: true,
        }
    }
}

fn copy_ids(v: &Vec<u32>) -> (r: Vec<u32>)
    ensures
        r@ == v@,
{
    let mut r: Vec<u32> = Vec::new();
    let mut i: usize = 0;
    while i < v.len()
        invariant
            i <= v@.len(),
            r@ == v@.subrange(0, i as int),
        decreases v@.len() - i,
    {
        r.push(v[i]);
        i += 1;
        assert(r@ =~= v@.subrange(0, i as int));
    }
    assert(r@ =~= v@);
    r
}

} // verus!
