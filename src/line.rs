//! The job dispatcher and the simulation driver: per-bucket queues of
//! pending work, the admission policy, the progress of items through the
//! process steps, and the tick that advances simulated time.
use vstd::prelude::*;
use crate::scheduling::{MachineState, ProductionSimulator, WaitingReason, first_with_id, is_finalized, is_swept, start_outcome};
use crate::staff::{Staff, sat_add};
use crate::time::{Event, EventType, SimulationTime, is_first_earliest, lemma_first_earliest_index};

verus! {

/// A unit of work waiting for a free machine in a bucket.
#[derive(Debug, Clone, Copy, PartialEq, Eq, Structural)]
pub struct PendingJob {
    pub duration: u32,
    pub step_index: usize,
    pub item_id: u32,
}

/// One step of the process sequence: the bucket that performs it and how
/// long it takes.
#[derive(Debug, Clone, Copy, PartialEq, Eq, Structural)]
pub struct ProcessStep {
    pub bucket_id: u32,
    pub process_id: Option<u32>,
    pub duration: u32,
}

/// A group of interchangeable machines and the queue of work for them.
#[derive(Debug, Clone)]
pub struct Bucket {
    pub id: u32,
    pub machine_ids: Vec<u32>,
    pub queue: Vec<PendingJob>,
}

/// A whole run: the engine, the buckets, the process sequence and the
/// progress of every item.
pub struct AssemblyLine {
    pub production: ProductionSimulator,
    pub buckets: Vec<Bucket>,
    pub steps: Vec<ProcessStep>,
    pub items: u32,
    /// The id the next started process gets.
    pub next_pid: u32,
    /// For each process id handed out, the step and item it runs, until it
    /// completes.
    pub process_meta: Vec<Option<(usize, u32)>>,
    pub finished_goods: u32,
    pub playing: bool,
}

/// Job `a` goes before job `b`: it is further along, or as far along with
/// a lower item number.
pub open spec fn goes_before(a: PendingJob, b: PendingJob) -> bool {
    a.step_index > b.step_index || (a.step_index == b.step_index && a.item_id < b.item_id)
}

/// Position `r` holds the job that the dispatcher takes next from `q`: no
/// job goes before it, and among jobs equal to it the last one is taken.
pub open spec fn is_next_job(q: Seq<PendingJob>, r: int) -> bool {
    &&& 0 <= r < q.len()
    &&& forall|j: int| 0 <= j < q.len() ==> !goes_before(#[trigger] q[j], q[r])
    &&& forall|j: int| r < j < q.len() ==> goes_before(q[r], #[trigger] q[j])
}

/// Machine `m` of `machines` is known and idle.
pub open spec fn idle_machine(machines: Seq<MachineState>, m: u32) -> bool {
    m < machines.len() && !machines[m as int].is_operating
}

/// Some machine of `ids` is known and idle.
pub open spec fn has_idle_machine(machines: Seq<MachineState>, ids: Seq<u32>) -> bool {
    exists|x: int| 0 <= x < ids.len() && idle_machine(machines, #[trigger] ids[x])
}

/// `job` was handed a process id in `[from, line.next_pid)`.
pub open spec fn started_since(line: AssemblyLine, from: u32, job: PendingJob) -> bool {
    exists|p: int| from <= p < line.next_pid
        && (#[trigger] line.process_meta@[p]) == Some((job.step_index, job.item_id))
}

/// From `before` to `after` the timeline kept its events, and what was added
/// lies at or after `now` and is at most `staff_len + 1` events per process
/// id handed out.
pub open spec fn events_added(before: AssemblyLine, after: AssemblyLine, now: u32) -> bool {
    let ev0 = before.production.simulator.pending();
    let ev1 = after.production.simulator.pending();
    &&& ev0.len() <= ev1.len()
    &&& ev1.subrange(0, ev0.len() as int) == ev0
    &&& forall|k: int| ev0.len() <= k < ev1.len() ==> (#[trigger] ev1[k]).time.0 >= now
    &&& ev1.len() + (before.production.staff@.len() + 1) * before.next_pid
        <= ev0.len() + (before.production.staff@.len() + 1) * after.next_pid
}

proof fn lemma_events_added_refl(a: AssemblyLine, now: u32)
    ensures
        events_added(a, a, now),
{
    let p = a.production.simulator.pending();
    assert(p.subrange(0, p.len() as int) =~= p);
}

proof fn lemma_events_added_same(a: AssemblyLine, b: AssemblyLine, now: u32)
    requires
        b.production.simulator.pending() == a.production.simulator.pending(),
        b.next_pid == a.next_pid,
    ensures
        events_added(a, b, now),
{
    lemma_events_added_refl(a, now);
}

proof fn lemma_events_added_trans(a: AssemblyLine, b: AssemblyLine, c: AssemblyLine, now: u32)
    requires
        events_added(a, b, now),
        events_added(b, c, now),
        b.production.staff@.len() == a.production.staff@.len(),
        a.next_pid <= b.next_pid,
    ensures
        events_added(a, c, now),
{
    let ev0 = a.production.simulator.pending();
    let ev1 = b.production.simulator.pending();
    let ev2 = c.production.simulator.pending();
    assert(ev2.subrange(0, ev0.len() as int) =~= ev0) by {
        assert forall|k: int| 0 <= k < ev0.len() implies ev2[k] == ev0[k] by {
            assert(ev2.subrange(0, ev1.len() as int)[k] == ev2[k]);
            assert(ev1.subrange(0, ev0.len() as int)[k] == ev1[k]);
        }
    }
    assert forall|k: int| ev0.len() <= k < ev2.len() implies (#[trigger] ev2[k]).time.0 >= now by {
        if k < ev1.len() {
            assert(ev2.subrange(0, ev1.len() as int)[k] == ev2[k]);
        }
    }
}

/// Bucket `b` is the first of `line` with id `bucket_id`.
pub open spec fn is_first_bucket(line: AssemblyLine, bucket_id: u32, b: int) -> bool {
    &&& 0 <= b < line.buckets@.len()
    &&& line.buckets@[b].id == bucket_id
    &&& forall|x: int| 0 <= x < b ==> (#[trigger] line.buckets@[x]).id != bucket_id
}

/// Position `k` of `ids` holds the first known idle machine of the list.
pub open spec fn first_idle(machines: Seq<MachineState>, ids: Seq<u32>, k: int) -> bool {
    &&& 0 <= k < ids.len()
    &&& idle_machine(machines, ids[k])
    &&& forall|x: int| 0 <= x < k ==> !idle_machine(machines, #[trigger] ids[x])
}

/// Nothing more can be dispatched from bucket `b`: its queue is empty, no
/// process id is left, or none of its machines is idle.
pub open spec fn dispatch_stops(line: AssemblyLine, b: int) -> bool {
    ||| line.buckets@[b].queue@.len() == 0
    ||| line.next_pid == u32::MAX
    ||| !has_idle_machine(line.production.machines@, line.buckets@[b].machine_ids@)
}

/// One dispatch round on bucket `b`, taking job `r` of its queue to machine
/// `k` of its list: the job leaves the queue, gets the next process id and
/// its record, and the engine tries to start it there at `now` for the
/// job's duration with result `ok`; a job that did not start goes back to
/// the end of the queue.
pub open spec fn round_with(before: AssemblyLine, after: AssemblyLine, b: int, now: u32, ok: bool, r: int, k: int) -> bool {
    let q = before.buckets@[b].queue@;
    let ids = before.buckets@[b].machine_ids@;
    let job = q[r];
    let pid = before.next_pid;
    &&& after.steps@ == before.steps@
    &&& after.items == before.items
    &&& after.finished_goods == before.finished_goods
    &&& after.playing == before.playing
    &&& after.next_pid == pid + 1
    &&& after.process_meta@ == before.process_meta@.push(Some((job.step_index, job.item_id)))
    &&& after.buckets@.len() == before.buckets@.len()
    &&& forall|x: int| 0 <= x < before.buckets@.len() && x != b ==> #[trigger] after.buckets@[x] == before.buckets@[x]
    &&& after.buckets@[b].id == before.buckets@[b].id
    &&& after.buckets@[b].machine_ids@ == ids
    &&& after.buckets@[b].queue@ == if ok { q.remove(r) } else { q.remove(r).push(job) }
    &&& start_outcome(before.production, after.production, ids[k], pid, job.duration, now, ok)
}

/// A dispatch round on bucket `b`: the next job by priority goes to the
/// first idle machine of the bucket.
pub open spec fn dispatch_round(before: AssemblyLine, after: AssemblyLine, b: int, now: u32, ok: bool) -> bool {
    exists|r: int, k: int|
        is_next_job(before.buckets@[b].queue@, r)
        && first_idle(before.production.machines@, before.buckets@[b].machine_ids@, k)
        && #[trigger] round_with(before, after, b, now, ok, r, k)
}

/// `after` is `before` after rounds on bucket `b` until dispatch stops or a
/// start fails (at most `fuel` rounds).
pub open spec fn dispatch_from(before: AssemblyLine, after: AssemblyLine, b: int, now: u32, fuel: nat) -> bool
    decreases fuel,
{
    if dispatch_stops(before, b) {
        after == before
    } else if fuel == 0 {
        false
    } else {
        ||| dispatch_round(before, after, b, now, false)
        ||| exists|mid: AssemblyLine| #[trigger] dispatch_round(before, mid, b, now, true)
            && dispatch_from(mid, after, b, now, (fuel - 1) as nat)
    }
}

/// `after` is `before` after `try_start_jobs(bucket_id, now)`: the first
/// bucket with that id is dispatched; without one nothing changes.
pub open spec fn jobs_dispatched(before: AssemblyLine, after: AssemblyLine, bucket_id: u32, now: u32) -> bool {
    if exists|b: int| is_first_bucket(before, bucket_id, b) {
        let b = choose|b: int| is_first_bucket(before, bucket_id, b);
        dispatch_from(before, after, b, now, before.buckets@[b].queue@.len())
    } else {
        after == before
    }
}

/// `after` is `before` after dispatching, in order, every bucket from
/// position `i` on.
pub open spec fn buckets_dispatched_from(before: AssemblyLine, after: AssemblyLine, i: int, now: u32) -> bool
    decreases before.buckets@.len() - i,
{
    if i < 0 || i >= before.buckets@.len() {
        after == before
    } else {
        exists|mid: AssemblyLine| #[trigger] jobs_dispatched(before, mid, before.buckets@[i].id, now)
            && mid.buckets@.len() == before.buckets@.len()
            && buckets_dispatched_from(mid, after, i + 1, now)
    }
}

/// `after` is `before` after every bucket is dispatched, in order.
pub open spec fn all_dispatched(before: AssemblyLine, after: AssemblyLine, now: u32) -> bool {
    buckets_dispatched_from(before, after, 0, now)
}

/// Every step finishes by `u32::MAX` when started at `now`.
pub open spec fn steps_fit_after(steps: Seq<ProcessStep>, now: u32) -> bool {
    forall|s: int| 0 <= s < steps.len() ==> now + (#[trigger] steps[s]).duration <= u32::MAX
}

impl AssemblyLine {
    /// Queued jobs carry the duration of their step, and every process id
    /// handed out has its slot in `process_meta`.
    pub open spec fn wf(&self) -> bool {
        &&& self.process_meta@.len() == self.next_pid
        &&& forall|b: int, j: int| 0 <= b < self.buckets@.len() && 0 <= j < self.buckets@[b].queue@.len() ==> {
            let job = #[trigger] self.buckets@[b].queue@[j];
            job.step_index < self.steps@.len() && job.duration == self.steps@[job.step_index as int].duration
        }
        &&& forall|p: int| 0 <= p < self.process_meta@.len() ==> (#[trigger] self.process_meta@[p] matches Some(m) ==> m.0 < self.steps@.len())
    }
}

/// The position of the job that the dispatcher takes next.
pub fn select_job(queue: &Vec<PendingJob>) -> (r: usize)
    requires
        queue@.len() > 0,
    ensures
        is_next_job(queue@, r as int),
{
    let mut best: usize = 0;
    let mut i: usize = 1;
    while i < queue.len()
        invariant
            1 <= i <= queue@.len(),
            best < i,
            forall|j: int| 0 <= j < i ==> !goes_before(#[trigger] queue@[j], queue@[best as int]),
            forall|j: int| best < j < i ==> goes_before(queue@[best as int], #[trigger] queue@[j]),
        decreases queue@.len() - i,
    {
        let a = queue[i];
        let b = queue[best];
        if !(b.step_index > a.step_index || (b.step_index == a.step_index && b.item_id < a.item_id)) {
            best = i;
        }
        i += 1;
    }
    best
}

/// The first machine of `machine_ids` that is known and idle.
pub fn find_idle_machine(machine_ids: &Vec<u32>, machines: &Vec<MachineState>) -> (r: Option<u32>)
    ensures
        r matches Some(m) ==> exists|k: int| 0 <= k < machine_ids@.len() && machine_ids@[k] == m
            && idle_machine(machines@, m)
            && forall|x: int| 0 <= x < k ==> !idle_machine(machines@, #[trigger] machine_ids@[x]),
        r is None ==> forall|x: int| 0 <= x < machine_ids@.len() ==> !idle_machine(machines@, #[trigger] machine_ids@[x]),
{
    let mut k: usize = 0;
    while k < machine_ids.len()
        invariant
            k <= machine_ids@.len(),
            forall|x: int| 0 <= x < k ==> !idle_machine(machines@, #[trigger] machine_ids@[x]),
        decreases machine_ids@.len() - k,
    {
        let m = machine_ids[k];
        if (m as usize) < machines.len() && !machines[m as usize].is_operating {
            return Some(m);
        }
        k += 1;
    }
    None
}

/// The position of the first bucket with id `bucket_id`.
pub fn find_bucket(buckets: &Vec<Bucket>, bucket_id: u32) -> (r: Option<usize>)
    ensures
        r matches Some(b) ==> b < buckets@.len() && buckets@[b as int].id == bucket_id
            && forall|x: int| 0 <= x < b ==> (#[trigger] buckets@[x]).id != bucket_id,
        r is None ==> forall|x: int| 0 <= x < buckets@.len() ==> (#[trigger] buckets@[x]).id != bucket_id,
{
    let mut b: usize = 0;
    while b < buckets.len()
        invariant
            b <= buckets@.len(),
            forall|x: int| 0 <= x < b ==> (#[trigger] buckets@[x]).id != bucket_id,
        decreases buckets@.len() - b,
    {
        if buckets[b].id == bucket_id {
            return Some(b);
        }
        b += 1;
    }
    None
}

/// Starts queued jobs of bucket `bucket_id` at `current_time` while the
/// bucket has an idle machine and queued work.
///
/// Each round takes the job that goes first (furthest along, then lowest
/// item number), the first idle machine of the bucket, and a fresh process
/// id, and asks the engine to start it. When the engine cannot (not enough
/// staff), the machine is marked as waiting for staff, the job goes back
/// into the queue, and the bucket is left for the next dispatch.
pub fn try_start_jobs(line: &mut AssemblyLine, bucket_id: u32, current_time: u32)
    requires
        old(line).wf(),
        steps_fit_after(old(line).steps@, current_time),
    ensures
        final(line).wf(),
        final(line).steps@ == old(line).steps@,
        final(line).items == old(line).items,
        final(line).finished_goods == old(line).finished_goods,
        final(line).playing == old(line).playing,
        final(line).next_pid >= old(line).next_pid,
        final(line).process_meta@.len() >= old(line).process_meta@.len(),
        final(line).process_meta@.subrange(0, old(line).process_meta@.len() as int) == old(line).process_meta@,
        jobs_dispatched(*old(line), *final(line), bucket_id, current_time),
        final(line).production.simulator.current_time == old(line).production.simulator.current_time,
        events_added(*old(line), *final(line), current_time),
        final(line).production.staff@.len() == old(line).production.staff@.len(),
        final(line).production.machines@.len() == old(line).production.machines@.len(),
        final(line).buckets@.len() == old(line).buckets@.len(),
        forall|b: int, j: int| 0 <= b < old(line).buckets@.len() && 0 <= j < old(line).buckets@[b].queue@.len()
            ==> final(line).buckets@[b].queue@.contains(#[trigger] old(line).buckets@[b].queue@[j])
                || started_since(*final(line), old(line).next_pid, old(line).buckets@[b].queue@[j]),
        (exists|b: int| 0 <= b < old(line).buckets@.len() && (#[trigger] old(line).buckets@[b]).id == bucket_id
            && (forall|x: int| 0 <= x < b ==> (#[trigger] old(line).buckets@[x]).id != bucket_id)
            && old(line).buckets@[b].queue@.len() > 0
            && has_idle_machine(old(line).production.machines@, old(line).buckets@[b].machine_ids@))
            && old(line).next_pid < u32::MAX ==> final(line).next_pid > old(line).next_pid,
        forall|b: int| 0 <= b < old(line).buckets@.len() ==> {
            &&& (#[trigger] final(line).buckets@[b]).id == old(line).buckets@[b].id
            &&& final(line).buckets@[b].machine_ids@ == old(line).buckets@[b].machine_ids@
            &&& old(line).buckets@[b].id != bucket_id ==> final(line).buckets@[b].queue@ == old(line).buckets@[b].queue@
            &&& final(line).buckets@[b].queue@.len() <= old(line).buckets@[b].queue@.len()
            &&& forall|j: int| 0 <= j < final(line).buckets@[b].queue@.len()
                ==> old(line).buckets@[b].queue@.contains(#[trigger] final(line).buckets@[b].queue@[j])
        },
        final(line).next_pid > old(line).next_pid ==> exists|b: int, r: int|
            0 <= b < old(line).buckets@.len() && old(line).buckets@[b].id == bucket_id
            && is_next_job(old(line).buckets@[b].queue@, r)
            && final(line).process_meta@[old(line).next_pid as int] == Some((
                #[trigger] old(line).buckets@[b].queue@[r].step_index,
                old(line).buckets@[b].queue@[r].item_id,
            )),
        (forall|b: int| 0 <= b < old(line).buckets@.len() && (#[trigger] old(line).buckets@[b]).id == bucket_id ==> {
            ||| old(line).buckets@[b].queue@.len() == 0
            ||| forall|x: int| 0 <= x < old(line).buckets@[b].machine_ids@.len()
                ==> !idle_machine(old(line).production.machines@, #[trigger] old(line).buckets@[b].machine_ids@[x])
        }) ==> *final(line) == *old(line),
{
    proof {
        assert(line.production.simulator.pending().subrange(0, line.production.simulator.pending().len() as int)
            =~= line.production.simulator.pending());
    }
    let b = match find_bucket(&line.buckets, bucket_id) {
        Some(b) => b,
        None => return,
    };
    proof {
        assert forall|c: int| 0 <= c < line.buckets@.len() && line.buckets@[c].id == bucket_id
            && (forall|x: int| 0 <= x < c ==> (#[trigger] line.buckets@[x]).id != bucket_id) implies c == b by {
            if c < b {
                assert(line.buckets@[c].id != bucket_id);
            } else if c > b {
                assert(line.buckets@[b as int].id != bucket_id);
            }
        }
    }
    proof {
        assert(is_first_bucket(*line, bucket_id, b as int));
    }
    if line.buckets[b].queue.len() == 0 {
        assert(dispatch_from(*line, *line, b as int, current_time, line.buckets@[b as int].queue@.len()));
        return;
    }
    if find_idle_machine(&line.buckets[b].machine_ids, &line.production.machines).is_none() {
        proof {
            assert(line.production.simulator.pending().subrange(0, line.production.simulator.pending().len() as int)
                =~= line.production.simulator.pending());
            assert(dispatch_from(*line, *line, b as int, current_time, line.buckets@[b as int].queue@.len()));
        }
        return;
    }
    let ghost q0 = line.buckets@[b as int].queue@;
    let ghost s1 = line.production.staff@.len() + 1;
    let ghost ev0 = line.production.simulator.pending();
    let ghost has_idle = has_idle_machine(line.production.machines@, line.buckets@[b as int].machine_ids@);
    let ghost first_pid = line.next_pid;
    let ghost buckets0 = line.buckets@;
    let ghost start = *line;
    loop
        invariant_except_break
            forall|a: AssemblyLine| #[trigger] dispatch_from(*line, a, b as int, current_time, line.buckets@[b as int].queue@.len())
                ==> dispatch_from(start, a, b as int, current_time, q0.len()),
        invariant
            start == *old(line),
            line.wf(),
            b < line.buckets@.len(),
            buckets0 == old(line).buckets@,
            buckets0[b as int].id == bucket_id,
            q0 == buckets0[b as int].queue@,
            q0.len() > 0,
            first_pid == old(line).next_pid,
            steps_fit_after(line.steps@, current_time),
            line.steps@ == old(line).steps@,
            line.items == old(line).items,
            line.finished_goods == old(line).finished_goods,
            line.playing == old(line).playing,
            line.next_pid >= old(line).next_pid,
            line.process_meta@.len() >= old(line).process_meta@.len(),
            line.process_meta@.subrange(0, old(line).process_meta@.len() as int) == old(line).process_meta@,
            line.production.simulator.current_time == old(line).production.simulator.current_time,
            line.production.staff@.len() == old(line).production.staff@.len(),
            line.production.machines@.len() == old(line).production.machines@.len(),
            line.buckets@.len() == buckets0.len(),
            forall|x: int| 0 <= x < buckets0.len() ==> {
                &&& (#[trigger] line.buckets@[x]).id == buckets0[x].id
                &&& line.buckets@[x].machine_ids@ == buckets0[x].machine_ids@
                &&& x != b ==> line.buckets@[x].queue@ == buckets0[x].queue@
            },
            line.buckets@[b as int].queue@.len() <= q0.len(),
            forall|j: int| 0 <= j < line.buckets@[b as int].queue@.len() ==> q0.contains(#[trigger] line.buckets@[b as int].queue@[j]),
            line.next_pid == first_pid ==> line.buckets@[b as int].queue@ == q0,
            line.next_pid == first_pid ==> line.production.machines@ == old(line).production.machines@,
            line.next_pid == first_pid ==> has_idle == has_idle_machine(line.production.machines@, line.buckets@[b as int].machine_ids@),
            has_idle,
            s1 == old(line).production.staff@.len() + 1,
            ev0 == old(line).production.simulator.pending(),
            events_added(*old(line), *line, current_time),
            forall|j: int| 0 <= j < q0.len() ==> line.buckets@[b as int].queue@.contains(#[trigger] q0[j])
                || started_since(*line, first_pid, q0[j]),
            line.next_pid > first_pid ==> exists|r: int| is_next_job(q0, r)
                && line.process_meta@[first_pid as int] == Some((#[trigger] q0[r].step_index, q0[r].item_id)),
        ensures
            line.next_pid > first_pid || first_pid == u32::MAX,
            dispatch_from(start, *line, b as int, current_time, q0.len()),
        decreases line.buckets@[b as int].queue@.len(),
    {
        if line.buckets[b].queue.len() == 0 || line.next_pid == u32::MAX {
            assert(dispatch_from(*line, *line, b as int, current_time, line.buckets@[b as int].queue@.len()));
            break;
        }
        let best_idx = select_job(&line.buckets[b].queue);
        let machine_id = match find_idle_machine(&line.buckets[b].machine_ids, &line.production.machines) {
            Some(m) => m,
            None => {
                assert(line.next_pid > first_pid);
                assert(dispatch_from(*line, *line, b as int, current_time, line.buckets@[b as int].queue@.len()));
                break;
            },
        };
        let ghost k = choose|k: int| 0 <= k < line.buckets@[b as int].machine_ids@.len()
            && line.buckets@[b as int].machine_ids@[k] == machine_id
            && idle_machine(line.production.machines@, machine_id)
            && forall|x: int| 0 <= x < k ==> !idle_machine(line.production.machines@, #[trigger] line.buckets@[b as int].machine_ids@[x]);
        let ghost qb = line.buckets@[b as int].queue@;
        let ghost before = *line;
        let job = line.buckets[b].queue.remove(best_idx);
        assert(qb.contains(job));
        let pid = line.next_pid;
        line.next_pid = line.next_pid + 1;
        let ghost meta_before = line.process_meta@;
        line.process_meta.push(Some((job.step_index, job.item_id)));
        proof {
            assert(line.process_meta@.subrange(0, old(line).process_meta@.len() as int)
                =~= meta_before.subrange(0, old(line).process_meta@.len() as int));
            assert(line.buckets@[b as int].queue@ =~= qb.remove(best_idx as int));
            assert forall|j: int| 0 <= j < line.buckets@[b as int].queue@.len()
                implies q0.contains(#[trigger] line.buckets@[b as int].queue@[j]) by {
                if j < best_idx {
                    assert(line.buckets@[b as int].queue@[j] == qb[j]);
                } else {
                    assert(line.buckets@[b as int].queue@[j] == qb[j + 1]);
                }
                assert(qb.contains(line.buckets@[b as int].queue@[j]));
            }
            if pid == first_pid {
                assert(line.process_meta@[first_pid as int] == Some((q0[best_idx as int].step_index, q0[best_idx as int].item_id)));
            }
            assert(job.step_index < line.steps@.len());
        }
        let ghost mid = *line;
        let started = line.production.try_start_process(machine_id, pid, job.duration, current_time);
        proof {
            let s0 = old(line).production.staff@.len() + 1;
            let n0 = mid.production.simulator.pending().len();
            let n1 = line.production.simulator.pending().len();
            assert(n1 <= n0 + s0);
            assert(s0 * (pid + 1) == s0 * pid + s0) by (nonlinear_arith);
            assert(line.production.simulator.pending().subrange(0, ev0.len() as int) =~= ev0) by {
                assert forall|k: int| 0 <= k < ev0.len() implies line.production.simulator.pending()[k] == ev0[k] by {
                    assert(line.production.simulator.pending().subrange(0, n0 as int)[k] == line.production.simulator.pending()[k]);
                    assert(mid.production.simulator.pending().subrange(0, ev0.len() as int)[k] == mid.production.simulator.pending()[k]);
                }
            }
            assert forall|k: int| ev0.len() <= k < n1 implies (#[trigger] line.production.simulator.pending()[k]).time.0 >= current_time by {
                if k < n0 {
                    assert(line.production.simulator.pending().subrange(0, n0 as int)[k] == line.production.simulator.pending()[k]);
                    assert(mid.production.simulator.pending()[k].time.0 >= current_time);
                }
            }
            assert(line.process_meta@[pid as int] == Some((job.step_index, job.item_id)));
            assert forall|j: int| 0 <= j < q0.len() implies line.buckets@[b as int].queue@.contains(#[trigger] q0[j])
                || started_since(*line, first_pid, q0[j]) by {
                if !line.buckets@[b as int].queue@.contains(q0[j]) {
                    if qb.contains(q0[j]) {
                        let y = choose|y: int| 0 <= y < qb.len() && qb[y] == q0[j];
                        if y < best_idx {
                            assert(line.buckets@[b as int].queue@[y] == qb[y]);
                        } else if y > best_idx {
                            assert(line.buckets@[b as int].queue@[y - 1] == qb[y]);
                        } else {
                            assert(line.process_meta@[pid as int] == Some((q0[j].step_index, q0[j].item_id)));
                        }
                    } else {
                        let p = choose|p: int| first_pid <= p < before.next_pid
                            && (#[trigger] before.process_meta@[p]) == Some((q0[j].step_index, q0[j].item_id));
                        assert(line.process_meta@[p] == before.process_meta@[p]);
                    }
                }
            }
        }
        let ghost after_start = *line;
        if started {
            line.production.machines[machine_id as usize].waiting_for = None;
            proof {
                assert(line.production.machines@ =~= after_start.production.machines@);
                assert(round_with(before, *line, b as int, current_time, true, best_idx as int, k));
                assert(dispatch_round(before, *line, b as int, current_time, true));
                assert forall|a: AssemblyLine| #[trigger] dispatch_from(*line, a, b as int, current_time, line.buckets@[b as int].queue@.len())
                    implies dispatch_from(start, a, b as int, current_time, q0.len()) by {
                    assert(dispatch_from(before, a, b as int, current_time, qb.len()));
                }
            }
        } else {
            line.production.machines[machine_id as usize].waiting_for = Some(WaitingReason::Staff);
            let ghost qr = line.buckets@[b as int].queue@;
            line.buckets[b].queue.push(job);
            proof {
                assert(line.production.machines@ =~= after_start.production.machines@);
                assert(line.buckets@[b as int].queue@ =~= qb.remove(best_idx as int).push(job));
                assert(round_with(before, *line, b as int, current_time, false, best_idx as int, k));
                assert(dispatch_round(before, *line, b as int, current_time, false));
                assert(dispatch_from(before, *line, b as int, current_time, qb.len()));
                assert forall|j: int| 0 <= j < line.buckets@[b as int].queue@.len()
                    implies q0.contains(#[trigger] line.buckets@[b as int].queue@[j]) by {
                    if j < line.buckets@[b as int].queue@.len() - 1 {
                        assert(line.buckets@[b as int].queue@[j] == qb.remove(best_idx as int)[j]);
                    }
                }
                assert forall|j: int| 0 <= j < q0.len() implies line.buckets@[b as int].queue@.contains(#[trigger] q0[j])
                    || started_since(*line, first_pid, q0[j]) by {
                    if qr.contains(q0[j]) {
                        let y = choose|y: int| 0 <= y < qr.len() && qr[y] == q0[j];
                        assert(line.buckets@[b as int].queue@[y] == qr[y]);
                    }
                }
            }
            break;
        }
    }
    proof {
        assert(is_first_bucket(*old(line), bucket_id, b as int));
    }
}

/// Dispatches every bucket, in order, at `current_time`.
fn dispatch_all(line: &mut AssemblyLine, current_time: u32)
    requires
        old(line).wf(),
        steps_fit_after(old(line).steps@, current_time),
    ensures
        final(line).wf(),
        final(line).steps@ == old(line).steps@,
        final(line).items == old(line).items,
        final(line).finished_goods == old(line).finished_goods,
        final(line).playing == old(line).playing,
        final(line).process_meta@.len() >= old(line).process_meta@.len(),
        final(line).process_meta@.subrange(0, old(line).process_meta@.len() as int) == old(line).process_meta@,
        final(line).production.simulator.current_time == old(line).production.simulator.current_time,
        events_added(*old(line), *final(line), current_time),
        final(line).next_pid >= old(line).next_pid,
        final(line).production.staff@.len() == old(line).production.staff@.len(),
        final(line).production.machines@.len() == old(line).production.machines@.len(),
        final(line).buckets@.len() == old(line).buckets@.len(),
        all_dispatched(*old(line), *final(line), current_time),
{
    proof {
        lemma_events_added_refl(*line, current_time);
    }
    let mut b: usize = 0;
    while b < line.buckets.len()
        invariant
            b <= line.buckets@.len(),
            forall|a: AssemblyLine| #[trigger] buckets_dispatched_from(*line, a, b as int, current_time)
                ==> buckets_dispatched_from(*old(line), a, 0, current_time),
            line.wf(),
            steps_fit_after(line.steps@, current_time),
            line.steps@ == old(line).steps@,
            line.items == old(line).items,
            line.finished_goods == old(line).finished_goods,
            line.playing == old(line).playing,
            line.process_meta@.subrange(0, old(line).process_meta@.len() as int) == old(line).process_meta@,
            line.process_meta@.len() >= old(line).process_meta@.len(),
            line.production.simulator.current_time == old(line).production.simulator.current_time,
            line.production.staff@.len() == old(line).production.staff@.len(),
            line.production.machines@.len() == old(line).production.machines@.len(),
            line.buckets@.len() == old(line).buckets@.len(),
            events_added(*old(line), *line, current_time),
            line.next_pid >= old(line).next_pid,
        decreases line.buckets@.len() - b,
    {
        let id = line.buckets[b].id;
        let ghost meta0 = line.process_meta@;
        let ghost mid = *line;
        try_start_jobs(line, id, current_time);
        proof {
            assert forall|a: AssemblyLine| #[trigger] buckets_dispatched_from(*line, a, b + 1, current_time)
                implies buckets_dispatched_from(*old(line), a, 0, current_time) by {
                assert(buckets_dispatched_from(mid, a, b as int, current_time));
            }
            lemma_events_added_trans(*old(line), mid, *line, current_time);
            assert(line.process_meta@.subrange(0, old(line).process_meta@.len() as int)
                =~= meta0.subrange(0, old(line).process_meta@.len() as int));
        }
        b += 1;
    }
    assert(buckets_dispatched_from(*line, *line, b as int, current_time));
}

/// The staff after the first staff member with id `id` is released at `now`.
pub open spec fn released_by_id(staff: Seq<Staff>, id: u32, now: u32) -> Seq<Staff> {
    Seq::new(staff.len(), |i: int|
        if staff[i].id == id && first_with_id(staff, i) { staff[i].spec_released(now) } else { staff[i] })
}

/// Releases, at `now`, the first staff member with id `id`, if any.
fn release_by_id(staff: &mut Vec<Staff>, id: u32, now: u32)
    ensures
        final(staff)@ == released_by_id(old(staff)@, id, now),
{
    let mut i: usize = 0;
    while i < staff.len()
        invariant
            i <= staff@.len(),
            staff@ == old(staff)@,
            forall|k: int| 0 <= k < i ==> (#[trigger] staff@[k]).id != id,
        decreases staff@.len() - i,
    {
        if staff[i].id == id {
            staff[i].release_from_machine(now);
            assert(staff@ =~= released_by_id(old(staff)@, id, now));
            return;
        }
        i += 1;
    }
    assert(staff@ =~= released_by_id(old(staff)@, id, now));
}

/// The staff after releasing at `now`, in order, the first staff member
/// with each id of `ids`.
pub open spec fn released_all(staff: Seq<Staff>, ids: Seq<u32>, now: u32) -> Seq<Staff>
    decreases ids.len(),
{
    if ids.len() == 0 {
        staff
    } else {
        released_by_id(released_all(staff, ids.drop_last(), now), ids.last(), now)
    }
}

/// `ids` without the entries equal to `x`, order kept.
pub open spec fn without(ids: Seq<u32>, x: u32) -> Seq<u32>
    decreases ids.len(),
{
    if ids.len() == 0 {
        ids
    } else if ids.last() == x {
        without(ids.drop_last(), x)
    } else {
        without(ids.drop_last(), x).push(ids.last())
    }
}

/// Everything but the engine's staff and machines is the same.
pub open spec fn same_outside_engine(a: AssemblyLine, b: AssemblyLine) -> bool {
    &&& b.production.simulator.current_time == a.production.simulator.current_time
    &&& b.production.simulator.pending() == a.production.simulator.pending()
    &&& b.buckets@ == a.buckets@
    &&& b.steps@ == a.steps@
    &&& b.process_meta@ == a.process_meta@
    &&& b.next_pid == a.next_pid
    &&& b.items == a.items
    &&& b.finished_goods == a.finished_goods
    &&& b.playing == a.playing
}

/// Nothing changes.
pub open spec fn same_line(a: AssemblyLine, b: AssemblyLine) -> bool {
    &&& same_outside_engine(a, b)
    &&& b.production.staff@ == a.production.staff@
    &&& b.production.machines@ == a.production.machines@
}

/// Everything but the buckets is the same.
pub open spec fn same_but_buckets(a: AssemblyLine, b: AssemblyLine) -> bool {
    &&& b.production.simulator.current_time == a.production.simulator.current_time
    &&& b.production.simulator.pending() == a.production.simulator.pending()
    &&& b.production.staff@ == a.production.staff@
    &&& b.production.machines@ == a.production.machines@
    &&& b.steps@ == a.steps@
    &&& b.process_meta@ == a.process_meta@
    &&& b.next_pid == a.next_pid
    &&& b.items == a.items
    &&& b.finished_goods == a.finished_goods
    &&& b.playing == a.playing
}

/// Machine `m` changes only in the fields listed, to the values given.
pub open spec fn machine_now(before: MachineState, after: MachineState, operating: bool,
    staff: Seq<u32>, waiting: Option<WaitingReason>) -> bool {
    &&& after.machine == before.machine
    &&& after.is_operating == operating
    &&& after.assigned_staff@ == staff
    &&& after.waiting_for == waiting
    &&& after.idle_time == before.idle_time
    &&& after.last_status_change == before.last_status_change
}

/// Only machine `m` of `before` changes, as `machine_now` says.
pub open spec fn only_machine_changes(before: Seq<MachineState>, after: Seq<MachineState>, m: int) -> bool {
    &&& after.len() == before.len()
    &&& forall|j: int| 0 <= j < before.len() && j != m ==> #[trigger] after[j] == before[j]
}

/// The first half of a `ProcessComplete` on machine `m` at `now`: the
/// machine's staff are released in its list's order, and the machine stops,
/// lists no staff and waits for its next process.
pub open spec fn completion_cleared(before: AssemblyLine, after: AssemblyLine, m: u32, now: u32) -> bool {
    if m < before.production.machines@.len() {
        let mb = before.production.machines@[m as int];
        &&& same_outside_engine(before, after)
        &&& after.production.staff@ == released_all(before.production.staff@, mb.assigned_staff@, now)
        &&& only_machine_changes(before.production.machines@, after.production.machines@, m as int)
        &&& machine_now(mb, after.production.machines@[m as int], false, Seq::empty(), Some(WaitingReason::NextProcess))
    } else {
        same_line(before, after)
    }
}

/// Process `pid`'s record is dropped; nothing else changes.
pub open spec fn meta_cleared(before: AssemblyLine, after: AssemblyLine, pid: u32) -> bool {
    &&& pid < before.process_meta@.len()
    &&& after.process_meta@ == before.process_meta@.update(pid as int, None)
    &&& after.production.simulator.current_time == before.production.simulator.current_time
    &&& after.production.simulator.pending() == before.production.simulator.pending()
    &&& after.production.staff@ == before.production.staff@
    &&& after.production.machines@ == before.production.machines@
    &&& after.buckets@ == before.buckets@
    &&& after.steps@ == before.steps@
    &&& after.next_pid == before.next_pid
    &&& after.items == before.items
    &&& after.finished_goods == before.finished_goods
    &&& after.playing == before.playing
}

/// `job` joins the queue of the first bucket with id `bucket_id`, or of a
/// new, machineless bucket with that id when there is none.
pub open spec fn job_pushed(before: AssemblyLine, after: AssemblyLine, bucket_id: u32, job: PendingJob) -> bool {
    &&& same_but_buckets(before, after)
    &&& if exists|b: int| is_first_bucket(before, bucket_id, b) {
        let b = choose|b: int| is_first_bucket(before, bucket_id, b);
        &&& after.buckets@.len() == before.buckets@.len()
        &&& forall|x: int| 0 <= x < before.buckets@.len() && x != b ==> #[trigger] after.buckets@[x] == before.buckets@[x]
        &&& after.buckets@[b].id == bucket_id
        &&& after.buckets@[b].machine_ids@ == before.buckets@[b].machine_ids@
        &&& after.buckets@[b].queue@ == before.buckets@[b].queue@.push(job)
    } else {
        &&& after.buckets@.len() == before.buckets@.len() + 1
        &&& forall|x: int| 0 <= x < before.buckets@.len() ==> #[trigger] after.buckets@[x] == before.buckets@[x]
        &&& after.buckets@.last().id == bucket_id
        &&& after.buckets@.last().machine_ids@.len() == 0
        &&& after.buckets@.last().queue@ == seq![job]
    }
}

/// The finished-goods count goes up by one (saturating); nothing else changes.
pub open spec fn item_finished(before: AssemblyLine, after: AssemblyLine) -> bool {
    &&& after.production.simulator.current_time == before.production.simulator.current_time
    &&& after.production.simulator.pending() == before.production.simulator.pending()
    &&& after.production.staff@ == before.production.staff@
    &&& after.production.machines@ == before.production.machines@
    &&& after.buckets@ == before.buckets@
    &&& after.steps@ == before.steps@
    &&& after.process_meta@ == before.process_meta@
    &&& after.next_pid == before.next_pid
    &&& after.items == before.items
    &&& after.playing == before.playing
    &&& after.finished_goods == sat_add(before.finished_goods, 1)
}

/// The second half of a `ProcessComplete` of process `pid` at `now`: its
/// record is dropped, and its item either joins the queue of its next
/// step's bucket, which is then dispatched, or, after its last step,
/// counts as finished, after which every bucket is dispatched.
pub open spec fn completion_routed(before: AssemblyLine, after: AssemblyLine, pid: u32, now: u32) -> bool {
    if pid >= before.process_meta@.len() {
        same_line(before, after)
    } else {
        match before.process_meta@[pid as int] {
            None => meta_cleared(before, after, pid),
            Some(m) => if m.0 + 1 < before.steps@.len() {
                let next = before.steps@[m.0 + 1];
                let job = PendingJob { duration: next.duration, step_index: (m.0 + 1) as usize, item_id: m.1 };
                exists|s1: AssemblyLine| #[trigger] meta_cleared(before, s1, pid)
                    && exists|s2: AssemblyLine| #[trigger] job_pushed(s1, s2, next.bucket_id, job)
                    && jobs_dispatched(s2, after, next.bucket_id, now)
            } else {
                exists|s1: AssemblyLine| #[trigger] meta_cleared(before, s1, pid)
                    && exists|s2: AssemblyLine| #[trigger] item_finished(s1, s2)
                    && all_dispatched(s2, after, now)
            },
        }
    }
}

/// The first half of a `StaffReleased` of staff `sid` from machine `m`: the
/// staff member is released at `clock`; the machine drops them from its
/// list and, with no staff left, stops and waits for its next process.
pub open spec fn release_applied(before: AssemblyLine, after: AssemblyLine, sid: u32, m: u32, clock: u32) -> bool {
    &&& same_outside_engine(before, after)
    &&& after.production.staff@ == released_by_id(before.production.staff@, sid, clock)
    &&& if m < before.production.machines@.len() {
        let mb = before.production.machines@[m as int];
        let kept = without(mb.assigned_staff@, sid);
        &&& only_machine_changes(before.production.machines@, after.production.machines@, m as int)
        &&& if kept.len() == 0 {
            machine_now(mb, after.production.machines@[m as int], false, kept, Some(WaitingReason::NextProcess))
        } else {
            machine_now(mb, after.production.machines@[m as int], mb.is_operating, kept, mb.waiting_for)
        }
    } else {
        after.production.machines@ == before.production.machines@
    }
}

/// What `handle_event(event)` does: `before` becomes `after`.
pub open spec fn event_handled(before: AssemblyLine, after: AssemblyLine, event: Event) -> bool {
    let now = event.time.0;
    match event.event_type {
        EventType::ProcessComplete { machine_id, process_id } =>
            exists|s1: AssemblyLine| #[trigger] completion_cleared(before, s1, machine_id, now)
                && completion_routed(s1, after, process_id, now),
        EventType::StaffReleased { staff_id, machine_id } =>
            release_applied(before, after, staff_id, machine_id, before.production.simulator.current_time.0),
        _ => after == before,
    }
}

/// Process `pid` runs a step of its item that has a next step.
pub open spec fn moves_on(line: AssemblyLine, pid: u32) -> bool {
    &&& pid < line.process_meta@.len()
    &&& line.process_meta@[pid as int] matches Some(m)
    &&& m.0 + 1 < line.steps@.len()
}

/// `job` waits in a bucket with id `bucket_id`, or was started since `from`.
pub open spec fn queued_or_started(line: AssemblyLine, from: u32, bucket_id: u32, job: PendingJob) -> bool {
    ||| exists|b: int| 0 <= b < line.buckets@.len() && line.buckets@[b].id == bucket_id
        && (#[trigger] line.buckets@[b].queue@).contains(job)
    ||| started_since(line, from, job)
}

/// Process `pid` runs the last step of its item.
pub open spec fn completes_item(line: AssemblyLine, pid: u32) -> bool {
    &&& pid < line.process_meta@.len()
    &&& line.process_meta@[pid as int] matches Some(m)
    &&& m.0 + 1 >= line.steps@.len()
}

/// Handles one event taken from the timeline.
///
/// `ProcessComplete`: the machine's staff are released, the machine stops
/// and waits for its next process; the item then moves on: into the queue
/// of its next step's bucket, which is dispatched, or, after its last step,
/// into the finished goods (a count that saturates), after which every
/// bucket is dispatched. `StaffReleased`: the staff member is released and
/// the machine drops them, stopping when no staff remain; no dispatch
/// follows, since the machine's own `ProcessComplete`, due at the same time,
/// comes next and frees it for new work. Other events change nothing.
pub fn handle_event(line: &mut AssemblyLine, event: Event)
    requires
        old(line).wf(),
        steps_fit_after(old(line).steps@, event.time.0),
    ensures
        event_handled(*old(line), *final(line), event),
        final(line).wf(),
        final(line).steps@ == old(line).steps@,
        final(line).items == old(line).items,
        final(line).playing == old(line).playing,
        final(line).production.simulator.current_time == old(line).production.simulator.current_time,
        events_added(*old(line), *final(line), event.time.0),
        final(line).next_pid >= old(line).next_pid,
        final(line).production.staff@.len() == old(line).production.staff@.len(),
        final(line).production.machines@.len() == old(line).production.machines@.len(),
        match event.event_type {
            EventType::ProcessComplete { machine_id, process_id } => {
                &&& final(line).finished_goods == if completes_item(*old(line), process_id) {
                    sat_add(old(line).finished_goods, 1)
                } else {
                    old(line).finished_goods
                }
                &&& final(line).process_meta@.len() >= old(line).process_meta@.len()
                &&& final(line).process_meta@.subrange(0, old(line).process_meta@.len() as int) == if process_id
                    < old(line).process_meta@.len() {
                    old(line).process_meta@.update(process_id as int, None)
                } else {
                    old(line).process_meta@
                }
                &&& moves_on(*old(line), process_id) ==> ({
                    let m = old(line).process_meta@[process_id as int]->Some_0;
                    let next = old(line).steps@[m.0 + 1];
                    queued_or_started(*final(line), old(line).next_pid, next.bucket_id,
                        PendingJob { duration: next.duration, step_index: (m.0 + 1) as usize, item_id: m.1 })
                })
            },
            EventType::StaffReleased { .. } => {
                &&& final(line).finished_goods == old(line).finished_goods
                &&& final(line).process_meta@.len() >= old(line).process_meta@.len()
                &&& final(line).process_meta@.subrange(0, old(line).process_meta@.len() as int) == old(line).process_meta@
            },
            _ => *final(line) == *old(line),
        },
{
    let now = event.time.0;
    let ghost start = *line;
    proof {
        lemma_events_added_refl(start, now);
    }
    match event.event_type {
        EventType::ProcessComplete { machine_id, process_id } => {
            let mi = machine_id as usize;
            let ghost s0 = *line;
            if mi < line.production.machines.len() {
                let mut k: usize = 0;
                let n = line.production.machines[mi].assigned_staff.len();
                let ghost ids = s0.production.machines@[mi as int].assigned_staff@;
                while k < n
                    invariant
                        s0 == *old(line),
                        ids == s0.production.machines@[mi as int].assigned_staff@,
                        k <= n,
                        line.production.staff@ == released_all(s0.production.staff@, ids.subrange(0, k as int), now),
                        mi < line.production.machines@.len(),
                        n == line.production.machines@[mi as int].assigned_staff@.len(),
                        line.production.machines@ == old(line).production.machines@,
                        line.production.staff@.len() == old(line).production.staff@.len(),
                        line.production.simulator == old(line).production.simulator,
                        line.buckets@ == old(line).buckets@,
                        line.steps@ == old(line).steps@,
                        line.process_meta@ == old(line).process_meta@,
                        line.next_pid == old(line).next_pid,
                        line.items == old(line).items,
                        line.finished_goods == old(line).finished_goods,
                        line.playing == old(line).playing,
                    decreases n - k,
                {
                    let id = line.production.machines[mi].assigned_staff[k];
                    release_by_id(&mut line.production.staff, id, now);
                    proof {
                        let t = ids.subrange(0, k as int + 1);
                        assert(t.drop_last() =~= ids.subrange(0, k as int));
                    }
                    k += 1;
                }
                proof {
                    assert(ids.subrange(0, n as int) =~= ids);
                }
                line.production.machines[mi].is_operating = false;
                line.production.machines[mi].assigned_staff.clear();
                line.production.machines[mi].waiting_for = Some(WaitingReason::NextProcess);
            }
            let ghost s1 = *line;
            assert(completion_cleared(s0, s1, machine_id, now));
            let p = process_id as usize;
            if p < line.process_meta.len() {
                let meta = line.process_meta[p];
                assert(meta matches Some(m) ==> m.0 < line.steps@.len()) by {
                    assert(line.process_meta@[p as int] == meta);
                }
                line.process_meta.set(p, None);
                let ghost s1m = *line;
                assert(meta_cleared(s1, s1m, process_id));
                match meta {
                    Some((step_idx, item_id)) => {
                        let n = line.steps.len();
                        if step_idx < n && n - step_idx > 1 {
                            let next_step = step_idx + 1;
                            let step = line.steps[next_step];
                            let job = PendingJob { duration: step.duration, step_index: next_step, item_id };
                            let ghost mut wb: int = 0;
                            match find_bucket(&line.buckets, step.bucket_id) {
                                Some(b) => {
                                    proof {
                                        assert forall|c: int| is_first_bucket(s1m, step.bucket_id, c) implies c == b as int by {
                                            if c < b {
                                                assert(line.buckets@[c].id != step.bucket_id);
                                            } else if c > b {
                                                assert(line.buckets@[b as int].id != step.bucket_id);
                                            }
                                        }
                                        assert(is_first_bucket(s1m, step.bucket_id, b as int));
                                    }
                                    line.buckets[b].queue.push(job);
                                    proof {
                                        wb = b as int;
                                    }
                                },
                                None => {
                                    let mut queue: Vec<PendingJob> = Vec::new();
                                    queue.push(job);
                                    line.buckets.push(Bucket { id: step.bucket_id, machine_ids: Vec::new(), queue });
                                    proof {
                                        wb = line.buckets@.len() - 1;
                                    }
                                },
                            }
                            assert(line.wf());
                            let ghost mid = *line;
                            proof {
                                assert(job_pushed(s1m, mid, step.bucket_id, job));
                                lemma_events_added_same(start, mid, now);
                                assert(mid.buckets@[wb].queue@.last() == job);
                            }
                            try_start_jobs(line, step.bucket_id, now);
                            proof {
                                assert(completion_routed(s1, *line, process_id, now));
                                lemma_events_added_trans(start, mid, *line, now);
                                assert(line.process_meta@[process_id as int] == line.process_meta@.subrange(0, old(line).process_meta@.len() as int)[process_id as int]);
                                let jx = mid.buckets@[wb].queue@.len() - 1;
                                assert(mid.buckets@[wb].queue@[jx] == job);
                                if line.buckets@[wb].queue@.contains(job) {
                                    assert(line.buckets@[wb].id == step.bucket_id);
                                }
                            }
                        } else {
                            line.finished_goods = line.finished_goods.saturating_add(1);
                            let ghost meta1 = line.process_meta@;
                            let ghost mid = *line;
                            proof {
                                lemma_events_added_same(start, mid, now);
                            }
                            dispatch_all(line, now);
                            proof {
                                assert(item_finished(s1m, mid));
                                assert(completion_routed(s1, *line, process_id, now));
                                lemma_events_added_trans(start, mid, *line, now);
                                assert(line.process_meta@[process_id as int] == line.process_meta@.subrange(0, meta1.len() as int)[process_id as int]);
                            }
                        }
                    },
                    None => {},
                }
            }
            assert(completion_routed(s1, *line, process_id, now));
            assert(event_handled(s0, *line, event));
        },
        EventType::StaffReleased { staff_id, machine_id } => {
            let ghost s0 = *line;
            let clock = line.production.simulator.elapsed_time();
            release_by_id(&mut line.production.staff, staff_id, clock);
            let mi = machine_id as usize;
            if mi < line.production.machines.len() {
                let ids = &line.production.machines[mi].assigned_staff;
                let mut kept: Vec<u32> = Vec::new();
                let mut k: usize = 0;
                while k < ids.len()
                    invariant
                        k <= ids@.len(),
                        kept@ == without(ids@.subrange(0, k as int), staff_id),
                    decreases ids@.len() - k,
                {
                    proof {
                        let t = ids@.subrange(0, k as int + 1);
                        assert(t.drop_last() =~= ids@.subrange(0, k as int));
                    }
                    if ids[k] != staff_id {
                        kept.push(ids[k]);
                    }
                    k += 1;
                }
                proof {
                    assert(ids@.subrange(0, k as int) =~= ids@);
                }
                let empty = kept.len() == 0;
                line.production.machines[mi].assigned_staff = kept;
                if empty {
                    line.production.machines[mi].is_operating = false;
                    line.production.machines[mi].waiting_for = Some(WaitingReason::NextProcess);
                }
                let ghost s1 = *line;
                assert(release_applied(s0, s1, staff_id, machine_id, s0.production.simulator.current_time.0));
                proof {
                    lemma_events_added_same(start, *line, now);
                }
                assert(event_handled(s0, *line, event));
            } else {
                assert(release_applied(s0, *line, staff_id, machine_id, s0.production.simulator.current_time.0));
                assert(event_handled(s0, *line, event));
            }
        },
        _ => {},
    }
}

/// Releases staff whose assignment is over or whose machine is unknown,
/// stopped, or no longer lists them, and empties the staff lists of
/// stopped machines, all at `current_time`; idle time is left alone.
pub fn rebalance(line: &mut AssemblyLine, current_time: u32)
    ensures
        rebalanced(*old(line), *final(line), current_time),
        is_swept(old(line).production, final(line).production, current_time, false),
        final(line).buckets@ == old(line).buckets@,
        final(line).steps@ == old(line).steps@,
        final(line).process_meta@ == old(line).process_meta@,
        final(line).next_pid == old(line).next_pid,
        final(line).items == old(line).items,
        final(line).finished_goods == old(line).finished_goods,
        final(line).playing == old(line).playing,
{
    line.production.sweep(current_time, false);
}

/// The run is over: every item is finished, or nothing is queued, running,
/// or held.
pub open spec fn spec_complete(line: AssemblyLine) -> bool {
    line.finished_goods >= line.items || quiescent(line)
}

/// Nothing is queued, no machine runs or holds staff, and all staff are
/// available.
pub open spec fn quiescent(line: AssemblyLine) -> bool {
        &&& forall|b: int| 0 <= b < line.buckets@.len() ==> (#[trigger] line.buckets@[b]).queue@.len() == 0
        &&& forall|j: int| 0 <= j < line.production.machines@.len() ==> {
            &&& !(#[trigger] line.production.machines@[j]).is_operating
            &&& line.production.machines@[j].assigned_staff@.len() == 0
        }
        &&& forall|i: int| 0 <= i < line.production.staff@.len() ==> (#[trigger] line.production.staff@[i]).is_available
}

pub fn sim_complete(line: &AssemblyLine) -> (r: bool)
    ensures
        r == spec_complete(*line),
{
    if line.finished_goods >= line.items {
        return true;
    }
    let mut b: usize = 0;
    while b < line.buckets.len()
        invariant
            b <= line.buckets@.len(),
            line.finished_goods < line.items,
            forall|x: int| 0 <= x < b ==> (#[trigger] line.buckets@[x]).queue@.len() == 0,
        decreases line.buckets@.len() - b,
    {
        if line.buckets[b].queue.len() > 0 {
            assert(line.buckets@[b as int].queue@.len() > 0);
            return false;
        }
        b += 1;
    }
    let mut j: usize = 0;
    while j < line.production.machines.len()
        invariant
            j <= line.production.machines@.len(),
            line.finished_goods < line.items,
            forall|x: int| 0 <= x < line.buckets@.len() ==> (#[trigger] line.buckets@[x]).queue@.len() == 0,
            forall|x: int| 0 <= x < j ==> {
                &&& !(#[trigger] line.production.machines@[x]).is_operating
                &&& line.production.machines@[x].assigned_staff@.len() == 0
            },
        decreases line.production.machines@.len() - j,
    {
        if line.production.machines[j].is_operating || line.production.machines[j].assigned_staff.len() > 0 {
            assert(line.production.machines@[j as int].is_operating
                || line.production.machines@[j as int].assigned_staff@.len() > 0);
            return false;
        }
        j += 1;
    }
    let mut i: usize = 0;
    while i < line.production.staff.len()
        invariant
            i <= line.production.staff@.len(),
            line.finished_goods < line.items,
            forall|x: int| 0 <= x < line.buckets@.len() ==> (#[trigger] line.buckets@[x]).queue@.len() == 0,
            forall|x: int| 0 <= x < line.production.machines@.len() ==> {
                &&& !(#[trigger] line.production.machines@[x]).is_operating
                &&& line.production.machines@[x].assigned_staff@.len() == 0
            },
            forall|x: int| 0 <= x < i ==> (#[trigger] line.production.staff@[x]).is_available,
        decreases line.production.staff@.len() - i,
    {
        if !line.production.staff[i].is_available {
            assert(!line.production.staff@[i as int].is_available);
            return false;
        }
        i += 1;
    }
    true
}

/// `after` is `before` after `rebalance` at `now`.
pub open spec fn rebalanced(before: AssemblyLine, after: AssemblyLine, now: u32) -> bool {
    &&& is_swept(before.production, after.production, now, false)
    &&& after.buckets@ == before.buckets@
    &&& after.steps@ == before.steps@
    &&& after.process_meta@ == before.process_meta@
    &&& after.next_pid == before.next_pid
    &&& after.items == before.items
    &&& after.finished_goods == before.finished_goods
    &&& after.playing == before.playing
}

/// The event that leaves the timeline `q` next.
pub open spec fn next_of(q: Seq<Event>) -> Event {
    q[choose|i: int| is_first_earliest(q, i)]
}

/// `after` is `before` with its next event taken off the timeline and the
/// clock moved to that event's time.
pub open spec fn event_taken(before: AssemblyLine, after: AssemblyLine) -> bool {
    let q = before.production.simulator.pending();
    let i = choose|i: int| is_first_earliest(q, i);
    &&& q.len() > 0
    &&& after.production.simulator.pending() == q.remove(i)
    &&& after.production.simulator.current_time == q[i].time
    &&& after.production.staff@ == before.production.staff@
    &&& after.production.machines@ == before.production.machines@
    &&& after.buckets@ == before.buckets@
    &&& after.steps@ == before.steps@
    &&& after.process_meta@ == before.process_meta@
    &&& after.next_pid == before.next_pid
    &&& after.items == before.items
    &&& after.finished_goods == before.finished_goods
    &&& after.playing == before.playing
}

/// No pending event is due by `target`.
pub open spec fn none_due(line: AssemblyLine, target: u32) -> bool {
    forall|k: int| 0 <= k < line.production.simulator.pending().len()
        ==> (#[trigger] line.production.simulator.pending()[k]).time.0 > target
}

/// `after` is `before` after every event due by `target` is taken off the
/// timeline and handled, earliest first (at most `fuel` of them).
pub open spec fn events_drained(before: AssemblyLine, after: AssemblyLine, target: u32, fuel: nat) -> bool
    decreases fuel,
{
    if none_due(before, target) {
        same_line(before, after)
    } else if fuel == 0 {
        false
    } else {
        exists|mid: AssemblyLine| #[trigger] event_taken(before, mid)
            && exists|done: AssemblyLine| #[trigger] event_handled(mid, done, next_of(before.production.simulator.pending()))
            && events_drained(done, after, target, (fuel - 1) as nat)
    }
}

/// `after` is `before` with the clock at `target`.
pub open spec fn clock_set(before: AssemblyLine, after: AssemblyLine, target: u32) -> bool {
    &&& after.production.simulator.current_time.0 == target
    &&& after.production.simulator.pending() == before.production.simulator.pending()
    &&& after.production.staff@ == before.production.staff@
    &&& after.production.machines@ == before.production.machines@
    &&& after.buckets@ == before.buckets@
    &&& after.steps@ == before.steps@
    &&& after.process_meta@ == before.process_meta@
    &&& after.next_pid == before.next_pid
    &&& after.items == before.items
    &&& after.finished_goods == before.finished_goods
    &&& after.playing == before.playing
}

/// `after` is `before` with the engine's ledgers reconciled at `target`.
pub open spec fn ledgers_closed(before: AssemblyLine, after: AssemblyLine, target: u32) -> bool {
    &&& is_finalized(before.production, after.production, target)
    &&& after.buckets@ == before.buckets@
    &&& after.steps@ == before.steps@
    &&& after.process_meta@ == before.process_meta@
    &&& after.next_pid == before.next_pid
    &&& after.items == before.items
    &&& after.finished_goods == before.finished_goods
    &&& after.playing == before.playing
}

/// One tick from `before` to `after` with target `target`: rebalance, handle
/// every due event earliest first, set the clock to the target, rebalance
/// again, dispatch every bucket, and reconcile the ledgers.
pub open spec fn ticked(before: AssemblyLine, after: AssemblyLine, target: u32) -> bool {
    exists|s1: AssemblyLine| #[trigger] rebalanced(before, s1, target)
        && exists|s2: AssemblyLine, f: nat| #[trigger] events_drained(s1, s2, target, f)
        && exists|s3: AssemblyLine| #[trigger] clock_set(s2, s3, target)
        && exists|s4: AssemblyLine| #[trigger] rebalanced(s3, s4, target)
        && exists|s5: AssemblyLine| #[trigger] all_dispatched(s4, s5, target)
        && ledgers_closed(s5, after, target)
}

/// The measure that every handled event lowers.
pub open spec fn tick_measure(line: AssemblyLine) -> nat {
    ((u32::MAX - line.next_pid) * (line.production.staff@.len() + 2) + line.production.simulator.pending().len()) as nat
}

proof fn lemma_drained_more_fuel(a: AssemblyLine, c: AssemblyLine, target: u32, f: nat, g: nat)
    requires
        events_drained(a, c, target, f),
        f <= g,
    ensures
        events_drained(a, c, target, g),
    decreases f,
{
    if !none_due(a, target) && f > 0 {
        let mid = choose|mid: AssemblyLine| #[trigger] event_taken(a, mid)
            && exists|done: AssemblyLine| #[trigger] event_handled(mid, done, next_of(a.production.simulator.pending()))
            && events_drained(done, c, target, (f - 1) as nat);
        let done = choose|done: AssemblyLine| #[trigger] event_handled(mid, done, next_of(a.production.simulator.pending()))
            && events_drained(done, c, target, (f - 1) as nat);
        lemma_drained_more_fuel(done, c, target, (f - 1) as nat, (g - 1) as nat);
    }
}

/// How far one tick may advance the clock.
pub const TICK_MINUTES: u32 = 10;

/// Handling an event takes it off the timeline and adds at most
/// `staff + 1` events per process id handed out, so the measure drops.
proof fn lemma_tick_measure(max: int, staff: int, n0: int, n2: int, ev0: int, ev2: int)
    requires
        staff >= 0,
        n0 <= n2 <= max,
        ev2 + (staff + 1) * n0 <= ev0 - 1 + (staff + 1) * n2,
    ensures
        (max - n2) * (staff + 2) + ev2 < (max - n0) * (staff + 2) + ev0,
{
    assert((max - n2) * (staff + 2) + (staff + 1) * n2 - (staff + 1) * n0
        == (max - n0) * (staff + 2) - (n2 - n0)) by (nonlinear_arith);
}

/// The time of the earliest pending event of `q`.
pub open spec fn earliest_time(q: Seq<Event>) -> u32 {
    q[choose|i: int| is_first_earliest(q, i)].time.0
}

proof fn lemma_first_earliest_unique(q: Seq<Event>, i: int)
    requires
        is_first_earliest(q, i),
    ensures
        earliest_time(q) == q[i].time.0,
{
    let c = choose|c: int| is_first_earliest(q, c);
    assert(is_first_earliest(q, c));
    if c < i {
        assert(q[i].time.0 < q[c].time.0);
    } else if c > i {
        assert(q[c].time.0 < q[i].time.0);
    }
}

/// The time a tick advances to from `now`: `TICK_MINUTES` later, or the next
/// pending event if that comes sooner and lies in the future.
pub open spec fn tick_target(now: u32, q: Seq<Event>) -> int {
    if q.len() > 0 && now < earliest_time(q) < now + TICK_MINUTES {
        earliest_time(q) as int
    } else {
        now + TICK_MINUTES
    }
}

/// The longest duration among `steps` (zero for none).
pub open spec fn longest_duration(steps: Seq<ProcessStep>) -> u32
    decreases steps.len(),
{
    if steps.len() == 0 {
        0
    } else {
        let rest = longest_duration(steps.drop_last());
        if steps.last().duration > rest { steps.last().duration } else { rest }
    }
}

fn longest_step(steps: &Vec<ProcessStep>) -> (r: u32)
    ensures
        r == longest_duration(steps@),
        forall|s: int| 0 <= s < steps@.len() ==> (#[trigger] steps@[s]).duration <= r,
{
    let mut r: u32 = 0;
    let mut s: usize = 0;
    while s < steps.len()
        invariant
            s <= steps@.len(),
            r == longest_duration(steps@.subrange(0, s as int)),
            forall|x: int| 0 <= x < s ==> (#[trigger] steps@[x]).duration <= r,
        decreases steps@.len() - s,
    {
        assert(steps@.subrange(0, s as int + 1).drop_last() =~= steps@.subrange(0, s as int));
        if steps[s].duration > r {
            r = steps[s].duration;
        }
        s += 1;
    }
    assert(steps@.subrange(0, s as int) =~= steps@);
    r
}

/// Advances the run by one tick.
///
/// The target is `tick_target` of the clock and the pending events. Stale
/// staff are released; every event due by the target is handled, earliest
/// first; the clock moves to the target; stale staff are released again;
/// every bucket is dispatched; and the idle-time ledgers are reconciled at
/// the target. Returns `false`, changing nothing, where the target, or a
/// step started at it, would end after `u32::MAX`.
pub fn step_simulation(line: &mut AssemblyLine) -> (r: bool)
    requires
        old(line).wf(),
    ensures
        final(line).wf(),
        !r ==> *final(line) == *old(line),
        r <==> old(line).production.simulator.current_time.0 + TICK_MINUTES <= u32::MAX
            && tick_target(old(line).production.simulator.current_time.0, old(line).production.simulator.pending())
            + longest_duration(old(line).steps@) <= u32::MAX,
        r ==> ticked(*old(line), *final(line),
            tick_target(old(line).production.simulator.current_time.0, old(line).production.simulator.pending()) as u32),
        r ==> final(line).production.simulator.current_time.0
            == tick_target(old(line).production.simulator.current_time.0, old(line).production.simulator.pending()),
        r ==> forall|j: int| 0 <= j < final(line).production.machines@.len()
            && !(#[trigger] final(line).production.machines@[j]).is_operating
            ==> final(line).production.machines@[j].assigned_staff@.len() == 0,
        r ==> forall|k: int| 0 <= k < final(line).production.simulator.pending().len()
            ==> (#[trigger] final(line).production.simulator.pending()[k]).time.0
                >= tick_target(old(line).production.simulator.current_time.0, old(line).production.simulator.pending()),
        final(line).steps@ == old(line).steps@,
        final(line).items == old(line).items,
        final(line).playing == old(line).playing,
        final(line).finished_goods >= old(line).finished_goods,
        final(line).production.staff@.len() == old(line).production.staff@.len(),
        final(line).production.machines@.len() == old(line).production.machines@.len(),
{
    let current = line.production.simulator.elapsed_time();
    if current > u32::MAX - TICK_MINUTES {
        return false;
    }
    let mut target = current + TICK_MINUTES;
    match line.production.simulator.peek_next_event() {
        Some(e) => {
            proof {
                let i = choose|i: int| is_first_earliest(line.production.simulator.pending(), i)
                    && Some(e) == Some(&line.production.simulator.pending()[i]);
                lemma_first_earliest_unique(line.production.simulator.pending(), i);
            }
            let next_time = e.time.0;
            if next_time > current && next_time < target {
                target = next_time;
            }
        },
        None => {},
    }
    let longest = longest_step(&line.steps);
    if target > u32::MAX - longest {
        return false;
    }
    rebalance(line, target);
    let ghost s1 = *line;
    let ghost staff_len = line.production.staff@.len() as int;
    loop
        invariant_except_break
            forall|c: AssemblyLine| #[trigger] events_drained(*line, c, target, tick_measure(*line))
                ==> events_drained(s1, c, target, tick_measure(s1)),
        invariant
            line.wf(),
            steps_fit_after(line.steps@, target),
            line.steps@ == old(line).steps@,
            line.items == old(line).items,
            line.playing == old(line).playing,
            line.finished_goods >= old(line).finished_goods,
            staff_len == old(line).production.staff@.len(),
            line.production.staff@.len() == old(line).production.staff@.len(),
            line.production.machines@.len() == old(line).production.machines@.len(),
            line.production.simulator.current_time.0 <= target,
        ensures
            forall|k: int| 0 <= k < line.production.simulator.pending().len()
                ==> (#[trigger] line.production.simulator.pending()[k]).time.0 > target,
            events_drained(s1, *line, target, tick_measure(s1)),
        decreases (u32::MAX - line.next_pid) * (staff_len + 2) + line.production.simulator.pending().len(),
    {
        let ghost q = line.production.simulator.pending();
        let due = match line.production.simulator.peek_next_event() {
            Some(e) => {
                proof {
                    let i = choose|i: int| is_first_earliest(q, i) && Some(e) == Some(&q[i]);
                    lemma_first_earliest_unique(q, i);
                }
                e.time.0 <= target
            },
            None => false,
        };
        if !due {
            proof {
                if q.len() > 0 {
                    let i = choose|i: int| is_first_earliest(q, i);
                    lemma_first_earliest_unique(q, i);
                }
                assert(none_due(*line, target));
                assert(events_drained(*line, *line, target, tick_measure(*line)));
            }
            break;
        }
        let ghost n0 = line.next_pid as int;
        let ghost before = *line;
        match line.production.simulator.step() {
            Some(event) => {
                let ghost mid = *line;
                proof {
                    let i = choose|i: int| is_first_earliest(q, i) && Some(event) == Some(q[i])
                        && line.production.simulator.pending() == q.remove(i);
                    lemma_first_earliest_unique(q, i);
                    let c = choose|c: int| is_first_earliest(q, c);
                    lemma_first_earliest_index(q, i, c);
                    assert(event_taken(before, mid));
                    assert(next_of(q) == event);
                    assert(!none_due(before, target)) by {
                        assert(q[i].time.0 <= target);
                    }
                }
                handle_event(line, event);
                proof {
                    lemma_tick_measure(u32::MAX as int, staff_len, n0, line.next_pid as int,
                        q.len() as int, line.production.simulator.pending().len() as int);
                    assert(tick_measure(*line) < tick_measure(before));
                    assert forall|c: AssemblyLine| #[trigger] events_drained(*line, c, target, tick_measure(*line))
                        implies events_drained(s1, c, target, tick_measure(s1)) by {
                        lemma_drained_more_fuel(*line, c, target, tick_measure(*line), (tick_measure(before) - 1) as nat);
                        assert(events_drained(before, c, target, tick_measure(before)));
                    }
                }
            },
            None => {},
        }
    }
    let ghost s2 = *line;
    if line.production.simulator.elapsed_time() < target {
        line.production.simulator.set_time(SimulationTime::new(target));
    }
    let ghost s3 = *line;
    assert(clock_set(s2, s3, target));
    rebalance(line, target);
    let ghost before_dispatch = *line;
    dispatch_all(line, target);
    let ghost s5 = *line;
    proof {
        let ev0 = before_dispatch.production.simulator.pending();
        let ev1 = line.production.simulator.pending();
        assert forall|k: int| 0 <= k < ev1.len() implies (#[trigger] ev1[k]).time.0 >= target by {
            if k < ev0.len() {
                assert(ev1.subrange(0, ev0.len() as int)[k] == ev1[k]);
            }
        }
    }
    line.production.finalize_idle_time(target);
    proof {
        assert(ledgers_closed(s5, *line, target));
        assert(events_drained(s1, s2, target, tick_measure(s1)));
        assert(rebalanced(s3, before_dispatch, target));
        assert(all_dispatched(before_dispatch, s5, target));
        assert(target == tick_target(old(line).production.simulator.current_time.0, old(line).production.simulator.pending()));
        assert(ticked(*old(line), *line, target));
    }
    true
}

/// The job for the first step of item `item_id`.
pub open spec fn first_step_job(duration: u32, item_id: u32) -> PendingJob {
    PendingJob { duration, step_index: 0, item_id }
}

/// The first-step jobs of items `0..n`, in item order.
pub open spec fn first_jobs(duration: u32, n: nat) -> Seq<PendingJob> {
    Seq::new(n, |i: int| first_step_job(duration, i as u32))
}

/// `after` is `before` with the first-step jobs of all its items appended
/// to the queue of the first bucket with the first step's id, or of a new,
/// machineless bucket with that id when there is none.
pub open spec fn first_step_queued(before: AssemblyLine, after: AssemblyLine) -> bool {
    let bucket_id = before.steps@[0].bucket_id;
    let jobs = first_jobs(before.steps@[0].duration, before.items as nat);
    &&& same_but_buckets(before, after)
    &&& if exists|b: int| is_first_bucket(before, bucket_id, b) {
        let b = choose|b: int| is_first_bucket(before, bucket_id, b);
        &&& after.buckets@.len() == before.buckets@.len()
        &&& forall|x: int| 0 <= x < before.buckets@.len() && x != b ==> #[trigger] after.buckets@[x] == before.buckets@[x]
        &&& after.buckets@[b].id == bucket_id
        &&& after.buckets@[b].machine_ids@ == before.buckets@[b].machine_ids@
        &&& after.buckets@[b].queue@ == before.buckets@[b].queue@ + jobs
    } else {
        &&& after.buckets@.len() == before.buckets@.len() + 1
        &&& forall|x: int| 0 <= x < before.buckets@.len() ==> #[trigger] after.buckets@[x] == before.buckets@[x]
        &&& after.buckets@.last().id == bucket_id
        &&& after.buckets@.last().machine_ids@.len() == 0
        &&& after.buckets@.last().queue@ == jobs
    }
}

/// Queues the first step of every item in the first step's bucket and
/// dispatches that bucket at time zero. Does nothing without steps.
pub fn seed_first_step(line: &mut AssemblyLine)
    requires
        old(line).wf(),
    ensures
        final(line).wf(),
        final(line).steps@ == old(line).steps@,
        final(line).items == old(line).items,
        final(line).finished_goods == old(line).finished_goods,
        final(line).playing == old(line).playing,
        old(line).steps@.len() == 0 ==> *final(line) == *old(line),
        old(line).steps@.len() > 0 ==> exists|mid: AssemblyLine| #[trigger] first_step_queued(*old(line), mid)
            && jobs_dispatched(mid, *final(line), old(line).steps@[0].bucket_id, 0),
        old(line).steps@.len() > 0 ==> forall|i: u32| i < old(line).items ==> #[trigger] queued_or_started(
            *final(line), old(line).next_pid, old(line).steps@[0].bucket_id,
            first_step_job(old(line).steps@[0].duration, i)),
{
    if line.steps.len() == 0 {
        return;
    }
    let bucket = line.steps[0].bucket_id;
    let duration = line.steps[0].duration;
    let ghost s0 = *line;
    let b = match find_bucket(&line.buckets, bucket) {
        Some(b) => {
            proof {
                assert forall|c: int| is_first_bucket(s0, bucket, c) implies c == b as int by {
                    if c < b {
                        assert(line.buckets@[c].id != bucket);
                    } else if c > b {
                        assert(line.buckets@[b as int].id != bucket);
                    }
                }
                assert(is_first_bucket(s0, bucket, b as int));
            }
            b
        },
        None => {
            line.buckets.push(Bucket { id: bucket, machine_ids: Vec::new(), queue: Vec::new() });
            line.buckets.len() - 1
        },
    };
    let ghost q0 = line.buckets@[b as int].queue@;
    let ghost bk = line.buckets@;
    let mut item_id: u32 = 0;
    while item_id < line.items
        invariant
            s0 == *old(line),
            line.buckets@[b as int].queue@ == q0 + first_jobs(duration, item_id as nat),
            line.buckets@.len() == bk.len(),
            forall|x: int| 0 <= x < bk.len() && x != b ==> #[trigger] line.buckets@[x] == bk[x],
            line.buckets@[b as int].machine_ids@ == bk[b as int].machine_ids@,
            same_but_buckets(s0, *line),
            line.wf(),
            b < line.buckets@.len(),
            line.steps@.len() > 0,
            duration == line.steps@[0].duration,
            line.steps@ == old(line).steps@,
            line.items == old(line).items,
            line.finished_goods == old(line).finished_goods,
            line.playing == old(line).playing,
            line.next_pid == old(line).next_pid,
            item_id <= line.items,
            line.buckets@[b as int].id == bucket,
            bucket == old(line).steps@[0].bucket_id,
            forall|i: u32| i < item_id ==> line.buckets@[b as int].queue@.contains(
                #[trigger] first_step_job(duration, i)),
        decreases line.items - item_id,
    {
        let ghost q0 = line.buckets@[b as int].queue@;
        line.buckets[b].queue.push(PendingJob { duration, step_index: 0, item_id });
        proof {
            assert(first_jobs(duration, item_id as nat + 1) =~= first_jobs(duration, item_id as nat).push(first_step_job(duration, item_id)));
            assert forall|i: u32| i < item_id + 1 implies line.buckets@[b as int].queue@.contains(
                #[trigger] first_step_job(duration, i)) by {
                if i < item_id {
                    let y = choose|y: int| 0 <= y < q0.len() && q0[y] == first_step_job(duration, i);
                    assert(line.buckets@[b as int].queue@[y] == q0[y]);
                } else {
                    assert(line.buckets@[b as int].queue@[q0.len() as int] == first_step_job(duration, i));
                }
            }
            assert forall|x: int, j: int| 0 <= x < line.buckets@.len() && 0 <= j < line.buckets@[x].queue@.len() implies {
                let job = #[trigger] line.buckets@[x].queue@[j];
                job.step_index < line.steps@.len() && job.duration == line.steps@[job.step_index as int].duration
            } by {
                if x == b && j == q0.len() {
                } else if x == b {
                    assert(line.buckets@[x].queue@[j] == q0[j]);
                }
            }
        }
        item_id += 1;
    }
    let ghost mid = *line;
    proof {
        assert(first_step_queued(s0, mid));
    }
    try_start_jobs(line, bucket, 0);
    proof {
        assert forall|i: u32| i < old(line).items implies #[trigger] queued_or_started(
            *line, old(line).next_pid, old(line).steps@[0].bucket_id,
            PendingJob { duration: old(line).steps@[0].duration, step_index: 0, item_id: i }) by {
            let job = first_step_job(duration, i);
            assert(mid.buckets@[b as int].queue@.contains(job));
            let y = choose|y: int| 0 <= y < mid.buckets@[b as int].queue@.len() && mid.buckets@[b as int].queue@[y] == job;
            assert(line.buckets@[b as int].queue@.contains(mid.buckets@[b as int].queue@[y])
                || started_since(*line, mid.next_pid, mid.buckets@[b as int].queue@[y]));
        }
    }
}


} // verus!
