//! Text snapshots of a run for display.
use vstd::prelude::*;
use vstd::string::{StrSliceExecFns, StringExecFns};
use crate::line::{AssemblyLine, find_bucket, is_first_bucket};
use crate::scheduling::{MachineState, ProductionSimulator, WaitingReason};
use crate::staff::Staff;

verus! {

pub open spec fn digit(d: int) -> char {
    seq!['0', '1', '2', '3', '4', '5', '6', '7', '8', '9'][d]
}

/// The decimal digits of `n`, without sign or leading zeros.
pub open spec fn decimal(n: nat) -> Seq<char>
    decreases n,
{
    if n < 10 {
        seq![digit(n as int)]
    } else {
        decimal(n / 10).push(digit((n % 10) as int))
    }
}

/// Relies on `ToString` for `u32`, which writes the number in decimal.
#[verifier::external_body]
fn u32_text(n: u32) -> (r: String)
    ensures
        r@ == decimal(n as nat),
{
    n.to_string()
}

/// Relies on `ToString` for `usize`, which writes the number in decimal.
#[verifier::external_body]
fn usize_text(n: usize) -> (r: String)
    ensures
        r@ == decimal(n as nat),
{
    n.to_string()
}

/// The characters with the Unicode White_Space property.
pub open spec fn is_white_space(c: char) -> bool {
    let u = c as u32;
    ||| 0x9 <= u <= 0xD
    ||| u == 0x20 || u == 0x85 || u == 0xA0 || u == 0x1680
    ||| 0x2000 <= u <= 0x200A
    ||| u == 0x2028 || u == 0x2029 || u == 0x202F || u == 0x205F || u == 0x3000
}

/// Relies on `char::is_whitespace`: true exactly for White_Space characters.
#[verifier::external_body]
fn white_space(c: char) -> (r: bool)
    ensures
        r == is_white_space(c),
{
    c.is_whitespace()
}

/// The text is empty or white space only.
pub open spec fn is_blank(s: Seq<char>) -> bool {
    forall|i: int| 0 <= i < s.len() ==> is_white_space(#[trigger] s[i])
}

fn blank(s: &String) -> (r: bool)
    ensures
        r == is_blank(s@),
{
    let t = s.as_str();
    let n = t.unicode_len();
    let mut i: usize = 0;
    while i < n
        invariant
            n == t@.len(),
            t@ == s@,
            i <= n,
            forall|k: int| 0 <= k < i ==> is_white_space(#[trigger] s@[k]),
        decreases n - i,
    {
        if !white_space(t.get_char(i)) {
            return false;
        }
        i += 1;
    }
    true
}

/// What an idle or waiting machine is shown to wait for.
pub open spec fn waiting_text(m: MachineState) -> Seq<char> {
    match m.waiting_for {
        Some(WaitingReason::Staff) => "Staff"@,
        Some(WaitingReason::NextProcess) => "Next process"@,
        None => if m.is_operating { Seq::empty() } else { "Next task"@ },
    }
}

pub open spec fn machine_line(m: MachineState) -> Seq<char> {
    let w = waiting_text(m);
    "  - "@ + m.machine.name@ + " (ID: "@ + decimal(m.machine.id as nat) + "): "@
        + (if m.is_operating { "Operating"@ } else { "Idle"@ })
        + " with "@ + decimal(m.assigned_staff@.len()) + " staff"@
        + (if w.len() == 0 { Seq::empty() } else { " | Waiting for "@ + w })
        + " | Idle: "@ + decimal(m.idle_time as nat) + " mins\n"@
}

pub open spec fn staff_line(s: Staff) -> Seq<char> {
    "  - "@ + s.name@ + " (ID: "@ + decimal(s.id as nat) + "): "@
        + (if s.is_available { "Available"@ } else { "Busy"@ })
        + " ("@ + (match s.current_machine {
            Some(m) => "on machine "@ + decimal(m as nat),
            None => "idle"@,
        }) + ") | Idle: "@ + decimal(s.idle_time as nat) + " mins\n"@
}

pub open spec fn machine_lines(ms: Seq<MachineState>) -> Seq<char>
    decreases ms.len(),
{
    if ms.len() == 0 { Seq::empty() } else { machine_lines(ms.drop_last()) + machine_line(ms.last()) }
}

pub open spec fn staff_lines(ss: Seq<Staff>) -> Seq<char>
    decreases ss.len(),
{
    if ss.len() == 0 { Seq::empty() } else { staff_lines(ss.drop_last()) + staff_line(ss.last()) }
}

/// The status report of the engine.
pub open spec fn status_text(p: ProductionSimulator) -> Seq<char> {
    "Production Status at time "@ + decimal(p.simulator.current_time.0 as nat) + "\n"@
        + "Machines:\n"@ + machine_lines(p.machines@)
        + "Staff:\n"@ + staff_lines(p.staff@)
}

#[verifier::spinoff_prover]
#[verifier::rlimit(50)]
fn push_machine_line(out: &mut String, m: &MachineState)
    ensures
        final(out)@ == old(out)@ + machine_line(*m),
{
    let w: &str = match m.waiting_for {
        Some(WaitingReason::Staff) => "Staff",
        Some(WaitingReason::NextProcess) => "Next process",
        None => if m.is_operating { "" } else { "Next task" },
    };
    proof {
        reveal_strlit("Staff");
        reveal_strlit("Next process");
        reveal_strlit("Next task");
        reveal_strlit("");
    }
    out.append("  - ");
    out.append(m.machine.name.as_str());
    out.append(" (ID: ");
    out.append(u32_text(m.machine.id).as_str());
    out.append("): ");
    out.append(if m.is_operating { "Operating" } else { "Idle" });
    out.append(" with ");
    out.append(usize_text(m.assigned_staff.len()).as_str());
    out.append(" staff");
    if w.unicode_len() > 0 {
        out.append(" | Waiting for ");
        out.append(w);
    }
    out.append(" | Idle: ");
    out.append(u32_text(m.idle_time).as_str());
    out.append(" mins\n");
    assert(w@ == waiting_text(*m));
    assert(out@ =~= old(out)@ + machine_line(*m));
}

#[verifier::spinoff_prover]
#[verifier::rlimit(50)]
fn push_staff_line(out: &mut String, s: &Staff)
    ensures
        final(out)@ == old(out)@ + staff_line(*s),
{
    out.append("  - ");
    out.append(s.name.as_str());
    out.append(" (ID: ");
    out.append(u32_text(s.id).as_str());
    out.append("): ");
    out.append(if s.is_available { "Available" } else { "Busy" });
    out.append(" (");
    match s.current_machine {
        Some(m) => {
            out.append("on machine ");
            out.append(u32_text(m).as_str());
        },
        None => {
            out.append("idle");
        },
    }
    out.append(") | Idle: ");
    out.append(u32_text(s.idle_time).as_str());
    out.append(" mins\n");
    assert(out@ =~= old(out)@ + staff_line(*s));
}

impl ProductionSimulator {
    /// A report of the clock, every machine and every staff member.
    pub fn get_status(&self) -> (r: String)
        ensures
            r@ == status_text(*self),
    {
        let mut status = String::new();
        status.append("Production Status at time ");
        status.append(u32_text(self.simulator.elapsed_time()).as_str());
        status.append("\n");
        status.append("Machines:\n");
        let ghost head = status@;
        let mut j: usize = 0;
        while j < self.machines.len()
            invariant
                j <= self.machines@.len(),
                status@ == head + machine_lines(self.machines@.subrange(0, j as int)),
            decreases self.machines@.len() - j,
        {
            push_machine_line(&mut status, &self.machines[j]);
            proof {
                let sub = self.machines@.subrange(0, j as int + 1);
                assert(sub.drop_last() =~= self.machines@.subrange(0, j as int));
            }
            j += 1;
        }
        assert(self.machines@.subrange(0, j as int) =~= self.machines@);
        status.append("Staff:\n");
        let ghost mid = status@;
        let mut i: usize = 0;
        while i < self.staff.len()
            invariant
                i <= self.staff@.len(),
                status@ == mid + staff_lines(self.staff@.subrange(0, i as int)),
            decreases self.staff@.len() - i,
        {
            push_staff_line(&mut status, &self.staff[i]);
            proof {
                let sub = self.staff@.subrange(0, i as int + 1);
                assert(sub.drop_last() =~= self.staff@.subrange(0, i as int));
            }
            i += 1;
        }
        assert(self.staff@.subrange(0, i as int) =~= self.staff@);
        assert(status@ =~= status_text(*self));
        status
    }
}

/// The display name of bucket `b`, which has id `bucket_id`: its first
/// machine's name (or `Bucket <id>` when that name is blank), with the
/// machine count when the bucket holds several; `Bucket <id>` when the
/// bucket has no known first machine.
pub open spec fn bucket_name(line: AssemblyLine, bucket_id: u32, b: int) -> Seq<char> {
    let fallback = "Bucket "@ + decimal(bucket_id as nat);
    let list = line.buckets@[b].machine_ids@;
    if list.len() > 0 && list[0] < line.production.machines@.len() {
        let name = line.production.machines@[list[0] as int].machine.name@;
        let base = if is_blank(name) { fallback } else { name };
        if list.len() > 1 { base + " (x"@ + decimal(list.len()) + ")"@ } else { base }
    } else {
        fallback
    }
}

/// The name under which bucket `bucket_id` is shown.
pub fn bucket_display_name(line: &AssemblyLine, bucket_id: u32) -> (r: String)
    ensures
        forall|b: int| is_first_bucket(*line, bucket_id, b) ==> r@ == bucket_name(*line, bucket_id, b),
        (forall|b: int| 0 <= b < line.buckets@.len() ==> (#[trigger] line.buckets@[b]).id != bucket_id)
            ==> r@ == "Bucket "@ + decimal(bucket_id as nat),
{
    let mut fallback = String::new();
    fallback.append("Bucket ");
    fallback.append(u32_text(bucket_id).as_str());
    match find_bucket(&line.buckets, bucket_id) {
        Some(b) => {
            proof {
                assert forall|c: int| is_first_bucket(*line, bucket_id, c) implies c == b as int by {
                    if c < b {
                        assert(line.buckets@[c].id != bucket_id);
                    } else if c > b {
                        assert(line.buckets@[b as int].id != bucket_id);
                    }
                }
            }
            let list = &line.buckets[b].machine_ids;
            if list.len() > 0 && (list[0] as usize) < line.production.machines.len() {
                let name = &line.production.machines[list[0] as usize].machine.name;
                let mut base = if blank(name) {
                    fallback
                } else {
                    let mut copy = String::new();
                    copy.append(name.as_str());
                    copy
                };
                if list.len() > 1 {
                    base.append(" (x");
                    base.append(usize_text(list.len()).as_str());
                    base.append(")");
                }
                base
            } else {
                fallback
            }
        },
        None => fallback,
    }
}

} // verus!
