//! Round-robin scheduling decisions.

use vstd::prelude::*;
use crate::process::{
    Context, INTERRUPT_CONTEXT_SIZE, MAX_PROCESSES, Pid, Process, ProcessState, ProcessTable,
    holds_pid, in_state, lemma_find_from, next_ready_pid, ready_offset_from, rr_start, slot_of,
    with_state,
};

verus! {

/// `after` is `before` with the process holding `pid` (the first such slot)
/// moved from blocked to ready; unchanged when there is no such process or it
/// is not blocked.
pub open spec fn unblocked(before: ProcessTable, after: ProcessTable, pid: Pid) -> bool {
    after.next_pid == before.next_pid && match slot_of(before.slots@, pid) {
        Some(i) => if in_state(before.slots@, i, ProcessState::Blocked) {
            after.slots@ == before.slots@.update(
                i,
                Some(with_state(before.slots@[i]->0, ProcessState::Ready)),
            )
        } else {
            after.slots@ == before.slots@
        },
        None => after.slots@ == before.slots@,
    }
}

/// Make the process `pid` ready if it is blocked.
pub fn unblock(procs: &mut ProcessTable, pid: Pid)
    requires
        old(procs).wf(),
    ensures
        final(procs).wf(),
        unblocked(*old(procs), *final(procs), pid),
{
    match procs.slot_of(pid) {
        Some(i) => {
            let ghost before = procs.slots@;
            match &mut procs.slots[i] {
                Some(p) => {
                    if p.state == ProcessState::Blocked {
                        p.state = ProcessState::Ready;
                    }
                },
                None => {},
            }
            proof {
                if in_state(before, i as int, ProcessState::Blocked) {
                    assert(procs.slots@ =~= before.update(
                        i as int,
                        Some(with_state(before[i as int]->0, ProcessState::Ready)),
                    ));
                } else {
                    assert(procs.slots@ =~= before);
                }
            }
        },
        None => {},
    }
}

/// Scheduler state: the running PID (0 for the idle loop), a tick counter,
/// and the saved context of the idle loop.
pub struct Scheduler {
    pub current_pid: Pid,
    pub tick_count: u64,
    pub idle_ctx: u64,
}

/// What the low-level switch code must do after a scheduling decision.
#[derive(Debug, Clone, Copy, PartialEq, Eq, Structural)]
pub struct Switch {
    /// The context (stack pointer of an `InterruptContext`) to resume.
    pub next_ctx: u64,
    /// The page table to make active (loaded only when it differs from CR3).
    pub pml4: Option<u64>,
    /// The kernel stack to store in the TSS.
    pub tss_stack: Option<u64>,
}

/// A process after being preempted with context `ctx`: the context is saved,
/// and a running process becomes ready.
pub open spec fn saved_proc(p: Process, ctx: u64) -> Process {
    Process {
        context: Context { rsp: ctx },
        state: if p.state == ProcessState::Running { ProcessState::Ready } else { p.state },
        ..p
    }
}

/// The table after saving the context of `current` (nothing for the idle loop,
/// PID 0, or an unknown PID).
pub open spec fn save_current(slots: Seq<Option<Process>>, current: Pid, ctx: u64) -> Seq<Option<Process>> {
    if current == 0 {
        slots
    } else {
        match slot_of(slots, current) {
            Some(i) => slots.update(i, Some(saved_proc(slots[i]->0, ctx))),
            None => slots,
        }
    }
}

/// The page table a process runs in: its own, or the kernel's when it has none.
pub open spec fn address_space(p: Process, kernel_pml4: u64) -> u64 {
    if p.pml4_phys != 0 { p.pml4_phys } else { kernel_pml4 }
}

/// One scheduling step from scheduler `s0` and table `t0`, with the
/// interrupted context `ctx`, gives scheduler `s1`, table `t1` and switch `r`:
/// the context of the running process is saved (a running process becomes
/// ready; for the idle loop the context is kept as the idle context), the
/// round-robin successor becomes the running process, and the switch resumes
/// it in its address space; with no ready process the idle loop resumes.
pub open spec fn scheduled(
    s0: Scheduler,
    t0: Seq<Option<Process>>,
    ctx: u64,
    kernel_pml4: u64,
    s1: Scheduler,
    t1: Seq<Option<Process>>,
    r: Switch,
) -> bool {
    let cur = s0.current_pid;
    let sv = save_current(t0, cur, ctx);
    let idle1 = if cur == 0 { ctx } else { s0.idle_ctx };
    &&& s1.tick_count == if s0.tick_count < u64::MAX { s0.tick_count + 1 } else { 0 }
    &&& s1.idle_ctx == idle1
    &&& match next_ready_pid(sv, cur) {
        None => {
            &&& t1 == sv
            &&& s1.current_pid == 0
            &&& r == Switch { next_ctx: if cur == 0 { ctx } else { idle1 }, pml4: None, tss_stack: None }
        },
        Some(pid) => slot_of(sv, pid) matches Some(j) && {
            let p = sv[j]->0;
            &&& t1 == sv.update(j, Some(with_state(p, ProcessState::Running)))
            &&& s1.current_pid == pid
            &&& r == Switch {
                next_ctx: p.context.rsp,
                pml4: Some(address_space(p, kernel_pml4)),
                tss_stack: Some(p.kernel_stack_top),
            }
        },
    }
}

/// The table after blocking the running process `cur` (nothing for PID 0 or
/// an unknown PID).
pub open spec fn with_blocked(t: Seq<Option<Process>>, cur: Pid) -> Seq<Option<Process>> {
    if cur == 0 {
        t
    } else {
        match slot_of(t, cur) {
            Some(i) => t.update(i, Some(with_state(t[i]->0, ProcessState::Blocked))),
            None => t,
        }
    }
}

/// The scheduler's initial state: the idle loop runs.
pub fn init() -> (r: Scheduler)
    ensures
        r.current_pid == 0,
        r.tick_count == 0,
        r.idle_ctx == 0,
{
    Scheduler { current_pid: 0, tick_count: 0, idle_ctx: 0 }
}

impl Scheduler {
    /// The running PID (0: idle).
    pub fn current_pid(&self) -> (r: Pid)
        ensures
            r == self.current_pid,
    {
        self.current_pid
    }

    /// Block the running process (nothing for the idle loop).
    pub fn block_current(&self, procs: &mut ProcessTable)
        requires
            old(procs).wf(),
        ensures
            final(procs).wf(),
            final(procs).next_pid == old(procs).next_pid,
            final(procs).slots@ == with_blocked(old(procs).slots@, self.current_pid),
    {
        if self.current_pid != 0 {
            match procs.slot_of(self.current_pid) {
                Some(i) => {
                    let ghost before = procs.slots@;
                    match &mut procs.slots[i] {
                        Some(p) => {
                            p.state = ProcessState::Blocked;
                        },
                        None => {},
                    }
                    proof {
                        assert(procs.slots@ =~= before.update(
                            i as int,
                            Some(with_state(before[i as int]->0, ProcessState::Blocked)),
                        ));
                    }
                },
                None => {},
            }
        }
    }

    /// Timer or yield: save the interrupted context `current_ctx`, pick the next
    /// ready process round-robin, and say what to switch to. With no ready
    /// process the idle loop runs (or keeps running).
    pub fn schedule(&mut self, procs: &mut ProcessTable, current_ctx: u64, kernel_pml4: u64) -> (r: Switch)
        requires
            old(procs).wf(),
        ensures
            final(procs).wf(),
            final(procs).next_pid == old(procs).next_pid,
            scheduled(
                *old(self),
                old(procs).slots@,
                current_ctx,
                kernel_pml4,
                *final(self),
                final(procs).slots@,
                r,
            ),
    {
        self.tick_count = self.tick_count.wrapping_add(1);
        let old_pid = self.current_pid;
        let ghost s0 = procs.slots@;
        if old_pid != 0 {
            match procs.slot_of(old_pid) {
                Some(i) => {
                    match &mut procs.slots[i] {
                        Some(p) => {
                            p.context.rsp = current_ctx;
                            if p.state == ProcessState::Running {
                                p.state = ProcessState::Ready;
                            }
                        },
                        None => {},
                    }
                    proof {
                        assert(procs.slots@ =~= save_current(s0, old_pid, current_ctx));
                    }
                },
                None => {},
            }
        } else {
            self.idle_ctx = current_ctx;
        }
        let ghost s1 = procs.slots@;
        assert(s1 == save_current(s0, old_pid, current_ctx));
        let next_pid = match procs.next_ready(old_pid) {
            Some(pid) => pid,
            None => {
                if old_pid == 0 {
                    return Switch { next_ctx: current_ctx, pml4: None, tss_stack: None };
                } else {
                    self.current_pid = 0;
                    return Switch { next_ctx: self.idle_ctx, pml4: None, tss_stack: None };
                }
            },
        };
        proof {
            lemma_next_ready_found(s1, old_pid);
        }
        match procs.slot_of(next_pid) {
            Some(j) => {
                let ghost before = procs.slots@;
                let mut sw = Switch { next_ctx: 0, pml4: None, tss_stack: None };
                match &mut procs.slots[j] {
                    Some(p) => {
                        p.state = ProcessState::Running;
                        let pml4 = if p.pml4_phys != 0 { p.pml4_phys } else { kernel_pml4 };
                        sw = Switch {
                            next_ctx: p.context.rsp,
                            pml4: Some(pml4),
                            tss_stack: Some(p.kernel_stack_top),
                        };
                    },
                    None => {},
                }
                self.current_pid = next_pid;
                proof {
                    assert(procs.slots@ =~= before.update(
                        j as int,
                        Some(with_state(before[j as int]->0, ProcessState::Running)),
                    ));
                }
                sw
            },
            None => {
                // unreachable: the chosen PID was read from an occupied slot
                self.current_pid = 0;
                Switch {
                    next_ctx: self.idle_ctx,
                    pml4: Some(kernel_pml4),
                    tss_stack: Some(self.idle_ctx.wrapping_add(INTERRUPT_CONTEXT_SIZE)),
                }
            },
        }
    }
}

/// The PID that the round-robin choice gives is held by some slot.
proof fn lemma_next_ready_found(slots: Seq<Option<Process>>, current: Pid)
    requires
        slots.len() == MAX_PROCESSES,
    ensures
        next_ready_pid(slots, current) matches Some(pid) ==> slot_of(slots, pid) is Some,
{
    let start = rr_start(slots, current);
    lemma_find_from(slots, current, 0);
    lemma_ready_offset(slots, start, 0);
    if let Some(o) = ready_offset_from(slots, start, 0) {
        let k = (start + o) % (MAX_PROCESSES as int);
        let pid = slots[k]->0.pid;
        assert(holds_pid(slots, k, pid));
        lemma_find_from(slots, pid, 0);
    }
}

proof fn lemma_ready_offset(slots: Seq<Option<Process>>, start: int, o: int)
    requires
        0 <= o,
        start >= 0,
    ensures
        ready_offset_from(slots, start, o) matches Some(k) ==> o <= k < MAX_PROCESSES && in_state(
            slots,
            (start + k) % (MAX_PROCESSES as int),
            ProcessState::Ready,
        ),
    decreases MAX_PROCESSES - o,
{
    if o < MAX_PROCESSES && !in_state(slots, (start + o) % (MAX_PROCESSES as int), ProcessState::Ready) {
        lemma_ready_offset(slots, start, o + 1);
    }
}

/// No two occupied slots hold the same PID.
pub open spec fn unique_pids(t: Seq<Option<Process>>) -> bool {
    forall|i: int, j: int|
        0 <= i < j < t.len() && #[trigger] t[i] is Some && #[trigger] t[j] is Some ==> t[i]->0.pid
            != t[j]->0.pid
}

/// Only a ready process is made to run: after a scheduling step either the
/// idle loop runs and the table is as saved, or the slot of the process
/// that runs now was ready (after the interrupted one was saved) and is
/// now running, everything else as saved.
pub proof fn scheduler_runs_ready(
    s0: Scheduler,
    t0: Seq<Option<Process>>,
    ctx: u64,
    kernel_pml4: u64,
    s1: Scheduler,
    t1: Seq<Option<Process>>,
    r: Switch,
)
    requires
        t0.len() == MAX_PROCESSES,
        unique_pids(t0),
        scheduled(s0, t0, ctx, kernel_pml4, s1, t1, r),
    ensures
        ({
            let sv = save_current(t0, s0.current_pid, ctx);
            ||| (s1.current_pid == 0 && t1 == sv && r.pml4 is None)
            ||| exists|j: int|
                0 <= j < MAX_PROCESSES && in_state(sv, j, ProcessState::Ready) && sv[j]->0.pid
                    == s1.current_pid && #[trigger] t1[j] == Some(with_state(sv[j]->0, ProcessState::Running))
                    && t1 == sv.update(j, t1[j])
        }),
{
    let cur = s0.current_pid;
    let sv = save_current(t0, cur, ctx);
    lemma_find_from(t0, cur, 0);
    assert(unique_pids(sv)) by {
        assert forall|i: int, j: int|
            0 <= i < j < sv.len() && #[trigger] sv[i] is Some && #[trigger] sv[j] is Some implies sv[i]->0.pid
                != sv[j]->0.pid by {
            assert(t0[i] is Some && t0[j] is Some);
        }
    }
    let start = rr_start(sv, cur);
    lemma_find_from(sv, cur, 0);
    lemma_ready_offset(sv, start, 0);
    if let Some(o) = ready_offset_from(sv, start, 0) {
        let k = (start + o) % (MAX_PROCESSES as int);
        let pid = sv[k]->0.pid;
        assert(holds_pid(sv, k, pid));
        lemma_find_from(sv, pid, 0);
        let j = slot_of(sv, pid).unwrap();
        if j != k {
            if j < k {
                assert(sv[j] is Some && sv[k] is Some);
            } else {
                assert(sv[k] is Some && sv[j] is Some);
            }
        }
        assert(j == k);
        assert(t1 == sv.update(j, t1[j]));
    }
}

} // verus!
