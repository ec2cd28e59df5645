//! Processes and the process table.

use vstd::prelude::*;
use crate::vfs::FdTable;
use crate::vma::VmaList;

verus! {

/// Maximum number of processes.
pub const MAX_PROCESSES: usize = 64;

/// Size of each kernel stack (16 KiB).
pub const KERNEL_STACK_SIZE: usize = 16384;

/// Process ID.
pub type Pid = usize;

/// Process state.
#[derive(Debug, Clone, Copy, PartialEq, Eq, Structural)]
pub enum ProcessState {
    Empty,
    Ready,
    Running,
    Blocked,
    Dead,
}

/// CPU interrupt context, as pushed by the hardware and the common interrupt entry code.
#[derive(Debug, Clone, Copy)]
pub struct InterruptContext {
    pub ds: u64,
    pub es: u64,
    pub r15: u64,
    pub r14: u64,
    pub r13: u64,
    pub r12: u64,
    pub r11: u64,
    pub r10: u64,
    pub r9: u64,
    pub r8: u64,
    pub rdi: u64,
    pub rsi: u64,
    pub rbp: u64,
    pub rbx: u64,
    pub rdx: u64,
    pub rcx: u64,
    pub rax: u64,
    pub int_num: u64,
    pub error_code: u64,
    pub rip: u64,
    pub cs: u64,
    pub rflags: u64,
    pub rsp: u64,
    pub ss: u64,
}

/// Size in bytes of an `InterruptContext` (24 quadwords).
pub const INTERRUPT_CONTEXT_SIZE: u64 = 192;

/// Saved CPU context for context switching.
#[derive(Debug, Clone, Copy, PartialEq, Eq, Structural)]
pub struct Context {
    /// Saved stack pointer: the address of an `InterruptContext`.
    pub rsp: u64,
}

impl Context {
    /// A context with a null stack pointer.
    pub fn empty() -> (r: Context)
        ensures
            r.rsp == 0,
    {
        Context { rsp: 0 }
    }
}

/// A kernel task or user process.
pub struct Process {
    pub pid: Pid,
    pub state: ProcessState,
    pub context: Context,
    pub name: &'static str,
    /// Physical address of this process's PML4 table (0: the kernel's).
    pub pml4_phys: u64,
    /// Top of the kernel stack, loaded into the TSS for ring transitions.
    pub kernel_stack_top: u64,
    /// Virtual memory areas for demand paging.
    pub vmas: VmaList,
    /// Current program break for `sbrk`.
    pub heap_break: u64,
    /// PID of the parent process (0 for kernel tasks and init).
    pub parent_pid: Pid,
    /// Exit code once the process has terminated.
    pub exit_code: Option<u64>,
    /// PID this process is blocked waiting for.
    pub waiting_for_pid: Option<Pid>,
    /// Per-process file descriptor table.
    pub fd_table: FdTable,
}

impl Process {
    /// An empty process slot value.
    pub fn empty() -> (r: Process)
        ensures
            r.pid == 0,
            r.state == ProcessState::Empty,
            r.context.rsp == 0,
            r.name@.len() == 0,
            r.pml4_phys == 0,
            r.kernel_stack_top == 0,
            r.vmas.regions@.len() == 0,
            r.heap_break == 0,
            r.parent_pid == 0,
            r.exit_code is None,
            r.waiting_for_pid is None,
            r.fd_table.wf(),
            forall|i: int| 0 <= i < crate::vfs::MAX_FDS ==> (#[trigger] r.fd_table.fds@[i]) is None,
    {
        let name = "";
        proof {
            reveal_strlit("");
        }
        Process {
            pid: 0,
            state: ProcessState::Empty,
            context: Context::empty(),
            name,
            pml4_phys: 0,
            kernel_stack_top: 0,
            vmas: VmaList::new(),
            heap_break: 0,
            parent_pid: 0,
            exit_code: None,
            waiting_for_pid: None,
            fd_table: FdTable::new(),
        }
    }
}

/// The process table: `MAX_PROCESSES` slots, and the next PID to hand out.
pub struct ProcessTable {
    pub slots: Vec<Option<Process>>,
    pub next_pid: Pid,
}

/// Slot `i` holds the process with PID `pid`.
pub open spec fn holds_pid(slots: Seq<Option<Process>>, i: int, pid: Pid) -> bool {
    slots[i] matches Some(p) && p.pid == pid
}

/// The first slot at or after `i` holding PID `pid`.
pub open spec fn find_from(slots: Seq<Option<Process>>, pid: Pid, i: int) -> Option<int>
    decreases slots.len() - i,
{
    if i < 0 || i >= slots.len() {
        None
    } else if holds_pid(slots, i, pid) {
        Some(i)
    } else {
        find_from(slots, pid, i + 1)
    }
}

/// The first slot holding PID `pid`: the process that a lookup by PID finds.
pub open spec fn slot_of(slots: Seq<Option<Process>>, pid: Pid) -> Option<int> {
    find_from(slots, pid, 0)
}

/// Slot `i` holds a process in state `s`.
pub open spec fn in_state(slots: Seq<Option<Process>>, i: int, s: ProcessState) -> bool {
    slots[i] matches Some(p) && p.state == s
}

/// Slot `i` holds a live (ready, running or blocked) process.
pub open spec fn is_alive(slots: Seq<Option<Process>>, i: int) -> bool {
    in_state(slots, i, ProcessState::Ready) || in_state(slots, i, ProcessState::Running)
        || in_state(slots, i, ProcessState::Blocked)
}

/// Number of live processes in the first `n` slots.
pub open spec fn alive_upto(slots: Seq<Option<Process>>, n: int) -> int
    decreases n,
{
    if n <= 0 {
        0
    } else {
        alive_upto(slots, n - 1) + if is_alive(slots, n - 1) { 1int } else { 0int }
    }
}

/// Where the round-robin scan starts after `current`: the slot after the one
/// holding `current`, or slot 0 when no slot holds it.
pub open spec fn rr_start(slots: Seq<Option<Process>>, current: Pid) -> int {
    match slot_of(slots, current) {
        Some(i) => i + 1,
        None => 0,
    }
}

/// Offset (from `start`, cyclically) of the first ready slot at offset `o` or later.
pub open spec fn ready_offset_from(slots: Seq<Option<Process>>, start: int, o: int) -> Option<int>
    decreases MAX_PROCESSES - o,
{
    if o < 0 || o >= MAX_PROCESSES {
        None
    } else if in_state(slots, (start + o) % (MAX_PROCESSES as int), ProcessState::Ready) {
        Some(o)
    } else {
        ready_offset_from(slots, start, o + 1)
    }
}

/// The PID that the round-robin choice after `current` gives: the first ready
/// process in slot order, starting after `current`'s slot and wrapping around.
pub open spec fn next_ready_pid(slots: Seq<Option<Process>>, current: Pid) -> Option<Pid> {
    let start = rr_start(slots, current);
    match ready_offset_from(slots, start, 0) {
        Some(o) => Some(slots[(start + o) % (MAX_PROCESSES as int)]->0.pid),
        None => None,
    }
}

/// Process `p` with its state replaced.
pub open spec fn with_state(p: Process, s: ProcessState) -> Process {
    Process { state: s, ..p }
}

/// A slot's process after `pid` exits with `code`: the exiting process (the
/// first holding `pid`) becomes dead with that exit code; then any process
/// blocked waiting for `pid` becomes ready and stops waiting.
pub open spec fn after_exit(slot: Option<Process>, is_target: bool, pid: Pid, code: u64) -> Option<Process> {
    match slot {
        None => None,
        Some(p) => {
            let p1 = if is_target {
                Process { state: ProcessState::Dead, exit_code: Some(code), ..p }
            } else {
                p
            };
            if p1.state == ProcessState::Blocked && p1.waiting_for_pid == Some(pid) {
                Some(Process { state: ProcessState::Ready, waiting_for_pid: None, ..p1 })
            } else {
                Some(p1)
            }
        },
    }
}

/// What `find_from` gives: the least matching slot at or after `i`.
pub proof fn lemma_find_from(slots: Seq<Option<Process>>, pid: Pid, i: int)
    requires
        0 <= i,
    ensures
        find_from(slots, pid, i) matches Some(k) ==> i <= k < slots.len() && holds_pid(slots, k, pid)
            && forall|j: int| i <= j < k ==> !holds_pid(slots, j, pid),
        find_from(slots, pid, i) is None ==> forall|j: int|
            i <= j < slots.len() ==> !holds_pid(slots, j, pid),
    decreases slots.len() - i,
{
    if i < slots.len() && !holds_pid(slots, i, pid) {
        lemma_find_from(slots, pid, i + 1);
    }
}

/// The table after `pid` exits with `code` (see `after_exit`).
pub open spec fn exited(t: Seq<Option<Process>>, pid: Pid, code: u64) -> Seq<Option<Process>> {
    Seq::new(t.len(), |i: int| after_exit(t[i], slot_of(t, pid) == Some(i), pid, code))
}

impl ProcessTable {
    pub open spec fn wf(&self) -> bool {
        &&& self.slots@.len() == MAX_PROCESSES
        &&& forall|i: int|
            0 <= i < MAX_PROCESSES && (#[trigger] self.slots@[i]) is Some ==> self.slots@[i]->0.fd_table.wf()
    }

    /// An empty table; PIDs start at 1.
    pub fn new() -> (r: ProcessTable)
        ensures
            r.wf(),
            r.next_pid == 1,
            forall|i: int| 0 <= i < MAX_PROCESSES ==> (#[trigger] r.slots@[i]) is None,
    {
        let mut slots: Vec<Option<Process>> = Vec::new();
        let mut i: usize = 0;
        while i < MAX_PROCESSES
            invariant
                i <= MAX_PROCESSES,
                slots@.len() == i,
                forall|j: int| 0 <= j < i ==> (#[trigger] slots@[j]) is None,
            decreases MAX_PROCESSES - i,
        {
            slots.push(None);
            i = i + 1;
        }
        ProcessTable { slots, next_pid: 1 }
    }

    /// Hand out the next PID.
    pub fn alloc_pid(&mut self) -> (r: Pid)
        requires
            old(self).next_pid < usize::MAX,
        ensures
            r == old(self).next_pid,
            final(self).next_pid == old(self).next_pid + 1,
            final(self).slots == old(self).slots,
    {
        let pid = self.next_pid;
        self.next_pid = self.next_pid + 1;
        pid
    }

    /// The slot of the process with PID `pid` (the first such slot).
    pub fn slot_of(&self, pid: Pid) -> (r: Option<usize>)
        requires
            self.wf(),
        ensures
            r matches Some(i) ==> slot_of(self.slots@, pid) == Some(i as int) && i < MAX_PROCESSES
                && holds_pid(self.slots@, i as int, pid),
            r is None ==> slot_of(self.slots@, pid) is None,
    {
        proof {
            lemma_find_from(self.slots@, pid, 0);
        }
        let mut i: usize = 0;
        while i < MAX_PROCESSES
            invariant
                i <= MAX_PROCESSES,
                self.wf(),
                slot_of(self.slots@, pid) == find_from(self.slots@, pid, i as int),
            decreases MAX_PROCESSES - i,
        {
            match &self.slots[i] {
                Some(p) => {
                    if p.pid == pid {
                        return Some(i);
                    }
                },
                None => {},
            }
            i = i + 1;
        }
        None
    }

    /// The process with PID `pid`, if any.
    pub fn get_process(&self, pid: Pid) -> (r: Option<&Process>)
        requires
            self.wf(),
        ensures
            r matches Some(p) ==> slot_of(self.slots@, pid) matches Some(i) && self.slots@[i]
                == Some(*p),
            r is None ==> slot_of(self.slots@, pid) is None,
    {
        match self.slot_of(pid) {
            Some(i) => self.slots[i].as_ref(),
            None => None,
        }
    }

    /// Place `proc` in the first empty slot. Returns the slot, or `None` (and
    /// leaves the table unchanged) when the table is full.
    pub fn insert(&mut self, proc: Process) -> (r: Option<usize>)
        requires
            old(self).wf(),
            proc.fd_table.wf(),
        ensures
            final(self).wf(),
            final(self).next_pid == old(self).next_pid,
            r matches Some(i) ==> {
                &&& i < MAX_PROCESSES
                &&& old(self).slots@[i as int] is None
                &&& forall|j: int| 0 <= j < i ==> (#[trigger] old(self).slots@[j]) is Some
                &&& final(self).slots@ == old(self).slots@.update(i as int, Some(proc))
            },
            r is None ==> {
                &&& forall|j: int| 0 <= j < MAX_PROCESSES ==> (#[trigger] old(self).slots@[j]) is Some
                &&& final(self).slots@ == old(self).slots@
            },
    {
        let mut i: usize = 0;
        while i < MAX_PROCESSES
            invariant
                i <= MAX_PROCESSES,
                self.wf(),
                proc.fd_table.wf(),
                self.slots@ == old(self).slots@,
                self.next_pid == old(self).next_pid,
                forall|j: int| 0 <= j < i ==> (#[trigger] self.slots@[j]) is Some,
            decreases MAX_PROCESSES - i,
        {
            if self.slots[i].is_none() {
                self.slots.set(i, Some(proc));
                return Some(i);
            }
            i = i + 1;
        }
        None
    }

    /// The PID of the next ready process after `current_pid`, round-robin:
    /// the scan starts at the slot after `current_pid`'s (or at slot 0) and
    /// wraps around the whole table.
    pub fn next_ready(&self, current_pid: Pid) -> (r: Option<Pid>)
        requires
            self.wf(),
        ensures
            r == next_ready_pid(self.slots@, current_pid),
    {
        let start = match self.slot_of(current_pid) {
            Some(i) => i + 1,
            None => 0,
        };
        let mut offset: usize = 0;
        while offset < MAX_PROCESSES
            invariant
                offset <= MAX_PROCESSES,
                self.wf(),
                start == rr_start(self.slots@, current_pid),
                start <= MAX_PROCESSES,
                ready_offset_from(self.slots@, start as int, 0) == ready_offset_from(
                    self.slots@,
                    start as int,
                    offset as int,
                ),
            decreases MAX_PROCESSES - offset,
        {
            let idx = (start + offset) % MAX_PROCESSES;
            match &self.slots[idx] {
                Some(p) => {
                    if p.state == ProcessState::Ready {
                        return Some(p.pid);
                    }
                },
                None => {},
            }
            offset = offset + 1;
        }
        None
    }

    /// Mark `pid` dead with exit code `code`, and wake every process blocked
    /// waiting for it.
    pub fn exit_process(&mut self, pid: Pid, code: u64)
        requires
            old(self).wf(),
        ensures
            final(self).wf(),
            final(self).next_pid == old(self).next_pid,
            final(self).slots@.len() == MAX_PROCESSES,
            final(self).slots@ == exited(old(self).slots@, pid, code),
            forall|i: int|
                0 <= i < MAX_PROCESSES ==> #[trigger] final(self).slots@[i] == after_exit(
                    old(self).slots@[i],
                    slot_of(old(self).slots@, pid) == Some(i),
                    pid,
                    code,
                ),
    {
        let target = self.slot_of(pid);
        match target {
            Some(t) => {
                match &mut self.slots[t] {
                    Some(p) => {
                        p.state = ProcessState::Dead;
                        p.exit_code = Some(code);
                    },
                    None => {},
                }
            },
            None => {},
        }
        let ghost marked = self.slots@;
        let mut i: usize = 0;
        while i < MAX_PROCESSES
            invariant
                i <= MAX_PROCESSES,
                self.slots@.len() == MAX_PROCESSES,
                self.next_pid == old(self).next_pid,
                marked.len() == MAX_PROCESSES,
                forall|j: int|
                    0 <= j < MAX_PROCESSES ==> after_exit(
                        #[trigger] old(self).slots@[j],
                        slot_of(old(self).slots@, pid) == Some(j),
                        pid,
                        code,
                    ) == after_exit(marked[j], false, pid, code),
                forall|j: int| 0 <= j < i ==> #[trigger] self.slots@[j] == after_exit(marked[j], false, pid, code),
                forall|j: int| i <= j < MAX_PROCESSES ==> #[trigger] self.slots@[j] == marked[j],
                forall|j: int|
                    0 <= j < MAX_PROCESSES && (#[trigger] old(self).slots@[j]) is Some
                        ==> old(self).slots@[j]->0.fd_table.wf(),
            decreases MAX_PROCESSES - i,
        {
            match &mut self.slots[i] {
                Some(p) => {
                    if p.state == ProcessState::Blocked && p.waiting_for_pid == Some(pid) {
                        p.state = ProcessState::Ready;
                        p.waiting_for_pid = None;
                    }
                },
                None => {},
            }
            i = i + 1;
        }
        proof {
            assert forall|j: int|
                0 <= j < MAX_PROCESSES && (#[trigger] self.slots@[j]) is Some implies self.slots@[j]->0.fd_table.wf() by {
                assert(self.slots@[j] == after_exit(
                    old(self).slots@[j],
                    slot_of(old(self).slots@, pid) == Some(j),
                    pid,
                    code,
                ));
            }
            assert(self.slots@ =~= exited(old(self).slots@, pid, code));
        }
    }

    /// Number of live (ready, running or blocked) processes.
    pub fn alive_count(&self) -> (r: usize)
        requires
            self.wf(),
        ensures
            r == alive_upto(self.slots@, MAX_PROCESSES as int),
    {
        let mut n: usize = 0;
        let mut i: usize = 0;
        while i < MAX_PROCESSES
            invariant
                i <= MAX_PROCESSES,
                self.wf(),
                n == alive_upto(self.slots@, i as int),
                n <= i,
            decreases MAX_PROCESSES - i,
        {
            match &self.slots[i] {
                Some(p) => {
                    if p.state == ProcessState::Ready || p.state == ProcessState::Running
                        || p.state == ProcessState::Blocked {
                        n = n + 1;
                    }
                },
                None => {},
            }
            i = i + 1;
        }
        n
    }
}

/// A process blocked waiting for `pid` is ready, and waits no more, once
/// `pid` exits.
pub proof fn exit_wakes_waiters(t: Seq<Option<Process>>, pid: Pid, code: u64, i: int)
    requires
        0 <= i < t.len(),
        t[i] matches Some(p) && p.state == ProcessState::Blocked && p.waiting_for_pid == Some(pid),
        slot_of(t, pid) != Some(i),
    ensures
        exited(t, pid, code)[i] matches Some(q) && q.state == ProcessState::Ready && q.waiting_for_pid
            is None && q.pid == t[i]->0.pid,
{
}

/// The process that exits is dead with its exit code, unless it was itself
/// waiting for its own PID; every other process keeps its state but for
/// the wake-up of those waiting for it.
pub proof fn exit_marks_dead(t: Seq<Option<Process>>, pid: Pid, code: u64)
    requires
        slot_of(t, pid) is Some,
        !(t[slot_of(t, pid).unwrap()]->0.waiting_for_pid == Some(pid)),
    ensures
        ({
            let k = slot_of(t, pid).unwrap();
            &&& exited(t, pid, code)[k] matches Some(q) && q.state == ProcessState::Dead
                && q.exit_code == Some(code) && q.pid == pid
            &&& forall|i: int| 0 <= i < t.len() && i != k && !(t[i] matches Some(p)
                && p.state == ProcessState::Blocked && p.waiting_for_pid == Some(pid))
                ==> #[trigger] exited(t, pid, code)[i] == t[i]
        }),
{
    lemma_find_from(t, pid, 0);
}

proof fn lemma_ready_offset(slots: Seq<Option<Process>>, start: int, o: int)
    requires
        0 <= o <= MAX_PROCESSES,
    ensures
        ready_offset_from(slots, start, o) matches Some(k) ==> o <= k < MAX_PROCESSES && in_state(
            slots,
            (start + k) % (MAX_PROCESSES as int),
            ProcessState::Ready,
        ),
        ready_offset_from(slots, start, o) is None ==> forall|j: int|
            o <= j < MAX_PROCESSES ==> !#[trigger] in_state(
                slots,
                (start + j) % (MAX_PROCESSES as int),
                ProcessState::Ready,
            ),
    decreases MAX_PROCESSES - o,
{
    if o < MAX_PROCESSES {
        lemma_ready_offset(slots, start, o + 1);
    }
}

/// The round-robin choice misses no ready process: it finds one exactly
/// when some slot of the table holds a ready process, and what it finds is
/// the PID of a ready process in the table.
pub proof fn next_ready_finds_ready(slots: Seq<Option<Process>>, current: Pid)
    requires
        slots.len() == MAX_PROCESSES,
    ensures
        next_ready_pid(slots, current) is Some <==> exists|i: int|
            0 <= i < MAX_PROCESSES && (#[trigger] slots[i] matches Some(p) && p.state
                == ProcessState::Ready),
        next_ready_pid(slots, current) matches Some(pid) ==> exists|i: int|
            0 <= i < MAX_PROCESSES && (#[trigger] slots[i] matches Some(p) && p.state
                == ProcessState::Ready && p.pid == pid),
{
    let start = rr_start(slots, current);
    lemma_find_from(slots, current, 0);
    assert(0 <= start <= MAX_PROCESSES);
    lemma_ready_offset(slots, start, 0);
    match ready_offset_from(slots, start, 0) {
        Some(k) => {
            let i = (start + k) % (MAX_PROCESSES as int);
            assert(0 <= i < MAX_PROCESSES);
            assert(slots[i] matches Some(p) && p.state == ProcessState::Ready && p.pid
                == next_ready_pid(slots, current)->0);
        },
        None => {
            assert forall|i: int|
                0 <= i < MAX_PROCESSES implies !(#[trigger] slots[i] matches Some(p) && p.state
                == ProcessState::Ready) by {
                let j = if i >= start { i - start } else { i + MAX_PROCESSES - start };
                assert(0 <= j < MAX_PROCESSES);
                assert((start + j) % (MAX_PROCESSES as int) == i);
                assert(!in_state(slots, (start + j) % (MAX_PROCESSES as int), ProcessState::Ready));
            }
        },
    }
}

/// The round-robin choice starts after the current process: a ready process
/// in the slot right after the current one's is chosen next.
pub proof fn next_ready_takes_the_following_slot(slots: Seq<Option<Process>>, current: Pid, i: int)
    requires
        slots.len() == MAX_PROCESSES,
        slot_of(slots, current) == Some(i),
        i + 1 < MAX_PROCESSES,
        slots[i + 1] matches Some(p) && p.state == ProcessState::Ready,
    ensures
        next_ready_pid(slots, current) == Some(slots[i + 1]->0.pid),
{
    lemma_find_from(slots, current, 0);
    assert((i + 1 + 0) % (MAX_PROCESSES as int) == i + 1);
}

/// The round-robin choice skips no ready process: going round the table
/// from the slot after the current process's (from slot 0 when it has
/// none), the chosen process is the first ready one met.
pub proof fn next_ready_is_first_after_current(slots: Seq<Option<Process>>, current: Pid)
    requires
        slots.len() == MAX_PROCESSES,
    ensures
        next_ready_pid(slots, current) matches Some(pid) ==> exists|k: int|
            0 <= k < MAX_PROCESSES && #[trigger] in_state(
                slots,
                (rr_start(slots, current) + k) % (MAX_PROCESSES as int),
                ProcessState::Ready,
            ) && slots[(rr_start(slots, current) + k) % (MAX_PROCESSES as int)]->0.pid == pid
                && forall|j: int|
                0 <= j < k ==> !#[trigger] in_state(
                    slots,
                    (rr_start(slots, current) + j) % (MAX_PROCESSES as int),
                    ProcessState::Ready,
                ),
{
    let start = rr_start(slots, current);
    lemma_ready_offset(slots, start, 0);
    if let Some(k) = ready_offset_from(slots, start, 0) {
        lemma_ready_offset_first(slots, start, 0);
        assert(in_state(slots, (start + k) % (MAX_PROCESSES as int), ProcessState::Ready));
    }
}

proof fn lemma_ready_offset_first(slots: Seq<Option<Process>>, start: int, o: int)
    requires
        0 <= o <= MAX_PROCESSES,
    ensures
        ready_offset_from(slots, start, o) matches Some(k) ==> forall|j: int|
            o <= j < k ==> !#[trigger] in_state(slots, (start + j) % (MAX_PROCESSES as int), ProcessState::Ready),
    decreases MAX_PROCESSES - o,
{
    if o < MAX_PROCESSES {
        lemma_ready_offset_first(slots, start, o + 1);
    }
}

} // verus!
