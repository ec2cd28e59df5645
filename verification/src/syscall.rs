//! System call decisions: what each call does to the kernel's state and what
//! it answers. Work that touches user memory or hardware is left to the
//! caller, described by the outcome.

use vstd::prelude::*;
use crate::ipc;
use crate::ipc::{IpcQueues, Message, pop_result, push_result, received, sent};
use crate::process::{
    MAX_PROCESSES, Pid, Process, ProcessState, ProcessTable, exited, holds_pid, lemma_find_from, slot_of,
};
use crate::scheduler;
use crate::scheduler::{Scheduler, Switch, scheduled, with_blocked};
use crate::vfs::{MAX_FDS, FdTable, first_free_fd};
use crate::vma::{
    Vma, VmaBacking, VmaFlags, VmaList, is_free_slot, page_align_up, vma_holds, VMA_READ, VMA_USER,
    VMA_WRITE,
};
use crate::frame::{FrameAllocator, PAGE_SIZE};
use crate::fat32;
use crate::fat32::{list_of, lookup, readable, uppercase_of};
use crate::shm::{ShmTable, page_base, region_index};
use crate::vfs::{min, remaining, written};
use vstd::utf8::encode_utf8;

verus! {

pub const SYS_SEND: u64 = 1;
pub const SYS_RECV: u64 = 2;
pub const SYS_EXIT: u64 = 3;
pub const SYS_YIELD: u64 = 4;
pub const SYS_GETPID: u64 = 5;
pub const SYS_MAP_PHYSICAL: u64 = 6;
pub const SYS_INB: u64 = 7;
pub const SYS_GET_FB_INFO: u64 = 8;
pub const SYS_MMAP: u64 = 9;
pub const SYS_MUNMAP: u64 = 10;
pub const SYS_SBRK: u64 = 11;
pub const SYS_SHM_CREATE: u64 = 12;
pub const SYS_SHM_MAP: u64 = 13;
pub const SYS_SHM_UNMAP: u64 = 14;
pub const SYS_SPAWN: u64 = 15;
pub const SYS_EXECVE: u64 = 16;
pub const SYS_WAITPID: u64 = 17;
pub const SYS_OPEN: u64 = 18;
pub const SYS_READ: u64 = 19;
pub const SYS_WRITE_FILE: u64 = 20;
pub const SYS_CLOSE: u64 = 21;
pub const SYS_STAT: u64 = 22;
pub const SYS_LISTDIR: u64 = 23;
pub const SYS_SHUTDOWN: u64 = 24;
pub const SYS_GET_TIME: u64 = 25;

/// Returned in `rax` for a failed call.
pub const SYS_ERROR: u64 = 0xFFFF_FFFF_FFFF_FFFF;

/// Default placement hint for `mmap` when the caller gives none.
pub const MMAP_DEFAULT_HINT: u64 = 0x2000_0000;

/// The scheduler-visible kernel state.
pub struct Kernel {
    pub procs: ProcessTable,
    pub sched: Scheduler,
    pub ipc: IpcQueues,
    /// Physical address of the kernel's own page table.
    pub kernel_pml4: u64,
}

/// What the low-level handler does after a system call.
#[derive(Debug, Clone, Copy, PartialEq, Eq, Structural)]
pub enum SysOutcome {
    /// Store the value in `rax` and resume the caller.
    Return(u64),
    /// Copy the message to the caller's buffer (first argument), store its
    /// sender in `rax`, and resume the caller.
    Deliver(Message),
    /// Rewind the caller's `rip` past the `int 0x80` (when `rewind`) so the
    /// call repeats when it runs again, then switch as described.
    Reschedule { to: Switch, rewind: bool },
    /// Unmap the pages of `[start, end)`, store 0 in `rax`, resume the caller.
    Unmap { start: u64, end: u64 },
    /// A call that needs user memory or hardware; handled by the caller.
    External,
}

/// What the low-level handler does after a page fault from user mode.
#[derive(Debug, Clone, Copy, PartialEq, Eq, Structural)]
pub enum PageFaultOutcome {
    /// Zero `frame`, map it writable and user-accessible at `page` in the
    /// page table `pml4`, and resume the faulting instruction.
    MapPage { pml4: u64, page: u64, frame: u64 },
    /// The process was killed; switch as described.
    Kill(Switch),
}

/// A user page fault at `addr` can be served: the running process exists
/// and one of its areas holds the address.
pub open spec fn fault_in_area(k: Kernel, addr: u64) -> bool {
    match current_slot(k) {
        Some(i) => exists|j: int|
            0 <= j < k.procs.slots@[i].unwrap().vmas.regions@.len() && vma_holds(
                #[trigger] k.procs.slots@[i].unwrap().vmas.regions@[j],
                addr,
            ),
        None => false,
    }
}

/// The slot of the running process.
pub open spec fn current_slot(k: Kernel) -> Option<int> {
    slot_of(k.procs.slots@, k.sched.current_pid)
}

/// Two processes agree on everything but the memory areas and the break.
pub open spec fn same_but_memory(p: Process, q: Process) -> bool {
    &&& p.pid == q.pid
    &&& p.state == q.state
    &&& p.context == q.context
    &&& p.name == q.name
    &&& p.pml4_phys == q.pml4_phys
    &&& p.kernel_stack_top == q.kernel_stack_top
    &&& p.parent_pid == q.parent_pid
    &&& p.exit_code == q.exit_code
    &&& p.waiting_for_pid == q.waiting_for_pid
    &&& p.fd_table == q.fd_table
}

/// Only slot `i` of the table changed.
pub open spec fn only_slot_changed(a: ProcessTable, b: ProcessTable, i: int) -> bool {
    &&& b.next_pid == a.next_pid
    &&& b.slots@.len() == a.slots@.len()
    &&& forall|j: int| 0 <= j < a.slots@.len() && j != i ==> #[trigger] b.slots@[j] == a.slots@[j]
}

/// The tables hold the same processes and next PID.
pub open spec fn same_table(a: ProcessTable, b: ProcessTable) -> bool {
    a.slots@ == b.slots@ && a.next_pid == b.next_pid
}

/// A read-write anonymous user area `[start, end)`.
pub open spec fn anon_rw(start: int, end: int) -> Vma {
    Vma {
        start: start as u64,
        end: end as u64,
        flags: VmaFlags((VMA_USER + VMA_READ + VMA_WRITE) as u64),
        backing: VmaBacking::Anonymous,
    }
}

/// The areas of `regions` that an `munmap` of exactly `[start, end)` keeps.
pub open spec fn kept_upto(regions: Seq<Vma>, start: int, end: int, n: int) -> Seq<Vma>
    decreases n,
{
    if n <= 0 {
        Seq::empty()
    } else if regions[n - 1].start == start && regions[n - 1].end == end {
        kept_upto(regions, start, end, n - 1)
    } else {
        kept_upto(regions, start, end, n - 1).push(regions[n - 1])
    }
}

/// `x`, read as a signed 64-bit number, is positive.
pub open spec fn positive_signed(x: u64) -> bool {
    0 < x && x <= 0x7FFF_FFFF_FFFF_FFFF
}

/// Arguments of `sbrk` that stay within 64 bits for the running process.
pub open spec fn sbrk_ok(k: Kernel, increment: u64) -> bool {
    match current_slot(k) {
        Some(i) => positive_signed(increment) ==> k.procs.slots@[i]->0.heap_break + increment + 4095
            <= u64::MAX,
        None => true,
    }
}

/// The effect of `Kernel::sys_sbrk` (described there) from `k0` to `k1` with answer `r`.
pub open spec fn sbrk_done(k0: Kernel, k1: Kernel, increment: u64, r: u64) -> bool {
    &&& k1.sched == k0.sched
    &&& k1.ipc == k0.ipc
    &&& match current_slot(k0) {
        None => r == SYS_ERROR && same_table(k1.procs, k0.procs),
        Some(i) => {
            let p = k0.procs.slots@[i]->0;
            &&& r == p.heap_break
            &&& if positive_signed(increment) {
                let nb = p.heap_break + increment;
                &&& only_slot_changed(k0.procs, k1.procs, i)
                &&& k1.procs.slots@[i] matches Some(q) && same_but_memory(p, q)
                    && q.heap_break == nb && q.vmas.regions@ == p.vmas.regions@.push(
                    anon_rw(page_align_up(p.heap_break as int), page_align_up(nb)),
                )
            } else {
                same_table(k1.procs, k0.procs)
            }
        },
    }
}

/// The effect of `Kernel::sys_mmap` (described there) from `k0` to `k1` with answer `r`.
pub open spec fn mmap_done(k0: Kernel, k1: Kernel, hint: u64, size: u64, r: u64) -> bool {
    &&& k1.sched == k0.sched
    &&& k1.ipc == k0.ipc
    &&& match current_slot(k0) {
        None => r == SYS_ERROR && same_table(k1.procs, k0.procs),
        Some(i) => {
            let p = k0.procs.slots@[i]->0;
            let h = if hint != 0 { hint } else { MMAP_DEFAULT_HINT };
            let asz = page_align_up(size as int);
            if r == SYS_ERROR {
                &&& same_table(k1.procs, k0.procs)
                &&& forall|b: int| b >= page_align_up(h as int) ==> !is_free_slot(
                    p.vmas.regions@,
                    b,
                    page_align_up(asz),
                )
            } else {
                &&& r >= page_align_up(h as int)
                &&& is_free_slot(p.vmas.regions@, r as int, page_align_up(asz))
                &&& forall|b: int|
                    page_align_up(h as int) <= b < r ==> !is_free_slot(
                        p.vmas.regions@,
                        b,
                        page_align_up(asz),
                    )
                &&& only_slot_changed(k0.procs, k1.procs, i)
                &&& k1.procs.slots@[i] matches Some(q) && same_but_memory(p, q)
                    && q.heap_break == p.heap_break && q.vmas.regions@
                    == p.vmas.regions@.push(anon_rw(r as int, r + asz))
            }
        },
    }
}

/// The effect of `Kernel::sys_munmap` (described there) from `k0` to `k1` with answer `r`.
pub open spec fn munmap_done(k0: Kernel, k1: Kernel, addr: u64, size: u64, r: SysOutcome) -> bool {
    &&& k1.sched == k0.sched
    &&& k1.ipc == k0.ipc
    &&& match current_slot(k0) {
        None => r == SysOutcome::Return(SYS_ERROR) && same_table(
            k1.procs,
            k0.procs,
        ),
        Some(i) => {
            let p = k0.procs.slots@[i]->0;
            let start = (addr / 4096) * 4096;
            let end = start + page_align_up(size as int);
            &&& r == SysOutcome::Unmap { start: start as u64, end: end as u64 }
            &&& only_slot_changed(k0.procs, k1.procs, i)
            &&& k1.procs.slots@[i] matches Some(q) && same_but_memory(p, q)
                && q.heap_break == p.heap_break && q.vmas.regions@ == kept_upto(
                p.vmas.regions@,
                start,
                end,
                p.vmas.regions@.len() as int,
            )
        },
    }
}

/// The effect of `Kernel::sys_close` (described there) from `k0` to `k1` with answer `r`.
pub open spec fn close_done(k0: Kernel, k1: Kernel, fd: u64, r: u64) -> bool {
    &&& k1.sched == k0.sched
    &&& k1.ipc == k0.ipc
    &&& match current_slot(k0) {
        None => r == SYS_ERROR && same_table(k1.procs, k0.procs),
        Some(i) => {
            let p = k0.procs.slots@[i]->0;
            let open = (fd as usize) < MAX_FDS && p.fd_table.fds@[fd as usize as int] is Some;
            &&& r == if open { 0 } else { SYS_ERROR }
            &&& only_slot_changed(k0.procs, k1.procs, i)
            &&& k1.procs.slots@[i] matches Some(q) && q.fd_table.fds@ == (if open {
                p.fd_table.fds@.update(fd as usize as int, None)
            } else {
                p.fd_table.fds@
            }) && q.pid == p.pid && q.state == p.state && q.vmas == p.vmas
                && q.heap_break == p.heap_break && q.exit_code == p.exit_code
                && q.waiting_for_pid == p.waiting_for_pid && q.context == p.context
                && q.pml4_phys == p.pml4_phys
        },
    }
}

/// The effect of `Kernel::sys_waitpid` (described there) from `k0` to `k1` with answer `r`.
pub open spec fn waitpid_done(k0: Kernel, k1: Kernel, child: u64, ctx: u64, r: SysOutcome) -> bool {
    &&& k1.ipc == k0.ipc
    &&& k1.kernel_pml4 == k0.kernel_pml4
    &&& k1.procs.next_pid == k0.procs.next_pid
    &&& ({
        let t0 = k0.procs.slots@;
        let c = child as usize;
        match slot_of(t0, c) {
            None => r == SysOutcome::Return(SYS_ERROR) && same_table(
                k1.procs,
                k0.procs,
            ) && k1.sched == k0.sched,
            Some(j) => if t0[j]->0.state == ProcessState::Dead {
                &&& r == SysOutcome::Return(
                    match t0[j]->0.exit_code {
                        Some(code) => code,
                        None => 0,
                    },
                )
                &&& k1.procs.slots@ == reaped(t0, j)
                &&& k1.sched == k0.sched
            } else {
                r matches SysOutcome::Reschedule { to, rewind } && rewind && scheduled(
                    k0.sched,
                    with_waiting(t0, k0.sched.current_pid, c),
                    ctx,
                    k0.kernel_pml4,
                    k1.sched,
                    k1.procs.slots@,
                    to,
                )
            },
        }
    })
}

/// The effect of `Kernel::sys_recv` (described there) from `k0` to `k1` with answer `r`.
pub open spec fn recv_done(k0: Kernel, k1: Kernel, a2: u64, ctx: u64, r: SysOutcome) -> bool {
    &&& k1.kernel_pml4 == k0.kernel_pml4
    &&& k1.procs.next_pid == k0.procs.next_pid
    &&& ({
        let cur = k0.sched.current_pid;
        let q0 = k0.ipc.queues@;
        let head = if cur < MAX_PROCESSES { pop_result(q0[cur as int].view()).0 } else { None };
        match head {
            Some(m) => r == SysOutcome::Deliver(m) && received(
                q0,
                k1.ipc.queues@,
                cur,
                Some(m),
            ) && same_table(k1.procs, k0.procs) && k1.sched
                == k0.sched,
            None => {
                &&& received(q0, k1.ipc.queues@, cur, None)
                &&& if a2 == 1 {
                    r == SysOutcome::Return(SYS_ERROR) && same_table(
                        k1.procs,
                        k0.procs,
                    ) && k1.sched == k0.sched
                } else {
                    r matches SysOutcome::Reschedule { to, rewind } && rewind && scheduled(
                        k0.sched,
                        with_blocked(k0.procs.slots@, cur),
                        ctx,
                        k0.kernel_pml4,
                        k1.sched,
                        k1.procs.slots@,
                        to,
                    )
                }
            },
        }
    })
}

/// What `stat` of `fd` answers for the running process of `k`: the file's
/// size, or `SYS_ERROR` when it is not open or no process runs.
pub open spec fn stat_answer(k: Kernel, fd: u64, r: u64) -> bool {
    match current_slot(k) {
        None => r == SYS_ERROR,
        Some(i) => {
            let t = k.procs.slots@[i]->0.fd_table;
            if (fd as usize) < MAX_FDS && t.fds@[fd as usize as int] is Some {
                r == t.fds@[fd as usize as int]->0.data@.len()
            } else {
                r == SYS_ERROR
            }
        },
    }
}

fn rw_anon() -> (r: VmaFlags)
    ensures
        r.0 == (VMA_USER + VMA_READ + VMA_WRITE) as u64,
{
    assert(8u64 | 1u64 == 9u64) by (bit_vector);
    assert(9u64 | 2u64 == 11u64) by (bit_vector);
    VmaFlags(VMA_USER).union(VmaFlags(VMA_READ)).union(VmaFlags(VMA_WRITE))
}

proof fn lemma_align(x: u64)
    requires
        x <= u64::MAX - 4095,
    ensures
        (((x + 4095) as u64) & !0xFFFu64) as int == page_align_up(x as int),
        (x & !0xFFFu64) as int == (x / 4096) * 4096,
{
    let y = (x + 4095) as u64;
    assert(y & !0xFFFu64 == y - y % 4096) by (bit_vector);
    assert(x & !0xFFFu64 == x - x % 4096) by (bit_vector);
}

/// Process `q` is `p` with only its open files changed.
pub open spec fn same_but_files(p: Process, q: Process) -> bool {
    &&& q.pid == p.pid
    &&& q.state == p.state
    &&& q.context == p.context
    &&& q.name == p.name
    &&& q.pml4_phys == p.pml4_phys
    &&& q.kernel_stack_top == p.kernel_stack_top
    &&& q.vmas == p.vmas
    &&& q.heap_break == p.heap_break
    &&& q.parent_pid == p.parent_pid
    &&& q.exit_code == p.exit_code
    &&& q.waiting_for_pid == p.waiting_for_pid
    &&& q.fd_table.wf()
}

/// The decimal digits of `n`, most significant first.
pub open spec fn decimal(n: nat) -> Seq<u8>
    decreases n,
{
    if n < 10 {
        seq![(48 + n) as u8]
    } else {
        decimal(n / 10).push((48 + n % 10) as u8)
    }
}

/// The directory listing as `listdir` writes it: one line per file, its
/// name, a space and its size in decimal.
pub open spec fn listing_text(files: Seq<(Seq<u8>, int)>) -> Seq<u8>
    decreases files.len(),
{
    if files.len() == 0 {
        Seq::empty()
    } else {
        let (name, size) = files.last();
        listing_text(files.drop_last()) + name.push(32u8) + decimal(size as nat).push(10u8)
    }
}

/// The pages `map_physical` maps: from `virt` and `phys` rounded down to a
/// page, page by page until `virt + size` rounded up.
pub open spec fn physical_pages(virt: u64, phys: u64, size: u64) -> Seq<(u64, u64)> {
    let sv = (virt / 4096) * 4096;
    let sp = (phys / 4096) * 4096;
    let ev = page_align_up(virt + size);
    Seq::new(((ev - sv) / 4096) as nat, |k: int| ((sv + k * 4096) as u64, (sp + k * 4096) as u64))
}

impl Kernel {
    pub open spec fn wf(&self) -> bool {
        self.procs.wf() && self.ipc.wf()
    }

    /// A kernel with no processes, empty queues, the idle loop running.
    pub fn new(kernel_pml4: u64) -> (r: Kernel)
        ensures
            r.wf(),
            r.sched.current_pid == 0,
            r.kernel_pml4 == kernel_pml4,
            forall|i: int| 0 <= i < MAX_PROCESSES ==> (#[trigger] r.procs.slots@[i]) is None,
    {
        Kernel { procs: ProcessTable::new(), sched: scheduler::init(), ipc: IpcQueues::new(), kernel_pml4 }
    }

    /// `sbrk`: grow the running process's heap by `increment` bytes (taken as
    /// signed). Returns the old break. Growth records a read-write area from
    /// the old break (rounded up) to the new break (rounded up); zero or a
    /// negative increment changes nothing. `SYS_ERROR` when no process runs.
    pub fn sys_sbrk(&mut self, increment: u64) -> (r: u64)
        requires
            old(self).wf(),
            sbrk_ok(*old(self), increment),
        ensures
            final(self).wf(),
            sbrk_done(*old(self), *final(self), increment, r),
    {
        let pid = self.sched.current_pid;
        match self.procs.slot_of(pid) {
            None => SYS_ERROR,
            Some(i) => {
                let ghost before = self.procs;
                // `increment` read as an i64 is positive
                let inc_positive = increment > 0 && increment <= 0x7FFF_FFFF_FFFF_FFFF;
                let mut ret: u64 = 0;
                match &mut self.procs.slots[i] {
                    Some(p) => {
                        let old_break = p.heap_break;
                        ret = old_break;
                        if inc_positive {
                            let new_break = old_break + increment;
                            proof {
                                lemma_align(old_break);
                                lemma_align(new_break);
                            }
                            let start = (old_break + 0xFFF) & !0xFFFu64;
                            let end = (new_break + 0xFFF) & !0xFFFu64;
                            p.vmas.add(Vma { start, end, flags: rw_anon(), backing: VmaBacking::Anonymous });
                            p.heap_break = new_break;
                        }
                    },
                    None => {},
                }
                proof {
                    if !inc_positive {
                        assert(self.procs.slots@ =~= before.slots@);
                    }
                }
                ret
            },
        }
    }
}

/// Arguments of `mmap` that stay within 64 bits.
pub open spec fn mmap_ok(hint: u64, size: u64) -> bool {
    hint <= u64::MAX - 4095 && size <= u64::MAX - 4095
}

/// Arguments of `munmap` that stay within 64 bits.
pub open spec fn munmap_ok(addr: u64, size: u64) -> bool {
    size <= u64::MAX - 4095 && (addr / 4096) * 4096 + page_align_up(size as int) <= u64::MAX
}

/// The table after the running process `cur` starts waiting for `child`.
pub open spec fn with_waiting(t: Seq<Option<Process>>, cur: Pid, child: Pid) -> Seq<Option<Process>> {
    match slot_of(t, cur) {
        Some(i) => t.update(
            i,
            Some(Process { state: ProcessState::Blocked, waiting_for_pid: Some(child), ..t[i]->0 }),
        ),
        None => t,
    }
}

/// The table after the dead process in slot `i` is reaped.
pub open spec fn reaped(t: Seq<Option<Process>>, i: int) -> Seq<Option<Process>> {
    t.update(i, Some(Process { state: ProcessState::Empty, ..t[i]->0 }))
}

impl Kernel {
    /// `mmap`: reserve `size` bytes (rounded up to pages) of fresh read-write
    /// memory for the running process, first-fit from `hint` (or from
    /// `MMAP_DEFAULT_HINT` when `hint` is 0). Returns the address, or
    /// `SYS_ERROR` when no room is left or no process runs.
    pub fn sys_mmap(&mut self, hint: u64, size: u64) -> (r: u64)
        requires
            old(self).wf(),
            mmap_ok(hint, size),
        ensures
            final(self).wf(),
            mmap_done(*old(self), *final(self), hint, size, r),
    {
        let pid = self.sched.current_pid;
        match self.procs.slot_of(pid) {
            None => SYS_ERROR,
            Some(i) => {
                let ghost before = self.procs;
                let aligned_size = (size + 0xFFF) & !0xFFFu64;
                proof {
                    lemma_align(size);
                }
                let h = if hint != 0 { hint } else { MMAP_DEFAULT_HINT };
                let mut ret: u64 = SYS_ERROR;
                match &mut self.procs.slots[i] {
                    Some(p) => {
                        match p.vmas.find_free_region(h, aligned_size) {
                            Some(addr) => {
                                p.vmas.add(Vma {
                                    start: addr,
                                    end: addr + aligned_size,
                                    flags: rw_anon(),
                                    backing: VmaBacking::Anonymous,
                                });
                                ret = addr;
                            },
                            None => {},
                        }
                    },
                    None => {},
                }
                proof {
                    if ret == SYS_ERROR {
                        assert(self.procs.slots@ =~= before.slots@);
                    }
                }
                ret
            },
        }
    }

    /// `munmap`: forget the running process's area that is exactly the pages
    /// `[addr rounded down, + size rounded up)`, and ask for those pages to be
    /// unmapped. Nothing when no process runs.
    pub fn sys_munmap(&mut self, addr: u64, size: u64) -> (r: SysOutcome)
        requires
            old(self).wf(),
            munmap_ok(addr, size),
        ensures
            final(self).wf(),
            munmap_done(*old(self), *final(self), addr, size, r),
    {
        let pid = self.sched.current_pid;
        match self.procs.slot_of(pid) {
            None => SysOutcome::Return(SYS_ERROR),
            Some(i) => {
                let start = addr & !0xFFFu64;
                let len = (size + 0xFFF) & !0xFFFu64;
                proof {
                    lemma_align(size);
                    assert(addr & !0xFFFu64 == addr - addr % 4096) by (bit_vector);
                }
                let end = start + len;
                match &mut self.procs.slots[i] {
                    Some(p) => {
                        let ghost orig = p.vmas.regions@;
                        let mut rest: Vec<Vma> = Vec::new();
                        std::mem::swap(&mut rest, &mut p.vmas.regions);
                        let mut kept: Vec<Vma> = Vec::new();
                        let ghost n = orig.len() as int;
                        while rest.len() > 0
                            invariant
                                0 <= n - rest@.len() <= n,
                                n == orig.len(),
                                rest@ == orig.subrange(n - rest@.len(), n),
                                kept@ == kept_upto(orig, start as int, end as int, n - rest@.len()),
                            decreases rest@.len(),
                        {
                            let v = rest.remove(0);
                            proof {
                                assert(orig[n - (rest@.len() + 1)] == v);
                                assert(rest@ =~= orig.subrange(n - rest@.len(), n));
                            }
                            if !(v.start == start && v.end == end) {
                                kept.push(v);
                            }
                        }
                        p.vmas.regions = kept;
                    },
                    None => {},
                }
                SysOutcome::Unmap { start, end }
            },
        }
    }

    /// `close` on the running process's descriptor table: 0 when `fd` was
    /// open, `SYS_ERROR` otherwise or when no process runs.
    pub fn sys_close(&mut self, fd: u64) -> (r: u64)
        requires
            old(self).wf(),
        ensures
            final(self).wf(),
            close_done(*old(self), *final(self), fd, r),
    {
        let pid = self.sched.current_pid;
        match self.procs.slot_of(pid) {
            None => SYS_ERROR,
            Some(i) => {
                let mut ret = SYS_ERROR;
                match &mut self.procs.slots[i] {
                    Some(p) => {
                        if p.fd_table.close(fd as usize) {
                            ret = 0;
                        }
                    },
                    None => {},
                }
                ret
            },
        }
    }

    /// `stat`: size of the running process's open file `fd`, or `SYS_ERROR`.
    pub fn sys_stat(&self, fd: u64) -> (r: u64)
        requires
            self.wf(),
        ensures
            stat_answer(*self, fd, r),
    {
        match self.procs.slot_of(self.sched.current_pid) {
            Some(i) => match &self.procs.slots[i] {
                Some(p) => p.fd_table.stat(fd as usize),
                None => SYS_ERROR,
            },
            None => SYS_ERROR,
        }
    }

    /// `waitpid`: reap `child` if it is dead (its slot becomes empty and its
    /// exit code, or 0, is returned); otherwise block the caller until it
    /// exits and reschedule, repeating the call on wake-up. `SYS_ERROR` for an
    /// unknown child.
    pub fn sys_waitpid(&mut self, child: u64, ctx: u64) -> (r: SysOutcome)
        requires
            old(self).wf(),
        ensures
            final(self).wf(),
            waitpid_done(*old(self), *final(self), child, ctx, r),
    {
        let c = child as usize;
        match self.procs.slot_of(c) {
            None => SysOutcome::Return(SYS_ERROR),
            Some(j) => {
                let ghost t0 = self.procs.slots@;
                let mut dead = false;
                let mut code: u64 = 0;
                match &mut self.procs.slots[j] {
                    Some(p) => {
                        if p.state == ProcessState::Dead {
                            dead = true;
                            code = match p.exit_code {
                                Some(e) => e,
                                None => 0,
                            };
                            p.state = ProcessState::Empty;
                        }
                    },
                    None => {},
                }
                if dead {
                    proof {
                        assert(self.procs.slots@ =~= reaped(t0, j as int));
                    }
                    return SysOutcome::Return(code);
                }
                assert(self.procs.slots@ =~= t0);
                let cur = self.sched.current_pid;
                match self.procs.slot_of(cur) {
                    Some(k) => {
                        match &mut self.procs.slots[k] {
                            Some(p) => {
                                p.state = ProcessState::Blocked;
                                p.waiting_for_pid = Some(c);
                            },
                            None => {},
                        }
                        proof {
                            assert(self.procs.slots@ =~= with_waiting(t0, cur, c));
                        }
                    },
                    None => {},
                }
                let to = self.sched.schedule(&mut self.procs, ctx, self.kernel_pml4);
                SysOutcome::Reschedule { to, rewind: true }
            },
        }
    }
}

/// The call numbers that need user memory or hardware.
pub open spec fn is_external(num: u64) -> bool {
    num == SYS_MAP_PHYSICAL || num == SYS_INB || num == SYS_GET_FB_INFO || num == SYS_SHM_CREATE
        || num == SYS_SHM_MAP || num == SYS_SHM_UNMAP || num == SYS_SPAWN || num == SYS_EXECVE
        || num == SYS_OPEN || num == SYS_READ || num == SYS_WRITE_FILE || num == SYS_LISTDIR
        || num == SYS_SHUTDOWN || num == SYS_GET_TIME
}

/// Arguments that keep the call's arithmetic within 64 bits.
pub open spec fn args_ok(k: Kernel, num: u64, a1: u64, a2: u64) -> bool {
    &&& num == SYS_SBRK ==> sbrk_ok(k, a1)
    &&& num == SYS_MMAP ==> mmap_ok(a1, a2)
    &&& num == SYS_MUNMAP ==> munmap_ok(a1, a2)
}

impl Kernel {
    /// `send`: queue a message from the running process to `a1` carrying
    /// type `a2` and payload `a3..a7` (the sixth payload word is 0). Returns 0
    /// on success, 1 when refused.
    pub fn sys_send(&mut self, a1: u64, a2: u64, a3: u64, a4: u64, a5: u64, a6: u64, a7: u64) -> (r: u64)
        requires
            old(self).wf(),
        ensures
            final(self).wf(),
            final(self).sched == old(self).sched,
            final(self).kernel_pml4 == old(self).kernel_pml4,
            sent(
                old(self).ipc.queues@,
                final(self).ipc.queues@,
                old(self).procs,
                final(self).procs,
                a1 as usize,
                Message {
                    sender: old(self).sched.current_pid,
                    msg_type: a2,
                    arg1: a3,
                    arg2: a4,
                    arg3: a5,
                    arg4: a6,
                    arg5: a7,
                    arg6: 0,
                },
                r == 0,
            ),
            r == 0 || r == 1,
    {
        let from = self.sched.current_pid;
        let ok = ipc::send(&mut self.ipc, &mut self.procs, from, a1 as usize, a2, a3, a4, a5, a6, a7, 0);
        if ok { 0 } else { 1 }
    }

    /// `recv`: take the running process's oldest message. With none waiting,
    /// answer `SYS_ERROR` when `a2` is 1 (non-blocking), else block the caller
    /// and reschedule, repeating the call on wake-up.
    pub fn sys_recv(&mut self, a2: u64, ctx: u64) -> (r: SysOutcome)
        requires
            old(self).wf(),
        ensures
            final(self).wf(),
            recv_done(*old(self), *final(self), a2, ctx, r),
    {
        let cur = self.sched.current_pid;
        match ipc::try_receive(&mut self.ipc, cur) {
            Some(m) => SysOutcome::Deliver(m),
            None => {
                if a2 == 1 {
                    SysOutcome::Return(SYS_ERROR)
                } else {
                    self.sched.block_current(&mut self.procs);
                    let to = self.sched.schedule(&mut self.procs, ctx, self.kernel_pml4);
                    SysOutcome::Reschedule { to, rewind: true }
                }
            },
        }
    }

    /// `exit`: the running process dies with `code` (waking any process
    /// waiting for it), and another runs.
    pub fn sys_exit(&mut self, code: u64, ctx: u64) -> (r: SysOutcome)
        requires
            old(self).wf(),
        ensures
            final(self).wf(),
            final(self).ipc == old(self).ipc,
            final(self).kernel_pml4 == old(self).kernel_pml4,
            final(self).procs.next_pid == old(self).procs.next_pid,
            r matches SysOutcome::Reschedule { to, rewind } && !rewind && scheduled(
                old(self).sched,
                exited(old(self).procs.slots@, old(self).sched.current_pid, code),
                ctx,
                old(self).kernel_pml4,
                final(self).sched,
                final(self).procs.slots@,
                to,
            ),
    {
        let cur = self.sched.current_pid;
        self.procs.exit_process(cur, code);
        let to = self.sched.schedule(&mut self.procs, ctx, self.kernel_pml4);
        SysOutcome::Reschedule { to, rewind: false }
    }

    /// `yield`: let the next ready process run.
    pub fn sys_yield(&mut self, ctx: u64) -> (r: SysOutcome)
        requires
            old(self).wf(),
        ensures
            final(self).wf(),
            final(self).ipc == old(self).ipc,
            final(self).kernel_pml4 == old(self).kernel_pml4,
            final(self).procs.next_pid == old(self).procs.next_pid,
            r matches SysOutcome::Reschedule { to, rewind } && !rewind && scheduled(
                old(self).sched,
                old(self).procs.slots@,
                ctx,
                old(self).kernel_pml4,
                final(self).sched,
                final(self).procs.slots@,
                to,
            ),
    {
        let to = self.sched.schedule(&mut self.procs, ctx, self.kernel_pml4);
        SysOutcome::Reschedule { to, rewind: false }
    }

    /// Forward a byte from an input device to its driver `to` as a message
    /// of type `msg_type` (sent on behalf of the interrupted process).
    pub fn forward_input(&mut self, to: Pid, msg_type: u64, byte: u8) -> (r: bool)
        requires
            old(self).wf(),
        ensures
            final(self).wf(),
            final(self).sched == old(self).sched,
            final(self).kernel_pml4 == old(self).kernel_pml4,
            sent(
                old(self).ipc.queues@,
                final(self).ipc.queues@,
                old(self).procs,
                final(self).procs,
                to,
                Message {
                    sender: old(self).sched.current_pid,
                    msg_type,
                    arg1: byte as u64,
                    arg2: 0,
                    arg3: 0,
                    arg4: 0,
                    arg5: 0,
                    arg6: 0,
                },
                r,
            ),
    {
        let from = self.sched.current_pid;
        ipc::send(&mut self.ipc, &mut self.procs, from, to, msg_type, byte as u64, 0, 0, 0, 0, 0)
    }

    /// A page fault from user mode at `addr` in the context saved at `ctx`:
    /// when the address lies in one of the running process's areas and a
    /// frame is free, the lowest free frame is taken and mapped at the
    /// faulting page; otherwise the process dies with code `u64::MAX` and
    /// another runs.
    pub fn page_fault(&mut self, frames: &mut FrameAllocator, addr: u64, ctx: u64) -> (r: PageFaultOutcome)
        requires
            old(self).wf(),
            old(frames).wf(),
        ensures
            final(self).wf(),
            final(frames).wf(),
            final(frames).total() == old(frames).total(),
            final(self).ipc == old(self).ipc,
            final(self).kernel_pml4 == old(self).kernel_pml4,
            match r {
                PageFaultOutcome::MapPage { pml4, page, frame } => {
                    let f = frame as int / PAGE_SIZE as int;
                    &&& fault_in_area(*old(self), addr)
                    &&& pml4 == old(self).procs.slots@[current_slot(*old(self)).unwrap()].unwrap().pml4_phys
                    &&& page == addr & !0xFFFu64
                    &&& frame as int % PAGE_SIZE as int == 0
                    &&& old(frames).free(f)
                    &&& forall|g: int| 0 <= g < f ==> !old(frames).free(g)
                    &&& forall|g: int| #[trigger] final(frames).free(g) == (g != f && old(frames).free(g))
                    &&& final(self).procs == old(self).procs
                    &&& final(self).sched == old(self).sched
                },
                PageFaultOutcome::Kill(to) => {
                    &&& (fault_in_area(*old(self), addr) ==> forall|g: int| !old(frames).free(g))
                    &&& forall|g: int| #[trigger] final(frames).free(g) == old(frames).free(g)
                    &&& scheduled(
                        old(self).sched,
                        exited(old(self).procs.slots@, old(self).sched.current_pid, u64::MAX),
                        ctx,
                        old(self).kernel_pml4,
                        final(self).sched,
                        final(self).procs.slots@,
                        to,
                    )
                },
            },
    {
        let pid = self.sched.current_pid;
        let fault_page = addr & !0xFFFu64;
        let mut mapped: Option<(u64, u64)> = None;
        match self.procs.get_process(pid) {
            Some(p) => {
                if p.vmas.find(addr).is_some() {
                    let pml4 = p.pml4_phys;
                    match frames.allocate() {
                        Some(frame) => {
                            mapped = Some((pml4, frame));
                        },
                        None => {},
                    }
                }
            },
            None => {},
        }
        match mapped {
            Some((pml4, frame)) => PageFaultOutcome::MapPage { pml4, page: fault_page, frame },
            None => {
                self.procs.exit_process(pid, u64::MAX);
                let to = self.sched.schedule(&mut self.procs, ctx, self.kernel_pml4);
                PageFaultOutcome::Kill(to)
            },
        }
    }

    /// `open` for the running process: open `filename` in the ramdisk
    /// `image` (for writing when bit 0 of `flags` is set); the descriptor,
    /// or `SYS_ERROR` when the open fails or no process runs.
    pub fn sys_open(&mut self, image: &[u8], filename: &str, flags: u64) -> (r: u64)
        requires
            old(self).wf(),
            readable(image@),
        ensures
            final(self).wf(),
            final(self).sched == old(self).sched && final(self).ipc == old(self).ipc,
            match current_slot(*old(self)) {
                None => r == SYS_ERROR && same_table(final(self).procs, old(self).procs),
                Some(i) => {
                    let p = old(self).procs.slots@[i]->0;
                    let slot = first_free_fd(p.fd_table.fds@);
                    &&& (r == SYS_ERROR <==> (slot is None || (lookup(
                        image@,
                        encode_utf8(uppercase_of(filename@)),
                    ) is None && flags & 1 == 0)))
                    &&& (r != SYS_ERROR ==> slot == Some(r as int))
                    &&& only_slot_changed(old(self).procs, final(self).procs, i)
                    &&& final(self).procs.slots@[i] matches Some(q) && same_but_files(p, q) && (if r
                        == SYS_ERROR {
                        q.fd_table.fds@ == p.fd_table.fds@
                    } else {
                        &&& r < MAX_FDS
                        &&& q.fd_table.fds@[r as int] matches Some(f) && f.filename@ == filename@
                            && f.offset == 0 && f.writable == (flags & 1 != 0) && f.data@ == (
                        match lookup(image@, encode_utf8(uppercase_of(filename@))) {
                            Some(d) => d,
                            None => Seq::empty(),
                        })
                        &&& forall|j: int| 0 <= j < MAX_FDS && j != r ==> q.fd_table.fds@[j]
                            == p.fd_table.fds@[j]
                    })
                },
            },
    {
        let pid = self.sched.current_pid;
        match self.procs.slot_of(pid) {
            None => SYS_ERROR,
            Some(i) => {
                let mut ret = SYS_ERROR;
                match &mut self.procs.slots[i] {
                    Some(p) => {
                        match p.fd_table.open(image, filename, flags) {
                            Some(fd) => {
                                ret = fd as u64;
                            },
                            None => {},
                        }
                    },
                    None => {},
                }
                ret
            },
        }
    }

    /// `read` for the running process: up to `count` bytes (at most a page)
    /// from descriptor `fd`; the bytes to copy to the caller's buffer, whose
    /// number is the answer (none when no process runs).
    pub fn sys_read(&mut self, fd: u64, count: u64) -> (r: Vec<u8>)
        requires
            old(self).wf(),
        ensures
            final(self).wf(),
            final(self).sched == old(self).sched && final(self).ipc == old(self).ipc,
            match current_slot(*old(self)) {
                None => r@.len() == 0 && same_table(final(self).procs, old(self).procs),
                Some(i) => {
                    let p = old(self).procs.slots@[i]->0;
                    let n = min(count as usize as int, 4096);
                    &&& only_slot_changed(old(self).procs, final(self).procs, i)
                    &&& final(self).procs.slots@[i] matches Some(q) && same_but_files(p, q) && (if (fd
                        as usize) < MAX_FDS && p.fd_table.fds@[fd as usize as int] is Some {
                        let f = p.fd_table.fds@[fd as usize as int]->0;
                        let k = min(n, remaining(f));
                        &&& r@.len() == k
                        &&& forall|j: int| 0 <= j < k ==> r@[j] == f.data@[f.offset + j]
                        &&& q.fd_table.fds@ == p.fd_table.fds@.update(
                            fd as usize as int,
                            q.fd_table.fds@[fd as usize as int],
                        )
                        &&& q.fd_table.fds@[fd as usize as int] matches Some(g) && g.offset
                            == f.offset + k && g.data@ == f.data@ && g.filename == f.filename
                            && g.writable == f.writable
                    } else {
                        r@.len() == 0 && q.fd_table.fds@ == p.fd_table.fds@
                    })
                },
            },
    {
        let pid = self.sched.current_pid;
        let n: usize = if (count as usize) < 4096 { count as usize } else { 4096 };
        let mut buf: Vec<u8> = vec![0u8; n];
        match self.procs.slot_of(pid) {
            None => {
                buf.truncate(0);
                buf
            },
            Some(i) => {
                let mut got: usize = 0;
                let ghost t0 = self.procs.slots@[i as int]->0.fd_table.fds@;
                match &mut self.procs.slots[i] {
                    Some(p) => {
                        got = p.fd_table.read(fd as usize, buf.as_mut_slice(), n);
                        proof {
                            if (fd as usize) < MAX_FDS && t0[fd as usize as int] is Some {
                                let f = t0[fd as usize as int]->0;
                                assert(forall|j: int| 0 <= j < got ==> buf@[j] == f.data@[f.offset + j]);
                                assert(p.fd_table.fds@ =~= t0.update(
                                    fd as usize as int,
                                    p.fd_table.fds@[fd as usize as int],
                                ));
                            }
                        }
                    },
                    None => {},
                }
                let ghost full = buf@;
                buf.truncate(got);
                proof {
                    assert(buf@ =~= full.subrange(0, got as int));
                    if (fd as usize) < MAX_FDS && t0[fd as usize as int] is Some {
                        let f = t0[fd as usize as int]->0;
                        assert(got <= n);
                        assert(forall|j: int| 0 <= j < got ==> full[j] == f.data@[f.offset + j]);

                    }
                }
                buf
            },
        }
    }

    /// `write_file` for the running process: write `data` (the caller's
    /// bytes, at most a page) to descriptor `fd`; the number of bytes
    /// written (0 when no process runs).
    pub fn sys_write_file(&mut self, fd: u64, data: &[u8]) -> (r: u64)
        requires
            old(self).wf(),
            match current_slot(*old(self)) {
                Some(i) => {
                    let t = old(self).procs.slots@[i]->0.fd_table;
                    (fd as usize) < MAX_FDS && t.fds@[fd as usize as int] is Some && (t.fds@[fd
                        as usize as int]->0).writable ==> (t.fds@[fd as usize as int]->0).offset
                        + data@.len() <= usize::MAX
                },
                None => true,
            },
        ensures
            final(self).wf(),
            final(self).sched == old(self).sched && final(self).ipc == old(self).ipc,
            match current_slot(*old(self)) {
                None => r == 0 && same_table(final(self).procs, old(self).procs),
                Some(i) => {
                    let p = old(self).procs.slots@[i]->0;
                    &&& only_slot_changed(old(self).procs, final(self).procs, i)
                    &&& final(self).procs.slots@[i] matches Some(q) && same_but_files(p, q) && (if (fd
                        as usize) < MAX_FDS && p.fd_table.fds@[fd as usize as int] is Some && (
                    p.fd_table.fds@[fd as usize as int]->0).writable {
                        let f = p.fd_table.fds@[fd as usize as int]->0;
                        &&& r == data@.len()
                        &&& q.fd_table.fds@[fd as usize as int] matches Some(g) && g.offset
                            == f.offset + data@.len() && g.data@ == written(
                            f.data@,
                            f.offset as int,
                            data@,
                        ) && g.filename == f.filename && g.writable
                        &&& forall|j: int| 0 <= j < MAX_FDS && j != fd as usize as int ==> q.fd_table.fds@[j]
                            == p.fd_table.fds@[j]
                    } else {
                        r == 0 && q.fd_table.fds@ == p.fd_table.fds@
                    })
                },
            },
    {
        let pid = self.sched.current_pid;
        match self.procs.slot_of(pid) {
            None => 0,
            Some(i) => {
                let mut ret: u64 = 0;
                match &mut self.procs.slots[i] {
                    Some(p) => {
                        let n = p.fd_table.write(fd as usize, data, data.len());
                        proof {
                            assert(data@.subrange(0, data@.len() as int) =~= data@);
                        }
                        ret = n as u64;
                    },
                    None => {},
                }
                ret
            },
        }
    }

    /// `shm_create` for the running process: a shared region of `size`
    /// bytes owned by it, its frames the lowest free ones; its id, or
    /// `SYS_ERROR` when the frames run out or the table is full (see
    /// `created`).
    pub fn sys_shm_create(&mut self, shm: &mut ShmTable, frames: &mut FrameAllocator, size: u64) -> (r: u64)
        requires
            old(self).wf(),
            old(frames).wf(),
            (size as usize) + PAGE_SIZE <= usize::MAX,
            old(shm).next_id < u32::MAX,
        ensures
            *final(self) == *old(self),
            final(frames).wf(),
            final(frames).total() == old(frames).total(),
            r != SYS_ERROR ==> r < u32::MAX,
            crate::shm::created(
                *old(shm),
                *final(shm),
                *old(frames),
                *final(frames),
                size as usize,
                old(self).sched.current_pid,
                if r == SYS_ERROR {
                    None
                } else {
                    Some(r as u32)
                },
            ),
    {
        let pid = self.sched.current_pid;
        match shm.create(frames, size as usize, pid) {
            Some(id) => id as u64,
            None => SYS_ERROR,
        }
    }

    /// `shm_map` for the running process: map region `id` at `virt` in its
    /// page table. The answer (0, or `SYS_ERROR`), the page table, and the
    /// pages to map.
    pub fn sys_shm_map(&mut self, shm: &mut ShmTable, id: u64, virt: u64) -> (r: (u64, u64, Vec<(u64, u64)>))
        requires
            old(self).wf(),
            forall|k: int| 0 <= k < old(shm).regions@.len() && old(shm).regions@[k].id == id as u32
                ==> crate::shm::fits_at(#[trigger] old(shm).regions@[k], virt)
                && old(shm).regions@[k].ref_count < usize::MAX,
        ensures
            *final(self) == *old(self),
            match current_slot(*old(self)) {
                None => r.0 == SYS_ERROR && r.2@.len() == 0 && final(shm).regions@ == old(shm).regions@,
                Some(i) => {
                    let k = region_index(old(shm).regions@, id as u32, 0);
                    &&& r.1 == old(self).procs.slots@[i]->0.pml4_phys
                    &&& if k < 0 {
                        r.0 == SYS_ERROR && r.2@.len() == 0 && final(shm).regions@ == old(shm).regions@
                    } else {
                        let reg = old(shm).regions@[k];
                        &&& r.0 == 0
                        &&& r.2@.len() == reg.frames@.len()
                        &&& forall|j: int| 0 <= j < r.2@.len() ==> #[trigger] r.2@[j] == (
                            (page_base(virt) + j * PAGE_SIZE) as u64,
                            reg.frames@[j],
                        )
                        &&& final(shm).regions@[k].ref_count == reg.ref_count + 1
                    }
                },
            },
    {
        let pid = self.sched.current_pid;
        match self.procs.get_process(pid) {
            None => (SYS_ERROR, 0, Vec::new()),
            Some(p) => {
                let pml4 = p.pml4_phys;
                match shm.map(id as u32, virt) {
                    Ok(m) => (m.answer as u64, pml4, m.pages),
                    Err(_) => (SYS_ERROR, pml4, Vec::new()),
                }
            },
        }
    }

    /// `shm_unmap` for the running process: the answer (0 or `SYS_ERROR`)
    /// and the pages to unmap.
    pub fn sys_shm_unmap(&mut self, shm: &mut ShmTable, id: u64, virt: u64) -> (r: (u64, Vec<u64>))
        requires
            old(self).wf(),
            forall|k: int| 0 <= k < old(shm).regions@.len() && old(shm).regions@[k].id == id as u32
                ==> crate::shm::fits_at(#[trigger] old(shm).regions@[k], virt),
        ensures
            *final(self) == *old(self),
            match current_slot(*old(self)) {
                None => r.0 == SYS_ERROR && r.1@.len() == 0 && final(shm).regions@ == old(shm).regions@,
                Some(i) => {
                    let k = region_index(old(shm).regions@, id as u32, 0);
                    if k < 0 {
                        r.0 == SYS_ERROR && r.1@.len() == 0 && final(shm).regions@ == old(shm).regions@
                    } else {
                        &&& r.0 == 0
                        &&& r.1@.len() == old(shm).regions@[k].frames@.len()
                        &&& forall|j: int| 0 <= j < r.1@.len() ==> #[trigger] r.1@[j] == (page_base(virt)
                            + j * PAGE_SIZE) as u64
                    }
                },
            },
    {
        let pid = self.sched.current_pid;
        match self.procs.get_process(pid) {
            None => (SYS_ERROR, Vec::new()),
            Some(_) => match shm.unmap(id as u32, virt) {
                Ok(pages) => (0, pages),
                Err(_) => (SYS_ERROR, Vec::new()),
            },
        }
    }

    /// Dispatch system call `num` with arguments `a1..a7` (from rdi, rsi,
    /// rdx, r10, r8, r9, r11) made from the interrupted context `ctx`. Calls
    /// that need user memory or hardware are answered `External`; unknown
    /// numbers get `SYS_ERROR`.
    pub fn handle(
        &mut self,
        num: u64,
        a1: u64,
        a2: u64,
        a3: u64,
        a4: u64,
        a5: u64,
        a6: u64,
        a7: u64,
        ctx: u64,
    ) -> (r: SysOutcome)
        requires
            old(self).wf(),
            args_ok(*old(self), num, a1, a2),
        ensures
            final(self).wf(),
            num == SYS_GETPID ==> r == SysOutcome::Return(old(self).sched.current_pid as u64)
                && same_table(final(self).procs, old(self).procs) && final(self).sched == old(
                self,
            ).sched && final(self).ipc == old(self).ipc,
            num == SYS_SEND ==> sent(
                old(self).ipc.queues@,
                final(self).ipc.queues@,
                old(self).procs,
                final(self).procs,
                a1 as usize,
                Message {
                    sender: old(self).sched.current_pid,
                    msg_type: a2,
                    arg1: a3,
                    arg2: a4,
                    arg3: a5,
                    arg4: a6,
                    arg5: a7,
                    arg6: 0,
                },
                r == SysOutcome::Return(0),
            ) && (r == SysOutcome::Return(0) || r == SysOutcome::Return(1)),
            num == SYS_EXIT ==> (r matches SysOutcome::Reschedule { to, rewind } && !rewind
                && scheduled(
                old(self).sched,
                exited(old(self).procs.slots@, old(self).sched.current_pid, a1),
                ctx,
                old(self).kernel_pml4,
                final(self).sched,
                final(self).procs.slots@,
                to,
            )),
            num == SYS_YIELD ==> (r matches SysOutcome::Reschedule { to, rewind } && !rewind
                && scheduled(
                old(self).sched,
                old(self).procs.slots@,
                ctx,
                old(self).kernel_pml4,
                final(self).sched,
                final(self).procs.slots@,
                to,
            )),
            num == SYS_RECV ==> recv_done(*old(self), *final(self), a2, ctx, r),
            num == SYS_SBRK ==> (r matches SysOutcome::Return(v) && sbrk_done(
                *old(self),
                *final(self),
                a1,
                v,
            )),
            num == SYS_MMAP ==> (r matches SysOutcome::Return(v) && mmap_done(
                *old(self),
                *final(self),
                a1,
                a2,
                v,
            )),
            num == SYS_MUNMAP ==> munmap_done(*old(self), *final(self), a1, a2, r),
            num == SYS_WAITPID ==> waitpid_done(*old(self), *final(self), a1, ctx, r),
            num == SYS_CLOSE ==> (r matches SysOutcome::Return(v) && close_done(
                *old(self),
                *final(self),
                a1,
                v,
            )),
            num == SYS_STAT ==> (r matches SysOutcome::Return(v) && stat_answer(*old(self), a1, v)
                && same_table(final(self).procs, old(self).procs) && final(self).sched == old(
                self,
            ).sched && final(self).ipc == old(self).ipc),
            is_external(num) ==> r == SysOutcome::External && same_table(
                final(self).procs,
                old(self).procs,
            ) && final(self).sched == old(self).sched && final(self).ipc == old(self).ipc,
            (num == 0 || num > SYS_GET_TIME) ==> r == SysOutcome::Return(SYS_ERROR) && same_table(
                final(self).procs,
                old(self).procs,
            ) && final(self).sched == old(self).sched && final(self).ipc == old(self).ipc,
    {
        if num == SYS_SEND {
            SysOutcome::Return(self.sys_send(a1, a2, a3, a4, a5, a6, a7))
        } else if num == SYS_RECV {
            self.sys_recv(a2, ctx)
        } else if num == SYS_EXIT {
            self.sys_exit(a1, ctx)
        } else if num == SYS_YIELD {
            self.sys_yield(ctx)
        } else if num == SYS_GETPID {
            SysOutcome::Return(self.sched.current_pid as u64)
        } else if num == SYS_SBRK {
            SysOutcome::Return(self.sys_sbrk(a1))
        } else if num == SYS_MMAP {
            SysOutcome::Return(self.sys_mmap(a1, a2))
        } else if num == SYS_MUNMAP {
            self.sys_munmap(a1, a2)
        } else if num == SYS_WAITPID {
            self.sys_waitpid(a1, ctx)
        } else if num == SYS_CLOSE {
            SysOutcome::Return(self.sys_close(a1))
        } else if num == SYS_STAT {
            SysOutcome::Return(self.sys_stat(a1))
        } else if num == 0 || num > SYS_GET_TIME {
            SysOutcome::Return(SYS_ERROR)
        } else {
            SysOutcome::External
        }
    }
}

/// `sbrk` answers the old break: after growing the heap by `inc`, the next
/// `sbrk` answers the first answer plus `inc`.
pub proof fn sbrk_moves_break(k0: Kernel, k1: Kernel, k2: Kernel, inc: u64, inc2: u64, r1: u64, r2: u64)
    requires
        k0.procs.wf(),
        current_slot(k0) is Some,
        positive_signed(inc),
        sbrk_done(k0, k1, inc, r1),
        sbrk_done(k1, k2, inc2, r2),
    ensures
        r2 == r1 + inc,
{
    let cur = k0.sched.current_pid;
    let i = current_slot(k0).unwrap();
    lemma_find_from(k0.procs.slots@, cur, 0);
    lemma_find_from(k1.procs.slots@, cur, 0);
    assert(holds_pid(k1.procs.slots@, i, cur));
    assert forall|j: int| 0 <= j < i implies !holds_pid(k1.procs.slots@, j, cur) by {
        assert(!holds_pid(k0.procs.slots@, j, cur));
        assert(k1.procs.slots@[j] == k0.procs.slots@[j]);
    }
    assert(current_slot(k1) == Some(i));
}

fn push_decimal(out: &mut Vec<u8>, n: u32)
    ensures
        final(out)@ == old(out)@ + decimal(n as nat),
    decreases n,
{
    if n >= 10 {
        push_decimal(out, n / 10);
    }
    out.push(48u8 + (n % 10) as u8);
    proof {
        if n < 10 {
            assert(decimal(n as nat) =~= seq![(48 + n) as u8]);
        }
    }
}

/// What `listdir` copies to the caller's buffer of `buf_size` bytes: the
/// listing of the ramdisk `image`, one `name size` line per file, cut to
/// the buffer's size.
pub fn listdir_text(image: &[u8], buf_size: u64) -> (r: Vec<u8>)
    ensures
        r@ == listing_text(list_of(image@)).subrange(
            0,
            min(listing_text(list_of(image@)).len() as int, buf_size as usize as int),
        ),
{
    let files = fat32::list_files(image);
    let ghost l = list_of(image@);
    let mut out: Vec<u8> = Vec::new();
    let mut k: usize = 0;
    while k < files.len()
        invariant
            k <= files@.len(),
            files@.len() == l.len(),
            forall|j: int| 0 <= j < files@.len() ==> (#[trigger] files@[j]).0@ == l[j].0 && files@[j].1 == l[j].1,
            out@ == listing_text(l.subrange(0, k as int)),
        decreases files@.len() - k,
    {
        let name = &files[k].0;
        let mut j: usize = 0;
        let ghost before = out@;
        while j < name.len()
            invariant
                j <= name@.len(),
                out@ == before + name@.subrange(0, j as int),
            decreases name@.len() - j,
        {
            out.push(name[j]);
            proof {
                assert(name@.subrange(0, j + 1) =~= name@.subrange(0, j as int).push(name@[j as int]));
                assert(before + name@.subrange(0, j + 1) =~= (before + name@.subrange(0, j as int)).push(name@[j as int]));
            }
            j = j + 1;
        }
        out.push(32u8);
        let ghost mid = out@;
        push_decimal(&mut out, files[k].1);
        out.push(10u8);
        proof {
            let lk = l.subrange(0, k + 1);
            assert(lk.drop_last() =~= l.subrange(0, k as int));
            assert(name@.subrange(0, name@.len() as int) =~= name@);
            assert(out@ =~= listing_text(l.subrange(0, k as int)) + l[k as int].0.push(32u8) + decimal(l[k as int].1 as nat).push(10u8));
        }
        k = k + 1;
    }
    proof {
        assert(l.subrange(0, files@.len() as int) =~= l);
    }
    let limit: usize = if out.len() < buf_size as usize { out.len() } else { buf_size as usize };
    let ghost full = out@;
    out.truncate(limit);
    proof {
        assert(out@ =~= full.subrange(0, limit as int));
    }
    out
}

/// The (virtual, physical) page pairs `map_physical` maps for the request
/// `virt`, `phys`, `size`.
pub fn map_physical_pages(virt: u64, phys: u64, size: u64) -> (r: Vec<(u64, u64)>)
    requires
        virt + size + 0xFFF <= u64::MAX,
        (phys / 4096) * 4096 + page_align_up(virt + size) - (virt / 4096) * 4096 <= u64::MAX,
    ensures
        r@ == physical_pages(virt, phys, size),
{
    let start_virt = virt & !0xFFFu64;
    let start_phys = phys & !0xFFFu64;
    let end_virt = (virt + size + 0xFFF) & !0xFFFu64;
    proof {
        lemma_align(virt);
        lemma_align((virt + size) as u64);
    }
    assert(phys & !0xFFFu64 == phys - phys % 4096) by (bit_vector);
    let ghost want = physical_pages(virt, phys, size);
    let mut out: Vec<(u64, u64)> = Vec::new();
    let mut v = start_virt;
    let mut p = start_phys;
    let ghost mut k: int = 0;
    while v < end_virt
        invariant
            start_virt <= v,
            v == start_virt + k * 4096,
            p == start_phys + k * 4096,
            start_virt as int == (virt / 4096) * 4096,
            start_phys as int == (phys / 4096) * 4096,
            end_virt as int == page_align_up(virt + size),
            start_virt % 4096 == 0,
            end_virt % 4096 == 0,
            v <= end_virt,
            start_phys + (end_virt - start_virt) <= u64::MAX,
            want == physical_pages(virt, phys, size),
            out@.len() == k,
            forall|j: int| 0 <= j < k ==> #[trigger] out@[j] == want[j],
        decreases end_virt - v,
    {
        out.push((v, p));
        v = v + 0x1000;
        p = p + 0x1000;
        proof {
            k = k + 1;
        }
    }
    assert(out@ =~= want);
    out
}

} // verus!
