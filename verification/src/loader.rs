//! The layout of new processes: the memory areas of a loaded ELF image, the
//! bytes to copy into each page, and the initial register frames.

use vstd::prelude::*;
use crate::elf::Elf64_Phdr;
use crate::process::{
    Context, INTERRUPT_CONTEXT_SIZE, InterruptContext, KERNEL_STACK_SIZE, MAX_PROCESSES, Pid,
    Process, ProcessState, ProcessTable,
};
use crate::frame::{FrameAllocator, allocated};
use crate::vfs::FdTable;
use crate::vma::{Vma, VmaBacking, VmaFlags, VmaList, page_align_up, VMA_EXEC, VMA_READ, VMA_USER, VMA_WRITE};

verus! {

/// Top (exclusive) of every user stack.
pub const USER_STACK_TOP: u64 = 0x0000_7FFF_FFFF_0000;
/// Size of the user stack area (256 KiB, demand-paged).
pub const USER_STACK_SIZE: u64 = 262144;
/// Pages of the user stack mapped eagerly, counted down from the top.
pub const USER_STACK_EAGER_PAGES: u64 = 2;

/// Kernel code segment selector.
pub const KERNEL_CODE_SEL: u64 = 0x08;
/// Kernel data segment selector.
pub const KERNEL_DATA_SEL: u64 = 0x10;
/// User data segment selector with RPL 3.
pub const USER_DATA_SEL_RPL3: u64 = 0x1B;
/// User code segment selector with RPL 3.
pub const USER_CODE_SEL_RPL3: u64 = 0x23;
/// RFLAGS for a new task: interrupts enabled.
pub const INITIAL_RFLAGS: u64 = 0x202;

/// Round down to a page boundary.
pub open spec fn page_floor(x: int) -> int {
    (x / 4096) * 4096
}

/// VMA flag bits of a segment: user and read always, write for `PF_W` (2),
/// execute for `PF_X` (1).
pub open spec fn segment_flag_bits(p_flags: u32) -> u64 {
    (VMA_USER + VMA_READ + (if p_flags & 2 != 0 { VMA_WRITE } else { 0 }) + (if p_flags & 1 != 0 {
        VMA_EXEC
    } else {
        0
    })) as u64
}

/// A segment whose page range and file range stay within 64 bits.
pub open spec fn segment_ok(p: Elf64_Phdr) -> bool {
    p.p_vaddr + p.p_memsz + 4095 <= u64::MAX && p.p_vaddr + p.p_filesz <= u64::MAX && p.p_offset
        + p.p_filesz <= u64::MAX
}

/// The memory area a segment occupies: its pages, anonymous (filled eagerly).
pub open spec fn segment_vma(p: Elf64_Phdr) -> Vma {
    Vma {
        start: page_floor(p.p_vaddr as int) as u64,
        end: page_align_up(p.p_vaddr + p.p_memsz) as u64,
        flags: VmaFlags(segment_flag_bits(p.p_flags)),
        backing: VmaBacking::Anonymous,
    }
}

/// The demand-paged user stack area.
pub open spec fn stack_vma() -> Vma {
    Vma {
        start: (USER_STACK_TOP - USER_STACK_SIZE) as u64,
        end: USER_STACK_TOP,
        flags: VmaFlags((VMA_USER + VMA_READ + VMA_WRITE) as u64),
        backing: VmaBacking::Anonymous,
    }
}

/// Highest segment end among the first `n` segments (0 when none).
pub open spec fn max_end_upto(segs: Seq<Elf64_Phdr>, n: int) -> int
    decreases n,
{
    if n <= 0 {
        0
    } else {
        let e = page_align_up(segs[n - 1].p_vaddr + segs[n - 1].p_memsz);
        let m = max_end_upto(segs, n - 1);
        if e > m { e } else { m }
    }
}

/// Flag set for a segment's `p_flags`.
pub fn segment_flags(p_flags: u32) -> (r: VmaFlags)
    ensures
        r.0 == segment_flag_bits(p_flags),
{
    let mut flags = VmaFlags(VMA_USER).union(VmaFlags(VMA_READ));
    assert(8u64 | 1u64 == 9u64) by (bit_vector);
    if p_flags & 0x2 != 0 {
        assert(9u64 | 2u64 == 11u64) by (bit_vector);
        flags = flags.union(VmaFlags(VMA_WRITE));
    }
    if p_flags & 0x1 != 0 {
        assert(9u64 | 4u64 == 13u64) by (bit_vector);
        assert(11u64 | 4u64 == 15u64) by (bit_vector);
        flags = flags.union(VmaFlags(VMA_EXEC));
    }
    flags
}

proof fn lemma_page_masks(x: u64)
    ensures
        (x & !0xFFFu64) as int == page_floor(x as int),
        x <= u64::MAX - 4095 ==> (((x + 4095) as u64) & !0xFFFu64) as int == page_align_up(x as int),
{
    assert(x & !0xFFFu64 == x - x % 4096) by (bit_vector);
    if x <= u64::MAX - 4095 {
        let y = (x + 4095) as u64;
        assert(y & !0xFFFu64 == y - y % 4096) by (bit_vector);
    }
}

/// The memory area of a loadable segment.
pub fn segment_vma_of(p: &Elf64_Phdr) -> (r: Vma)
    requires
        segment_ok(*p),
    ensures
        r == segment_vma(*p),
{
    let start_page = p.p_vaddr & !0xFFFu64;
    let end_page = (p.p_vaddr + p.p_memsz + 0xFFF) & !0xFFFu64;
    proof {
        lemma_page_masks(p.p_vaddr);
        lemma_page_masks((p.p_vaddr + p.p_memsz) as u64);
    }
    Vma { start: start_page, end: end_page, flags: segment_flags(p.p_flags), backing: VmaBacking::Anonymous }
}

/// The address-space layout of a loaded image.
pub struct ImagePlan {
    /// One area per segment, in order, then the user stack.
    pub vmas: VmaList,
    /// Initial program break: page-aligned end of the highest segment.
    pub heap_break: u64,
}

/// Lay out the address space for the loadable segments `segs`.
pub fn plan_image(segs: &[Elf64_Phdr]) -> (r: ImagePlan)
    requires
        forall|k: int| 0 <= k < segs@.len() ==> segment_ok(#[trigger] segs@[k]),
    ensures
        r.vmas.regions@.len() == segs@.len() + 1,
        forall|k: int| 0 <= k < segs@.len() ==> #[trigger] r.vmas.regions@[k] == segment_vma(segs@[k]),
        r.vmas.regions@[segs@.len() as int] == stack_vma(),
        r.heap_break == page_align_up(max_end_upto(segs@, segs@.len() as int)),
{
    let mut vmas = VmaList::new();
    let mut max_vaddr: u64 = 0;
    let mut k: usize = 0;
    while k < segs.len()
        invariant
            k <= segs@.len(),
            forall|j: int| 0 <= j < segs@.len() ==> segment_ok(#[trigger] segs@[j]),
            vmas.regions@.len() == k,
            forall|j: int| 0 <= j < k ==> #[trigger] vmas.regions@[j] == segment_vma(segs@[j]),
            max_vaddr == max_end_upto(segs@, k as int),
            max_vaddr % 4096 == 0,
        decreases segs@.len() - k,
    {
        let v = segment_vma_of(&segs[k]);
        if v.end > max_vaddr {
            max_vaddr = v.end;
        }
        vmas.add(v);
        k = k + 1;
    }
    let stack = Vma {
        start: USER_STACK_TOP - USER_STACK_SIZE,
        end: USER_STACK_TOP,
        flags: VmaFlags(VMA_USER).union(VmaFlags(VMA_READ)).union(VmaFlags(VMA_WRITE)),
        backing: VmaBacking::Anonymous,
    };
    assert(8u64 | 1u64 == 9u64) by (bit_vector);
    assert(9u64 | 2u64 == 11u64) by (bit_vector);
    vmas.add(stack);
    proof {
        lemma_page_masks(max_vaddr);
    }
    let heap_break = (max_vaddr + 0xFFF) & !0xFFFu64;
    ImagePlan { vmas, heap_break }
}

/// One copy from the ELF file into a page.
#[derive(Debug, Clone, Copy, PartialEq, Eq, Structural)]
pub struct PageCopy {
    /// Offset in the ELF file.
    pub src_offset: u64,
    /// Offset within the page.
    pub dst_offset: u64,
    /// Number of bytes.
    pub len: u64,
}

/// The part of a segment's file bytes that falls in the page at `page`: from
/// the later of the segment start and the page start, to the earlier of the
/// end of the file bytes and the page end; `None` when that is empty.
pub fn page_copy(p: &Elf64_Phdr, page: u64) -> (r: Option<PageCopy>)
    requires
        segment_ok(*p),
        page + 4096 <= u64::MAX,
        page >= page_floor(p.p_vaddr as int),
    ensures
        ({
            let start = if p.p_vaddr > page { p.p_vaddr as int } else { page as int };
            let end = if p.p_vaddr + p.p_filesz < page + 4096 {
                p.p_vaddr + p.p_filesz
            } else {
                page + 4096
            };
            if start < end {
                r == Some(
                    PageCopy {
                        src_offset: (p.p_offset + (start - p.p_vaddr)) as u64,
                        dst_offset: (start - page) as u64,
                        len: (end - start) as u64,
                    },
                )
            } else {
                r is None
            }
        }),
{
    let start = if p.p_vaddr > page { p.p_vaddr } else { page };
    let file_end = p.p_vaddr + p.p_filesz;
    let end_data = if file_end < page + 4096 { file_end } else { page + 4096 };
    if start < end_data {
        Some(PageCopy { src_offset: p.p_offset + (start - p.p_vaddr), dst_offset: start - page, len: end_data - start })
    } else {
        None
    }
}

/// Where a kernel stack's top and its initial interrupt frame go, given the
/// stack's base address: the top is the 16-byte-aligned end, and the frame
/// sits just below it.
pub fn stack_layout(stack_base: u64) -> (r: (u64, u64))
    requires
        stack_base + KERNEL_STACK_SIZE <= u64::MAX,
        stack_base >= INTERRUPT_CONTEXT_SIZE,
    ensures
        r.0 == ((stack_base + KERNEL_STACK_SIZE) / 16) * 16,
        r.1 == r.0 - INTERRUPT_CONTEXT_SIZE,
{
    let top = (stack_base + KERNEL_STACK_SIZE as u64) & !0xFu64;
    let t = (stack_base + KERNEL_STACK_SIZE as u64) as u64;
    assert(t & !0xFu64 == t - t % 16) by (bit_vector);
    (top, top - INTERRUPT_CONTEXT_SIZE)
}

/// An interrupt frame with every register zero.
pub open spec fn zero_frame() -> InterruptContext {
    InterruptContext {
        ds: 0, es: 0, r15: 0, r14: 0, r13: 0, r12: 0, r11: 0, r10: 0, r9: 0, r8: 0, rdi: 0,
        rsi: 0, rbp: 0, rbx: 0, rdx: 0, rcx: 0, rax: 0, int_num: 0, error_code: 0, rip: 0,
        cs: 0, rflags: 0, rsp: 0, ss: 0,
    }
}

fn zeroed_frame() -> (r: InterruptContext)
    ensures
        r == zero_frame(),
{
    InterruptContext {
        ds: 0, es: 0, r15: 0, r14: 0, r13: 0, r12: 0, r11: 0, r10: 0, r9: 0, r8: 0, rdi: 0,
        rsi: 0, rbp: 0, rbx: 0, rdx: 0, rcx: 0, rax: 0, int_num: 0, error_code: 0, rip: 0,
        cs: 0, rflags: 0, rsp: 0, ss: 0,
    }
}

/// The first frame of a ring-3 process: user segments, the user stack, and
/// the entry point.
pub fn user_context(entry: u64) -> (r: InterruptContext)
    ensures
        r == (InterruptContext {
            ds: USER_DATA_SEL_RPL3,
            es: USER_DATA_SEL_RPL3,
            ss: USER_DATA_SEL_RPL3,
            rsp: USER_STACK_TOP,
            rflags: INITIAL_RFLAGS,
            cs: USER_CODE_SEL_RPL3,
            rip: entry,
            ..zero_frame()
        }),
{
    let mut c = zeroed_frame();
    c.ds = USER_DATA_SEL_RPL3;
    c.es = USER_DATA_SEL_RPL3;
    c.ss = USER_DATA_SEL_RPL3;
    c.rsp = USER_STACK_TOP;
    c.rflags = INITIAL_RFLAGS;
    c.cs = USER_CODE_SEL_RPL3;
    c.rip = entry;
    c
}

/// Kernel segments, interrupts on, the stack at `stack_top`, resuming at
/// `trampoline` with the entry in r12.
pub open spec fn kernel_frame(trampoline: u64, entry: u64, stack_top: u64) -> InterruptContext {
    InterruptContext {
        ds: KERNEL_DATA_SEL,
        es: KERNEL_DATA_SEL,
        ss: KERNEL_DATA_SEL,
        rsp: stack_top,
        rflags: INITIAL_RFLAGS,
        cs: KERNEL_CODE_SEL,
        rip: trampoline,
        r12: entry,
        ..zero_frame()
    }
}

/// The first frame of a kernel task: kernel segments, its own stack, the
/// trampoline as entry, and the task function in r12 for the trampoline.
pub fn kernel_task_context(trampoline: u64, entry: u64, stack_top: u64) -> (r: InterruptContext)
    ensures
        r == kernel_frame(trampoline, entry, stack_top),
{
    let mut c = zeroed_frame();
    c.ds = KERNEL_DATA_SEL;
    c.es = KERNEL_DATA_SEL;
    c.ss = KERNEL_DATA_SEL;
    c.rsp = stack_top;
    c.rflags = INITIAL_RFLAGS;
    c.cs = KERNEL_CODE_SEL;
    c.rip = trampoline;
    c.r12 = entry;
    c
}

/// A new ready process with the given identity, address space and layout,
/// no open files, and no exit code.
pub fn new_process(
    pid: Pid,
    name: &'static str,
    context_rsp: u64,
    pml4_phys: u64,
    kernel_stack_top: u64,
    vmas: VmaList,
    heap_break: u64,
    parent_pid: Pid,
) -> (r: Process)
    ensures
        r.pid == pid,
        r.state == ProcessState::Ready,
        r.context.rsp == context_rsp,
        r.name == name,
        r.pml4_phys == pml4_phys,
        r.kernel_stack_top == kernel_stack_top,
        r.vmas == vmas,
        r.heap_break == heap_break,
        r.parent_pid == parent_pid,
        r.exit_code is None,
        r.waiting_for_pid is None,
        r.fd_table.wf(),
        forall|i: int| 0 <= i < crate::vfs::MAX_FDS ==> (#[trigger] r.fd_table.fds@[i]) is None,
{
    Process {
        pid,
        state: ProcessState::Ready,
        context: Context { rsp: context_rsp },
        name,
        pml4_phys,
        kernel_stack_top,
        vmas,
        heap_break,
        parent_pid,
        exit_code: None,
        waiting_for_pid: None,
        fd_table: FdTable::new(),
    }
}

/// The kernel task `spawn` puts in the table: ready, with its saved frame
/// at `frame` on its kernel stack whose top is `top`, in the kernel's
/// address space, with no areas, no parent and no open files.
pub open spec fn kernel_task(p: Process, pid: Pid, name: &'static str, frame: u64, top: u64) -> bool {
    &&& p.pid == pid
    &&& p.state == ProcessState::Ready
    &&& p.context.rsp == frame
    &&& p.name == name
    &&& p.pml4_phys == 0
    &&& p.kernel_stack_top == top
    &&& p.vmas.regions@.len() == 0
    &&& p.heap_break == 0
    &&& p.parent_pid == 0
    &&& p.exit_code is None
    &&& p.waiting_for_pid is None
    &&& forall|i: int| 0 <= i < crate::vfs::MAX_FDS ==> (#[trigger] p.fd_table.fds@[i]) is None
}

/// Start a kernel task running `entry` through `trampoline`, on the kernel
/// stack at `stack_base`: take the next PID, lay out the stack, and put the
/// task in the first free slot. The caller writes the returned frame at the
/// returned address. The table must have a free slot.
pub fn spawn(
    procs: &mut ProcessTable,
    name: &'static str,
    trampoline: u64,
    entry: u64,
    stack_base: u64,
) -> (r: (Pid, u64, InterruptContext))
    requires
        old(procs).wf(),
        old(procs).next_pid < usize::MAX,
        stack_base + KERNEL_STACK_SIZE <= u64::MAX,
        stack_base >= INTERRUPT_CONTEXT_SIZE,
        exists|j: int| 0 <= j < MAX_PROCESSES && (#[trigger] old(procs).slots@[j]) is None,
    ensures
        final(procs).wf(),
        r.0 == old(procs).next_pid,
        final(procs).next_pid == old(procs).next_pid + 1,
        ({
            let top = ((stack_base + KERNEL_STACK_SIZE) / 16) * 16;
            &&& r.1 == top - INTERRUPT_CONTEXT_SIZE
            &&& r.2 == kernel_frame(trampoline, entry, top as u64)
            &&& exists|i: int|
                0 <= i < MAX_PROCESSES && old(procs).slots@[i] is None && (forall|j: int|
                    0 <= j < i ==> (#[trigger] old(procs).slots@[j]) is Some) && (
                final(procs).slots@[i] matches Some(p) && kernel_task(p, r.0, name, r.1, top as u64))
                    && forall|j: int|
                    0 <= j < MAX_PROCESSES && j != i ==> final(procs).slots@[j] == old(procs).slots@[j]
        }),
{
    let pid = procs.alloc_pid();
    let (top, frame) = stack_layout(stack_base);
    let ctx = kernel_task_context(trampoline, entry, top);
    let proc = new_process(pid, name, frame, 0, top, VmaList::new(), 0, 0);
    let ghost p = proc;
    match procs.insert(proc) {
        Some(i) => {
            assert(procs.slots@[i as int] == Some(p));
            (pid, frame, ctx)
        },
        None => {
            proof {
                let j = choose|j: int| 0 <= j < MAX_PROCESSES && (#[trigger] old(procs).slots@[j]) is None;
                assert(old(procs).slots@[j] is None);
            }
            (pid, frame, ctx)
        },
    }
}

/// Where a page of a program segment gets its frame.
pub enum PageFrame {
    /// The frame the page is already mapped to (segments can share a page).
    Existing(u64),
    /// A newly allocated frame, for the caller to map and zero.
    Fresh(u64),
    /// No frame is left: loading fails.
    OutOfFrames,
}

/// The frame for a page of a program segment that is mapped to `mapped`
/// (`None` when unmapped): that frame, or else the lowest free frame.
pub fn page_frame(frames: &mut FrameAllocator, mapped: Option<u64>) -> (r: PageFrame)
    requires
        old(frames).wf(),
    ensures
        final(frames).wf(),
        match mapped {
            Some(a) => r == PageFrame::Existing(a) && *final(frames) == *old(frames),
            None => match r {
                PageFrame::Fresh(f) => allocated(*old(frames), *final(frames), Some(f)),
                PageFrame::OutOfFrames => allocated(*old(frames), *final(frames), None),
                PageFrame::Existing(_) => false,
            },
        },
{
    match mapped {
        Some(a) => PageFrame::Existing(a),
        None => match frames.allocate() {
            Some(f) => PageFrame::Fresh(f),
            None => PageFrame::OutOfFrames,
        },
    }
}

/// A segment's area is always user-accessible and readable; it is writable
/// exactly when the segment's `p_flags` has PF_W (2), and executable
/// exactly when it has PF_X (1), whatever its other bits.
pub proof fn segment_permissions(p_flags: u32)
    ensures
        segment_flag_bits(p_flags) & VMA_USER != 0,
        segment_flag_bits(p_flags) & VMA_READ != 0,
        (segment_flag_bits(p_flags) & VMA_WRITE != 0) == (p_flags & 2 != 0),
        (segment_flag_bits(p_flags) & VMA_EXEC != 0) == (p_flags & 1 != 0),
        segment_flag_bits(p_flags) & !15u64 == 0,
{
    assert({
        &&& 9u64 & 8 != 0 && 9u64 & 1 != 0 && 9u64 & 2 == 0 && 9u64 & 4 == 0 && 9u64 & !15u64 == 0
        &&& 11u64 & 8 != 0 && 11u64 & 1 != 0 && 11u64 & 2 != 0 && 11u64 & 4 == 0 && 11u64 & !15u64 == 0
        &&& 13u64 & 8 != 0 && 13u64 & 1 != 0 && 13u64 & 2 == 0 && 13u64 & 4 != 0 && 13u64 & !15u64 == 0
        &&& 15u64 & 8 != 0 && 15u64 & 1 != 0 && 15u64 & 2 != 0 && 15u64 & 4 != 0 && 15u64 & !15u64 == 0
    }) by (bit_vector);
}

/// The area planned for a loadable segment covers its pages and carries its
/// permissions: writable exactly when PF_W is set, executable exactly when
/// PF_X is set.
pub proof fn segment_area_permissions(p: Elf64_Phdr)
    ensures
        (segment_vma(p).flags.0 & VMA_WRITE != 0) == (p.p_flags & 2 != 0),
        (segment_vma(p).flags.0 & VMA_EXEC != 0) == (p.p_flags & 1 != 0),
        segment_vma(p).flags.0 & VMA_READ != 0,
        segment_vma(p).flags.0 & VMA_USER != 0,
{
    segment_permissions(p.p_flags);
}

proof fn lemma_max_end(segs: Seq<Elf64_Phdr>, n: int)
    requires
        0 <= n <= segs.len(),
    ensures
        forall|k: int|
            0 <= k < n ==> page_align_up(#[trigger] segs[k].p_vaddr + segs[k].p_memsz) <= max_end_upto(
                segs,
                n,
            ),
        max_end_upto(segs, n) >= 0,
        n > 0 ==> exists|k: int|
            0 <= k < n && max_end_upto(segs, n) == page_align_up(#[trigger] segs[k].p_vaddr
                + segs[k].p_memsz),
    decreases n,
{
    if n > 0 {
        lemma_max_end(segs, n - 1);
        if n - 1 > 0 && max_end_upto(segs, n) == max_end_upto(segs, n - 1) {
            let k = choose|k: int|
                0 <= k < n - 1 && max_end_upto(segs, n - 1) == page_align_up(
                    #[trigger] segs[k].p_vaddr + segs[k].p_memsz,
                );
            assert(0 <= k < n);
        }
    }
}

/// A segment's area covers its bytes with whole pages: it starts at the
/// page holding the segment's first byte and ends at the first page
/// boundary at or after its last byte.
pub proof fn segment_area_covers(p: Elf64_Phdr)
    requires
        segment_ok(p),
    ensures
        segment_vma(p).start % 4096 == 0,
        segment_vma(p).end % 4096 == 0,
        segment_vma(p).start <= p.p_vaddr < segment_vma(p).start + 4096,
        p.p_vaddr + p.p_memsz <= segment_vma(p).end < p.p_vaddr + p.p_memsz + 4096,
{
    let v = p.p_vaddr as int;
    let e = (p.p_vaddr + p.p_memsz) as int;
    assert(page_floor(v) % 4096 == 0 && page_floor(v) <= v < page_floor(v) + 4096) by (nonlinear_arith)
        requires
            page_floor(v) == (v / 4096) * 4096,
            v >= 0,
    ;
    assert(page_align_up(e) % 4096 == 0 && e <= page_align_up(e) < e + 4096) by (nonlinear_arith)
        requires
            page_align_up(e) == ((e + 4095) / 4096) * 4096,
            e >= 0,
    ;
}

/// The initial program break is the end of the highest segment area: at
/// or above every segment's area, and equal to one of them (0 with no
/// segments).
pub proof fn heap_break_after_segments(segs: Seq<Elf64_Phdr>)
    ensures
        forall|k: int|
            0 <= k < segs.len() ==> #[trigger] segment_vma(segs[k]).end <= page_align_up(
                max_end_upto(segs, segs.len() as int),
            ),
        segs.len() == 0 ==> page_align_up(max_end_upto(segs, 0)) == 0,
{
    lemma_max_end(segs, segs.len() as int);
    let m = max_end_upto(segs, segs.len() as int);
    assert(m <= page_align_up(m)) by (nonlinear_arith)
        requires
            page_align_up(m) == ((m + 4095) / 4096) * 4096,
            m >= 0,
    ;
    assert forall|k: int| 0 <= k < segs.len() implies #[trigger] segment_vma(segs[k]).end
        <= page_align_up(m) by {
        let e = segs[k].p_vaddr + segs[k].p_memsz;
        assert(page_align_up(e) <= m);
        assert(page_align_up(e) >= 0) by (nonlinear_arith)
            requires
                page_align_up(e) == ((e + 4095) / 4096) * 4096,
                e >= 0,
        ;
    }
}

} // verus!
