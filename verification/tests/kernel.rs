use huseynos::frame::{FrameAllocator, MemoryRegion};
use huseynos::idt::{classify, InterruptAction};
use huseynos::ipc::{send, try_receive, IpcQueues, Message, MessageQueue, QUEUE_SIZE};
use huseynos::loader::spawn;
use huseynos::process::{Process, ProcessState, ProcessTable, KERNEL_STACK_SIZE};
use huseynos::scheduler;
use huseynos::syscall::{Kernel, PageFaultOutcome, SysOutcome, SYS_ERROR, SYS_GETPID};
use huseynos::vma::{Vma, VmaBacking, VmaFlags, VMA_READ, VMA_USER, VMA_WRITE};

fn msg(n: u64) -> Message {
    let mut m = Message::empty();
    m.msg_type = n;
    m.arg1 = n * 10;
    m
}

fn process(pid: usize, state: ProcessState, rsp: u64) -> Process {
    let mut p = Process::empty();
    p.pid = pid;
    p.state = state;
    p.context.rsp = rsp;
    p.kernel_stack_top = 0x9000 + pid as u64;
    p
}

fn kernel_with(procs: Vec<Process>) -> Kernel {
    let mut k = Kernel::new(0x5000);
    for p in procs {
        k.procs.insert(p).unwrap();
    }
    k
}

#[test]
fn queue_is_first_in_first_out() {
    let mut q = MessageQueue::new();
    assert!(q.is_empty());
    assert!(q.push(msg(1)));
    assert!(q.push(msg(2)));
    assert_eq!(q.pop().unwrap().msg_type, 1);
    assert!(q.push(msg(3)));
    assert_eq!(q.pop().unwrap().msg_type, 2);
    assert_eq!(q.pop().unwrap().msg_type, 3);
    assert!(q.pop().is_none());
    assert!(q.is_empty());
}

#[test]
fn full_queue_refuses_pushes() {
    let mut q = MessageQueue::new();
    for i in 0..QUEUE_SIZE as u64 {
        assert!(q.push(msg(i)));
    }
    assert!(!q.push(msg(99)));
    assert_eq!(q.pop().unwrap().msg_type, 0);
    assert!(q.push(msg(99)));
}

#[test]
fn send_then_receive_delivers_and_wakes_the_receiver() {
    let mut queues = IpcQueues::new();
    let mut procs = ProcessTable::new();
    procs.insert(process(3, ProcessState::Blocked, 0x100)).unwrap();
    assert!(send(&mut queues, &mut procs, 7, 3, 0x30, 42, 0, 0, 0, 0, 0));
    assert_eq!(procs.get_process(3).unwrap().state, ProcessState::Ready);
    let got = try_receive(&mut queues, 3).unwrap();
    assert_eq!(got.sender, 7);
    assert_eq!(got.msg_type, 0x30);
    assert_eq!(got.arg1, 42);
    assert!(try_receive(&mut queues, 3).is_none());
}

#[test]
fn interleaved_sends_and_receives_deliver_each_message_once_in_order() {
    let mut queues = IpcQueues::new();
    let mut procs = ProcessTable::new();
    procs.insert(process(3, ProcessState::Ready, 0x100)).unwrap();
    let mut accepted: Vec<u64> = Vec::new();
    let mut delivered: Vec<u64> = Vec::new();
    // Forty sends with a receive after every third: the ring wraps, and
    // the sends made while the queue is full are refused.
    for n in 0..40u64 {
        if send(&mut queues, &mut procs, 5, 3, n, 0, 0, 0, 0, 0, 0) {
            accepted.push(n);
        }
        // Messages to another process do not reach process 3.
        send(&mut queues, &mut procs, 5, 4, 1000 + n, 0, 0, 0, 0, 0, 0);
        if n % 3 == 0 {
            delivered.push(try_receive(&mut queues, 3).unwrap().msg_type);
        }
    }
    assert!(accepted.len() < 40);
    while let Some(m) = try_receive(&mut queues, 3) {
        delivered.push(m.msg_type);
    }
    assert_eq!(delivered, accepted);
    assert!(try_receive(&mut queues, 3).is_none());
}

#[test]
fn send_refuses_pid_zero_and_out_of_range() {
    let mut queues = IpcQueues::new();
    let mut procs = ProcessTable::new();
    assert!(!send(&mut queues, &mut procs, 1, 0, 1, 0, 0, 0, 0, 0, 0));
    assert!(!send(&mut queues, &mut procs, 1, 64, 1, 0, 0, 0, 0, 0, 0));
    assert!(try_receive(&mut queues, 64).is_none());
}

#[test]
fn round_robin_picks_next_ready_after_current() {
    let mut procs = ProcessTable::new();
    procs.insert(process(1, ProcessState::Ready, 0x100)).unwrap();
    procs.insert(process(2, ProcessState::Blocked, 0x200)).unwrap();
    procs.insert(process(3, ProcessState::Ready, 0x300)).unwrap();
    assert_eq!(procs.next_ready(1), Some(3));
    assert_eq!(procs.next_ready(3), Some(1));
    assert_eq!(procs.next_ready(0), Some(1));
    assert_eq!(procs.alive_count(), 3);
}

#[test]
fn schedule_switches_to_next_ready_and_saves_context() {
    let mut procs = ProcessTable::new();
    let mut p1 = process(1, ProcessState::Running, 0x100);
    p1.pml4_phys = 0x7000;
    procs.insert(p1).unwrap();
    procs.insert(process(2, ProcessState::Ready, 0x200)).unwrap();
    let mut s = scheduler::init();
    s.current_pid = 1;
    let sw = s.schedule(&mut procs, 0xAAA, 0x5000);
    assert_eq!(s.current_pid(), 2);
    assert_eq!(sw.next_ctx, 0x200);
    // Process 2 has no page table of its own: the kernel's is used.
    assert_eq!(sw.pml4, Some(0x5000));
    assert_eq!(sw.tss_stack, Some(0x9002));
    let p1 = procs.get_process(1).unwrap();
    assert_eq!(p1.state, ProcessState::Ready);
    assert_eq!(p1.context.rsp, 0xAAA);
    assert_eq!(procs.get_process(2).unwrap().state, ProcessState::Running);
    assert_eq!(s.tick_count, 1);
}

#[test]
fn schedule_with_nothing_ready_runs_idle() {
    let mut procs = ProcessTable::new();
    procs.insert(process(1, ProcessState::Blocked, 0x100)).unwrap();
    let mut s = scheduler::init();
    let sw = s.schedule(&mut procs, 0xBBB, 0x5000);
    assert_eq!(s.current_pid(), 0);
    assert_eq!(sw.next_ctx, 0xBBB);
    assert_eq!(sw.pml4, None);
}

#[test]
fn exit_marks_dead_and_wakes_waiters() {
    let mut procs = ProcessTable::new();
    procs.insert(process(4, ProcessState::Running, 0)).unwrap();
    let mut parent = process(2, ProcessState::Blocked, 0);
    parent.waiting_for_pid = Some(4);
    procs.insert(parent).unwrap();
    procs.exit_process(4, 9);
    let child = procs.get_process(4).unwrap();
    assert_eq!(child.state, ProcessState::Dead);
    assert_eq!(child.exit_code, Some(9));
    let parent = procs.get_process(2).unwrap();
    assert_eq!(parent.state, ProcessState::Ready);
    assert_eq!(parent.waiting_for_pid, None);
    assert_eq!(procs.alive_count(), 1);
}

#[test]
fn unblock_makes_blocked_ready() {
    let mut procs = ProcessTable::new();
    procs.insert(process(5, ProcessState::Blocked, 0)).unwrap();
    scheduler::unblock(&mut procs, 5);
    assert_eq!(procs.get_process(5).unwrap().state, ProcessState::Ready);
}

#[test]
fn pids_count_up() {
    let mut procs = ProcessTable::new();
    assert_eq!(procs.alloc_pid(), 1);
    assert_eq!(procs.alloc_pid(), 2);
}

#[test]
fn syscall_getpid_and_unknown() {
    let mut k = kernel_with(vec![process(1, ProcessState::Running, 0)]);
    k.sched.current_pid = 1;
    assert_eq!(k.handle(SYS_GETPID, 0, 0, 0, 0, 0, 0, 0, 0), SysOutcome::Return(1));
    assert_eq!(k.handle(999, 0, 0, 0, 0, 0, 0, 0, 0), SysOutcome::Return(SYS_ERROR));
}

#[test]
fn sbrk_returns_old_break_and_grows_heap() {
    let mut p = process(1, ProcessState::Running, 0);
    p.heap_break = 0x40_0000;
    let mut k = kernel_with(vec![p]);
    k.sched.current_pid = 1;
    assert_eq!(k.sys_sbrk(0x1800), 0x40_0000);
    assert_eq!(k.sys_sbrk(0), 0x40_1800);
    let p = k.procs.get_process(1).unwrap();
    assert_eq!(p.heap_break, 0x40_1800);
    assert_eq!(p.vmas.regions.len(), 1);
    assert_eq!(p.vmas.regions[0].start, 0x40_0000);
    assert_eq!(p.vmas.regions[0].end, 0x40_2000);
}

#[test]
fn sbrk_without_a_process_fails() {
    let mut k = Kernel::new(0);
    assert_eq!(k.sys_sbrk(16), SYS_ERROR);
}

#[test]
fn mmap_places_after_existing_areas_and_munmap_removes_them() {
    let mut k = kernel_with(vec![process(1, ProcessState::Running, 0)]);
    k.sched.current_pid = 1;
    let a = k.sys_mmap(0, 0x2000);
    assert_eq!(a, 0x2000_0000);
    let b = k.sys_mmap(0, 0x1000);
    assert_eq!(b, 0x2000_2000);
    match k.sys_munmap(a, 0x2000) {
        SysOutcome::Unmap { start, end } => {
            assert_eq!(start, a);
            assert_eq!(end, a + 0x2000);
        }
        other => panic!("unexpected {:?}", other),
    }
    let p = k.procs.get_process(1).unwrap();
    assert_eq!(p.vmas.regions.len(), 1);
    assert_eq!(p.vmas.regions[0].start, b);
}

#[test]
fn send_and_recv_system_calls() {
    let mut k = kernel_with(vec![
        process(1, ProcessState::Running, 0),
        process(2, ProcessState::Ready, 0),
    ]);
    k.sched.current_pid = 1;
    assert_eq!(k.sys_send(2, 0x10, 65, 0, 0, 0, 0), 0);
    assert_eq!(k.sys_send(0, 0x10, 65, 0, 0, 0, 0), 1);
    k.sched.current_pid = 2;
    match k.sys_recv(0, 0x1234) {
        SysOutcome::Deliver(m) => {
            assert_eq!(m.sender, 1);
            assert_eq!(m.arg1, 65);
        }
        other => panic!("unexpected {:?}", other),
    }
    // Nothing left: non-blocking receive fails.
    assert_eq!(k.sys_recv(1, 0x1234), SysOutcome::Return(SYS_ERROR));
}

#[test]
fn exit_and_waitpid_reap_the_child() {
    let mut parent = process(1, ProcessState::Ready, 0x100);
    parent.parent_pid = 0;
    let mut child = process(2, ProcessState::Ready, 0x200);
    child.parent_pid = 1;
    let mut k = kernel_with(vec![parent, child]);
    k.sched.current_pid = 2;
    match k.sys_exit(5, 0x2222) {
        SysOutcome::Reschedule { to, rewind } => {
            assert!(!rewind);
            assert_eq!(to.next_ctx, 0x100);
        }
        other => panic!("unexpected {:?}", other),
    }
    assert_eq!(k.sched.current_pid, 1);
    assert_eq!(k.sys_waitpid(2, 0x100), SysOutcome::Return(5));
    // The reaped slot is marked empty.
    assert_eq!(k.procs.get_process(2).unwrap().state, ProcessState::Empty);
    // An unknown child is an error.
    assert_eq!(k.sys_waitpid(9, 0x100), SysOutcome::Return(SYS_ERROR));
}

#[test]
fn interrupts_are_classified() {
    assert_eq!(classify(0, 0), InterruptAction::Halt);
    assert_eq!(classify(13, 0), InterruptAction::Halt);
    assert_eq!(classify(14, 4), InterruptAction::UserPageFault);
    assert_eq!(classify(14, 0), InterruptAction::Halt);
    assert_eq!(classify(32, 0), InterruptAction::Timer);
    assert_eq!(classify(33, 0), InterruptAction::Keyboard);
    assert_eq!(classify(44, 0), InterruptAction::Mouse);
    assert_eq!(classify(0x80, 0), InterruptAction::Syscall);
    assert_eq!(classify(35, 0), InterruptAction::Acknowledge { irq: 3 });
    assert_eq!(classify(48, 0), InterruptAction::Resume);
    assert_eq!(classify(3, 0), InterruptAction::Resume);
}

#[test]
fn keyboard_interrupt_forwards_scancode() {
    let mut k = kernel_with(vec![process(3, ProcessState::Blocked, 0)]);
    assert!(k.forward_input(3, 0x30, 0x1E));
    assert_eq!(k.procs.get_process(3).unwrap().state, ProcessState::Ready);
    let m = try_receive(&mut k.ipc, 3).unwrap();
    assert_eq!(m.msg_type, 0x30);
    assert_eq!(m.arg1, 0x1E);
}

#[test]
fn page_fault_in_an_area_maps_the_lowest_free_frame() {
    let mut p = process(1, ProcessState::Running, 0x100);
    p.pml4_phys = 0x8000;
    p.vmas.add(Vma {
        start: 0x40_0000,
        end: 0x40_3000,
        flags: VmaFlags(VMA_READ | VMA_WRITE | VMA_USER),
        backing: VmaBacking::Anonymous,
    });
    let mut k = kernel_with(vec![p]);
    k.sched.current_pid = 1;
    let mut fa = FrameAllocator::new();
    fa.init(&[MemoryRegion { base: 0x20_0000, length: 0x2000, usable: true }]);
    assert_eq!(
        k.page_fault(&mut fa, 0x40_1234, 0x100),
        PageFaultOutcome::MapPage { pml4: 0x8000, page: 0x40_1000, frame: 0x20_0000 }
    );
    assert_eq!(fa.free_count(), 1);
}

#[test]
fn page_fault_outside_areas_kills_the_process() {
    let mut k = kernel_with(vec![
        process(1, ProcessState::Running, 0x100),
        process(2, ProcessState::Ready, 0x200),
    ]);
    k.sched.current_pid = 1;
    let mut fa = FrameAllocator::new();
    match k.page_fault(&mut fa, 0xDEAD_0000, 0x100) {
        PageFaultOutcome::Kill(to) => assert_eq!(to.next_ctx, 0x200),
        other => panic!("unexpected {:?}", other),
    }
    let dead = k.procs.get_process(1).unwrap();
    assert_eq!(dead.state, ProcessState::Dead);
    assert_eq!(dead.exit_code, Some(u64::MAX));
    assert_eq!(k.sched.current_pid, 2);
}

#[test]
fn spawn_puts_a_ready_kernel_task_in_the_first_free_slot() {
    let mut procs = ProcessTable::new();
    procs.insert(process(7, ProcessState::Ready, 0x100)).unwrap();
    let base: u64 = 0x10_0008;
    let (pid, frame, ctx) = spawn(&mut procs, "idle", 0x1000, 0x2000, base);
    let top = (base + KERNEL_STACK_SIZE as u64) & !0xF;
    assert_eq!(pid, 1);
    assert_eq!(frame, top - 192);
    assert_eq!((ctx.rip, ctx.r12, ctx.rsp, ctx.cs, ctx.ss, ctx.rflags), (0x1000, 0x2000, top, 0x08, 0x10, 0x202));
    assert_eq!(ctx.rax, 0);
    let p = procs.get_process(1).unwrap();
    assert_eq!(p.state, ProcessState::Ready);
    assert_eq!((p.context.rsp, p.kernel_stack_top, p.pml4_phys, p.parent_pid), (frame, top, 0, 0));
    assert_eq!(p.name, "idle");
    // The next task gets the next PID.
    let (pid2, _, _) = spawn(&mut procs, "idle2", 0x1000, 0x3000, base);
    assert_eq!(pid2, 2);
}
