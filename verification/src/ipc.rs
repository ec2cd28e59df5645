//! Kernel message passing: one bounded FIFO queue of messages per PID slot.

use vstd::prelude::*;
use crate::process::{Pid, ProcessTable, ProcessState, MAX_PROCESSES};
use crate::scheduler;

verus! {

/// Maximum number of messages waiting in one queue.
pub const QUEUE_SIZE: usize = 16;
/// Maximum payload size per message.
pub const MSG_PAYLOAD_SIZE: usize = 64;

/// An IPC message.
#[derive(Clone, Copy, Debug, PartialEq, Eq, Structural)]
pub struct Message {
    pub sender: Pid,
    pub msg_type: u64,
    pub arg1: u64,
    pub arg2: u64,
    pub arg3: u64,
    pub arg4: u64,
    pub arg5: u64,
    pub arg6: u64,
}

impl Message {
    /// The all-zero message.
    pub fn empty() -> (r: Message)
        ensures
            r == (Message {
                sender: 0,
                msg_type: 0,
                arg1: 0,
                arg2: 0,
                arg3: 0,
                arg4: 0,
                arg5: 0,
                arg6: 0,
            }),
    {
        Message { sender: 0, msg_type: 0, arg1: 0, arg2: 0, arg3: 0, arg4: 0, arg5: 0, arg6: 0 }
    }
}

/// A per-process message queue: a ring buffer of `QUEUE_SIZE` slots.
pub struct MessageQueue {
    messages: Vec<Option<Message>>,
    head: usize,
    tail: usize,
    count: usize,
}

/// The queue after a push of `m` onto queued messages `s`: refused (false,
/// unchanged) when full, else appended.
pub open spec fn push_result(s: Seq<Message>, m: Message) -> (bool, Seq<Message>) {
    if s.len() >= QUEUE_SIZE {
        (false, s)
    } else {
        (true, s.push(m))
    }
}

/// The result of a pop from queued messages `s`: the oldest message and the rest.
pub open spec fn pop_result(s: Seq<Message>) -> (Option<Message>, Seq<Message>) {
    if s.len() == 0 {
        (None, s)
    } else {
        (Some(s[0]), s.drop_first())
    }
}

impl MessageQueue {
    /// Internal consistency of the ring buffer.
    pub closed spec fn wf(&self) -> bool {
        &&& self.messages@.len() == QUEUE_SIZE
        &&& self.head < QUEUE_SIZE
        &&& self.tail < QUEUE_SIZE
        &&& self.count <= QUEUE_SIZE
        &&& self.tail == (self.head + self.count) % (QUEUE_SIZE as int)
        &&& forall|i: int|
            0 <= i < self.count ==> (#[trigger] self.messages@[(self.head + i) % (
            QUEUE_SIZE as int)]) is Some
    }

    /// The queued messages, oldest first.
    pub closed spec fn view(&self) -> Seq<Message> {
        Seq::new(
            self.count as nat,
            |i: int| self.messages@[(self.head + i) % (QUEUE_SIZE as int)]->0,
        )
    }

    /// An empty queue.
    pub fn new() -> (r: MessageQueue)
        ensures
            r.wf(),
            r.view() == Seq::<Message>::empty(),
    {
        let mut messages: Vec<Option<Message>> = Vec::new();
        let mut i: usize = 0;
        while i < QUEUE_SIZE
            invariant
                i <= QUEUE_SIZE,
                messages@.len() == i,
            decreases QUEUE_SIZE - i,
        {
            messages.push(None);
            i = i + 1;
        }
        let r = MessageQueue { messages, head: 0, tail: 0, count: 0 };
        assert(r.view() =~= Seq::<Message>::empty());
        r
    }

    /// Append `msg` unless the queue is full. True when appended.
    pub fn push(&mut self, msg: Message) -> (r: bool)
        requires
            old(self).wf(),
        ensures
            final(self).wf(),
            (r, final(self).view()) == push_result(old(self).view(), msg),
    {
        if self.count >= QUEUE_SIZE {
            return false;
        }
        let ghost old_view = self.view();
        let ghost h = self.head as int;
        self.messages.set(self.tail, Some(msg));
        self.tail = (self.tail + 1) % QUEUE_SIZE;
        self.count = self.count + 1;
        proof {
            assert forall|i: int| 0 <= i < self.count implies (#[trigger] self.messages@[(self.head
                + i) % (QUEUE_SIZE as int)]) is Some by {
                if i < self.count - 1 {
                    lemma_ring_distinct(h, i, self.count - 1);
                }
            }
            assert forall|i: int| 0 <= i < self.count - 1 implies self.view()[i] == old_view[i] by {
                lemma_ring_distinct(h, i, self.count - 1);
            }
            assert(self.view() =~= old_view.push(msg));
        }
        true
    }

    /// Remove and return the oldest message, or `None` when empty.
    pub fn pop(&mut self) -> (r: Option<Message>)
        requires
            old(self).wf(),
        ensures
            final(self).wf(),
            (r, final(self).view()) == pop_result(old(self).view()),
    {
        if self.count == 0 {
            return None;
        }
        let ghost old_view = self.view();
        let ghost h = self.head as int;
        proof {
            assert(self.messages@[(h + 0) % (QUEUE_SIZE as int)] is Some);
        }
        let msg = self.messages[self.head];
        self.messages.set(self.head, None);
        self.head = (self.head + 1) % QUEUE_SIZE;
        self.count = self.count - 1;
        proof {
            assert forall|i: int| 0 <= i < self.count implies (#[trigger] self.messages@[(self.head
                + i) % (QUEUE_SIZE as int)]) is Some by {
                lemma_ring_distinct(h, 0, i + 1);
                lemma_ring_shift(h, i);
                assert(old(self).messages@[(h + (i + 1)) % (QUEUE_SIZE as int)] is Some);
            }
            assert forall|i: int| 0 <= i < self.count implies self.view()[i] == old_view[i + 1] by {
                lemma_ring_distinct(h, 0, i + 1);
                lemma_ring_shift(h, i);
            }
            assert(self.view() =~= old_view.drop_first());
        }
        msg
    }

    /// True when no message is waiting.
    pub fn is_empty(&self) -> (r: bool)
        requires
            self.wf(),
        ensures
            r == (self.view().len() == 0),
    {
        self.count == 0
    }
}

/// Two positions less than a full turn apart land in different ring slots.
proof fn lemma_ring_distinct(h: int, i: int, j: int)
    requires
        0 <= h < QUEUE_SIZE,
        0 <= i < j < QUEUE_SIZE,
    ensures
        (h + i) % (QUEUE_SIZE as int) != (h + j) % (QUEUE_SIZE as int),
{
}

/// Advancing the head by one shifts every position by one.
proof fn lemma_ring_shift(h: int, i: int)
    requires
        0 <= h < QUEUE_SIZE,
        0 <= i,
    ensures
        ((h + 1) % (QUEUE_SIZE as int) + i) % (QUEUE_SIZE as int) == (h + (i + 1)) % (
        QUEUE_SIZE as int),
{
}

/// A queue is first-in first-out. Popping a queue that `m` was just
/// pushed onto gives its oldest message if it had one, else `m`; and `m`
/// stays last.
pub proof fn queue_is_fifo(s: Seq<Message>, m: Message)
    requires
        s.len() < QUEUE_SIZE,
    ensures
        push_result(s, m).0,
        pop_result(push_result(s, m).1).0 == Some(if s.len() == 0 { m } else { s[0] }),
        s.len() > 0 ==> pop_result(push_result(s, m).1).1 == pop_result(s).1.push(m),
{
    if s.len() > 0 {
        assert(s.push(m).drop_first() =~= s.drop_first().push(m));
    }
}

/// A queue holds at most `QUEUE_SIZE` messages; a push onto a full queue
/// is refused and changes nothing.
pub proof fn full_queue_refuses(s: Seq<Message>, m: Message)
    requires
        s.len() >= QUEUE_SIZE,
    ensures
        push_result(s, m) == (false, s),
{
}

/// All message queues, one per PID slot.
pub struct IpcQueues {
    pub queues: Vec<MessageQueue>,
}

impl IpcQueues {
    pub open spec fn wf(&self) -> bool {
        &&& self.queues@.len() == MAX_PROCESSES
        &&& forall|i: int| 0 <= i < MAX_PROCESSES ==> (#[trigger] self.queues@[i]).wf()
    }

    /// Empty queues for every PID slot.
    pub fn new() -> (r: IpcQueues)
        ensures
            r.wf(),
            forall|i: int| 0 <= i < MAX_PROCESSES ==> (#[trigger] r.queues@[i]).view().len() == 0,
    {
        let mut queues: Vec<MessageQueue> = Vec::new();
        let mut i: usize = 0;
        while i < MAX_PROCESSES
            invariant
                i <= MAX_PROCESSES,
                queues@.len() == i,
                forall|j: int| 0 <= j < i ==> (#[trigger] queues@[j]).wf() && queues@[j].view().len() == 0,
            decreases MAX_PROCESSES - i,
        {
            queues.push(MessageQueue::new());
            i = i + 1;
        }
        IpcQueues { queues }
    }
}

/// Sending `msg` to `to_pid` took queues `q0` to `q1` and table `t0` to `t1`
/// with answer `ok`: refused for PID 0 and PIDs outside the table; otherwise
/// the message is appended to the receiver's queue unless it is full, and on
/// success the receiver is unblocked.
pub open spec fn sent(
    q0: Seq<MessageQueue>,
    q1: Seq<MessageQueue>,
    t0: ProcessTable,
    t1: ProcessTable,
    to_pid: Pid,
    msg: Message,
    ok: bool,
) -> bool {
    if to_pid == 0 || to_pid >= MAX_PROCESSES {
        !ok && q1 == q0 && t1 == t0
    } else {
        let (pushed, q) = push_result(q0[to_pid as int].view(), msg);
        &&& ok == pushed
        &&& q1.len() == q0.len()
        &&& q1[to_pid as int].view() == q
        &&& forall|i: int| 0 <= i < MAX_PROCESSES && i != to_pid ==> q1[i] == q0[i]
        &&& ok ==> scheduler::unblocked(t0, t1, to_pid)
        &&& !ok ==> t1 == t0
    }
}

/// Receiving for `pid` took queues `q0` to `q1` with result `r`: the oldest
/// message of `pid`'s queue is taken; nothing for a PID outside the table.
pub open spec fn received(q0: Seq<MessageQueue>, q1: Seq<MessageQueue>, pid: Pid, r: Option<Message>) -> bool {
    if pid >= MAX_PROCESSES {
        r is None && q1 == q0
    } else {
        &&& (r, q1[pid as int].view()) == pop_result(q0[pid as int].view())
        &&& q1.len() == q0.len()
        &&& forall|i: int| 0 <= i < MAX_PROCESSES && i != pid ==> q1[i] == q0[i]
    }
}

/// Send a message from `from_pid` to `to_pid`. Refused (false) for PID 0, for
/// a PID outside the table, and when the receiver's queue is full. On success
/// the receiver, if blocked, becomes ready.
pub fn send(
    queues: &mut IpcQueues,
    procs: &mut ProcessTable,
    from_pid: Pid,
    to_pid: Pid,
    msg_type: u64,
    arg1: u64,
    arg2: u64,
    arg3: u64,
    arg4: u64,
    arg5: u64,
    arg6: u64,
) -> (r: bool)
    requires
        old(queues).wf(),
        old(procs).wf(),
    ensures
        final(queues).wf(),
        final(procs).wf(),
        sent(
            old(queues).queues@,
            final(queues).queues@,
            *old(procs),
            *final(procs),
            to_pid,
            Message { sender: from_pid, msg_type, arg1, arg2, arg3, arg4, arg5, arg6 },
            r,
        ),
{
    let msg = Message { sender: from_pid, msg_type, arg1, arg2, arg3, arg4, arg5, arg6 };
    if to_pid == 0 || to_pid >= MAX_PROCESSES {
        return false;
    }
    let mut q = queues.queues.remove(to_pid);
    let ok = q.push(msg);
    queues.queues.insert(to_pid, q);
    proof {
        assert forall|i: int| 0 <= i < MAX_PROCESSES implies (#[trigger] queues.queues@[i]).wf() by {
            if i != to_pid {
                assert(queues.queues@[i] == old(queues).queues@[i]);
            }
        }
    }
    if ok {
        scheduler::unblock(procs, to_pid);
    }
    ok
}

/// Take the oldest message waiting for `pid`, or `None` when there is none or
/// `pid` is outside the table.
pub fn try_receive(queues: &mut IpcQueues, pid: Pid) -> (r: Option<Message>)
    requires
        old(queues).wf(),
    ensures
        final(queues).wf(),
        received(old(queues).queues@, final(queues).queues@, pid, r),
{
    if pid < MAX_PROCESSES {
        let mut q = queues.queues.remove(pid);
        let r = q.pop();
        queues.queues.insert(pid, q);
        proof {
            assert forall|i: int| 0 <= i < MAX_PROCESSES implies (#[trigger] queues.queues@[i]).wf() by {
                if i != pid {
                    assert(queues.queues@[i] == old(queues).queues@[i]);
                }
            }
        }
        r
    } else {
        None
    }
}

/// A message sent to a process whose queue was empty is the next message
/// that process receives.
pub proof fn send_then_receive(
    q0: Seq<MessageQueue>,
    q1: Seq<MessageQueue>,
    q2: Seq<MessageQueue>,
    t0: ProcessTable,
    t1: ProcessTable,
    to_pid: Pid,
    msg: Message,
    r: Option<Message>,
)
    requires
        q0.len() == MAX_PROCESSES,
        sent(q0, q1, t0, t1, to_pid, msg, true),
        q0[to_pid as int].view().len() == 0,
        received(q1, q2, to_pid, r),
    ensures
        r == Some(msg),
        q2[to_pid as int].view().len() == 0,
{
    assert(seq![msg].drop_first() =~= Seq::<Message>::empty());
    assert(Seq::<Message>::empty().push(msg) =~= seq![msg]);
}

/// One step of a run of message passing.
pub enum IpcEvent {
    /// A send of `msg` to `to` that answered `ok`.
    Send { to: Pid, msg: Message, ok: bool },
    /// A receive for `pid` that gave `r`.
    Receive { pid: Pid, r: Option<Message> },
}

/// Event `e` took queues `q0` to `q1` and the process table `t0` to `t1`.
pub open spec fn ipc_step(
    q0: Seq<MessageQueue>,
    q1: Seq<MessageQueue>,
    t0: ProcessTable,
    t1: ProcessTable,
    e: IpcEvent,
) -> bool {
    match e {
        IpcEvent::Send { to, msg, ok } => sent(q0, q1, t0, t1, to, msg, ok),
        IpcEvent::Receive { pid, r } => received(q0, q1, pid, r) && t1 == t0,
    }
}

/// The events `es` took the queues through the states `qs` and the process
/// table through the states `ts`, one step each.
pub open spec fn ipc_run(qs: Seq<Seq<MessageQueue>>, ts: Seq<ProcessTable>, es: Seq<IpcEvent>) -> bool {
    &&& qs.len() == es.len() + 1
    &&& ts.len() == es.len() + 1
    &&& forall|i: int| 0 <= i < es.len() ==> ipc_step(qs[i], qs[i + 1], ts[i], ts[i + 1], #[trigger] es[i])
}

/// The messages of the sends to `p` that succeeded among the first `n`
/// events, in order.
pub open spec fn accepted_for(es: Seq<IpcEvent>, p: Pid, n: int) -> Seq<Message>
    decreases n,
{
    if n <= 0 {
        Seq::empty()
    } else {
        let prev = accepted_for(es, p, n - 1);
        match es[n - 1] {
            IpcEvent::Send { to, msg, ok } => if ok && to == p { prev.push(msg) } else { prev },
            IpcEvent::Receive { .. } => prev,
        }
    }
}

/// The messages `p` received among the first `n` events, in order.
pub open spec fn delivered_to(es: Seq<IpcEvent>, p: Pid, n: int) -> Seq<Message>
    decreases n,
{
    if n <= 0 {
        Seq::empty()
    } else {
        let prev = delivered_to(es, p, n - 1);
        match es[n - 1] {
            IpcEvent::Receive { pid, r } => match r {
                Some(m) => if pid == p { prev.push(m) } else { prev },
                None => prev,
            },
            IpcEvent::Send { .. } => prev,
        }
    }
}

proof fn lemma_run_accounts(qs: Seq<Seq<MessageQueue>>, ts: Seq<ProcessTable>, es: Seq<IpcEvent>, p: Pid, n: int)
    requires
        ipc_run(qs, ts, es),
        qs[0].len() == MAX_PROCESSES,
        p < MAX_PROCESSES,
        qs[0][p as int].view().len() == 0,
        0 <= n <= es.len(),
    ensures
        qs[n].len() == MAX_PROCESSES,
        accepted_for(es, p, n) == delivered_to(es, p, n) + qs[n][p as int].view(),
    decreases n,
{
    if n == 0 {
        assert(Seq::<Message>::empty() + qs[0][p as int].view() =~= Seq::<Message>::empty());
    } else {
        let i = n - 1;
        lemma_run_accounts(qs, ts, es, p, i);
        assert(ipc_step(qs[i], qs[i + 1], ts[i], ts[i + 1], es[i]));
        let d = delivered_to(es, p, i);
        let v = qs[i][p as int].view();
        match es[i] {
            IpcEvent::Send { to, msg, ok } => {
                if to == p && ok {
                    assert((d + v).push(msg) =~= d + v.push(msg));
                }
            },
            IpcEvent::Receive { pid, r } => {
                if pid == p && v.len() > 0 {
                    assert(d.push(v[0]) + v.drop_first() =~= d + v);
                }
            },
        }
    }
}

/// Message passing over any run of sends and receives, for a process `p`
/// whose queue starts empty: what the successful sends to `p` handed over
/// is exactly what `p` has received followed by what still waits, so each
/// such message is received once and in send order; a receive for `p`
/// gives the oldest message not yet received, and nothing exactly when
/// every message sent to `p` has been received.
pub proof fn queues_deliver_in_order(
    qs: Seq<Seq<MessageQueue>>,
    ts: Seq<ProcessTable>,
    es: Seq<IpcEvent>,
    p: Pid,
)
    requires
        ipc_run(qs, ts, es),
        qs[0].len() == MAX_PROCESSES,
        p < MAX_PROCESSES,
        qs[0][p as int].view().len() == 0,
    ensures
        forall|n: int|
            0 <= n <= es.len() ==> #[trigger] accepted_for(es, p, n) == delivered_to(es, p, n)
                + qs[n][p as int].view(),
        forall|i: int|
            0 <= i < es.len() ==> match #[trigger] es[i] {
                IpcEvent::Receive { pid, r } => pid == p ==> match r {
                    Some(m) => delivered_to(es, p, i).len() < accepted_for(es, p, i).len() && m
                        == accepted_for(es, p, i)[delivered_to(es, p, i).len() as int],
                    None => delivered_to(es, p, i) == accepted_for(es, p, i),
                },
                IpcEvent::Send { .. } => true,
            },
{
    assert forall|n: int| 0 <= n <= es.len() implies #[trigger] accepted_for(es, p, n) == delivered_to(
        es,
        p,
        n,
    ) + qs[n][p as int].view() by {
        lemma_run_accounts(qs, ts, es, p, n);
    }
    assert forall|i: int| 0 <= i < es.len() implies match #[trigger] es[i] {
        IpcEvent::Receive { pid, r } => pid == p ==> match r {
            Some(m) => delivered_to(es, p, i).len() < accepted_for(es, p, i).len() && m == accepted_for(
                es,
                p,
                i,
            )[delivered_to(es, p, i).len() as int],
            None => delivered_to(es, p, i) == accepted_for(es, p, i),
        },
        IpcEvent::Send { .. } => true,
    } by {
        lemma_run_accounts(qs, ts, es, p, i);
        assert(ipc_step(qs[i], qs[i + 1], ts[i], ts[i + 1], es[i]));
        let d = delivered_to(es, p, i);
        let v = qs[i][p as int].view();
        assert(accepted_for(es, p, i) == d + v);
        if v.len() == 0 {
            assert(d + v =~= d);
        } else {
            assert((d + v)[d.len() as int] == v[0]);
        }
    }
}

} // verus!
