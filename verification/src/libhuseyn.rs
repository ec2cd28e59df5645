//! The userland support library: message layout and types shared by the
//! services, and the heap bump allocator's bookkeeping.

use vstd::prelude::*;
use vstd::string::StringSliceAdditionalSpecFns;

verus! {

pub const MSG_PRINT_CHAR: u64 = 0x10;
pub const MSG_KEY_PRESSED: u64 = 0x20;
pub const MSG_HARDWARE_INTERRUPT: u64 = 0x30;
pub const MSG_MOUSE_PACKET: u64 = 0x40;
pub const MSG_MOUSE_MOVE: u64 = 0x41;
pub const MSG_MOUSE_CLICK: u64 = 0x42;
/// arg1 = width, arg2 = height, arg3 = SHM id.
pub const MSG_WINDOW_CREATE: u64 = 0x50;
/// Window content updated.
pub const MSG_WINDOW_DAMAGE: u64 = 0x51;
/// Request the process to exit gracefully.
pub const MSG_QUIT: u64 = 0x60;
pub const MSG_PING: u64 = 0xAA;
pub const MSG_PONG: u64 = 0xBB;

/// PID of the console driver.
pub const CONSOLE_PID: usize = 2;

/// An IPC message as userland sees it.
#[derive(Clone, Copy, Debug, PartialEq, Eq, Structural)]
pub struct Message {
    pub sender: usize,
    pub msg_type: u64,
    pub arg1: u64,
    pub arg2: u64,
    pub arg3: u64,
    pub arg4: u64,
    pub arg5: u64,
    pub arg6: u64,
}

impl Message {
    /// The all-zero message.
    pub fn empty() -> (r: Message)
        ensures
            r == (Message {
                sender: 0,
                msg_type: 0,
                arg1: 0,
                arg2: 0,
                arg3: 0,
                arg4: 0,
                arg5: 0,
                arg6: 0,
            }),
    {
        Message { sender: 0, msg_type: 0, arg1: 0, arg2: 0, arg3: 0, arg4: 0, arg5: 0, arg6: 0 }
    }
}

/// Date and time as the RTC system call reports it.
#[derive(Debug, Clone, Copy, PartialEq, Eq, Structural)]
pub struct DateTime {
    pub hour: u8,
    pub minute: u8,
    pub second: u8,
    pub day: u8,
    pub month: u8,
    pub year: u16,
}

/// The date and time from the registers the `get_time` system call returns
/// (rax, rdi, rsi, rdx, r10, r8), each truncated to its field's width.
pub fn datetime_from_registers(hour: u64, minute: u64, second: u64, day: u64, month: u64, year: u64) -> (r: DateTime)
    ensures
        r.hour == hour % 256,
        r.minute == minute % 256,
        r.second == second % 256,
        r.day == day % 256,
        r.month == month % 256,
        r.year == year % 65536,
{
    DateTime {
        hour: (hour % 256) as u8,
        minute: (minute % 256) as u8,
        second: (second % 256) as u8,
        day: (day % 256) as u8,
        month: (month % 256) as u8,
        year: (year % 65536) as u16,
    }
}

/// Size of each heap extension requested from the kernel (64 KiB).
pub const HEAP_CHUNK: usize = 65536;

/// A bump allocator: allocations move `heap_start` forward inside
/// `[heap_start, heap_end)`; nothing is ever freed.
pub struct BumpAllocator {
    pub heap_start: usize,
    pub heap_end: usize,
}

/// The next step of an allocation attempt.
#[derive(Debug, Clone, Copy, PartialEq, Eq, Structural)]
pub enum BumpStep {
    /// The allocation is at this address.
    Done(usize),
    /// Ask the kernel for this many more bytes (`sbrk`), then report back.
    Grow(usize),
}

/// The block address of `size` bytes aligned to `align` from `start`:
/// `start` rounded up with the alignment mask.
pub open spec fn aligned_from(start: usize, align: usize) -> usize {
    ((start + align - 1) as usize) & !((align - 1) as usize)
}

/// One allocation step took `s0` to `s1` with result `r`; see `alloc_step`.
pub open spec fn bump_step(s0: BumpAllocator, size: usize, align: usize, s1: BumpAllocator, r: BumpStep) -> bool {
    if s0.heap_end == 0 {
        r == BumpStep::Grow(HEAP_CHUNK) && s1 == s0
    } else {
        let aligned = aligned_from(s0.heap_start, align);
        let new_start = aligned + size;
        if new_start <= s0.heap_end {
            r == BumpStep::Done(aligned) && s1.heap_start == new_start && s1.heap_end == s0.heap_end
        } else {
            let needed = new_start - s0.heap_end;
            r == BumpStep::Grow((if needed < HEAP_CHUNK { HEAP_CHUNK as int } else { needed }) as usize)
                && s1 == s0
        }
    }
}

impl BumpAllocator {
    /// An allocator with no heap yet.
    pub fn new() -> (r: BumpAllocator)
        ensures
            r.heap_start == 0,
            r.heap_end == 0,
    {
        BumpAllocator { heap_start: 0, heap_end: 0 }
    }

    /// One step of allocating `size` bytes aligned to `align`: with no heap
    /// yet, ask for a first chunk; if the aligned block fits, take it; else
    /// ask for the missing bytes (at least a chunk). Alignment rounds up with a
    /// mask, as for the power-of-two alignments that layouts have.
    pub fn alloc_step(&mut self, size: usize, align: usize) -> (r: BumpStep)
        requires
            align > 0,
            old(self).heap_end != 0 ==> old(self).heap_start + align <= usize::MAX,
            old(self).heap_end != 0 ==> (((old(self).heap_start + align - 1) as usize) & !((align
                - 1) as usize)) + size <= usize::MAX,
        ensures
            bump_step(*old(self), size, align, *final(self), r),
    {
        if self.heap_end == 0 {
            return BumpStep::Grow(HEAP_CHUNK);
        }
        let sum = self.heap_start + align - 1;
        let aligned = sum & !(align - 1);
        assert(sum & !((align - 1) as usize) <= sum) by (bit_vector);
        let new_start = aligned + size;
        if new_start <= self.heap_end {
            self.heap_start = new_start;
            BumpStep::Done(aligned)
        } else {
            let needed = new_start - self.heap_end;
            BumpStep::Grow(if needed < HEAP_CHUNK { HEAP_CHUNK } else { needed })
        }
    }

    /// Record the kernel's answer to a `Grow(chunk)` request: `base` is the
    /// old break it returned (0 on failure). The first chunk sets up the heap;
    /// later chunks extend it. False when the kernel refused.
    pub fn grown(&mut self, chunk: usize, base: usize) -> (r: bool)
        requires
            old(self).heap_end == 0 ==> base + chunk <= usize::MAX,
            old(self).heap_end != 0 ==> old(self).heap_end + chunk <= usize::MAX,
        ensures
            r == (base != 0),
            base == 0 ==> *final(self) == *old(self),
            base != 0 && old(self).heap_end == 0 ==> final(self).heap_start == base
                && final(self).heap_end == base + chunk,
            base != 0 && old(self).heap_end != 0 ==> final(self).heap_start == old(self).heap_start
                && final(self).heap_end == old(self).heap_end + chunk,
    {
        if base == 0 {
            return false;
        }
        if self.heap_end == 0 {
            self.heap_start = base;
            self.heap_end = base + chunk;
        } else {
            self.heap_end = self.heap_end + chunk;
        }
        true
    }
}

/// Blocks handed out one after the other do not overlap and lie in the
/// heap: with power-of-two alignments each block starts at or after the end
/// of the one before, and ends at or before the heap's end.
pub proof fn bump_blocks_disjoint(
    s0: BumpAllocator,
    s1: BumpAllocator,
    s2: BumpAllocator,
    size_a: usize,
    align_a: usize,
    a: usize,
    size_b: usize,
    align_b: usize,
    b: usize,
)
    requires
        bump_step(s0, size_a, align_a, s1, BumpStep::Done(a)),
        bump_step(s1, size_b, align_b, s2, BumpStep::Done(b)),
        align_b > 0,
        align_b & (align_b - 1) as usize == 0,
        s1.heap_start + align_b <= usize::MAX,
    ensures
        a + size_a <= b,
        b + size_b <= s2.heap_end,
        s2.heap_end == s0.heap_end,
{
    let x = s1.heap_start;
    let al = align_b;
    let y = (x + al - 1) as usize;
    assert(y >= x);
    assert((y & !((al - 1) as usize)) >= x) by (bit_vector)
        requires al > 0, al & ((al - 1) as usize) == 0, y >= x, y == (x + al - 1) as usize;
}

/// Printing through the console driver.
pub struct ConsoleWriter;

/// The message that prints byte `b`.
pub open spec fn print_char_message(b: u8) -> Message {
    Message { sender: 0, msg_type: MSG_PRINT_CHAR, arg1: b as u64, arg2: 0, arg3: 0, arg4: 0, arg5: 0, arg6: 0 }
}

impl ConsoleWriter {
    /// The messages that print `s`, one per byte in order, each to be sent
    /// to the console driver until it is accepted.
    pub fn write_str(&mut self, s: &str) -> (r: Vec<Message>)
        ensures
            r@.len() == s.spec_bytes().len(),
            forall|k: int| 0 <= k < r@.len() ==> #[trigger] r@[k] == print_char_message(s.spec_bytes()[k]),
    {
        let bytes = s.as_bytes();
        let mut out: Vec<Message> = Vec::new();
        let mut k: usize = 0;
        while k < bytes.len()
            invariant
                k <= bytes@.len(),
                bytes@ == s.spec_bytes(),
                out@.len() == k,
                forall|j: int| 0 <= j < k ==> #[trigger] out@[j] == print_char_message(bytes@[j]),
            decreases bytes@.len() - k,
        {
            let mut msg = Message::empty();
            msg.msg_type = MSG_PRINT_CHAR;
            msg.arg1 = bytes[k] as u64;
            out.push(msg);
            k = k + 1;
        }
        out
    }
}

/// Index of the first zero byte of `s`, or `s.len()` when there is none.
pub open spec fn c_len(s: Seq<u8>, i: int) -> int
    decreases s.len() - i,
{
    if i < 0 || i >= s.len() || s[i] == 0 {
        i
    } else {
        c_len(s, i + 1)
    }
}

/// Where comparing two C strings from `i` on stops: the first index at which
/// they differ or the first has its terminator.
pub open spec fn c_diff_end(a: Seq<u8>, b: Seq<u8>, i: int) -> int
    decreases a.len() - i,
{
    if i < 0 || i >= a.len() || i >= b.len() || a[i] != b[i] || a[i] == 0 {
        i
    } else {
        c_diff_end(a, b, i + 1)
    }
}

/// The comparison's answer: the difference of the first differing bytes,
/// or 0 when the strings are equal up to the terminator.
pub open spec fn c_diff(a: Seq<u8>, b: Seq<u8>) -> int {
    let k = c_diff_end(a, b, 0);
    if a[k] != b[k] { a[k] - b[k] } else { 0 }
}

proof fn lemma_c_len_ge(s: Seq<u8>, i: int)
    requires
        0 <= i,
    ensures
        c_len(s, i) >= i,
    decreases s.len() - i,
{
    if i < s.len() && s[i] != 0 {
        lemma_c_len_ge(s, i + 1);
    }
}

proof fn lemma_c_diff_end_ge(a: Seq<u8>, b: Seq<u8>, i: int)
    requires
        0 <= i,
    ensures
        c_diff_end(a, b, i) >= i,
    decreases a.len() - i,
{
    if i < a.len() && i < b.len() && a[i] == b[i] && a[i] != 0 {
        lemma_c_diff_end_ge(a, b, i + 1);
    }
}

/// Length of the zero-terminated string at the start of `s`.
pub fn strlen(s: &[u8]) -> (r: usize)
    requires
        c_len(s@, 0) < s@.len(),
    ensures
        r == c_len(s@, 0),
{
    let mut len: usize = 0;
    proof {
        lemma_c_len_ge(s@, 0);
    }
    while s[len] != 0
        invariant
            len <= c_len(s@, 0) < s@.len(),
            c_len(s@, 0) == c_len(s@, len as int),
        decreases s@.len() - len,
    {
        len = len + 1;
        proof {
            lemma_c_len_ge(s@, len as int);
        }
    }
    len
}

/// `c_diff_end` from a position held in a `usize`.
pub open spec fn c_diff_end_at(a: Seq<u8>, b: Seq<u8>, i: usize) -> int {
    c_diff_end(a, b, i as int)
}

proof fn lemma_diff_end_ge_at(a: Seq<u8>, b: Seq<u8>, i: usize)
    ensures
        c_diff_end_at(a, b, i) >= i,
{
    lemma_c_diff_end_ge(a, b, i as int);
}

fn byte_difference(x: u8, y: u8) -> (r: i32)
    ensures
        r == x - y,
{
    x as i32 - y as i32
}

/// Compare two zero-terminated strings: 0 when equal, else the difference
/// of the first bytes that differ.
pub fn strcmp(a: &[u8], b: &[u8]) -> (r: i32)
    requires
        c_diff_end(a@, b@, 0) < a@.len(),
        c_diff_end(a@, b@, 0) < b@.len(),
    ensures
        r == c_diff(a@, b@),
{
    let mut i: usize = 0;
    proof {
        lemma_c_diff_end_ge(a@, b@, 0);
    }
    loop
        invariant
            i <= c_diff_end(a@, b@, 0),
            c_diff_end(a@, b@, 0) < a@.len(),
            c_diff_end(a@, b@, 0) < b@.len(),
            c_diff_end(a@, b@, 0) == c_diff_end_at(a@, b@, i),
        decreases a@.len() - i,
    {
        let ca = a[i];
        let cb = b[i];
        if ca != cb {
            return byte_difference(ca, cb);
        }
        if ca == 0 {
            return 0;
        }
        i = i + 1;
        proof {
            lemma_diff_end_ge_at(a@, b@, i);
        }
    }
}

} // verus!
