//! The interrupt descriptor table and the dispatch of interrupts: which
//! vector means what, and what the kernel does about it.

use vstd::prelude::*;
use crate::gdt::KERNEL_CODE_SEL;

verus! {

/// Gate type of a present, ring-0 64-bit interrupt gate.
pub const GATE_KERNEL: u8 = 0x8E;
/// Gate type of a present 64-bit interrupt gate callable from ring 3.
pub const GATE_USER: u8 = 0xEE;
pub const VECTOR_DIVIDE: u64 = 0;
pub const VECTOR_INVALID_OPCODE: u64 = 6;
pub const VECTOR_DOUBLE_FAULT: u64 = 8;
pub const VECTOR_GPF: u64 = 13;
pub const VECTOR_PAGE_FAULT: u64 = 14;
pub const VECTOR_TIMER: u64 = 32;
pub const VECTOR_KEYBOARD: u64 = 33;
pub const VECTOR_MOUSE: u64 = 44;
pub const VECTOR_SYSCALL: u64 = 0x80;
/// PID of the keyboard driver.
pub const KEYBOARD_PID: usize = 3;
/// PID of the mouse driver.
pub const MOUSE_PID: usize = 4;

/// A 16-byte interrupt gate.
#[derive(Clone, Copy, Debug, PartialEq, Eq, Structural)]
pub struct IdtEntry {
    pub offset_low: u16,
    pub selector: u16,
    pub ist: u8,
    pub type_attr: u8,
    pub offset_mid: u16,
    pub offset_high: u32,
    pub reserved: u32,
}

/// The absent gate.
pub open spec fn missing_gate() -> IdtEntry {
    IdtEntry { offset_low: 0, selector: 0, ist: 0, type_attr: 0, offset_mid: 0, offset_high: 0, reserved: 0 }
}

/// A gate to `handler` in the kernel's code segment.
pub open spec fn gate(handler: u64, ist: u8, type_attr: u8) -> IdtEntry {
    IdtEntry {
        offset_low: handler as u16,
        selector: KERNEL_CODE_SEL,
        ist,
        type_attr,
        offset_mid: (handler >> 16u64) as u16,
        offset_high: (handler >> 32u64) as u32,
        reserved: 0,
    }
}

impl IdtEntry {
    /// An absent gate.
    pub fn missing() -> (r: IdtEntry)
        ensures
            r == missing_gate(),
    {
        IdtEntry { offset_low: 0, selector: 0, ist: 0, type_attr: 0, offset_mid: 0, offset_high: 0, reserved: 0 }
    }

    /// Make this a kernel-only interrupt gate to `handler`, on interrupt
    /// stack `ist_index` (0 for none).
    pub fn set_handler(&mut self, handler: u64, ist_index: u8)
        ensures
            *final(self) == gate(handler, ist_index, GATE_KERNEL),
    {
        self.offset_low = handler as u16;
        self.offset_mid = (handler >> 16u64) as u16;
        self.offset_high = (handler >> 32u64) as u32;
        self.selector = KERNEL_CODE_SEL;
        self.ist = ist_index;
        self.type_attr = GATE_KERNEL;
        self.reserved = 0;
    }

    /// Make this an interrupt gate to `handler` that user mode may invoke.
    pub fn set_handler_user(&mut self, handler: u64, ist_index: u8)
        ensures
            *final(self) == gate(handler, ist_index, GATE_USER),
    {
        self.offset_low = handler as u16;
        self.offset_mid = (handler >> 16u64) as u16;
        self.offset_high = (handler >> 32u64) as u32;
        self.selector = KERNEL_CODE_SEL;
        self.ist = ist_index;
        self.type_attr = GATE_USER;
        self.reserved = 0;
    }
}

/// Gate of vector `v` in the table built from the addresses of the
/// low-level handlers: exceptions 0 to 19 (`handlers[v]`, the double fault
/// on IST1), the timer, keyboard and mouse lines (`handlers[20..23]`) and
/// the system call gate (`handlers[23]`, open to user mode); every other
/// vector is absent.
pub open spec fn idt_gate(handlers: Seq<u64>, v: int) -> IdtEntry {
    if 0 <= v < 20 {
        gate(handlers[v], if v == 8 { 1 } else { 0 }, GATE_KERNEL)
    } else if v == 32 {
        gate(handlers[20], 0, GATE_KERNEL)
    } else if v == 33 {
        gate(handlers[21], 0, GATE_KERNEL)
    } else if v == 44 {
        gate(handlers[22], 0, GATE_KERNEL)
    } else if v == 0x80 {
        gate(handlers[23], 0, GATE_USER)
    } else {
        missing_gate()
    }
}

/// Build the 256-entry table from the handlers' addresses; see `idt_gate`.
pub fn init(handlers: &[u64; 24]) -> (idt: Vec<IdtEntry>)
    ensures
        idt@.len() == 256,
        forall|v: int| 0 <= v < 256 ==> #[trigger] idt@[v] == idt_gate(handlers@, v),
{
    let mut idt: Vec<IdtEntry> = Vec::new();
    let mut v: usize = 0;
    while v < 256
        invariant
            v <= 256,
            idt@.len() == v,
            forall|u: int| 0 <= u < v ==> #[trigger] idt@[u] == idt_gate(handlers@, u),
        decreases 256 - v,
    {
        let mut e = IdtEntry::missing();
        if v < 20 {
            e.set_handler(handlers[v], if v == 8 { 1 } else { 0 });
        } else if v == 32 {
            e.set_handler(handlers[20], 0);
        } else if v == 33 {
            e.set_handler(handlers[21], 0);
        } else if v == 44 {
            e.set_handler(handlers[22], 0);
        } else if v == 0x80 {
            e.set_handler_user(handlers[23], 0);
        }
        idt.push(e);
        v = v + 1;
    }
    idt
}

/// What the kernel does for an interrupt.
#[derive(Clone, Copy, Debug, PartialEq, Eq, Structural)]
pub enum InterruptAction {
    /// An unrecoverable exception: report it and halt.
    Halt,
    /// A page fault from user mode: map the page on demand or kill the
    /// process.
    UserPageFault,
    /// The timer: acknowledge line 0 and schedule.
    Timer,
    /// The keyboard: forward the scancode to the keyboard driver and
    /// acknowledge line 1.
    Keyboard,
    /// The mouse: forward the byte to the mouse driver and acknowledge
    /// line 12.
    Mouse,
    /// A system call.
    Syscall,
    /// Another hardware line: acknowledge it.
    Acknowledge { irq: u8 },
    /// Nothing to do: return to the interrupted code.
    Resume,
}

/// The action for vector `int_num` with the given error code.
pub open spec fn action_for(int_num: u64, error_code: u64) -> InterruptAction {
    if int_num == VECTOR_DIVIDE || int_num == VECTOR_INVALID_OPCODE || int_num == VECTOR_DOUBLE_FAULT
        || int_num == VECTOR_GPF {
        InterruptAction::Halt
    } else if int_num == VECTOR_PAGE_FAULT {
        if error_code & 0x4 != 0 { InterruptAction::UserPageFault } else { InterruptAction::Halt }
    } else if int_num == VECTOR_TIMER {
        InterruptAction::Timer
    } else if int_num == VECTOR_KEYBOARD {
        InterruptAction::Keyboard
    } else if int_num == VECTOR_SYSCALL {
        InterruptAction::Syscall
    } else if int_num == VECTOR_MOUSE {
        InterruptAction::Mouse
    } else if 32 <= int_num < 48 {
        InterruptAction::Acknowledge { irq: (int_num - 32) as u8 }
    } else {
        InterruptAction::Resume
    }
}

/// Decide what to do for an interrupt; see `action_for`.
pub fn classify(int_num: u64, error_code: u64) -> (r: InterruptAction)
    ensures
        r == action_for(int_num, error_code),
{
    if int_num == VECTOR_DIVIDE || int_num == VECTOR_INVALID_OPCODE || int_num == VECTOR_DOUBLE_FAULT
        || int_num == VECTOR_GPF {
        InterruptAction::Halt
    } else if int_num == VECTOR_PAGE_FAULT {
        if error_code & 0x4 != 0 {
            InterruptAction::UserPageFault
        } else {
            InterruptAction::Halt
        }
    } else if int_num == VECTOR_TIMER {
        InterruptAction::Timer
    } else if int_num == VECTOR_KEYBOARD {
        InterruptAction::Keyboard
    } else if int_num == VECTOR_SYSCALL {
        InterruptAction::Syscall
    } else if int_num == VECTOR_MOUSE {
        InterruptAction::Mouse
    } else if int_num >= 32 && int_num < 48 {
        InterruptAction::Acknowledge { irq: (int_num - 32) as u8 }
    } else {
        InterruptAction::Resume
    }
}

/// The PS/2 controller's configuration byte with the mouse enabled: the
/// mouse interrupt (bit 1) on and the mouse clock (bit 5) running.
pub fn mouse_config(config: u8) -> (r: u8)
    ensures
        r == (config | 0x02) & !0x20u8,
{
    (config | 0x02) & !0x20u8
}

} // verus!
