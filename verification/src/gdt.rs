//! The global descriptor table: flat code and data segments for the kernel
//! and user mode, and the task state segment that holds the kernel stack
//! for ring transitions.

use vstd::prelude::*;

verus! {

pub const KERNEL_CODE_SEL: u16 = 0x08;
pub const KERNEL_DATA_SEL: u16 = 0x10;
pub const USER_DATA_SEL: u16 = 0x18;
pub const USER_CODE_SEL: u16 = 0x20;
pub const TSS_SEL: u16 = 0x28;
/// Size in bytes of the packed 64-bit task state segment.
pub const TSS_SIZE: u16 = 104;
/// Size of the double-fault stack.
pub const DOUBLE_FAULT_STACK_SIZE: usize = 16384;

/// An 8-byte segment descriptor.
#[derive(Clone, Copy, Debug, PartialEq, Eq, Structural)]
pub struct GdtEntry {
    pub limit_low: u16,
    pub base_low: u16,
    pub base_mid: u8,
    pub access: u8,
    pub flags_limit_high: u8,
    pub base_high: u8,
}

/// The 64-bit task state segment.
#[derive(Clone, Copy, Debug)]
pub struct Tss {
    pub reserved0: u32,
    /// Stack pointers for rings 0 to 2.
    pub rsp: [u64; 3],
    pub reserved1: u64,
    /// Interrupt stack table, IST1 to IST7.
    pub ist: [u64; 7],
    pub reserved2: u64,
    pub reserved3: u16,
    pub iopb_offset: u16,
}

/// The descriptor as the 64-bit word the processor reads (little-endian
/// fields in declaration order).
pub open spec fn entry_bits(e: GdtEntry) -> u64 {
    (e.limit_low as u64) | ((e.base_low as u64) << 16u64) | ((e.base_mid as u64) << 32u64) | ((
    e.access as u64) << 40u64) | ((e.flags_limit_high as u64) << 48u64) | ((e.base_high as u64)
        << 56u64)
}

/// Low word of a 64-bit TSS descriptor for a segment at `base` with the
/// given limit: type "available 64-bit TSS", present.
pub open spec fn tss_low_bits(base: u64, limit: u64) -> u64 {
    (limit & 0xFFFF) | ((base & 0xFFFF) << 16u64) | (((base >> 16u64) & 0xFF) << 32u64) | (0x89u64
        << 40u64) | (((limit >> 16u64) & 0xF) << 48u64) | (((base >> 24u64) & 0xFF) << 56u64)
}

/// The descriptor for a flat segment with the given access byte and flags.
pub open spec fn flat_segment(access: u8, flags: u8) -> GdtEntry {
    GdtEntry {
        limit_low: 0xFFFF,
        base_low: 0,
        base_mid: 0,
        access,
        flags_limit_high: (flags << 4u8) | 0x0F,
        base_high: 0,
    }
}

impl GdtEntry {
    /// The null descriptor.
    pub fn null() -> (r: GdtEntry)
        ensures
            r == (GdtEntry { limit_low: 0, base_low: 0, base_mid: 0, access: 0, flags_limit_high: 0, base_high: 0 }),
    {
        GdtEntry { limit_low: 0, base_low: 0, base_mid: 0, access: 0, flags_limit_high: 0, base_high: 0 }
    }

    /// A flat code or data segment; in long mode only the access byte and
    /// the flags matter.
    pub fn new(access: u8, flags: u8) -> (r: GdtEntry)
        ensures
            r == flat_segment(access, flags),
    {
        GdtEntry {
            limit_low: 0xFFFF,
            base_low: 0,
            base_mid: 0,
            access,
            flags_limit_high: (flags << 4u8) | 0x0F,
            base_high: 0,
        }
    }

    /// The descriptor as a 64-bit table word.
    pub fn to_bits(&self) -> (r: u64)
        ensures
            r == entry_bits(*self),
    {
        (self.limit_low as u64) | ((self.base_low as u64) << 16u64) | ((self.base_mid as u64)
            << 32u64) | ((self.access as u64) << 40u64) | ((self.flags_limit_high as u64) << 48u64)
            | ((self.base_high as u64) << 56u64)
    }
}

impl Tss {
    /// An empty task state segment with no I/O permission map.
    pub fn new() -> (r: Tss)
        ensures
            r.reserved0 == 0 && r.reserved1 == 0 && r.reserved2 == 0 && r.reserved3 == 0,
            r.rsp@ == seq![0u64, 0u64, 0u64],
            forall|i: int| 0 <= i < 7 ==> r.ist@[i] == 0,
            r.iopb_offset == TSS_SIZE,
    {
        Tss {
            reserved0: 0,
            rsp: [0; 3],
            reserved1: 0,
            ist: [0; 7],
            reserved2: 0,
            reserved3: 0,
            iopb_offset: TSS_SIZE,
        }
    }
}

/// Set the ring-0 stack used on entry from user mode.
pub fn set_tss_stack(tss: &mut Tss, stack_ptr: u64)
    ensures
        final(tss).rsp@ == old(tss).rsp@.update(0, stack_ptr),
        final(tss).ist == old(tss).ist,
        final(tss).iopb_offset == old(tss).iopb_offset,
{
    tss.rsp[0] = stack_ptr;
}

/// The two table words of the descriptor of a TSS at `base`.
pub fn tss_descriptor(base: u64, limit: u64) -> (r: (u64, u64))
    ensures
        r.0 == tss_low_bits(base, limit),
        r.1 == base >> 32u64,
{
    let low: u64 = (limit & 0xFFFF) | ((base & 0xFFFF) << 16u64) | (((base >> 16u64) & 0xFF)
        << 32u64) | (0x89u64 << 40u64) | (((limit >> 16u64) & 0xF) << 48u64) | (((base >> 24u64)
        & 0xFF) << 56u64);
    (low, base >> 32u64)
}

/// Prepare the descriptor table: point IST1 and the ring-0 stack at the end
/// of the double-fault stack, and build the seven table words for the null
/// segment, kernel code and data, user data and code, and the TSS at
/// `tss_addr`.
pub fn init(tss: &mut Tss, stack_end: u64, tss_addr: u64) -> (table: [u64; 7])
    ensures
        final(tss).ist@ == old(tss).ist@.update(0, stack_end),
        final(tss).rsp@ == old(tss).rsp@.update(0, stack_end),
        final(tss).iopb_offset == old(tss).iopb_offset,
        table@[0] == 0,
        table@[1] == entry_bits(flat_segment(0x9A, 0xA)),
        table@[2] == entry_bits(flat_segment(0x92, 0xC)),
        table@[3] == entry_bits(flat_segment(0xF2, 0xC)),
        table@[4] == entry_bits(flat_segment(0xFA, 0xA)),
        table@[5] == tss_low_bits(tss_addr, (TSS_SIZE - 1) as u64),
        table@[6] == tss_addr >> 32u64,
{
    tss.ist[0] = stack_end;
    tss.rsp[0] = stack_end;
    let null = GdtEntry::null();
    let kernel_code = GdtEntry::new(0x9A, 0xA);
    let kernel_data = GdtEntry::new(0x92, 0xC);
    let user_data = GdtEntry::new(0xF2, 0xC);
    let user_code = GdtEntry::new(0xFA, 0xA);
    let n = null.to_bits();
    assert(n == 0) by (bit_vector)
        requires n == entry_bits(GdtEntry { limit_low: 0, base_low: 0, base_mid: 0, access: 0, flags_limit_high: 0, base_high: 0 });
    let (tss_low, tss_high) = tss_descriptor(tss_addr, (TSS_SIZE - 1) as u64);
    [n, kernel_code.to_bits(), kernel_data.to_bits(), user_data.to_bits(), user_code.to_bits(), tss_low, tss_high]
}

} // verus!
