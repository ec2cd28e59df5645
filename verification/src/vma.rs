//! Virtual memory areas: per-process lists of valid user address ranges.

use vstd::prelude::*;

verus! {

/// Page-table flag: the page may be written.
pub const PAGE_WRITABLE: u64 = 2;
/// Page-table flag: the page is reachable from ring 3.
pub const PAGE_USER: u64 = 4;

/// Highest (exclusive) address that user mappings may reach.
pub const USER_SPACE_END: u64 = 0x0000_7FFF_0000_0000;

/// Access flags of a virtual memory area, as a bit set.
#[derive(Debug, Clone, Copy, PartialEq, Eq, Structural)]
pub struct VmaFlags(pub u64);

/// Bit of `VmaFlags`: readable.
pub const VMA_READ: u64 = 1;
/// Bit of `VmaFlags`: writable.
pub const VMA_WRITE: u64 = 2;
/// Bit of `VmaFlags`: executable.
pub const VMA_EXEC: u64 = 4;
/// Bit of `VmaFlags`: user-accessible.
pub const VMA_USER: u64 = 8;
/// Bit of `VmaFlags`: shared between processes.
pub const VMA_SHARED: u64 = 16;

impl VmaFlags {
    /// The empty flag set.
    pub fn empty() -> (r: VmaFlags)
        ensures
            r.0 == 0,
    {
        VmaFlags(0)
    }

    /// True when every flag of `other` is set in `self`.
    pub fn contains(&self, other: VmaFlags) -> (r: bool)
        ensures
            r == (self.0 & other.0 == other.0),
    {
        self.0 & other.0 == other.0
    }

    /// The raw bits.
    pub fn bits(&self) -> (r: u64)
        ensures
            r == self.0,
    {
        self.0
    }

    /// The union of two flag sets.
    pub fn union(self, rhs: VmaFlags) -> (r: VmaFlags)
        ensures
            r.0 == self.0 | rhs.0,
    {
        VmaFlags(self.0 | rhs.0)
    }
}

/// What backs a virtual memory area.
#[derive(Debug, Clone)]
pub enum VmaBacking {
    /// Zero-filled on demand (stack, heap, BSS).
    Anonymous,
    /// Backed by a copy of ELF segment bytes.
    ElfSegment { data: Vec<u8>, file_offset: usize, file_size: usize },
    /// Physical memory mapping (e.g. framebuffer), not demand-paged.
    PhysicalMap { phys_start: u64 },
}

/// A contiguous range `[start, end)` of valid virtual addresses.
#[derive(Debug, Clone)]
pub struct Vma {
    pub start: u64,
    pub end: u64,
    pub flags: VmaFlags,
    pub backing: VmaBacking,
}

/// `addr` lies in `[start, end)`.
pub open spec fn vma_holds(v: Vma, addr: u64) -> bool {
    v.start <= addr && addr < v.end
}

/// The page-table flags that a VMA with these flags maps its pages with.
pub open spec fn page_flags_of(flags: VmaFlags) -> u64 {
    if flags.0 & 2 == 2 {
        PAGE_USER | PAGE_WRITABLE
    } else {
        PAGE_USER
    }
}

impl Vma {
    /// True when `addr` falls within this area.
    pub fn contains(&self, addr: u64) -> (r: bool)
        ensures
            r == vma_holds(*self, addr),
    {
        addr >= self.start && addr < self.end
    }

    /// Page-table flags for this area: always user-accessible, writable when
    /// the area allows writes.
    pub fn page_flags(&self) -> (r: u64)
        ensures
            r == page_flags_of(self.flags),
    {
        let mut pf = PAGE_USER;
        if self.flags.contains(VmaFlags(VMA_WRITE)) {
            pf = pf | PAGE_WRITABLE;
        }
        pf
    }
}

/// Round up to a multiple of the page size.
pub open spec fn page_align_up(x: int) -> int {
    ((x + 4095) / 4096) * 4096
}

/// The range `[a, a + size)` overlaps the area `v`.
pub open spec fn overlaps(v: Vma, a: int, size: int) -> bool {
    a < v.end && a + size > v.start
}

/// `[a, a + size)` is a page-aligned range inside user space that overlaps no area of `regions`.
pub open spec fn is_free_slot(regions: Seq<Vma>, a: int, size: int) -> bool {
    &&& a % 4096 == 0
    &&& a + size <= USER_SPACE_END
    &&& forall|i: int| 0 <= i < regions.len() ==> !overlaps(#[trigger] regions[i], a, size)
}

/// Per-process list of virtual memory areas.
#[derive(Debug, Clone)]
pub struct VmaList {
    pub regions: Vec<Vma>,
}

impl VmaList {
    /// An empty list.
    pub fn new() -> (r: VmaList)
        ensures
            r.regions@.len() == 0,
    {
        VmaList { regions: Vec::new() }
    }

    /// Append an area.
    pub fn add(&mut self, vma: Vma)
        ensures
            final(self).regions@ == old(self).regions@.push(vma),
    {
        self.regions.push(vma);
    }

    /// The first area (in insertion order) that contains `addr`, if any.
    pub fn find(&self, addr: u64) -> (r: Option<&Vma>)
        ensures
            r is None <==> forall|i: int|
                0 <= i < self.regions@.len() ==> !vma_holds(#[trigger] self.regions@[i], addr),
            r matches Some(v) ==> exists|i: int|
                0 <= i < self.regions@.len() && self.regions@[i] == *v && vma_holds(*v, addr)
                    && forall|j: int| 0 <= j < i ==> !vma_holds(#[trigger] self.regions@[j], addr),
    {
        let mut i: usize = 0;
        while i < self.regions.len()
            invariant
                i <= self.regions@.len(),
                forall|j: int| 0 <= j < i ==> !vma_holds(#[trigger] self.regions@[j], addr),
            decreases self.regions@.len() - i,
        {
            if self.regions[i].contains(addr) {
                return Some(&self.regions[i]);
            }
            i = i + 1;
        }
        None
    }

    /// Remove every area.
    pub fn clear(&mut self)
        ensures
            final(self).regions@.len() == 0,
    {
        self.regions.clear();
    }

    /// Find a free page-aligned range of `size` bytes (rounded up to pages),
    /// searching upward from `hint` (rounded up to a page). The search is
    /// first-fit: the result is the lowest aligned address at or above the
    /// hint whose range is free and ends within user space.
    pub fn find_free_region(&self, hint: u64, size: u64) -> (r: Option<u64>)
        requires
            hint <= u64::MAX - 4095,
            size <= u64::MAX - 4095,
        ensures
            r matches Some(a) ==> {
                &&& a >= page_align_up(hint as int)
                &&& is_free_slot(self.regions@, a as int, page_align_up(size as int))
                &&& forall|b: int|
                    page_align_up(hint as int) <= b < a ==> !is_free_slot(
                        self.regions@,
                        b,
                        page_align_up(size as int),
                    )
            },
            r is None ==> forall|b: int|
                b >= page_align_up(hint as int) ==> !is_free_slot(
                    self.regions@,
                    b,
                    page_align_up(size as int),
                ),
    {
        let aligned_hint = (hint + 0xFFF) & !0xFFFu64;
        let aligned_size = (size + 0xFFF) & !0xFFFu64;
        proof {
            lemma_align_up(hint);
            lemma_align_up(size);
        }
        let ghost ah = page_align_up(hint as int);
        let ghost asz = page_align_up(size as int);
        let mut candidate = aligned_hint;
        loop
            invariant
                candidate >= ah,
                candidate as int % 4096 == 0,
                ah == aligned_hint,
                asz == aligned_size as int,
                ah == page_align_up(hint as int),
                asz == page_align_up(size as int),
                ah % 4096 == 0,
                forall|b: int|
                    ah <= b < candidate ==> !is_free_slot(#[trigger] self.regions@, b, asz),
            decreases USER_SPACE_END + 1 - candidate,
        {
            if aligned_size > USER_SPACE_END || candidate > USER_SPACE_END - aligned_size {
                assert forall|b: int| b >= ah implies !is_free_slot(self.regions@, b, asz) by {
                    if b >= candidate {
                    }
                }
                return None;
            }
            let mut i: usize = 0;
            while i < self.regions.len()
                invariant_except_break
                    forall|j: int|
                        0 <= j < i ==> !overlaps(
                            #[trigger] self.regions@[j],
                            candidate as int,
                            aligned_size as int,
                        ),
                invariant
                    i <= self.regions@.len(),
                    candidate + aligned_size <= USER_SPACE_END,
                ensures
                    i <= self.regions@.len(),
                    i < self.regions@.len() ==> overlaps(
                        self.regions@[i as int],
                        candidate as int,
                        aligned_size as int,
                    ),
                    i == self.regions@.len() ==> forall|j: int|
                        0 <= j < i ==> !overlaps(
                            #[trigger] self.regions@[j],
                            candidate as int,
                            aligned_size as int,
                        ),
                decreases self.regions@.len() - i,
            {
                let v = &self.regions[i];
                if candidate < v.end && candidate + aligned_size > v.start {
                    break;
                }
                i = i + 1;
            }
            if i == self.regions.len() {
                assert(is_free_slot(self.regions@, candidate as int, asz));
                return Some(candidate);
            }
            let ghost vi = self.regions@[i as int];
            let end = self.regions[i].end;
            if end > USER_SPACE_END {
                assert forall|b: int| b >= ah implies !is_free_slot(self.regions@, b, asz) by {
                    if b >= candidate && b + asz <= USER_SPACE_END {
                        assert(overlaps(self.regions@[i as int], b, asz));
                    }
                }
                return None;
            }
            let next = (end + 0xFFF) & !0xFFFu64;
            proof {
                lemma_align_up(end);
                assert forall|b: int| ah <= b < next implies !is_free_slot(
                    self.regions@,
                    b,
                    asz,
                ) by {
                    if b >= candidate && b % 4096 == 0 {
                        assert(b < end);
                        assert(overlaps(self.regions@[i as int], b, asz));
                    }
                }
            }
            candidate = next;
        }
    }
}

/// Rounding up with the mask matches the arithmetic definition.
proof fn lemma_align_up(x: u64)
    requires
        x <= u64::MAX - 4095,
    ensures
        (((x + 0xFFF) as u64) & !0xFFFu64) as int == page_align_up(x as int),
        (((x + 0xFFF) as u64) & !0xFFFu64) as int % 4096 == 0,
        (((x + 0xFFF) as u64) & !0xFFFu64) >= x,
{
    let y: u64 = (x + 0xFFF) as u64;
    assert(y & !0xFFFu64 == y - y % 4096) by (bit_vector);
    assert(((y - y % 4096) as u64) % 4096 == 0) by (bit_vector);
}

} // verus!
