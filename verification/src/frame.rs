//! Physical page frame allocator: one bit per 4 KiB frame (1 = in use).

use vstd::prelude::*;
use vstd::set_lib::{lemma_int_range, lemma_len_subset, lemma_set_disjoint_lens, set_int_range};

verus! {

/// Page/frame size: 4 KiB.
pub const PAGE_SIZE: usize = 4096;
/// Number of frames the bitmap covers (4 GiB of physical memory).
pub const MAX_FRAMES: usize = 1048576;
/// Bitmap size in bytes: one bit per frame.
pub const BITMAP_SIZE: usize = 131072;

/// Frame `f` is marked free in `bitmap`.
pub open spec fn bit_free(bitmap: Seq<u8>, f: int) -> bool {
    bitmap[f / 8] & (1u8 << ((f % 8) as u8)) == 0
}

/// The frames of the bitmap marked in use.
pub open spec fn used_set(bitmap: Seq<u8>) -> Set<int> {
    Set::new(|f: int| 0 <= f < MAX_FRAMES && !bit_free(bitmap, f))
}

/// The bitmap with frame `f` marked free (`free`) or in use; frames outside
/// the bitmap are ignored.
pub open spec fn with_frame(bitmap: Seq<u8>, f: int, free: bool) -> Seq<u8> {
    if 0 <= f < MAX_FRAMES {
        let b = bitmap[f / 8];
        let m = 1u8 << ((f % 8) as u8);
        bitmap.update(f / 8, if free { b & !m } else { b | m })
    } else {
        bitmap
    }
}

/// `f` is the lowest free frame.
pub open spec fn lowest_free(bitmap: Seq<u8>, f: int) -> bool {
    0 <= f < MAX_FRAMES && bit_free(bitmap, f) && forall|g: int| 0 <= g < f ==> !bit_free(bitmap, g)
}

proof fn lemma_bits(b: u8, k: u8, j: u8)
    requires
        k < 8,
        j < 8,
    ensures
        ((b | (1u8 << k)) & (1u8 << j) == 0) == (j != k && b & (1u8 << j) == 0),
        ((b & !(1u8 << k)) & (1u8 << j) == 0) == (j == k || b & (1u8 << j) == 0),
        (b != 0xFFu8) == exists|i: u8| i < 8 && #[trigger] (b & (1u8 << i)) == 0,
{
    assert(((b | (1u8 << k)) & (1u8 << j) == 0) == (j != k && b & (1u8 << j) == 0)) by (bit_vector)
        requires k < 8, j < 8;
    assert(((b & !(1u8 << k)) & (1u8 << j) == 0) == (j == k || b & (1u8 << j) == 0)) by (bit_vector)
        requires k < 8, j < 8;
    if b != 0xFFu8 {
        assert(b & (1u8 << 0u8) == 0 || b & (1u8 << 1u8) == 0 || b & (1u8 << 2u8) == 0 || b & (1u8
            << 3u8) == 0 || b & (1u8 << 4u8) == 0 || b & (1u8 << 5u8) == 0 || b & (1u8 << 6u8) == 0
            || b & (1u8 << 7u8) == 0) by (bit_vector)
            requires b != 0xFFu8;
    } else {
        assert forall|i: u8| i < 8 implies (b & (1u8 << i)) != 0 by {
            assert(b == 0xFFu8 && i < 8 ==> (b & (1u8 << i)) != 0) by (bit_vector);
        }
    }
}

/// Changing one frame's bit changes only that frame's state.
proof fn lemma_with_frame(bitmap: Seq<u8>, f: int, free: bool, g: int)
    requires
        bitmap.len() == BITMAP_SIZE,
        0 <= f < MAX_FRAMES,
        0 <= g < MAX_FRAMES,
    ensures
        bit_free(with_frame(bitmap, f, free), g) == if g == f { free } else { bit_free(bitmap, g) },
{
    let b = bitmap[f / 8];
    lemma_bits(b, (f % 8) as u8, (g % 8) as u8);
    if g / 8 == f / 8 && g != f {
        assert(g % 8 != f % 8);
    }
}

/// Allocator state: the bitmap and the counts of usable and allocated frames.
pub struct FrameAllocatorInner {
    bitmap: Vec<u8>,
    total_frames: usize,
    used_frames: usize,
}

impl FrameAllocatorInner {
    pub closed spec fn wf(&self) -> bool {
        &&& self.bitmap@.len() == BITMAP_SIZE
        &&& self.used_frames <= used_set(self.bitmap@).len()
    }

    /// The frame bitmap.
    pub closed spec fn bits(&self) -> Seq<u8> {
        self.bitmap@
    }

    /// Frames counted as usable at initialisation.
    pub closed spec fn total(&self) -> int {
        self.total_frames as int
    }

    /// Frames counted as allocated.
    pub closed spec fn used(&self) -> int {
        self.used_frames as int
    }

    /// Frame `f` is free.
    pub open spec fn free(&self, f: int) -> bool {
        0 <= f < MAX_FRAMES && bit_free(self.bits(), f)
    }

    /// Every frame marked in use, no frame counted.
    pub fn new() -> (r: FrameAllocatorInner)
        ensures
            r.wf(),
            r.bits().len() == BITMAP_SIZE,
            forall|f: int| !r.free(f),
            r.total() == 0,
            r.used() == 0,
    {
        let mut bitmap: Vec<u8> = Vec::new();
        let mut i: usize = 0;
        while i < BITMAP_SIZE
            invariant
                i <= BITMAP_SIZE,
                bitmap@.len() == i,
                forall|j: int| 0 <= j < i ==> bitmap@[j] == 0xFFu8,
            decreases BITMAP_SIZE - i,
        {
            bitmap.push(0xFF);
            i = i + 1;
        }
        let r = FrameAllocatorInner { bitmap, total_frames: 0, used_frames: 0 };
        assert forall|f: int| !r.free(f) by {
            if 0 <= f < MAX_FRAMES {
                let k = (f % 8) as u8;
                assert(0xFFu8 & (1u8 << k) != 0) by (bit_vector)
                    requires k < 8;
            }
        }
        r
    }

    /// Mark frame `frame` free (ignored outside the bitmap).
    pub fn mark_free(&mut self, frame: usize)
        requires
            old(self).bits().len() == BITMAP_SIZE,
        ensures
            final(self).bits() == with_frame(old(self).bits(), frame as int, true),
            final(self).total() == old(self).total(),
            final(self).used() == old(self).used(),
    {
        let byte = frame / 8;
        let bit = (frame % 8) as u8;
        if byte < BITMAP_SIZE {
            let b = self.bitmap[byte];
            self.bitmap.set(byte, b & !(1u8 << bit));
        }
    }

    /// Mark frame `frame` in use (ignored outside the bitmap).
    pub fn mark_used(&mut self, frame: usize)
        requires
            old(self).bits().len() == BITMAP_SIZE,
        ensures
            final(self).bits() == with_frame(old(self).bits(), frame as int, false),
            final(self).total() == old(self).total(),
            final(self).used() == old(self).used(),
    {
        let byte = frame / 8;
        let bit = (frame % 8) as u8;
        if byte < BITMAP_SIZE {
            let b = self.bitmap[byte];
            self.bitmap.set(byte, b | (1u8 << bit));
        }
    }

    /// True when `frame` is inside the bitmap and free.
    pub fn is_free(&self, frame: usize) -> (r: bool)
        requires
            self.bits().len() == BITMAP_SIZE,
        ensures
            r == self.free(frame as int),
    {
        let byte = frame / 8;
        let bit = (frame % 8) as u8;
        if byte < BITMAP_SIZE {
            self.bitmap[byte] & (1u8 << bit) == 0
        } else {
            false
        }
    }

    /// Allocate the lowest free frame and return its physical address.
    pub fn allocate(&mut self) -> (r: Option<u64>)
        requires
            old(self).wf(),
        ensures
            final(self).wf(),
            final(self).total() == old(self).total(),
            r matches Some(a) ==> {
                let f = a as int / PAGE_SIZE as int;
                &&& a as int % PAGE_SIZE as int == 0
                &&& lowest_free(old(self).bits(), f)
                &&& final(self).bits() == with_frame(old(self).bits(), f, false)
                &&& final(self).used() == old(self).used() + 1
            },
            r is None ==> {
                &&& forall|f: int| !old(self).free(f)
                &&& final(self).bits() == old(self).bits()
                &&& final(self).used() == old(self).used()
            },
    {
        let mut byte_idx: usize = 0;
        while byte_idx < BITMAP_SIZE
            invariant
                byte_idx <= BITMAP_SIZE,
                self.wf(),
                self.bitmap@ == old(self).bitmap@,
                self.used_frames == old(self).used_frames,
                self.total_frames == old(self).total_frames,
                forall|g: int| 0 <= g < byte_idx * 8 ==> !bit_free(self.bitmap@, g),
            decreases BITMAP_SIZE - byte_idx,
        {
            if self.bitmap[byte_idx] != 0xFF {
                let mut bit: usize = 0;
                while bit < 8
                    invariant
                        bit <= 8,
                        byte_idx < BITMAP_SIZE,
                        self.wf(),
                        self.bitmap@ == old(self).bitmap@,
                        self.used_frames == old(self).used_frames,
                        self.total_frames == old(self).total_frames,
                        forall|g: int| 0 <= g < byte_idx * 8 + bit ==> !bit_free(self.bitmap@, g),
                    decreases 8 - bit,
                {
                    let frame = byte_idx * 8 + bit;
                    if self.is_free(frame) {
                        let ghost before = self.bitmap@;
                        self.mark_used(frame);
                        proof {
                            lemma_used_grows(before, frame as int);
                            lemma_used_finite(before);
                        }
                        self.used_frames = self.used_frames + 1;
                        return Some((frame as u64) * 4096);
                    }
                    bit = bit + 1;
                }
            } else {
                proof {
                    assert forall|g: int| byte_idx * 8 <= g < byte_idx * 8 + 8 implies !bit_free(
                        self.bitmap@,
                        g,
                    ) by {
                        let k = (g % 8) as u8;
                        assert(g / 8 == byte_idx);
                        assert(0xFFu8 & (1u8 << k) != 0) by (bit_vector)
                            requires k < 8;
                    }
                }
            }
            byte_idx = byte_idx + 1;
        }
        None
    }

    /// Free the frame at physical address `phys_addr` if it is in use; the
    /// allocated count drops by one (never below zero) whenever the frame is
    /// not already free, including addresses outside the bitmap.
    pub fn dealloc(&mut self, phys_addr: u64)
        requires
            old(self).wf(),
        ensures
            final(self).wf(),
            final(self).total() == old(self).total(),
            ({
                let f = phys_addr as int / PAGE_SIZE as int;
                if old(self).free(f) {
                    final(self).bits() == old(self).bits() && final(self).used() == old(self).used()
                } else {
                    &&& final(self).bits() == with_frame(old(self).bits(), f, true)
                    &&& final(self).used() == if old(self).used() > 0 {
                        old(self).used() - 1
                    } else {
                        0
                    }
                }
            }),
    {
        let frame64 = phys_addr / 4096;
        if frame64 >= MAX_FRAMES as u64 {
            if self.used_frames > 0 {
                self.used_frames = self.used_frames - 1;
            }
            return;
        }
        let frame = frame64 as usize;
        if !self.is_free(frame) {
            let ghost before = self.bitmap@;
            self.mark_free(frame);
            proof {
                lemma_used_shrinks(before, frame as int);
            }
            if self.used_frames > 0 {
                self.used_frames = self.used_frames - 1;
            }
        }
    }
}

/// Marking a free frame used adds it to the used set; the set stays within
/// the bitmap's range.
proof fn lemma_used_grows(bitmap: Seq<u8>, f: int)
    requires
        bitmap.len() == BITMAP_SIZE,
        0 <= f < MAX_FRAMES,
        bit_free(bitmap, f),
    ensures
        used_set(with_frame(bitmap, f, false)) == used_set(bitmap).insert(f),
        used_set(bitmap).finite(),
        used_set(with_frame(bitmap, f, false)).len() == used_set(bitmap).len() + 1,
{
    assert forall|g: int| #[trigger] used_set(with_frame(bitmap, f, false)).contains(g) == used_set(
        bitmap,
    ).insert(f).contains(g) by {
        if 0 <= g < MAX_FRAMES {
            lemma_with_frame(bitmap, f, false, g);
        }
    }
    assert(used_set(with_frame(bitmap, f, false)) =~= used_set(bitmap).insert(f));
    lemma_used_finite(bitmap);
}

/// Marking a used frame free removes it from the used set.
proof fn lemma_used_shrinks(bitmap: Seq<u8>, f: int)
    requires
        bitmap.len() == BITMAP_SIZE,
        0 <= f < MAX_FRAMES,
        !bit_free(bitmap, f),
    ensures
        used_set(with_frame(bitmap, f, true)) == used_set(bitmap).remove(f),
        used_set(with_frame(bitmap, f, true)).len() == used_set(bitmap).len() - 1,
{
    assert forall|g: int| #[trigger] used_set(with_frame(bitmap, f, true)).contains(g) == used_set(
        bitmap,
    ).remove(f).contains(g) by {
        if 0 <= g < MAX_FRAMES {
            lemma_with_frame(bitmap, f, true, g);
        }
    }
    assert(used_set(with_frame(bitmap, f, true)) =~= used_set(bitmap).remove(f));
    lemma_used_finite(bitmap);
}

/// The used set is a finite subset of the frame range.
proof fn lemma_used_finite(bitmap: Seq<u8>)
    ensures
        used_set(bitmap).finite(),
        used_set(bitmap).len() <= MAX_FRAMES,
{
    lemma_int_range(0, MAX_FRAMES as int);
    lemma_len_subset(used_set(bitmap), set_int_range(0, MAX_FRAMES as int));
}

/// A region of the boot memory map.
#[derive(Debug, Clone, Copy, PartialEq, Eq, Structural)]
pub struct MemoryRegion {
    pub base: u64,
    pub length: u64,
    /// The region is usable RAM.
    pub usable: bool,
}

/// First whole frame of a region.
pub open spec fn region_start(r: MemoryRegion) -> int {
    (r.base + 4095) / 4096
}

/// End (exclusive) of the whole frames of a region, limited to the bitmap.
pub open spec fn region_end(r: MemoryRegion) -> int {
    let e = (r.base + r.length) / 4096;
    if e > MAX_FRAMES { MAX_FRAMES as int } else { e }
}

/// Number of bitmap frames a usable region contributes.
pub open spec fn region_frames(r: MemoryRegion) -> int {
    if r.usable && region_end(r) > region_start(r) {
        region_end(r) - region_start(r)
    } else {
        0
    }
}

/// Frames counted over the first `n` regions (overlaps count twice).
pub open spec fn frames_upto(regions: Seq<MemoryRegion>, n: int) -> int
    decreases n,
{
    if n <= 0 {
        0
    } else {
        frames_upto(regions, n - 1) + region_frames(regions[n - 1])
    }
}

/// Frame `f` lies in a usable region among the first `n`.
pub open spec fn covered_upto(regions: Seq<MemoryRegion>, n: int, f: int) -> bool {
    exists|k: int|
        0 <= k < n && (#[trigger] regions[k]).usable && region_start(regions[k]) <= f < region_end(
            regions[k],
        )
}

/// Regions whose frame arithmetic stays within 64 bits, and whose frame
/// count fits a `usize`.
pub open spec fn regions_ok(regions: Seq<MemoryRegion>) -> bool {
    &&& frames_upto(regions, regions.len() as int) <= usize::MAX
    &&& forall|k: int|
        0 <= k < regions.len() && (#[trigger] regions[k]).usable ==> regions[k].base + 4095
            <= u64::MAX && regions[k].base + regions[k].length <= u64::MAX
}

/// Counts over more regions are no smaller.
proof fn lemma_frames_mono(regions: Seq<MemoryRegion>, a: int, b: int)
    requires
        0 <= a <= b,
    ensures
        frames_upto(regions, a) <= frames_upto(regions, b),
    decreases b - a,
{
    if a < b {
        lemma_frames_mono(regions, a, b - 1);
    }
}

/// Initialising allocator `a0` on `regions` gave `a1`: the frames of the
/// usable regions are free besides those free before, only frames the
/// bitmap covers are free, every counted frame is usable and none is
/// allocated.
pub open spec fn initialised(a0: FrameAllocator, a1: FrameAllocator, regions: Seq<MemoryRegion>) -> bool {
    &&& forall|f: int|
        0 <= f < MAX_FRAMES ==> #[trigger] a1.free(f) == (a0.free(f) || covered_upto(
            regions,
            regions.len() as int,
            f,
        ))
    &&& forall|f: int| !(0 <= f < MAX_FRAMES) ==> !#[trigger] a1.free(f)
    &&& a1.total() == frames_upto(regions, regions.len() as int)
    &&& a1.used() == 0
}

/// Frame `f` is one of the whole frames of usable region `r`.
pub open spec fn in_region(r: MemoryRegion, f: int) -> bool {
    r.usable && region_start(r) <= f < region_end(r)
}

/// No frame lies in two usable regions.
pub open spec fn regions_disjoint(regions: Seq<MemoryRegion>) -> bool {
    forall|i: int, j: int, f: int|
        0 <= i < j < regions.len() && #[trigger] in_region(regions[i], f) ==> !#[trigger] in_region(
            regions[j],
            f,
        )
}

/// The frames that lie in one of the first `n` usable regions.
pub open spec fn covered_set(regions: Seq<MemoryRegion>, n: int) -> Set<int> {
    Set::new(|f: int| covered_upto(regions, n, f))
}

/// The frames of region `r`.
pub open spec fn region_set(r: MemoryRegion) -> Set<int> {
    Set::new(|f: int| in_region(r, f))
}

/// Over disjoint regions the frames counted are the frames covered.
proof fn lemma_covered_len(regions: Seq<MemoryRegion>, n: int)
    requires
        0 <= n <= regions.len(),
        regions_disjoint(regions),
    ensures
        covered_set(regions, n).finite(),
        covered_set(regions, n).len() == frames_upto(regions, n),
    decreases n,
{
    if n == 0 {
        assert(covered_set(regions, 0) =~= Set::<int>::empty());
    } else {
        lemma_covered_len(regions, n - 1);
        let r = regions[n - 1];
        let prev = covered_set(regions, n - 1);
        let rs = region_set(r);
        if r.usable && region_end(r) > region_start(r) {
            lemma_int_range(region_start(r), region_end(r));
            assert(rs =~= set_int_range(region_start(r), region_end(r)));
        } else {
            assert(rs =~= Set::<int>::empty());
        }
        assert forall|f: int| #[trigger] covered_set(regions, n).contains(f) == (prev + rs).contains(f) by {
            if covered_upto(regions, n, f) && !in_region(r, f) {
                let w = choose|w: int|
                    0 <= w < n && (#[trigger] regions[w]).usable && region_start(regions[w]) <= f
                        < region_end(regions[w]);
                assert(w != n - 1);
                assert(covered_upto(regions, n - 1, f));
            }
            if prev.contains(f) {
                let w = choose|w: int|
                    0 <= w < n - 1 && (#[trigger] regions[w]).usable && region_start(regions[w]) <= f
                        < region_end(regions[w]);
                assert(0 <= w < n && regions[w].usable);
            }
            if in_region(r, f) {
                assert(0 <= n - 1 < n && regions[n - 1].usable);
            }
        }
        assert(covered_set(regions, n) =~= prev + rs);
        assert forall|f: int| !(prev.contains(f) && rs.contains(f)) by {
            if prev.contains(f) && rs.contains(f) {
                let w = choose|w: int|
                    0 <= w < n - 1 && (#[trigger] regions[w]).usable && region_start(regions[w]) <= f
                        < region_end(regions[w]);
                assert(in_region(regions[w], f));
                assert(in_region(regions[n - 1], f));
            }
        }
        assert(prev.disjoint(rs));
        lemma_set_disjoint_lens(prev, rs);
    }
}

/// The frames marked free.
pub open spec fn free_frames(a: FrameAllocator) -> Set<int> {
    Set::new(|f: int| a.free(f))
}

/// The allocator's counts agree with its bitmap, given the frames `out`
/// handed out and not yet released: those frames are in use, the count of
/// frames in use is their number, and with the free frames they make up
/// the usable total.
pub open spec fn accounted(a: FrameAllocator, out: Set<int>) -> bool {
    &&& out.finite()
    &&& forall|f: int| #[trigger] out.contains(f) ==> 0 <= f < MAX_FRAMES && !a.free(f)
    &&& a.used() == out.len()
    &&& free_frames(a).len() + out.len() == a.total()
}

proof fn lemma_free_frames_finite(a: FrameAllocator)
    ensures
        free_frames(a).finite(),
{
    lemma_int_range(0, MAX_FRAMES as int);
    assert forall|f: int| #[trigger] free_frames(a).contains(f) implies set_int_range(
        0,
        MAX_FRAMES as int,
    ).contains(f) by {
        a.lemma_free_in_range(f);
    }
    lemma_len_subset(free_frames(a), set_int_range(0, MAX_FRAMES as int));
}

/// An allocator initialised from one with no free frame, on regions no two
/// of which share a frame, is accounted with nothing handed out: its free
/// count is the number of frames marked free.
pub proof fn init_accounted(a0: FrameAllocator, a1: FrameAllocator, regions: Seq<MemoryRegion>)
    requires
        forall|f: int| !a0.free(f),
        initialised(a0, a1, regions),
        regions_disjoint(regions),
    ensures
        accounted(a1, Set::empty()),
{
    lemma_covered_len(regions, regions.len() as int);
    assert forall|f: int| #[trigger] free_frames(a1).contains(f) == covered_set(
        regions,
        regions.len() as int,
    ).contains(f) by {
        if covered_upto(regions, regions.len() as int, f) {
            let w = choose|w: int|
                0 <= w < regions.len() && (#[trigger] regions[w]).usable && region_start(regions[w])
                    <= f < region_end(regions[w]);
            assert(0 <= f < MAX_FRAMES);
        }
    }
    assert(free_frames(a1) =~= covered_set(regions, regions.len() as int));
}

/// While accounted, the usable total is at least the count in use, and the
/// free count (their difference) is the number of frames marked free.
pub proof fn accounted_free_count(a: FrameAllocator, out: Set<int>)
    requires
        accounted(a, out),
    ensures
        a.used() <= a.total(),
        a.total() - a.used() == free_frames(a).len(),
{
}

/// A successful allocation hands out one more frame and lowers the free
/// count by one; an allocation fails exactly when the free count is 0, and
/// then changes nothing.
pub proof fn allocation_accounted(a0: FrameAllocator, a1: FrameAllocator, out: Set<int>, r: Option<u64>)
    requires
        accounted(a0, out),
        allocated(a0, a1, r),
    ensures
        r is None <==> a0.total() - a0.used() == 0,
        r matches Some(x) ==> {
            &&& accounted(a1, out.insert(x as int / PAGE_SIZE as int))
            &&& a1.total() - a1.used() == a0.total() - a0.used() - 1
        },
        r is None ==> accounted(a1, out),
{
    lemma_free_frames_finite(a0);
    match r {
        Some(x) => {
            let f = x as int / PAGE_SIZE as int;
            a0.lemma_free_in_range(f);
            assert(free_frames(a0).contains(f));
            assert(!out.contains(f));
            assert(free_frames(a1) =~= free_frames(a0).remove(f));
        },
        None => {
            assert(free_frames(a0) =~= Set::<int>::empty());
            assert(free_frames(a1) =~= free_frames(a0));
        },
    }
}

/// Releasing a frame handed out and not yet released returns it to the
/// free frames and raises the free count by one.
pub proof fn release_accounted(a0: FrameAllocator, a1: FrameAllocator, out: Set<int>, addr: u64)
    requires
        accounted(a0, out),
        out.contains(addr as int / PAGE_SIZE as int),
        released(a0, a1, addr),
    ensures
        accounted(a1, out.remove(addr as int / PAGE_SIZE as int)),
        a1.total() - a1.used() == a0.total() - a0.used() + 1,
{
    let f = addr as int / PAGE_SIZE as int;
    lemma_free_frames_finite(a0);
    assert forall|g: int| #[trigger] free_frames(a1).contains(g) == free_frames(a0).insert(f).contains(g) by {
        a0.lemma_free_in_range(g);
        a1.lemma_free_in_range(g);
    }
    assert(free_frames(a1) =~= free_frames(a0).insert(f));
    assert(!free_frames(a0).contains(f));
}

/// One call on the frame allocator: an allocation and its result, or a
/// release of an address.
pub enum FrameEvent {
    Allocate { r: Option<u64> },
    Release { addr: u64 },
}

/// The calls `es` took the allocator through the states `fs`, one each.
pub open spec fn frame_run(fs: Seq<FrameAllocator>, es: Seq<FrameEvent>) -> bool {
    &&& fs.len() == es.len() + 1
    &&& forall|i: int|
        0 <= i < es.len() ==> match #[trigger] es[i] {
            FrameEvent::Allocate { r } => allocated(fs[i], fs[i + 1], r),
            FrameEvent::Release { addr } => released(fs[i], fs[i + 1], addr),
        }
}

/// The frames handed out by the first `n` calls and not released by them.
pub open spec fn handed_out(es: Seq<FrameEvent>, n: int) -> Set<int>
    decreases n,
{
    if n <= 0 {
        Set::empty()
    } else {
        let prev = handed_out(es, n - 1);
        match es[n - 1] {
            FrameEvent::Allocate { r } => match r {
                Some(a) => prev.insert(a as int / PAGE_SIZE as int),
                None => prev,
            },
            FrameEvent::Release { addr } => prev.remove(addr as int / PAGE_SIZE as int),
        }
    }
}

/// Every release gives back a frame that an earlier allocation handed out
/// and that was not released since.
pub open spec fn releases_handed_out(es: Seq<FrameEvent>) -> bool {
    forall|i: int|
        0 <= i < es.len() ==> match #[trigger] es[i] {
            FrameEvent::Release { addr } => handed_out(es, i).contains(addr as int / PAGE_SIZE as int),
            FrameEvent::Allocate { .. } => true,
        }
}

proof fn lemma_run_accounted(fs: Seq<FrameAllocator>, es: Seq<FrameEvent>, n: int)
    requires
        frame_run(fs, es),
        accounted(fs[0], Set::empty()),
        releases_handed_out(es),
        0 <= n <= es.len(),
    ensures
        accounted(fs[n], handed_out(es, n)),
    decreases n,
{
    if n > 0 {
        let i = n - 1;
        lemma_run_accounted(fs, es, i);
        match es[i] {
            FrameEvent::Allocate { r } => {
                allocation_accounted(fs[i], fs[i + 1], handed_out(es, i), r);
            },
            FrameEvent::Release { addr } => {
                release_accounted(fs[i], fs[i + 1], handed_out(es, i), addr);
            },
        }
    } else {
        assert(handed_out(es, 0) =~= Set::<int>::empty());
    }
}

/// The free count over any run of calls after initialisation: the
/// allocator starts with no frame free and is initialised on regions no
/// two of which share a frame, and every release gives back a frame handed
/// out and not yet released. Then after every call the count in use is at
/// most the usable total and the free count is the number of frames marked
/// free; an allocation fails exactly when the free count is 0, and a
/// successful one lowers it by one.
pub proof fn free_count_over_runs(
    a0: FrameAllocator,
    regions: Seq<MemoryRegion>,
    fs: Seq<FrameAllocator>,
    es: Seq<FrameEvent>,
)
    requires
        forall|f: int| !a0.free(f),
        regions_disjoint(regions),
        frame_run(fs, es),
        initialised(a0, fs[0], regions),
        releases_handed_out(es),
    ensures
        forall|n: int|
            0 <= n <= es.len() ==> #[trigger] fs[n].used() <= fs[n].total() && fs[n].total()
                - fs[n].used() == free_frames(fs[n]).len(),
        forall|i: int|
            0 <= i < es.len() ==> match #[trigger] es[i] {
                FrameEvent::Allocate { r } => {
                    &&& r is None <==> fs[i].total() - fs[i].used() == 0
                    &&& r is Some ==> fs[i + 1].total() - fs[i + 1].used() == fs[i].total()
                        - fs[i].used() - 1
                },
                FrameEvent::Release { .. } => fs[i + 1].total() - fs[i + 1].used() == fs[i].total()
                    - fs[i].used() + 1,
            },
{
    init_accounted(a0, fs[0], regions);
    assert forall|n: int| 0 <= n <= es.len() implies #[trigger] fs[n].used() <= fs[n].total()
        && fs[n].total() - fs[n].used() == free_frames(fs[n]).len() by {
        lemma_run_accounted(fs, es, n);
        accounted_free_count(fs[n], handed_out(es, n));
    }
    assert forall|i: int| 0 <= i < es.len() implies match #[trigger] es[i] {
        FrameEvent::Allocate { r } => {
            &&& r is None <==> fs[i].total() - fs[i].used() == 0
            &&& r is Some ==> fs[i + 1].total() - fs[i + 1].used() == fs[i].total() - fs[i].used() - 1
        },
        FrameEvent::Release { .. } => fs[i + 1].total() - fs[i + 1].used() == fs[i].total()
            - fs[i].used() + 1,
    } by {
        lemma_run_accounted(fs, es, i);
        match es[i] {
            FrameEvent::Allocate { r } => {
                allocation_accounted(fs[i], fs[i + 1], handed_out(es, i), r);
            },
            FrameEvent::Release { addr } => {
                release_accounted(fs[i], fs[i + 1], handed_out(es, i), addr);
            },
        }
    }
}

/// An allocation took allocator `a0` to `a1` with result `r`: the lowest
/// free frame, now in use, with every other frame as it was; `None` only
/// when no frame was free, changing nothing.
pub open spec fn allocated(a0: FrameAllocator, a1: FrameAllocator, r: Option<u64>) -> bool {
    &&& a1.total() == a0.total()
    &&& match r {
        Some(a) => {
            let f = a as int / PAGE_SIZE as int;
            &&& a as int % PAGE_SIZE as int == 0
            &&& a0.free(f)
            &&& forall|g: int| 0 <= g < f ==> !a0.free(g)
            &&& !a1.free(f)
            &&& forall|g: int| g != f ==> a1.free(g) == a0.free(g)
            &&& a1.used() == a0.used() + 1
        },
        None => {
            &&& forall|f: int| !a0.free(f)
            &&& forall|g: int| a1.free(g) == a0.free(g)
            &&& a1.used() == a0.used()
        },
    }
}

/// Releasing `addr` took allocator `a0` to `a1`: its frame is free (if it
/// is one the allocator manages), every other frame is as it was, and the
/// count of frames in use drops by one if the frame was in use.
pub open spec fn released(a0: FrameAllocator, a1: FrameAllocator, addr: u64) -> bool {
    let f = addr as int / PAGE_SIZE as int;
    &&& a1.total() == a0.total()
    &&& forall|g: int| 0 <= g < MAX_FRAMES ==> #[trigger] a1.free(g) == (g == f || a0.free(g))
    &&& forall|g: int| !(0 <= g < MAX_FRAMES) ==> a1.free(g) == a0.free(g)
    &&& a1.used() == if a0.free(f) || a0.used() == 0 {
        a0.used()
    } else {
        a0.used() - 1
    }
}

/// Releasing the frame just allocated gives back the allocator's free
/// frames and its count of frames in use as they were.
pub proof fn allocate_then_release(a0: FrameAllocator, a1: FrameAllocator, a2: FrameAllocator, addr: u64)
    requires
        a0.wf(),
        allocated(a0, a1, Some(addr)),
        released(a1, a2, addr),
    ensures
        forall|g: int| #[trigger] a2.free(g) == a0.free(g),
        a2.used() == a0.used(),
        a2.total() == a0.total(),
{
    let f = addr as int / PAGE_SIZE as int;
    a0.lemma_free_in_range(f);
    assert forall|g: int| #[trigger] a2.free(g) == a0.free(g) by {
        a0.lemma_free_in_range(g);
        a2.lemma_free_in_range(g);
        if 0 <= g < MAX_FRAMES && g != f {
            assert(a1.free(g) == a0.free(g));
        }
    }
}

/// No frame is handed out twice: of two allocations in a row, the second
/// gives a different frame.
pub proof fn allocations_distinct(a0: FrameAllocator, a1: FrameAllocator, a2: FrameAllocator, x: u64, y: u64)
    requires
        allocated(a0, a1, Some(x)),
        allocated(a1, a2, Some(y)),
    ensures
        x as int / PAGE_SIZE as int != y as int / PAGE_SIZE as int,
        x != y,
{
}

/// The physical frame allocator.
pub struct FrameAllocator {
    inner: FrameAllocatorInner,
}

impl FrameAllocator {
    pub closed spec fn wf(&self) -> bool {
        self.inner.wf()
    }

    /// Frame `f` is free.
    pub closed spec fn free(&self, f: int) -> bool {
        self.inner.free(f)
    }

    /// Frames counted as usable.
    pub closed spec fn total(&self) -> int {
        self.inner.total()
    }

    /// Only frames the allocator manages can be free.
    pub proof fn lemma_free_in_range(&self, f: int)
        ensures
            self.free(f) ==> 0 <= f < MAX_FRAMES,
    {
    }

    /// Frames counted as allocated.
    pub closed spec fn used(&self) -> int {
        self.inner.used()
    }

    /// An allocator with every frame in use.
    pub fn new() -> (r: FrameAllocator)
        ensures
            r.wf(),
            forall|f: int| !r.free(f),
            r.total() == 0,
            r.used() == 0,
    {
        FrameAllocator { inner: FrameAllocatorInner::new() }
    }

    /// Mark every whole frame of the usable regions free, and count them as
    /// the usable total, with nothing allocated.
    pub fn init(&mut self, regions: &[MemoryRegion])
        requires
            old(self).wf(),
            regions_ok(regions@),
        ensures
            final(self).wf(),
            initialised(*old(self), *final(self), regions@),
    {
        let ghost bits0 = self.inner.bitmap@;
        let mut free_count: usize = 0;
        let mut k: usize = 0;
        proof {
            lemma_frames_mono(regions@, 0, regions@.len() as int);
        }
        while k < regions.len()
            invariant
                k <= regions@.len(),
                regions_ok(regions@),
                self.inner.bitmap@.len() == BITMAP_SIZE,
                bits0.len() == BITMAP_SIZE,
                free_count == frames_upto(regions@, k as int),
                frames_upto(regions@, k as int) <= frames_upto(regions@, regions@.len() as int),
                forall|f: int|
                    0 <= f < MAX_FRAMES ==> #[trigger] bit_free(self.inner.bitmap@, f) == (bit_free(
                        bits0,
                        f,
                    ) || covered_upto(regions@, k as int, f)),
            decreases regions@.len() - k,
        {
            let r = regions[k];
            proof {
                lemma_frames_mono(regions@, k + 1, regions@.len() as int);
            }
            if r.usable {
                let start = (r.base + 4095) / 4096;
                let e = (r.base + r.length) / 4096;
                let end = if e > MAX_FRAMES as u64 { MAX_FRAMES as u64 } else { e };
                let mut frame: u64 = start;
                let ghost cnt0 = free_count;
                while frame < end
                    invariant
                        start <= end ==> start <= frame <= end,
                        start > end ==> frame == start,
                        cnt0 == frames_upto(regions@, k as int),
                        end <= MAX_FRAMES,
                        self.inner.bitmap@.len() == BITMAP_SIZE,
                        free_count == cnt0 + (if frame > start { frame - start } else { 0 }),
                        cnt0 + region_frames(r) <= usize::MAX,
                        k < regions@.len(),
                        r == regions@[k as int],
                        start == region_start(r),
                        end == region_end(r),
                        r.usable,
                        frame >= start,
                        forall|f: int|
                            0 <= f < MAX_FRAMES ==> #[trigger] bit_free(self.inner.bitmap@, f) == (
                            bit_free(bits0, f) || covered_upto(regions@, k as int, f) || (start
                                <= f < frame)),
                    decreases end - frame,
                {
                    let ghost before = self.inner.bitmap@;
                    self.inner.mark_free(frame as usize);
                    proof {
                        assert forall|f: int| 0 <= f < MAX_FRAMES implies #[trigger] bit_free(
                            self.inner.bitmap@,
                            f,
                        ) == (bit_free(bits0, f) || covered_upto(regions@, k as int, f) || (start
                            <= f < frame + 1)) by {
                            lemma_with_frame(before, frame as int, true, f);
                        }
                    }
                    free_count = free_count + 1;
                    frame = frame + 1;
                }
                proof {
                    assert forall|f: int| 0 <= f < MAX_FRAMES implies #[trigger] bit_free(
                        self.inner.bitmap@,
                        f,
                    ) == (bit_free(bits0, f) || covered_upto(regions@, k + 1, f)) by {
                        if start <= f < end {
                            assert(regions@[k as int].usable && region_start(regions@[k as int])
                                <= f < region_end(regions@[k as int]));
                            assert(covered_upto(regions@, k + 1, f));
                        }
                        if covered_upto(regions@, k + 1, f) && !covered_upto(regions@, k as int, f) {
                            let w = choose|w: int|
                                0 <= w < k + 1 && (#[trigger] regions@[w]).usable && region_start(
                                    regions@[w],
                                ) <= f < region_end(regions@[w]);
                            assert(w == k);
                        }
                        if covered_upto(regions@, k as int, f) {
                            let w = choose|w: int|
                                0 <= w < k && (#[trigger] regions@[w]).usable && region_start(
                                    regions@[w],
                                ) <= f < region_end(regions@[w]);
                            assert(0 <= w < k + 1 && regions@[w].usable);
                        }
                    }
                }
            } else {
                proof {
                    assert forall|f: int| 0 <= f < MAX_FRAMES implies #[trigger] bit_free(
                        self.inner.bitmap@,
                        f,
                    ) == (bit_free(bits0, f) || covered_upto(regions@, k + 1, f)) by {
                        if covered_upto(regions@, k + 1, f) && !covered_upto(regions@, k as int, f) {
                            let w = choose|w: int|
                                0 <= w < k + 1 && (#[trigger] regions@[w]).usable && region_start(
                                    regions@[w],
                                ) <= f < region_end(regions@[w]);
                            assert(w == k);
                        }
                        if covered_upto(regions@, k as int, f) {
                            let w = choose|w: int|
                                0 <= w < k && (#[trigger] regions@[w]).usable && region_start(
                                    regions@[w],
                                ) <= f < region_end(regions@[w]);
                            assert(0 <= w < k + 1 && regions@[w].usable);
                        }
                    }
                }
            }
            k = k + 1;
        }
        self.inner.total_frames = free_count;
        self.inner.used_frames = 0;
    }

    /// Allocate the lowest free frame; its physical address.
    pub fn allocate(&mut self) -> (r: Option<u64>)
        requires
            old(self).wf(),
        ensures
            final(self).wf(),
            allocated(*old(self), *final(self), r),
    {
        let ghost b0 = self.inner.bitmap@;
        let r = self.inner.allocate();
        proof {
            if let Some(a) = r {
                let f = a as int / PAGE_SIZE as int;
                assert forall|g: int| g != f implies self.free(g) == old(self).free(g) by {
                    if 0 <= g < MAX_FRAMES {
                        lemma_with_frame(b0, f, false, g);
                    }
                }
                lemma_with_frame(b0, f, false, f);
            }
        }
        r
    }

    /// Release the frame at `phys_addr` (see `FrameAllocatorInner::dealloc`).
    pub fn dealloc(&mut self, phys_addr: u64)
        requires
            old(self).wf(),
        ensures
            final(self).wf(),
            released(*old(self), *final(self), phys_addr),
    {
        let ghost b0 = self.inner.bitmap@;
        self.inner.dealloc(phys_addr);
        proof {
            let f = phys_addr as int / PAGE_SIZE as int;
            if !old(self).free(f) && 0 <= f < MAX_FRAMES {
                assert forall|g: int| 0 <= g < MAX_FRAMES implies #[trigger] self.free(g) == (g == f
                    || old(self).free(g)) by {
                    lemma_with_frame(b0, f, true, g);
                }
            }
        }
    }

    /// Frames counted usable minus frames counted allocated (see
    /// `accounted_free_count` for when this is the number of free frames).
    pub fn free_count(&self) -> (r: usize)
        requires
            self.used() <= self.total(),
        ensures
            r == self.total() - self.used(),
    {
        self.inner.total_frames - self.inner.used_frames
    }
}

} // verus!

