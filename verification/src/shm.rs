//! Shared memory regions: page frames allocated once and mapped into the
//! address spaces of the processes that share them.

use vstd::prelude::*;
use crate::frame::{FrameAllocator, PAGE_SIZE};

verus! {

/// At most this many regions exist at once.
pub const MAX_SHM_REGIONS: usize = 32;

/// A shared region.
pub struct SharedRegion {
    pub id: u32,
    /// Physical addresses of the frames backing the region, in order.
    pub frames: Vec<u64>,
    /// Size in bytes, a whole number of pages.
    pub size: usize,
    /// Processes currently mapping the region.
    pub ref_count: usize,
    /// PID of the creator.
    pub owner: usize,
}

/// The table of regions and the next region id.
pub struct ShmTable {
    pub regions: Vec<SharedRegion>,
    pub next_id: u32,
}

/// Where a region's pages go when it is mapped or unmapped.
pub struct ShmMapping {
    /// What the call answers on success: 0.
    pub answer: usize,
    /// (virtual page, physical frame) pairs to map, in order.
    pub pages: Vec<(u64, u64)>,
}

/// `size` rounded up to whole pages.
pub open spec fn page_round(size: int) -> int {
    ((size + PAGE_SIZE - 1) / PAGE_SIZE as int) * PAGE_SIZE
}

/// Index of the first region with id `id`, from `i` on; -1 if none.
pub open spec fn region_index(regions: Seq<SharedRegion>, id: u32, i: int) -> int
    decreases regions.len() - i,
{
    if i < 0 || i >= regions.len() {
        -1
    } else if regions[i].id == id {
        i
    } else {
        region_index(regions, id, i + 1)
    }
}

/// The frame address `a` was the lowest free frame once the frames in
/// `taken` were gone.
pub open spec fn lowest_after(fa: FrameAllocator, taken: Seq<u64>, a: u64) -> bool {
    let f = a as int / PAGE_SIZE as int;
    &&& a as int % PAGE_SIZE as int == 0
    &&& fa.free(f)
    &&& !holds_frame(taken, f)
    &&& forall|g: int| 0 <= g < f ==> !#[trigger] fa.free(g) || holds_frame(taken, g)
}

/// One of the addresses in `taken` is that of frame `g`.
pub open spec fn holds_frame(taken: Seq<u64>, g: int) -> bool {
    exists|j: int| 0 <= j < taken.len() && #[trigger] taken[j] as int / PAGE_SIZE as int == g
}

/// The first page of a mapping at `virt`, and the page for index `i`.
pub open spec fn page_base(virt: u64) -> int {
    (virt & !0xFFFu64) as int
}

/// Mapping region `r` at `virt` would stay within 64-bit addresses.
pub open spec fn fits_at(r: SharedRegion, virt: u64) -> bool {
    &&& page_base(virt) + r.frames@.len() * PAGE_SIZE <= u64::MAX
    &&& r.frames@.len() * PAGE_SIZE <= usize::MAX
}

/// Creating a region of `size` bytes for `owner` took the table from `t0`
/// to `t1` and the allocator from `f0` to `f1`, with result `r`; see
/// `ShmTable::create`.
pub open spec fn created(
    t0: ShmTable,
    t1: ShmTable,
    f0: FrameAllocator,
    f1: FrameAllocator,
    size: usize,
    owner: usize,
    r: Option<u32>,
) -> bool {
    match r {
        Some(id) => {
            let reg = t1.regions@.last();
            &&& t0.regions@.len() < MAX_SHM_REGIONS
            &&& id == t0.next_id
            &&& t1.next_id == t0.next_id + 1
            &&& t1.regions@.len() == t0.regions@.len() + 1
            &&& t1.regions@.drop_last() == t0.regions@
            &&& reg.id == id && reg.owner == owner && reg.ref_count == 0
            &&& reg.size == page_round(size as int)
            &&& reg.frames@.len() == page_round(size as int) / PAGE_SIZE as int
            &&& forall|k: int| 0 <= k < reg.frames@.len() ==> lowest_after(
                f0,
                reg.frames@.subrange(0, k),
                #[trigger] reg.frames@[k],
            )
            &&& forall|g: int| #[trigger] f1.free(g) == (f0.free(g)
                && !holds_frame(reg.frames@, g))
        },
        None => {
            &&& t1.regions@ == t0.regions@
            &&& forall|g: int| #[trigger] f1.free(g) ==> f0.free(g)
            &&& (t0.regions@.len() < MAX_SHM_REGIONS ==> forall|g: int| !f1.free(g))
            &&& (t1.next_id == t0.next_id || t1.next_id == t0.next_id + 1)
            &&& (t1.next_id == t0.next_id ==> forall|g: int| !f1.free(g))
            &&& (t1.next_id == t0.next_id + 1 ==> t0.regions@.len()
                >= MAX_SHM_REGIONS && exists|fs: Seq<u64>|
                fs.len() == page_round(size as int) / PAGE_SIZE as int && (forall|k: int|
                    0 <= k < fs.len() ==> lowest_after(f0, fs.subrange(0, k), #[trigger] fs[k]))
                    && (forall|g: int| #[trigger] f1.free(g) == (f0.free(g)
                    && !holds_frame(fs, g))))
        },
    }
}

impl ShmTable {
    /// An empty table; ids start at 1.
    pub fn new() -> (r: ShmTable)
        ensures
            r.regions@.len() == 0,
            r.next_id == 1,
    {
        ShmTable { regions: Vec::new(), next_id: 1 }
    }

    fn find(&self, id: u32) -> (r: Option<usize>)
        ensures
            match r {
                Some(k) => k == region_index(self.regions@, id, 0) && k < self.regions@.len()
                    && self.regions@[k as int].id == id,
                None => region_index(self.regions@, id, 0) < 0,
            },
    {
        let n = self.regions.len();
        let mut i: usize = 0;
        while i < n
            invariant
                i <= n,
                n == self.regions@.len(),
                region_index(self.regions@, id, 0) == region_index(self.regions@, id, i as int),
            decreases n - i,
        {
            if self.regions[i].id == id {
                return Some(i);
            }
            i = i + 1;
        }
        None
    }

    /// Create a region of `size` bytes (rounded up to pages) owned by
    /// `owner_pid`, taking its frames one by one, each the lowest free one.
    /// Fails when the frames run out (those taken stay allocated) or when
    /// the table is full (the id is used up and the frames stay allocated).
    pub fn create(&mut self, fa: &mut FrameAllocator, size: usize, owner_pid: usize) -> (r: Option<u32>)
        requires
            old(fa).wf(),
            size + PAGE_SIZE <= usize::MAX,
            old(self).next_id < u32::MAX,
        ensures
            final(fa).wf(),
            final(fa).total() == old(fa).total(),
            created(*old(self), *final(self), *old(fa), *final(fa), size, owner_pid, r),
    {
        let rounded = size + PAGE_SIZE - 1;
        let aligned_size = rounded & !(PAGE_SIZE - 1);
        assert(aligned_size == (rounded / 4096) * 4096) by (bit_vector)
            requires aligned_size == rounded & !4095usize;
        let num_pages = aligned_size / PAGE_SIZE;
        let mut frames: Vec<u64> = Vec::new();
        let ghost fa0 = *old(fa);
        let mut k: usize = 0;
        while k < num_pages
            invariant
                k <= num_pages,
                frames@.len() == k,
                fa.wf(),
                fa.total() == fa0.total(),
                fa0 == *old(fa),
                forall|j: int| 0 <= j < k ==> lowest_after(
                    fa0,
                    frames@.subrange(0, j),
                    #[trigger] frames@[j],
                ),
                forall|g: int| #[trigger] fa.free(g) == (fa0.free(g) && !holds_frame(frames@, g)),
                self.regions@ == old(self).regions@,
                self.next_id == old(self).next_id,
            decreases num_pages - k,
        {
            let ghost cur = *fa;
            match fa.allocate() {
                Some(frame) => {
                    let ghost before = frames@;
                    frames.push(frame);
                    proof {
                        let f = frame as int / PAGE_SIZE as int;
                        assert(frames@[k as int] == frame);
                        assert(frames@.subrange(0, k as int) =~= before);
                        assert(holds_frame(frames@, f));
                        assert forall|g: int| #[trigger] fa.free(g) == (fa0.free(g) && !holds_frame(frames@, g)) by {
                            if g != f {
                                if holds_frame(frames@, g) {
                                    let j = choose|j: int| 0 <= j < frames@.len() && #[trigger] frames@[j] as int / PAGE_SIZE as int == g;
                                    assert(j < k);
                                    assert(before[j] == frames@[j]);
                                    assert(holds_frame(before, g));
                                }
                                if holds_frame(before, g) {
                                    let j = choose|j: int| 0 <= j < before.len() && #[trigger] before[j] as int / PAGE_SIZE as int == g;
                                    assert(frames@[j] == before[j]);
                                }
                            }
                        }
                        assert forall|j: int| 0 <= j < k + 1 implies lowest_after(
                            fa0,
                            frames@.subrange(0, j),
                            #[trigger] frames@[j],
                        ) by {
                            if j < k {
                                assert(frames@.subrange(0, j) =~= before.subrange(0, j));
                                assert(frames@[j] == before[j]);
                            } else {
                                assert(frames@.subrange(0, j) =~= before);
                                assert forall|g: int| 0 <= g < f implies !#[trigger] fa0.free(g)
                                    || holds_frame(frames@.subrange(0, j), g) by {
                                    assert(!cur.free(g));
                                }
                            }
                        }
                    }
                },
                None => {
                    return None;
                },
            }
            k = k + 1;
        }
        let id = self.next_id;
        self.next_id = self.next_id + 1;
        if self.regions.len() >= MAX_SHM_REGIONS {
            proof {
                assert(frames@.len() == page_round(size as int) / PAGE_SIZE as int);
                assert(forall|k: int| 0 <= k < frames@.len() ==> lowest_after(*old(fa), frames@.subrange(0, k), #[trigger] frames@[k]));
            }
            return None;
        }
        let region = SharedRegion { id, frames, size: aligned_size, ref_count: 0, owner: owner_pid };
        self.regions.push(region);
        proof {
            assert(self.regions@.drop_last() =~= old(self).regions@);
        }
        Some(id)
    }

    /// Map region `shm_id` at `virt_addr` (rounded down to a page): count
    /// one more mapper and answer 0, with the pages to map,
    /// consecutive from that page, each to its frame in order. An unknown
    /// id fails.
    pub fn map(&mut self, shm_id: u32, virt_addr: u64) -> (r: Result<ShmMapping, ()>)
        requires
            forall|k: int| 0 <= k < old(self).regions@.len() && old(self).regions@[k].id == shm_id
                ==> fits_at(#[trigger] old(self).regions@[k], virt_addr)
                && old(self).regions@[k].ref_count < usize::MAX,
        ensures
            final(self).next_id == old(self).next_id,
            final(self).regions@.len() == old(self).regions@.len(),
            ({
                let k = region_index(old(self).regions@, shm_id, 0);
                match r {
                    Ok(m) => {
                        let reg = old(self).regions@[k];
                        &&& k >= 0
                        &&& m.answer == 0
                        &&& m.pages@.len() == reg.frames@.len()
                        &&& forall|i: int| 0 <= i < m.pages@.len() ==> #[trigger] m.pages@[i] == (
                            (page_base(virt_addr) + i * PAGE_SIZE) as u64,
                            reg.frames@[i],
                        )
                        &&& forall|j: int| 0 <= j < old(self).regions@.len() && j != k
                            ==> #[trigger] final(self).regions@[j] == old(self).regions@[j]
                        &&& final(self).regions@[k].ref_count == reg.ref_count + 1
                        &&& final(self).regions@[k].id == reg.id
                        &&& final(self).regions@[k].frames@ == reg.frames@
                        &&& final(self).regions@[k].size == reg.size
                        &&& final(self).regions@[k].owner == reg.owner
                    },
                    Err(_) => k < 0 && final(self).regions@ == old(self).regions@,
                }
            }),
    {
        match self.find(shm_id) {
            None => Err(()),
            Some(k) => {
                let base = virt_addr & !0xFFFu64;
                let mut region = self.regions.remove(k);
                assert(fits_at(old(self).regions@[k as int], virt_addr));
                let n = region.frames.len();
                let mut pages: Vec<(u64, u64)> = Vec::new();
                let mut i: usize = 0;
                while i < n
                    invariant
                        i <= n,
                        n == region.frames@.len(),
                        region == old(self).regions@[k as int],
                        base == page_base(virt_addr),
                        base + n * PAGE_SIZE <= u64::MAX,
                        n * PAGE_SIZE <= usize::MAX,
                        pages@.len() == i,
                        forall|j: int| 0 <= j < i ==> #[trigger] pages@[j] == (
                            (base + j * PAGE_SIZE) as u64,
                            region.frames@[j],
                        ),
                    decreases n - i,
                {
                    assert(i * PAGE_SIZE <= n * PAGE_SIZE) by (nonlinear_arith)
                        requires i <= n;
                    let page_virt = base + (i * PAGE_SIZE) as u64;
                    pages.push((page_virt, region.frames[i]));
                    i = i + 1;
                }
                region.ref_count = region.ref_count + 1;
                self.regions.insert(k, region);
                Ok(ShmMapping { answer: 0, pages })
            },
        }
    }

    /// Unmap region `shm_id` from `virt_addr` (rounded down to a page):
    /// count one mapper fewer, not below zero, and give the pages to unmap.
    /// An unknown id fails.
    pub fn unmap(&mut self, shm_id: u32, virt_addr: u64) -> (r: Result<Vec<u64>, ()>)
        requires
            forall|k: int| 0 <= k < old(self).regions@.len() && old(self).regions@[k].id == shm_id
                ==> fits_at(#[trigger] old(self).regions@[k], virt_addr),
        ensures
            final(self).next_id == old(self).next_id,
            final(self).regions@.len() == old(self).regions@.len(),
            ({
                let k = region_index(old(self).regions@, shm_id, 0);
                match r {
                    Ok(pages) => {
                        let reg = old(self).regions@[k];
                        &&& k >= 0
                        &&& pages@.len() == reg.frames@.len()
                        &&& forall|i: int| 0 <= i < pages@.len() ==> #[trigger] pages@[i] == (
                            page_base(virt_addr) + i * PAGE_SIZE) as u64
                        &&& forall|j: int| 0 <= j < old(self).regions@.len() && j != k
                            ==> #[trigger] final(self).regions@[j] == old(self).regions@[j]
                        &&& final(self).regions@[k].ref_count == if reg.ref_count > 0 {
                            reg.ref_count - 1
                        } else {
                            0
                        }
                        &&& final(self).regions@[k].id == reg.id
                        &&& final(self).regions@[k].frames@ == reg.frames@
                        &&& final(self).regions@[k].size == reg.size
                        &&& final(self).regions@[k].owner == reg.owner
                    },
                    Err(_) => k < 0 && final(self).regions@ == old(self).regions@,
                }
            }),
    {
        match self.find(shm_id) {
            None => Err(()),
            Some(k) => {
                let base = virt_addr & !0xFFFu64;
                let mut region = self.regions.remove(k);
                assert(fits_at(old(self).regions@[k as int], virt_addr));
                let n = region.frames.len();
                let mut pages: Vec<u64> = Vec::new();
                let mut i: usize = 0;
                while i < n
                    invariant
                        i <= n,
                        n == region.frames@.len(),
                        base == page_base(virt_addr),
                        base + n * PAGE_SIZE <= u64::MAX,
                        n * PAGE_SIZE <= usize::MAX,
                        pages@.len() == i,
                        forall|j: int| 0 <= j < i ==> #[trigger] pages@[j] == (base + j * PAGE_SIZE) as u64,
                    decreases n - i,
                {
                    assert(i * PAGE_SIZE <= n * PAGE_SIZE) by (nonlinear_arith)
                        requires i <= n;
                    pages.push(base + (i * PAGE_SIZE) as u64);
                    i = i + 1;
                }
                if region.ref_count > 0 {
                    region.ref_count = region.ref_count - 1;
                }
                self.regions.insert(k, region);
                Ok(pages)
            },
        }
    }
}

} // verus!
