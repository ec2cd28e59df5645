use huseynos::frame::{FrameAllocator, MemoryRegion, PAGE_SIZE};
use huseynos::shm::ShmTable;
use huseynos::vma::{Vma, VmaBacking, VmaFlags, VmaList, VMA_READ, VMA_USER, VMA_WRITE};

fn allocator_with(regions: &[MemoryRegion]) -> FrameAllocator {
    let mut fa = FrameAllocator::new();
    fa.init(regions);
    fa
}

fn anon(start: u64, end: u64, flags: u64) -> Vma {
    Vma { start, end, flags: VmaFlags(flags), backing: VmaBacking::Anonymous }
}

#[test]
fn new_allocator_has_nothing_free() {
    let mut fa = FrameAllocator::new();
    assert_eq!(fa.free_count(), 0);
    assert_eq!(fa.allocate(), None);
}

#[test]
fn init_counts_whole_frames_of_usable_regions() {
    // 0x1800..0x5000 holds frames 2, 3 and 4 entirely; the reserved region is skipped.
    let fa = allocator_with(&[
        MemoryRegion { base: 0x1800, length: 0x3800, usable: true },
        MemoryRegion { base: 0x10000, length: 0x10000, usable: false },
    ]);
    assert_eq!(fa.free_count(), 3);
}

#[test]
fn allocate_gives_lowest_free_frame_first() {
    let mut fa = allocator_with(&[MemoryRegion { base: 0x2000, length: 0x3000, usable: true }]);
    assert_eq!(fa.allocate(), Some(0x2000));
    assert_eq!(fa.allocate(), Some(0x3000));
    assert_eq!(fa.allocate(), Some(0x4000));
    assert_eq!(fa.allocate(), None);
    assert_eq!(fa.free_count(), 0);
}

#[test]
fn allocate_then_release_restores_the_allocator() {
    let mut fa = allocator_with(&[MemoryRegion { base: 0, length: 0x4000, usable: true }]);
    let before = fa.free_count();
    let a = fa.allocate().unwrap();
    assert_eq!(fa.free_count(), before - 1);
    fa.dealloc(a);
    assert_eq!(fa.free_count(), before);
    // The same frame is the lowest free one again.
    assert_eq!(fa.allocate(), Some(a));
}

#[test]
fn two_allocations_are_distinct() {
    let mut fa = allocator_with(&[MemoryRegion { base: 0, length: 0x10000, usable: true }]);
    let a = fa.allocate().unwrap();
    let b = fa.allocate().unwrap();
    assert_ne!(a, b);
    assert_eq!(a % PAGE_SIZE as u64, 0);
    assert_eq!(b % PAGE_SIZE as u64, 0);
}

#[test]
fn releasing_a_free_frame_changes_no_count() {
    let mut fa = allocator_with(&[MemoryRegion { base: 0, length: 0x2000, usable: true }]);
    fa.dealloc(0x1000);
    assert_eq!(fa.free_count(), 2);
}

#[test]
fn vma_flags_and_contains() {
    let v = anon(0x1000, 0x3000, VMA_READ | VMA_WRITE | VMA_USER);
    assert!(v.contains(0x1000));
    assert!(v.contains(0x2FFF));
    assert!(!v.contains(0x3000));
    assert!(!v.contains(0xFFF));
    assert_eq!(v.page_flags(), 4 | 2);
    let ro = anon(0x1000, 0x2000, VMA_READ | VMA_USER);
    assert_eq!(ro.page_flags(), 4);
    let f = VmaFlags(VMA_READ).union(VmaFlags(VMA_WRITE));
    assert_eq!(f.bits(), 3);
    assert!(f.contains(VmaFlags(VMA_WRITE)));
    assert!(!f.contains(VmaFlags(VMA_USER)));
    assert_eq!(VmaFlags::empty().bits(), 0);
}

#[test]
fn find_returns_first_matching_area() {
    let mut list = VmaList::new();
    list.add(anon(0x1000, 0x3000, VMA_READ));
    list.add(anon(0x2000, 0x4000, VMA_WRITE));
    assert_eq!(list.find(0x2500).unwrap().start, 0x1000);
    assert_eq!(list.find(0x3500).unwrap().start, 0x2000);
    assert!(list.find(0x4000).is_none());
    list.clear();
    assert!(list.find(0x1500).is_none());
}

#[test]
fn find_free_region_is_first_fit_above_hint() {
    let mut list = VmaList::new();
    list.add(anon(0x10000, 0x12000, VMA_READ));
    // Hint rounded up to 0x10000, which is taken until 0x12000.
    assert_eq!(list.find_free_region(0xF001, 0x1000), Some(0x12000));
    // Size is rounded up to whole pages; a range ending right at the area fits.
    assert_eq!(list.find_free_region(0xE000, 0x1800), Some(0xE000));
    assert_eq!(list.find_free_region(0xF000, 0x1001), Some(0x12000));
}

#[test]
fn shm_create_map_unmap() {
    let mut fa = allocator_with(&[MemoryRegion { base: 0x100000, length: 0x10000, usable: true }]);
    let mut table = ShmTable::new();
    let id = table.create(&mut fa, 5000, 7).unwrap();
    assert_eq!(id, 1);
    assert_eq!(table.regions.len(), 1);
    assert_eq!(table.regions[0].size, 8192);
    assert_eq!(table.regions[0].frames, vec![0x100000, 0x101000]);
    assert_eq!(table.regions[0].owner, 7);
    let id2 = table.create(&mut fa, 1, 8).unwrap();
    assert_ne!(id, id2);

    let m = table.map(id, 0xC000_0123).unwrap();
    assert_eq!(m.answer, 0);
    assert_eq!(m.pages, vec![(0xC000_0000, 0x100000), (0xC000_1000, 0x101000)]);
    assert_eq!(table.regions[0].ref_count, 1);

    let pages = table.unmap(id, 0xC000_0FFF).unwrap();
    assert_eq!(pages, vec![0xC000_0000, 0xC000_1000]);
    assert_eq!(table.regions[0].ref_count, 0);
    // Never below zero.
    table.unmap(id, 0xC000_0000).unwrap();
    assert_eq!(table.regions[0].ref_count, 0);

    assert!(table.map(99, 0).is_err());
    assert!(table.unmap(99, 0).is_err());
}

#[test]
fn shm_create_fails_without_frames() {
    let mut fa = allocator_with(&[MemoryRegion { base: 0, length: 0x1000, usable: true }]);
    let mut table = ShmTable::new();
    assert_eq!(table.create(&mut fa, 0x2000, 1), None);
    assert_eq!(table.regions.len(), 0);
    assert_eq!(fa.free_count(), 0);
}

#[test]
fn shm_table_holds_at_most_32_regions() {
    let mut fa = allocator_with(&[MemoryRegion { base: 0, length: 0x100000, usable: true }]);
    let mut table = ShmTable::new();
    for _ in 0..32 {
        assert!(table.create(&mut fa, 4096, 1).is_some());
    }
    assert_eq!(table.create(&mut fa, 4096, 1), None);
    assert_eq!(table.regions.len(), 32);
    // The refused request still used up an id.
    assert_eq!(table.next_id, 34);
}

#[test]
fn the_free_count_follows_allocations_and_releases() {
    let mut fa = allocator_with(&[
        MemoryRegion { base: 0x1000, length: 0x1000, usable: true },
        MemoryRegion { base: 0x5000, length: 0x2000, usable: true },
    ]);
    assert_eq!(fa.free_count(), 3);
    let a = fa.allocate().unwrap();
    let b = fa.allocate().unwrap();
    assert_eq!((a, b), (0x1000, 0x5000));
    assert_eq!(fa.free_count(), 1);
    fa.dealloc(a);
    assert_eq!(fa.free_count(), 2);
    assert!(fa.allocate().is_some());
    assert!(fa.allocate().is_some());
    assert_eq!(fa.free_count(), 0);
    assert_eq!(fa.allocate(), None);
}

#[test]
fn overlapping_regions_count_their_shared_frames_twice() {
    let fa = allocator_with(&[
        MemoryRegion { base: 0x1000, length: 0x2000, usable: true },
        MemoryRegion { base: 0x2000, length: 0x2000, usable: true },
    ]);
    // Frames 1, 2 and 3 are free, but frame 2 is counted in both regions.
    assert_eq!(fa.free_count(), 4);
}
