use huseynos::elf::{parse_phdr, ElfParser, Elf64_Phdr, PT_LOAD};
use huseynos::fat32::{find_file, list_files, read_file};
use huseynos::frame::{FrameAllocator, MemoryRegion};
use huseynos::loader::{
    page_copy, page_frame, plan_image, segment_flags, stack_layout, PageFrame, USER_STACK_TOP,
};
use huseynos::vfs::FdTable;

/// A small FAT12 image: 512-byte sectors, one reserved sector, two FATs of
/// one sector, 16 root entries (one sector), data from sector 4.
fn image() -> Vec<u8> {
    let mut img = vec![0u8; 4096];
    img[11] = 0x00;
    img[12] = 0x02; // 512 bytes per sector
    img[13] = 1; // sectors per cluster
    img[14] = 1; // reserved sectors
    img[16] = 2; // FATs
    img[17] = 16; // root entries
    img[22] = 1; // sectors per FAT
    let root = 512 + 2 * 512;
    let mut entry = |i: usize, name: &[u8; 11], attr: u8, cluster: u16, size: u32| {
        let off = root + 32 * i;
        img[off..off + 11].copy_from_slice(name);
        img[off + 11] = attr;
        img[off + 26..off + 28].copy_from_slice(&cluster.to_le_bytes());
        img[off + 28..off + 32].copy_from_slice(&size.to_le_bytes());
    };
    entry(0, b"HELLO   TXT", 0x20, 2, 5);
    entry(1, b"DATA    BIN", 0x20, 3, 3);
    entry(2, b"SUBDIR     ", 0x10, 4, 0);
    entry(3, b"VOLUME     ", 0x08, 0, 0);
    entry(4, b"\xE5OLD    TXT", 0x20, 5, 1);
    entry(5, b"INIT       ", 0x20, 6, 2);
    // Data: cluster 2 at sector 4, cluster 3 at sector 5, cluster 6 at sector 8 (past this image).
    img[2048..2053].copy_from_slice(b"hello");
    img[2560..2563].copy_from_slice(&[1, 2, 3]);
    img
}

#[test]
fn listing_skips_deleted_directories_and_labels() {
    let files = list_files(&image());
    let names: Vec<(Vec<u8>, u32)> = files;
    assert_eq!(
        names,
        vec![
            (b"HELLO.TXT".to_vec(), 5),
            (b"DATA.BIN".to_vec(), 3),
            (b"INIT".to_vec(), 2),
        ]
    );
}

#[test]
fn names_lose_unicode_whitespace_at_both_ends() {
    let mut img = image();
    let off = 512 + 2 * 512 + 32 * 6;
    // A no-break space before the base, an ideographic space after it, and
    // a no-break space after the extension "T"; a space inside stays.
    img[off..off + 11].copy_from_slice(b"\xC2\xA0A B\xE3\x80\x80T\xC2\xA0");
    img[off + 11] = 0x20;
    img[off + 28] = 0;
    let files = list_files(&img);
    assert_eq!(files[3], (b"A B.T".to_vec(), 0));
    // A name made only of whitespace characters trims to nothing.
    img[off..off + 11].copy_from_slice(b"\xE2\x80\x80\xC2\x85\t  \xE2\x80\xAF");
    let files = list_files(&img);
    assert_eq!(files[3], (b"".to_vec(), 0));
}

#[test]
fn listing_of_a_short_image_is_empty() {
    assert!(list_files(&[0u8; 10]).is_empty());
}

#[test]
fn listed_files_can_be_found() {
    let img = image();
    assert_eq!(find_file(&img, b"HELLO.TXT"), Some(b"hello".to_vec()));
    assert_eq!(find_file(&img, b"DATA.BIN"), Some(vec![1, 2, 3]));
    assert_eq!(find_file(&img, b"NOPE.TXT"), None);
    // A directory is not a file.
    assert_eq!(find_file(&img, b"SUBDIR"), None);
    // Data past the end of the image is not read.
    assert_eq!(find_file(&img, b"INIT"), None);
}

#[test]
fn read_file_matches_names_in_uppercase() {
    let img = image();
    assert_eq!(read_file(&img, "hello.txt"), Some(b"hello".to_vec()));
    assert_eq!(read_file(&img, "Data.Bin"), Some(vec![1, 2, 3]));
    assert_eq!(read_file(&img, "missing"), None);
}

#[test]
fn open_read_write_close_stat() {
    let img = image();
    let mut t = FdTable::new();
    assert_eq!(t.alloc_fd(), Some(3));
    let fd = t.open(&img, "hello.txt", 0).unwrap();
    assert_eq!(fd, 3);
    assert_eq!(t.stat(fd), 5);
    let mut buf = [0u8; 3];
    assert_eq!(t.read(fd, &mut buf, 3), 3);
    assert_eq!(&buf, b"hel");
    assert_eq!(t.read(fd, &mut buf, 3), 2);
    assert_eq!(&buf[..2], b"lo");
    assert_eq!(t.read(fd, &mut buf, 3), 0);
    // Read-only: writes do nothing, wherever the position is.
    assert_eq!(t.write(fd, b"xx", 2), 0);
    let saved = t.fds[fd].as_ref().unwrap().offset;
    t.fds[fd].as_mut().unwrap().offset = usize::MAX;
    assert_eq!(t.write(fd, b"xx", 2), 0);
    t.fds[fd].as_mut().unwrap().offset = saved;
    assert!(t.close(fd));
    assert!(!t.close(fd));
    assert_eq!(t.stat(fd), u64::MAX);
}

#[test]
fn write_then_read_back() {
    let img = image();
    let mut t = FdTable::new();
    let fd = t.open(&img, "new.txt", 1).unwrap();
    assert_eq!(t.stat(fd), 0);
    assert_eq!(t.write(fd, b"abcdef", 4), 4);
    assert_eq!(t.stat(fd), 4);
    // Move back to position 1 and read what was written there.
    t.fds[fd].as_mut().unwrap().offset = 1;
    let mut buf = [0u8; 8];
    assert_eq!(t.read(fd, &mut buf, 8), 3);
    assert_eq!(&buf[..3], b"bcd");
}

#[test]
fn open_missing_file_for_reading_fails() {
    let img = image();
    let mut t = FdTable::new();
    assert_eq!(t.open(&img, "missing.txt", 0), None);
    assert_eq!(t.alloc_fd(), Some(3));
}

#[test]
fn descriptor_table_fills_up() {
    let img = image();
    let mut t = FdTable::new();
    for expected in 3..16 {
        assert_eq!(t.open(&img, "hello.txt", 0), Some(expected));
    }
    assert_eq!(t.open(&img, "hello.txt", 0), None);
    assert_eq!(t.alloc_fd(), None);
    assert_eq!(t.read(99, &mut [0u8; 1], 1), 0);
    assert_eq!(t.stat(99), u64::MAX);
}

#[test]
fn standard_streams_stay_free_and_positions_stay_within_files() {
    let img = image();
    let mut t = FdTable::new();
    let a = t.open(&img, "hello.txt", 0).unwrap();
    let b = t.open(&img, "log.txt", 1).unwrap();
    let mut buf = [0u8; 16];
    assert_eq!(t.read(a, &mut buf, 16), 5);
    assert_eq!(t.read(a, &mut buf, 16), 0);
    assert_eq!(t.write(b, b"abc", 3), 3);
    assert!(t.close(a));
    let c = t.open(&img, "hello.txt", 0).unwrap();
    assert_eq!(c, 3);
    assert_eq!(t.read(0, &mut buf, 1), 0);
    assert!(!t.close(1));
    for i in 0..16 {
        match &t.fds[i] {
            Some(f) => {
                assert!(i >= 3);
                assert!(f.offset <= f.data.len());
            }
            None => {}
        }
    }
}

fn elf_image() -> Vec<u8> {
    let mut e = vec![0u8; 0x200];
    e[0..4].copy_from_slice(&[0x7F, b'E', b'L', b'F']);
    e[4] = 2;
    e[5] = 1;
    e[16..18].copy_from_slice(&2u16.to_le_bytes());
    e[24..32].copy_from_slice(&0x40_1000u64.to_le_bytes());
    e[32..40].copy_from_slice(&64u64.to_le_bytes());
    e[54..56].copy_from_slice(&56u16.to_le_bytes());
    e[56..58].copy_from_slice(&2u16.to_le_bytes());
    // Segment 0: loadable, read+exec, file bytes 0x100..0x180 at 0x401000, 0x2000 in memory.
    let p0 = 64;
    e[p0..p0 + 4].copy_from_slice(&PT_LOAD.to_le_bytes());
    e[p0 + 4..p0 + 8].copy_from_slice(&5u32.to_le_bytes());
    e[p0 + 8..p0 + 16].copy_from_slice(&0x100u64.to_le_bytes());
    e[p0 + 16..p0 + 24].copy_from_slice(&0x40_1000u64.to_le_bytes());
    e[p0 + 32..p0 + 40].copy_from_slice(&0x80u64.to_le_bytes());
    e[p0 + 40..p0 + 48].copy_from_slice(&0x2000u64.to_le_bytes());
    // Segment 1: not loadable.
    let p1 = 120;
    e[p1..p1 + 4].copy_from_slice(&4u32.to_le_bytes());
    for (i, b) in e[0x100..0x180].iter_mut().enumerate() {
        *b = i as u8;
    }
    e
}

#[test]
fn elf_header_and_segments() {
    let e = elf_image();
    let parser = ElfParser::new(&e).unwrap();
    assert_eq!(parser.entry_point(), 0x40_1000);
    assert_eq!(parser.header().e_phnum, 2);
    let segs = parser.load_segments();
    assert_eq!(segs.len(), 1);
    assert_eq!(segs[0].p_vaddr, 0x40_1000);
    assert_eq!(segs[0].p_filesz, 0x80);
    let data = parser.segment_data(&segs[0]);
    assert_eq!(data.len(), 0x80);
    assert_eq!(data[5], 5);
    assert_eq!(parse_phdr(&e, 64), segs[0]);
}

#[test]
fn elf_rejects_bad_magic_class_and_type() {
    let mut e = elf_image();
    e[0] = 0;
    assert!(ElfParser::new(&e).is_none());
    let mut e = elf_image();
    e[4] = 1;
    assert!(ElfParser::new(&e).is_none());
    let mut e = elf_image();
    e[16] = 1;
    assert!(ElfParser::new(&e).is_none());
    assert!(ElfParser::new(&[0x7F, b'E', b'L', b'F']).is_none());
}

fn seg(vaddr: u64, filesz: u64, memsz: u64, flags: u32) -> Elf64_Phdr {
    Elf64_Phdr {
        p_type: PT_LOAD,
        p_flags: flags,
        p_offset: 0x1000,
        p_vaddr: vaddr,
        p_paddr: 0,
        p_filesz: filesz,
        p_memsz: memsz,
        p_align: 0x1000,
    }
}

#[test]
fn loader_plans_areas_heap_and_copies() {
    assert_eq!(segment_flags(0).bits(), 9);
    assert_eq!(segment_flags(2).bits(), 11);
    assert_eq!(segment_flags(1).bits(), 13);
    assert_eq!(segment_flags(3).bits(), 15);
    let segs = [seg(0x40_0800, 0x100, 0x1900, 5), seg(0x60_0000, 0, 0x10, 6)];
    let plan = plan_image(&segs);
    assert_eq!(plan.vmas.regions.len(), 3);
    assert_eq!(plan.vmas.regions[0].start, 0x40_0000);
    assert_eq!(plan.vmas.regions[0].end, 0x40_3000);
    assert_eq!(plan.vmas.regions[2].end, USER_STACK_TOP);
    assert_eq!(plan.heap_break, 0x60_1000);
    let c = page_copy(&segs[0], 0x40_0000).unwrap();
    assert_eq!((c.src_offset, c.dst_offset, c.len), (0x1000, 0x800, 0x100));
    assert!(page_copy(&segs[0], 0x40_1000).is_none());
    assert_eq!(stack_layout(0x10_0008), (0x10_4000, 0x10_4000 - 192));
}

#[test]
fn page_frames_are_reused_or_taken_lowest_first() {
    let mut fa = FrameAllocator::new();
    fa.init(&[MemoryRegion { base: 0x5000, length: 0x1000, usable: true }]);
    assert!(matches!(page_frame(&mut fa, Some(0x9000)), PageFrame::Existing(0x9000)));
    assert_eq!(fa.free_count(), 1);
    assert!(matches!(page_frame(&mut fa, None), PageFrame::Fresh(0x5000)));
    assert!(matches!(page_frame(&mut fa, None), PageFrame::OutOfFrames));
}
