use huseynos::frame::{FrameAllocator, MemoryRegion};
use huseynos::idt::mouse_config;
use huseynos::libhuseyn::{MSG_MOUSE_CLICK, MSG_MOUSE_MOVE};
use huseynos::mouse::MouseState;
use huseynos::paging::{
    create_user_page_table, indices, lookup_step, map_step, next_table, user_pml4, LookupStep, PageTables,
    MapStep,
};
use huseynos::process::{Process, ProcessState};
use huseynos::shell::{
    format_listing, parse_command, parse_user_command, EditAction, LineEditor, ShellCommand, UserCommand,
};
use huseynos::shm::ShmTable;
use huseynos::syscall::{listdir_text, map_physical_pages, Kernel, SYS_ERROR};

fn ramdisk() -> Vec<u8> {
    let mut img = vec![0u8; 4096];
    img[12] = 0x02;
    img[13] = 1;
    img[14] = 1;
    img[16] = 2;
    img[17] = 16;
    img[22] = 1;
    let root = 1536;
    img[root..root + 11].copy_from_slice(b"HELLO   TXT");
    img[root + 11] = 0x20;
    img[root + 26] = 2;
    img[root + 28] = 5;
    img[root + 32..root + 43].copy_from_slice(b"BIG     BIN");
    img[root + 43] = 0x20;
    img[root + 58] = 3;
    img[root + 60..root + 64].copy_from_slice(&1234u32.to_le_bytes());
    img[2048..2053].copy_from_slice(b"hello");
    img
}

fn running_kernel() -> Kernel {
    let mut k = Kernel::new(0x5000);
    let mut p = Process::empty();
    p.pid = 1;
    p.state = ProcessState::Running;
    p.pml4_phys = 0x7000;
    k.procs.insert(p).unwrap();
    k.sched.current_pid = 1;
    k
}

#[test]
fn shell_parses_commands() {
    assert_eq!(parse_command(b"  help  "), ShellCommand::Help);
    assert_eq!(parse_command(b"clear"), ShellCommand::Clear);
    assert_eq!(parse_command(b"info extra"), ShellCommand::Info);
    assert_eq!(parse_command(b"\tdate"), ShellCommand::Date);
    // Bytes 0x85 and 0xA0 read as U+0085 and U+00A0, which are whitespace.
    assert_eq!(parse_command(b"\xA0cat\x85a.txt\xA0"), ShellCommand::Cat(Some(b"a.txt".to_vec())));
    assert_eq!(parse_command(b"ls"), ShellCommand::Ls);
    assert_eq!(parse_command(b"cat  notes.txt  more"), ShellCommand::Cat(Some(b"notes.txt".to_vec())));
    assert_eq!(parse_command(b"cat   "), ShellCommand::Cat(None));
    assert_eq!(parse_command(b"   "), ShellCommand::Blank);
    assert_eq!(parse_command(b"reboot now"), ShellCommand::Unknown(b"reboot".to_vec()));
    assert_eq!(parse_command(b"helpme"), ShellCommand::Unknown(b"helpme".to_vec()));
}

#[test]
fn shell_line_editing() {
    let mut e = LineEditor::new();
    assert_eq!(e.key(8), EditAction::Ignore);
    assert_eq!(e.key(b'l'), EditAction::Echo(b'l'));
    assert_eq!(e.key(b's'), EditAction::Echo(b's'));
    assert_eq!(e.key(b'x'), EditAction::Echo(b'x'));
    assert_eq!(e.key(8), EditAction::Erase);
    assert_eq!(e.key(b'\n'), EditAction::Submit);
    assert_eq!(e.take_line(), b"ls".to_vec());
    assert!(e.buffer.is_empty());
    for _ in 0..128 {
        assert_eq!(e.key(b'a'), EditAction::Echo(b'a'));
    }
    assert_eq!(e.key(b'b'), EditAction::Ignore);
    assert_eq!(e.buffer.len(), 128);
}

#[test]
fn file_system_calls() {
    let img = ramdisk();
    let mut k = running_kernel();
    let fd = k.sys_open(&img, "hello.txt", 0);
    assert_eq!(fd, 3);
    assert_eq!(k.sys_read(fd, 2), b"he".to_vec());
    assert_eq!(k.sys_read(fd, 100), b"llo".to_vec());
    assert!(k.sys_read(fd, 100).is_empty());
    assert_eq!(k.sys_write_file(fd, b"zz"), 0);
    assert_eq!(k.sys_open(&img, "nope.txt", 0), SYS_ERROR);
    let w = k.sys_open(&img, "new.txt", 1);
    assert_eq!(w, 4);
    assert_eq!(k.sys_write_file(w, b"abc"), 3);
    assert_eq!(k.sys_stat(w), 3);
    assert_eq!(k.sys_close(w), 0);
    assert_eq!(k.sys_close(w), SYS_ERROR);
    let mut idle = Kernel::new(0);
    assert_eq!(idle.sys_open(&img, "hello.txt", 0), SYS_ERROR);
    assert!(idle.sys_read(3, 10).is_empty());
    assert_eq!(idle.sys_write_file(3, b"x"), 0);
}

#[test]
fn listdir_lines_and_truncation() {
    let img = ramdisk();
    assert_eq!(listdir_text(&img, 100), b"HELLO.TXT 5\nBIG.BIN 1234\n".to_vec());
    assert_eq!(listdir_text(&img, 9), b"HELLO.TXT".to_vec());
    assert!(listdir_text(&img, 0).is_empty());
    assert!(listdir_text(&[0u8; 8], 100).is_empty());
}

#[test]
fn map_physical_page_list() {
    assert_eq!(
        map_physical_pages(0xA000_0010, 0xFD00_0020, 0x1FF0),
        vec![(0xA000_0000, 0xFD00_0000), (0xA000_1000, 0xFD00_1000)]
    );
    assert_eq!(map_physical_pages(0x1000, 0x2000, 0x1001).len(), 2);
    assert!(map_physical_pages(0x1000, 0x2000, 0).is_empty());
}

#[test]
fn shared_memory_calls() {
    let mut k = running_kernel();
    let mut shm = ShmTable::new();
    let mut fa = FrameAllocator::new();
    fa.init(&[MemoryRegion { base: 0x30_0000, length: 0x4000, usable: true }]);
    let id = k.sys_shm_create(&mut shm, &mut fa, 0x1800);
    assert_eq!(id, 1);
    assert_eq!(shm.regions[0].owner, 1);
    let (rax, pml4, pages) = k.sys_shm_map(&mut shm, id, 0xC000_0000);
    assert_eq!((rax, pml4), (0, 0x7000));
    assert_eq!(pages, vec![(0xC000_0000, 0x30_0000), (0xC000_1000, 0x30_1000)]);
    let (rax, pages) = k.sys_shm_unmap(&mut shm, id, 0xC000_0000);
    assert_eq!(rax, 0);
    assert_eq!(pages, vec![0xC000_0000, 0xC000_1000]);
    assert_eq!(k.sys_shm_map(&mut shm, 77, 0).0, SYS_ERROR);
    assert_eq!(k.sys_shm_unmap(&mut shm, 77, 0).0, SYS_ERROR);
    // Not enough frames left for 3 pages.
    assert_eq!(k.sys_shm_create(&mut shm, &mut fa, 0x3000), SYS_ERROR);
}

#[test]
fn paging_steps() {
    let idx = indices(0x0000_7FFF_FFFF_F000);
    assert_eq!(idx, [255, 511, 511, 511]);
    assert_eq!(indices(0x40_1000), [0, 0, 2, 1]);
    let mut fa = FrameAllocator::new();
    fa.init(&[MemoryRegion { base: 0x10_0000, length: 0x1000, usable: true }]);
    assert_eq!(map_step(&mut fa, 0, 0x8000_0000_0020_3007, 0, 0), MapStep::Descend(0x20_3000));
    assert_eq!(
        map_step(&mut fa, 1, 0, 0, 0),
        MapStep::NewTable { table: 0x10_0000, entry: 0x10_0007 }
    );
    assert_eq!(map_step(&mut fa, 2, 0, 0, 0), MapStep::OutOfFrames);
    assert_eq!(map_step(&mut fa, 3, 0, 0x55_5000, 6), MapStep::Leaf(0x55_5007));
    assert_eq!(lookup_step(0, 0x20_3006, 0), LookupStep::Unmapped);
    assert_eq!(lookup_step(0, 0x20_3001, 0), LookupStep::Descend(0x20_3000));
    assert_eq!(lookup_step(2, 0x4020_0081, 0x1234_5678), LookupStep::Found(0x4020_0000 + 0x14_5678));
    assert_eq!(lookup_step(1, 0x4000_0081, 0x1234_5678), LookupStep::Found(0x4000_0000 + 0x1234_5678));
    assert_eq!(lookup_step(3, 0x9000_0003, 0x1234_5678), LookupStep::Found(0x9000_0678));
    assert_eq!(next_table(0x3003), Some(0x3000));
    assert_eq!(next_table(0x3002), None);
}

#[test]
fn user_page_table_shares_the_kernel_half() {
    let mut active = [0u64; 512];
    for (i, e) in active.iter_mut().enumerate() {
        *e = i as u64 * 0x1000 + 3;
    }
    let t = user_pml4(&active);
    assert!(t[..256].iter().all(|&e| e == 0));
    assert_eq!(t[256], active[256]);
    assert_eq!(t[511], active[511]);
    let mut fa = FrameAllocator::new();
    assert!(create_user_page_table(&mut fa, &active).is_none());
    fa.init(&[MemoryRegion { base: 0x8000, length: 0x1000, usable: true }]);
    let (frame, table) = create_user_page_table(&mut fa, &active).unwrap();
    assert_eq!(frame, 0x8000);
    assert_eq!(table, t);
}

#[test]
fn mouse_driver_messages_and_controller_config() {
    let mut m = MouseState::new();
    m.feed(0x09);
    m.feed(3);
    m.feed(0);
    let (mv, click) = m.packet_messages(0);
    assert_eq!((mv.msg_type, mv.arg1, mv.arg2, mv.arg3), (MSG_MOUSE_MOVE, 515, 384, 1));
    let click = click.unwrap();
    assert_eq!((click.msg_type, click.arg3), (MSG_MOUSE_CLICK, 1));
    assert!(m.packet_messages(1).1.is_none());
    assert_eq!(mouse_config(0x61), 0x43);
    assert_eq!(mouse_config(0x00), 0x02);
}

#[test]
fn map_then_translate_then_unmap() {
    let mut fa = FrameAllocator::new();
    fa.init(&[MemoryRegion { base: 0x10_0000, length: 0x10_0000, usable: true }]);
    let pml4 = fa.allocate().unwrap();
    assert_eq!(pml4, 0x10_0000);
    let mut pt = PageTables::new();
    let virt = 0x40_1234;
    assert_eq!(pt.get_mapped_frame(pml4, virt), None);
    assert!(pt.map_page_in_table(&mut fa, pml4, virt, 0x55_5000, 2));
    // The PDPT, PD and page table came from the next three free frames.
    assert_eq!(pt.read(pml4, 0), 0x10_1000 | 7);
    assert_eq!(pt.read(0x10_1000, 0), 0x10_2000 | 7);
    assert_eq!(pt.read(0x10_2000, 2), 0x10_3000 | 7);
    assert_eq!(pt.read(0x10_3000, 1), 0x55_5000 | 2 | 1);
    assert_eq!(pt.get_mapped_frame(pml4, virt), Some(0x55_5234));
    // A neighbouring page reuses the tables.
    assert!(pt.map_page(&mut fa, pml4, 0x40_2000, 0x66_6000, 0));
    assert_eq!(fa.allocate(), Some(0x10_4000));
    assert_eq!(pt.get_mapped_frame(pml4, 0x40_2fff), Some(0x66_6fff));
    // The first page is where it was.
    assert_eq!(pt.get_mapped_frame(pml4, virt), Some(0x55_5234));
    pt.unmap_page(pml4, virt);
    assert_eq!(pt.get_mapped_frame(pml4, virt), None);
    assert_eq!(pt.get_mapped_frame(pml4, 0x40_2000), Some(0x66_6000));
    // Unmapping an address whose directory is absent changes nothing.
    pt.unmap_page(pml4, 0x7000_0000_0000);
    assert_eq!(pt.get_mapped_frame(pml4, 0x40_2000), Some(0x66_6000));
}

#[test]
fn mapping_fails_without_frames_for_tables() {
    let mut fa = FrameAllocator::new();
    fa.init(&[MemoryRegion { base: 0x10_0000, length: 0x2000, usable: true }]);
    let pml4 = fa.allocate().unwrap();
    let mut pt = PageTables::new();
    assert!(!pt.map_page_in_table(&mut fa, pml4, 0x40_0000, 0x55_5000, 0));
    assert_eq!(fa.free_count(), 0);
    assert_eq!(pt.get_mapped_frame(pml4, 0x40_0000), None);
}

#[test]
fn huge_pages_translate_within_the_page() {
    let mut pt = PageTables::new();
    pt.write(0x1000, 0, 0x2000 | 1);
    pt.write(0x2000, 1, 0x4000_0000 | 0x81);
    assert_eq!(pt.get_mapped_frame(0x1000, 0x4000_0000 + 0x12_3456), Some(0x4000_0000 + 0x12_3456));
    pt.write(0x2000, 2, 0x3000 | 1);
    pt.write(0x3000, 3, 0x60_0000 | 0x81);
    assert_eq!(pt.get_mapped_frame(0x1000, 0x8060_1234), Some(0x60_1234));
    pt.zero_table(0x3000);
    assert_eq!(pt.get_mapped_frame(0x1000, 0x8060_1234), None);
}

#[test]
fn user_shell_commands() {
    assert_eq!(parse_user_command(b"   "), UserCommand::Blank);
    assert_eq!(parse_user_command(b"help"), UserCommand::Help);
    assert_eq!(parse_user_command(b" ls "), UserCommand::Ls);
    assert_eq!(parse_user_command(b"cat readme.txt extra"), UserCommand::Cat(Some(b"readme.txt".to_vec())));
    assert_eq!(parse_user_command(b"cat"), UserCommand::Cat(None));
    assert_eq!(parse_user_command(b"run\thello.elf"), UserCommand::Run(Some(b"hello.elf".to_vec())));
    assert_eq!(parse_user_command(b"run  "), UserCommand::Run(None));
    assert_eq!(parse_user_command(b"clear"), UserCommand::Clear);
    assert_eq!(parse_user_command(b"date"), UserCommand::Unknown(b"date".to_vec()));
}

#[test]
fn listing_is_laid_out_in_columns() {
    let out = format_listing("HELLO.ELF 4096\nREADME.TXT 12\r\nnospace\n");
    let expected = format!("  {:12}  {} bytes\n  {:12}  {} bytes\n", "HELLO.ELF", "4096", "README.TXT", "12");
    assert_eq!(out, expected.into_bytes());
    assert_eq!(format_listing(""), Vec::<u8>::new());
    // A name of 12 characters or more gets no padding; the last line needs no newline.
    let out = format_listing("A_VERY_LONG_NAME.BIN 1");
    assert_eq!(out, b"  A_VERY_LONG_NAME.BIN  1 bytes\n".to_vec());
    // Width counts characters, not bytes.
    let out = format_listing("\u{e9}t\u{e9} 5");
    assert_eq!(out, format!("  {:12}  {} bytes\n", "\u{e9}t\u{e9}", "5").into_bytes());
}
