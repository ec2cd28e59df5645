use huseynos::font::{get_mini_glyph, get_terminal_glyph, glyph_bit};
use huseynos::gdt::{self, GdtEntry, Tss};
use huseynos::idt::{self, IdtEntry};
use huseynos::keyboard::{translate_scancode, ModifierState, SC_CAPSLOCK, SC_LSHIFT, SC_RSHIFT};
use huseynos::libhuseyn::{
    datetime_from_registers, strcmp, strlen, BumpAllocator, BumpStep, ConsoleWriter, HEAP_CHUNK,
    MSG_PRINT_CHAR,
};
use huseynos::mouse::MouseState;
use huseynos::pit;
use huseynos::rtc::{bcd_to_binary, read_datetime, CmosTime};

#[test]
fn scancodes_translate_with_shift_and_caps_lock() {
    let mut s = ModifierState::new();
    assert_eq!(s.key_event(0x1E), Some(b'a'));
    assert_eq!(s.key_event(0x02), Some(b'1'));
    assert_eq!(s.key_event(SC_LSHIFT), None);
    assert!(s.is_shifted());
    assert_eq!(s.key_event(0x1E), Some(b'A'));
    assert_eq!(s.key_event(0x02), Some(b'!'));
    assert_eq!(s.key_event(0x80 + SC_LSHIFT), None);
    assert!(!s.is_shifted());
    assert_eq!(s.key_event(SC_CAPSLOCK), None);
    assert_eq!(s.key_event(0x1E), Some(b'A'));
    assert_eq!(s.key_event(0x02), Some(b'1'));
    assert_eq!(s.key_event(SC_RSHIFT), None);
    // Caps lock and shift together give lowercase letters.
    assert_eq!(s.key_event(0x1E), Some(b'a'));
    assert_eq!(s.key_event(0x1C), Some(b'\n'));
    assert_eq!(s.key_event(0x0E), Some(8));
    // Keys without a character, and releases, give nothing.
    assert_eq!(s.key_event(0x1D), None);
    assert_eq!(s.key_event(0x9E), None);
    assert_eq!(translate_scancode(200, &s), None);
}

#[test]
fn caps_lock_twice_restores_state() {
    let mut s = ModifierState::new();
    s.key_event(SC_CAPSLOCK);
    s.key_event(SC_CAPSLOCK);
    assert!(!s.capslock && !s.lshift && !s.rshift);
}

#[test]
fn mouse_packets_move_and_clamp_the_cursor() {
    let mut m = MouseState::new();
    assert_eq!((m.x, m.y), (512, 384));
    // A first byte without the alignment bit is dropped.
    assert!(!m.feed(0x00));
    assert_eq!(m.phase, 0);
    assert!(!m.feed(0x09));
    assert!(!m.feed(10));
    assert!(m.feed(5));
    assert_eq!((m.x, m.y, m.buttons), (522, 379, 1));
    // Negative x movement (sign bit 4).
    m.feed(0x18);
    m.feed(0xF6);
    assert!(m.feed(0));
    assert_eq!((m.x, m.y, m.buttons), (512, 379, 0));
    // Overflow bits: the buttons change, the cursor does not move.
    m.feed(0x4A);
    m.feed(100);
    m.feed(100);
    assert_eq!((m.x, m.y, m.buttons), (512, 379, 2));
    // Clamped at the screen edge.
    for _ in 0..10 {
        m.feed(0x08);
        m.feed(127);
        m.feed(0);
    }
    assert_eq!(m.x, 1023);
}

#[test]
fn rtc_decodes_bcd_binary_and_pm() {
    assert_eq!(bcd_to_binary(0x59), 59);
    assert_eq!(bcd_to_binary(0x00), 0);
    let bcd = CmosTime {
        second: 0x45,
        minute: 0x30,
        hour: 0x12,
        day: 0x31,
        month: 0x12,
        year: 0x24,
        register_b: 0x02,
        century: 0x20,
    };
    let t = read_datetime(&bcd);
    assert_eq!((t.second, t.minute, t.hour, t.day, t.month, t.year), (45, 30, 12, 31, 12, 2024));
    let pm = CmosTime { hour: 0x81, register_b: 0x00, century: 0, ..bcd };
    let t = read_datetime(&pm);
    assert_eq!((t.hour, t.year), (13, 2024));
    // 12-hour mode: 12 PM is noon, 12 AM is midnight.
    assert_eq!(read_datetime(&CmosTime { hour: 0x92, register_b: 0x00, ..bcd }).hour, 12);
    assert_eq!(read_datetime(&CmosTime { hour: 0x12, register_b: 0x00, ..bcd }).hour, 0);
    assert_eq!(read_datetime(&CmosTime { hour: 0x8B, register_b: 0x04, ..bcd }).hour, 23);
    let binary = CmosTime {
        second: 5,
        minute: 6,
        hour: 23,
        day: 7,
        month: 8,
        year: 99,
        register_b: 0x06,
        century: 0,
    };
    let t = read_datetime(&binary);
    assert_eq!((t.second, t.minute, t.hour, t.day, t.month, t.year), (5, 6, 23, 7, 8, 1999));
    let binary_century = CmosTime { year: 5, century: 20, ..binary };
    assert_eq!(read_datetime(&binary_century).year, 2005);
}

#[test]
fn pit_divisor_bytes() {
    let p = pit::init(100);
    assert_eq!((p.command, p.low, p.high), (0x36, 0x9B, 0x2E));
    let p = pit::init(1000);
    assert_eq!((p.low, p.high), (0xA9, 0x04));
    // Below 19 Hz the divisor keeps its low 16 bits.
    let p = pit::init(1);
    assert_eq!((p.low, p.high), (0xDE, 0x34));
}

#[test]
fn gdt_descriptors() {
    assert_eq!(GdtEntry::null().to_bits(), 0);
    assert_eq!(GdtEntry::new(0x9A, 0xA).to_bits(), 0x00AF_9A00_0000_FFFF);
    assert_eq!(GdtEntry::new(0x92, 0xC).to_bits(), 0x00CF_9200_0000_FFFF);
    let (low, high) = gdt::tss_descriptor(0x1234_5678_9ABC_DEF0, 103);
    assert_eq!(low, 0x9A00_89BC_DEF0_0067);
    assert_eq!(high, 0x1234_5678);
    let mut tss = Tss::new();
    assert_eq!(tss.iopb_offset, 104);
    let table = gdt::init(&mut tss, 0xFFFF_8000_0000_4000, 0x1000);
    assert_eq!(tss.rsp[0], 0xFFFF_8000_0000_4000);
    assert_eq!(tss.ist[0], 0xFFFF_8000_0000_4000);
    assert_eq!(table[0], 0);
    assert_eq!(table[1], 0x00AF_9A00_0000_FFFF);
    assert_eq!(table[3], 0x00CF_F200_0000_FFFF);
    assert_eq!(table[4], 0x00AF_FA00_0000_FFFF);
    assert_eq!(table[6], 0);
    gdt::set_tss_stack(&mut tss, 0x5000);
    assert_eq!(tss.rsp[0], 0x5000);
    assert_eq!(tss.ist[0], 0xFFFF_8000_0000_4000);
}

#[test]
fn idt_gates() {
    let mut e = IdtEntry::missing();
    e.set_handler(0x1122_3344_5566_7788, 1);
    assert_eq!((e.offset_low, e.offset_mid, e.offset_high), (0x7788, 0x5566, 0x1122_3344));
    assert_eq!((e.selector, e.ist, e.type_attr), (8, 1, 0x8E));
    e.set_handler_user(0x10, 0);
    assert_eq!(e.type_attr, 0xEE);
    let mut handlers = [0u64; 24];
    for (i, h) in handlers.iter_mut().enumerate() {
        *h = 0x1000 + i as u64;
    }
    let table = idt::init(&handlers);
    assert_eq!(table.len(), 256);
    assert_eq!(table[8].ist, 1);
    assert_eq!(table[8].offset_low, 0x1008);
    assert_eq!(table[32].offset_low, 0x1014);
    assert_eq!(table[44].offset_low, 0x1016);
    assert_eq!(table[0x80].type_attr, 0xEE);
    assert_eq!(table[0x80].offset_low, 0x1017);
    assert_eq!(table[20], IdtEntry::missing());
}

#[test]
fn glyphs() {
    assert_eq!(get_mini_glyph(b'a'), get_mini_glyph(b'A'));
    assert_eq!(get_mini_glyph(b'1'), [0b00100, 0b01100, 0b00100, 0b00100, 0b00100, 0b00100, 0b01110]);
    // The window system's font has no '>', the terminal's does.
    assert_eq!(get_mini_glyph(b'>'), [0b11111, 0b10001, 0b10001, 0b10001, 0b10001, 0b10001, 0b11111]);
    assert_eq!(get_terminal_glyph(b'>')[0], 0b10000);
    let g = get_mini_glyph(b'T');
    assert!(glyph_bit(&g, 0, 0));
    assert!(!glyph_bit(&g, 1, 0));
    assert!(glyph_bit(&g, 1, 2));
}

#[test]
fn c_strings() {
    assert_eq!(strlen(b"abc\0xyz"), 3);
    assert_eq!(strlen(b"\0"), 0);
    assert_eq!(strcmp(b"abc\0", b"abc\0zz"), 0);
    assert_eq!(strcmp(b"abc\0", b"abd\0"), -1);
    assert_eq!(strcmp(b"b\0", b"a\0"), 1);
    assert_eq!(strcmp(b"ab\0", b"abc\0"), -99);
}

#[test]
fn console_writer_sends_one_message_per_byte() {
    let mut w = ConsoleWriter;
    let msgs = w.write_str("hi");
    assert_eq!(msgs.len(), 2);
    assert_eq!((msgs[0].msg_type, msgs[0].arg1), (MSG_PRINT_CHAR, b'h' as u64));
    assert_eq!(msgs[1].arg1, b'i' as u64);
}

#[test]
fn bump_allocator_grows_and_aligns() {
    let mut a = BumpAllocator::new();
    assert_eq!(a.alloc_step(16, 8), BumpStep::Grow(HEAP_CHUNK));
    assert!(a.grown(HEAP_CHUNK, 0x10_0000));
    assert_eq!(a.alloc_step(10, 8), BumpStep::Done(0x10_0000));
    assert_eq!(a.alloc_step(4, 16), BumpStep::Done(0x10_0010));
    // Short by 0x14 bytes: a whole chunk is asked for.
    assert_eq!(a.alloc_step(HEAP_CHUNK, 1), BumpStep::Grow(HEAP_CHUNK));
    assert!(!a.grown(HEAP_CHUNK, 0));
    assert!(a.grown(HEAP_CHUNK, 0x11_0000));
    assert_eq!(a.heap_end, 0x12_0000);
}

#[test]
fn datetime_from_registers_truncates() {
    let t = datetime_from_registers(13, 5, 7, 31, 12, 0x1_07E8);
    assert_eq!((t.hour, t.minute, t.second, t.day, t.month, t.year), (13, 5, 7, 31, 12, 2024));
}
