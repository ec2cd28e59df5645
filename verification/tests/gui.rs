use huseynos::compositor::{lerp_color, Compositor, CompositorAction, Window};
use huseynos::console;
use huseynos::console_driver;
use huseynos::framebuffer::FrameBuffer;
use huseynos::libhuseyn::{
    Message, MSG_MOUSE_CLICK, MSG_MOUSE_MOVE, MSG_WINDOW_CREATE, MSG_WINDOW_DAMAGE, MSG_QUIT,
};
use huseynos::raster;
use huseynos::terminal::{Terminal, BG_COLOR, TEXT_COLOR, WIDTH};

fn message(msg_type: u64, a1: u64, a2: u64, a3: u64, sender: usize) -> Message {
    let mut m = Message::empty();
    m.msg_type = msg_type;
    m.arg1 = a1;
    m.arg2 = a2;
    m.arg3 = a3;
    m.sender = sender;
    m
}

fn screen() -> Compositor {
    let mut c = Compositor::new();
    c.init(200, 100, 800, 4);
    c
}

fn window(x: usize, y: usize, width: usize, height: usize) -> Window {
    Window {
        id: 1,
        owner_pid: 6,
        x,
        y,
        width,
        height,
        shm_id: 1,
        buffer: 0,
        title: [0u8; 32],
        title_len: 0,
    }
}

#[test]
fn lerp_color_rounds_toward_the_start() {
    assert_eq!(lerp_color(0xFF000000, 0xFFFFFFFF, 1, 2), 0xFF7F7F7F);
    assert_eq!(lerp_color(0xFFFFFFFF, 0xFF000000, 1, 2), 0xFF808080);
    assert_eq!(lerp_color(0xFF123456, 0xFF000000, 5, 0), 0xFF123456);
    assert_eq!(lerp_color(0xFF102030, 0xFF405060, 3, 3), 0xFF405060);
    // The step and the scale are read as signed: u32::MAX is -1.
    assert_eq!(lerp_color(0xFF808080, 0xFF000000, u32::MAX, 2), 0xFFC0C0C0);
    assert_eq!(lerp_color(0xFF808080, 0xFF000000, 1, u32::MAX), 0xFFFFFFFF);
}

#[test]
fn window_geometry_and_hits() {
    let w = window(10, 20, 100, 50);
    assert_eq!(w.total_width(), 102);
    assert_eq!(w.total_height(), 76);
    assert_eq!(w.client_x(), 11);
    assert_eq!(w.client_y(), 45);
    assert!(w.hit_title_bar(10, 21));
    assert!(!w.hit_title_bar(10, 20));
    assert!(!w.hit_title_bar(10, 45));
    // Close button at (91, 25), 16 pixels square.
    assert!(w.hit_close_button(91, 25));
    assert!(w.hit_close_button(106, 40));
    assert!(!w.hit_close_button(107, 25));
    assert!(w.hit_anywhere(111, 95));
    assert!(!w.hit_anywhere(112, 95));
}

#[test]
fn background_has_gradient_taskbar_and_line() {
    let c = screen();
    assert_eq!(c.bg_cache.len(), 200 * 100);
    assert_eq!(c.bg_cache[0], 0xFF0A0A1E);
    // Taskbar starts at row 68 with its accent line.
    assert_eq!(c.bg_cache[68 * 200 + 150], 0xFF4A4A6A);
    assert_eq!(c.bg_cache[69 * 200 + 150], 0xFF1A1A2E);
    assert_eq!(c.bg_cache[99 * 200 + 150], 0xFF21213F);
    // The label's 'H' lights its first column at (10, 78).
    assert_eq!(c.bg_cache[78 * 200 + 10], 0xFFE0E0FF);
    assert!(c.backbuf.iter().all(|&p| p == 0));
}

#[test]
fn hit_power_button_area() {
    let c = screen();
    assert!(c.hit_power_button(165, 74));
    assert!(c.hit_power_button(188, 93));
    assert!(!c.hit_power_button(164, 80));
    assert!(!c.hit_power_button(170, 94));
}

#[test]
fn window_request_close_and_quit() {
    let mut c = screen();
    let req = message(MSG_WINDOW_CREATE, 40, 20, 7, 6);
    assert_eq!(
        c.handle_message(&req),
        CompositorAction::MapWindowBuffer { shm_id: 7, vaddr: 0xB000_0000 }
    );
    c.create_window(&req);
    assert_eq!(c.windows.len(), 1);
    let w = &c.windows[0];
    assert_eq!((w.x, w.y, w.width, w.height, w.owner_pid), (79, 11, 40, 20, 6));
    assert_eq!(&w.title[..w.title_len], b"Terminal");
    assert_eq!(c.alloc_vaddr, 0xB000_1000);
    assert_eq!(c.next_window_id, 2);

    // Move onto the close button (at (100, 16)) and press.
    assert_eq!(c.handle_message(&message(MSG_MOUSE_MOVE, 105, 20, 0, 4)), CompositorAction::Nothing);
    assert_eq!(c.handle_message(&message(MSG_MOUSE_CLICK, 105, 20, 1, 4)), CompositorAction::SendQuit { pid: 6 });
    assert!(c.windows.is_empty());
    // Holding the button is not a new press.
    assert_eq!(c.handle_message(&message(MSG_MOUSE_CLICK, 105, 20, 1, 4)), CompositorAction::Nothing);
    let _ = MSG_QUIT;
}

#[test]
fn title_bar_drag_moves_and_clamps() {
    let mut c = screen();
    let req = message(MSG_WINDOW_CREATE, 40, 20, 7, 6);
    c.handle_message(&req);
    c.create_window(&req);
    c.handle_message(&message(MSG_MOUSE_MOVE, 85, 13, 0, 4));
    assert_eq!(c.handle_message(&message(MSG_MOUSE_CLICK, 85, 13, 1, 4)), CompositorAction::Nothing);
    assert!(c.drag.active);
    assert_eq!((c.drag.offset_x, c.drag.offset_y), (6, 2));
    c.handle_message(&message(MSG_MOUSE_MOVE, 95, 30, 1, 4));
    assert_eq!((c.windows[0].x, c.windows[0].y), (89, 28));
    // Far right and down: clamped to width - 50 and above the taskbar.
    c.handle_message(&message(MSG_MOUSE_MOVE, 500, 500, 1, 4));
    assert_eq!((c.windows[0].x, c.windows[0].y), (150, 58));
    // Far left: clamped at 0.
    c.handle_message(&message(MSG_MOUSE_MOVE, 0, 0, 1, 4));
    assert_eq!((c.windows[0].x, c.windows[0].y), (0, 0));
    // Releasing the button ends the drag.
    c.handle_message(&message(MSG_MOUSE_MOVE, 10, 10, 0, 4));
    assert!(!c.drag.active);
    assert_eq!((c.mouse_x, c.mouse_y), (10, 10));
}

#[test]
fn clicking_a_lower_window_raises_it() {
    let mut c = screen();
    let req = message(MSG_WINDOW_CREATE, 40, 20, 7, 6);
    c.create_window(&req);
    let req2 = message(MSG_WINDOW_CREATE, 40, 20, 8, 9);
    c.create_window(&req2);
    assert_eq!((c.windows[1].x, c.windows[1].y), (99, 31));
    // (85, 40) is in the client area of the first window only.
    c.handle_message(&message(MSG_MOUSE_MOVE, 85, 40, 0, 4));
    c.handle_message(&message(MSG_MOUSE_CLICK, 85, 40, 1, 4));
    assert_eq!(c.windows[1].id, 1);
    assert_eq!(c.windows[0].id, 2);
    assert!(!c.drag.active);
}

#[test]
fn power_button_asks_for_shutdown_and_damage_marks_dirty() {
    let mut c = screen();
    c.dirty = false;
    assert_eq!(c.handle_message(&message(MSG_WINDOW_DAMAGE, 0, 0, 0, 6)), CompositorAction::Nothing);
    assert!(c.dirty);
    c.handle_message(&message(MSG_MOUSE_MOVE, 170, 80, 0, 4));
    assert_eq!(c.handle_message(&message(MSG_MOUSE_CLICK, 170, 80, 1, 4)), CompositorAction::Shutdown);
    assert_eq!(c.handle_message(&message(0x99, 0, 0, 0, 6)), CompositorAction::Nothing);
}

#[test]
fn render_composes_background_windows_and_cursor() {
    let mut c = screen();
    let req = message(MSG_WINDOW_CREATE, 40, 20, 7, 6);
    c.create_window(&req);
    c.handle_message(&message(MSG_MOUSE_MOVE, 5, 5, 0, 4));
    let mut pixels = vec![0xFF112233u32; 40 * 20];
    pixels[1] = 0x00FFFFFF; // transparent: the decoration below stays
    let clients = vec![pixels];
    c.render(12, 34, &clients);
    assert!(!c.dirty);
    assert_eq!(c.frame_count, 1);
    let at = |x: usize, y: usize| c.backbuf[y * 200 + x];
    // Border of the (active) window.
    assert_eq!(at(79, 11), 0xFF4A90D9);
    // First row of the title gradient.
    assert_eq!(at(80, 12), 0xFF2D5A8A);
    // Close button's cross at its top-left corner.
    assert_eq!(at(100, 16), 0xFFFFFFFF);
    // Client pixels, and the background where a client pixel is transparent.
    assert_eq!(at(80, 36), 0xFF112233);
    assert_eq!(at(81, 36), c.bg_cache[36 * 200 + 81]);
    // Cursor outline at the pointer.
    assert_eq!(at(5, 5), 0xFF000000);
    assert_eq!(at(6, 7), 0xFFFFFFFF);
    // Background elsewhere.
    assert_eq!(at(50, 3), c.bg_cache[3 * 200 + 50]);
    // The power button's box.
    assert_eq!(at(166, 75), 0xFF8B0000);
}

#[test]
fn raster_clips_to_the_buffer() {
    let mut buf = vec![0u32; 4 * 3];
    raster::fill_rect(&mut buf, 4, 3, 2, 1, 10, 10, 7);
    assert_eq!(buf, vec![0, 0, 0, 0, 0, 0, 7, 7, 0, 0, 7, 7]);
    raster::set_pixel(&mut buf, 4, 3, 4, 0, 9);
    raster::set_pixel(&mut buf, 4, 3, 0, 0, 9);
    assert_eq!(buf[0], 9);
    assert_eq!(buf.iter().filter(|&&p| p == 9).count(), 1);
}

#[test]
fn terminal_prints_wraps_and_protects_the_prompt() {
    let mut t = Terminal::new();
    t.init(3);
    assert_eq!(t.buffer.len(), 400 * 300);
    assert!(t.buffer.iter().all(|&p| p == BG_COLOR));
    let req = t.window_request();
    assert_eq!((req.msg_type, req.arg1, req.arg2, req.arg3), (MSG_WINDOW_CREATE, 400, 300, 3));
    assert_eq!(Terminal::damage_message().msg_type, MSG_WINDOW_DAMAGE);

    t.print("A");
    assert_eq!((t.cursor_x, t.cursor_y), (12, 5));
    // 'A' lights columns 1..=3 of its top row.
    assert_eq!(t.buffer[5 * WIDTH + 6], TEXT_COLOR);
    assert_eq!(t.buffer[5 * WIDTH + 5], BG_COLOR);
    t.print("\n");
    assert_eq!((t.cursor_x, t.cursor_y), (5, 15));
    t.print("root@huseynos:~$ ");
    assert_eq!(t.cursor_x, 124);
    // Backspace never erases the prompt.
    assert!(!t.handle_key(8));
    assert_eq!(t.cursor_x, 124);
    assert!(t.handle_key(b'x'));
    assert_eq!(t.cursor_x, 131);
    assert!(t.handle_key(8));
    assert_eq!(t.cursor_x, 124);
    assert!(t.buffer[15 * WIDTH + 124..15 * WIDTH + 131].iter().all(|&p| p == BG_COLOR));
    // Keys outside the printable range are ignored.
    assert!(!t.handle_key(0x1B));
    assert!(t.handle_key(b'\n'));
    assert_eq!((t.cursor_x, t.cursor_y), (124, 25));
}

#[test]
fn terminal_wraps_at_the_right_edge() {
    let mut t = Terminal::new();
    t.init(1);
    for _ in 0..55 {
        t.print("x");
    }
    // 5 + 55 * 7 = 390 still leaves room for one more character.
    assert_eq!((t.cursor_x, t.cursor_y), (390, 5));
    t.print("x");
    assert_eq!((t.cursor_x, t.cursor_y), (5, 15));
}

fn test_font() -> Vec<[u8; 16]> {
    let mut font = vec![[0u8; 16]; 256];
    font[b'A' as usize] = [0xFF; 16];
    font[b'B' as usize] = [0x80; 16];
    font
}

fn pixel(fb: &FrameBuffer, x: usize, y: usize) -> u32 {
    let off = y * fb.pitch + x * fb.bpp;
    u32::from_le_bytes([fb.bytes[off], fb.bytes[off + 1], fb.bytes[off + 2], fb.bytes[off + 3]])
}

#[test]
fn kernel_console_cursor_stays_on_screen() {
    let mut c = console::Console::new();
    c.init(FrameBuffer::new(24, 32, 96, 4), test_font());
    for &b in b"abc\tde\x08\x08\x08\x08fgh\n\nij\tk" {
        c.write_char(b);
        assert!(c.x_pos < 24);
        assert!(c.y_pos + 16 <= 32);
    }
}

#[test]
fn kernel_console_writes_wraps_and_scrolls() {
    let mut c = console::Console::new();
    // Nothing happens before a framebuffer is attached.
    c.write_char(b'A');
    assert_eq!((c.x_pos, c.y_pos), (0, 0));
    c.init(FrameBuffer::new(64, 32, 256, 4), test_font());
    assert_eq!(pixel(&c.fb, 0, 0), 0);
    c.write_char(b'A');
    assert_eq!(pixel(&c.fb, 7, 15), console::COLOR_WHITE);
    assert_eq!((c.x_pos, c.y_pos), (8, 0));
    c.set_colors(console::COLOR_RED, console::COLOR_BLUE);
    c.write_char(b'B');
    assert_eq!(pixel(&c.fb, 8, 0), console::COLOR_RED);
    assert_eq!(pixel(&c.fb, 9, 0), console::COLOR_BLUE);
    // Tab to the next multiple of four cells.
    c.write_char(b'\t');
    assert_eq!(c.x_pos, 32);
    c.write_char(b'\r');
    assert_eq!(c.x_pos, 0);
    // Backspace at the start of a line goes to the end of the previous one.
    c.write_char(b'\n');
    assert_eq!((c.x_pos, c.y_pos), (0, 16));
    c.write_char(8);
    assert_eq!((c.x_pos, c.y_pos), (56, 0));
    // A second newline on the last line scrolls: the first line moves away.
    c.write_str("\n\n");
    assert_eq!((c.x_pos, c.y_pos), (0, 16));
    assert_eq!(pixel(&c.fb, 7, 15), 0);
    c.clear();
    assert_eq!((c.x_pos, c.y_pos), (0, 0));
    assert_eq!(pixel(&c.fb, 63, 31), console::COLOR_BLUE);
}

#[test]
fn console_driver_wraps_and_scrolls() {
    let mut c = console_driver::Console::new();
    c.init(FrameBuffer::new(16, 32, 64, 4), test_font());
    c.write_char(b'A');
    c.write_char(b'A');
    assert_eq!((c.x_pos, c.y_pos), (16, 0));
    // The third character wraps to the next line.
    c.write_char(b'A');
    assert_eq!((c.x_pos, c.y_pos), (8, 16));
    // Newline on the last line scrolls and stays on it.
    c.write_char(b'\n');
    assert_eq!((c.x_pos, c.y_pos), (0, 16));
    assert_eq!(pixel(&c.fb, 0, 0), console_driver::COLOR_WHITE);
    assert_eq!(pixel(&c.fb, 0, 16), 0);
    c.write_char(b'\t');
    assert_eq!(c.x_pos, 32);
    c.write_char(8);
    assert_eq!(c.x_pos, 24);
}

#[test]
fn messages_outside_the_arithmetic_are_refused() {
    let mut c = screen();
    assert!(c.accepts(&message(MSG_WINDOW_CREATE, 50, 40, 1, 6)));
    assert!(!c.accepts(&message(MSG_WINDOW_CREATE, u64::MAX, 2, 1, 6)));
    assert!(!c.accepts(&message(MSG_WINDOW_CREATE, 8, 1 << 62, 1, 6)));
    assert!(c.accepts(&message(MSG_MOUSE_MOVE, 10, 10, 0, 4)));
    assert!(c.accepts(&message(MSG_MOUSE_CLICK, 0, 0, 1, 4)));
    assert!(c.windows_drawable());
    c.windows.push(window(0, 0, 5, 5));
    // Its close button would lie left of the screen's edge.
    assert!(!c.windows[0].drawable());
    assert!(!c.windows_drawable());
    assert!(!c.accepts(&message(MSG_MOUSE_CLICK, 0, 0, 1, 4)));
    // A release is not a press: nothing is drawn for it.
    assert!(c.accepts(&message(MSG_MOUSE_CLICK, 0, 0, 0, 4)));
    assert!(window(10, 10, 100, 50).drawable());
}

#[test]
fn a_click_tests_only_the_windows_down_to_the_one_it_lands_on() {
    let mut c = screen();
    // A window whose close button would lie left of the screen's edge,
    // beneath a window the pointer is on.
    c.windows.push(window(0, 0, 5, 5));
    let mut top = window(0, 0, 100, 50);
    top.id = 2;
    c.windows.push(top);
    c.mouse_x = 10;
    c.mouse_y = 30;
    let press = message(MSG_MOUSE_CLICK, 0, 0, 1, 4);
    assert!(!c.windows_drawable());
    assert!(c.accepts(&press));
    // The press lands on the top window's client area, which raises it.
    assert_eq!(c.handle_message(&press), CompositorAction::Nothing);
    assert_eq!(c.windows[1].id, 2);
    assert!(!c.drag.active);
    // With the top window gone, the press would test the lower one.
    c.windows.pop();
    c.mouse_buttons = 0;
    assert!(!c.accepts(&press));
}
