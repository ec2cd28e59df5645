//! PS/2 mouse driver logic: assembling 3-byte packets and tracking the cursor.

use vstd::prelude::*;
use crate::libhuseyn::{Message, MSG_MOUSE_CLICK, MSG_MOUSE_MOVE};

verus! {

pub const SCREEN_WIDTH: i32 = 1024;
pub const SCREEN_HEIGHT: i32 = 768;

/// Packet assembly and cursor state.
pub struct MouseState {
    /// Which byte of the 3-byte packet comes next (0, 1 or 2).
    pub phase: u8,
    /// The packet being assembled.
    pub packet: [u8; 3],
    /// Absolute cursor position.
    pub x: i32,
    pub y: i32,
    /// Button bits: 0 left, 1 right, 2 middle.
    pub buttons: u8,
}

pub open spec fn clamp(v: int, lo: int, hi: int) -> int {
    if v < lo { lo } else if v > hi { hi } else { v }
}

/// Signed 9-bit movement: the byte, minus 256 when the sign bit is set.
pub open spec fn movement(byte: u8, negative: bool) -> int {
    if negative { byte - 256 } else { byte as int }
}

/// The state after a complete packet `p` (flags, dx, dy) is applied to `s`:
/// the buttons are taken from the flags; unless an overflow bit is set, the
/// cursor moves by dx and by minus dy (PS/2 counts y upward), clamped to the
/// screen.
pub open spec fn apply_packet(x: i32, y: i32, p: Seq<u8>) -> (int, int) {
    let flags = p[0];
    if flags & 0xC0 != 0 {
        (x as int, y as int)
    } else {
        (
            clamp(x + movement(p[1], flags & 0x10 != 0), 0, SCREEN_WIDTH - 1),
            clamp(y - movement(p[2], flags & 0x20 != 0), 0, SCREEN_HEIGHT - 1),
        )
    }
}

/// Applying packet `p` at `(x, y)` stays within `i32` arithmetic.
pub open spec fn packet_fits(x: i32, y: i32, p: Seq<u8>) -> bool {
    let flags = p[0];
    flags & 0xC0 != 0 || (i32::MIN <= x + movement(p[1], flags & 0x10 != 0) <= i32::MAX && i32::MIN
        <= y - movement(p[2], flags & 0x20 != 0) <= i32::MAX)
}

fn clamp_i32(v: i32, lo: i32, hi: i32) -> (r: i32)
    requires
        lo <= hi,
    ensures
        r == clamp(v as int, lo as int, hi as int),
{
    if v < lo {
        lo
    } else if v > hi {
        hi
    } else {
        v
    }
}

impl MouseState {
    /// Waiting for the first byte, cursor at the screen centre, no buttons.
    pub fn new() -> (r: MouseState)
        ensures
            r.phase == 0,
            r.packet@ == seq![0u8, 0u8, 0u8],
            r.x == SCREEN_WIDTH / 2,
            r.y == SCREEN_HEIGHT / 2,
            r.buttons == 0,
    {
        let r = MouseState { phase: 0, packet: [0; 3], x: SCREEN_WIDTH / 2, y: SCREEN_HEIGHT / 2, buttons: 0 };
        assert(r.packet@ =~= seq![0u8, 0u8, 0u8]);
        r
    }

    /// Apply the assembled packet to the buttons and cursor.
    pub fn process_packet(&mut self)
        requires
            packet_fits(old(self).x, old(self).y, old(self).packet@),
        ensures
            final(self).buttons == old(self).packet[0] & 0x07,
            (final(self).x as int, final(self).y as int) == apply_packet(
                old(self).x,
                old(self).y,
                old(self).packet@,
            ),
            old(self).packet[0] & 0xC0 == 0 ==> 0 <= final(self).x < SCREEN_WIDTH,
            old(self).packet[0] & 0xC0 == 0 ==> 0 <= final(self).y < SCREEN_HEIGHT,
            final(self).phase == old(self).phase,
            final(self).packet == old(self).packet,
    {
        let flags = self.packet[0];
        self.buttons = flags & 0x07;
        let mut dx = self.packet[1] as i32;
        if flags & 0x10 != 0 {
            dx = dx - 256;
        }
        let mut dy = self.packet[2] as i32;
        if flags & 0x20 != 0 {
            dy = dy - 256;
        }
        dy = -dy;
        if flags & 0xC0 != 0 {
            return;
        }
        self.x = clamp_i32(self.x + dx, 0, SCREEN_WIDTH - 1);
        self.y = clamp_i32(self.y + dy, 0, SCREEN_HEIGHT - 1);
    }

    /// Take one byte from the mouse. A first byte without the alignment bit
    /// (bit 3) is dropped to resynchronise. Returns true when the byte
    /// completed a packet, which is then applied.
    pub fn feed(&mut self, byte: u8) -> (r: bool)
        requires
            old(self).phase == 2 ==> packet_fits(
                old(self).x,
                old(self).y,
                old(self).packet@.update(2, byte),
            ),
        ensures
            old(self).phase == 0 ==> {
                &&& !r
                &&& final(self).x == old(self).x && final(self).y == old(self).y
                &&& final(self).buttons == old(self).buttons
                &&& if byte & 0x08 != 0 {
                    final(self).phase == 1 && final(self).packet@ == old(self).packet@.update(0, byte)
                } else {
                    final(self).phase == 0 && final(self).packet == old(self).packet
                }
            },
            old(self).phase == 1 ==> {
                &&& !r
                &&& final(self).phase == 2
                &&& final(self).packet@ == old(self).packet@.update(1, byte)
                &&& final(self).x == old(self).x && final(self).y == old(self).y
                &&& final(self).buttons == old(self).buttons
            },
            old(self).phase == 2 ==> {
                let p = old(self).packet@.update(2, byte);
                &&& r
                &&& final(self).phase == 0
                &&& final(self).packet@ == p
                &&& final(self).buttons == p[0] & 0x07
                &&& (final(self).x as int, final(self).y as int) == apply_packet(old(self).x, old(self).y, p)
            },
            old(self).phase > 2 ==> {
                &&& !r
                &&& final(self).phase == 0
                &&& final(self).packet == old(self).packet
                &&& final(self).x == old(self).x && final(self).y == old(self).y
                &&& final(self).buttons == old(self).buttons
            },
    {
        if self.phase == 0 {
            if byte & 0x08 != 0 {
                self.packet[0] = byte;
                self.phase = 1;
            }
            false
        } else if self.phase == 1 {
            self.packet[1] = byte;
            self.phase = 2;
            false
        } else if self.phase == 2 {
            self.packet[2] = byte;
            self.phase = 0;
            self.process_packet();
            true
        } else {
            self.phase = 0;
            false
        }
    }
}

/// The cursor never leaves the screen: a packet applied to a position on
/// the screen gives a position on the screen.
pub proof fn cursor_stays_on_screen(x: i32, y: i32, p: Seq<u8>)
    requires
        0 <= x < SCREEN_WIDTH,
        0 <= y < SCREEN_HEIGHT,
        p.len() == 3,
    ensures
        0 <= apply_packet(x, y, p).0 < SCREEN_WIDTH,
        0 <= apply_packet(x, y, p).1 < SCREEN_HEIGHT,
{
}

/// The message telling the compositor where the cursor is and which
/// buttons are down.
pub open spec fn pointer_message(msg_type: u64, x: i32, y: i32, buttons: u8) -> Message {
    Message {
        sender: 0,
        msg_type,
        arg1: x as u64,
        arg2: y as u64,
        arg3: buttons as u64,
        arg4: 0,
        arg5: 0,
        arg6: 0,
    }
}

impl MouseState {
    /// After a complete packet: the move message for the compositor, and a
    /// click message when the buttons differ from `prev_buttons`.
    pub fn packet_messages(&self, prev_buttons: u8) -> (r: (Message, Option<Message>))
        ensures
            r.0 == pointer_message(MSG_MOUSE_MOVE, self.x, self.y, self.buttons),
            r.1 == if self.buttons != prev_buttons {
                Some(pointer_message(MSG_MOUSE_CLICK, self.x, self.y, self.buttons))
            } else {
                None
            },
    {
        let mut mv = Message::empty();
        mv.msg_type = MSG_MOUSE_MOVE;
        mv.arg1 = self.x as u64;
        mv.arg2 = self.y as u64;
        mv.arg3 = self.buttons as u64;
        let click = if self.buttons != prev_buttons {
            let mut c = Message::empty();
            c.msg_type = MSG_MOUSE_CLICK;
            c.arg1 = self.x as u64;
            c.arg2 = self.y as u64;
            c.arg3 = self.buttons as u64;
            Some(c)
        } else {
            None
        };
        (mv, click)
    }
}

} // verus!
