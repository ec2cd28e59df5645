//! PS/2 keyboard driver logic: modifier tracking and scancode set 1 to ASCII.

use vstd::prelude::*;

verus! {

/// Scancode to ASCII without shift (0: no character).
pub const KEYMAP_NORMAL: [u8; 128] = [
    0, 27, 49, 50, 51, 52, 53, 54, 55, 56, 57, 48, 45, 61, 8,
    9, 113, 119, 101, 114, 116, 121, 117, 105, 111, 112, 91, 93, 10,
    0, 97, 115, 100, 102, 103, 104, 106, 107, 108, 59, 39, 96,
    0, 92, 122, 120, 99, 118, 98, 110, 109, 44, 46, 47, 0, 42,
    0, 32, 0, 0, 0, 0, 0, 0, 0, 0, 0, 0, 0, 0, 0, 0,
    0, 0, 0, 0, 0, 0, 0, 0, 0, 0, 0, 0, 0, 0, 0, 0,
    0, 0, 0, 0, 0, 0, 0, 0, 0, 0, 0, 0, 0, 0, 0, 0,
    0, 0, 0, 0, 0, 0, 0, 0, 0, 0, 0, 0, 0, 0, 0, 0,
    0, 0, 0, 0, 0, 0, 0, 0,
];

/// Scancode to ASCII with shift held (0: no character).
pub const KEYMAP_SHIFT: [u8; 128] = [
    0, 27, 33, 64, 35, 36, 37, 94, 38, 42, 40, 41, 95, 43, 8,
    9, 81, 87, 69, 82, 84, 89, 85, 73, 79, 80, 123, 125, 10,
    0, 65, 83, 68, 70, 71, 72, 74, 75, 76, 58, 34, 126,
    0, 124, 90, 88, 67, 86, 66, 78, 77, 60, 62, 63, 0, 42,
    0, 32, 0, 0, 0, 0, 0, 0, 0, 0, 0, 0, 0, 0, 0, 0,
    0, 0, 0, 0, 0, 0, 0, 0, 0, 0, 0, 0, 0, 0, 0, 0,
    0, 0, 0, 0, 0, 0, 0, 0, 0, 0, 0, 0, 0, 0, 0, 0,
    0, 0, 0, 0, 0, 0, 0, 0, 0, 0, 0, 0, 0, 0, 0, 0,
    0, 0, 0, 0, 0, 0, 0, 0,
];

/// Left shift make code.
pub const SC_LSHIFT: u8 = 0x2A;
/// Right shift make code.
pub const SC_RSHIFT: u8 = 0x36;
/// Caps lock make code.
pub const SC_CAPSLOCK: u8 = 0x3A;

/// Modifier keys held or toggled.
pub struct ModifierState {
    pub lshift: bool,
    pub rshift: bool,
    pub capslock: bool,
}

pub open spec fn is_lower(c: u8) -> bool {
    97 <= c <= 122
}

pub open spec fn is_upper(c: u8) -> bool {
    65 <= c <= 90
}

/// The character a key press gives: from the shifted or plain map, with caps
/// lock inverting the case of letters (upper without shift, lower with it).
pub open spec fn translated(scancode: u8, shifted: bool, capslock: bool) -> Option<u8> {
    if scancode >= 128 {
        None
    } else {
        let ascii = if shifted {
            KEYMAP_SHIFT@[scancode as int]
        } else {
            KEYMAP_NORMAL@[scancode as int]
        };
        if ascii == 0 {
            None
        } else if capslock && is_lower(ascii) && !shifted {
            Some((ascii - 32) as u8)
        } else if capslock && is_upper(ascii) && shifted {
            Some((ascii + 32) as u8)
        } else {
            Some(ascii)
        }
    }
}

/// Key event `scancode` took the modifiers from `s0` to `s1` with result
/// `r`; see `key_event`.
pub open spec fn key_event_result(s0: ModifierState, scancode: u8, s1: ModifierState, r: Option<u8>) -> bool {
    &&& scancode >= 0x80 ==> {
        &&& r is None
        &&& s1.lshift == (s0.lshift && scancode != 0x80 + SC_LSHIFT)
        &&& s1.rshift == (s0.rshift && scancode != 0x80 + SC_RSHIFT)
        &&& s1.capslock == s0.capslock
    }
    &&& scancode == SC_LSHIFT ==> r is None && s1.lshift && s1.rshift == s0.rshift && s1.capslock
        == s0.capslock
    &&& scancode == SC_RSHIFT ==> r is None && s1.rshift && s1.lshift == s0.lshift && s1.capslock
        == s0.capslock
    &&& scancode == SC_CAPSLOCK ==> r is None && s1.capslock == !s0.capslock && s1.lshift == s0.lshift
        && s1.rshift == s0.rshift
    &&& scancode < 0x80 && scancode != SC_LSHIFT && scancode != SC_RSHIFT && scancode != SC_CAPSLOCK
        ==> {
        &&& r == translated(scancode, s0.lshift || s0.rshift, s0.capslock)
        &&& s1.lshift == s0.lshift
        &&& s1.rshift == s0.rshift
        &&& s1.capslock == s0.capslock
    }
}

impl ModifierState {
    /// No modifier active.
    pub fn new() -> (r: ModifierState)
        ensures
            !r.lshift && !r.rshift && !r.capslock,
    {
        ModifierState { lshift: false, rshift: false, capslock: false }
    }

    /// Either shift key is held.
    pub fn is_shifted(&self) -> (r: bool)
        ensures
            r == (self.lshift || self.rshift),
    {
        self.lshift || self.rshift
    }

    /// Update the modifiers for one scancode and give the character it types,
    /// if any. Releases (bit 7 set) of the shift keys clear them; presses of
    /// the shift keys set them; caps lock toggles; any other press is
    /// translated.
    pub fn key_event(&mut self, scancode: u8) -> (r: Option<u8>)
        ensures
            key_event_result(*old(self), scancode, *final(self), r),
    {
        if scancode >= 0x80 {
            let released = scancode - 0x80;
            if released == SC_LSHIFT {
                self.lshift = false;
            } else if released == SC_RSHIFT {
                self.rshift = false;
            }
            return None;
        }
        if scancode == SC_LSHIFT {
            self.lshift = true;
            None
        } else if scancode == SC_RSHIFT {
            self.rshift = true;
            None
        } else if scancode == SC_CAPSLOCK {
            self.capslock = !self.capslock;
            None
        } else {
            translate_scancode(scancode, self)
        }
    }
}

/// The character a key press gives under the modifier state `state`.
pub fn translate_scancode(scancode: u8, state: &ModifierState) -> (r: Option<u8>)
    ensures
        r == translated(scancode, state.lshift || state.rshift, state.capslock),
{
    if scancode >= 128 {
        return None;
    }
    let shifted = state.is_shifted();
    let ascii = if shifted {
        KEYMAP_SHIFT[scancode as usize]
    } else {
        KEYMAP_NORMAL[scancode as usize]
    };
    if ascii == 0 {
        return None;
    }
    let mut mapped = ascii;
    let alphabetic = (65 <= mapped && mapped <= 90) || (97 <= mapped && mapped <= 122);
    if state.capslock && alphabetic {
        if 97 <= mapped && mapped <= 122 && !shifted {
            mapped = mapped - 32;
        } else if 65 <= mapped && mapped <= 90 && shifted {
            mapped = mapped + 32;
        }
    }
    Some(mapped)
}

/// Pressing caps lock twice leaves the modifiers as they were, and neither
/// press types anything.
pub proof fn capslock_twice(
    s0: ModifierState,
    s1: ModifierState,
    s2: ModifierState,
    r1: Option<u8>,
    r2: Option<u8>,
)
    requires
        key_event_result(s0, SC_CAPSLOCK, s1, r1),
        key_event_result(s1, SC_CAPSLOCK, s2, r2),
    ensures
        s2 == s0,
        r1 is None && r2 is None,
{
}

/// Pressing and releasing a shift key leaves the modifiers as they were
/// when that key was up.
pub proof fn shift_press_release(
    s0: ModifierState,
    s1: ModifierState,
    s2: ModifierState,
    r1: Option<u8>,
    r2: Option<u8>,
)
    requires
        !s0.lshift,
        key_event_result(s0, SC_LSHIFT, s1, r1),
        key_event_result(s1, (0x80 + SC_LSHIFT) as u8, s2, r2),
    ensures
        s2 == s0,
        r1 is None && r2 is None,
{
}

/// Pressing and releasing the right shift key leaves the modifiers as they
/// were when that key was up.
pub proof fn right_shift_press_release(
    s0: ModifierState,
    s1: ModifierState,
    s2: ModifierState,
    r1: Option<u8>,
    r2: Option<u8>,
)
    requires
        !s0.rshift,
        key_event_result(s0, 0x36, s1, r1),
        key_event_result(s1, 0xB6, s2, r2),
    ensures
        s2 == s0,
        r1 is None && r2 is None,
{
}

/// Releasing a shift key (0xAA left, 0xB6 right) lets that key go and
/// types nothing; the other shift key and caps lock keep their state.
pub proof fn shift_release_lets_go(s0: ModifierState, scancode: u8, s1: ModifierState, r: Option<u8>)
    requires
        scancode == 0xAA || scancode == 0xB6,
        key_event_result(s0, scancode, s1, r),
    ensures
        r is None,
        scancode == 0xAA ==> !s1.lshift && s1.rshift == s0.rshift,
        scancode == 0xB6 ==> !s1.rshift && s1.lshift == s0.lshift,
        s1.capslock == s0.capslock,
{
}

/// The A key (0x1E) types `a`, or `A` with either shift key held, when caps
/// lock is off; with caps lock on, the case is inverted.
pub proof fn letter_case_follows_shift(s0: ModifierState, s1: ModifierState, r: Option<u8>)
    requires
        key_event_result(s0, 0x1E, s1, r),
    ensures
        s1 == s0,
        r == Some(if (s0.lshift || s0.rshift) != s0.capslock { 65u8 } else { 97u8 }),
{
    assert(KEYMAP_NORMAL@[0x1E] == 97u8);
    assert(KEYMAP_SHIFT@[0x1E] == 65u8);
}

} // verus!
