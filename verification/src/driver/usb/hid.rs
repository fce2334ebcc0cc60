//! HID boot keyboard reports: usage codes to ASCII, and handing the bytes
//! to the TTY.
use vstd::prelude::*;

use crate::driver::tty::{canonical_step, raw_step, Tty, TtyEffect};

verus! {

/// HID usage IDs of a boot keyboard (HID Usage Table 1.12).
pub const HID_USAGE_A: u8 = 0x04;
pub const HID_USAGE_Z: u8 = 0x1D;
pub const HID_USAGE_1: u8 = 0x1E;
pub const HID_USAGE_9: u8 = 0x26;
pub const HID_USAGE_0: u8 = 0x27;
pub const HID_USAGE_ENTER: u8 = 0x28;
pub const HID_USAGE_ESCAPE: u8 = 0x29;
pub const HID_USAGE_BACKSPACE: u8 = 0x2A;
pub const HID_USAGE_TAB: u8 = 0x2B;
pub const HID_USAGE_SPACE: u8 = 0x2C;
pub const HID_USAGE_MINUS: u8 = 0x2D;
pub const HID_USAGE_EQUAL: u8 = 0x2E;
pub const HID_USAGE_LEFT_BRACKET: u8 = 0x2F;
pub const HID_USAGE_RIGHT_BRACKET: u8 = 0x30;
pub const HID_USAGE_BACKSLASH: u8 = 0x31;
pub const HID_USAGE_SEMICOLON: u8 = 0x33;
pub const HID_USAGE_APOSTROPHE: u8 = 0x34;
pub const HID_USAGE_GRAVE: u8 = 0x35;
pub const HID_USAGE_COMMA: u8 = 0x36;
pub const HID_USAGE_DOT: u8 = 0x37;
pub const HID_USAGE_SLASH: u8 = 0x38;
pub const HID_USAGE_CAPSLOCK: u8 = 0x39;
pub const HID_USAGE_KEYPAD_SLASH: u8 = 0x54;
pub const HID_USAGE_KEYPAD_STAR: u8 = 0x55;
pub const HID_USAGE_KEYPAD_MINUS: u8 = 0x56;
pub const HID_USAGE_KEYPAD_PLUS: u8 = 0x57;
pub const HID_USAGE_KEYPAD_ENTER: u8 = 0x58;
pub const HID_USAGE_KEYPAD_1: u8 = 0x59;
pub const HID_USAGE_KEYPAD_9: u8 = 0x61;
pub const HID_USAGE_KEYPAD_0: u8 = 0x62;
pub const HID_USAGE_KEYPAD_DOT: u8 = 0x63;

/// Shift bits (left and right) of the modifier byte.
pub const MOD_LSHIFT: u8 = 0x02;
pub const MOD_RSHIFT: u8 = 0x20;

/// The shifted symbol on digit key `d` (1-9) of a US layout.
pub open spec fn shifted_digit(d: u8) -> u8 {
    if d == 1 {
        0x21u8  // '!'
    } else if d == 2 {
        0x40u8  // '@'
    } else if d == 3 {
        0x23u8  // '#'
    } else if d == 4 {
        0x24u8  // '$'
    } else if d == 5 {
        0x25u8  // '%'
    } else if d == 6 {
        0x5eu8  // '^'
    } else if d == 7 {
        0x26u8  // '&'
    } else if d == 8 {
        0x2au8  // '*'
    } else if d == 9 {
        0x28u8  // '('
    } else {
        0x20u8
    }
}

/// The shifted symbol on digit key `d` (see `shifted_digit`).
pub fn shift_digit(d: u8) -> (r: u8)
    ensures
        r == shifted_digit(d),
{
    match d {
        1 => 0x21,
        2 => 0x40,
        3 => 0x23,
        4 => 0x24,
        5 => 0x25,
        6 => 0x5e,
        7 => 0x26,
        8 => 0x2a,
        9 => 0x28,
        _ => 0x20,
    }
}

/// `unshifted` or, with shift held, `shifted`.
pub open spec fn pick(shift: bool, unshifted: u8, shifted: u8) -> u8 {
    if shift {
        shifted
    } else {
        unshifted
    }
}

/// The byte that key `usage` gives on a US layout with `shift` held and
/// CapsLock `caps`; 0 for keys that give none. CapsLock swaps the case of
/// letters only.
pub open spec fn key_ascii(usage: u8, shift: bool, caps: bool) -> u8 {
    if HID_USAGE_A <= usage <= HID_USAGE_Z {
        ((if shift != caps { 0x41u8 } else { 0x61u8 }) + (usage - HID_USAGE_A)) as u8
    } else if HID_USAGE_1 <= usage <= HID_USAGE_9 {
        if shift {
            shifted_digit((usage - HID_USAGE_1 + 1) as u8)
        } else {
            (0x30 + (usage - HID_USAGE_1 + 1)) as u8
        }
    } else if usage == HID_USAGE_0 {
        pick(shift, 0x30, 0x29)
    } else if usage == HID_USAGE_ENTER || usage == HID_USAGE_KEYPAD_ENTER {
        0x0a
    } else if usage == HID_USAGE_TAB {
        0x09
    } else if usage == HID_USAGE_BACKSPACE {
        0x7f
    } else if usage == HID_USAGE_SPACE {
        0x20
    } else if usage == HID_USAGE_ESCAPE {
        0x1b
    } else if usage == HID_USAGE_MINUS {
        pick(shift, 0x2d, 0x5f)
    } else if usage == HID_USAGE_EQUAL {
        pick(shift, 0x3d, 0x2b)
    } else if usage == HID_USAGE_LEFT_BRACKET {
        pick(shift, 0x5b, 0x7b)
    } else if usage == HID_USAGE_RIGHT_BRACKET {
        pick(shift, 0x5d, 0x7d)
    } else if usage == HID_USAGE_BACKSLASH {
        pick(shift, 0x5c, 0x7c)
    } else if usage == HID_USAGE_SEMICOLON {
        pick(shift, 0x3b, 0x3a)
    } else if usage == HID_USAGE_APOSTROPHE {
        pick(shift, 0x27, 0x22)
    } else if usage == HID_USAGE_GRAVE {
        pick(shift, 0x60, 0x7e)
    } else if usage == HID_USAGE_COMMA {
        pick(shift, 0x2c, 0x3c)
    } else if usage == HID_USAGE_DOT {
        pick(shift, 0x2e, 0x3e)
    } else if usage == HID_USAGE_SLASH {
        pick(shift, 0x2f, 0x3f)
    } else if usage == HID_USAGE_KEYPAD_DOT {
        0x2e
    } else if usage == HID_USAGE_KEYPAD_0 {
        0x30
    } else if HID_USAGE_KEYPAD_1 <= usage <= HID_USAGE_KEYPAD_9 {
        (0x31 + (usage - HID_USAGE_KEYPAD_1)) as u8
    } else if usage == HID_USAGE_KEYPAD_PLUS {
        0x2b
    } else if usage == HID_USAGE_KEYPAD_MINUS {
        0x2d
    } else if usage == HID_USAGE_KEYPAD_STAR {
        0x2a
    } else if usage == HID_USAGE_KEYPAD_SLASH {
        0x2f
    } else {
        0
    }
}

/// A shift key is held in modifier byte `m`.
pub open spec fn shift_held(m: u8) -> bool {
    m & (MOD_LSHIFT | MOD_RSHIFT) != 0
}

/// The keyboard's lock state.
pub struct KeyState {
    pub caps: bool,
}

impl KeyState {
    /// CapsLock off.
    pub fn new() -> (r: Self)
        ensures
            !r.caps,
    {
        KeyState { caps: false }
    }

    /// Sets the CapsLock state directly (for tests).
    pub fn set_caps_for_test(&mut self, on: bool)
        ensures
            final(self).caps == on,
    {
        self.caps = on;
    }
}

/// The byte for key `usage` with modifier byte `modifier` (see
/// `key_ascii`); the CapsLock key toggles `keys.caps` and gives 0.
pub fn hid_to_ascii(keys: &mut KeyState, usage: u8, modifier: u8) -> (r: u8)
    ensures
        usage == HID_USAGE_CAPSLOCK ==> r == 0 && final(keys).caps == !old(keys).caps,
        usage != HID_USAGE_CAPSLOCK ==> r == key_ascii(usage, shift_held(modifier), old(keys).caps)
            && final(keys).caps == old(keys).caps,
{
    let shift = modifier & (MOD_LSHIFT | MOD_RSHIFT) != 0;
    let caps = keys.caps;
    if usage == HID_USAGE_CAPSLOCK {
        keys.caps = !caps;
        return 0;
    }
    let letter_shift = shift != caps;
    if HID_USAGE_A <= usage && usage <= HID_USAGE_Z {
        let base: u8 = if letter_shift { 0x41 } else { 0x61 };
        base + (usage - HID_USAGE_A)
    } else if HID_USAGE_1 <= usage && usage <= HID_USAGE_9 {
        if shift {
            shift_digit(usage - HID_USAGE_1 + 1)
        } else {
            0x30 + (usage - HID_USAGE_1 + 1)
        }
    } else if usage == HID_USAGE_0 {
        if shift { 0x29 } else { 0x30 }
    } else if usage == HID_USAGE_ENTER || usage == HID_USAGE_KEYPAD_ENTER {
        0x0a
    } else if usage == HID_USAGE_TAB {
        0x09
    } else if usage == HID_USAGE_BACKSPACE {
        0x7f
    } else if usage == HID_USAGE_SPACE {
        0x20
    } else if usage == HID_USAGE_ESCAPE {
        0x1b
    } else if usage == HID_USAGE_MINUS {
        if shift { 0x5f } else { 0x2d }
    } else if usage == HID_USAGE_EQUAL {
        if shift { 0x2b } else { 0x3d }
    } else if usage == HID_USAGE_LEFT_BRACKET {
        if shift { 0x7b } else { 0x5b }
    } else if usage == HID_USAGE_RIGHT_BRACKET {
        if shift { 0x7d } else { 0x5d }
    } else if usage == HID_USAGE_BACKSLASH {
        if shift { 0x7c } else { 0x5c }
    } else if usage == HID_USAGE_SEMICOLON {
        if shift { 0x3a } else { 0x3b }
    } else if usage == HID_USAGE_APOSTROPHE {
        if shift { 0x22 } else { 0x27 }
    } else if usage == HID_USAGE_GRAVE {
        if shift { 0x7e } else { 0x60 }
    } else if usage == HID_USAGE_COMMA {
        if shift { 0x3c } else { 0x2c }
    } else if usage == HID_USAGE_DOT {
        if shift { 0x3e } else { 0x2e }
    } else if usage == HID_USAGE_SLASH {
        if shift { 0x3f } else { 0x2f }
    } else if usage == HID_USAGE_KEYPAD_DOT {
        0x2e
    } else if usage == HID_USAGE_KEYPAD_0 {
        0x30
    } else if HID_USAGE_KEYPAD_1 <= usage && usage <= HID_USAGE_KEYPAD_9 {
        0x31 + (usage - HID_USAGE_KEYPAD_1)
    } else if usage == HID_USAGE_KEYPAD_PLUS {
        0x2b
    } else if usage == HID_USAGE_KEYPAD_MINUS {
        0x2d
    } else if usage == HID_USAGE_KEYPAD_STAR {
        0x2a
    } else if usage == HID_USAGE_KEYPAD_SLASH {
        0x2f
    } else {
        0
    }
}

/// Hands a decoded byte to the TTY.
pub fn feed_to_tty(tty: &mut Tty, ascii: u8) -> (r: TtyEffect)
    requires
        old(tty).wf(),
    ensures
        final(tty).wf(),
        old(tty).raw ==> raw_step(*old(tty), *final(tty), ascii, r),
        !old(tty).raw ==> canonical_step(*old(tty), *final(tty), ascii, r),
{
    tty.feed_byte(ascii)
}

/// Letters follow the shift and CapsLock state; other keys ignore
/// CapsLock.
pub proof fn lemma_caps_only_letters(usage: u8, shift: bool)
    ensures
        !(HID_USAGE_A <= usage <= HID_USAGE_Z) ==> key_ascii(usage, shift, true) == key_ascii(usage, shift, false),
        HID_USAGE_A <= usage <= HID_USAGE_Z ==> key_ascii(usage, shift, true) == key_ascii(usage, !shift, false),
{
}

/// The keypad digit keys (usages 0x59..0x61 for 1..9, 0x62 for 0) type
/// their digit whatever the shift and CapsLock state, the same byte the
/// unshifted digit row gives, and the ten keypad digits are ten different
/// bytes.
pub proof fn law_keypad_digits(k: int, shift: bool, caps: bool)
    requires
        0 <= k < 9,
    ensures
        key_ascii((0x59 + k) as u8, shift, caps) == ('1' as u8) + k,
        key_ascii(0x62, shift, caps) == '0' as u8,
        key_ascii((0x59 + k) as u8, shift, caps) == key_ascii((0x1E + k) as u8, false, caps),
        key_ascii(0x62, shift, caps) == key_ascii(0x27, false, caps),
        key_ascii((0x59 + k) as u8, shift, caps) != key_ascii(0x62, shift, caps),
{
}

/// Two different keypad digit keys type different bytes.
pub proof fn law_keypad_digits_distinct(j: int, k: int, shift: bool, caps: bool)
    requires
        0 <= j < 9,
        0 <= k < 9,
        j != k,
    ensures
        key_ascii((0x59 + j) as u8, shift, caps) != key_ascii((0x59 + k) as u8, shift, caps),
{
    law_keypad_digits(j, shift, caps);
    law_keypad_digits(k, shift, caps);
}

/// The non-letter keys of a US boot keyboard, in runs of consecutive
/// usages: the first usage of the run, what each key types, and what it
/// types with Shift held (HID Usage Tables, keyboard page).
pub open spec fn us_key_runs() -> Seq<(u8, Seq<char>, Seq<char>)> {
    seq![
        (
            0x1Eu8,
            seq!['1', '2', '3', '4', '5', '6', '7', '8', '9', '0'],
            seq!['!', '@', '#', '$', '%', '^', '&', '*', '(', ')'],
        ),
        (0x28u8, seq!['\n', '\x1b', '\x7f', '\t', ' '], seq!['\n', '\x1b', '\x7f', '\t', ' ']),
        (0x2Du8, seq!['-', '=', '[', ']', '\\'], seq!['_', '+', '{', '}', '|']),
        (0x33u8, seq![';', '\'', '`', ',', '.', '/'], seq![':', '"', '~', '<', '>', '?']),
        (0x54u8, seq!['/', '*', '-', '+', '\n'], seq!['/', '*', '-', '+', '\n']),
        (0x62u8, seq!['0', '.'], seq!['0', '.']),
    ]
}

/// Key `k` of a run types the run's `k`-th character, or its `k`-th
/// shifted one with Shift held; CapsLock changes none of them.
pub proof fn law_us_key_runs(run: int, k: int, caps: bool)
    requires
        0 <= run < 6,
        0 <= k < us_key_runs()[run].1.len(),
    ensures
        us_key_runs()[run].2.len() == us_key_runs()[run].1.len(),
        key_ascii((us_key_runs()[run].0 + k) as u8, false, caps) == us_key_runs()[run].1[k] as u8,
        key_ascii((us_key_runs()[run].0 + k) as u8, true, caps) == us_key_runs()[run].2[k] as u8,
{
    if run == 0 {
        assert(k == 0 || k == 1 || k == 2 || k == 3 || k == 4 || k == 5 || k == 6 || k == 7 || k == 8 || k == 9);
    } else if run == 1 || run == 2 || run == 4 {
        assert(k == 0 || k == 1 || k == 2 || k == 3 || k == 4);
    } else if run == 3 {
        assert(k == 0 || k == 1 || k == 2 || k == 3 || k == 4 || k == 5);
    } else {
        assert(k == 0 || k == 1);
    }
}

/// The letter keys (usages 0x04..0x1D) type `a`..`z` in order, upper case
/// when exactly one of Shift and CapsLock is on.
pub proof fn law_letters(k: int, shift: bool, caps: bool)
    requires
        0 <= k < 26,
    ensures
        key_ascii((0x04 + k) as u8, shift, caps) == (if shift != caps { 'A' as u8 } else { 'a' as u8 }) + k,
{
}

} // verus!
