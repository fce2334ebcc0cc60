//! PS/2 keyboard: scancode set 1 to ASCII with a US layout, Shift, Ctrl,
//! Alt and Caps Lock.  The port reads stay with the caller; this module is
//! the state machine that turns each scancode byte into at most one key.
use vstd::prelude::*;

use crate::driver::tty::{canonical_step, raw_step, Tty, TtyEffect};

verus! {

/// Modifier bits.
pub const MOD_SHIFT: u8 = 0x01;
pub const MOD_CTRL: u8 = 0x02;
pub const MOD_ALT: u8 = 0x04;
pub const MOD_CAPS: u8 = 0x08;

/// Prefix byte of the extended (E0) scancodes.
pub const EXTENDED_PREFIX: u8 = 0xE0;

/// Number of entries in the layout tables (scancodes 0x00..0x39).
pub const SCANCODE_MAP_LEN: usize = 58;

/// The US layout without Shift, indexed by scancode; 0 marks "no character".
pub open spec fn plain_layout() -> Seq<u8> {
    seq![
        0x00, 0x1B, 0x31, 0x32, 0x33, 0x34, 0x35, 0x36, 0x37, 0x38, 0x39, 0x30, 0x2D, 0x3D, 0x08,
        0x09, 0x71, 0x77, 0x65, 0x72, 0x74, 0x79, 0x75, 0x69, 0x6F, 0x70, 0x5B, 0x5D, 0x0D,
        0x00, 0x61, 0x73, 0x64, 0x66, 0x67, 0x68, 0x6A, 0x6B, 0x6C, 0x3B, 0x27, 0x60, 0x00,
        0x5C, 0x7A, 0x78, 0x63, 0x76, 0x62, 0x6E, 0x6D, 0x2C, 0x2E, 0x2F, 0x00,
        0x2A, 0x00, 0x20,
    ]
}

/// The US layout with Shift held.
pub open spec fn shifted_layout() -> Seq<u8> {
    seq![
        0x00, 0x1B, 0x21, 0x40, 0x23, 0x24, 0x25, 0x5E, 0x26, 0x2A, 0x28, 0x29, 0x5F, 0x2B, 0x08,
        0x09, 0x51, 0x57, 0x45, 0x52, 0x54, 0x59, 0x55, 0x49, 0x4F, 0x50, 0x7B, 0x7D, 0x0D,
        0x00, 0x41, 0x53, 0x44, 0x46, 0x47, 0x48, 0x4A, 0x4B, 0x4C, 0x3A, 0x22, 0x7E, 0x00,
        0x7C, 0x5A, 0x58, 0x43, 0x56, 0x42, 0x4E, 0x4D, 0x3C, 0x3E, 0x3F, 0x00,
        0x2A, 0x00, 0x20,
    ]
}

fn plain_table() -> (r: [u8; 58])
    ensures
        r@ == plain_layout(),
{
    let r: [u8; 58] = [
        0x00, 0x1B, 0x31, 0x32, 0x33, 0x34, 0x35, 0x36, 0x37, 0x38, 0x39, 0x30, 0x2D, 0x3D, 0x08,
        0x09, 0x71, 0x77, 0x65, 0x72, 0x74, 0x79, 0x75, 0x69, 0x6F, 0x70, 0x5B, 0x5D, 0x0D,
        0x00, 0x61, 0x73, 0x64, 0x66, 0x67, 0x68, 0x6A, 0x6B, 0x6C, 0x3B, 0x27, 0x60, 0x00,
        0x5C, 0x7A, 0x78, 0x63, 0x76, 0x62, 0x6E, 0x6D, 0x2C, 0x2E, 0x2F, 0x00,
        0x2A, 0x00, 0x20,
    ];
    assert(r@ =~= plain_layout());
    r
}

fn shifted_table() -> (r: [u8; 58])
    ensures
        r@ == shifted_layout(),
{
    let r: [u8; 58] = [
        0x00, 0x1B, 0x21, 0x40, 0x23, 0x24, 0x25, 0x5E, 0x26, 0x2A, 0x28, 0x29, 0x5F, 0x2B, 0x08,
        0x09, 0x51, 0x57, 0x45, 0x52, 0x54, 0x59, 0x55, 0x49, 0x4F, 0x50, 0x7B, 0x7D, 0x0D,
        0x00, 0x41, 0x53, 0x44, 0x46, 0x47, 0x48, 0x4A, 0x4B, 0x4C, 0x3A, 0x22, 0x7E, 0x00,
        0x7C, 0x5A, 0x58, 0x43, 0x56, 0x42, 0x4E, 0x4D, 0x3C, 0x3E, 0x3F, 0x00,
        0x2A, 0x00, 0x20,
    ];
    assert(r@ =~= shifted_layout());
    r
}

pub open spec fn is_alpha(c: u8) -> bool {
    (0x61 <= c <= 0x7A) || (0x41 <= c <= 0x5A)
}

pub open spec fn lower(c: u8) -> u8 {
    if 0x41 <= c <= 0x5A { (c + 32) as u8 } else { c }
}

pub open spec fn upper(c: u8) -> u8 {
    if 0x61 <= c <= 0x7A { (c - 32) as u8 } else { c }
}

/// The key that a press of `sc` gives under the modifier bits `mods`:
/// Caps Lock inverts Shift for letters only.
pub open spec fn press_key(mods: u8, sc: u8) -> Option<u8> {
    if sc == 0x2A || sc == 0x36 || sc == 0x1D || sc == 0x38 || sc == 0x3A || sc >= 58 {
        None
    } else {
        let shifted = mods & MOD_SHIFT != 0;
        let caps = mods & MOD_CAPS != 0;
        let c = if shifted { shifted_layout()[sc as int] } else { plain_layout()[sc as int] };
        if c == 0 {
            None
        } else if caps && is_alpha(c) {
            Some(if shifted { lower(c) } else { upper(c) })
        } else {
            Some(c)
        }
    }
}

/// The modifier bits after a press of `sc`.
pub open spec fn press_mods(mods: u8, sc: u8) -> u8 {
    if sc == 0x2A || sc == 0x36 {
        mods | MOD_SHIFT
    } else if sc == 0x1D {
        mods | MOD_CTRL
    } else if sc == 0x38 {
        mods | MOD_ALT
    } else if sc == 0x3A {
        mods ^ MOD_CAPS
    } else {
        mods
    }
}

/// The modifier bits after a release of `sc` (the code without its high bit).
pub open spec fn release_mods(mods: u8, sc: u8) -> u8 {
    if sc == 0x2A || sc == 0x36 {
        mods & !MOD_SHIFT
    } else if sc == 0x1D {
        mods & !MOD_CTRL
    } else if sc == 0x38 {
        mods & !MOD_ALT
    } else {
        mods
    }
}

/// Keys of the extended (E0-prefixed) press codes: keypad Enter and keypad `/`.
pub open spec fn extended_key(sc: u8) -> Option<u8> {
    if sc == 0x1C {
        Some(0x0A)
    } else if sc == 0x35 {
        Some(0x2F)
    } else {
        None
    }
}

/// Modifier and prefix state of the keyboard.
pub struct Keyboard {
    pub modifiers: u8,
    pub extended: bool,
}

/// One scancode byte: the state after it and the key it gives.
pub open spec fn scancode_step(before: Keyboard, sc: u8) -> (Keyboard, Option<u8>) {
    if sc == EXTENDED_PREFIX {
        (Keyboard { modifiers: before.modifiers, extended: true }, None)
    } else if before.extended {
        let after = Keyboard { modifiers: before.modifiers, extended: false };
        if sc >= 0x80 { (after, None) } else { (after, extended_key(sc)) }
    } else if sc >= 0x80 {
        (Keyboard { modifiers: release_mods(before.modifiers, sc & 0x7F), extended: false }, None)
    } else {
        (
            Keyboard { modifiers: press_mods(before.modifiers, sc), extended: false },
            press_key(before.modifiers, sc),
        )
    }
}

/// The key of an extended press code.
pub fn handle_extended_scancode(scancode: u8) -> (r: Option<u8>)
    ensures
        r == extended_key(scancode),
{
    if scancode == 0x1C {
        Some(0x0A)
    } else if scancode == 0x35 {
        Some(0x2F)
    } else {
        None
    }
}

fn ascii_lower(c: u8) -> (r: u8)
    ensures
        r == lower(c),
{
    if 0x41 <= c && c <= 0x5A { c + 32 } else { c }
}

fn ascii_upper(c: u8) -> (r: u8)
    ensures
        r == upper(c),
{
    if 0x61 <= c && c <= 0x7A { c - 32 } else { c }
}

impl Keyboard {
    /// No modifier held, no prefix pending.
    pub fn new() -> (r: Self)
        ensures
            r.modifiers == 0,
            !r.extended,
    {
        Keyboard { modifiers: 0, extended: false }
    }

    /// A key press: modifier keys change the modifier bits and give nothing;
    /// other codes below 58 give their character from the layout.
    pub fn handle_make(&mut self, scancode: u8) -> (r: Option<u8>)
        ensures
            r == press_key(old(self).modifiers, scancode),
            final(self).modifiers == press_mods(old(self).modifiers, scancode),
            final(self).extended == old(self).extended,
    {
        if scancode == 0x2A || scancode == 0x36 {
            self.modifiers = self.modifiers | MOD_SHIFT;
            None
        } else if scancode == 0x1D {
            self.modifiers = self.modifiers | MOD_CTRL;
            None
        } else if scancode == 0x38 {
            self.modifiers = self.modifiers | MOD_ALT;
            None
        } else if scancode == 0x3A {
            self.modifiers = self.modifiers ^ MOD_CAPS;
            None
        } else if (scancode as usize) < SCANCODE_MAP_LEN {
            let mods = self.modifiers;
            let shifted = (mods & MOD_SHIFT) != 0;
            let caps = (mods & MOD_CAPS) != 0;
            let c = if shifted {
                let t = shifted_table();
                t[scancode as usize]
            } else {
                let t = plain_table();
                t[scancode as usize]
            };
            if c == 0 {
                return None;
            }
            let alpha = (0x61 <= c && c <= 0x7A) || (0x41 <= c && c <= 0x5A);
            if caps && alpha {
                if shifted {
                    Some(ascii_lower(c))
                } else {
                    Some(ascii_upper(c))
                }
            } else {
                Some(c)
            }
        } else {
            None
        }
    }

    /// A key release (`scancode` without its high bit): Shift, Ctrl and Alt
    /// clear their bit; Caps Lock and other keys change nothing.
    pub fn handle_break(&mut self, scancode: u8)
        ensures
            final(self).modifiers == release_mods(old(self).modifiers, scancode),
            final(self).extended == old(self).extended,
    {
        if scancode == 0x2A || scancode == 0x36 {
            self.modifiers = self.modifiers & !MOD_SHIFT;
        } else if scancode == 0x1D {
            self.modifiers = self.modifiers & !MOD_CTRL;
        } else if scancode == 0x38 {
            self.modifiers = self.modifiers & !MOD_ALT;
        }
    }

    /// One byte from the keyboard: an E0 prefix arms the extended table for
    /// the next byte; codes with the high bit set are releases.
    pub fn translate(&mut self, scancode: u8) -> (r: Option<u8>)
        ensures
            (*final(self), r) == scancode_step(*old(self), scancode),
    {
        if scancode == EXTENDED_PREFIX {
            self.extended = true;
            return None;
        }
        if self.extended {
            self.extended = false;
            if scancode >= 0x80 {
                return None;
            }
            return handle_extended_scancode(scancode);
        }
        if scancode >= 0x80 {
            self.handle_break(scancode & 0x7F);
            return None;
        }
        self.handle_make(scancode)
    }
}

/// One byte from the keyboard, with the key it gives fed to the TTY.
pub fn handle_scancode(kb: &mut Keyboard, tty: &mut Tty, scancode: u8) -> (r: Option<TtyEffect>)
    requires
        old(tty).wf(),
    ensures
        *final(kb) == scancode_step(*old(kb), scancode).0,
        final(tty).wf(),
        match scancode_step(*old(kb), scancode).1 {
            None => r is None && *final(tty) == *old(tty),
            Some(c) => r is Some && (old(tty).raw ==> raw_step(*old(tty), *final(tty), c, r->0))
                && (!old(tty).raw ==> canonical_step(*old(tty), *final(tty), c, r->0)),
        },
{
    match kb.translate(scancode) {
        Some(c) => Some(tty.feed_byte(c)),
        None => None,
    }
}

/// Row `i` of the two layouts agrees on letters: the Shift table holds the
/// upper case of each letter of the plain table, and no letter elsewhere.
pub open spec fn letter_row_ok(i: int) -> bool {
    &&& !is_alpha(plain_layout()[i]) ==> !is_alpha(shifted_layout()[i])
    &&& is_alpha(plain_layout()[i]) ==> {
        &&& shifted_layout()[i] == upper(plain_layout()[i])
        &&& lower(shifted_layout()[i]) == plain_layout()[i]
        &&& is_alpha(shifted_layout()[i])
    }
}

/// Rows `0..n` all agree.
pub open spec fn letter_rows_ok(n: nat) -> bool
    decreases n,
{
    n == 0 || (letter_row_ok(n - 1) && letter_rows_ok((n - 1) as nat))
}

proof fn lemma_letter_rows_below(n: nat, i: int)
    requires
        letter_rows_ok(n),
        0 <= i < n,
    ensures
        letter_row_ok(i),
    decreases n,
{
    if i < n - 1 {
        lemma_letter_rows_below((n - 1) as nat, i);
    }
}

proof fn lemma_letter_rows(sc: u8)
    requires
        sc < 58,
    ensures
        letter_row_ok(sc as int),
{
    reveal_with_fuel(letter_rows_ok, 59);
    assert(letter_rows_ok(58));
    lemma_letter_rows_below(58, sc as int);
}

/// Caps Lock acts on a letter key as Shift does: with Caps Lock on, a
/// letter comes out as it would with Shift toggled and Caps Lock off.
pub proof fn lemma_caps_lock_inverts_shift(mods: u8, sc: u8)
    requires
        sc < 58,
        mods & MOD_CAPS == 0,
        is_alpha(plain_layout()[sc as int]),
    ensures
        press_key(mods | MOD_CAPS, sc) == press_key(mods ^ MOD_SHIFT, sc),
{
    lemma_letter_rows(sc);
    assert((mods | 8u8) & 1u8 == mods & 1u8) by (bit_vector);
    assert((mods | 8u8) & 8u8 != 0u8) by (bit_vector);
    assert(mods & 8u8 == 0u8 ==> (mods ^ 1u8) & 8u8 == 0u8) by (bit_vector);
    assert(((mods ^ 1u8) & 1u8 != 0u8) == (mods & 1u8 == 0u8)) by (bit_vector);
}

/// Caps Lock leaves every key that is not a letter as it is.
pub proof fn lemma_caps_lock_keeps_other_keys(mods: u8, sc: u8)
    requires
        sc < 58,
        !is_alpha(plain_layout()[sc as int]),
    ensures
        press_key(mods | MOD_CAPS, sc) == press_key(mods & !MOD_CAPS, sc),
{
    lemma_letter_rows(sc);
    assert((mods | 8u8) & 1u8 == (mods & !8u8) & 1u8) by (bit_vector);
}

/// No modifier bits: neither Shift nor Caps Lock; Shift alone: Shift
/// without Caps Lock.
proof fn lemma_no_modifier_bits()
    ensures
        0u8 & MOD_SHIFT == 0 && 0u8 & MOD_CAPS == 0,
        MOD_SHIFT & MOD_SHIFT != 0 && MOD_SHIFT & MOD_CAPS == 0,
{
    assert(0u8 & 1u8 == 0u8 && 0u8 & 8u8 == 0u8 && 1u8 & 1u8 != 0u8 && 1u8 & 8u8 == 0u8) by (bit_vector);
}

/// The printable keys of the unshifted US layout, row by row: the digit
/// row (scancodes 0x02..0x0D), the three letter rows (0x10..0x1B,
/// 0x1E..0x29, 0x2B..0x35) and the space bar (0x39).
pub open spec fn us_unshifted_rows() -> Seq<(u8, Seq<char>)> {
    seq![
        (0x02u8, seq!['1', '2', '3', '4', '5', '6', '7', '8', '9', '0', '-', '=']),
        (0x10u8, seq!['q', 'w', 'e', 'r', 't', 'y', 'u', 'i', 'o', 'p', '[', ']']),
        (0x1Eu8, seq!['a', 's', 'd', 'f', 'g', 'h', 'j', 'k', 'l', ';', '\'', '`']),
        (0x2Bu8, seq!['\\', 'z', 'x', 'c', 'v', 'b', 'n', 'm', ',', '.', '/']),
        (0x39u8, seq![' ']),
        (0x01u8, seq!['\x1b']),
        (0x0Eu8, seq!['\x08', '\t']),
        (0x1Cu8, seq!['\r']),
    ]
}

/// The same keys with Shift held.
pub open spec fn us_shifted_rows() -> Seq<(u8, Seq<char>)> {
    seq![
        (0x02u8, seq!['!', '@', '#', '$', '%', '^', '&', '*', '(', ')', '_', '+']),
        (0x10u8, seq!['Q', 'W', 'E', 'R', 'T', 'Y', 'U', 'I', 'O', 'P', '{', '}']),
        (0x1Eu8, seq!['A', 'S', 'D', 'F', 'G', 'H', 'J', 'K', 'L', ':', '"', '~']),
        (0x2Bu8, seq!['|', 'Z', 'X', 'C', 'V', 'B', 'N', 'M', '<', '>', '?']),
        (0x39u8, seq![' ']),
        (0x01u8, seq!['\x1b']),
        (0x0Eu8, seq!['\x08', '\t']),
        (0x1Cu8, seq!['\r']),
    ]
}

/// With no modifier held, a press of key `k` of a row gives the row's
/// `k`-th character: `handle_make` on `Keyboard::new()` types the US
/// layout as printed on the keys.
pub proof fn law_unshifted_rows(row: int, k: int)
    requires
        0 <= row < 8,
        0 <= k < us_unshifted_rows()[row].1.len(),
    ensures
        press_key(0, (us_unshifted_rows()[row].0 + k) as u8) == Some(us_unshifted_rows()[row].1[k] as u8),
{
    lemma_no_modifier_bits();
    let p = plain_layout();
    assert(p.len() == 58);
    if row == 0 {
        assert(k == 0 || k == 1 || k == 2 || k == 3 || k == 4 || k == 5 || k == 6 || k == 7 || k == 8 || k == 9
            || k == 10 || k == 11);
    } else if row == 1 {
        assert(k == 0 || k == 1 || k == 2 || k == 3 || k == 4 || k == 5 || k == 6 || k == 7 || k == 8 || k == 9
            || k == 10 || k == 11);
    } else if row == 2 {
        assert(k == 0 || k == 1 || k == 2 || k == 3 || k == 4 || k == 5 || k == 6 || k == 7 || k == 8 || k == 9
            || k == 10 || k == 11);
    } else if row == 3 {
        assert(k == 0 || k == 1 || k == 2 || k == 3 || k == 4 || k == 5 || k == 6 || k == 7 || k == 8 || k == 9
            || k == 10);
    } else if row == 6 {
        assert(k == 0 || k == 1);
    }
}

/// With Shift held (and Caps Lock off), a press of key `k` of a row gives
/// the row's `k`-th shifted character.
pub proof fn law_shifted_rows(row: int, k: int)
    requires
        0 <= row < 8,
        0 <= k < us_shifted_rows()[row].1.len(),
    ensures
        press_key(MOD_SHIFT, (us_shifted_rows()[row].0 + k) as u8) == Some(us_shifted_rows()[row].1[k] as u8),
{
    lemma_no_modifier_bits();
    let p = shifted_layout();
    assert(p.len() == 58);
    if row == 0 {
        assert(k == 0 || k == 1 || k == 2 || k == 3 || k == 4 || k == 5 || k == 6 || k == 7 || k == 8 || k == 9
            || k == 10 || k == 11);
    } else if row == 1 {
        assert(k == 0 || k == 1 || k == 2 || k == 3 || k == 4 || k == 5 || k == 6 || k == 7 || k == 8 || k == 9
            || k == 10 || k == 11);
    } else if row == 2 {
        assert(k == 0 || k == 1 || k == 2 || k == 3 || k == 4 || k == 5 || k == 6 || k == 7 || k == 8 || k == 9
            || k == 10 || k == 11);
    } else if row == 3 {
        assert(k == 0 || k == 1 || k == 2 || k == 3 || k == 4 || k == 5 || k == 6 || k == 7 || k == 8 || k == 9
            || k == 10);
    } else if row == 6 {
        assert(k == 0 || k == 1);
    }
}

/// The key of the unshifted layout that gives character `c`.
spec fn plain_key_of(c: u8) -> u8 {
    if c == 0x1B {
        1u8
    } else if c == 0x31 {
        2u8
    } else if c == 0x32 {
        3u8
    } else if c == 0x33 {
        4u8
    } else if c == 0x34 {
        5u8
    } else if c == 0x35 {
        6u8
    } else if c == 0x36 {
        7u8
    } else if c == 0x37 {
        8u8
    } else if c == 0x38 {
        9u8
    } else if c == 0x39 {
        10u8
    } else if c == 0x30 {
        11u8
    } else if c == 0x2D {
        12u8
    } else if c == 0x3D {
        13u8
    } else if c == 0x08 {
        14u8
    } else if c == 0x09 {
        15u8
    } else if c == 0x71 {
        16u8
    } else if c == 0x77 {
        17u8
    } else if c == 0x65 {
        18u8
    } else if c == 0x72 {
        19u8
    } else if c == 0x74 {
        20u8
    } else if c == 0x79 {
        21u8
    } else if c == 0x75 {
        22u8
    } else if c == 0x69 {
        23u8
    } else if c == 0x6F {
        24u8
    } else if c == 0x70 {
        25u8
    } else if c == 0x5B {
        26u8
    } else if c == 0x5D {
        27u8
    } else if c == 0x0D {
        28u8
    } else if c == 0x61 {
        30u8
    } else if c == 0x73 {
        31u8
    } else if c == 0x64 {
        32u8
    } else if c == 0x66 {
        33u8
    } else if c == 0x67 {
        34u8
    } else if c == 0x68 {
        35u8
    } else if c == 0x6A {
        36u8
    } else if c == 0x6B {
        37u8
    } else if c == 0x6C {
        38u8
    } else if c == 0x3B {
        39u8
    } else if c == 0x27 {
        40u8
    } else if c == 0x60 {
        41u8
    } else if c == 0x5C {
        43u8
    } else if c == 0x7A {
        44u8
    } else if c == 0x78 {
        45u8
    } else if c == 0x63 {
        46u8
    } else if c == 0x76 {
        47u8
    } else if c == 0x62 {
        48u8
    } else if c == 0x6E {
        49u8
    } else if c == 0x6D {
        50u8
    } else if c == 0x2C {
        51u8
    } else if c == 0x2E {
        52u8
    } else if c == 0x2F {
        53u8
    } else if c == 0x2A {
        55u8
    } else if c == 0x20 {
        57u8
    } else {
        0u8
    }
}

/// Every key of the unshifted layout that gives a character is the one
/// `plain_key_of` names for it.
proof fn lemma_plain_key_of(sc: u8)
    requires
        sc < 58,
        plain_layout()[sc as int] != 0,
    ensures
        plain_key_of(plain_layout()[sc as int]) == sc,
{
    let p = plain_layout();
    assert(p.len() == 58);
    assert(sc == 0 || sc == 1 || sc == 2 || sc == 3 || sc == 4 || sc == 5 || sc == 6 || sc == 7 || sc == 8 || sc == 9 || sc == 10 || sc == 11 || sc == 12 || sc == 13 || sc == 14 || sc == 15 || sc == 16 || sc == 17 || sc == 18 || sc == 19 || sc == 20 || sc == 21 || sc == 22 || sc == 23 || sc == 24 || sc == 25 || sc == 26 || sc == 27 || sc == 28 || sc == 29 || sc == 30 || sc == 31 || sc == 32 || sc == 33 || sc == 34 || sc == 35 || sc == 36 || sc == 37 || sc == 38 || sc == 39 || sc == 40 || sc == 41 || sc == 42 || sc == 43 || sc == 44 || sc == 45 || sc == 46 || sc == 47 || sc == 48 || sc == 49 || sc == 50 || sc == 51 || sc == 52 || sc == 53 || sc == 54 || sc == 55 || sc == 56 || sc == 57);
}

/// Two different keys never type the same character with no modifier held
/// (`handle_make` on `Keyboard::new()`): the layout has each printable
/// character on one key only.
pub proof fn law_unshifted_keys_distinct(a: u8, b: u8)
    requires
        a != b,
        press_key(0, a) is Some,
    ensures
        press_key(0, a) != press_key(0, b),
{
    lemma_no_modifier_bits();
    if press_key(0, b) == press_key(0, a) {
        lemma_plain_key_of(a);
        lemma_plain_key_of(b);
    }
}

} // verus!
