use karte::driver::keyboard::{handle_extended_scancode, handle_scancode, Keyboard, MOD_ALT, MOD_CAPS, MOD_CTRL, MOD_SHIFT};
use karte::driver::tty::Tty;

fn keys(kb: &mut Keyboard, codes: &[u8]) -> Vec<u8> {
    let mut out = Vec::new();
    for &c in codes {
        if let Some(k) = kb.translate(c) {
            out.push(k);
        }
    }
    out
}

#[test]
fn plain_keys_give_lower_case_and_digits() {
    let mut kb = Keyboard::new();
    // h i space 1 enter
    assert_eq!(keys(&mut kb, &[0x23, 0x17, 0x39, 0x02, 0x1C]), b"hi 1\r".to_vec());
}

#[test]
fn shift_held_gives_upper_case_and_symbols() {
    let mut kb = Keyboard::new();
    // shift down, a, 1, shift up, a
    assert_eq!(keys(&mut kb, &[0x2A, 0x1E, 0x02, 0xAA, 0x1E]), b"A!a".to_vec());
    assert_eq!(kb.modifiers, 0);
}

#[test]
fn right_shift_works_as_left_shift() {
    let mut kb = Keyboard::new();
    assert_eq!(keys(&mut kb, &[0x36, 0x10, 0xB6, 0x10]), b"Qq".to_vec());
}

#[test]
fn caps_lock_inverts_shift_for_letters_only() {
    let mut kb = Keyboard::new();
    assert_eq!(keys(&mut kb, &[0x3A, 0xBA]), Vec::<u8>::new());
    assert_eq!(kb.modifiers, MOD_CAPS);
    assert_eq!(keys(&mut kb, &[0x1E, 0x02]), b"A1".to_vec());
    assert_eq!(keys(&mut kb, &[0x2A, 0x1E, 0x02, 0xAA]), b"a!".to_vec());
    // second press turns it off
    assert_eq!(keys(&mut kb, &[0x3A, 0xBA, 0x1E]), b"a".to_vec());
    assert_eq!(kb.modifiers, 0);
}

#[test]
fn ctrl_and_alt_set_and_clear_their_bits() {
    let mut kb = Keyboard::new();
    assert_eq!(kb.handle_make(0x1D), None);
    assert_eq!(kb.handle_make(0x38), None);
    assert_eq!(kb.modifiers, MOD_CTRL | MOD_ALT);
    kb.handle_break(0x1D);
    assert_eq!(kb.modifiers, MOD_ALT);
    kb.handle_break(0x38);
    assert_eq!(kb.modifiers, 0);
    kb.handle_make(0x2A);
    assert_eq!(kb.modifiers, MOD_SHIFT);
}

#[test]
fn extended_codes_give_keypad_enter_and_slash() {
    let mut kb = Keyboard::new();
    assert_eq!(keys(&mut kb, &[0xE0, 0x1C, 0xE0, 0x9C, 0xE0, 0x35]), b"\n/".to_vec());
    assert!(!kb.extended);
    // right ctrl (E0 1D) gives nothing and sets no bit
    assert_eq!(keys(&mut kb, &[0xE0, 0x1D]), Vec::<u8>::new());
    assert_eq!(kb.modifiers, 0);
    assert_eq!(handle_extended_scancode(0x1C), Some(b'\n'));
    assert_eq!(handle_extended_scancode(0x48), None);
}

#[test]
fn prefix_arms_only_the_next_byte() {
    let mut kb = Keyboard::new();
    assert_eq!(kb.translate(0xE0), None);
    assert!(kb.extended);
    assert_eq!(kb.translate(0x1E), None);
    assert!(!kb.extended);
    assert_eq!(kb.translate(0x1E), Some(b'a'));
}

#[test]
fn codes_without_a_character_give_nothing() {
    let mut kb = Keyboard::new();
    // F1 (0x3B) is past the table; left ctrl release; code 0 is unmapped
    assert_eq!(keys(&mut kb, &[0x3B, 0x9D, 0x00, 0x58]), Vec::<u8>::new());
    assert_eq!(kb.handle_make(0x0E), Some(0x08));
    assert_eq!(kb.handle_make(0x01), Some(0x1B));
}

#[test]
fn scancodes_feed_the_tty() {
    let mut kb = Keyboard::new();
    let mut tty = Tty::new();
    assert!(handle_scancode(&mut kb, &mut tty, 0x2A).is_none());
    let e = handle_scancode(&mut kb, &mut tty, 0x23).expect("key");
    assert_eq!(e.echo, b"H".to_vec());
    assert!(handle_scancode(&mut kb, &mut tty, 0xAA).is_none());
    handle_scancode(&mut kb, &mut tty, 0x17);
    handle_scancode(&mut kb, &mut tty, 0x1C);
    assert!(tty.has_input());
    assert_eq!(tty.read(10), b"Hi\n".to_vec());
}
