use karte::driver::tty::{InputRing, LineEditor, Tty, TtyMode, TTY_BUF_SIZE, TTY_LINE_SIZE};

fn feed(t: &mut Tty, bytes: &[u8]) -> Vec<u8> {
    let mut echo = Vec::new();
    for &b in bytes {
        let e = t.feed_byte(b);
        echo.extend_from_slice(&e.echo);
    }
    echo
}

#[test]
fn enter_delivers_the_line() {
    let mut t = Tty::new();
    let echo = feed(&mut t, b"ls\r");
    assert_eq!(echo, b"ls\r\n".to_vec());
    assert!(t.has_input());
    assert_eq!(t.read(100), b"ls\n".to_vec());
    assert!(!t.has_input());
}

#[test]
fn no_input_before_enter() {
    let mut t = Tty::new();
    feed(&mut t, b"abc");
    assert!(!t.has_input());
    assert_eq!(t.read(10), Vec::<u8>::new());
}

#[test]
fn backspace_undoes_a_character() {
    let mut t = Tty::new();
    let echo = feed(&mut t, b"ab\x7fc\n");
    assert_eq!(echo, vec![b'a', b'b', 0x08, b' ', 0x08, b'c', b'\r', b'\n']);
    assert_eq!(t.read(10), b"ac\n".to_vec());
    let echo = feed(&mut t, b"\x08");
    assert!(echo.is_empty());
}

#[test]
fn ctrl_c_discards_line_and_sends_newline() {
    let mut t = Tty::new();
    let echo = feed(&mut t, b"abc\x03");
    assert_eq!(echo, b"abc^C\r\n".to_vec());
    assert_eq!(t.read(10), b"\n".to_vec());
}

#[test]
fn ctrl_u_and_ctrl_w_edit_the_line() {
    let mut t = Tty::new();
    let echo = feed(&mut t, b"ab\x15");
    assert_eq!(echo.len(), 2 + 6);
    feed(&mut t, b"one two  \x17\n");
    assert_eq!(t.read(20), b"one \n".to_vec());
}

#[test]
fn ctrl_l_clears_screen_and_others_ignored() {
    let mut t = Tty::new();
    assert_eq!(feed(&mut t, b"\x0c"), b"\x1b[2J\x1b[H".to_vec());
    assert!(feed(&mut t, b"\x01\x1b").is_empty());
    assert!(!t.has_input());
}

#[test]
fn ctrl_d_on_empty_line_wakes_reader() {
    let mut t = Tty::new();
    t.block_reader(7);
    let e = t.feed_byte(0x04);
    assert_eq!(e.wake, Some(7));
    assert!(!t.has_input());
    let e = t.feed_byte(0x04);
    assert_eq!(e.wake, None);
}

#[test]
fn enter_wakes_blocked_reader_once() {
    let mut t = Tty::new();
    t.block_reader(3);
    feed(&mut t, b"x");
    let e = t.feed_byte(b'\n');
    assert_eq!(e.wake, Some(3));
    let e = t.feed_byte(b'\n');
    assert_eq!(e.wake, None);
}

#[test]
fn raw_mode_is_fifo_without_echo() {
    let mut t = Tty::new();
    t.set_mode(TtyMode::Raw);
    assert_eq!(t.get_mode(), TtyMode::Raw);
    let echo = feed(&mut t, b"q\x03\x7f");
    assert!(echo.is_empty());
    assert_eq!(t.read(2), b"q\x03".to_vec());
    assert_eq!(t.read(2), b"\x7f".to_vec());
    t.set_mode(TtyMode::Canonical);
    assert_eq!(t.get_mode(), TtyMode::Canonical);
}

#[test]
fn line_editor_capacity() {
    let mut l = LineEditor::new();
    for _ in 0..TTY_LINE_SIZE - 1 {
        assert!(l.push(b'a'));
    }
    assert!(!l.push(b'b'));
    assert_eq!(l.len(), TTY_LINE_SIZE - 1);
    assert_eq!(l.last(), Some(b'a'));
    assert!(l.pop());
    assert_eq!(l.len(), TTY_LINE_SIZE - 2);
    l.clear();
    assert!(!l.pop());
    assert_eq!(l.last(), None);
}

#[test]
fn input_ring_capacity_and_order() {
    let mut r = InputRing::new();
    for i in 0..TTY_BUF_SIZE - 1 {
        assert!(r.push((i % 256) as u8));
    }
    assert!(!r.push(1));
    assert_eq!(r.len(), TTY_BUF_SIZE - 1);
    assert_eq!(r.pop(), Some(0));
    assert_eq!(r.pop(), Some(1));
    assert!(r.push(9));
    assert_eq!(r.len(), TTY_BUF_SIZE - 2);
}
