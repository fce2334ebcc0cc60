use karte::kernel_log::{KernelLog, LogBuffer, DEFAULT_LEVEL, KLOG_BUF_SIZE, LEVEL_DEBUG, LEVEL_ERROR, LEVEL_TRACE};

#[test]
fn log_buffer_write_then_read() {
    let mut b = LogBuffer::new();
    for &c in b"hello" {
        b.write_byte(c);
    }
    assert_eq!(b.available(), 5);
    let mut buf = [0u8; 3];
    assert_eq!(b.read(&mut buf), 3);
    assert_eq!(&buf, b"hel");
    assert_eq!(b.available(), 2);
    let mut buf2 = [9u8; 4];
    assert_eq!(b.read(&mut buf2), 2);
    assert_eq!(&buf2, &[b'l', b'o', 9, 9]);
}

#[test]
fn log_buffer_peek_does_not_consume() {
    let mut b = LogBuffer::new();
    for &c in b"abcdef" {
        b.write_byte(c);
    }
    let mut buf = [0u8; 2];
    assert_eq!(b.peek(&mut buf, 2), 2);
    assert_eq!(&buf, b"cd");
    assert_eq!(b.peek(&mut buf, 6), 0);
    assert_eq!(b.available(), 6);
    b.clear();
    assert_eq!(b.available(), 0);
}

#[test]
fn log_buffer_full_drops_oldest() {
    let mut b = LogBuffer::new();
    for i in 0..KLOG_BUF_SIZE + 5 {
        b.write_byte((i % 251) as u8);
    }
    assert_eq!(b.available(), KLOG_BUF_SIZE - 1);
    let mut buf = [0u8; 1];
    assert_eq!(b.read(&mut buf), 1);
    assert_eq!(buf[0], (6 % 251) as u8);
}

#[test]
fn kernel_log_levels() {
    let mut k = KernelLog::new();
    assert_eq!(k.klog_level(), DEFAULT_LEVEL);
    assert!(k.klog_enabled(LEVEL_ERROR));
    assert!(!k.klog_enabled(LEVEL_DEBUG));
    k.klog_set_level(99);
    assert_eq!(k.klog_level(), LEVEL_TRACE);
    assert!(k.klog_enabled(LEVEL_DEBUG));
}

#[test]
fn kernel_log_read_and_flush() {
    let mut k = KernelLog::new();
    assert_eq!(k.log_flush_to_file(), None);
    for &c in b"xyz" {
        k.log_write_byte(c);
    }
    assert_eq!(k.log_available(), 3);
    let mut buf = [0u8; 2];
    assert_eq!(k.log_peek(&mut buf, 1), 2);
    assert_eq!(&buf, b"yz");
    assert_eq!(k.log_read(&mut buf), (2, 3));
    assert_eq!(k.log_flush_to_file(), Some(b"z".to_vec()));
    assert_eq!(k.log_available(), 0);
}
