use karte::driver::pipe::{Pipe, PipeTable, EPIPE, MAX_PIPES, PIPE_BUF_SIZE};

#[test]
fn pipe_write_then_read_is_fifo() {
    let mut p = Pipe::new();
    assert_eq!(p.write(1, b"abc"), (3, None));
    assert_eq!(p.write(1, b"de"), (2, None));
    let mut out = Vec::new();
    assert_eq!(p.read(1, 4, &mut out), (4, None));
    assert_eq!(out, b"abcd".to_vec());
    assert_eq!(p.read(1, 10, &mut out), (1, None));
    assert_eq!(out, b"abcde".to_vec());
}

#[test]
fn pipe_empty_read_blocks_or_eof() {
    let mut p = Pipe::new();
    let mut out = Vec::new();
    assert_eq!(p.read(1, 4, &mut out), (-1, None));
    p.close_write();
    assert_eq!(p.read(1, 4, &mut out), (0, None));
    assert!(out.is_empty());
}

#[test]
fn pipe_zero_length_and_null_buffer() {
    let mut p = Pipe::new();
    assert_eq!(p.write(0, b"abc"), (0, None));
    assert_eq!(p.write(1, b""), (0, None));
    let mut out = Vec::new();
    assert_eq!(p.read(1, 0, &mut out), (0, None));
    assert_eq!(p.available(), 0);
}

#[test]
fn pipe_write_to_closed_reader_is_epipe() {
    let mut p = Pipe::new();
    p.close_read();
    assert_eq!(p.write(1, b"x"), (EPIPE, None));
    assert_eq!(EPIPE, -32);
}

#[test]
fn pipe_full_write_blocks_and_partial_write() {
    let mut p = Pipe::new();
    let big = vec![7u8; PIPE_BUF_SIZE + 10];
    assert_eq!(p.write(1, &big), (PIPE_BUF_SIZE as isize, None));
    assert!(!p.has_space());
    assert_eq!(p.write(1, b"y"), (-1, None));
    let mut out = Vec::new();
    assert_eq!(p.read(1, 10, &mut out), (10, None));
    assert_eq!(p.available(), PIPE_BUF_SIZE - 10);
    assert_eq!(p.write(1, &big), (10, None));
}

#[test]
fn pipe_wakes_blocked_tasks() {
    let mut p = Pipe::new();
    p.set_reader_blocked(5);
    assert_eq!(p.write(1, b"hi"), (2, Some(5)));
    p.set_writer_blocked(9);
    let mut out = Vec::new();
    assert_eq!(p.read(1, 1, &mut out), (1, Some(9)));
    p.set_writer_blocked(3);
    assert_eq!(p.close_read(), Some(3));
    assert!(!p.is_fully_closed());
    p.set_reader_blocked(4);
    assert_eq!(p.close_write(), Some(4));
    assert!(p.is_fully_closed());
}

#[test]
fn pipe_wraps_around_the_ring() {
    let mut p = Pipe::new();
    let a = vec![1u8; PIPE_BUF_SIZE - 2];
    assert_eq!(p.write(1, &a), ((PIPE_BUF_SIZE - 2) as isize, None));
    let mut out = Vec::new();
    assert_eq!(p.read(1, PIPE_BUF_SIZE - 2, &mut out), ((PIPE_BUF_SIZE - 2) as isize, None));
    assert_eq!(p.write(1, b"wxyz"), (4, None));
    let mut out2 = Vec::new();
    assert_eq!(p.read(1, 8, &mut out2), (4, None));
    assert_eq!(out2, b"wxyz".to_vec());
}

#[test]
fn pipe_table_alloc_and_refcounts() {
    let mut t = PipeTable::init();
    let id = t.alloc_pipe().unwrap();
    assert_eq!(id, 0);
    assert_eq!(t.refcounts[0], 2);
    assert_eq!(t.pipe_write(id, 1, b"data"), Some((4, None)));
    assert_eq!(t.pipe_available(id), 4);
    let mut out = Vec::new();
    assert_eq!(t.pipe_read(id, 1, 2, &mut out), Some((2, None)));
    assert_eq!(out, b"da".to_vec());
    t.inc_ref(id);
    assert!(!t.dec_ref(id));
    assert!(!t.dec_ref(id));
    assert!(t.dec_ref(id));
    assert_eq!(t.pipe_read(id, 1, 2, &mut out), None);
    assert_eq!(t.pipe_available(id), 0);
}

#[test]
fn pipe_table_full() {
    let mut t = PipeTable::init();
    for i in 0..MAX_PIPES {
        assert_eq!(t.alloc_pipe(), Some(i));
    }
    assert_eq!(t.alloc_pipe(), None);
}
