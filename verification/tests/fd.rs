use karte::driver::fd::{FdTable, FdType, FileDescriptor, MAX_FDS, O_RDONLY, O_RDWR, O_WRONLY};
use karte::driver::pipe::PipeTable;

#[test]
fn fd_table_starts_with_stdio() {
    let t = FdTable::new();
    assert_eq!(t.get(0).unwrap().name, "stdin");
    assert_eq!(t.get(1).unwrap().name, "stdout");
    assert_eq!(t.get(2).unwrap().name, "stderr");
    assert!(t.get(3).is_none());
    assert!(t.get(MAX_FDS).is_none());
}

#[test]
fn allocate_takes_lowest_free_slot() {
    let mut t = FdTable::new();
    assert_eq!(t.allocate("a".to_string(), O_RDWR), Some(3));
    assert_eq!(t.allocate("b".to_string(), O_RDONLY), Some(4));
    assert!(t.close(3));
    assert!(!t.close(3));
    assert_eq!(t.allocate("c".to_string(), O_WRONLY), Some(3));
    assert_eq!(t.get(3).unwrap().name, "c");
}

#[test]
fn allocate_fails_when_full() {
    let mut t = FdTable::new();
    for i in 3..MAX_FDS {
        assert_eq!(t.allocate(format!("f{}", i), O_RDONLY), Some(i));
    }
    assert_eq!(t.allocate("x".to_string(), O_RDONLY), None);
}

#[test]
fn dup_copies_descriptor() {
    let mut t = FdTable::new();
    let fd = t.allocate("file".to_string(), O_RDWR).unwrap();
    assert!(t.dup(fd, 10));
    assert_eq!(t.get(10).unwrap().name, "file");
    assert!(!t.dup(20, 11));
    assert!(!t.dup(fd, MAX_FDS));
}

#[test]
fn fake_file_write_read_truncate() {
    let mut t = FdTable::new();
    let fd = t.alloc_fake_fd_with_content("v".to_string(), O_RDWR, b"hello".to_vec()).unwrap();
    let mut prng = 1u64;
    assert_eq!(t.fake_read(fd as i32, 3, &mut prng), Some(b"hel".to_vec()));
    assert_eq!(t.fake_write(fd as i32, b"XY"), Some(2));
    assert_eq!(t.get(fd).unwrap().pos, 5);
    assert!(t.fake_truncate(fd as i32, 8));
    match &t.get(fd).unwrap().fd_type {
        FdType::FakeFile(b) => assert_eq!(b, &b"helXY\0\0\0".to_vec()),
        _ => panic!("not a fake file"),
    }
    assert!(t.fake_truncate(fd as i32, 2));
    assert_eq!(t.get(fd).unwrap().pos, 2);
    assert_eq!(t.fake_read(fd as i32, 10, &mut prng), Some(Vec::new()));
    assert_eq!(t.fake_read(0, 1, &mut prng), None);
    assert_eq!(t.fake_write(-1, b"a"), None);
}

#[test]
fn fake_write_pads_with_zeros() {
    let mut t = FdTable::new();
    let fd = t.alloc_fake_fd("v".to_string(), O_RDWR).unwrap();
    t.get_mut(fd).unwrap().pos = 3;
    assert_eq!(t.fake_write(fd as i32, b"ab"), Some(2));
    match &t.get(fd).unwrap().fd_type {
        FdType::FakeFile(b) => assert_eq!(b, &vec![0, 0, 0, b'a', b'b']),
        _ => panic!("not a fake file"),
    }
}

#[test]
fn urandom_reads_the_generator() {
    let mut t = FdTable::new();
    let fd = t.alloc_urandom_fd(O_RDONLY).unwrap();
    let mut prng = 0u64;
    let bytes = t.fake_read(fd as i32, 9, &mut prng).unwrap();
    let mut x = 0u64;
    let mut expect = Vec::new();
    for i in 0..9u64 {
        x = x.wrapping_mul(6364136223846793005).wrapping_add(1442695040888963407);
        expect.push(((x >> ((i % 8) * 8)) & 0xff) as u8);
    }
    assert_eq!(bytes, expect);
    assert_eq!(prng, x);
}

#[test]
fn pipe_fd_readiness() {
    let mut pipes = PipeTable::init();
    let id = pipes.alloc_pipe().unwrap();
    let mut t = FdTable::new();
    let r = t.alloc_pipe_fd(id, true).unwrap();
    let w = t.alloc_pipe_fd(id, false).unwrap();
    assert!(!t.get(r).unwrap().is_readable(false, &pipes, false, false));
    assert!(!t.get(r).unwrap().is_writable());
    assert!(t.get(w).unwrap().is_writable());
    assert_eq!(pipes.pipe_write(id, 1, b"x"), Some((1, None)));
    assert!(t.get(r).unwrap().is_readable(false, &pipes, false, false));
    assert!(t.get(0).unwrap().is_readable(true, &pipes, false, false));
    assert!(!t.get(1).unwrap().is_readable(true, &pipes, false, false));
    assert!(!t.get(0).unwrap().is_writable());
}

#[test]
fn drain_takes_all_open_fds_in_order() {
    let mut t = FdTable::new();
    let fd = t.allocate("f".to_string(), O_RDONLY).unwrap();
    let all = t.drain_open_fds();
    let nums: Vec<usize> = all.iter().map(|(n, _)| *n).collect();
    assert_eq!(nums, vec![0, 1, 2, fd]);
    assert!(t.get(0).is_none());
}

#[test]
fn set_fd_and_take() {
    let mut t = FdTable::new();
    let d: FileDescriptor = t.get(1).unwrap().duplicate();
    t.set_fd(7, d);
    assert_eq!(t.get(7).unwrap().name, "stdout");
    let taken = t.take(7).unwrap();
    assert_eq!(taken.name, "stdout");
    assert!(t.get(7).is_none());
    assert!(t.take(7).is_none());
}
