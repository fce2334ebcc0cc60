use karte::driver::flock::{
    fcntl_lock_op, fcntl_lock_retry, ranges_overlap, release_fd_locks, FileLock, Flock, LockReply, LockTable,
    FLOCK_SIZE, F_GETFD, F_GETLK, F_RDLCK, F_SETLK, F_SETLKW, F_UNLCK, F_WRLCK,
};

fn req(t: u16, start: i64, len: i64) -> Flock {
    Flock { l_type: t as i16, l_whence: 0, l_start: start, l_len: len, l_pid: 0 }
}

#[test]
fn flock_bytes_roundtrip() {
    let f = Flock { l_type: 1, l_whence: 0, l_start: -5, l_len: 0x1122_3344_5566, l_pid: -7 };
    let b = f.to_bytes();
    assert_eq!(b.len(), FLOCK_SIZE);
    assert_eq!(Flock::from_bytes(&b), f);
    assert_eq!(&b[0..2], &[1, 0]);
    assert_eq!(&b[4..12], &(-5i64).to_le_bytes());
    assert_eq!(&b[12..20], &0x1122_3344_5566i64.to_le_bytes());
    assert_eq!(&b[20..24], &(-7i32).to_le_bytes());
}

#[test]
fn flock_range_ends() {
    let f = req(F_WRLCK, 10, 5);
    assert_eq!(f.abs_start(), 10);
    assert_eq!(f.abs_end(), 15);
    let g = req(F_WRLCK, 10, 0);
    assert_eq!(g.abs_end(), i64::MAX);
}

#[test]
fn overlap_is_half_open() {
    assert!(ranges_overlap(0, 10, 9, 20));
    assert!(!ranges_overlap(0, 10, 10, 20));
    assert!(!ranges_overlap(5, 6, 0, 5));
}

#[test]
fn write_lock_excludes_other_fd() {
    let mut t = LockTable::new();
    assert_eq!(fcntl_lock_op(&mut t, F_SETLK, 3, 7, &req(F_WRLCK, 0, 100)), LockReply::Done(0, None));
    assert_eq!(fcntl_lock_op(&mut t, F_SETLK, 4, 7, &req(F_RDLCK, 50, 10)), LockReply::Done(-1, None));
    assert_eq!(fcntl_lock_op(&mut t, F_SETLK, 4, 8, &req(F_WRLCK, 50, 10)), LockReply::Done(0, None));
    assert_eq!(fcntl_lock_op(&mut t, F_SETLK, 3, 7, &req(F_WRLCK, 50, 10)), LockReply::Done(0, None));
    assert_eq!(t.locks.len(), 3);
}

#[test]
fn read_locks_share() {
    let mut t = LockTable::new();
    assert_eq!(fcntl_lock_op(&mut t, F_SETLK, 1, 7, &req(F_RDLCK, 0, 0)), LockReply::Done(0, None));
    assert_eq!(fcntl_lock_op(&mut t, F_SETLK, 2, 7, &req(F_RDLCK, 5, 5)), LockReply::Done(0, None));
    assert_eq!(fcntl_lock_op(&mut t, F_SETLK, 3, 7, &req(F_WRLCK, 5, 1)), LockReply::Done(-1, None));
}

#[test]
fn getlk_reports_conflict_or_unlocked() {
    let mut t = LockTable::new();
    let r = fcntl_lock_op(&mut t, F_GETLK, 2, 7, &req(F_WRLCK, 0, 10));
    assert_eq!(r, LockReply::Done(0, Some(req(F_UNLCK, 0, 10))));
    assert_eq!(fcntl_lock_op(&mut t, F_SETLK, 1, 7, &req(F_WRLCK, 4, 0)), LockReply::Done(0, None));
    let r = fcntl_lock_op(&mut t, F_GETLK, 2, 7, &req(F_RDLCK, 0, 10));
    assert_eq!(r, LockReply::Done(0, Some(req(F_WRLCK, 4, 0))));
    assert_eq!(t.locks.len(), 1);
}

#[test]
fn setlkw_retries_then_gets_lock() {
    let mut t = LockTable::new();
    assert_eq!(fcntl_lock_op(&mut t, F_SETLK, 1, 7, &req(F_WRLCK, 0, 10)), LockReply::Done(0, None));
    assert_eq!(fcntl_lock_op(&mut t, F_SETLKW, 2, 7, &req(F_WRLCK, 0, 10)), LockReply::Retry);
    assert_eq!(fcntl_lock_retry(&mut t, 2, 7, &req(F_WRLCK, 0, 10)), -1);
    release_fd_locks(&mut t, 1);
    assert!(t.locks.is_empty());
    assert_eq!(fcntl_lock_retry(&mut t, 2, 7, &req(F_WRLCK, 0, 10)), 0);
    assert_eq!(t.locks, vec![FileLock { owner_fd: 2, inode: 7, lock_type: F_WRLCK, start: 0, end: 10 }]);
}

#[test]
fn unlock_drops_own_overlapping_locks() {
    let mut t = LockTable::new();
    assert_eq!(fcntl_lock_op(&mut t, F_SETLK, 1, 7, &req(F_WRLCK, 0, 10)), LockReply::Done(0, None));
    assert_eq!(fcntl_lock_op(&mut t, F_SETLK, 1, 7, &req(F_WRLCK, 20, 10)), LockReply::Done(0, None));
    assert_eq!(fcntl_lock_op(&mut t, F_SETLK, 1, 7, &req(F_UNLCK, 5, 10)), LockReply::Done(0, None));
    assert_eq!(t.locks, vec![FileLock { owner_fd: 1, inode: 7, lock_type: F_WRLCK, start: 20, end: 30 }]);
}

#[test]
fn other_commands_fail() {
    let mut t = LockTable::new();
    assert_eq!(fcntl_lock_op(&mut t, F_GETFD, 1, 7, &req(F_WRLCK, 0, 10)), LockReply::Done(-1, None));
}
