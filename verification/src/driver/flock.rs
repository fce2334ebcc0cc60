//! POSIX byte-range locks (`fcntl` F_GETLK / F_SETLK / F_SETLKW): the
//! `struct flock` wire format and the table of granted locks.
use vstd::prelude::*;

verus! {

/// Lock types, as in Linux `l_type`.
pub const F_RDLCK: u16 = 0;
pub const F_WRLCK: u16 = 1;
pub const F_UNLCK: u16 = 2;

/// `fcntl` command numbers (Linux x86_64).
pub const F_GETFD: usize = 1;
pub const F_SETFD: usize = 2;
pub const F_GETFL: usize = 3;
pub const F_SETFL: usize = 4;
pub const F_GETLK: usize = 5;
pub const F_SETLK: usize = 6;
pub const F_SETLKW: usize = 7;

/// Close-on-exec flag (for F_GETFD/F_SETFD).
pub const FD_CLOEXEC: usize = 1;

/// Size of the encoded `struct flock`.
pub const FLOCK_SIZE: usize = 24;

/// Two bytes, least significant first.
pub open spec fn le16(b0: u8, b1: u8) -> u16 {
    (b0 as u16) | ((b1 as u16) << 8u16)
}

/// Four bytes, least significant first.
pub open spec fn le32(b0: u8, b1: u8, b2: u8, b3: u8) -> u32 {
    (b0 as u32) | ((b1 as u32) << 8u32) | ((b2 as u32) << 16u32) | ((b3 as u32) << 24u32)
}

/// Eight bytes, least significant first.
pub open spec fn le64(b0: u8, b1: u8, b2: u8, b3: u8, b4: u8, b5: u8, b6: u8, b7: u8) -> u64 {
    (b0 as u64) | ((b1 as u64) << 8u64) | ((b2 as u64) << 16u64) | ((b3 as u64) << 24u64) | ((
    b4 as u64) << 32u64) | ((b5 as u64) << 40u64) | ((b6 as u64) << 48u64) | ((b7 as u64)
        << 56u64)
}

/// Byte `k` (counting from the least significant) of `x`.
pub open spec fn byte_of(x: u64, k: u64) -> u8 {
    ((x >> (8 * k)) & 0xff) as u8
}

/// Linux `struct flock` on x86_64, as user space lays it out (24 bytes,
/// little-endian): `l_type` at 0, `l_whence` at 2, `l_start` at 4, `l_len`
/// at 12, `l_pid` at 20.
#[derive(Clone, Copy, Debug, PartialEq, Eq, Structural)]
pub struct Flock {
    pub l_type: i16,
    pub l_whence: i16,
    pub l_start: i64,
    pub l_len: i64,
    pub l_pid: i32,
}

/// The record that the first 24 bytes of `b` encode.
pub open spec fn flock_from(b: Seq<u8>) -> Flock {
    Flock {
        l_type: le16(b[0], b[1]) as i16,
        l_whence: le16(b[2], b[3]) as i16,
        l_start: le64(b[4], b[5], b[6], b[7], b[8], b[9], b[10], b[11]) as i64,
        l_len: le64(b[12], b[13], b[14], b[15], b[16], b[17], b[18], b[19]) as i64,
        l_pid: le32(b[20], b[21], b[22], b[23]) as i32,
    }
}

/// The 24 bytes that encode `f`.
pub open spec fn flock_bytes(f: Flock) -> Seq<u8> {
    let t = f.l_type as u16 as u64;
    let w = f.l_whence as u16 as u64;
    let s = f.l_start as u64;
    let n = f.l_len as u64;
    let p = f.l_pid as u32 as u64;
    seq![
        byte_of(t, 0), byte_of(t, 1),
        byte_of(w, 0), byte_of(w, 1),
        byte_of(s, 0), byte_of(s, 1), byte_of(s, 2), byte_of(s, 3),
        byte_of(s, 4), byte_of(s, 5), byte_of(s, 6), byte_of(s, 7),
        byte_of(n, 0), byte_of(n, 1), byte_of(n, 2), byte_of(n, 3),
        byte_of(n, 4), byte_of(n, 5), byte_of(n, 6), byte_of(n, 7),
        byte_of(p, 0), byte_of(p, 1), byte_of(p, 2), byte_of(p, 3),
    ]
}

/// Byte `k` of `x`, least significant first.
fn byte(x: u64, k: u64) -> (r: u8)
    requires
        k < 8,
    ensures
        r == byte_of(x, k),
{
    ((x >> (8 * k)) & 0xff) as u8
}

proof fn lemma_u16_bytes(x: i16)
    ensures
        le16(byte_of(x as u16 as u64, 0), byte_of(x as u16 as u64, 1)) as i16 == x,
{
    assert(le16(
        (((x as u16 as u64) >> (8 * 0u64)) & 0xff) as u8,
        (((x as u16 as u64) >> (8 * 1u64)) & 0xff) as u8,
    ) as i16 == x) by (bit_vector);
}

proof fn lemma_u32_bytes(x: i32)
    ensures
        le32(
            byte_of(x as u32 as u64, 0),
            byte_of(x as u32 as u64, 1),
            byte_of(x as u32 as u64, 2),
            byte_of(x as u32 as u64, 3),
        ) as i32 == x,
{
    assert(le32(
        (((x as u32 as u64) >> (8 * 0u64)) & 0xff) as u8,
        (((x as u32 as u64) >> (8 * 1u64)) & 0xff) as u8,
        (((x as u32 as u64) >> (8 * 2u64)) & 0xff) as u8,
        (((x as u32 as u64) >> (8 * 3u64)) & 0xff) as u8,
    ) as i32 == x) by (bit_vector);
}

proof fn lemma_u64_bytes(x: i64)
    ensures
        le64(
            byte_of(x as u64, 0),
            byte_of(x as u64, 1),
            byte_of(x as u64, 2),
            byte_of(x as u64, 3),
            byte_of(x as u64, 4),
            byte_of(x as u64, 5),
            byte_of(x as u64, 6),
            byte_of(x as u64, 7),
        ) as i64 == x,
{
    assert(le64(
        (((x as u64) >> (8 * 0u64)) & 0xff) as u8,
        (((x as u64) >> (8 * 1u64)) & 0xff) as u8,
        (((x as u64) >> (8 * 2u64)) & 0xff) as u8,
        (((x as u64) >> (8 * 3u64)) & 0xff) as u8,
        (((x as u64) >> (8 * 4u64)) & 0xff) as u8,
        (((x as u64) >> (8 * 5u64)) & 0xff) as u8,
        (((x as u64) >> (8 * 6u64)) & 0xff) as u8,
        (((x as u64) >> (8 * 7u64)) & 0xff) as u8,
    ) as i64 == x) by (bit_vector);
}

proof fn lemma_bytes_u16(b0: u8, b1: u8)
    by (bit_vector)
    ensures
        byte_of(le16(b0, b1) as i16 as u16 as u64, 0) == b0,
        byte_of(le16(b0, b1) as i16 as u16 as u64, 1) == b1,
{
}

proof fn lemma_bytes_u32(b0: u8, b1: u8, b2: u8, b3: u8)
    by (bit_vector)
    ensures
        byte_of(le32(b0, b1, b2, b3) as i32 as u32 as u64, 0) == b0,
        byte_of(le32(b0, b1, b2, b3) as i32 as u32 as u64, 1) == b1,
        byte_of(le32(b0, b1, b2, b3) as i32 as u32 as u64, 2) == b2,
        byte_of(le32(b0, b1, b2, b3) as i32 as u32 as u64, 3) == b3,
{
}

proof fn lemma_le64_bytes(b0: u8, b1: u8, b2: u8, b3: u8, b4: u8, b5: u8, b6: u8, b7: u8)
    by (bit_vector)
    ensures
        byte_of(le64(b0, b1, b2, b3, b4, b5, b6, b7) as i64 as u64, 0) == b0,
        byte_of(le64(b0, b1, b2, b3, b4, b5, b6, b7) as i64 as u64, 1) == b1,
        byte_of(le64(b0, b1, b2, b3, b4, b5, b6, b7) as i64 as u64, 2) == b2,
        byte_of(le64(b0, b1, b2, b3, b4, b5, b6, b7) as i64 as u64, 3) == b3,
        byte_of(le64(b0, b1, b2, b3, b4, b5, b6, b7) as i64 as u64, 4) == b4,
        byte_of(le64(b0, b1, b2, b3, b4, b5, b6, b7) as i64 as u64, 5) == b5,
        byte_of(le64(b0, b1, b2, b3, b4, b5, b6, b7) as i64 as u64, 6) == b6,
        byte_of(le64(b0, b1, b2, b3, b4, b5, b6, b7) as i64 as u64, 7) == b7,
{
}

proof fn lemma_bytes_u64(b: Seq<u8>, o: int)
    requires
        0 <= o,
        o + 8 <= b.len(),
    ensures
        forall|k: int|
            0 <= k < 8 ==> byte_of(
                le64(b[o], b[o + 1], b[o + 2], b[o + 3], b[o + 4], b[o + 5], b[o + 6], b[o + 7])
                    as i64 as u64,
                k as u64,
            ) == #[trigger] b[o + k],
{
    lemma_le64_bytes(b[o], b[o + 1], b[o + 2], b[o + 3], b[o + 4], b[o + 5], b[o + 6], b[o + 7]);
    assert forall|k: int| 0 <= k < 8 implies byte_of(
        le64(b[o], b[o + 1], b[o + 2], b[o + 3], b[o + 4], b[o + 5], b[o + 6], b[o + 7]) as i64
            as u64,
        k as u64,
    ) == #[trigger] b[o + k] by {
        if k == 0 {
        } else if k == 1 {
        } else if k == 2 {
        } else if k == 3 {
        } else if k == 4 {
        } else if k == 5 {
        } else if k == 6 {
        } else {
        }
    }
}

/// Decoding what `to_bytes` encoded gives the record back.
pub proof fn lemma_flock_roundtrip(f: Flock)
    ensures
        flock_from(flock_bytes(f)) == f,
{
    lemma_u16_bytes(f.l_type);
    lemma_u16_bytes(f.l_whence);
    lemma_u64_bytes(f.l_start);
    lemma_u64_bytes(f.l_len);
    lemma_u32_bytes(f.l_pid);
}

/// Encoding a decoded record gives the 24 bytes back.
pub proof fn lemma_bytes_roundtrip(b: Seq<u8>)
    requires
        b.len() == FLOCK_SIZE,
    ensures
        flock_bytes(flock_from(b)) == b,
{
    lemma_bytes_u16(b[0], b[1]);
    lemma_bytes_u16(b[2], b[3]);
    lemma_bytes_u64(b, 4);
    lemma_bytes_u64(b, 12);
    lemma_bytes_u32(b[20], b[21], b[22], b[23]);
    let r = flock_bytes(flock_from(b));
    assert forall|k: int| 0 <= k < 24 implies r[k] == b[k] by {
        if 4 <= k < 12 {
            assert(b[4 + (k - 4)] == b[k]);
        } else if 12 <= k < 20 {
            assert(b[12 + (k - 12)] == b[k]);
        }
    }
    assert(r =~= b);
}

impl Flock {
    /// Decodes the first 24 bytes of `bytes`.
    pub fn from_bytes(bytes: &[u8]) -> (r: Flock)
        requires
            bytes@.len() >= FLOCK_SIZE,
        ensures
            r == flock_from(bytes@),
    {
        let b = bytes;
        let t: u16 = (b[0] as u16) | ((b[1] as u16) << 8u16);
        let w: u16 = (b[2] as u16) | ((b[3] as u16) << 8u16);
        let s: u64 = (b[4] as u64) | ((b[5] as u64) << 8u64) | ((b[6] as u64) << 16u64) | ((
        b[7] as u64) << 24u64) | ((b[8] as u64) << 32u64) | ((b[9] as u64) << 40u64) | ((
        b[10] as u64) << 48u64) | ((b[11] as u64) << 56u64);
        let n: u64 = (b[12] as u64) | ((b[13] as u64) << 8u64) | ((b[14] as u64) << 16u64) | ((
        b[15] as u64) << 24u64) | ((b[16] as u64) << 32u64) | ((b[17] as u64) << 40u64) | ((
        b[18] as u64) << 48u64) | ((b[19] as u64) << 56u64);
        let p: u32 = (b[20] as u32) | ((b[21] as u32) << 8u32) | ((b[22] as u32) << 16u32) | ((
        b[23] as u32) << 24u32);
        Flock {
            l_type: t as i16,
            l_whence: w as i16,
            l_start: s as i64,
            l_len: n as i64,
            l_pid: p as i32,
        }
    }

    /// Encodes the record in 24 bytes.
    pub fn to_bytes(&self) -> (r: [u8; 24])
        ensures
            r@ == flock_bytes(*self),
    {
        let t: u64 = #[verifier::truncate] (self.l_type as u16) as u64;
        let w: u64 = #[verifier::truncate] (self.l_whence as u16) as u64;
        let s: u64 = #[verifier::truncate] (self.l_start as u64);
        let n: u64 = #[verifier::truncate] (self.l_len as u64);
        let p: u64 = #[verifier::truncate] (self.l_pid as u32) as u64;
        let r = [
            byte(t, 0),
            byte(t, 1),
            byte(w, 0),
            byte(w, 1),
            byte(s, 0),
            byte(s, 1),
            byte(s, 2),
            byte(s, 3),
            byte(s, 4),
            byte(s, 5),
            byte(s, 6),
            byte(s, 7),
            byte(n, 0),
            byte(n, 1),
            byte(n, 2),
            byte(n, 3),
            byte(n, 4),
            byte(n, 5),
            byte(n, 6),
            byte(n, 7),
            byte(p, 0),
            byte(p, 1),
            byte(p, 2),
            byte(p, 3),
        ];
        assert(r@ =~= flock_bytes(*self));
        r
    }

    /// The start of the range. Every `l_whence` is read as SEEK_SET: no file
    /// position is at hand here.
    pub fn abs_start(&self) -> (r: i64)
        ensures
            r == self.l_start,
    {
        self.l_start
    }

    /// `l_len` is 0 (to the end of the file) or the end of the range fits
    /// in an `i64`.
    pub open spec fn range_fits(&self) -> bool {
        self.l_len == 0 || i64::MIN <= self.l_start + self.l_len <= i64::MAX
    }

    /// The end of the range (exclusive); `l_len == 0` locks to the end of
    /// the file, given as `i64::MAX`.
    pub open spec fn end_spec(&self) -> i64 {
        if self.l_len == 0 {
            i64::MAX
        } else {
            (self.l_start + self.l_len) as i64
        }
    }

    /// The end of the range (exclusive); `i64::MAX` when `l_len` is 0.
    pub fn abs_end(&self) -> (r: i64)
        requires
            self.range_fits(),
        ensures
            r == self.end_spec(),
    {
        let start = self.abs_start();
        if self.l_len == 0 {
            i64::MAX
        } else {
            start + self.l_len
        }
    }
}

/// A granted byte-range lock, held by an fd on an inode.
#[derive(Clone, Copy, Debug, PartialEq, Eq, Structural)]
pub struct FileLock {
    /// The fd that holds the lock.
    pub owner_fd: usize,
    /// Inode number of the locked file.
    pub inode: u64,
    /// F_RDLCK or F_WRLCK.
    pub lock_type: u16,
    /// Start byte offset (absolute).
    pub start: i64,
    /// End byte offset (exclusive).
    pub end: i64,
}

/// `[a_start, a_end)` and `[b_start, b_end)` share a byte.
pub open spec fn overlap(a_start: i64, a_end: i64, b_start: i64, b_end: i64) -> bool {
    a_start < b_end && b_start < a_end
}

/// Two ranges overlap: `[a_start, a_end)` and `[b_start, b_end)` share a byte.
pub fn ranges_overlap(a_start: i64, a_end: i64, b_start: i64, b_end: i64) -> (r: bool)
    ensures
        r == overlap(a_start, a_end, b_start, b_end),
{
    a_start < b_end && b_start < a_end
}

/// `l` stands in the way of a lock of type `ty` on `[start, end)` of
/// `inode` asked for by `owner`: another fd's lock on an overlapping range,
/// with at least one of the two exclusive.
pub open spec fn conflicts(l: FileLock, inode: u64, owner: usize, ty: u16, start: i64, end: i64) -> bool {
    &&& l.inode == inode
    &&& l.owner_fd != owner
    &&& overlap(l.start, l.end, start, end)
    &&& (l.lock_type == F_WRLCK || ty == F_WRLCK)
}

/// `i` is the first lock in `s` that conflicts.
pub open spec fn is_first_conflict(
    s: Seq<FileLock>,
    i: int,
    inode: u64,
    owner: usize,
    ty: u16,
    start: i64,
    end: i64,
) -> bool {
    &&& 0 <= i < s.len()
    &&& conflicts(s[i], inode, owner, ty, start, end)
    &&& forall|j: int| 0 <= j < i ==> !conflicts(#[trigger] s[j], inode, owner, ty, start, end)
}

/// No lock in `s` conflicts.
pub open spec fn no_conflict(s: Seq<FileLock>, inode: u64, owner: usize, ty: u16, start: i64, end: i64) -> bool {
    forall|j: int| 0 <= j < s.len() ==> !conflicts(#[trigger] s[j], inode, owner, ty, start, end)
}

/// The lock's length is representable: its end is `i64::MAX` or
/// `end - start` fits in an `i64`.
pub open spec fn length_fits(l: FileLock) -> bool {
    l.end == i64::MAX || i64::MIN <= l.end - l.start <= i64::MAX
}

/// `l` is kept by an unlock of `[start, end)` on `inode` by `owner`.
pub open spec fn survives_unlock(l: FileLock, inode: u64, owner: usize, start: i64, end: i64) -> bool {
    l.inode != inode || l.owner_fd != owner || !overlap(l.start, l.end, start, end)
}

/// What F_GETLK reports for a conflicting lock.
pub open spec fn conflict_report(c: FileLock) -> Flock {
    Flock {
        l_type: c.lock_type as i16,
        l_whence: 0,
        l_start: c.start,
        l_len: if c.end == i64::MAX {
            0
        } else {
            (c.end - c.start) as i64
        },
        l_pid: 0,
    }
}

/// The answer to an `fcntl` lock request.
#[derive(Clone, Copy, Debug, PartialEq, Eq, Structural)]
pub enum LockReply {
    /// The syscall's return value (0 or -1) and the record to copy back to
    /// user space, if any.
    Done(isize, Option<Flock>),
    /// F_SETLKW met a conflict: the caller yields the CPU once and then
    /// calls `fcntl_lock_retry`.
    Retry,
}

/// All granted locks, in the order in which they were granted.
pub struct LockTable {
    pub locks: Vec<FileLock>,
}

impl LockTable {
    /// Every lock's length is representable.
    pub open spec fn wf(&self) -> bool {
        forall|i: int| 0 <= i < self.locks@.len() ==> length_fits(#[trigger] self.locks@[i])
    }

    /// No locks.
    pub fn new() -> (r: Self)
        ensures
            r.wf(),
            r.locks@ == Seq::<FileLock>::empty(),
    {
        LockTable { locks: Vec::new() }
    }

    /// The first lock on `inode` held by another fd than `owner_fd` that
    /// conflicts with a lock of type `lock_type` on `[start, end)`.
    pub fn find_conflict(&self, inode: u64, owner_fd: usize, lock_type: u16, start: i64, end: i64) -> (r: Option<FileLock>)
        ensures
            match r {
                Some(l) => exists|i: int|
                    is_first_conflict(self.locks@, i, inode, owner_fd, lock_type, start, end)
                        && self.locks@[i] == l,
                None => no_conflict(self.locks@, inode, owner_fd, lock_type, start, end),
            },
    {
        let mut i: usize = 0;
        while i < self.locks.len()
            invariant
                i <= self.locks@.len(),
                forall|j: int| 0 <= j < i ==> !conflicts(#[trigger] self.locks@[j], inode, owner_fd, lock_type, start, end),
            decreases self.locks@.len() - i,
        {
            let l = self.locks[i];
            if l.inode == inode && l.owner_fd != owner_fd && ranges_overlap(l.start, l.end, start, end)
                && (l.lock_type == F_WRLCK || lock_type == F_WRLCK) {
                assert(is_first_conflict(self.locks@, i as int, inode, owner_fd, lock_type, start, end));
                return Some(l);
            }
            i = i + 1;
        }
        None
    }

    /// Drops every lock of `owner_fd` on `inode` that overlaps
    /// `[start, end)` (whole locks; none is split).
    pub fn remove_locks_in_range(&mut self, inode: u64, owner_fd: usize, start: i64, end: i64)
        requires
            old(self).wf(),
        ensures
            final(self).wf(),
            final(self).locks@ == old(self).locks@.filter(
                |l: FileLock| survives_unlock(l, inode, owner_fd, start, end),
            ),
    {
        let ghost pred = |l: FileLock| survives_unlock(l, inode, owner_fd, start, end);
        let mut kept: Vec<FileLock> = Vec::new();
        let mut i: usize = 0;
        while i < self.locks.len()
            invariant
                i <= self.locks@.len(),
                self.wf(),
                pred == (|l: FileLock| survives_unlock(l, inode, owner_fd, start, end)),
                kept@ == self.locks@.take(i as int).filter(pred),
            decreases self.locks@.len() - i,
        {
            let l = self.locks[i];
            proof {
                assert(self.locks@.take(i + 1) =~= self.locks@.take(i as int).push(l));
                self.locks@.take(i as int).lemma_filter_push(l, pred);
            }
            if l.inode != inode || l.owner_fd != owner_fd || !ranges_overlap(l.start, l.end, start, end) {
                kept.push(l);
            }
            i = i + 1;
        }
        proof {
            assert(self.locks@.take(self.locks@.len() as int) =~= self.locks@);
            assert forall|k: int| 0 <= k < kept@.len() implies length_fits(#[trigger] kept@[k]) by {
                broadcast use vstd::seq_lib::group_filter_ensures;

                let x = kept@[k];
                assert(self.locks@.filter(pred).contains(x));
                self.locks@.lemma_filter_contains_rev(pred, x);
                let j = choose|j: int| 0 <= j < self.locks@.len() && self.locks@[j] == x;
                assert(length_fits(self.locks@[j]));
            }
        }
        self.locks = kept;
    }

    /// Grants a lock.
    pub fn add_lock(&mut self, inode: u64, owner_fd: usize, lock_type: u16, start: i64, end: i64)
        requires
            old(self).wf(),
            length_fits(FileLock { owner_fd, inode, lock_type, start, end }),
        ensures
            final(self).wf(),
            final(self).locks@ == old(self).locks@.push(
                FileLock { owner_fd, inode, lock_type, start, end },
            ),
    {
        self.locks.push(FileLock { owner_fd, inode, lock_type, start, end });
    }
}

/// The locks that remain once `fd` lets go of its own.
pub open spec fn released(locks: Seq<FileLock>, fd: usize) -> Seq<FileLock> {
    locks.filter(|l: FileLock| l.owner_fd != fd)
}

/// Drops every lock held by `fd` (on close).
pub fn release_fd_locks(table: &mut LockTable, fd: usize)
    requires
        old(table).wf(),
    ensures
        final(table).wf(),
        final(table).locks@ == old(table).locks@.filter(|l: FileLock| l.owner_fd != fd),
{
    let ghost pred = |l: FileLock| l.owner_fd != fd;
    let mut kept: Vec<FileLock> = Vec::new();
    let mut i: usize = 0;
    while i < table.locks.len()
        invariant
            i <= table.locks@.len(),
            table.wf(),
            pred == (|l: FileLock| l.owner_fd != fd),
            kept@ == table.locks@.take(i as int).filter(pred),
        decreases table.locks@.len() - i,
    {
        let l = table.locks[i];
        proof {
            assert(table.locks@.take(i + 1) =~= table.locks@.take(i as int).push(l));
            table.locks@.take(i as int).lemma_filter_push(l, pred);
        }
        if l.owner_fd != fd {
            kept.push(l);
        }
        i = i + 1;
    }
    proof {
        assert(table.locks@.take(table.locks@.len() as int) =~= table.locks@);
        assert forall|k: int| 0 <= k < kept@.len() implies length_fits(#[trigger] kept@[k]) by {
            broadcast use vstd::seq_lib::group_filter_ensures;

            let x = kept@[k];
            assert(table.locks@.filter(pred).contains(x));
            table.locks@.lemma_filter_contains_rev(pred, x);
            let j = choose|j: int| 0 <= j < table.locks@.len() && table.locks@[j] == x;
            assert(length_fits(table.locks@[j]));
        }
    }
    table.locks = kept;
}

/// The lock that `flock` asks for, as F_SETLK grants it.
pub open spec fn requested(flock: Flock, fd: usize, inode: u64) -> FileLock {
    FileLock {
        owner_fd: fd,
        inode,
        lock_type: flock.l_type as u16,
        start: flock.l_start,
        end: flock.end_spec(),
    }
}

/// F_GETLK / F_SETLK / F_SETLKW on `fd`, open on `inode`.
///
/// F_GETLK reports the first conflicting lock (or `flock` with its type
/// set to F_UNLCK) and changes nothing. F_SETLK with F_UNLCK drops the fd's
/// overlapping locks; with a lock type it grants the lock unless another
/// fd's lock conflicts, and then fails with -1 (EAGAIN). F_SETLKW asks for
/// a retry instead of failing. Other commands fail with -1.
pub fn fcntl_lock_op(table: &mut LockTable, cmd: usize, fd: usize, inode: u64, flock: &Flock) -> (r: LockReply)
    requires
        old(table).wf(),
        flock.range_fits(),
    ensures
        final(table).wf(),
        ({
            let req = requested(*flock, fd, inode);
            let (ty, start, end) = (req.lock_type, req.start, req.end);
            let locks = old(table).locks@;
            if cmd == F_GETLK {
                &&& final(table).locks@ == locks
                &&& if no_conflict(locks, inode, fd, ty, start, end) {
                    r == LockReply::Done(0, Some(Flock { l_type: F_UNLCK as i16, ..*flock }))
                } else {
                    exists|i: int|
                        is_first_conflict(locks, i, inode, fd, ty, start, end)
                            && r == LockReply::Done(0, Some(conflict_report(locks[i])))
                }
            } else if cmd == F_SETLK || cmd == F_SETLKW {
                if ty == F_UNLCK {
                    &&& final(table).locks@ == locks.filter(
                        |l: FileLock| survives_unlock(l, inode, fd, start, end),
                    )
                    &&& r == LockReply::Done(0, None)
                } else if no_conflict(locks, inode, fd, ty, start, end) {
                    &&& final(table).locks@ == locks.push(req)
                    &&& r == LockReply::Done(0, None)
                } else {
                    &&& final(table).locks@ == locks
                    &&& r == if cmd == F_SETLK {
                        LockReply::Done(-1isize, None)
                    } else {
                        LockReply::Retry
                    }
                }
            } else {
                &&& final(table).locks@ == locks
                &&& r == LockReply::Done(-1isize, None)
            }
        }),
{
    let lock_type: u16 = #[verifier::truncate] (flock.l_type as u16);
    let start = flock.abs_start();
    let end = flock.abs_end();
    if cmd == F_GETLK {
        match table.find_conflict(inode, fd, lock_type, start, end) {
            Some(conflict) => {
                proof {
                    let i = choose|i: int|
                        is_first_conflict(table.locks@, i, inode, fd, lock_type, start, end)
                            && table.locks@[i] == conflict;
                    assert(length_fits(table.locks@[i]));
                }
                let len: i64 = if conflict.end == i64::MAX {
                    0
                } else {
                    conflict.end - conflict.start
                };
                let out = Flock {
                    l_type: #[verifier::truncate] (conflict.lock_type as i16),
                    l_whence: 0,
                    l_start: conflict.start,
                    l_len: len,
                    l_pid: 0,
                };
                LockReply::Done(0, Some(out))
            },
            None => {
                let mut out = *flock;
                out.l_type = F_UNLCK as i16;
                LockReply::Done(0, Some(out))
            },
        }
    } else if cmd == F_SETLK || cmd == F_SETLKW {
        if lock_type == F_UNLCK {
            table.remove_locks_in_range(inode, fd, start, end);
            LockReply::Done(0, None)
        } else {
            match table.find_conflict(inode, fd, lock_type, start, end) {
                Some(_) => {
                    if cmd == F_SETLK {
                        LockReply::Done(-1isize, None)
                    } else {
                        LockReply::Retry
                    }
                },
                None => {
                    table.add_lock(inode, fd, lock_type, start, end);
                    LockReply::Done(0, None)
                },
            }
        }
    } else {
        LockReply::Done(-1isize, None)
    }
}

/// The second try of an F_SETLKW that met a conflict, after the caller
/// yielded once: the lock is granted (0) if nothing conflicts any more,
/// else the call fails with -1.
pub fn fcntl_lock_retry(table: &mut LockTable, fd: usize, inode: u64, flock: &Flock) -> (r: isize)
    requires
        old(table).wf(),
        flock.range_fits(),
    ensures
        final(table).wf(),
        ({
            let req = requested(*flock, fd, inode);
            if no_conflict(old(table).locks@, inode, fd, req.lock_type, req.start, req.end) {
                final(table).locks@ == old(table).locks@.push(req) && r == 0
            } else {
                final(table).locks@ == old(table).locks@ && r == -1
            }
        }),
{
    let lock_type: u16 = #[verifier::truncate] (flock.l_type as u16);
    let start = flock.abs_start();
    let end = flock.abs_end();
    match table.find_conflict(inode, fd, lock_type, start, end) {
        Some(_) => -1,
        None => {
            table.add_lock(inode, fd, lock_type, start, end);
            0
        },
    }
}

/// Once a write lock is granted, any request of another fd on an
/// overlapping range of the same inode meets a conflict.
pub proof fn lemma_write_lock_excludes(
    locks: Seq<FileLock>,
    granted: FileLock,
    other_fd: usize,
    ty: u16,
    start: i64,
    end: i64,
)
    requires
        granted.lock_type == F_WRLCK,
        other_fd != granted.owner_fd,
        overlap(granted.start, granted.end, start, end),
    ensures
        !no_conflict(locks.push(granted), granted.inode, other_fd, ty, start, end),
{
    assert(conflicts(locks.push(granted)[locks.len() as int], granted.inode, other_fd, ty, start, end));
}

/// Read locks share: a read request never conflicts with read locks only.
pub proof fn lemma_read_locks_share(locks: Seq<FileLock>, inode: u64, fd: usize, start: i64, end: i64)
    requires
        forall|i: int| 0 <= i < locks.len() ==> (#[trigger] locks[i]).lock_type == F_RDLCK,
    ensures
        no_conflict(locks, inode, fd, F_RDLCK, start, end),
{
}

/// After `release_fd_locks(fd)` the fd holds no lock.
pub proof fn lemma_release_leaves_none(locks: Seq<FileLock>, fd: usize)
    ensures
        forall|i: int| 0 <= i < released(locks, fd).len() ==> (#[trigger] released(locks, fd)[i]).owner_fd != fd,
{
    broadcast use vstd::seq_lib::group_filter_ensures;

}

} // verus!
