//! The ext4 glue that does not touch the disk itself: open-file
//! descriptors, the write-through sector cache, and the block reads and
//! writes of the block device adapter over a sector device.
use vstd::prelude::*;

use std::collections::{BTreeMap, VecDeque};

use crate::driver::vfs::{
    chars_of, last_slash, lemma_last_slash, substring, FileSystem, VfsError, VfsFileType, VfsMetadata,
};

verus! {

broadcast use vstd::laws_cmp::group_laws_cmp, vstd::std_specs::btree::group_btree_axioms;

/// Descriptor for an open ext4 file, stored in the fd table.
#[derive(Clone, Copy, Debug, PartialEq, Eq, Structural)]
pub struct Ext4FileDesc {
    pub inode_num: u32,
    pub writable: bool,
}

/// Bytes per disk sector.
pub const SECTOR_SIZE: usize = 512;

/// Bytes per file system block.
pub const BLOCK_SIZE: usize = 4096;

/// Sectors the cache keeps before it drops the oldest.
pub const CACHE_CAPACITY: usize = 2048;

/// Every sector written so far, by sector number, up to `CACHE_CAPACITY`
/// of them; the oldest entry goes first. Reads look here before the disk,
/// so that a read-modify-write of a sector sees the previous write.
pub struct SectorCache {
    map: BTreeMap<usize, [u8; 512]>,
    order: VecDeque<usize>,
}

impl SectorCache {
    /// The order lists each cached sector once, oldest first, and no more
    /// than the capacity.
    pub closed spec fn wf(&self) -> bool {
        &&& self.order@.no_duplicates()
        &&& forall|s: usize| #[trigger] self.map@.contains_key(s) <==> self.order@.contains(s)
        &&& self.order@.len() <= CACHE_CAPACITY
    }

    /// The cached sectors.
    pub closed spec fn sectors(&self) -> Map<usize, [u8; 512]> {
        self.map@
    }

    /// The cached sector numbers, oldest first.
    pub closed spec fn fifo(&self) -> Seq<usize> {
        self.order@
    }

    /// An empty cache.
    pub fn new() -> (r: Self)
        ensures
            r.wf(),
            r.sectors() == Map::<usize, [u8; 512]>::empty(),
            r.fifo() == Seq::<usize>::empty(),
    {
        let r = SectorCache { map: BTreeMap::new(), order: VecDeque::new() };
        assert(r.map@ =~= Map::<usize, [u8; 512]>::empty());
        r
    }

    /// The cached copy of `sector`, if any.
    pub fn get(&self, sector: usize) -> (r: Option<&[u8; 512]>)
        ensures
            match r {
                Some(d) => self.sectors().contains_key(sector) && *d == self.sectors()[sector],
                None => !self.sectors().contains_key(sector),
            },
    {
        self.map.get(&sector)
    }

    /// Cache `data` as the content of `sector`. A new sector joins the end
    /// of the order; when that makes more than `CACHE_CAPACITY`, the oldest
    /// sector is dropped.
    pub fn insert(&mut self, sector: usize, data: [u8; 512])
        requires
            old(self).wf(),
        ensures
            final(self).wf(),
            final(self).sectors().contains_key(sector),
            final(self).sectors()[sector] == data,
            old(self).sectors().contains_key(sector) ==> final(self).sectors() == old(self).sectors().insert(
                sector,
                data,
            ) && final(self).fifo() == old(self).fifo(),
            !old(self).sectors().contains_key(sector) ==> {
                let o = old(self).fifo().push(sector);
                if o.len() > CACHE_CAPACITY {
                    &&& final(self).fifo() == o.drop_first()
                    &&& final(self).sectors() == old(self).sectors().insert(sector, data).remove(o[0])
                } else {
                    &&& final(self).fifo() == o
                    &&& final(self).sectors() == old(self).sectors().insert(sector, data)
                }
            },
    {
        let ghost m0 = self.map@;
        let ghost o0 = self.order@;
        let prev = self.map.insert(sector, data);
        if prev.is_none() {
            self.order.push_back(sector);
            let ghost o1 = self.order@;
            assert(o1.no_duplicates()) by {
                assert forall|i: int, j: int| 0 <= i < j < o1.len() implies o1[i] != o1[j] by {
                    if j == o1.len() - 1 {
                        assert(o0.contains(o0[i]));
                    }
                }
            }
            while self.order.len() > CACHE_CAPACITY
                invariant
                    self.order@.len() <= CACHE_CAPACITY + 1,
                    o1.len() <= CACHE_CAPACITY ==> self.order@ == o1 && self.map@ == m0.insert(sector, data),
                    o1.len() > CACHE_CAPACITY && self.order@.len() > CACHE_CAPACITY ==> self.order@ == o1
                        && self.map@ == m0.insert(sector, data),
                    o1.len() > CACHE_CAPACITY && self.order@.len() <= CACHE_CAPACITY ==> self.order@
                        == o1.drop_first() && self.map@ == m0.insert(sector, data).remove(o1[0]),
                    o1.len() <= CACHE_CAPACITY + 1,
                    o1 == o0.push(sector),
                decreases self.order@.len(),
            {
                let evicted = self.order.pop_front();
                match evicted {
                    Some(e) => {
                        self.map.remove(&e);
                    },
                    None => {},
                }
                assert(self.order@ =~= o1.drop_first());
            }
            proof {
                let o = self.order@;
                if o1.len() > CACHE_CAPACITY {
                    assert(o =~= o1.subrange(1, o1.len() as int));
                    assert(o1[0] != sector) by {
                        assert(o1[o1.len() - 1] == sector);
                    }
                    assert forall|s: usize| #[trigger] self.map@.contains_key(s) <==> o.contains(s) by {
                        if o.contains(s) {
                            let k = choose|k: int| 0 <= k < o.len() && o[k] == s;
                            assert(o1[k + 1] == s);
                            assert(s != o1[0]);
                            assert(o1.contains(s));
                        }
                        if self.map@.contains_key(s) {
                            assert(s != o1[0]);
                            if s != sector {
                                assert(o0.contains(s));
                                let k = choose|k: int| 0 <= k < o0.len() && o0[k] == s;
                                assert(o1[k] == s);
                                assert(k != 0);
                                assert(o[k - 1] == s);
                            } else {
                                assert(o[o.len() - 1] == s);
                            }
                        }
                    }
                } else {
                    assert forall|s: usize| #[trigger] self.map@.contains_key(s) <==> o.contains(s) by {
                        if s != sector {
                            if o0.contains(s) {
                                let k = choose|k: int| 0 <= k < o0.len() && o0[k] == s;
                                assert(o[k] == s);
                            }
                            if o.contains(s) {
                                let k = choose|k: int| 0 <= k < o.len() && o[k] == s;
                                assert(o0[k] == s);
                            }
                        } else {
                            assert(o[o.len() - 1] == s);
                        }
                    }
                }
            }
        }
    }
}

/// The part of a transfer that falls in one sector: byte `at` of the disk
/// is byte `at % 512` of sector `at / 512`, and of the `remaining` bytes
/// still to go, those up to the end of that sector go there.
pub fn sector_piece(at: usize, remaining: usize) -> (r: (usize, usize, usize))
    requires
        remaining > 0,
    ensures
        r.0 == at / 512,
        r.1 == at % 512,
        r.2 == if 512 - at % 512 < remaining { 512 - at % 512 } else { remaining as int },
        0 < r.2,
        r.1 + r.2 <= 512,
{
    let start = at % SECTOR_SIZE;
    let avail = SECTOR_SIZE - start;
    (at / SECTOR_SIZE, start, if avail < remaining { avail } else { remaining })
}

/// `dst` with `n` bytes of sector `sec` from byte `s` on put in at `t`.
pub fn copy_from_sector(dst: &mut [u8], t: usize, sec: &[u8; 512], s: usize, n: usize)
    requires
        t + n <= old(dst)@.len(),
        s + n <= 512,
    ensures
        final(dst)@ == old(dst)@.subrange(0, t as int) + sec@.subrange(s as int, s + n) + old(dst)@.subrange(
            t + n,
            old(dst)@.len() as int,
        ),
        final(dst)@.len() == old(dst)@.len(),
        forall|q: int| 0 <= q < n ==> #[trigger] final(dst)@[t + q] == sec@[s + q],
        forall|p: int| 0 <= p < old(dst)@.len() && !(t <= p < t + n) ==> #[trigger] final(dst)@[p] == old(dst)@[p],
{
    let len = dst.len();
    let mut k: usize = 0;
    while k < n
        invariant
            k <= n,
            len == dst@.len(),
            t + n <= dst@.len(),
            s + n <= 512,
            dst@.len() == old(dst)@.len(),
            forall|q: int| 0 <= q < k ==> #[trigger] dst@[t + q] == sec@[s + q],
            forall|p: int| 0 <= p < dst@.len() && !(t <= p < t + k) ==> #[trigger] dst@[p] == old(dst)@[p],
        decreases n - k,
    {
        dst[t + k] = sec[s + k];
        k = k + 1;
    }
    let ghost whole = old(dst)@.subrange(0, t as int) + sec@.subrange(s as int, s + n) + old(dst)@.subrange(
        t + n,
        old(dst)@.len() as int,
    );
    assert forall|i: int| 0 <= i < dst@.len() implies dst@[i] == whole[i] by {
        if t <= i < t + n {
            assert(dst@[t + (i - t)] == sec@[s + (i - t)]);
        }
    }
    assert(dst@ =~= whole);
}

/// Sector `sec` with `n` bytes of `data` from byte `t` on put in at byte
/// `s`: what a read-modify-write hands back to the disk.
pub fn patch_sector(sec: &mut [u8; 512], s: usize, data: &[u8], t: usize, n: usize)
    requires
        s + n <= 512,
        t + n <= data@.len(),
    ensures
        final(sec)@ == old(sec)@.subrange(0, s as int) + data@.subrange(t as int, t + n) + old(sec)@.subrange(
            s + n,
            512,
        ),
        forall|q: int| 0 <= q < n ==> #[trigger] final(sec)@[s + q] == data@[t + q],
        forall|p: int| 0 <= p < 512 && !(s <= p < s + n) ==> #[trigger] final(sec)@[p] == old(sec)@[p],
{
    let len = data.len();
    let mut k: usize = 0;
    while k < n
        invariant
            k <= n,
            s + n <= 512,
            len == data@.len(),
            t + n <= data@.len(),
            forall|q: int| 0 <= q < k ==> #[trigger] sec@[s + q] == data@[t + q],
            forall|p: int| 0 <= p < 512 && !(s <= p < s + k) ==> #[trigger] sec@[p] == old(sec)@[p],
        decreases n - k,
    {
        sec[s + k] = data[t + k];
        k = k + 1;
    }
    let ghost whole = old(sec)@.subrange(0, s as int) + data@.subrange(t as int, t + n) + old(sec)@.subrange(
        s + n,
        512,
    );
    assert forall|i: int| 0 <= i < 512 implies sec@[i] == whole[i] by {
        if s <= i < s + n {
            assert(sec@[s + (i - s)] == data@[t + (i - s)]);
        }
    }
    assert(sec@ =~= whole);
}

/// A disk of 512-byte sectors as its driver reads and writes them; each
/// call reports whether it succeeded. Nothing is promised of what a read
/// gives.
pub trait SectorDevice {
    fn read_sector(&mut self, sector: usize, buf: &mut [u8; 512]) -> bool;

    fn write_sector(&mut self, sector: usize, data: &[u8; 512]) -> bool;
}

/// The ext4 block device: blocks of `BLOCK_SIZE` bytes at any byte
/// offset, read and written sector by sector through the cache. With a
/// known disk size (`max_disk_offset`, 0 when unknown) nothing past the
/// end is read or written.
pub struct KarteBlockDevice<D> {
    pub dev: D,
    pub cache: SectorCache,
    pub max_disk_offset: u64,
}

/// Byte `offset` lies on the disk (always so when its size is unknown).
pub open spec fn offset_valid(max: u64, offset: int) -> bool {
    max == 0 || offset < max
}

/// Byte `p` of what the cache holds for the disk bytes from `offset` on,
/// when its sector is cached.
pub open spec fn cached_byte(c: Map<usize, [u8; 512]>, offset: int, p: int) -> Option<u8> {
    let s = (offset + p) / 512;
    if c.contains_key(s as usize) {
        Some(c[s as usize]@[(offset + p) % 512])
    } else {
        None
    }
}

/// A block reads back as written: when the cache holds the bytes a
/// completed `write_offset` of a block at `offset` left (`data`) and
/// still holds every sector of the block, what `read_offset` gives (`r`,
/// any result its contract admits) is `data`.
pub proof fn lemma_write_then_read(c: Map<usize, [u8; 512]>, offset: int, data: Seq<u8>, r: Seq<u8>)
    requires
        data.len() == BLOCK_SIZE,
        forall|p: int|
            0 <= p < data.len() ==> match #[trigger] cached_byte(c, offset, p) {
                Some(b) => b == data[p],
                None => true,
            },
        forall|p: int| 0 <= p < BLOCK_SIZE ==> (#[trigger] cached_byte(c, offset, p)) is Some,
        r.len() == BLOCK_SIZE,
        exists|stop: int|
            0 <= stop <= BLOCK_SIZE && (forall|p: int|
                0 <= p < stop ==> match #[trigger] cached_byte(c, offset, p) {
                    Some(b) => r[p] == b,
                    None => true,
                }) && (forall|p: int| stop <= p < BLOCK_SIZE ==> #[trigger] r[p] == 0) && (stop < BLOCK_SIZE
                ==> cached_byte(c, offset, stop) is None),
    ensures
        r == data,
{
    let stop = choose|stop: int|
        0 <= stop <= BLOCK_SIZE && (forall|p: int|
            0 <= p < stop ==> match #[trigger] cached_byte(c, offset, p) {
                Some(b) => r[p] == b,
                None => true,
            }) && (forall|p: int| stop <= p < BLOCK_SIZE ==> #[trigger] r[p] == 0) && (stop < BLOCK_SIZE
            ==> cached_byte(c, offset, stop) is None);
    if stop < BLOCK_SIZE {
        assert(cached_byte(c, offset, stop) is Some);
    }
    assert forall|p: int| 0 <= p < BLOCK_SIZE implies r[p] == data[p] by {
        assert(cached_byte(c, offset, p) is Some);
    }
    assert(r =~= data);
}

/// A byte `q` past the start of a sector's bytes at `start` lies in the
/// same sector.
proof fn lemma_in_sector(x: int, abs: int, start: int, q: int)
    requires
        x == abs * 512 + start,
        0 <= start,
        0 <= q,
        start + q < 512,
    ensures
        (x + q) / 512 == abs,
        (x + q) % 512 == start + q,
{
    vstd::arithmetic::div_mod::lemma_fundamental_div_mod_converse(x + q, 512, abs, start + q);
}

impl<D: SectorDevice> KarteBlockDevice<D> {
    /// A device with an empty cache and an unknown size.
    pub fn new(dev: D) -> (r: Self)
        ensures
            r.cache.wf(),
            r.cache.sectors() == Map::<usize, [u8; 512]>::empty(),
            r.max_disk_offset == 0,
    {
        KarteBlockDevice { dev, cache: SectorCache::new(), max_disk_offset: 0 }
    }

    /// Byte `offset` lies on the disk (see `offset_valid`).
    pub fn is_offset_valid(&self, offset: usize) -> (r: bool)
        ensures
            r == offset_valid(self.max_disk_offset, offset as int),
    {
        self.max_disk_offset == 0 || (offset as u64) < self.max_disk_offset
    }

    /// The block at byte `offset`: zeros when it runs past the end of the
    /// disk; else each sector from the cache or, when not cached, from the
    /// disk, until a disk read fails (the rest stays zero). Every byte of a
    /// cached sector read is the cache's; when every sector is cached the
    /// block is exactly what the cache holds.
    pub fn read_offset(&mut self, offset: usize) -> (r: Vec<u8>)
        requires
            old(self).cache.wf(),
            offset + BLOCK_SIZE <= usize::MAX,
        ensures
            final(self).cache == old(self).cache,
            final(self).max_disk_offset == old(self).max_disk_offset,
            r@.len() == BLOCK_SIZE,
            !offset_valid(old(self).max_disk_offset, offset + BLOCK_SIZE - 1) ==> r@ == Seq::new(
                BLOCK_SIZE as nat,
                |i: int| 0u8,
            ),
            offset_valid(old(self).max_disk_offset, offset + BLOCK_SIZE - 1) ==> exists|stop: int|
                0 <= stop <= BLOCK_SIZE && (forall|p: int|
                    0 <= p < stop ==> match #[trigger] cached_byte(old(self).cache.sectors(), offset as int, p) {
                        Some(b) => r@[p] == b,
                        None => true,
                    }) && (forall|p: int| stop <= p < BLOCK_SIZE ==> #[trigger] r@[p] == 0) && (stop
                    < BLOCK_SIZE ==> cached_byte(old(self).cache.sectors(), offset as int, stop) is None),
    {
        let mut buf: Vec<u8> = Vec::new();
        let mut z: usize = 0;
        while z < BLOCK_SIZE
            invariant
                z <= BLOCK_SIZE,
                buf@ == Seq::new(z as nat, |i: int| 0u8),
            decreases BLOCK_SIZE - z,
        {
            buf.push(0);
            z = z + 1;
            assert(buf@ =~= Seq::new(z as nat, |i: int| 0u8));
        }
        if !self.is_offset_valid(offset + BLOCK_SIZE - 1) {
            return buf;
        }
        let mut buf_pos: usize = 0;
        let ghost c = self.cache.sectors();
        while buf_pos < BLOCK_SIZE
            invariant
                self.cache == old(self).cache,
                self.max_disk_offset == old(self).max_disk_offset,
                c == self.cache.sectors(),
                offset + BLOCK_SIZE <= usize::MAX,
                buf@.len() == BLOCK_SIZE,
                buf_pos <= BLOCK_SIZE,
                0 < buf_pos < BLOCK_SIZE ==> (offset + buf_pos) % 512 == 0,
                forall|p: int|
                    0 <= p < buf_pos ==> match #[trigger] cached_byte(c, offset as int, p) {
                        Some(b) => buf@[p] == b,
                        None => true,
                    },
                forall|p: int| buf_pos <= p < BLOCK_SIZE ==> #[trigger] buf@[p] == 0,
            ensures
                self.cache == old(self).cache,
                self.max_disk_offset == old(self).max_disk_offset,
                buf@.len() == BLOCK_SIZE,
                buf_pos <= BLOCK_SIZE,
                forall|p: int|
                    0 <= p < buf_pos ==> match #[trigger] cached_byte(c, offset as int, p) {
                        Some(b) => buf@[p] == b,
                        None => true,
                    },
                forall|p: int| buf_pos <= p < BLOCK_SIZE ==> #[trigger] buf@[p] == 0,
                buf_pos < BLOCK_SIZE ==> cached_byte(c, offset as int, buf_pos as int) is None,
            decreases BLOCK_SIZE - buf_pos,
        {
            let (abs_sector, src_start, copy_len) = sector_piece(offset + buf_pos, BLOCK_SIZE - buf_pos);
            proof {
                assert(offset + buf_pos == abs_sector * 512 + src_start) by {
                    vstd::arithmetic::div_mod::lemma_fundamental_div_mod((offset + buf_pos) as int, 512);
                }
            }
            let cached = self.cache.get(abs_sector);
            match cached {
                Some(data) => {
                    copy_from_sector(buf.as_mut_slice(), buf_pos, data, src_start, copy_len);
                    proof {
                        assert forall|p: int|
                            0 <= p < buf_pos + copy_len implies match #[trigger] cached_byte(c, offset as int, p) {
                            Some(b) => buf@[p] == b,
                            None => true,
                        } by {
                            if p >= buf_pos {
                                let q = p - buf_pos;
                                lemma_in_sector(offset + buf_pos, abs_sector as int, src_start as int, q);
                                assert(buf@[buf_pos + q] == data@[src_start + q]);
                            }
                        }
                    }
                },
                None => {
                    let mut sector: [u8; 512] = [0u8; 512];
                    if !self.dev.read_sector(abs_sector, &mut sector) {
                        proof {
                            lemma_in_sector(offset + buf_pos, abs_sector as int, src_start as int, 0);
                        }
                        assert(cached_byte(c, offset as int, buf_pos as int) is None);
                        break;
                    }
                    copy_from_sector(buf.as_mut_slice(), buf_pos, &sector, src_start, copy_len);
                    proof {
                        assert forall|p: int|
                            0 <= p < buf_pos + copy_len implies match #[trigger] cached_byte(c, offset as int, p) {
                            Some(b) => buf@[p] == b,
                            None => true,
                        } by {
                            if p >= buf_pos {
                                let q = p - buf_pos;
                                lemma_in_sector(offset + buf_pos, abs_sector as int, src_start as int, q);
                            }
                        }
                    }
                },
            }
            proof {
                if buf_pos + copy_len < BLOCK_SIZE {
                    assert(copy_len == 512 - src_start);
                    vstd::arithmetic::div_mod::lemma_fundamental_div_mod_converse(
                        offset + buf_pos + copy_len,
                        512,
                        abs_sector + 1,
                        0,
                    );
                }
            }
            buf_pos = buf_pos + copy_len;
        }
        buf
    }

    /// Write `data` at byte `offset`, sector by sector: a sector only
    /// partly covered is first read (from the cache, else the disk), then
    /// the sector is written to the disk and cached. Nothing is written when
    /// the range runs past the end of the disk; a failed disk read or write
    /// stops the rest. Returns whether every sector was written. Sectors
    /// outside the range keep their cached content (or were dropped as the
    /// oldest); once every sector was written, every cached byte of the
    /// range is the byte of `data` written there.
    pub fn write_offset(&mut self, offset: usize, data: &[u8]) -> (r: bool)
        requires
            old(self).cache.wf(),
            offset + data@.len() <= usize::MAX,
            offset + data@.len() >= 1,
        ensures
            final(self).cache.wf(),
            final(self).max_disk_offset == old(self).max_disk_offset,
            !offset_valid(old(self).max_disk_offset, offset + data@.len() - 1) ==> !r && final(self).cache
                == old(self).cache,
            forall|s: usize|
                #[trigger] final(self).cache.sectors().contains_key(s) && !(s * 512 < offset + data@.len()
                    && offset < s * 512 + 512) ==> old(self).cache.sectors().contains_key(s)
                    && final(self).cache.sectors()[s] == old(self).cache.sectors()[s],
            r ==> forall|p: int|
                0 <= p < data@.len() ==> match #[trigger] cached_byte(final(self).cache.sectors(), offset as int, p) {
                    Some(b) => b == data@[p],
                    None => true,
                },
    {
        if !self.is_offset_valid(offset + data.len() - 1) {
            return false;
        }
        let len = data.len();
        let mut data_pos: usize = 0;
        let mut current_offset: usize = offset;
        while data_pos < len
            invariant
                self.cache.wf(),
                self.max_disk_offset == old(self).max_disk_offset,
                offset_valid(old(self).max_disk_offset, offset + len - 1),
                len == data@.len(),
                offset + len <= usize::MAX,
                data_pos <= len,
                current_offset == offset + data_pos,
                0 < data_pos < len ==> current_offset % 512 == 0,
                forall|p: int|
                    0 <= p < data_pos ==> match #[trigger] cached_byte(self.cache.sectors(), offset as int, p) {
                        Some(b) => b == data@[p],
                        None => true,
                    },
                forall|s: usize|
                    #[trigger] self.cache.sectors().contains_key(s) && !(s * 512 < offset + data_pos && offset < s
                        * 512 + 512) ==> old(self).cache.sectors().contains_key(s) && self.cache.sectors()[s]
                        == old(self).cache.sectors()[s],
            decreases len - data_pos,
        {
            let (sector_idx, sector_offset, bytes_in_sector) = sector_piece(current_offset, len - data_pos);
            proof {
                vstd::arithmetic::div_mod::lemma_fundamental_div_mod(current_offset as int, 512);
            }
            let mut sector: [u8; 512] = [0u8; 512];
            if sector_offset != 0 || bytes_in_sector != SECTOR_SIZE {
                match self.cache.get(sector_idx) {
                    Some(c) => {
                        sector = *c;
                    },
                    None => {
                        if !self.dev.read_sector(sector_idx, &mut sector) {
                            return false;
                        }
                    },
                }
            }
            patch_sector(&mut sector, sector_offset, data, data_pos, bytes_in_sector);
            if !self.dev.write_sector(sector_idx, &sector) {
                return false;
            }
            let ghost before = self.cache.sectors();
            self.cache.insert(sector_idx, sector);
            proof {
                let after = self.cache.sectors();
                assert forall|p: int| 0 <= p < data_pos + bytes_in_sector implies match #[trigger] cached_byte(
                    after,
                    offset as int,
                    p,
                ) {
                    Some(b) => b == data@[p],
                    None => true,
                } by {
                    if p < data_pos {
                        assert(offset + p < sector_idx * 512);
                        assert((offset + p) / 512 < sector_idx) by {
                            vstd::arithmetic::div_mod::lemma_fundamental_div_mod((offset + p) as int, 512);
                        }
                        let sp = ((offset + p) / 512) as usize;
                        if after.contains_key(sp) {
                            assert(before.contains_key(sp) && after[sp] == before[sp]);
                            assert(match cached_byte(before, offset as int, p) {
                                Some(b) => b == data@[p],
                                None => true,
                            });
                        }
                    } else {
                        let q = p - data_pos;
                        lemma_in_sector(current_offset as int, sector_idx as int, sector_offset as int, q);
                        assert(sector@[sector_offset + q] == data@[data_pos + q]);
                    }
                }
                assert forall|s: usize|
                    #[trigger] after.contains_key(s) && !(s * 512 < offset + data_pos + bytes_in_sector && offset
                        < s * 512 + 512) implies old(self).cache.sectors().contains_key(s) && after[s]
                    == old(self).cache.sectors()[s] by {
                    assert(s != sector_idx);
                    assert(before.contains_key(s) && after[s] == before[s]);
                }
                if data_pos + bytes_in_sector < len {
                    vstd::arithmetic::div_mod::lemma_fundamental_div_mod_converse(
                        current_offset + bytes_in_sector,
                        512,
                        sector_idx + 1,
                        0,
                    );
                }
            }
            data_pos = data_pos + bytes_in_sector;
            current_offset = current_offset + bytes_in_sector;
        }
        true
    }
}

// ─── The mounted ext4 volume ────────────────────────────────────────────

/// Inode number of the ext4 root directory.
pub const EXT4_ROOT_INODE: u64 = 2;

/// Files larger than this are not read whole (an empty file is given).
pub const READ_WHOLE_LIMIT: usize = 16 * 1024 * 1024;

pub const EXT4_NOT_INITIALIZED: &'static str = "ext4 not initialized";

/// `path` split at its last '/': what comes before and after it; with no
/// '/', an empty parent.
pub open spec fn split_last(path: Seq<char>) -> (Seq<char>, Seq<char>) {
    match last_slash(path) {
        Some(k) => (path.take(k), path.skip(k + 1)),
        None => (Seq::empty(), path),
    }
}

pub fn split_last_component(path: &str) -> (r: (String, String))
    ensures
        r.0@ == split_last(path@).0,
        r.1@ == split_last(path@).1,
{
    let n = path.unicode_len();
    let pc = chars_of(path);
    let mut k: usize = n;
    while k > 0
        invariant
            k <= n,
            n == path@.len(),
            pc@ == path@,
            forall|j: int| k <= j < n ==> path@[j] != '/',
        ensures
            k <= n,
            forall|j: int| k <= j < n ==> path@[j] != '/',
            k == 0 || path@[k - 1] == '/',
        decreases k,
    {
        if pc[k - 1] == '/' {
            break;
        }
        k = k - 1;
    }
    proof {
        lemma_last_slash(path@);
    }
    if k == 0 {
        proof {
            if last_slash(path@) is Some {
                let j = last_slash(path@)->0;
                assert(path@[j] == '/');
            }
        }
        let whole = substring(path, 0, n);
        assert(whole@ =~= path@);
        return (String::new(), whole);
    }
    let pos = k - 1;
    proof {
        let ls = last_slash(path@);
        if ls is None {
            assert(path@[pos as int] == '/');
        } else {
            let j = ls->0;
            if j < pos {
                assert(path@[pos as int] == '/');
            } else if j > pos {
                assert(path@[j] == '/');
            }
        }
    }
    let parent = substring(path, 0, pos);
    let name = substring(path, pos + 1, n);
    assert(parent@ =~= path@.take(pos as int));
    assert(name@ =~= path@.skip(pos + 1));
    (parent, name)
}

/// The inode of the parent directory of `path` (its part before the last
/// '/', the root when empty), when the lookup of a non-empty parent works.
pub open spec fn parent_inode<F: FileSystem>(fs: &F, path: Seq<char>) -> u64 {
    let parent = split_last(path).0;
    if parent.len() == 0 {
        EXT4_ROOT_INODE
    } else {
        match fs.lookup_spec(EXT4_ROOT_INODE, parent) {
            Ok(p) => p,
            Err(_) => 0,
        }
    }
}

/// An entry name that a listing leaves out: "." or "..".
pub open spec fn is_dot_name(name: Seq<char>) -> bool {
    name == seq!['.'] || name == seq!['.', '.']
}

fn is_dot_entry(name: &String) -> (r: bool)
    ensures
        r == is_dot_name(name@),
{
    let s = name.as_str();
    let n = s.unicode_len();
    if n == 1 {
        let r = s.get_char(0) == '.';
        proof {
            if r {
                assert(name@ =~= seq!['.']);
            }
        }
        r
    } else if n == 2 {
        let r = s.get_char(0) == '.' && s.get_char(1) == '.';
        proof {
            if r {
                assert(name@ =~= seq!['.', '.']);
            }
        }
        r
    } else {
        false
    }
}

/// The listing of directory `dir` from entry `idx` on: each entry's name
/// and size, without "." and "..", up to the first index where `readdir`
/// gives no entry or fails.
pub open spec fn listing_from<F: FileSystem>(fs: &F, dir: u64, idx: int) -> Seq<(Seq<char>, usize)>
    decreases usize::MAX - idx,
{
    if idx < 0 || idx >= usize::MAX {
        Seq::empty()
    } else {
        match fs.readdir_spec(dir, idx as usize) {
            Ok(Some((name, _t, size))) => {
                let rest = listing_from(fs, dir, idx + 1);
                if is_dot_name(name) { rest } else { seq![(name, size)] + rest }
            },
            _ => Seq::empty(),
        }
    }
}

/// Reads one file of an ext4 volume at any offset (see
/// `Ext4Volume::read_file_range`).
#[derive(Clone, Copy)]
pub struct RangeReader {
    pub inode: u64,
}

impl RangeReader {
    /// Reads the file at `offset` into `buf`: the bytes read, or `Err`
    /// when the volume is gone or the read fails.
    pub fn read<F: FileSystem>(&self, vol: &Ext4Volume<F>, offset: usize, buf: &mut [u8]) -> (r: Result<usize, ()>)
        requires
            offset + old(buf)@.len() <= usize::MAX,
        ensures
            final(buf)@.len() == old(buf)@.len(),
            vol.fs is None ==> r is Err && final(buf)@ == old(buf)@,
            vol.fs matches Some(fs) ==> match fs.read_spec(self.inode, offset, old(buf)@.len()) {
                Ok(got) => r == Ok::<usize, ()>(got.len() as usize) && final(buf)@ == got + old(buf)@.skip(
                    got.len() as int,
                ),
                Err(_) => r is Err && final(buf)@ == old(buf)@,
            },
    {
        match &vol.fs {
            None => Err(()),
            Some(fs) => match fs.read_file(self.inode, offset, buf) {
                Ok(n) => Ok(n),
                Err(_) => Err(()),
            },
        }
    }
}

/// The ext4 volume, once a file system has been found on the disk.
pub struct Ext4Volume<F> {
    pub fs: Option<F>,
}

impl<F: FileSystem> Ext4Volume<F> {
    /// No volume yet.
    pub fn new() -> (r: Self)
        ensures
            r.fs is None,
    {
        Ext4Volume { fs: None }
    }

    /// Takes the outcome of opening the disk: the file system, or why none
    /// was found.
    pub fn init(&mut self, opened: Result<F, &'static str>) -> (r: Result<(), &'static str>)
        ensures
            match opened {
                Ok(fs) => r is Ok && final(self).fs == Some(fs),
                Err(e) => r == Err::<(), &'static str>(e) && final(self).fs == old(self).fs,
            },
    {
        match opened {
            Ok(fs) => {
                self.fs = Some(fs);
                Ok(())
            },
            Err(e) => Err(e),
        }
    }

    pub fn has_ext4(&self) -> (r: bool)
        ensures
            r == self.fs is Some,
    {
        self.fs.is_some()
    }

    /// The inode at `name`, from the root.
    pub fn lookup_path(&self, name: &str) -> (r: Option<u64>)
        ensures
            match self.fs {
                None => r is None,
                Some(fs) => match fs.lookup_spec(EXT4_ROOT_INODE, name@) {
                    Ok(i) => r == Some(i),
                    Err(_) => r is None,
                },
            },
    {
        match &self.fs {
            None => None,
            Some(fs) => match fs.lookup(EXT4_ROOT_INODE, name) {
                Ok(i) => Some(i),
                Err(_) => None,
            },
        }
    }

    pub fn metadata_of(&self, inode: u64) -> (r: Option<VfsMetadata>)
        ensures
            match self.fs {
                None => r is None,
                Some(fs) => match fs.metadata_spec(inode) {
                    Ok((t, n, name)) => r matches Some(md) && md.file_type == t && md.size == n && md.name@ == name,
                    Err(_) => r is None,
                },
            },
    {
        match &self.fs {
            None => None,
            Some(fs) => match fs.metadata(inode) {
                Ok(md) => Some(md),
                Err(_) => None,
            },
        }
    }

    /// Size of file `inode`.
    pub fn file_size(&self, inode: u32) -> (r: Result<usize, &'static str>)
        ensures
            match self.fs {
                None => r == Err::<usize, &'static str>(EXT4_NOT_INITIALIZED),
                Some(fs) => match fs.metadata_spec(inode as u64) {
                    Ok((_t, n, _name)) => r == Ok::<usize, &'static str>(n),
                    Err(_) => r == Err::<usize, &'static str>("ext4 metadata failed"),
                },
            },
    {
        match &self.fs {
            None => Err(EXT4_NOT_INITIALIZED),
            Some(fs) => match fs.metadata(inode as u64) {
                Ok(md) => Ok(md.size),
                Err(_) => Err("ext4 metadata failed"),
            },
        }
    }

    /// The whole of file `name`: `None` when it is not there or cannot be
    /// read, empty when it is empty or larger than `READ_WHOLE_LIMIT`.
    pub fn read_file(&self, name: &str) -> (r: Option<Vec<u8>>)
        ensures
            match self.fs {
                None => r is None,
                Some(fs) => match fs.lookup_spec(EXT4_ROOT_INODE, name@) {
                    Err(_) => r is None,
                    Ok(inode) => match fs.metadata_spec(inode) {
                        Err(_) => r is None,
                        Ok((_t, size, _n)) => if size == 0 || size > READ_WHOLE_LIMIT {
                            r matches Some(v) && v@.len() == 0
                        } else {
                            &&& r matches Some(v) ==> v@.len() <= size
                            &&& match fs.read_spec(inode, 0, size as nat) {
                                Ok(got) => r matches Some(v) && v@ == got,
                                Err(_) => r is None,
                            }
                        },
                    },
                },
            },
    {
        let fs = match &self.fs {
            None => return None,
            Some(fs) => fs,
        };
        let inode = match fs.lookup(EXT4_ROOT_INODE, name) {
            Ok(i) => i,
            Err(_) => return None,
        };
        let md = match fs.metadata(inode) {
            Ok(md) => md,
            Err(_) => return None,
        };
        let size = md.size;
        if size == 0 || size > READ_WHOLE_LIMIT {
            return Some(Vec::new());
        }
        let mut buf: Vec<u8> = Vec::new();
        while buf.len() < size
            invariant
                buf.len() <= size,
            decreases size - buf.len(),
        {
            buf.push(0);
        }
        let ghost zeros = buf@;
        let n = match fs.read_file(inode, 0, buf.as_mut_slice()) {
            Ok(n) => n,
            Err(_) => return None,
        };
        let ghost filled = buf@;
        buf.truncate(n);
        proof {
            if let Ok(got) = fs.read_spec(inode, 0, size as nat) {
                assert(filled == got + zeros.skip(got.len() as int));
                assert(buf@ =~= got);
            }
        }
        Some(buf)
    }

    /// The entries of directory `path` (the root when empty): names and
    /// sizes, without "." and "..".
    pub fn list_directory(&self, path: &str) -> (r: Vec<(String, usize)>)
        ensures
            ({
                let want = match self.fs {
                    None => Seq::empty(),
                    Some(fs) => if path@.len() == 0 {
                        listing_from(&fs, EXT4_ROOT_INODE, 0)
                    } else {
                        match fs.lookup_spec(EXT4_ROOT_INODE, path@) {
                            Ok(d) => listing_from(&fs, d, 0),
                            Err(_) => Seq::empty(),
                        }
                    },
                };
                &&& r@.len() == want.len()
                &&& forall|i: int| 0 <= i < want.len() ==> (#[trigger] r@[i]).0@ == want[i].0 && r@[i].1 == want[i].1
            }),
    {
        let mut result: Vec<(String, usize)> = Vec::new();
        let fs = match &self.fs {
            None => return result,
            Some(fs) => fs,
        };
        let dir = if path.unicode_len() == 0 {
            EXT4_ROOT_INODE
        } else {
            match fs.lookup(EXT4_ROOT_INODE, path) {
                Ok(d) => d,
                Err(_) => return result,
            }
        };
        let ghost want = listing_from(fs, dir, 0);
        let mut idx: usize = 0;
        loop
            invariant
                want == listing_from(fs, dir, 0),
                ({
                    let done = want.subrange(0, result@.len() as int);
                    &&& result@.len() <= want.len()
                    &&& want.subrange(result@.len() as int, want.len() as int) == listing_from(fs, dir, idx as int)
                    &&& forall|i: int| 0 <= i < result@.len() ==> (#[trigger] result@[i]).0@ == want[i].0 && result@[i].1 == want[i].1
                }),
            ensures
                result@.len() == want.len(),
                forall|i: int| 0 <= i < want.len() ==> (#[trigger] result@[i]).0@ == want[i].0 && result@[i].1 == want[i].1,
            decreases usize::MAX - idx,
        {
            if idx == usize::MAX {
                proof {
                    assert(want.subrange(result@.len() as int, want.len() as int).len() == 0);
                }
                break;
            }
            let ghost before = result@;
            let ghost k = before.len() as int;
            let r = fs.readdir(dir, idx);
            proof {
                assert(want.subrange(k, want.len() as int) == listing_from(fs, dir, idx as int));
            }
            match r {
                Ok(Some(entry)) => {
                    let ghost name = entry.name@;
                    let ghost size = entry.size;
                    let dot = is_dot_entry(&entry.name);
                    proof {
                        let rest = listing_from(fs, dir, idx + 1);
                        let tail = want.subrange(k, want.len() as int);
                        if dot {
                            assert(tail == rest);
                        } else {
                            assert(tail == seq![(name, size)] + rest);
                            assert(tail[0] == (name, size));
                            assert(want[k] == tail[0]);
                            assert(want.subrange(k + 1, want.len() as int) =~= tail.subrange(1, tail.len() as int));
                            assert(tail.subrange(1, tail.len() as int) =~= rest);
                        }
                    }
                    if !dot {
                        result.push((entry.name, entry.size));
                        proof {
                            assert forall|i: int| 0 <= i < result@.len() implies (#[trigger] result@[i]).0@ == want[i].0
                                && result@[i].1 == want[i].1 by {
                                if i < k {
                                    assert(result@[i] == before[i]);
                                }
                            }
                        }
                    }
                    idx = idx + 1;
                },
                _ => {
                    proof {
                        assert(listing_from(fs, dir, idx as int).len() == 0);
                        assert(want.subrange(k, want.len() as int).len() == 0);
                    }
                    break;
                },
            }
        }
        result
    }
}

impl<F: FileSystem> Ext4Volume<F> {
    /// Writes `data` at offset 0 of file `name`, creating it in its parent
    /// directory when it is not there.
    pub fn write_file(&mut self, name: &str, data: &[u8]) -> (r: Result<(), &'static str>)
        ensures
            match old(self).fs {
                None => r == Err::<(), &'static str>(EXT4_NOT_INITIALIZED),
                Some(fs) => {
                    let found = fs.lookup_spec(EXT4_ROOT_INODE, name@);
                    let parent = split_last(name@).0;
                    if found matches Ok(i) && i != 0 {
                        r == match fs.write_spec(found->Ok_0, 0, data@) {
                            Ok(_) => Ok::<(), &'static str>(()),
                            Err(_) => Err::<(), &'static str>("ext4 write failed"),
                        }
                    } else if parent.len() != 0 && fs.lookup_spec(EXT4_ROOT_INODE, parent) is Err {
                        r == Err::<(), &'static str>("ext4: parent directory not found")
                    } else {
                        &&& r is Err ==> (r->Err_0 == "ext4 create failed" || r->Err_0 == "ext4 write failed")
                        &&& fs.fs_inv() ==> (fs.create_spec(parent_inode(&fs, name@), split_last(name@).1, false) is Err
                            <==> r == Err::<(), &'static str>("ext4 create failed"))
                    }
                },
            },
    {
        let fs = match &mut self.fs {
            None => return Err(EXT4_NOT_INITIALIZED),
            Some(fs) => fs,
        };
        let _len = data.len();
        let inode = match fs.lookup(EXT4_ROOT_INODE, name) {
            Ok(i) => i,
            Err(_) => 0,
        };
        if inode != 0 {
            match fs.write_file(inode, 0, data) {
                Ok(_) => Ok(()),
                Err(_) => Err("ext4 write failed"),
            }
        } else {
            let (parent_path, file_name) = split_last_component(name);
            let parent_inode = if parent_path.as_str().unicode_len() == 0 {
                EXT4_ROOT_INODE
            } else {
                match fs.lookup(EXT4_ROOT_INODE, parent_path.as_str()) {
                    Ok(p) => p,
                    Err(_) => return Err("ext4: parent directory not found"),
                }
            };
            let inode = match fs.create_file(parent_inode, file_name.as_str()) {
                Ok(i) => i,
                Err(_) => return Err("ext4 create failed"),
            };
            match fs.write_file(inode, 0, data) {
                Ok(_) => Ok(()),
                Err(_) => Err("ext4 write failed"),
            }
        }
    }

    /// Creates directory `path` and, first, any missing parent; a path
    /// that is already there is left as it is.
    pub fn create_directory(&mut self, path: &str) -> (r: Result<(), &'static str>)
        ensures
            match old(self).fs {
                None => r == Err::<(), &'static str>(EXT4_NOT_INITIALIZED),
                Some(fs) => {
                    let parent = split_last(path@).0;
                    if fs.lookup_spec(EXT4_ROOT_INODE, path@) is Ok {
                        r is Ok && final(self).fs == old(self).fs
                    } else if parent.len() == 0 || fs.lookup_spec(EXT4_ROOT_INODE, parent) is Ok {
                        fs.fs_inv() ==> match fs.create_spec(parent_inode(&fs, path@), split_last(path@).1, true) {
                            Ok(_) => r is Ok,
                            Err(_) => r == Err::<(), &'static str>("ext4 create_dir failed"),
                        }
                    } else {
                        true
                    }
                },
            },
            final(self).fs is Some == old(self).fs is Some,
        decreases path@.len(),
    {
        match &self.fs {
            None => return Err(EXT4_NOT_INITIALIZED),
            Some(fs) => {
                if fs.lookup(EXT4_ROOT_INODE, path).is_ok() {
                    return Ok(());
                }
            },
        }
        let (parent_path, dir_name) = split_last_component(path);
        proof {
            lemma_last_slash(path@);
        }
        if parent_path.as_str().unicode_len() != 0 {
            let parent_exists = match &self.fs {
                Some(fs) => fs.lookup(EXT4_ROOT_INODE, parent_path.as_str()).is_ok(),
                None => false,
            };
            if !parent_exists {
                let r = self.create_directory(parent_path.as_str());
                if r.is_err() {
                    return r;
                }
            }
        }
        let fs = match &mut self.fs {
            None => return Err(EXT4_NOT_INITIALIZED),
            Some(fs) => fs,
        };
        let parent_inode = if parent_path.as_str().unicode_len() == 0 {
            EXT4_ROOT_INODE
        } else {
            match fs.lookup(EXT4_ROOT_INODE, parent_path.as_str()) {
                Ok(p) => p,
                Err(_) => return Err("parent not found"),
            }
        };
        match fs.create_dir(parent_inode, dir_name.as_str()) {
            Ok(_) => Ok(()),
            Err(_) => Err("ext4 create_dir failed"),
        }
    }

    /// Removes file `name` from its parent directory.
    pub fn delete_file(&mut self, name: &str) -> (r: Result<(), &'static str>)
        ensures
            match old(self).fs {
                None => r == Err::<(), &'static str>(EXT4_NOT_INITIALIZED),
                Some(fs) => {
                    let parent = split_last(name@).0;
                    if parent.len() != 0 && fs.lookup_spec(EXT4_ROOT_INODE, parent) is Err {
                        r == Err::<(), &'static str>("ext4: parent directory not found")
                    } else {
                        &&& r is Err ==> r->Err_0 == "ext4 unlink failed"
                        &&& fs.fs_inv() ==> (r is Ok <==> fs.unlink_spec(parent_inode(&fs, name@), split_last(name@).1) is Ok)
                    }
                },
            },
    {
        let fs = match &mut self.fs {
            None => return Err(EXT4_NOT_INITIALIZED),
            Some(fs) => fs,
        };
        let (parent_path, file_name) = split_last_component(name);
        let parent_inode = if parent_path.as_str().unicode_len() == 0 {
            EXT4_ROOT_INODE
        } else {
            match fs.lookup(EXT4_ROOT_INODE, parent_path.as_str()) {
                Ok(p) => p,
                Err(_) => return Err("ext4: parent directory not found"),
            }
        };
        match fs.unlink(parent_inode, file_name.as_str()) {
            Ok(()) => Ok(()),
            Err(_) => Err("ext4 unlink failed"),
        }
    }

    /// A reader of the file at `name` (from the root) at any offset: `None`
    /// without a volume or when the name is not found.
    pub fn read_file_range(&self, name: &str) -> (r: Option<RangeReader>)
        ensures
            match self.fs {
                None => r is None,
                Some(fs) => match fs.lookup_spec(EXT4_ROOT_INODE, name@) {
                    Ok(i) => r == Some(RangeReader { inode: i }),
                    Err(_) => r is None,
                },
            },
    {
        match self.lookup_path(name) {
            Some(inode) => Some(RangeReader { inode }),
            None => None,
        }
    }

    /// Reads file `inode` at `offset` into `buf`.
    pub fn read_file_at_offset(&self, inode: u32, offset: usize, buf: &mut [u8]) -> (r: Result<usize, &'static str>)
        requires
            offset + old(buf)@.len() <= usize::MAX,
        ensures
            self.fs is None ==> r == Err::<usize, &'static str>(EXT4_NOT_INITIALIZED),
            self.fs is Some ==> match r {
                Ok(n) => n <= old(buf)@.len(),
                Err(e) => e == "ext4 read_at failed",
            },
            final(buf)@.len() == old(buf)@.len(),
            self.fs matches Some(fs) ==> match fs.read_spec(inode as u64, offset, old(buf)@.len()) {
                Ok(got) => r == Ok::<usize, &'static str>(got.len() as usize) && final(buf)@ == got + old(
                    buf,
                )@.skip(got.len() as int),
                Err(_) => r == Err::<usize, &'static str>("ext4 read_at failed") && final(buf)@ == old(buf)@,
            },
    {
        match &self.fs {
            None => Err(EXT4_NOT_INITIALIZED),
            Some(fs) => match fs.read_file(inode as u64, offset, buf) {
                Ok(n) => Ok(n),
                Err(_) => Err("ext4 read_at failed"),
            },
        }
    }

    /// Writes `data` to file `inode` at `offset`.
    pub fn write_file_at_offset(&mut self, inode: u32, offset: usize, data: &[u8]) -> (r: Result<usize, &'static str>)
        requires
            offset + data@.len() <= usize::MAX,
        ensures
            old(self).fs is None ==> r == Err::<usize, &'static str>(EXT4_NOT_INITIALIZED),
            old(self).fs is Some ==> match r {
                Ok(n) => n <= data@.len(),
                Err(e) => e == "ext4 write_at failed",
            },
            old(self).fs matches Some(fs) ==> r == match fs.write_spec(inode as u64, offset, data@) {
                Ok(n) => Ok::<usize, &'static str>(n),
                Err(_) => Err::<usize, &'static str>("ext4 write_at failed"),
            },
    {
        match &mut self.fs {
            None => Err(EXT4_NOT_INITIALIZED),
            Some(fs) => match fs.write_file(inode as u64, offset, data) {
                Ok(n) => Ok(n),
                Err(_) => Err("ext4 write_at failed"),
            },
        }
    }

    /// Truncates file `inode` to 0 bytes.
    pub fn truncate_file(&mut self, inode: u32) -> (r: Result<(), &'static str>)
        ensures
            old(self).fs is None ==> r == Err::<(), &'static str>(EXT4_NOT_INITIALIZED),
            old(self).fs is Some ==> (r is Err ==> r->Err_0 == "ext4 truncate failed"),
            match old(self).fs {
                Some(fs) => fs.fs_inv() ==> (r is Ok <==> fs.set_size_spec(inode as u64, 0) is Ok),
                None => true,
            },
    {
        match &mut self.fs {
            None => Err(EXT4_NOT_INITIALIZED),
            Some(fs) => match fs.set_file_size(inode as u64, 0) {
                Ok(()) => Ok(()),
                Err(_) => Err("ext4 truncate failed"),
            },
        }
    }
}

} // verus!
