//! FAT32 storage: a byte stream with a position over the sectors of a
//! block device, which is what the FAT driver reads and writes through.
//! The FAT volume itself is only provided on RISC-V; elsewhere the file
//! operations report that it is not there.
use vstd::prelude::*;

use crate::driver::ext4::{copy_from_sector, patch_sector, sector_piece, SectorDevice};

verus! {

/// Bytes per sector.
pub const FAT_SECTOR_SIZE: u64 = 512;

pub const FAT32_UNAVAILABLE: &'static str = "FAT32 not available on x86_64";

/// Why a storage operation failed.
#[derive(Clone, Copy, Debug)]
pub struct StorageError(pub &'static str);

/// Where a seek is measured from.
#[derive(Clone, Copy, Debug, PartialEq, Eq, Structural)]
pub enum SeekFrom {
    Start(u64),
    End(i64),
    Current(i64),
}

/// The position after a seek, or `None` for one before the start.
pub open spec fn seek_target(position: u64, capacity: u64, pos: SeekFrom) -> Option<u64> {
    match pos {
        SeekFrom::Start(o) => Some(o),
        SeekFrom::End(o) => if (capacity as i64) + o < 0 { None } else { Some(((capacity as i64) + o) as u64) },
        SeekFrom::Current(o) => if (position as i64) + o < 0 { None } else { Some(((position as i64) + o) as u64) },
    }
}

/// The byte stream over device `dev`: `capacity_bytes` long, read and
/// written from `position`.
pub struct Fat32Storage<D> {
    pub dev: D,
    pub position: u64,
    pub capacity_bytes: u64,
}

impl<D: SectorDevice> Fat32Storage<D> {
    /// A stream at position 0 over a device of `sectors` sectors.
    pub fn new(dev: D, sectors: u64) -> (r: Self)
        requires
            sectors * 512 <= u64::MAX,
        ensures
            r.position == 0,
            r.capacity_bytes == sectors * 512,
    {
        Fat32Storage { dev, position: 0, capacity_bytes: sectors * FAT_SECTOR_SIZE }
    }

    /// Fills `buf` from the position on, sector by sector, and moves the
    /// position past it; nothing at or past the end of the device.
    pub fn read(&mut self, buf: &mut [u8]) -> (r: Result<usize, StorageError>)
        requires
            old(self).position + old(buf)@.len() + 512 <= u64::MAX,
            old(self).position / 512 + old(buf)@.len() / 512 + 2 <= usize::MAX,
            old(buf)@.len() + 512 <= usize::MAX,
        ensures
            final(buf)@.len() == old(buf)@.len(),
            old(buf)@.len() == 0 || old(self).position >= old(self).capacity_bytes ==> r == Ok::<usize, StorageError>(0)
                && final(self).position == old(self).position,
            old(buf)@.len() > 0 && old(self).position < old(self).capacity_bytes ==> (r == Ok::<usize, StorageError>(
                old(buf)@.len() as usize,
            ) && final(self).position == old(self).position + old(buf)@.len()) || (r == Err::<usize, StorageError>(
                StorageError("read failed"),
            ) && final(self).position == old(self).position),
            final(self).capacity_bytes == old(self).capacity_bytes,
    {
        let len = buf.len();
        if len == 0 {
            return Ok(0);
        }
        if self.position >= self.capacity_bytes {
            return Ok(0);
        }
        let base_sector = (self.position / FAT_SECTOR_SIZE) as usize;
        let first = (self.position % FAT_SECTOR_SIZE) as usize;
        let mut sector_buf = [0u8; 512];
        let mut total: usize = 0;
        while total < len
            invariant
                total <= len == buf@.len(),
                len == old(buf)@.len(),
                len > 0,
                old(self).position < old(self).capacity_bytes,
                len + 512 <= usize::MAX,
                first < 512,
                base_sector == old(self).position / 512,
                old(self).position / 512 + len / 512 + 2 <= usize::MAX,
                self.position == old(self).position,
                self.capacity_bytes == old(self).capacity_bytes,
            decreases len - total,
        {
            let (in_stream, start, n) = sector_piece(first + total, len - total);
            let sector = base_sector + in_stream;
            if !self.dev.read_sector(sector, &mut sector_buf) {
                return Err(StorageError("read failed"));
            }
            copy_from_sector(buf, total, &sector_buf, start, n);
            total = total + n;
        }
        self.position = self.position + total as u64;
        Ok(total)
    }

    /// Writes `buf` from the position on, each sector read, patched and
    /// written back, and moves the position past it; refused at or past
    /// the end of the device.
    pub fn write(&mut self, buf: &[u8]) -> (r: Result<usize, StorageError>)
        requires
            old(self).position + buf@.len() + 512 <= u64::MAX,
            old(self).position / 512 + buf@.len() / 512 + 2 <= usize::MAX,
            buf@.len() + 512 <= usize::MAX,
        ensures
            buf@.len() == 0 ==> r == Ok::<usize, StorageError>(0) && final(self).position == old(self).position,
            buf@.len() > 0 && old(self).position >= old(self).capacity_bytes ==> r == Err::<usize, StorageError>(
                StorageError("write beyond capacity"),
            ) && final(self).position == old(self).position,
            buf@.len() > 0 && old(self).position < old(self).capacity_bytes ==> (r == Ok::<usize, StorageError>(
                buf@.len() as usize,
            ) && final(self).position == old(self).position + buf@.len()) || ((r == Err::<usize, StorageError>(
                StorageError("read-modify-write: read failed"),
            ) || r == Err::<usize, StorageError>(StorageError("read-modify-write: write failed")))
                && final(self).position == old(self).position),
            final(self).capacity_bytes == old(self).capacity_bytes,
    {
        let len = buf.len();
        if len == 0 {
            return Ok(0);
        }
        if self.position >= self.capacity_bytes {
            return Err(StorageError("write beyond capacity"));
        }
        let base_sector = (self.position / FAT_SECTOR_SIZE) as usize;
        let first = (self.position % FAT_SECTOR_SIZE) as usize;
        let mut sector_buf = [0u8; 512];
        let mut total: usize = 0;
        while total < len
            invariant
                total <= len == buf@.len(),
                first < 512,
                base_sector == old(self).position / 512,
                old(self).position / 512 + len / 512 + 2 <= usize::MAX,
                len + 512 <= usize::MAX,
                self.position == old(self).position,
                self.capacity_bytes == old(self).capacity_bytes,
                self.position < self.capacity_bytes,
            decreases len - total,
        {
            let (in_stream, start, n) = sector_piece(first + total, len - total);
            let sector = base_sector + in_stream;
            if !self.dev.read_sector(sector, &mut sector_buf) {
                return Err(StorageError("read-modify-write: read failed"));
            }
            patch_sector(&mut sector_buf, start, buf, total, n);
            if !self.dev.write_sector(sector, &sector_buf) {
                return Err(StorageError("read-modify-write: write failed"));
            }
            total = total + n;
        }
        self.position = self.position + total as u64;
        Ok(total)
    }

    /// Nothing is buffered.
    pub fn flush(&mut self) -> (r: Result<(), StorageError>)
        ensures
            r is Ok,
    {
        Ok(())
    }

    /// Moves the position; a target before the start is refused and the
    /// position kept.
    pub fn seek(&mut self, pos: SeekFrom) -> (r: Result<u64, StorageError>)
        requires
            match pos {
                SeekFrom::Start(_) => true,
                SeekFrom::End(o) => i64::MIN <= (old(self).capacity_bytes as i64) + o <= i64::MAX,
                SeekFrom::Current(o) => i64::MIN <= (old(self).position as i64) + o <= i64::MAX,
            },
        ensures
            match seek_target(old(self).position, old(self).capacity_bytes, pos) {
                Some(p) => r == Ok::<u64, StorageError>(p) && final(self).position == p,
                None => r == Err::<u64, StorageError>(StorageError("seek before start")) && final(self).position
                    == old(self).position,
            },
            final(self).capacity_bytes == old(self).capacity_bytes,
    {
        let p = match pos {
            SeekFrom::Start(o) => o,
            SeekFrom::End(o) => {
                let new = self.capacity_bytes as i64 + o;
                if new < 0 {
                    return Err(StorageError("seek before start"));
                }
                new as u64
            },
            SeekFrom::Current(o) => {
                let new = self.position as i64 + o;
                if new < 0 {
                    return Err(StorageError("seek before start"));
                }
                new as u64
            },
        };
        self.position = p;
        Ok(p)
    }
}

/// The FAT volume on this platform: none, so every file operation reports
/// that, and listings are empty.
pub struct Fat32Volume {
    pub available: bool,
}

impl Fat32Volume {
    pub fn new() -> (r: Self)
        ensures
            !r.available,
    {
        Fat32Volume { available: false }
    }

    pub fn init(&mut self) -> (r: Result<(), &'static str>)
        ensures
            r == Err::<(), &'static str>("FAT32 not available on x86_64 (no block device)"),
            final(self).available == old(self).available,
    {
        Err("FAT32 not available on x86_64 (no block device)")
    }

    pub fn has_fat32(&self) -> (r: bool)
        ensures
            r == self.available,
    {
        self.available
    }

    pub fn inject_file(&mut self, name: &str, data: &[u8]) -> (r: Result<(), &'static str>)
        ensures
            r == Err::<(), &'static str>(FAT32_UNAVAILABLE),
    {
        Err(FAT32_UNAVAILABLE)
    }

    pub fn read_file(&self, name: &str) -> (r: Option<Vec<u8>>)
        ensures
            r is None,
    {
        None
    }

    pub fn write_file(&mut self, name: &str, data: &[u8]) -> (r: Result<(), &'static str>)
        ensures
            r == Err::<(), &'static str>(FAT32_UNAVAILABLE),
    {
        Err(FAT32_UNAVAILABLE)
    }

    pub fn list_root(&self) -> (r: Vec<(String, usize)>)
        ensures
            r@.len() == 0,
    {
        Vec::new()
    }

    pub fn remove_file(&mut self, name: &str) -> (r: Result<(), &'static str>)
        ensures
            r == Err::<(), &'static str>(FAT32_UNAVAILABLE),
    {
        Err(FAT32_UNAVAILABLE)
    }
}

} // verus!
