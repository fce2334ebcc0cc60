use karte::driver::ext4::{copy_from_sector, patch_sector, sector_piece, Ext4FileDesc, KarteBlockDevice, SectorCache, SectorDevice, BLOCK_SIZE, CACHE_CAPACITY};

struct Disk {
    bytes: Vec<u8>,
    reads: usize,
    fail_reads: bool,
    fail_writes: bool,
}

impl SectorDevice for Disk {
    fn read_sector(&mut self, sector: usize, buf: &mut [u8; 512]) -> bool {
        if self.fail_reads || (sector + 1) * 512 > self.bytes.len() {
            return false;
        }
        self.reads += 1;
        buf.copy_from_slice(&self.bytes[sector * 512..(sector + 1) * 512]);
        true
    }

    fn write_sector(&mut self, sector: usize, data: &[u8; 512]) -> bool {
        if self.fail_writes || (sector + 1) * 512 > self.bytes.len() {
            return false;
        }
        self.bytes[sector * 512..(sector + 1) * 512].copy_from_slice(data);
        true
    }
}

fn disk(n: usize) -> Disk {
    Disk { bytes: (0..n).map(|i| (i % 251) as u8).collect(), reads: 0, fail_reads: false, fail_writes: false }
}

#[test]
fn cache_insert_then_get() {
    let mut c = SectorCache::new();
    assert!(c.get(3).is_none());
    c.insert(3, [7u8; 512]);
    assert_eq!(c.get(3), Some(&[7u8; 512]));
    c.insert(3, [8u8; 512]);
    assert_eq!(c.get(3), Some(&[8u8; 512]));
}

#[test]
fn cache_drops_oldest_beyond_capacity() {
    let mut c = SectorCache::new();
    for s in 0..CACHE_CAPACITY + 1 {
        c.insert(s, [s as u8; 512]);
    }
    assert!(c.get(0).is_none());
    assert_eq!(c.get(1), Some(&[1u8; 512]));
    assert_eq!(c.get(CACHE_CAPACITY), Some(&[CACHE_CAPACITY as u8; 512]));
}

#[test]
fn read_offset_reads_disk_bytes() {
    let mut d = KarteBlockDevice::new(disk(64 * 512));
    let b = d.read_offset(100);
    assert_eq!(b.len(), BLOCK_SIZE);
    assert_eq!(b[0], (100 % 251) as u8);
    assert_eq!(b[BLOCK_SIZE - 1], ((100 + BLOCK_SIZE - 1) % 251) as u8);
}

#[test]
fn read_past_disk_end_is_zero() {
    let mut d = KarteBlockDevice::new(disk(64 * 512));
    d.max_disk_offset = 8192;
    assert_eq!(d.read_offset(4097), vec![0u8; BLOCK_SIZE]);
    assert!(d.is_offset_valid(8191));
    assert!(!d.is_offset_valid(8192));
}

#[test]
fn failed_read_leaves_rest_zero() {
    let mut dev = disk(64 * 512);
    dev.fail_reads = true;
    let mut d = KarteBlockDevice::new(dev);
    assert_eq!(d.read_offset(0), vec![0u8; BLOCK_SIZE]);
}

#[test]
fn write_then_read_same_block() {
    let mut d = KarteBlockDevice::new(disk(64 * 512));
    let data: Vec<u8> = (0..BLOCK_SIZE).map(|i| (i * 7 % 256) as u8).collect();
    assert!(d.write_offset(300, &data));
    d.dev.fail_reads = true;
    assert_eq!(d.read_offset(300), data);
}

#[test]
fn partial_sector_write_keeps_neighbours() {
    let mut d = KarteBlockDevice::new(disk(16 * 512));
    assert!(d.write_offset(10, b"abc"));
    assert!(d.write_offset(13, b"de"));
    assert_eq!(&d.dev.bytes[8..17], &[8, 9, b'a', b'b', b'c', b'd', b'e', 15, 16]);
    let s0 = d.cache.get(0).unwrap();
    assert_eq!(&s0[10..15], b"abcde");
    assert_eq!(d.dev.reads, 1);
}

#[test]
fn write_errors() {
    let mut d = KarteBlockDevice::new(disk(16 * 512));
    d.max_disk_offset = 1024;
    assert!(!d.write_offset(1000, &[1u8; 30]));
    assert!(d.cache.get(1).is_none());
    d.max_disk_offset = 0;
    d.dev.fail_writes = true;
    assert!(!d.write_offset(0, &[1u8; 512]));
    assert!(d.cache.get(0).is_none());
}

#[test]
fn ext4_file_desc_fields() {
    let d = Ext4FileDesc { inode_num: 12, writable: true };
    assert_eq!(d, Ext4FileDesc { inode_num: 12, writable: true });
}

#[test]
fn sector_piece_splits_at_sector_ends() {
    assert_eq!(sector_piece(1000, 100), (1, 488, 24));
    assert_eq!(sector_piece(1024, 100), (2, 0, 100));
    assert_eq!(sector_piece(1024, 600), (2, 0, 512));
}

#[test]
fn copy_and_patch_sector_bytes() {
    let mut sec = [0u8; 512];
    for (i, b) in sec.iter_mut().enumerate() {
        *b = (i % 251) as u8;
    }
    let mut dst = vec![9u8; 8];
    copy_from_sector(&mut dst, 2, &sec, 10, 3);
    assert_eq!(dst, vec![9, 9, 10, 11, 12, 9, 9, 9]);
    let data = [1u8, 2, 3, 4, 5];
    patch_sector(&mut sec, 510, &data, 3, 2);
    assert_eq!(sec[509], (509 % 251) as u8);
    assert_eq!(sec[510], 4);
    assert_eq!(sec[511], 5);
}
