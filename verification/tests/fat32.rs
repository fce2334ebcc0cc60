use karte::driver::ext4::SectorDevice;
use karte::driver::fat32::{Fat32Storage, Fat32Volume, SeekFrom, FAT32_UNAVAILABLE};

struct MemDisk {
    sectors: Vec<[u8; 512]>,
    fail_reads: bool,
    fail_writes: bool,
}

impl SectorDevice for MemDisk {
    fn read_sector(&mut self, sector: usize, buf: &mut [u8; 512]) -> bool {
        if self.fail_reads || sector >= self.sectors.len() {
            return false;
        }
        *buf = self.sectors[sector];
        true
    }

    fn write_sector(&mut self, sector: usize, data: &[u8; 512]) -> bool {
        if self.fail_writes || sector >= self.sectors.len() {
            return false;
        }
        self.sectors[sector] = *data;
        true
    }
}

fn storage(sectors: usize) -> Fat32Storage<MemDisk> {
    let mut disk = MemDisk { sectors: vec![[0u8; 512]; sectors], fail_reads: false, fail_writes: false };
    for (i, s) in disk.sectors.iter_mut().enumerate() {
        for (j, b) in s.iter_mut().enumerate() {
            *b = ((i * 7 + j) % 251) as u8;
        }
    }
    Fat32Storage::new(disk, sectors as u64)
}

#[test]
fn capacity_is_sectors_times_512() {
    let s = storage(4);
    assert_eq!(s.capacity_bytes, 2048);
    assert_eq!(s.position, 0);
}

#[test]
fn read_crosses_sector_boundaries() {
    let mut s = storage(4);
    assert_eq!(s.seek(SeekFrom::Start(510)).ok(), Some(510));
    let mut buf = [0u8; 4];
    assert_eq!(s.read(&mut buf).unwrap(), 4);
    assert_eq!(buf, [(510 % 251) as u8, (511 % 251) as u8, (7 % 251) as u8, (8 % 251) as u8]);
    assert_eq!(s.position, 514);
}

#[test]
fn storage_write_then_read_back() {
    let mut s = storage(4);
    s.seek(SeekFrom::Start(1000)).unwrap();
    assert_eq!(s.write(b"hello, fat").unwrap(), 10);
    assert_eq!(s.position, 1010);
    assert_eq!(s.seek(SeekFrom::Current(-10)).ok(), Some(1000));
    let mut buf = [0u8; 10];
    assert_eq!(s.read(&mut buf).unwrap(), 10);
    assert_eq!(&buf, b"hello, fat");
    // bytes around the write are untouched
    s.seek(SeekFrom::Start(999)).unwrap();
    let mut one = [0u8; 1];
    s.read(&mut one).unwrap();
    assert_eq!(one[0], ((1 * 7 + 487) % 251) as u8);
}

#[test]
fn at_the_end_reads_nothing_and_writes_are_refused() {
    let mut s = storage(2);
    assert_eq!(s.seek(SeekFrom::End(0)).ok(), Some(1024));
    let mut buf = [0u8; 8];
    assert_eq!(s.read(&mut buf).unwrap(), 0);
    assert_eq!(s.write(b"x").unwrap_err().0, "write beyond capacity");
    assert_eq!(s.write(b"").unwrap(), 0);
    assert_eq!(s.read(&mut []).unwrap(), 0);
}

#[test]
fn seeking_before_the_start_is_refused() {
    let mut s = storage(2);
    assert_eq!(s.seek(SeekFrom::Start(10)).ok(), Some(10));
    assert_eq!(s.seek(SeekFrom::Current(-11)).unwrap_err().0, "seek before start");
    assert_eq!(s.position, 10);
    assert_eq!(s.seek(SeekFrom::End(-1024)).ok(), Some(0));
    assert_eq!(s.seek(SeekFrom::End(-1025)).unwrap_err().0, "seek before start");
    assert!(s.flush().is_ok());
}

#[test]
fn device_failures_are_reported() {
    let mut s = storage(2);
    s.dev.fail_reads = true;
    let mut buf = [0u8; 4];
    assert_eq!(s.read(&mut buf).unwrap_err().0, "read failed");
    assert_eq!(s.write(b"ab").unwrap_err().0, "read-modify-write: read failed");
    s.dev.fail_reads = false;
    s.dev.fail_writes = true;
    assert_eq!(s.write(b"ab").unwrap_err().0, "read-modify-write: write failed");
    assert_eq!(s.position, 0);
}

#[test]
fn no_fat_volume_on_this_platform() {
    let mut v = Fat32Volume::new();
    assert!(v.init().is_err());
    assert!(!v.has_fat32());
    assert_eq!(v.inject_file("a", b"x"), Err(FAT32_UNAVAILABLE));
    assert_eq!(v.write_file("a", b"x"), Err(FAT32_UNAVAILABLE));
    assert_eq!(v.remove_file("a"), Err(FAT32_UNAVAILABLE));
    assert!(v.read_file("a").is_none());
    assert!(v.list_root().is_empty());
}
