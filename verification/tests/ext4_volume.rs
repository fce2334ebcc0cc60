use karte::driver::ext4::{split_last_component, Ext4Volume, EXT4_NOT_INITIALIZED, EXT4_ROOT_INODE};
use karte::driver::ramfs::{RamFileSystem, ROOT_INODE};
use karte::driver::vfs::VfsFileType;

/// A RAM file system whose inode 2 is a directory standing for the ext4
/// root.
fn volume() -> Ext4Volume<RamFileSystem> {
    let mut fs = RamFileSystem::new();
    assert_eq!(fs.create_node(ROOT_INODE, "vol", true), Ok(EXT4_ROOT_INODE));
    let mut v = Ext4Volume::new();
    assert!(v.init(Ok(fs)).is_ok());
    v
}

fn split(p: &str) -> (String, String) {
    split_last_component(p)
}

#[test]
fn split_at_the_last_slash() {
    assert_eq!(split("a/b/c"), ("a/b".to_string(), "c".to_string()));
    assert_eq!(split("file"), (String::new(), "file".to_string()));
    assert_eq!(split("/x"), (String::new(), "x".to_string()));
    assert_eq!(split("dir/"), ("dir".to_string(), String::new()));
    assert_eq!(split(""), (String::new(), String::new()));
}

#[test]
fn without_a_volume_everything_reports_it() {
    let mut v: Ext4Volume<RamFileSystem> = Ext4Volume::new();
    assert!(!v.has_ext4());
    assert!(v.read_file("a").is_none());
    assert!(v.lookup_path("a").is_none());
    assert!(v.metadata_of(2).is_none());
    assert!(v.list_directory("").is_empty());
    assert_eq!(v.write_file("a", b"x"), Err(EXT4_NOT_INITIALIZED));
    assert_eq!(v.create_directory("d"), Err(EXT4_NOT_INITIALIZED));
    assert_eq!(v.delete_file("a"), Err(EXT4_NOT_INITIALIZED));
    assert_eq!(v.file_size(2), Err(EXT4_NOT_INITIALIZED));
    assert_eq!(v.truncate_file(2), Err(EXT4_NOT_INITIALIZED));
    let mut buf = [0u8; 2];
    assert_eq!(v.read_file_at_offset(2, 0, &mut buf), Err(EXT4_NOT_INITIALIZED));
    assert_eq!(v.write_file_at_offset(2, 0, b"x"), Err(EXT4_NOT_INITIALIZED));
}

#[test]
fn a_failed_open_leaves_no_volume() {
    let mut v: Ext4Volume<RamFileSystem> = Ext4Volume::new();
    assert_eq!(v.init(Err("no valid ext4 filesystem found on block device")), Err("no valid ext4 filesystem found on block device"));
    assert!(!v.has_ext4());
}

#[test]
fn written_file_reads_back() {
    let mut v = volume();
    assert!(v.has_ext4());
    assert_eq!(v.write_file("hello", b"hi there"), Ok(()));
    assert_eq!(v.read_file("hello"), Some(b"hi there".to_vec()));
    let ino = v.lookup_path("hello").expect("created");
    assert_eq!(v.file_size(ino as u32), Ok(8));
    let md = v.metadata_of(ino).unwrap();
    assert_eq!(md.size, 8);
    assert_eq!(md.file_type, VfsFileType::File);
    // an existing file is written in place
    assert_eq!(v.write_file("hello", b"HI"), Ok(()));
    assert_eq!(v.read_file("hello"), Some(b"HI there".to_vec()));
}

#[test]
fn empty_files_read_as_empty() {
    let mut v = volume();
    assert_eq!(v.write_file("e", b""), Ok(()));
    assert_eq!(v.read_file("e"), Some(Vec::new()));
    assert_eq!(v.read_file("missing"), None);
}

#[test]
fn listing_skips_nothing_but_dot_entries() {
    let mut v = volume();
    v.write_file("a", b"1").unwrap();
    v.write_file("bb", b"22").unwrap();
    assert_eq!(v.create_directory("d"), Ok(()));
    assert_eq!(
        v.list_directory(""),
        vec![("a".to_string(), 1), ("bb".to_string(), 2), ("d".to_string(), 0)]
    );
    assert!(v.list_directory("nope").is_empty());
}

#[test]
fn create_directory_makes_missing_parents() {
    let mut v = volume();
    assert_eq!(v.create_directory("a/b"), Ok(()));
    assert!(v.lookup_path("a").is_some());
    assert_eq!(v.list_directory("a"), vec![("b".to_string(), 0)]);
    // already there: nothing to do
    assert_eq!(v.create_directory("a"), Ok(()));
    assert_eq!(v.list_directory(""), vec![("a".to_string(), 0)]);
}

#[test]
fn files_go_into_their_parent_directory() {
    let mut v = volume();
    v.create_directory("d").unwrap();
    assert_eq!(v.write_file("d/f", b"x"), Ok(()));
    assert_eq!(v.list_directory("d"), vec![("f".to_string(), 1)]);
    assert_eq!(v.write_file("nodir/f", b"x"), Err("ext4: parent directory not found"));
    assert_eq!(v.delete_file("nodir/f"), Err("ext4: parent directory not found"));
}

#[test]
fn delete_and_truncate() {
    let mut v = volume();
    v.write_file("f", b"abc").unwrap();
    let ino = v.lookup_path("f").unwrap() as u32;
    assert_eq!(v.truncate_file(ino), Ok(()));
    assert_eq!(v.file_size(ino), Ok(0));
    assert_eq!(v.delete_file("f"), Ok(()));
    assert!(v.lookup_path("f").is_none());
    assert_eq!(v.delete_file("f"), Err("ext4 unlink failed"));
}

#[test]
fn reads_and_writes_at_offsets() {
    let mut v = volume();
    v.write_file("f", b"abcdef").unwrap();
    let ino = v.lookup_path("f").unwrap() as u32;
    assert_eq!(v.write_file_at_offset(ino, 2, b"XY"), Ok(2));
    let mut buf = [0u8; 4];
    assert_eq!(v.read_file_at_offset(ino, 1, &mut buf), Ok(4));
    assert_eq!(&buf, b"bXYe");
    assert_eq!(v.file_size(99), Err("ext4 metadata failed"));
}

#[test]
fn read_file_range_reads_at_offsets() {
    let mut v = volume();
    assert!(v.write_file("log", b"hello world").is_ok());
    assert!(v.read_file_range("missing").is_none());
    let reader = v.read_file_range("log").unwrap();
    assert_eq!(Some(reader.inode), v.lookup_path("log"));
    let mut buf = [0u8; 5];
    assert_eq!(reader.read(&v, 6, &mut buf), Ok(5));
    assert_eq!(&buf, b"world");
    let mut tail = [9u8; 4];
    assert_eq!(reader.read(&v, 9, &mut tail), Ok(2));
    assert_eq!(&tail, &[b'l', b'd', 9, 9]);
    let none: Ext4Volume<RamFileSystem> = Ext4Volume::new();
    assert!(none.read_file_range("log").is_none());
    assert_eq!(reader.read(&none, 0, &mut buf), Err(()));
}
