use karte::driver::ramfs::{RamFileSystem, ROOT_INODE};
use karte::driver::vfs::{
    close, ls, mkdir, mount, open, path_components, read, resolve_path, split_filename, stat, unlink, walk_path,
    FileSystem, OpenFileTable, VfsError, VfsFileType, VfsState, MAX_MOUNTS, MAX_OPEN_FILES, O_CREAT, O_RDONLY,
    O_RDWR, O_TRUNC, O_WRONLY,
};

fn ram_with_file() -> RamFileSystem {
    let mut fs = RamFileSystem::new();
    let ino = fs.create_file(ROOT_INODE, "hello").unwrap();
    assert_eq!(fs.write_file(ino, 0, b"hi there"), Ok(8));
    fs
}

fn mounted() -> VfsState<RamFileSystem> {
    let mut vfs: VfsState<RamFileSystem> = VfsState::new();
    assert_eq!(mount(&mut vfs, "/", ram_with_file()), Ok(()));
    vfs
}

#[test]
fn resolve_picks_longest_prefix() {
    let ps = vec!["/".to_string(), "/mnt".to_string()];
    assert_eq!(resolve_path(&ps, "/mnt/x/y"), Ok((1, "x/y".to_string())));
    assert_eq!(resolve_path(&ps, "/mnt"), Ok((1, "".to_string())));
    assert_eq!(resolve_path(&ps, "/mntx"), Ok((0, "mntx".to_string())));
    assert_eq!(resolve_path(&ps, "/a"), Ok((0, "a".to_string())));
    assert_eq!(resolve_path(&ps, ""), Err(VfsError::InvalidParam));
    let only = vec!["/mnt".to_string()];
    assert_eq!(resolve_path(&only, "/a"), Err(VfsError::NotFound));
}

#[test]
fn split_and_components() {
    assert_eq!(split_filename("a/b/c"), Ok(("a/b".to_string(), "c".to_string())));
    assert_eq!(split_filename("file"), Ok(("".to_string(), "file".to_string())));
    assert_eq!(split_filename("dir/"), Err(VfsError::InvalidParam));
    assert_eq!(split_filename(""), Err(VfsError::InvalidParam));
    assert_eq!(path_components("/a//b/"), vec!["a".to_string(), "b".to_string()]);
    assert!(path_components("/").is_empty());
}

#[test]
fn walk_path_through_directories() {
    let mut fs = RamFileSystem::new();
    let d = fs.create_dir(ROOT_INODE, "d").unwrap();
    let f = fs.create_file(d, "f").unwrap();
    assert_eq!(walk_path(&fs, "d/f"), Ok(f));
    assert_eq!(walk_path(&fs, "/d"), Ok(d));
    assert_eq!(walk_path(&fs, ""), Ok(ROOT_INODE));
    assert_eq!(walk_path(&fs, "d/g"), Err(VfsError::NotFound));
}

#[test]
fn open_read_write_close() {
    let mut vfs = mounted();
    let fd = open(&mut vfs, "/hello", O_RDONLY).unwrap();
    let mut buf = [0u8; 4];
    assert_eq!(read(&mut vfs, fd, &mut buf), Ok(4));
    assert_eq!(&buf, b"hi t");
    assert_eq!(read(&mut vfs, fd, &mut buf), Ok(4));
    assert_eq!(&buf, b"here");
    assert_eq!(read(&mut vfs, fd, &mut buf), Ok(0));
    assert_eq!(karte::driver::vfs::write(&mut vfs, fd, b"x"), Err(VfsError::PermissionDenied));
    assert!(close(&mut vfs, fd));
    assert!(!close(&mut vfs, fd));
    assert_eq!(read(&mut vfs, fd, &mut buf), Err(VfsError::InvalidParam));
}

#[test]
fn write_then_read_back() {
    let mut vfs = mounted();
    let w = open(&mut vfs, "/hello", O_WRONLY | O_TRUNC).unwrap();
    assert_eq!(karte::driver::vfs::write(&mut vfs, w, b"abc"), Ok(3));
    let mut buf = [0u8; 2];
    assert_eq!(read(&mut vfs, w, &mut buf), Ok(0));
    let wo = open(&mut vfs, "/hello", O_WRONLY).unwrap();
    assert_eq!(read(&mut vfs, wo, &mut buf), Err(VfsError::PermissionDenied));
    let r = open(&mut vfs, "/hello", O_RDWR).unwrap();
    let mut all = [0u8; 16];
    assert_eq!(read(&mut vfs, r, &mut all), Ok(3));
    assert_eq!(&all[..3], b"abc");
    assert_eq!(stat(&vfs, "/hello").unwrap().size, 3);
}

#[test]
fn open_errors() {
    let mut vfs = mounted();
    assert_eq!(open(&mut vfs, "", O_RDONLY), Err(VfsError::InvalidParam));
    assert_eq!(open(&mut vfs, "/missing", O_RDONLY), Err(VfsError::NotFound));
    assert_eq!(open(&mut vfs, "/missing", O_CREAT), Err(VfsError::NotFound));
    assert_eq!(open(&mut vfs, "/", O_CREAT), Err(VfsError::AlreadyExists));
    let mut empty: VfsState<RamFileSystem> = VfsState::new();
    assert_eq!(open(&mut empty, "/hello", O_RDONLY), Err(VfsError::NotFound));
}

#[test]
fn mkdir_stat_unlink_ls() {
    let mut vfs = mounted();
    assert_eq!(mkdir(&mut vfs, "/d"), Ok(()));
    assert!(stat(&vfs, "/d").unwrap().is_dir());
    assert_eq!(stat(&vfs, "/hello").unwrap().file_type, VfsFileType::File);
    assert_eq!(mkdir(&mut vfs, "/"), Err(VfsError::AlreadyExists));
    let mut buf = [0u8; 64];
    let n = ls(&vfs, "/", &mut buf, 64).unwrap();
    assert_eq!(&buf[..n], b"hello,d");
    let n = ls(&vfs, "/", &mut buf, 6).unwrap();
    assert_eq!(&buf[..n], b"hello");
    assert_eq!(unlink(&mut vfs, "/hello"), Ok(()));
    assert_eq!(stat(&vfs, "/hello").err(), Some(VfsError::NotFound));
    assert_eq!(unlink(&mut vfs, "/"), Err(VfsError::PermissionDenied));
}

#[test]
fn mount_table_is_bounded() {
    let mut vfs: VfsState<RamFileSystem> = VfsState::new();
    for i in 0..MAX_MOUNTS {
        assert_eq!(mount(&mut vfs, &format!("/m{}", i), RamFileSystem::new()), Ok(()));
    }
    assert_eq!(mount(&mut vfs, "/extra", RamFileSystem::new()), Err(VfsError::OutOfMemory));
}

#[test]
fn open_file_table_bounded() {
    let mut t = OpenFileTable::new();
    for i in 0..MAX_OPEN_FILES {
        assert_eq!(t.allocate(0, 1, O_RDONLY), Ok(i));
    }
    assert_eq!(t.allocate(0, 1, O_RDONLY), Err(VfsError::OutOfMemory));
    assert!(t.close(5));
    assert_eq!(t.allocate(0, 2, O_RDONLY), Ok(5));
    assert_eq!(t.get(5).unwrap().inode, 2);
    assert!(t.get(MAX_OPEN_FILES).is_none());
}
