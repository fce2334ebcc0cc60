use karte::driver::ramfs::{RamFileSystem, ROOT_INODE};
use karte::driver::vfs::{FileSystem, VfsError};

static SHELL: [u8; 4] = [0x7f, b'E', b'L', b'F'];

#[test]
fn read_after_write() {
    let mut fs = RamFileSystem::new();
    let f = fs.create_file(ROOT_INODE, "a").unwrap();
    assert_eq!(fs.write_file(f, 0, b"hello"), Ok(5));
    assert_eq!(fs.write_file(f, 3, b"p!"), Ok(2));
    let mut buf = [0u8; 10];
    assert_eq!(fs.read_file(f, 0, &mut buf), Ok(5));
    assert_eq!(&buf[..5], b"help!");
    assert_eq!(fs.read_file(f, 4, &mut buf), Ok(1));
    assert_eq!(fs.read_file(f, 9, &mut buf), Ok(0));
}

#[test]
fn write_past_end_zero_fills() {
    let mut fs = RamFileSystem::new();
    let f = fs.create_file(ROOT_INODE, "a").unwrap();
    assert_eq!(fs.write_file(f, 2, b"x"), Ok(1));
    let mut buf = [9u8; 3];
    assert_eq!(fs.read_file(f, 0, &mut buf), Ok(3));
    assert_eq!(buf, [0, 0, b'x']);
}

#[test]
fn create_then_lookup() {
    let mut fs = RamFileSystem::new();
    let d = fs.create_dir(ROOT_INODE, "dir").unwrap();
    let f = fs.create_file(d, "f").unwrap();
    assert_eq!(fs.lookup(ROOT_INODE, "dir"), Ok(d));
    assert_eq!(fs.lookup(d, "f"), Ok(f));
    assert_eq!(fs.lookup(d, "g"), Err(VfsError::NotFound));
    assert_eq!(fs.create_file(d, "f"), Err(VfsError::AlreadyExists));
    assert_eq!(fs.create_file(f, "x"), Err(VfsError::NotADirectory));
    assert!(fs.metadata(d).unwrap().is_dir());
    assert_eq!(fs.metadata(f).unwrap().name, "f");
}

#[test]
fn readdir_and_unlink() {
    let mut fs = RamFileSystem::new();
    let d = fs.create_dir(ROOT_INODE, "d").unwrap();
    fs.create_file(d, "x").unwrap();
    assert_eq!(fs.unlink(ROOT_INODE, "d"), Err(VfsError::DirectoryNotEmpty));
    let e = fs.readdir(d, 0).unwrap().unwrap();
    assert_eq!(e.name, "x");
    assert!(fs.readdir(d, 1).unwrap().is_none());
    assert_eq!(fs.unlink(d, "x"), Ok(()));
    assert_eq!(fs.unlink(ROOT_INODE, "d"), Ok(()));
    assert_eq!(fs.lookup(ROOT_INODE, "d"), Err(VfsError::NotFound));
    assert_eq!(fs.unlink(ROOT_INODE, "d"), Err(VfsError::NotFound));
}

#[test]
fn set_size_truncates_and_extends() {
    let mut fs = RamFileSystem::new();
    let f = fs.create_file(ROOT_INODE, "a").unwrap();
    fs.write_file(f, 0, b"abcdef").unwrap();
    assert_eq!(fs.set_file_size(f, 2), Ok(()));
    assert_eq!(fs.metadata(f).unwrap().size, 2);
    assert_eq!(fs.set_file_size(f, 4), Ok(()));
    let mut buf = [7u8; 4];
    assert_eq!(fs.read_file(f, 0, &mut buf), Ok(4));
    assert_eq!(buf, [b'a', b'b', 0, 0]);
    assert_eq!(fs.set_file_size(ROOT_INODE, 0), Err(VfsError::NotAFile));
}

#[test]
fn initialized_holds_shell_and_init() {
    let fs = RamFileSystem::new_initialized(&SHELL);
    assert_eq!(fs.file_count(), 2);
    let s = fs.find_child_by_name(ROOT_INODE, "shell").unwrap();
    let i = fs.find_child_by_name(ROOT_INODE, "init").unwrap();
    let mut buf = [0u8; 4];
    assert_eq!(fs.read_file(s, 0, &mut buf), Ok(4));
    assert_eq!(buf, SHELL);
    assert_eq!(fs.read_file(i, 0, &mut buf), Ok(4));
    assert_eq!(fs.root_inode(), ROOT_INODE);
    assert_eq!(fs.name(), "ramfs");
}
