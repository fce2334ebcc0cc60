use karte::driver::fs::{
    delete_file, list_all_files, list_directory, lookup_path, read_file_owned, write_file_owned, FileSystem,
};

#[test]
fn fs_create_file() {
    let mut fs = FileSystem::new();
    assert!(fs.create("test.txt").is_ok());
}

#[test]
fn fs_create_duplicate_fails() {
    let mut fs = FileSystem::new();
    assert!(fs.create("dup.txt").is_ok());
    assert!(fs.create("dup.txt").is_err());
}

#[test]
fn fs_write_and_read() {
    let mut fs = FileSystem::new();
    assert!(fs.write("data.bin", &[1, 2, 3, 4]).is_ok());
    assert_eq!(fs.read("data.bin"), Some(&[1u8, 2, 3, 4][..]));
}

#[test]
fn fs_write_creates_file() {
    let mut fs = FileSystem::new();
    assert!(fs.write("auto.txt", b"hello").is_ok());
    assert!(fs.read("auto.txt").is_some());
}

#[test]
fn fs_write_overwrites() {
    let mut fs = FileSystem::new();
    assert!(fs.write("f.txt", b"old").is_ok());
    assert!(fs.write("f.txt", b"new").is_ok());
    assert_eq!(fs.read("f.txt"), Some(&b"new"[..]));
}

#[test]
fn fs_append() {
    let mut fs = FileSystem::new();
    assert!(fs.write("a.txt", b"hello").is_ok());
    assert!(fs.append("a.txt", b" world").is_ok());
    assert_eq!(fs.read("a.txt"), Some(&b"hello world"[..]));
}

#[test]
fn fs_append_nonexistent_fails() {
    let mut fs = FileSystem::new();
    assert!(fs.append("nope.txt", b"data").is_err());
}

#[test]
fn fs_delete() {
    let mut fs = FileSystem::new();
    assert!(fs.create("del.txt").is_ok());
    assert!(fs.delete("del.txt").is_ok());
    assert!(fs.read("del.txt").is_none());
}

#[test]
fn fs_delete_nonexistent_fails() {
    let mut fs = FileSystem::new();
    assert!(fs.delete("nope").is_err());
}

#[test]
fn fs_read_nonexistent_none() {
    let fs = FileSystem::new();
    assert!(fs.read("nope").is_none());
}

#[test]
fn fs_list_files() {
    let mut fs = FileSystem::new();
    assert!(fs.create("a").is_ok());
    assert!(fs.create("b").is_ok());
    assert!(fs.create("c").is_ok());
    assert_eq!(fs.list().len(), 3);
}

#[test]
fn fs_file_count() {
    let mut fs = FileSystem::new();
    assert!(fs.create("x").is_ok());
    assert!(fs.create("y").is_ok());
    assert_eq!(fs.file_count(), 2);
}

#[test]
fn fs_empty_file_no_data() {
    let mut fs = FileSystem::new();
    assert!(fs.create("empty").is_ok());
    assert_eq!(fs.read("empty"), Some(&[][..]));
}

#[test]
fn fs_large_file() {
    let mut fs = FileSystem::new();
    let data: Vec<u8> = (0..=255u8).collect();
    assert!(fs.write("big.bin", &data).is_ok());
    let read = fs.read("big.bin");
    assert!(read.is_some());
    assert_eq!(read.unwrap().len(), 256);
    assert_eq!(read.unwrap()[255], 255);
}

#[test]
fn fs_delete_recreate() {
    let mut fs = FileSystem::new();
    assert!(fs.write("r.txt", b"v1").is_ok());
    assert!(fs.delete("r.txt").is_ok());
    assert!(fs.create("r.txt").is_ok());
    assert_eq!(fs.read("r.txt"), Some(&[][..]));
}

#[test]
fn fs_write_then_read_other_file_untouched() {
    let mut fs = FileSystem::new();
    assert!(fs.write("one", b"1").is_ok());
    assert!(fs.write("two", b"22").is_ok());
    assert!(fs.write("one", b"111").is_ok());
    assert_eq!(fs.read("two"), Some(&b"22"[..]));
    assert_eq!(fs.read("one"), Some(&b"111"[..]));
    assert_eq!(fs.file_count(), 2);
}

#[test]
fn read_file_owned_prefers_ext4_then_fat32_then_ram() {
    let mut fs = FileSystem::new();
    assert!(fs.write("k", b"ram").is_ok());
    assert_eq!(read_file_owned("k", Some(b"ext".to_vec()), Some(b"fat".to_vec()), &fs), Some(b"ext".to_vec()));
    assert_eq!(read_file_owned("k", None, Some(b"fat".to_vec()), &fs), Some(b"fat".to_vec()));
    assert_eq!(read_file_owned("k", None, None, &fs), Some(b"ram".to_vec()));
    assert_eq!(read_file_owned("missing", None, None, &fs), None);
}

#[test]
fn write_file_owned_goes_to_ext4_when_mounted() {
    let mut fs = FileSystem::new();
    let ok: Option<Result<(), i32>> = Some(Ok(()));
    assert_eq!(write_file_owned("w", b"x", ok, &mut fs), Ok(()));
    assert!(fs.read("w").is_none());
    let failed: Option<Result<(), i32>> = Some(Err(5));
    assert_eq!(write_file_owned("w", b"x", failed, &mut fs), Err(()));
    let none: Option<Result<(), i32>> = None;
    assert_eq!(write_file_owned("w", b"xy", none, &mut fs), Ok(()));
    assert_eq!(fs.read("w"), Some(&b"xy"[..]));
}

#[test]
fn lookup_path_answers() {
    let mut fs = FileSystem::new();
    assert!(fs.create("here").is_ok());
    assert_eq!(lookup_path("here", None, &fs), Some(1));
    assert_eq!(lookup_path("gone", None, &fs), None);
    assert_eq!(lookup_path("here", Some(Some(42)), &fs), Some(42));
    assert_eq!(lookup_path("here", Some(None), &fs), None);
}

#[test]
fn delete_file_reports_either_source() {
    let mut fs = FileSystem::new();
    assert!(fs.create("a").is_ok());
    assert_eq!(delete_file("a", false, &mut fs), Ok(()));
    assert_eq!(delete_file("a", false, &mut fs), Err(()));
    assert_eq!(delete_file("a", true, &mut fs), Ok(()));
}

#[test]
fn list_directory_merges_without_duplicates() {
    let mut fs = FileSystem::new();
    assert!(fs.write("shared", b"12345").is_ok());
    assert!(fs.write("ramonly", b"1").is_ok());
    let ext4 = vec![("shared".to_string(), 9usize), ("e".to_string(), 1usize)];
    let fat = vec![("e".to_string(), 7usize), ("f".to_string(), 2usize)];
    let l = list_directory("", Some(ext4.clone()), Some(fat.clone()), &fs);
    let names: Vec<(String, usize)> = l;
    assert_eq!(
        names,
        vec![
            ("shared".to_string(), 9),
            ("e".to_string(), 1),
            ("f".to_string(), 2),
            ("ramonly".to_string(), 1)
        ]
    );
    let sub = list_directory("dir", Some(ext4.clone()), Some(fat), &fs);
    assert_eq!(sub, ext4);
    let all = list_all_files(None, None, &fs);
    assert_eq!(all, vec![("shared".to_string(), 5), ("ramonly".to_string(), 1)]);
}

#[test]
fn listing_matches_reads_after_mixed_operations() {
    let mut fs = FileSystem::new();
    assert!(fs.create("a").is_ok());
    assert!(fs.write("b", b"bee").is_ok());
    assert!(fs.append("a", b"ay").is_ok());
    assert!(fs.write("a", b"alpha").is_ok());
    assert!(fs.create("c").is_ok());
    assert!(fs.delete("c").is_ok());
    let listed = fs.list();
    assert_eq!(listed.len(), fs.file_count());
    assert_eq!(listed.len(), 2);
    for (i, f) in listed.iter().enumerate() {
        for g in &listed[i + 1..] {
            assert_ne!(f.name, g.name);
        }
        assert_eq!(fs.read(&f.name), Some(f.data.as_slice()));
    }
    assert_eq!(fs.read("a"), Some(&b"alpha"[..]));
}
