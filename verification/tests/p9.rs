use karte::driver::p9::{
    attach_request, clunk_request, lstat_request, open_request, parse_attach, parse_clunk, parse_lstat,
    parse_open, parse_read, parse_version, parse_walk, read_request, try_init, version_request,
    walk_request, P9Buffer, P9FileSystem, P9Transport, Qid, P9_QTDIR, TRANSPORT_UNAVAILABLE,
};
use karte::driver::vfs::{FileSystem, VfsError};

fn reply(ty: u8, body: &[u8]) -> P9Buffer {
    let mut v = Vec::new();
    let total = (7 + body.len()) as u32;
    v.extend_from_slice(&total.to_le_bytes());
    v.push(ty);
    v.extend_from_slice(&1u16.to_le_bytes());
    v.extend_from_slice(body);
    P9Buffer::from_slice(&v)
}

fn qid_bytes(qtype: u8, version: u32, path: u64) -> Vec<u8> {
    let mut v = vec![qtype];
    v.extend_from_slice(&version.to_le_bytes());
    v.extend_from_slice(&path.to_le_bytes());
    v
}

#[test]
fn version_request_layout() {
    let mut want = vec![21, 0, 0, 0, 100, 1, 0, 0, 32, 0, 0, 8, 0];
    want.extend_from_slice(b"9P2000.L");
    assert_eq!(version_request(8192), want);
}

#[test]
fn attach_request_layout() {
    let mut want = vec![34, 0, 0, 0, 104, 1, 0, 0, 0, 0, 0, 0xFF, 0xFF, 0xFF, 0xFF, 6, 0];
    want.extend_from_slice(b"nobody");
    want.extend_from_slice(&[9, 0]);
    want.extend_from_slice(b"hostshare");
    assert_eq!(attach_request(0, "nobody", "hostshare"), want);
}

#[test]
fn walk_request_layout() {
    let want = vec![24, 0, 0, 0, 110, 1, 0, 1, 0, 0, 0, 2, 0, 0, 0, 2, 0, 1, 0, b'a', 2, 0, b'b', b'c'];
    assert_eq!(walk_request(1, 2, &["a", "bc"]), want);
    assert_eq!(walk_request(7, 8, &[]), vec![17, 0, 0, 0, 110, 1, 0, 7, 0, 0, 0, 8, 0, 0, 0, 0, 0]);
}

#[test]
fn small_request_layouts() {
    assert_eq!(clunk_request(5), vec![11, 0, 0, 0, 120, 1, 0, 5, 0, 0, 0]);
    assert_eq!(lstat_request(0x01020304), vec![11, 0, 0, 0, 142, 1, 0, 4, 3, 2, 1]);
    assert_eq!(open_request(2, 1), vec![15, 0, 0, 0, 112, 1, 0, 2, 0, 0, 0, 1, 0, 0, 0]);
    let r = read_request(3, 0x0102030405060708, 100);
    assert_eq!(r.len(), 23);
    assert_eq!(&r[0..7], &[23, 0, 0, 0, 116, 1, 0]);
    assert_eq!(&r[11..19], &[8, 7, 6, 5, 4, 3, 2, 1]);
    assert_eq!(&r[19..23], &[100, 0, 0, 0]);
}

#[test]
fn buffer_reads_back_what_it_writes() {
    let mut b = P9Buffer::new(16);
    b.write_u8(0xAB);
    b.write_u16(0x1234);
    b.write_u32(0xDEADBEEF);
    b.write_u64(0x0102030405060708);
    b.write_str("hi");
    assert_eq!(b.len(), 19);
    assert_eq!(b.read_u8_at(0), 0xAB);
    assert_eq!(b.read_u16_at(1), 0x1234);
    assert_eq!(b.read_u32_at(3), 0xDEADBEEF);
    assert_eq!(b.read_u64_at(7), 0x0102030405060708);
    assert_eq!(b.read_str_at(15), (b"hi".to_vec(), 4));
    // reads past the end give 0, an overlong string reads empty
    assert_eq!(b.read_u8_at(19), 0);
    assert_eq!(b.read_u16_at(18), 0);
    assert_eq!(b.read_u32_at(16), 0);
    assert_eq!(b.read_u64_at(12), 0);
    assert_eq!(b.read_str_at(17), (Vec::new(), 2));
}

#[test]
fn version_and_attach_replies() {
    assert_eq!(parse_version(&reply(101, &4096u32.to_le_bytes())), Ok(4096));
    assert_eq!(parse_version(&reply(7, &[])), Err("Invalid version response"));
    let q = parse_attach(&reply(105, &qid_bytes(0x80, 3, 42))).unwrap();
    assert_eq!(q, Qid { qtype: 0x80, version: 3, path: 42 });
    assert!(q.is_dir());
    assert_eq!(parse_attach(&reply(101, &[])), Err("Attach failed"));
}

#[test]
fn walk_reply_gives_the_qids_it_holds() {
    let mut body = vec![2, 0];
    body.extend(qid_bytes(P9_QTDIR, 1, 0x10));
    body.extend(qid_bytes(0, 2, 0x20));
    let (n, qids) = parse_walk(&reply(111, &body)).unwrap();
    assert_eq!(n, 2);
    assert_eq!(qids, vec![Qid { qtype: 0x80, version: 1, path: 0x10 }, Qid { qtype: 0, version: 2, path: 0x20 }]);
    assert!(!qids[1].is_dir());
    // a reply that claims two QIDs but holds one
    let mut short = vec![2, 0];
    short.extend(qid_bytes(0, 9, 9));
    let (n, qids) = parse_walk(&reply(111, &short)).unwrap();
    assert_eq!((n, qids.len()), (2, 1));
    assert_eq!(parse_walk(&reply(113, &[])), Err("Walk failed"));
}

#[test]
fn open_clunk_and_read_replies() {
    assert_eq!(parse_open(&reply(113, &qid_bytes(0, 1, 5))), Ok(Qid { qtype: 0, version: 1, path: 5 }));
    assert_eq!(parse_open(&reply(117, &[])), Err("Open failed"));
    assert_eq!(parse_clunk(&reply(121, &[])), Ok(()));
    assert_eq!(parse_clunk(&reply(120, &[])), Err("Clunk failed"));
    let mut body = 3u32.to_le_bytes().to_vec();
    body.extend_from_slice(b"abcdef");
    assert_eq!(parse_read(&reply(117, &body)), Ok(b"abc".to_vec()));
    let mut body = 100u32.to_le_bytes().to_vec();
    body.extend_from_slice(b"abcdef");
    assert_eq!(parse_read(&reply(117, &body)), Ok(b"abcdef".to_vec()));
    assert_eq!(parse_read(&reply(116, &[0, 0, 0, 0])), Err("Read failed"));
}

#[test]
fn lstat_reply_gives_mode_and_size() {
    let mut stat = 0x41EDu32.to_le_bytes().to_vec();
    stat.extend_from_slice(&[4, 0]);
    stat.extend_from_slice(b"root");
    stat.extend_from_slice(&[0, 0]);
    stat.extend_from_slice(&1u32.to_le_bytes());
    stat.extend_from_slice(&0u32.to_le_bytes());
    stat.extend_from_slice(&4096u64.to_le_bytes());
    let mut body = (stat.len() as u16).to_le_bytes().to_vec();
    body.extend(stat);
    let st = parse_lstat(&reply(143, &body)).ok().unwrap();
    assert_eq!(st.mode, 0x41ED);
    assert_eq!(st.size, 4096);
    assert!(st.qid.is_dir());
    assert!(st.name.is_empty());
    assert_eq!(parse_lstat(&reply(143, &[0, 0])).err(), Some("Invalid stat response"));
    assert_eq!(parse_lstat(&reply(143, &[50, 0, 1])).err(), Some("Invalid stat response"));
    assert_eq!(parse_lstat(&reply(142, &[])).err(), Some("Lstat failed"));
}

#[test]
fn fids_are_handed_out_in_order() {
    let mut t = P9Transport::new();
    assert_eq!(t.alloc_fid(), 0);
    assert_eq!(t.alloc_fid(), 1);
    assert_eq!(t.next_fid, 2);
}

#[test]
fn without_a_transport_every_request_fails() {
    let mut fs = P9FileSystem::new();
    assert_eq!(fs.init("hostshare"), Err(TRANSPORT_UNAVAILABLE));
    assert_eq!(fs.msize, 8192);
    assert_eq!(fs.p9_walk(0, 1, &["a"]).err(), Some("9p not initialized"));
    assert_eq!(fs.p9_clunk(0), Err(TRANSPORT_UNAVAILABLE));
    assert!(try_init(0xC000, "hostshare").is_err());
}

#[test]
fn vfs_view_of_an_unconnected_mount() {
    let mut fs = P9FileSystem::new();
    assert_eq!(fs.name(), "9p");
    assert_eq!(fs.root_inode(), 0);
    assert_eq!(fs.lookup(0, "etc"), Err(VfsError::IoError));
    assert!(fs.metadata(0).is_err());
    assert!(matches!(fs.readdir(0, 0), Ok(None)));
    let mut buf = [0u8; 4];
    assert_eq!(fs.read_file(0, 0, &mut buf), Err(VfsError::IoError));
    assert_eq!(fs.write_file(0, 0, b"x"), Err(VfsError::PermissionDenied));
    assert_eq!(fs.create_file(0, "f"), Err(VfsError::PermissionDenied));
    assert_eq!(fs.create_dir(0, "d"), Err(VfsError::PermissionDenied));
    assert_eq!(fs.unlink(0, "f"), Err(VfsError::PermissionDenied));
    assert_eq!(fs.set_file_size(0, 0), Err(VfsError::PermissionDenied));
}
