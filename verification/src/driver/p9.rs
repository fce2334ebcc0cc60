//! 9P2000.L client for a host directory shared by QEMU (virtio-9p): the
//! messages, their little-endian framing, and the parsing of the replies.
//! No virtqueue transport is wired up, so every request fails with
//! `TRANSPORT_UNAVAILABLE` once it is framed.
use vstd::prelude::*;
use vstd::string::StringSliceAdditionalSpecFns;

use crate::driver::vfs::{FileSystem, VfsDirEntry, VfsError, VfsFileType, VfsMetadata};

verus! {

// ─── Message types ──────────────────────────────────────────────────────

pub const P9_VERSION: u8 = 100;
pub const P9_ATTACH: u8 = 104;
pub const P9_WALK: u8 = 110;
pub const P9_OPEN: u8 = 112;
pub const P9_READ: u8 = 116;
pub const P9_CLUNK: u8 = 120;
pub const P9_LSTAT: u8 = 142;
pub const P9_RVERSION: u8 = 101;
pub const P9_RATTACH: u8 = 105;
pub const P9_RWALK: u8 = 111;
pub const P9_ROPEN: u8 = 113;
pub const P9_RREAD: u8 = 117;
pub const P9_RCLUNK: u8 = 121;
pub const P9_RLSTAT: u8 = 143;

/// QID type bit of a directory.
pub const P9_QTDIR: u8 = 0x80;
pub const P9_QTFILE: u8 = 0x00;

/// Open for reading.
pub const P9_OREAD: u32 = 0;

/// size(4) + type(1) + tag(2).
pub const P9_HEADER_SIZE: usize = 7;
pub const P9_DEFAULT_MSIZE: u32 = 8192;
/// Every request carries this tag.
pub const P9_TAG: u16 = 1;
/// "No fid" in an attach.
pub const P9_NOFID: u32 = 0xFFFF_FFFF;

pub const TRANSPORT_UNAVAILABLE: &'static str = "9p transport not available - needs VirtIO queue support";
pub const NOT_INITIALIZED: &'static str = "9p not initialized";

// ─── Little-endian encoding ─────────────────────────────────────────────

pub open spec fn le16(v: int) -> Seq<u8> {
    seq![(v % 256) as u8, ((v / 256) % 256) as u8]
}

pub open spec fn le32(v: int) -> Seq<u8> {
    le16(v % 65536) + le16((v / 65536) % 65536)
}

pub open spec fn le64(v: int) -> Seq<u8> {
    le32(v % 0x1_0000_0000) + le32((v / 0x1_0000_0000) % 0x1_0000_0000)
}

/// A string field: its byte length (16 bits) and its bytes.
pub open spec fn str_field(bytes: Seq<u8>) -> Seq<u8> {
    le16((bytes.len() % 65536) as int) + bytes
}

/// The value of the little-endian field of `n` bytes at `off`.
pub open spec fn le_value16(s: Seq<u8>, off: int) -> int {
    s[off] + 256 * s[off + 1]
}

pub open spec fn le_value32(s: Seq<u8>, off: int) -> int {
    le_value16(s, off) + 65536 * le_value16(s, off + 2)
}

pub open spec fn le_value64(s: Seq<u8>, off: int) -> int {
    le_value32(s, off) + 0x1_0000_0000 * le_value32(s, off + 4)
}

/// Reads as the buffer does them: 0 where the field runs past the end.
pub open spec fn get_u8(s: Seq<u8>, off: int) -> u8 {
    if 0 <= off < s.len() { s[off] } else { 0 }
}

pub open spec fn get_u16(s: Seq<u8>, off: int) -> int {
    if off < 0 || off + 2 > s.len() { 0 } else { le_value16(s, off) }
}

pub open spec fn get_u32(s: Seq<u8>, off: int) -> int {
    if off < 0 || off + 4 > s.len() { 0 } else { le_value32(s, off) }
}

pub open spec fn get_u64(s: Seq<u8>, off: int) -> int {
    if off < 0 || off + 8 > s.len() { 0 } else { le_value64(s, off) }
}

/// A request: size, type and tag, then the body.
pub open spec fn frame(ty: u8, body: Seq<u8>) -> Seq<u8> {
    le32(((7 + body.len()) % 0x1_0000_0000) as int) + seq![ty] + le16(P9_TAG as int) + body
}

/// A 9P message buffer.
pub struct P9Buffer {
    pub data: Vec<u8>,
}

impl P9Buffer {
    pub fn new(capacity: usize) -> (r: Self)
        ensures
            r.data@ == Seq::<u8>::empty(),
    {
        P9Buffer { data: Vec::with_capacity(capacity) }
    }

    pub fn from_slice(s: &[u8]) -> (r: Self)
        ensures
            r.data@ == s@,
    {
        let mut data: Vec<u8> = Vec::new();
        let mut i: usize = 0;
        while i < s.len()
            invariant
                i <= s.len(),
                data@ == s@.subrange(0, i as int),
            decreases s.len() - i,
        {
            data.push(s[i]);
            i = i + 1;
            assert(data@ =~= s@.subrange(0, i as int));
        }
        assert(data@ =~= s@);
        P9Buffer { data }
    }

    pub fn len(&self) -> (r: usize)
        ensures
            r == self.data@.len(),
    {
        self.data.len()
    }

    pub fn as_slice(&self) -> (r: &[u8])
        ensures
            r@ == self.data@,
    {
        self.data.as_slice()
    }

    pub fn write_u8(&mut self, v: u8)
        ensures
            final(self).data@ == old(self).data@.push(v),
    {
        self.data.push(v);
    }

    pub fn write_u16(&mut self, v: u16)
        ensures
            final(self).data@ == old(self).data@ + le16(v as int),
    {
        self.data.push((v % 256) as u8);
        self.data.push((v / 256) as u8);
        assert(self.data@ =~= old(self).data@ + le16(v as int));
    }

    pub fn write_u32(&mut self, v: u32)
        ensures
            final(self).data@ == old(self).data@ + le32(v as int),
    {
        self.write_u16((v % 65536) as u16);
        self.write_u16((v / 65536) as u16);
        assert(self.data@ =~= old(self).data@ + le32(v as int));
    }

    pub fn write_u64(&mut self, v: u64)
        ensures
            final(self).data@ == old(self).data@ + le64(v as int),
    {
        let lo = (v % 0x1_0000_0000) as u32;
        let hi = (v / 0x1_0000_0000) as u32;
        assert(hi as int == (v as int / 0x1_0000_0000) % 0x1_0000_0000);
        assert(lo as int == v as int % 0x1_0000_0000);
        self.write_u32(lo);
        self.write_u32(hi);
        assert(le64(v as int) == le32(lo as int) + le32(hi as int));
        assert(self.data@ =~= old(self).data@ + le64(v as int));
    }

    /// The byte length (cut to 16 bits), then the bytes.
    pub fn write_str(&mut self, s: &str)
        ensures
            final(self).data@ == old(self).data@ + str_field(s.spec_bytes()),
    {
        let bytes = s.as_bytes();
        self.write_u16((bytes.len() % 65536) as u16);
        let ghost mid = self.data@;
        let mut i: usize = 0;
        while i < bytes.len()
            invariant
                i <= bytes.len(),
                bytes@ == s.spec_bytes(),
                self.data@ == mid + bytes@.subrange(0, i as int),
            decreases bytes.len() - i,
        {
            self.data.push(bytes[i]);
            i = i + 1;
            assert(self.data@ =~= mid + bytes@.subrange(0, i as int));
        }
        assert(bytes@.subrange(0, bytes@.len() as int) =~= bytes@);
        assert(self.data@ =~= old(self).data@ + str_field(s.spec_bytes()));
    }

    pub fn read_u8_at(&self, offset: usize) -> (r: u8)
        ensures
            r == get_u8(self.data@, offset as int),
    {
        if offset < self.data.len() {
            self.data[offset]
        } else {
            0
        }
    }

    pub fn read_u16_at(&self, offset: usize) -> (r: u16)
        ensures
            r == get_u16(self.data@, offset as int),
    {
        if offset > self.data.len() || self.data.len() - offset < 2 {
            return 0;
        }
        self.data[offset] as u16 + (self.data[offset + 1] as u16) * 256
    }

    pub fn read_u32_at(&self, offset: usize) -> (r: u32)
        ensures
            r == get_u32(self.data@, offset as int),
    {
        if offset > self.data.len() || self.data.len() - offset < 4 {
            return 0;
        }
        let lo = self.read_u16_at(offset) as u32;
        let hi = self.read_u16_at(offset + 2) as u32;
        lo + hi * 65536
    }

    pub fn read_u64_at(&self, offset: usize) -> (r: u64)
        ensures
            r == get_u64(self.data@, offset as int),
    {
        if offset > self.data.len() || self.data.len() - offset < 8 {
            return 0;
        }
        let lo = self.read_u32_at(offset) as u64;
        let hi = self.read_u32_at(offset + 4) as u64;
        lo + hi * 0x1_0000_0000
    }

    /// The bytes of the string field at `offset` and the size of the field;
    /// a field that runs past the end reads as empty, of size 2.
    pub fn read_str_at(&self, offset: usize) -> (r: (Vec<u8>, usize))
        ensures
            ({
                let s = self.data@;
                let n = get_u16(s, offset as int);
                if offset + 2 + n > s.len() {
                    r.0@ == Seq::<u8>::empty() && r.1 == 2
                } else {
                    r.0@ == s.subrange(offset + 2, offset + 2 + n) && r.1 == 2 + n
                }
            }),
    {
        let n = self.read_u16_at(offset) as usize;
        if offset > self.data.len() || self.data.len() - offset < 2 + n {
            return (Vec::new(), 2);
        }
        let start = offset + 2;
        let end = start + n;
        let mut out: Vec<u8> = Vec::new();
        let mut j: usize = start;
        while j < end
            invariant
                start <= j <= end,
                end <= self.data@.len(),
                out@ == self.data@.subrange(start as int, j as int),
            decreases end - j,
        {
            out.push(self.data[j]);
            j = j + 1;
            assert(out@ =~= self.data@.subrange(start as int, j as int));
        }
        (out, 2 + n)
    }
}

/// What a little-endian write puts down, a read gives back.
pub proof fn lemma_le32_roundtrip(prefix: Seq<u8>, v: u32, suffix: Seq<u8>)
    ensures
        get_u32(prefix + le32(v as int) + suffix, prefix.len() as int) == v,
{
    let s = prefix + le32(v as int) + suffix;
    let o = prefix.len() as int;
    assert(s[o] == (v % 65536) % 256);
    assert(s[o + 1] == ((v % 65536) / 256) % 256);
    assert(s[o + 2] == ((v / 65536) % 65536) % 256);
    assert(s[o + 3] == (((v / 65536) % 65536) / 256) % 256);
}

/// The same for 64-bit fields.
pub proof fn lemma_le64_roundtrip(prefix: Seq<u8>, v: u64, suffix: Seq<u8>)
    ensures
        get_u64(prefix + le64(v as int) + suffix, prefix.len() as int) == v,
{
    let s = prefix + le64(v as int) + suffix;
    let o = prefix.len() as int;
    let lo = (v % 0x1_0000_0000) as u32;
    let hi = ((v / 0x1_0000_0000) % 0x1_0000_0000) as u32;
    lemma_le32_roundtrip(prefix, lo, le32(hi as int) + suffix);
    assert(s =~= prefix + le32(lo as int) + (le32(hi as int) + suffix));
    lemma_le32_roundtrip(prefix + le32(lo as int), hi, suffix);
    assert(s =~= (prefix + le32(lo as int)) + le32(hi as int) + suffix);
}

// ─── Requests ───────────────────────────────────────────────────────────

/// Starts a request of type `ty`: room for the size, the type, the tag.
fn begin(ty: u8) -> (r: P9Buffer)
    ensures
        r.data@ == le32(0) + seq![ty] + le16(P9_TAG as int),
{
    let mut buf = P9Buffer::new(64);
    buf.write_u32(0);
    buf.write_u8(ty);
    buf.write_u16(P9_TAG);
    assert(buf.data@ =~= le32(0) + seq![ty] + le16(P9_TAG as int));
    buf
}

/// Writes the total length into the size field.
fn finish(buf: P9Buffer, ty: u8, body: Ghost<Seq<u8>>) -> (r: Vec<u8>)
    requires
        buf.data@ == le32(0) + seq![ty] + le16(P9_TAG as int) + body@,
    ensures
        r@ == frame(ty, body@),
{
    let mut data = buf.data;
    let total = (data.len() as u64 % 0x1_0000_0000) as u32;
    let mut size = P9Buffer::new(4);
    size.write_u32(total);
    let mut i: usize = 0;
    while i < 4
        invariant
            i <= 4,
            size.data@ == le32(total as int),
            data@.len() == 7 + body@.len(),
            forall|j: int| 0 <= j < i ==> data@[j] == le32(total as int)[j],
            forall|j: int| i <= j < data@.len() ==> data@[j] == (le32(0) + seq![ty] + le16(P9_TAG as int) + body@)[j],
        decreases 4 - i,
    {
        let b = size.data[i];
        data.set(i, b);
        i = i + 1;
    }
    assert(data@ =~= frame(ty, body@));
    data
}

/// Tversion: the largest message size and the protocol name.
pub fn version_request(msize: u32) -> (r: Vec<u8>)
    ensures
        r@ == frame(P9_VERSION, le32(msize as int) + str_field("9P2000.L".spec_bytes())),
{
    let mut buf = begin(P9_VERSION);
    let ghost start = buf.data@;
    buf.write_u32(msize);
    buf.write_str("9P2000.L");
    let ghost body = le32(msize as int) + str_field("9P2000.L".spec_bytes());
    assert(buf.data@ =~= start + body);
    finish(buf, P9_VERSION, Ghost(body))
}

/// Tattach: `fid` for the root of tree `aname`, no authentication fid.
pub fn attach_request(fid: u32, uname: &str, aname: &str) -> (r: Vec<u8>)
    ensures
        r@ == frame(
            P9_ATTACH,
            le32(fid as int) + le32(P9_NOFID as int) + str_field(uname.spec_bytes()) + str_field(aname.spec_bytes()),
        ),
{
    let mut buf = begin(P9_ATTACH);
    let ghost start = buf.data@;
    buf.write_u32(fid);
    buf.write_u32(P9_NOFID);
    buf.write_str(uname);
    buf.write_str(aname);
    let ghost body = le32(fid as int) + le32(P9_NOFID as int) + str_field(uname.spec_bytes()) + str_field(aname.spec_bytes());
    assert(buf.data@ =~= start + body);
    finish(buf, P9_ATTACH, Ghost(body))
}

/// The path names of a walk, each as a string field.
pub open spec fn name_fields(names: Seq<&str>) -> Seq<u8>
    decreases names.len(),
{
    if names.len() == 0 {
        Seq::empty()
    } else {
        name_fields(names.drop_last()) + str_field(names.last().spec_bytes())
    }
}

/// Twalk: from `fid` down `names`, the result under `new_fid`.
pub fn walk_request(fid: u32, new_fid: u32, names: &[&str]) -> (r: Vec<u8>)
    ensures
        r@ == frame(
            P9_WALK,
            le32(fid as int) + le32(new_fid as int) + le16((names@.len() % 65536) as int) + name_fields(names@),
        ),
{
    let mut buf = begin(P9_WALK);
    let ghost start = buf.data@;
    buf.write_u32(fid);
    buf.write_u32(new_fid);
    buf.write_u16((names.len() % 65536) as u16);
    let ghost head = buf.data@;
    let mut i: usize = 0;
    while i < names.len()
        invariant
            i <= names@.len(),
            buf.data@ == head + name_fields(names@.subrange(0, i as int)),
        decreases names.len() - i,
    {
        buf.write_str(names[i]);
        i = i + 1;
        assert(names@.subrange(0, i as int).drop_last() =~= names@.subrange(0, i - 1));
        assert(buf.data@ =~= head + name_fields(names@.subrange(0, i as int)));
    }
    assert(names@.subrange(0, names@.len() as int) =~= names@);
    let ghost body = le32(fid as int) + le32(new_fid as int) + le16((names@.len() % 65536) as int) + name_fields(names@);
    assert(buf.data@ =~= start + body);
    finish(buf, P9_WALK, Ghost(body))
}

/// Tclunk: forget `fid`.
pub fn clunk_request(fid: u32) -> (r: Vec<u8>)
    ensures
        r@ == frame(P9_CLUNK, le32(fid as int)),
{
    let mut buf = begin(P9_CLUNK);
    let ghost start = buf.data@;
    buf.write_u32(fid);
    assert(buf.data@ =~= start + le32(fid as int));
    finish(buf, P9_CLUNK, Ghost(le32(fid as int)))
}

/// Topen: open `fid` with `flags`.
pub fn open_request(fid: u32, flags: u32) -> (r: Vec<u8>)
    ensures
        r@ == frame(P9_OPEN, le32(fid as int) + le32(flags as int)),
{
    let mut buf = begin(P9_OPEN);
    let ghost start = buf.data@;
    buf.write_u32(fid);
    buf.write_u32(flags);
    assert(buf.data@ =~= start + (le32(fid as int) + le32(flags as int)));
    finish(buf, P9_OPEN, Ghost(le32(fid as int) + le32(flags as int)))
}

/// Tread: `count` bytes of `fid` from `offset`.
pub fn read_request(fid: u32, offset: u64, count: u32) -> (r: Vec<u8>)
    ensures
        r@ == frame(P9_READ, le32(fid as int) + le64(offset as int) + le32(count as int)),
{
    let mut buf = begin(P9_READ);
    let ghost start = buf.data@;
    buf.write_u32(fid);
    buf.write_u64(offset);
    buf.write_u32(count);
    let ghost body = le32(fid as int) + le64(offset as int) + le32(count as int);
    assert(buf.data@ =~= start + body);
    finish(buf, P9_READ, Ghost(body))
}

/// Tlstat: the attributes of `fid`.
pub fn lstat_request(fid: u32) -> (r: Vec<u8>)
    ensures
        r@ == frame(P9_LSTAT, le32(fid as int)),
{
    let mut buf = begin(P9_LSTAT);
    let ghost start = buf.data@;
    buf.write_u32(fid);
    assert(buf.data@ =~= start + le32(fid as int));
    finish(buf, P9_LSTAT, Ghost(le32(fid as int)))
}

// ─── Replies ────────────────────────────────────────────────────────────

/// A server's identity for a file: type bits, version and path.
#[derive(Clone, Copy, Debug, PartialEq, Eq, Structural)]
pub struct Qid {
    pub qtype: u8,
    pub version: u32,
    pub path: u64,
}

impl Qid {
    pub fn is_dir(&self) -> (r: bool)
        ensures
            r == (self.qtype & P9_QTDIR != 0),
    {
        self.qtype & P9_QTDIR != 0
    }
}

/// The 13-byte QID at `off`.
pub open spec fn qid_at(s: Seq<u8>, off: int) -> Qid {
    Qid { qtype: get_u8(s, off), version: get_u32(s, off + 1) as u32, path: get_u64(s, off + 5) as u64 }
}

pub fn parse_qid(buf: &P9Buffer, offset: usize) -> (r: Qid)
    requires
        offset + 13 <= usize::MAX,
    ensures
        r == qid_at(buf.data@, offset as int),
{
    Qid { qtype: buf.read_u8_at(offset), version: buf.read_u32_at(offset + 1), path: buf.read_u64_at(offset + 5) }
}

/// Size of the string field at `off` as the buffer reads it.
pub open spec fn str_size(s: Seq<u8>, off: int) -> int {
    if off + 2 + get_u16(s, off) > s.len() { 2 } else { 2 + get_u16(s, off) }
}

/// What an Rlstat tells: the kind of file, its mode and size.  The name is
/// not part of the reply and stays empty.
pub struct StatResult {
    pub qid: Qid,
    pub mode: u32,
    pub size: u64,
    pub name: String,
}

/// Offset of the size field of a 9P2000.L stat at `off`: past mode, the
/// uid and gid strings, nlink and rdev.
pub open spec fn stat_size_offset(s: Seq<u8>, off: int) -> int {
    let uid = off + 4;
    let gid = uid + str_size(s, uid);
    gid + str_size(s, gid) + 8
}

/// A 9P2000.L stat at `offset`: mode, and the size; a mode with the
/// directory bit (0x4000) makes a directory QID.
pub fn parse_linux_stat9(buf: &P9Buffer, offset: usize) -> (r: StatResult)
    requires
        offset + 0x3_0000 <= usize::MAX,
    ensures
        r.mode == get_u32(buf.data@, offset as int),
        r.size == get_u64(buf.data@, stat_size_offset(buf.data@, offset as int)),
        r.qid == (Qid {
            qtype: if r.mode & 0x4000 != 0 { P9_QTDIR } else { P9_QTFILE },
            version: 0,
            path: 0,
        }),
        r.name@ == Seq::<char>::empty(),
{
    let mode = buf.read_u32_at(offset);
    let (_uid, uid_sz) = buf.read_str_at(offset + 4);
    let gid_off = offset + 4 + uid_sz;
    let (_gid, gid_sz) = buf.read_str_at(gid_off);
    let nlink_off = gid_off + gid_sz;
    let size_off = nlink_off + 4 + 4;
    let size = buf.read_u64_at(size_off);
    let qid = Qid { qtype: if mode & 0x4000 != 0 { P9_QTDIR } else { P9_QTFILE }, version: 0, path: 0 };
    StatResult { qid, mode, size, name: String::new() }
}

/// The type byte of a reply.
pub open spec fn reply_type(s: Seq<u8>) -> u8 {
    get_u8(s, 4)
}

/// Rversion: the server's message size.
pub fn parse_version(resp: &P9Buffer) -> (r: Result<u32, &'static str>)
    ensures
        reply_type(resp.data@) == P9_RVERSION ==> r == Ok::<u32, &'static str>(get_u32(resp.data@, 7) as u32),
        reply_type(resp.data@) != P9_RVERSION ==> r == Err::<u32, &'static str>("Invalid version response"),
{
    if resp.read_u8_at(4) != P9_RVERSION {
        return Err("Invalid version response");
    }
    Ok(resp.read_u32_at(7))
}

/// Rattach: the QID of the root.
pub fn parse_attach(resp: &P9Buffer) -> (r: Result<Qid, &'static str>)
    ensures
        reply_type(resp.data@) == P9_RATTACH ==> r == Ok::<Qid, &'static str>(qid_at(resp.data@, 7)),
        reply_type(resp.data@) != P9_RATTACH ==> r == Err::<Qid, &'static str>("Attach failed"),
{
    if resp.read_u8_at(4) != P9_RATTACH {
        return Err("Attach failed");
    }
    Ok(parse_qid(resp, 7))
}

/// How many QIDs of an Rwalk claiming `nwalk` fit in `len` bytes.
pub open spec fn walk_count(len: int, nwalk: int) -> int {
    if len < 9 { 0 } else if nwalk < (len - 9) / 13 { nwalk } else { (len - 9) / 13 }
}

/// Rwalk: the claimed number of QIDs, and those that the reply holds.
pub fn parse_walk(resp: &P9Buffer) -> (r: Result<(u16, Vec<Qid>), &'static str>)
    ensures
        reply_type(resp.data@) != P9_RWALK ==> r == Err::<(u16, Vec<Qid>), &'static str>("Walk failed"),
        reply_type(resp.data@) == P9_RWALK ==> r is Ok && ({
            let (n, qids) = r->Ok_0;
            &&& n == get_u16(resp.data@, 7)
            &&& qids@ == Seq::new(
                walk_count(resp.data@.len() as int, n as int) as nat,
                |k: int| qid_at(resp.data@, 9 + 13 * k),
            )
        }),
{
    if resp.read_u8_at(4) != P9_RWALK {
        return Err("Walk failed");
    }
    let nwalk = resp.read_u16_at(7);
    let ghost len = resp.data@.len() as int;
    let mut qids: Vec<Qid> = Vec::new();
    let mut offset: usize = 9;
    let mut k: u16 = 0;
    while k < nwalk
        invariant
            k <= nwalk,
            offset == 9 + 13 * k,
            len == resp.data@.len(),
            k <= walk_count(len, nwalk as int),
            qids@ == Seq::new(k as nat, |j: int| qid_at(resp.data@, 9 + 13 * j)),
        ensures
            qids@ == Seq::new(walk_count(len, nwalk as int) as nat, |j: int| qid_at(resp.data@, 9 + 13 * j)),
        decreases nwalk - k,
    {
        if offset > resp.len() || resp.len() - offset < 13 {
            assert(k == walk_count(len, nwalk as int));
            break;
        }
        qids.push(parse_qid(resp, offset));
        offset = offset + 13;
        k = k + 1;
        assert(qids@ =~= Seq::new(k as nat, |j: int| qid_at(resp.data@, 9 + 13 * j)));
    }
    Ok((nwalk, qids))
}

/// Rclunk.
pub fn parse_clunk(resp: &P9Buffer) -> (r: Result<(), &'static str>)
    ensures
        reply_type(resp.data@) == P9_RCLUNK ==> r is Ok,
        reply_type(resp.data@) != P9_RCLUNK ==> r == Err::<(), &'static str>("Clunk failed"),
{
    if resp.read_u8_at(4) != P9_RCLUNK {
        return Err("Clunk failed");
    }
    Ok(())
}

/// Ropen: the QID of the opened file.
pub fn parse_open(resp: &P9Buffer) -> (r: Result<Qid, &'static str>)
    ensures
        reply_type(resp.data@) == P9_ROPEN ==> r == Ok::<Qid, &'static str>(qid_at(resp.data@, 7)),
        reply_type(resp.data@) != P9_ROPEN ==> r == Err::<Qid, &'static str>("Open failed"),
{
    if resp.read_u8_at(4) != P9_ROPEN {
        return Err("Open failed");
    }
    Ok(parse_qid(resp, 7))
}

/// Rread: the data, as many bytes as claimed or as the reply holds.
pub fn parse_read(resp: &P9Buffer) -> (r: Result<Vec<u8>, &'static str>)
    requires
        reply_type(resp.data@) == P9_RREAD ==> resp.data@.len() >= 11,
    ensures
        reply_type(resp.data@) != P9_RREAD ==> r == Err::<Vec<u8>, &'static str>("Read failed"),
        reply_type(resp.data@) == P9_RREAD ==> r is Ok && ({
            let s = resp.data@;
            let n = get_u32(s, 7);
            r->Ok_0@ == if n + 11 > s.len() { s.subrange(11, s.len() as int) } else { s.subrange(11, 11 + n) }
        }),
{
    if resp.read_u8_at(4) != P9_RREAD {
        return Err("Read failed");
    }
    let nread = resp.read_u32_at(7) as usize;
    let len = resp.len();
    let end = if nread > len || len - nread < 11 { len } else { 11 + nread };
    let mut out: Vec<u8> = Vec::new();
    let mut j: usize = 11;
    while j < end
        invariant
            11 <= j <= end <= resp.data@.len(),
            out@ == resp.data@.subrange(11, j as int),
        decreases end - j,
    {
        out.push(resp.data[j]);
        j = j + 1;
        assert(out@ =~= resp.data@.subrange(11, j as int));
    }
    Ok(out)
}

/// Rlstat: the stat that follows its length field.
pub fn parse_lstat(resp: &P9Buffer) -> (r: Result<StatResult, &'static str>)
    ensures
        reply_type(resp.data@) != P9_RLSTAT ==> r is Err && r->Err_0 == "Lstat failed",
        reply_type(resp.data@) == P9_RLSTAT && (get_u16(resp.data@, 7) == 0 || 9 + get_u16(resp.data@, 7)
            > resp.data@.len()) ==> r is Err && r->Err_0 == "Invalid stat response",
        reply_type(resp.data@) == P9_RLSTAT && get_u16(resp.data@, 7) != 0 && 9 + get_u16(resp.data@, 7)
            <= resp.data@.len() ==> r is Ok && r->Ok_0.mode == get_u32(resp.data@, 9)
            && r->Ok_0.size == get_u64(resp.data@, stat_size_offset(resp.data@, 9))
            && r->Ok_0.qid.qtype == (if r->Ok_0.mode & 0x4000 != 0 { P9_QTDIR } else { P9_QTFILE }),
{
    if resp.read_u8_at(4) != P9_RLSTAT {
        return Err("Lstat failed");
    }
    let stat_len = resp.read_u16_at(7) as usize;
    if stat_len == 0 || 9 + stat_len > resp.len() {
        return Err("Invalid stat response");
    }
    Ok(parse_linux_stat9(resp, 9))
}

// ─── Client ─────────────────────────────────────────────────────────────

/// Fid numbering and the attached root.
pub struct P9Transport {
    pub next_fid: u32,
    pub root_fid: u32,
    pub initialized: bool,
}

impl P9Transport {
    pub fn new() -> (r: Self)
        ensures
            r.next_fid == 0,
            r.root_fid == 0,
            !r.initialized,
    {
        P9Transport { next_fid: 0, root_fid: 0, initialized: false }
    }

    /// The next unused fid.
    pub fn alloc_fid(&mut self) -> (r: u32)
        requires
            old(self).next_fid < u32::MAX,
        ensures
            r == old(self).next_fid,
            final(self).next_fid == old(self).next_fid + 1,
            final(self).root_fid == old(self).root_fid,
            final(self).initialized == old(self).initialized,
    {
        let fid = self.next_fid;
        self.next_fid = self.next_fid + 1;
        fid
    }
}

/// A 9P file system mounted from the host.
pub struct P9FileSystem {
    pub transport: P9Transport,
    pub msize: u32,
}

impl P9FileSystem {
    pub fn new() -> (r: Self)
        ensures
            r.transport.next_fid == 0,
            r.transport.root_fid == 0,
            !r.transport.initialized,
            r.msize == P9_DEFAULT_MSIZE,
    {
        P9FileSystem { transport: P9Transport::new(), msize: P9_DEFAULT_MSIZE }
    }

    /// Sends a framed request and waits for the reply.  No virtqueue is
    /// wired to this client, so no reply ever comes.
    pub fn send_request(&self, msg: &[u8]) -> (r: Result<P9Buffer, &'static str>)
        ensures
            r is Err && r->Err_0 == TRANSPORT_UNAVAILABLE,
    {
        Err(TRANSPORT_UNAVAILABLE)
    }

    /// Negotiates the version (message size at most `msize`) and attaches
    /// the root of `mount_tag` under a fresh fid.
    pub fn init(&mut self, mount_tag: &str) -> (r: Result<(), &'static str>)
        requires
            old(self).transport.next_fid < u32::MAX,
        ensures
            r is Err && r->Err_0 == TRANSPORT_UNAVAILABLE,
            final(self).msize == old(self).msize,
            !final(self).transport.initialized || old(self).transport.initialized,
    {
        let req = version_request(self.msize);
        let resp = match self.send_request(req.as_slice()) {
            Ok(b) => b,
            Err(e) => return Err(e),
        };
        let server_msize = parse_version(&resp)?;
        if server_msize < self.msize {
            self.msize = server_msize;
        }
        let root_fid = self.transport.alloc_fid();
        let req = attach_request(root_fid, "nobody", mount_tag);
        let resp = match self.send_request(req.as_slice()) {
            Ok(b) => b,
            Err(e) => return Err(e),
        };
        let _root_qid = parse_attach(&resp)?;
        self.transport.root_fid = root_fid;
        self.transport.initialized = true;
        Ok(())
    }

    /// Walks from `fid` along `names` into `new_fid`; the QIDs walked.  A
    /// walk that stops short releases `new_fid` and fails.
    pub fn p9_walk(&self, fid: u32, new_fid: u32, names: &[&str]) -> (r: Result<Vec<Qid>, &'static str>)
        ensures
            r is Err,
            !self.transport.initialized ==> r->Err_0 == NOT_INITIALIZED,
            self.transport.initialized ==> r->Err_0 == TRANSPORT_UNAVAILABLE,
    {
        if !self.transport.initialized {
            return Err(NOT_INITIALIZED);
        }
        let req = walk_request(fid, new_fid, names);
        let resp = match self.send_request(req.as_slice()) {
            Ok(b) => b,
            Err(e) => return Err(e),
        };
        let (nwalk, qids) = parse_walk(&resp)?;
        if names.len() != 0 && nwalk as usize != names.len() {
            let _ = self.p9_clunk(new_fid);
            return Err("Walk: not all components resolved");
        }
        Ok(qids)
    }

    pub fn p9_clunk(&self, fid: u32) -> (r: Result<(), &'static str>)
        ensures
            r is Err && r->Err_0 == TRANSPORT_UNAVAILABLE,
    {
        let req = clunk_request(fid);
        let resp = match self.send_request(req.as_slice()) {
            Ok(b) => b,
            Err(e) => return Err(e),
        };
        parse_clunk(&resp)
    }

    pub fn p9_open(&self, fid: u32, flags: u32) -> (r: Result<Qid, &'static str>)
        ensures
            r is Err && r->Err_0 == TRANSPORT_UNAVAILABLE,
    {
        let req = open_request(fid, flags);
        let resp = match self.send_request(req.as_slice()) {
            Ok(b) => b,
            Err(e) => return Err(e),
        };
        parse_open(&resp)
    }

    pub fn p9_read(&self, fid: u32, offset: u64, count: u32) -> (r: Result<Vec<u8>, &'static str>)
        ensures
            r is Err && r->Err_0 == TRANSPORT_UNAVAILABLE,
    {
        let req = read_request(fid, offset, count);
        let resp = match self.send_request(req.as_slice()) {
            Ok(b) => b,
            Err(e) => return Err(e),
        };
        parse_read(&resp)
    }

    pub fn p9_lstat(&self, fid: u32) -> (r: Result<StatResult, &'static str>)
        ensures
            r is Err && r->Err_0 == TRANSPORT_UNAVAILABLE,
    {
        let req = lstat_request(fid);
        let resp = match self.send_request(req.as_slice()) {
            Ok(b) => b,
            Err(e) => return Err(e),
        };
        parse_lstat(&resp)
    }
}

impl FileSystem for P9FileSystem {
    open spec fn root_spec(&self) -> u64 {
        self.transport.root_fid as u64
    }

    open spec fn read_spec(&self, inode: u64, offset: usize, len: nat) -> Result<Seq<u8>, VfsError> {
        Err(VfsError::IoError)
    }

    open spec fn write_spec(&self, inode: u64, offset: usize, data: Seq<u8>) -> Result<usize, VfsError> {
        Err(VfsError::PermissionDenied)
    }

    open spec fn lookup_spec(&self, dir: u64, name: Seq<char>) -> Result<u64, VfsError> {
        if !self.transport.initialized { Err(VfsError::IoError) } else { Err(VfsError::NotFound) }
    }

    open spec fn metadata_spec(&self, inode: u64) -> Result<(VfsFileType, usize, Seq<char>), VfsError> {
        Err(VfsError::IoError)
    }

    open spec fn readdir_spec(&self, dir: u64, idx: usize) -> Result<Option<(Seq<char>, VfsFileType, usize)>, VfsError> {
        Ok(None)
    }

    open spec fn fs_inv(&self) -> bool {
        true
    }

    open spec fn create_spec(&self, dir: u64, name: Seq<char>, is_dir: bool) -> Result<u64, VfsError> {
        Err(VfsError::PermissionDenied)
    }

    open spec fn unlink_spec(&self, dir: u64, name: Seq<char>) -> Result<(), VfsError> {
        Err(VfsError::PermissionDenied)
    }

    open spec fn set_size_spec(&self, inode: u64, size: usize) -> Result<(), VfsError> {
        Err(VfsError::PermissionDenied)
    }

    fn name(&self) -> (r: &str)
        ensures
            r@ == "9p"@,
    {
        "9p"
    }

    fn root_inode(&self) -> (r: u64) {
        self.transport.root_fid as u64
    }

    /// The entry is walked to under the next unused fid.
    fn lookup(&self, dir: u64, name: &str) -> (r: Result<u64, VfsError>) {
        if !self.transport.initialized {
            return Err(VfsError::IoError);
        }
        let new_fid = self.transport.next_fid;
        let names = [name];
        match self.p9_walk(dir as u32, new_fid, &names) {
            Ok(_) => Ok(new_fid as u64),
            Err(_) => Err(VfsError::NotFound),
        }
    }

    fn metadata(&self, inode: u64) -> (r: Result<VfsMetadata, VfsError>)
        ensures
            r == Err::<VfsMetadata, VfsError>(VfsError::IoError),
    {
        let stat = match self.p9_lstat(inode as u32) {
            Ok(s) => s,
            Err(_) => return Err(VfsError::IoError),
        };
        Ok(VfsMetadata {
            file_type: if stat.qid.is_dir() { VfsFileType::Directory } else { VfsFileType::File },
            size: stat.size as usize,
            name: stat.name,
        })
    }

    /// Directory listing is not implemented over 9P: no entries.
    fn readdir(&self, dir: u64, idx: usize) -> (r: Result<Option<VfsDirEntry>, VfsError>)
        ensures
            r == Ok::<Option<VfsDirEntry>, VfsError>(None),
    {
        Ok(None)
    }

    fn read_file(&self, inode: u64, offset: usize, buf: &mut [u8]) -> (r: Result<usize, VfsError>)
        ensures
            r == Err::<usize, VfsError>(VfsError::IoError),
            final(buf)@ == old(buf)@,
    {
        match self.p9_open(inode as u32, P9_OREAD) {
            Ok(_) => {},
            Err(_) => return Err(VfsError::IoError),
        }
        let data = match self.p9_read(inode as u32, offset as u64, buf.len() as u32) {
            Ok(d) => d,
            Err(_) => return Err(VfsError::IoError),
        };
        let n = if data.len() < buf.len() { data.len() } else { buf.len() };
        let mut i: usize = 0;
        while i < n
            invariant
                n <= data.len(),
                n <= buf.len(),
            decreases n - i,
        {
            buf[i] = data[i];
            i = i + 1;
        }
        Ok(n)
    }

    /// The 9P mount is read-only.
    fn write_file(&mut self, inode: u64, offset: usize, data: &[u8]) -> (r: Result<usize, VfsError>)
        ensures
            r == Err::<usize, VfsError>(VfsError::PermissionDenied),
    {
        Err(VfsError::PermissionDenied)
    }

    fn create_file(&mut self, dir: u64, name: &str) -> (r: Result<u64, VfsError>)
        ensures
            r == Err::<u64, VfsError>(VfsError::PermissionDenied),
    {
        Err(VfsError::PermissionDenied)
    }

    fn create_dir(&mut self, dir: u64, name: &str) -> (r: Result<u64, VfsError>)
        ensures
            r == Err::<u64, VfsError>(VfsError::PermissionDenied),
    {
        Err(VfsError::PermissionDenied)
    }

    fn unlink(&mut self, dir: u64, name: &str) -> (r: Result<(), VfsError>)
        ensures
            r == Err::<(), VfsError>(VfsError::PermissionDenied),
    {
        Err(VfsError::PermissionDenied)
    }

    fn set_file_size(&mut self, inode: u64, size: usize) -> (r: Result<(), VfsError>)
        ensures
            r == Err::<(), VfsError>(VfsError::PermissionDenied),
    {
        Err(VfsError::PermissionDenied)
    }
}

/// Sets up the 9P client for `mount_tag`, to be mounted at `/host`.
pub fn try_init(io_base: u16, mount_tag: &str) -> (r: Result<P9FileSystem, &'static str>)
    ensures
        r is Err && r->Err_0 == TRANSPORT_UNAVAILABLE,
{
    let mut fs = P9FileSystem::new();
    match fs.init(mount_tag) {
        Ok(()) => Ok(fs),
        Err(e) => Err(e),
    }
}

} // verus!
