//! The virtual file system: the file system interface, the open file
//! table, path resolution over the mount table, and the path-level
//! operations (open, read, write, ls, stat, unlink, mkdir).
use vstd::prelude::*;

verus! {

/// VFS errors.
#[derive(Clone, Copy, Debug, PartialEq, Eq, Structural)]
pub enum VfsError {
    NotFound,
    AlreadyExists,
    NotADirectory,
    NotAFile,
    PermissionDenied,
    IoError,
    InvalidParam,
    OutOfMemory,
    DirectoryNotEmpty,
}

/// Regular file or directory.
#[derive(Clone, Copy, Debug, PartialEq, Eq, Structural)]
pub enum VfsFileType {
    File,
    Directory,
}

/// File or directory metadata.
pub struct VfsMetadata {
    pub file_type: VfsFileType,
    pub size: usize,
    pub name: String,
}

impl VfsMetadata {
    /// It describes a directory.
    pub fn is_dir(&self) -> (r: bool)
        ensures
            r == (self.file_type == VfsFileType::Directory),
    {
        match self.file_type {
            VfsFileType::Directory => true,
            VfsFileType::File => false,
        }
    }
}

/// A directory entry, as `readdir` returns it.
pub struct VfsDirEntry {
    pub name: String,
    pub file_type: VfsFileType,
    pub size: usize,
}

/// Open flags.
pub const O_RDONLY: u32 = 0;
pub const O_WRONLY: u32 = 1;
pub const O_RDWR: u32 = 2;
pub const O_CREAT: u32 = 0x100;
pub const O_TRUNC: u32 = 0x200;

/// At most this many files are open at once.
pub const MAX_OPEN_FILES: usize = 64;

/// At most this many file systems are mounted.
pub const MAX_MOUNTS: usize = 8;

/// `r` is what `spec` describes: the same error, or metadata with the
/// given type, size and name.
pub open spec fn metadata_matches(
    spec: Result<(VfsFileType, usize, Seq<char>), VfsError>,
    r: Result<VfsMetadata, VfsError>,
) -> bool {
    match r {
        Ok(md) => spec == Ok::<(VfsFileType, usize, Seq<char>), VfsError>((md.file_type, md.size, md.name@)),
        Err(e) => spec == Err::<(VfsFileType, usize, Seq<char>), VfsError>(e),
    }
}

/// `r` is what `spec` describes: the same error, no entry, or an entry
/// with the given name, type and size.
pub open spec fn entry_matches(
    spec: Result<Option<(Seq<char>, VfsFileType, usize)>, VfsError>,
    r: Result<Option<VfsDirEntry>, VfsError>,
) -> bool {
    match r {
        Ok(Some(en)) => spec == Ok::<Option<(Seq<char>, VfsFileType, usize)>, VfsError>(
            Some((en.name@, en.file_type, en.size)),
        ),
        Ok(None) => spec == Ok::<Option<(Seq<char>, VfsFileType, usize)>, VfsError>(None),
        Err(e) => spec == Err::<Option<(Seq<char>, VfsFileType, usize)>, VfsError>(e),
    }
}

/// A file system that the VFS can mount. Inode numbers are the file
/// system's own. `lookup` is described by `lookup_spec` and `root_inode`
/// by `root_spec`, so that path walks have a meaning; reads and writes
/// report no more bytes than they were given room or data for.
pub trait FileSystem {
    /// The inode of the root directory.
    spec fn root_spec(&self) -> u64;

    /// The inode of entry `name` of directory `dir`.
    spec fn lookup_spec(&self, dir: u64, name: Seq<char>) -> Result<u64, VfsError>;

    /// The file system's name.
    fn name(&self) -> &str;

    /// The inode of the root directory.
    fn root_inode(&self) -> (r: u64)
        ensures
            r == self.root_spec(),
    ;

    /// The inode of entry `name` of directory `dir`.
    fn lookup(&self, dir: u64, name: &str) -> (r: Result<u64, VfsError>)
        ensures
            r == self.lookup_spec(dir, name@),
    ;

    /// Metadata of `inode`: its type, size and name.
    spec fn metadata_spec(&self, inode: u64) -> Result<(VfsFileType, usize, Seq<char>), VfsError>;

    /// Entry `idx` of directory `dir`: its name, type and size.
    spec fn readdir_spec(&self, dir: u64, idx: usize) -> Result<Option<(Seq<char>, VfsFileType, usize)>, VfsError>;

    /// Metadata of `inode`.
    fn metadata(&self, inode: u64) -> (r: Result<VfsMetadata, VfsError>)
        ensures
            metadata_matches(self.metadata_spec(inode), r),
    ;

    /// Entry `idx` of directory `dir` (`None` past the last).
    fn readdir(&self, dir: u64, idx: usize) -> (r: Result<Option<VfsDirEntry>, VfsError>)
        ensures
            entry_matches(self.readdir_spec(dir, idx), r),
    ;

    /// What reading file `inode` from `offset` with room for `len` bytes
    /// gives: the bytes read, at most `len` of them, or the error.
    spec fn read_spec(&self, inode: u64, offset: usize, len: nat) -> Result<Seq<u8>, VfsError>;

    /// What writing `data` to file `inode` at `offset` answers.
    spec fn write_spec(&self, inode: u64, offset: usize, data: Seq<u8>) -> Result<usize, VfsError>;

    /// Reads file `inode` from `offset` into `buf`; the byte count. The
    /// bytes read go to the front of `buf`; on an error `buf` is untouched.
    fn read_file(&self, inode: u64, offset: usize, buf: &mut [u8]) -> (r: Result<usize, VfsError>)
        requires
            offset + old(buf)@.len() <= usize::MAX,
        ensures
            final(buf)@.len() == old(buf)@.len(),
            r matches Ok(n) ==> n <= old(buf)@.len(),
            match self.read_spec(inode, offset, old(buf)@.len()) {
                Ok(got) => got.len() <= old(buf)@.len() && r == Ok::<usize, VfsError>(got.len() as usize)
                    && final(buf)@ == got + old(buf)@.skip(got.len() as int),
                Err(e) => r == Err::<usize, VfsError>(e) && final(buf)@ == old(buf)@,
            },
    ;

    /// Writes `data` to file `inode` at `offset`; the byte count.
    fn write_file(&mut self, inode: u64, offset: usize, data: &[u8]) -> (r: Result<usize, VfsError>)
        requires
            offset + data@.len() <= usize::MAX,
        ensures
            r matches Ok(n) ==> n <= data@.len(),
            r == old(self).write_spec(inode, offset, data@),
    ;

    /// The file system is in a state that the specs below describe; the
    /// changing operations keep it so.
    spec fn fs_inv(&self) -> bool;

    /// What creating `name` (a directory if `is_dir`) in `dir` answers.
    spec fn create_spec(&self, dir: u64, name: Seq<char>, is_dir: bool) -> Result<u64, VfsError>;

    /// What removing entry `name` of `dir` answers.
    spec fn unlink_spec(&self, dir: u64, name: Seq<char>) -> Result<(), VfsError>;

    /// What setting the size of `inode` to `size` answers.
    spec fn set_size_spec(&self, inode: u64, size: usize) -> Result<(), VfsError>;

    /// Creates file `name` in directory `dir`; its inode.
    fn create_file(&mut self, dir: u64, name: &str) -> (r: Result<u64, VfsError>)
        ensures
            old(self).fs_inv() ==> final(self).fs_inv() && r == old(self).create_spec(dir, name@, false),
    ;

    /// Creates directory `name` in directory `dir`; its inode.
    fn create_dir(&mut self, dir: u64, name: &str) -> (r: Result<u64, VfsError>)
        ensures
            old(self).fs_inv() ==> final(self).fs_inv() && r == old(self).create_spec(dir, name@, true),
    ;

    /// Removes entry `name` of directory `dir`.
    fn unlink(&mut self, dir: u64, name: &str) -> (r: Result<(), VfsError>)
        ensures
            old(self).fs_inv() ==> final(self).fs_inv() && r == old(self).unlink_spec(dir, name@),
    ;

    /// Truncates or extends file `inode` to `size` bytes.
    fn set_file_size(&mut self, inode: u64, size: usize) -> (r: Result<(), VfsError>)
        ensures
            old(self).fs_inv() ==> final(self).fs_inv() && r == old(self).set_size_spec(inode, size),
    ;
}

/// An open file: the mount it lives on, its inode, the position and the
/// open flags.
#[derive(Clone, Copy, Debug, PartialEq, Eq, Structural)]
pub struct OpenFile {
    pub mount_id: usize,
    pub inode: u64,
    pub pos: usize,
    pub flags: u32,
}

/// The open file table: freed slots are reused lowest first; it grows up
/// to `MAX_OPEN_FILES` slots.
pub struct OpenFileTable {
    pub files: Vec<Option<OpenFile>>,
}

/// `i` is the lowest empty slot of `s`.
pub open spec fn first_empty(s: Seq<Option<OpenFile>>, i: int) -> bool {
    &&& 0 <= i < s.len()
    &&& s[i] is None
    &&& forall|j: int| 0 <= j < i ==> (#[trigger] s[j]) is Some
}

impl View for OpenFileTable {
    type V = Seq<Option<OpenFile>>;

    open spec fn view(&self) -> Seq<Option<OpenFile>> {
        self.files@
    }
}

impl OpenFileTable {
    /// At most `MAX_OPEN_FILES` slots.
    pub open spec fn wf(&self) -> bool {
        self@.len() <= MAX_OPEN_FILES
    }

    /// No slot.
    pub fn new() -> (r: Self)
        ensures
            r.wf(),
            r@ == Seq::<Option<OpenFile>>::empty(),
    {
        OpenFileTable { files: Vec::new() }
    }

    /// Opens inode `inode` of mount `mount_id` at position 0 in the lowest
    /// empty slot, or a new slot at the end; `OutOfMemory` when there is no
    /// empty slot and the table has `MAX_OPEN_FILES` slots.
    pub fn allocate(&mut self, mount_id: usize, inode: u64, flags: u32) -> (r: Result<usize, VfsError>)
        requires
            old(self).wf(),
        ensures
            final(self).wf(),
            ({
                let f = OpenFile { mount_id, inode, pos: 0, flags };
                let s = old(self)@;
                if exists|i: int| first_empty(s, i) {
                    r matches Ok(i) && first_empty(s, i as int) && final(self)@ == s.update(i as int, Some(f))
                } else if s.len() >= MAX_OPEN_FILES {
                    r == Err::<usize, VfsError>(VfsError::OutOfMemory) && final(self)@ == s
                } else {
                    r == Ok::<usize, VfsError>(s.len() as usize) && final(self)@ == s.push(Some(f))
                }
            }),
    {
        let f = OpenFile { mount_id, inode, pos: 0, flags };
        let mut i: usize = 0;
        while i < self.files.len()
            invariant
                self.wf(),
                self@ == old(self)@,
                f == (OpenFile { mount_id, inode, pos: 0, flags }),
                i <= self@.len(),
                forall|j: int| 0 <= j < i ==> (#[trigger] self@[j]) is Some,
            decreases self@.len() - i,
        {
            if self.files[i].is_none() {
                self.files.set(i, Some(f));
                assert(self@ =~= old(self)@.update(i as int, Some(f)));
                assert(first_empty(old(self)@, i as int));
                assert(exists|k: int| first_empty(old(self)@, k));
                proof {
                    assert forall|k: int| #[trigger] first_empty(old(self)@, k) implies k == i by {
                        if k < i {
                        } else if k > i {
                            assert(old(self)@[i as int] is None);
                        }
                    }
                }
                return Ok(i);
            }
            i = i + 1;
        }
        if self.files.len() >= MAX_OPEN_FILES {
            return Err(VfsError::OutOfMemory);
        }
        let fd = self.files.len();
        self.files.push(Some(f));
        Ok(fd)
    }

    /// The open file `fd`, if any.
    pub fn get(&self, fd: usize) -> (r: Option<&OpenFile>)
        ensures
            match r {
                Some(f) => fd < self@.len() && self@[fd as int] == Some(*f),
                None => fd >= self@.len() || self@[fd as int] is None,
            },
    {
        if fd >= self.files.len() {
            return None;
        }
        match &self.files[fd] {
            Some(f) => Some(f),
            None => None,
        }
    }

    /// The open file `fd`, to change in place.
    pub fn get_mut(&mut self, fd: usize) -> (r: Option<&mut OpenFile>)
        ensures
            match r {
                Some(f) => fd < old(self)@.len() && old(self)@[fd as int] == Some(*f)
                    && final(self)@ == old(self)@.update(fd as int, Some(*final(f))),
                None => (fd >= old(self)@.len() || old(self)@[fd as int] is None) && final(self)@ == old(self)@,
            },
    {
        if fd >= self.files.len() {
            return None;
        }
        if self.files[fd].is_none() {
            return None;
        }
        let slot = &mut self.files[fd];
        match slot {
            Some(f) => Some(f),
            None => None,
        }
    }

    /// Closes `fd`; false when it was not open.
    pub fn close(&mut self, fd: usize) -> (r: bool)
        ensures
            r == (fd < old(self)@.len() && old(self)@[fd as int] is Some),
            r ==> final(self)@ == old(self)@.update(fd as int, None),
            !r ==> final(self)@ == old(self)@,
    {
        if fd < self.files.len() && self.files[fd].is_some() {
            self.files.set(fd, None);
            true
        } else {
            false
        }
    }
}


/// `s` without one leading '/'.
pub open spec fn strip_slash(s: Seq<char>) -> Seq<char> {
    if s.len() > 0 && s[0] == '/' {
        s.skip(1)
    } else {
        s
    }
}

/// `s` is empty or the root ("/").
pub open spec fn is_root_path(s: Seq<char>) -> bool {
    s.len() == 0 || (s.len() == 1 && s[0] == '/')
}

/// The best mount among the first `k` for path `t` (leading '/' removed):
/// (mount index, prefix length, path relative to the mount). A root mount
/// (empty prefix) matches anything but only when nothing matched before; a
/// prefix matches when the path is the prefix or continues with '/', and a
/// longer prefix wins over a shorter one that came first.
pub open spec fn best_mount(ps: Seq<Seq<char>>, t: Seq<char>, k: int) -> Option<(int, int, Seq<char>)>
    decreases k,
{
    if k <= 0 {
        None
    } else {
        let best = best_mount(ps, t, k - 1);
        let i = k - 1;
        let mp = strip_slash(ps[i]);
        if mp.len() == 0 {
            if best is None {
                Some((i, 0, t))
            } else {
                best
            }
        } else if mp.len() <= t.len() && t.take(mp.len() as int) == mp && (t.len() == mp.len()
            || t[mp.len() as int] == '/') {
            let rel = strip_slash(t.skip(mp.len() as int));
            match best {
                None => Some((i, mp.len() as int, rel)),
                Some(b) => if b.1 < mp.len() {
                    Some((i, mp.len() as int, rel))
                } else {
                    best
                },
            }
        } else {
            best
        }
    }
}

/// The mount and relative path that `path` resolves to, for mount
/// prefixes `ps`: `InvalidParam` for an empty path, `NotFound` when no
/// mount matches.
pub open spec fn resolve_spec(ps: Seq<Seq<char>>, path: Seq<char>) -> Result<(int, Seq<char>), VfsError> {
    if path.len() == 0 {
        Err(VfsError::InvalidParam)
    } else {
        match best_mount(ps, strip_slash(path), ps.len() as int) {
            Some(b) => Ok((b.0, b.2)),
            None => Err(VfsError::NotFound),
        }
    }
}

/// Mount prefix `mp` (leading '/' removed, not empty) matches path `t`
/// (leading '/' removed): `t` is `mp` or continues it with '/'.
pub open spec fn prefix_matches(mp: Seq<char>, t: Seq<char>) -> bool {
    &&& 0 < mp.len() <= t.len()
    &&& t.take(mp.len() as int) == mp
    &&& (t.len() == mp.len() || t[mp.len() as int] == '/')
}

/// What the best of the first `k` mounts is: a mount among them whose
/// prefix matches (or the root, when no other prefix before it matched),
/// with the relative path after its prefix, and no matching prefix among
/// them is longer.
proof fn lemma_best_mount(ps: Seq<Seq<char>>, t: Seq<char>, k: int)
    requires
        0 <= k <= ps.len(),
    ensures
        match best_mount(ps, t, k) {
            Some(b) => {
                &&& 0 <= b.0 < k
                &&& b.1 == strip_slash(ps[b.0]).len()
                &&& (b.1 == 0 || prefix_matches(strip_slash(ps[b.0]), t))
                &&& b.2 == (if b.1 == 0 { t } else { strip_slash(t.skip(b.1)) })
                &&& forall|j: int| 0 <= j < k && #[trigger] prefix_matches(strip_slash(ps[j]), t) ==> strip_slash(
                    ps[j],
                ).len() <= b.1
                &&& forall|j: int|
                    0 <= j < b.0 ==> (#[trigger] prefix_matches(strip_slash(ps[j]), t) ==> strip_slash(ps[j]).len()
                        < b.1) && (b.1 == 0 ==> strip_slash(ps[j]).len() != 0)
            },
            None => forall|j: int|
                0 <= j < k ==> strip_slash(#[trigger] ps[j]).len() != 0 && !prefix_matches(strip_slash(ps[j]), t),
        },
    decreases k,
{
    if k > 0 {
        lemma_best_mount(ps, t, k - 1);
    }
}

/// Resolution picks the longest mount prefix that matches: when `path`
/// resolves to mount `i` with relative path `rel`, mount `i`'s prefix
/// matches the path (or is the root), `rel` is what follows it, and no
/// other matching prefix is longer, nor does one as long come first (and
/// a root mount is the first root). An empty path is refused with
/// `InvalidParam`; any other path resolves whenever some prefix matches or
/// a root mount exists, and fails with `NotFound` only when none does.
pub proof fn law_resolve_longest_prefix(ps: Seq<Seq<char>>, path: Seq<char>, j: int)
    requires
        0 <= j < ps.len(),
    ensures
        resolve_spec(ps, path) matches Ok((i, rel)) ==> {
            let t = strip_slash(path);
            let mi = strip_slash(ps[i]);
            &&& 0 <= i < ps.len()
            &&& (mi.len() == 0 || prefix_matches(mi, t))
            &&& rel == (if mi.len() == 0 { t } else { strip_slash(t.skip(mi.len() as int)) })
            &&& prefix_matches(strip_slash(ps[j]), t) ==> strip_slash(ps[j]).len() <= mi.len()
            &&& j < i && prefix_matches(strip_slash(ps[j]), t) ==> strip_slash(ps[j]).len() < mi.len()
            &&& j < i && mi.len() == 0 ==> strip_slash(ps[j]).len() != 0
        },
        path.len() == 0 <==> resolve_spec(ps, path) == Err::<(int, Seq<char>), VfsError>(VfsError::InvalidParam),
        path.len() > 0 && (strip_slash(ps[j]).len() == 0 || prefix_matches(strip_slash(ps[j]), strip_slash(path)))
            ==> resolve_spec(ps, path) is Ok,
        resolve_spec(ps, path) == Err::<(int, Seq<char>), VfsError>(VfsError::NotFound) ==> strip_slash(ps[j]).len()
            != 0 && !prefix_matches(strip_slash(ps[j]), strip_slash(path)),
{
    lemma_best_mount(ps, strip_slash(path), ps.len() as int);
}

/// The characters of `s`, as a `Vec`.
pub(crate) fn chars_of(s: &str) -> (r: Vec<char>)
    ensures
        r@ == s@,
{
    let n = s.unicode_len();
    let mut v: Vec<char> = Vec::new();
    let mut i: usize = 0;
    while i < n
        invariant
            n == s@.len(),
            i <= n,
            v@ == s@.take(i as int),
        decreases n - i,
    {
        v.push(s.get_char(i));
        i = i + 1;
        assert(v@ =~= s@.take(i as int));
    }
    assert(s@.take(n as int) =~= s@);
    v
}

/// `t` has `p` as a prefix.
fn starts_with(t: &Vec<char>, p: &Vec<char>) -> (r: bool)
    ensures
        r == (p@.len() <= t@.len() && t@.take(p@.len() as int) == p@),
{
    if p.len() > t.len() {
        return false;
    }
    let mut i: usize = 0;
    while i < p.len()
        invariant
            p@.len() <= t@.len(),
            i <= p@.len(),
            t@.take(i as int) == p@.take(i as int),
        decreases p@.len() - i,
    {
        if t[i] != p[i] {
            assert(t@.take(p@.len() as int)[i as int] != p@[i as int]);
            return false;
        }
        i = i + 1;
        assert(t@.take(i as int) =~= p@.take(i as int));
    }
    assert(p@.take(p@.len() as int) =~= p@);
    true
}

/// The characters `from..to` of `s` as a `String`.
pub(crate) fn substring(s: &str, from: usize, to: usize) -> (r: String)
    requires
        from <= to <= s@.len(),
    ensures
        r@ == s@.subrange(from as int, to as int),
{
    s.substring_char(from, to).to_owned()
}

/// The index of the first mount of the same prefix-length logic (see
/// `best_mount`), and the relative path, as `resolve_spec` gives them.
pub fn resolve_path(prefixes: &Vec<String>, path: &str) -> (r: Result<(usize, String), VfsError>)
    ensures
        match resolve_spec(prefixes@.map_values(|p: String| p@), path@) {
            Ok((i, rel)) => r matches Ok((ri, rs)) && ri == i && rs@ == rel,
            Err(e) => r == Err::<(usize, String), VfsError>(e),
        },
{
    let ghost ps = prefixes@.map_values(|p: String| p@);
    let n = path.unicode_len();
    if n == 0 {
        return Err(VfsError::InvalidParam);
    }
    let pc = chars_of(path);
    let start: usize = if pc[0] == '/' { 1 } else { 0 };
    let trimmed = substring(path, start, n);
    let tc = chars_of(trimmed.as_str());
    let ghost t = strip_slash(path@);
    assert(trimmed@ =~= t);
    let mut best: Option<(usize, usize, String)> = None;
    let mut i: usize = 0;
    while i < prefixes.len()
        invariant
            i <= prefixes@.len(),
            ps == prefixes@.map_values(|p: String| p@),
            tc@ == t,
            trimmed@ == t,
            match best_mount(ps, t, i as int) {
                None => best is None,
                Some(b) => best matches Some((bi, bl, brel)) && bi == b.0 && bl == b.1 && brel@ == b.2,
            },
        decreases prefixes@.len() - i,
    {
        let pstr = prefixes[i].as_str();
        let plen = pstr.unicode_len();
        let pcs = chars_of(pstr);
        let pstart: usize = if plen > 0 && pcs[0] == '/' { 1 } else { 0 };
        let mp = substring(pstr, pstart, plen);
        let mpc = chars_of(mp.as_str());
        proof {
            assert(ps[i as int] == prefixes@[i as int]@);
            assert(mp@ =~= strip_slash(ps[i as int]));
        }
        let mlen = mpc.len();
        if mlen == 0 {
            if best.is_none() {
                best = Some((i, 0, trimmed.clone()));
            }
        } else if starts_with(&tc, &mpc) {
            let tlen = tc.len();
            if tlen == mlen || tc[mlen] == '/' {
                let rstart: usize = if tlen > mlen { mlen + 1 } else { mlen };
                let rel = substring(trimmed.as_str(), rstart, tlen);
                proof {
                    assert(rel@ =~= strip_slash(t.skip(mlen as int)));
                }
                let better = match &best {
                    None => true,
                    Some(b) => b.1 < mlen,
                };
                if better {
                    best = Some((i, mlen, rel));
                }
            }
        }
        i = i + 1;
    }
    match best {
        Some((id, _, rel)) => Ok((id, rel)),
        None => Err(VfsError::NotFound),
    }
}

/// The position of the last '/' in `s`, if any.
pub open spec fn last_slash(s: Seq<char>) -> Option<int>
    decreases s.len(),
{
    if s.len() == 0 {
        None
    } else if s.last() == '/' {
        Some(s.len() - 1)
    } else {
        last_slash(s.drop_last())
    }
}

/// The parent path and the last name of `s`: split at the last '/';
/// `InvalidParam` for an empty path or one that ends in '/'.
pub open spec fn split_spec(s: Seq<char>) -> Result<(Seq<char>, Seq<char>), VfsError> {
    if s.len() == 0 {
        Err(VfsError::InvalidParam)
    } else {
        match last_slash(s) {
            Some(k) => if k + 1 == s.len() {
                Err(VfsError::InvalidParam)
            } else {
                Ok((s.take(k), s.skip(k + 1)))
            },
            None => Ok((Seq::empty(), s)),
        }
    }
}

pub(crate) proof fn lemma_last_slash(s: Seq<char>)
    ensures
        match last_slash(s) {
            Some(k) => 0 <= k < s.len() && s[k] == '/' && forall|j: int| k < j < s.len() ==> s[j] != '/',
            None => forall|j: int| 0 <= j < s.len() ==> s[j] != '/',
        },
    decreases s.len(),
{
    if s.len() > 0 && s.last() != '/' {
        lemma_last_slash(s.drop_last());
        assert forall|j: int| 0 <= j < s.len() - 1 implies s.drop_last()[j] == s[j] by {}
    }
}

/// Splits "dir1/dir2/file" into ("dir1/dir2", "file") (see `split_spec`).
pub fn split_filename(path: &str) -> (r: Result<(String, String), VfsError>)
    ensures
        match split_spec(path@) {
            Ok((a, b)) => r matches Ok((x, y)) && x@ == a && y@ == b,
            Err(e) => r == Err::<(String, String), VfsError>(e),
        },
{
    let n = path.unicode_len();
    if n == 0 {
        return Err(VfsError::InvalidParam);
    }
    let pc = chars_of(path);
    let mut k: usize = n;
    while k > 0
        invariant
            k <= n,
            n == path@.len(),
            pc@ == path@,
            forall|j: int| k <= j < n ==> path@[j] != '/',
        ensures
            k <= n,
            forall|j: int| k <= j < n ==> path@[j] != '/',
            k == 0 || path@[k - 1] == '/',
        decreases k,
    {
        if pc[k - 1] == '/' {
            break;
        }
        k = k - 1;
    }
    proof {
        lemma_last_slash(path@);
    }
    if k == 0 {
        proof {
            if last_slash(path@) is Some {
                let j = last_slash(path@)->0;
                assert(path@[j] == '/');
            }
        }
        let whole = substring(path, 0, n);
        assert(whole@ =~= path@);
        return Ok((String::new(), whole));
    }
    let pos = k - 1;
    proof {
        let ls = last_slash(path@);
        if ls is None {
            assert(path@[pos as int] == '/');
        } else {
            let j = ls->0;
            if j < pos {
                assert(path@[pos as int] == '/');
            } else if j > pos {
                assert(path@[j] == '/');
            }
        }
    }
    if pos + 1 == n {
        return Err(VfsError::InvalidParam);
    }
    let parent = substring(path, 0, pos);
    let name = substring(path, pos + 1, n);
    assert(parent@ =~= path@.take(pos as int));
    assert(name@ =~= path@.skip(pos + 1));
    Ok((parent, name))
}


/// Splitting state after a prefix of a path: the names done and where
/// the current name starts.
pub open spec fn split_state(s: Seq<char>, i: int) -> (Seq<Seq<char>>, int)
    decreases i,
{
    if i <= 0 {
        (Seq::empty(), 0)
    } else {
        let (done, start) = split_state(s, i - 1);
        if s[i - 1] == '/' {
            if start < i - 1 {
                (done.push(s.subrange(start, i - 1)), i)
            } else {
                (done, i)
            }
        } else {
            (done, start)
        }
    }
}

/// The non-empty '/'-separated names of path `s`, in order.
pub open spec fn components(s: Seq<char>) -> Seq<Seq<char>> {
    let (done, start) = split_state(s, s.len() as int);
    if start < s.len() {
        done.push(s.subrange(start, s.len() as int))
    } else {
        done
    }
}

proof fn lemma_split_start(s: Seq<char>, i: int)
    requires
        0 <= i <= s.len(),
    ensures
        0 <= split_state(s, i).1 <= i,
    decreases i,
{
    if i > 0 {
        lemma_split_start(s, i - 1);
    }
}

/// The names of `path` (see `components`).
pub fn path_components(path: &str) -> (r: Vec<String>)
    ensures
        r@.map_values(|x: String| x@) == components(path@),
{
    let n = path.unicode_len();
    let pc = chars_of(path);
    let mut out: Vec<String> = Vec::new();
    let mut start: usize = 0;
    let mut i: usize = 0;
    while i < n
        invariant
            n == path@.len(),
            pc@ == path@,
            i <= n,
            start <= i,
            split_state(path@, i as int) == (out@.map_values(|x: String| x@), start as int),
        decreases n - i,
    {
        proof {
            lemma_split_start(path@, i as int);
        }
        if pc[i] == '/' {
            if start < i {
                let name = substring(path, start, i);
                out.push(name);
            }
            start = i + 1;
        }
        i = i + 1;
        assert(out@.map_values(|x: String| x@) =~= split_state(path@, i as int).0);
    }
    if start < n {
        let name = substring(path, start, n);
        out.push(name);
    }
    assert(out@.map_values(|x: String| x@) =~= components(path@));
    out
}

/// The inode reached from `inode` by looking up `names` one after the
/// other; the first failing lookup's error.
pub open spec fn walk_from<F: FileSystem>(fs: &F, inode: u64, names: Seq<Seq<char>>) -> Result<u64, VfsError>
    decreases names.len(),
{
    if names.len() == 0 {
        Ok(inode)
    } else {
        match fs.lookup_spec(inode, names[0]) {
            Ok(next) => walk_from(fs, next, names.skip(1)),
            Err(e) => Err(e),
        }
    }
}

/// The inode of `path` under the root of `fs`.
pub open spec fn walk_spec<F: FileSystem>(fs: &F, path: Seq<char>) -> Result<u64, VfsError> {
    walk_from(fs, fs.root_spec(), components(path))
}

/// Walks `path` ("dir1/dir2/file") from the root of `fs` (see
/// `walk_spec`).
pub fn walk_path<F: FileSystem>(fs: &F, path: &str) -> (r: Result<u64, VfsError>)
    ensures
        r == walk_spec(fs, path@),
{
    let parts = path_components(path);
    let ghost names = components(path@);
    let mut inode = fs.root_inode();
    let mut k: usize = 0;
    assert(names.skip(0) =~= names);
    while k < parts.len()
        invariant
            names == parts@.map_values(|x: String| x@),
            k <= parts@.len(),
            walk_from(fs, inode, names.skip(k as int)) == walk_spec(fs, path@),
        decreases parts@.len() - k,
    {
        let ghost rest = names.skip(k as int);
        assert(rest[0] == parts@[k as int]@);
        assert(rest.skip(1) =~= names.skip(k + 1));
        match fs.lookup(inode, parts[k].as_str()) {
            Ok(next) => {
                inode = next;
            },
            Err(e) => {
                return Err(e);
            },
        }
        k = k + 1;
    }
    Ok(inode)
}


/// The best mount's index is one of the first `k`.
proof fn lemma_best_mount_index(ps: Seq<Seq<char>>, t: Seq<char>, k: int)
    requires
        0 <= k <= ps.len(),
    ensures
        best_mount(ps, t, k) matches Some(b) ==> 0 <= b.0 < k,
    decreases k,
{
    if k > 0 {
        lemma_best_mount_index(ps, t, k - 1);
    }
}

/// A file system mounted at a path prefix.
pub struct MountEntry<F> {
    pub prefix: String,
    pub fs: F,
}

/// The mount table and the open file table.
pub struct VfsState<F> {
    pub mounts: Vec<MountEntry<F>>,
    pub open_files: OpenFileTable,
}

/// The mount prefixes, in mount order.
pub open spec fn prefixes<F>(ms: Seq<MountEntry<F>>) -> Seq<Seq<char>> {
    ms.map_values(|m: MountEntry<F>| m.prefix@)
}

/// The inode that a path relative to a mount names: the root for an
/// empty path or "/", else the walk (see `walk_spec`).
pub open spec fn target_spec<F: FileSystem>(fs: &F, rel: Seq<char>) -> Result<u64, VfsError> {
    if is_root_path(rel) {
        Ok(fs.root_spec())
    } else {
        walk_spec(fs, rel)
    }
}

/// `open_files` after an allocation of (mount, inode, flags) with result
/// `r`, starting from `before` (see `OpenFileTable::allocate`).
pub open spec fn allocated_open(
    before: Seq<Option<OpenFile>>,
    after: Seq<Option<OpenFile>>,
    mount_id: usize,
    inode: u64,
    flags: u32,
    r: Result<usize, VfsError>,
) -> bool {
    let f = OpenFile { mount_id, inode, pos: 0, flags };
    if exists|i: int| first_empty(before, i) {
        r matches Ok(i) && first_empty(before, i as int) && after == before.update(i as int, Some(f))
    } else if before.len() >= MAX_OPEN_FILES {
        r == Err::<usize, VfsError>(VfsError::OutOfMemory) && after == before
    } else {
        r == Ok::<usize, VfsError>(before.len() as usize) && after == before.push(Some(f))
    }
}

impl<F: FileSystem> VfsState<F> {
    /// No mounts, no open files.
    pub fn new() -> (r: Self)
        ensures
            r.mounts@.len() == 0,
            r.open_files.wf(),
            r.open_files@.len() == 0,
    {
        VfsState { mounts: Vec::new(), open_files: OpenFileTable::new() }
    }

    /// The mount prefixes, as strings.
    fn prefix_list(&self) -> (r: Vec<String>)
        ensures
            r@.map_values(|p: String| p@) == prefixes(self.mounts@),
    {
        let mut out: Vec<String> = Vec::new();
        let mut i: usize = 0;
        while i < self.mounts.len()
            invariant
                i <= self.mounts@.len(),
                out@.len() == i,
                out@.map_values(|p: String| p@) == prefixes(self.mounts@).take(i as int),
            decreases self.mounts@.len() - i,
        {
            let ghost prev = out@;
            out.push(self.mounts[i].prefix.clone());
            proof {
                assert forall|k: int| 0 <= k < i implies out@[k] == prev[k] by {}
                assert(out@.map_values(|p: String| p@)[i as int] == prefixes(self.mounts@)[i as int]);
            }
            i = i + 1;
            assert(out@.map_values(|p: String| p@) =~= prefixes(self.mounts@).take(i as int));
        }
        assert(prefixes(self.mounts@).take(self.mounts@.len() as int) =~= prefixes(self.mounts@));
        out
    }

    /// The mount and relative path of `path` (see `resolve_spec`).
    fn resolve(&self, path: &str) -> (r: Result<(usize, String), VfsError>)
        ensures
            match resolve_spec(prefixes(self.mounts@), path@) {
                Ok((i, rel)) => r matches Ok((ri, rs)) && ri == i && rs@ == rel && ri < self.mounts@.len(),
                Err(e) => r == Err::<(usize, String), VfsError>(e),
            },
    {
        let pl = self.prefix_list();
        proof {
            lemma_best_mount_index(prefixes(self.mounts@), strip_slash(path@), self.mounts@.len() as int);
        }
        resolve_path(&pl, path)
    }

    /// The inode that `rel` names in mount `id` (see `target_spec`).
    fn target(&self, id: usize, rel: &String) -> (r: Result<u64, VfsError>)
        requires
            id < self.mounts@.len(),
        ensures
            r == target_spec(&self.mounts@[id as int].fs, rel@),
    {
        let fs = &self.mounts[id].fs;
        let n = rel.as_str().unicode_len();
        let root = fs.root_inode();
        if n == 0 {
            return Ok(root);
        }
        if n == 1 && rel.as_str().get_char(0) == '/' {
            return Ok(root);
        }
        walk_path(fs, rel.as_str())
    }
}

/// Mounts `fs` at `prefix`; `OutOfMemory` when `MAX_MOUNTS` file systems
/// are mounted.
pub fn mount<F: FileSystem>(vfs: &mut VfsState<F>, prefix: &str, fs: F) -> (r: Result<(), VfsError>)
    ensures
        old(vfs).mounts@.len() >= MAX_MOUNTS ==> r == Err::<(), VfsError>(VfsError::OutOfMemory)
            && final(vfs).mounts@ == old(vfs).mounts@,
        old(vfs).mounts@.len() < MAX_MOUNTS ==> r is Ok && final(vfs).mounts@.len() == old(vfs).mounts@.len() + 1
            && final(vfs).mounts@.take(old(vfs).mounts@.len() as int) == old(vfs).mounts@
            && final(vfs).mounts@.last().prefix@ == prefix@,
        final(vfs).open_files == old(vfs).open_files,
{
    if vfs.mounts.len() >= MAX_MOUNTS {
        return Err(VfsError::OutOfMemory);
    }
    vfs.mounts.push(MountEntry { prefix: prefix.to_owned(), fs });
    assert(vfs.mounts@.take(old(vfs).mounts@.len() as int) =~= old(vfs).mounts@);
    Ok(())
}

/// Closes open file `fd`; false when it was not open.
pub fn close<F: FileSystem>(vfs: &mut VfsState<F>, fd: usize) -> (r: bool)
    ensures
        r == (fd < old(vfs).open_files@.len() && old(vfs).open_files@[fd as int] is Some),
        r ==> final(vfs).open_files@ == old(vfs).open_files@.update(fd as int, None),
        !r ==> final(vfs).open_files@ == old(vfs).open_files@,
        final(vfs).mounts == old(vfs).mounts,
        final(vfs).open_files.wf() == old(vfs).open_files.wf(),
{
    vfs.open_files.close(fd)
}


/// The mounts are those of `before`, but the file system of mount `id`
/// may have changed.
pub open spec fn mounts_kept_but<F>(before: Seq<MountEntry<F>>, after: Seq<MountEntry<F>>, id: int) -> bool {
    &&& after.len() == before.len()
    &&& forall|j: int| 0 <= j < before.len() && j != id ==> after[j] == before[j]
    &&& 0 <= id < before.len() ==> after[id].prefix == before[id].prefix
}

impl<F: FileSystem> VfsState<F> {
    /// Creates `name` (a directory if `is_dir`) in directory `dir` of the
    /// file system of mount `id`; what that file system answers.
    fn create_in(&mut self, id: usize, dir: u64, name: &String, is_dir: bool) -> (r: Result<u64, VfsError>)
        requires
            id < old(self).mounts@.len(),
        ensures
            mounts_kept_but(old(self).mounts@, final(self).mounts@, id as int),
            final(self).open_files == old(self).open_files,
            old(self).mounts@[id as int].fs.fs_inv() ==> final(self).mounts@[id as int].fs.fs_inv() && r
                == old(self).mounts@[id as int].fs.create_spec(dir, name@, is_dir),
    {
        let mut m = self.mounts.remove(id);
        let r = if is_dir {
            m.fs.create_dir(dir, name.as_str())
        } else {
            m.fs.create_file(dir, name.as_str())
        };
        self.mounts.insert(id, m);
        r
    }

    /// Truncates file `inode` of the file system of mount `id` to 0 bytes;
    /// what that file system answers.
    fn truncate_in(&mut self, id: usize, inode: u64) -> (r: Result<(), VfsError>)
        requires
            id < old(self).mounts@.len(),
        ensures
            mounts_kept_but(old(self).mounts@, final(self).mounts@, id as int),
            final(self).open_files == old(self).open_files,
            old(self).mounts@[id as int].fs.fs_inv() ==> final(self).mounts@[id as int].fs.fs_inv() && r
                == old(self).mounts@[id as int].fs.set_size_spec(inode, 0),
    {
        let mut m = self.mounts.remove(id);
        let r = m.fs.set_file_size(inode, 0);
        self.mounts.insert(id, m);
        r
    }

    /// Removes entry `name` of directory `dir` of the file system of mount
    /// `id`; what that file system answers.
    fn unlink_in(&mut self, id: usize, dir: u64, name: &String) -> (r: Result<(), VfsError>)
        requires
            id < old(self).mounts@.len(),
        ensures
            mounts_kept_but(old(self).mounts@, final(self).mounts@, id as int),
            final(self).open_files == old(self).open_files,
            old(self).mounts@[id as int].fs.fs_inv() ==> final(self).mounts@[id as int].fs.fs_inv() && r
                == old(self).mounts@[id as int].fs.unlink_spec(dir, name@),
    {
        let mut m = self.mounts.remove(id);
        let r = m.fs.unlink(dir, name.as_str());
        self.mounts.insert(id, m);
        r
    }
}

/// Opens `path`. The path resolves to a mount and an inode (see
/// `resolve_spec` and `target_spec`); errors on the way are returned.
/// With O_CREAT, a path that resolves to the mount's root creates the
/// file named by its last component in its parent directory (the root
/// itself gives `AlreadyExists`); with O_TRUNC the file is truncated to
/// 0 first. The open file starts at position 0.
pub fn open<F: FileSystem>(vfs: &mut VfsState<F>, path: &str, flags: u32) -> (r: Result<usize, VfsError>)
    requires
        old(vfs).open_files.wf(),
    ensures
        final(vfs).open_files.wf(),
        match resolve_spec(prefixes(old(vfs).mounts@), path@) {
            Err(e) => r == Err::<usize, VfsError>(e) && *final(vfs) == *old(vfs),
            Ok((id, rel)) => {
                let fs = &old(vfs).mounts@[id].fs;
                let root = fs.root_spec();
                match target_spec(fs, rel) {
                    Err(e) => r == Err::<usize, VfsError>(e) && *final(vfs) == *old(vfs),
                    Ok(inode) => if flags & O_CREAT != 0 && inode == root {
                        if is_root_path(rel) {
                            r == Err::<usize, VfsError>(VfsError::AlreadyExists) && *final(vfs) == *old(vfs)
                        } else {
                            match split_spec(rel) {
                                Err(e) => r == Err::<usize, VfsError>(e) && *final(vfs) == *old(vfs),
                                Ok((parent, name)) => match walk_spec(fs, parent) {
                                    Err(e) => r == Err::<usize, VfsError>(e) && *final(vfs) == *old(vfs),
                                    Ok(p) => {
                                        &&& mounts_kept_but(old(vfs).mounts@, final(vfs).mounts@, id)
                                        &&& r matches Ok(fd) ==> final(vfs).open_files@[fd as int] matches Some(f)
                                            && f.mount_id == id && f.pos == 0 && f.flags == flags
                                        &&& fs.fs_inv() ==> final(vfs).mounts@[id].fs.fs_inv() && match fs.create_spec(
                                            p,
                                            name,
                                            false,
                                        ) {
                                            Err(e) => r == Err::<usize, VfsError>(e) && final(vfs).open_files
                                                == old(vfs).open_files,
                                            Ok(c) => allocated_open(
                                                old(vfs).open_files@,
                                                final(vfs).open_files@,
                                                id as usize,
                                                c,
                                                flags,
                                                r,
                                            ),
                                        }
                                    },
                                },
                            }
                        }
                    } else if flags & O_TRUNC != 0 {
                        &&& mounts_kept_but(old(vfs).mounts@, final(vfs).mounts@, id)
                        &&& (r is Ok ==> allocated_open(old(vfs).open_files@, final(vfs).open_files@, id as usize, inode, flags, r))
                        &&& fs.fs_inv() ==> final(vfs).mounts@[id].fs.fs_inv() && match fs.set_size_spec(inode, 0) {
                            Err(e) => r == Err::<usize, VfsError>(e) && final(vfs).open_files == old(vfs).open_files,
                            Ok(_) => allocated_open(
                                old(vfs).open_files@,
                                final(vfs).open_files@,
                                id as usize,
                                inode,
                                flags,
                                r,
                            ),
                        }
                    } else {
                        &&& final(vfs).mounts == old(vfs).mounts
                        &&& allocated_open(old(vfs).open_files@, final(vfs).open_files@, id as usize, inode, flags, r)
                    },
                }
            },
        },
{
    let (mount_id, rel) = match vfs.resolve(path) {
        Ok(x) => x,
        Err(e) => return Err(e),
    };
    let root = vfs.mounts[mount_id].fs.root_inode();
    let inode = match vfs.target(mount_id, &rel) {
        Ok(i) => i,
        Err(e) => return Err(e),
    };
    if flags & O_CREAT != 0 && inode == root {
        let n = rel.as_str().unicode_len();
        if n == 0 || (n == 1 && rel.as_str().get_char(0) == '/') {
            return Err(VfsError::AlreadyExists);
        }
        let (parent_path, file_name) = match split_filename(rel.as_str()) {
            Ok(x) => x,
            Err(e) => return Err(e),
        };
        let parent_inode = match walk_path(&vfs.mounts[mount_id].fs, parent_path.as_str()) {
            Ok(i) => i,
            Err(e) => return Err(e),
        };
        let created = match vfs.create_in(mount_id, parent_inode, &file_name, false) {
            Ok(i) => i,
            Err(e) => return Err(e),
        };
        let r = vfs.open_files.allocate(mount_id, created, flags);
        proof {
            if r is Ok {
                let fd = r->Ok_0;
                if !(exists|i: int| first_empty(old(vfs).open_files@, i)) {
                    assert(vfs.open_files@[fd as int] == Some(OpenFile { mount_id, inode: created, pos: 0, flags }));
                }
            }
        }
        r
    } else {
        if flags & O_TRUNC != 0 {
            match vfs.truncate_in(mount_id, inode) {
                Ok(()) => {},
                Err(e) => return Err(e),
            }
        }
        vfs.open_files.allocate(mount_id, inode, flags)
    }
}


/// Reads from open file `fd` at its position into `buf`, moving the
/// position by the bytes read. `InvalidParam` when `fd` is not open,
/// `PermissionDenied` when it was opened write-only, `NotFound` when its
/// mount is gone; the file system's error otherwise.
pub fn read<F: FileSystem>(vfs: &mut VfsState<F>, fd: usize, buf: &mut [u8]) -> (r: Result<usize, VfsError>)
    requires
        old(vfs).open_files.wf(),
        fd < old(vfs).open_files@.len() ==> (old(vfs).open_files@[fd as int] matches Some(f) ==> f.pos + old(buf)@.len() <= usize::MAX),
    ensures
        final(vfs).open_files.wf(),
        final(vfs).mounts == old(vfs).mounts,
        final(buf)@.len() == old(buf)@.len(),
        match old(vfs).open_files.files@.len() > fd {
            false => r == Err::<usize, VfsError>(VfsError::InvalidParam) && final(vfs).open_files@ == old(vfs).open_files@,
            true => match old(vfs).open_files@[fd as int] {
                None => r == Err::<usize, VfsError>(VfsError::InvalidParam) && final(vfs).open_files@ == old(vfs).open_files@,
                Some(f) => if f.flags == O_WRONLY {
                    r == Err::<usize, VfsError>(VfsError::PermissionDenied) && final(vfs).open_files@ == old(vfs).open_files@
                } else if f.mount_id >= old(vfs).mounts@.len() {
                    r == Err::<usize, VfsError>(VfsError::NotFound) && final(vfs).open_files@ == old(vfs).open_files@
                } else {
                    &&& match r {
                        Ok(n) => n <= old(buf)@.len() && final(vfs).open_files@ == old(vfs).open_files@.update(
                            fd as int,
                            Some(OpenFile { pos: (f.pos + n) as usize, ..f }),
                        ),
                        Err(_) => final(vfs).open_files@ == old(vfs).open_files@,
                    }
                    &&& match old(vfs).mounts@[f.mount_id as int].fs.read_spec(f.inode, f.pos, old(buf)@.len()) {
                        Ok(got) => r == Ok::<usize, VfsError>(got.len() as usize) && final(buf)@ == got + old(
                            buf,
                        )@.skip(got.len() as int),
                        Err(e) => r == Err::<usize, VfsError>(e) && final(buf)@ == old(buf)@,
                    }
                },
            },
        },
{
    let of = match vfs.open_files.get(fd) {
        Some(f) => *f,
        None => return Err(VfsError::InvalidParam),
    };
    if of.flags == O_WRONLY {
        return Err(VfsError::PermissionDenied);
    }
    if of.mount_id >= vfs.mounts.len() {
        return Err(VfsError::NotFound);
    }
    let n = match vfs.mounts[of.mount_id].fs.read_file(of.inode, of.pos, buf) {
        Ok(n) => n,
        Err(e) => return Err(e),
    };
    match vfs.open_files.get_mut(fd) {
        Some(f) => {
            f.pos = f.pos + n;
        },
        None => {},
    }
    Ok(n)
}

/// Writes `data` to open file `fd` at its position, moving the position
/// by the bytes written. `InvalidParam` when `fd` is not open,
/// `PermissionDenied` when it was opened read-only, `NotFound` when its
/// mount is gone; the file system's error otherwise.
pub fn write<F: FileSystem>(vfs: &mut VfsState<F>, fd: usize, data: &[u8]) -> (r: Result<usize, VfsError>)
    requires
        old(vfs).open_files.wf(),
        fd < old(vfs).open_files@.len() ==> (old(vfs).open_files@[fd as int] matches Some(f) ==> f.pos + data@.len() <= usize::MAX),
    ensures
        final(vfs).open_files.wf(),
        match old(vfs).open_files.files@.len() > fd {
            false => r == Err::<usize, VfsError>(VfsError::InvalidParam) && *final(vfs) == *old(vfs),
            true => match old(vfs).open_files@[fd as int] {
                None => r == Err::<usize, VfsError>(VfsError::InvalidParam) && *final(vfs) == *old(vfs),
                Some(f) => if f.flags == O_RDONLY {
                    r == Err::<usize, VfsError>(VfsError::PermissionDenied) && *final(vfs) == *old(vfs)
                } else if f.mount_id >= old(vfs).mounts@.len() {
                    r == Err::<usize, VfsError>(VfsError::NotFound) && *final(vfs) == *old(vfs)
                } else {
                    &&& mounts_kept_but(old(vfs).mounts@, final(vfs).mounts@, f.mount_id as int)
                    &&& r == old(vfs).mounts@[f.mount_id as int].fs.write_spec(f.inode, f.pos, data@)
                    &&& match r {
                        Ok(n) => n <= data@.len() && final(vfs).open_files@ == old(vfs).open_files@.update(
                            fd as int,
                            Some(OpenFile { pos: (f.pos + n) as usize, ..f }),
                        ),
                        Err(_) => final(vfs).open_files@ == old(vfs).open_files@,
                    }
                },
            },
        },
{
    let of = match vfs.open_files.get(fd) {
        Some(f) => *f,
        None => return Err(VfsError::InvalidParam),
    };
    if of.flags == O_RDONLY {
        return Err(VfsError::PermissionDenied);
    }
    if of.mount_id >= vfs.mounts.len() {
        return Err(VfsError::NotFound);
    }
    let mut m = vfs.mounts.remove(of.mount_id);
    let res = m.fs.write_file(of.inode, of.pos, data);
    vfs.mounts.insert(of.mount_id, m);
    let n = match res {
        Ok(n) => n,
        Err(e) => return Err(e),
    };
    match vfs.open_files.get_mut(fd) {
        Some(f) => {
            f.pos = f.pos + n;
        },
        None => {},
    }
    Ok(n)
}

/// Metadata of `path` (see `resolve_spec` and `target_spec`; errors on
/// the way are returned, else the file system's answer).
pub fn stat<F: FileSystem>(vfs: &VfsState<F>, path: &str) -> (r: Result<VfsMetadata, VfsError>)
    ensures
        match resolve_spec(prefixes(vfs.mounts@), path@) {
            Err(e) => r matches Err(x) && x == e,
            Ok((id, rel)) => match target_spec(&vfs.mounts@[id].fs, rel) {
                Err(e) => r matches Err(x) && x == e,
                Ok(inode) => metadata_matches(vfs.mounts@[id].fs.metadata_spec(inode), r),
            },
        },
{
    let (mount_id, rel) = match vfs.resolve(path) {
        Ok(x) => x,
        Err(e) => return Err(e),
    };
    let inode = match vfs.target(mount_id, &rel) {
        Ok(i) => i,
        Err(e) => return Err(e),
    };
    vfs.mounts[mount_id].fs.metadata(inode)
}

/// The parent directory and name for an unlink or mkdir of relative path
/// `rel` in mount `id`.
pub open spec fn parent_spec<F: FileSystem>(fs: &F, rel: Seq<char>) -> Result<(u64, Seq<char>), VfsError> {
    match split_spec(rel) {
        Err(e) => Err(e),
        Ok((parent, name)) => match target_spec(fs, parent) {
            Err(e) => Err(e),
            Ok(p) => Ok((p, name)),
        },
    }
}

impl<F: FileSystem> VfsState<F> {
    fn parent_of(&self, id: usize, rel: &String) -> (r: Result<(u64, String), VfsError>)
        requires
            id < self.mounts@.len(),
        ensures
            match parent_spec(&self.mounts@[id as int].fs, rel@) {
                Err(e) => r == Err::<(u64, String), VfsError>(e),
                Ok((p, name)) => r matches Ok((rp, rn)) && rp == p && rn@ == name,
            },
    {
        let (parent_path, name) = match split_filename(rel.as_str()) {
            Ok(x) => x,
            Err(e) => return Err(e),
        };
        let p = match self.target(id, &parent_path) {
            Ok(p) => p,
            Err(e) => return Err(e),
        };
        Ok((p, name))
    }
}

/// Removes the file at `path`: `PermissionDenied` for a mount's root;
/// errors on the way are returned (see `resolve_spec`, `parent_spec`),
/// else the file system's answer.
pub fn unlink<F: FileSystem>(vfs: &mut VfsState<F>, path: &str) -> (r: Result<(), VfsError>)
    ensures
        final(vfs).open_files == old(vfs).open_files,
        match resolve_spec(prefixes(old(vfs).mounts@), path@) {
            Err(e) => r == Err::<(), VfsError>(e) && final(vfs).mounts == old(vfs).mounts,
            Ok((id, rel)) => if is_root_path(rel) {
                r == Err::<(), VfsError>(VfsError::PermissionDenied) && final(vfs).mounts == old(vfs).mounts
            } else {
                match parent_spec(&old(vfs).mounts@[id].fs, rel) {
                    Err(e) => r == Err::<(), VfsError>(e) && final(vfs).mounts == old(vfs).mounts,
                    Ok((p, name)) => mounts_kept_but(old(vfs).mounts@, final(vfs).mounts@, id) && (old(
                        vfs,
                    ).mounts@[id].fs.fs_inv() ==> final(vfs).mounts@[id].fs.fs_inv() && r == old(
                        vfs,
                    ).mounts@[id].fs.unlink_spec(p, name)),
                }
            },
        },
{
    let (mount_id, rel) = match vfs.resolve(path) {
        Ok(x) => x,
        Err(e) => return Err(e),
    };
    let n = rel.as_str().unicode_len();
    if n == 0 || (n == 1 && rel.as_str().get_char(0) == '/') {
        return Err(VfsError::PermissionDenied);
    }
    let (parent, name) = match vfs.parent_of(mount_id, &rel) {
        Ok(x) => x,
        Err(e) => return Err(e),
    };
    vfs.unlink_in(mount_id, parent, &name)
}

/// Creates directory `path`: `AlreadyExists` for a mount's root; errors
/// on the way are returned (see `resolve_spec`, `parent_spec`), else the
/// file system's answer.
pub fn mkdir<F: FileSystem>(vfs: &mut VfsState<F>, path: &str) -> (r: Result<(), VfsError>)
    ensures
        final(vfs).open_files == old(vfs).open_files,
        match resolve_spec(prefixes(old(vfs).mounts@), path@) {
            Err(e) => r == Err::<(), VfsError>(e) && final(vfs).mounts == old(vfs).mounts,
            Ok((id, rel)) => if is_root_path(rel) {
                r == Err::<(), VfsError>(VfsError::AlreadyExists) && final(vfs).mounts == old(vfs).mounts
            } else {
                match parent_spec(&old(vfs).mounts@[id].fs, rel) {
                    Err(e) => r == Err::<(), VfsError>(e) && final(vfs).mounts == old(vfs).mounts,
                    Ok((p, name)) => mounts_kept_but(old(vfs).mounts@, final(vfs).mounts@, id) && (old(
                        vfs,
                    ).mounts@[id].fs.fs_inv() ==> final(vfs).mounts@[id].fs.fs_inv() && match old(
                        vfs,
                    ).mounts@[id].fs.create_spec(p, name, true) {
                        Ok(_) => r is Ok,
                        Err(e) => r == Err::<(), VfsError>(e),
                    }),
                }
            },
        },
{
    let (mount_id, rel) = match vfs.resolve(path) {
        Ok(x) => x,
        Err(e) => return Err(e),
    };
    let n = rel.as_str().unicode_len();
    if n == 0 || (n == 1 && rel.as_str().get_char(0) == '/') {
        return Err(VfsError::AlreadyExists);
    }
    let (parent, name) = match vfs.parent_of(mount_id, &rel) {
        Ok(x) => x,
        Err(e) => return Err(e),
    };
    match vfs.create_in(mount_id, parent, &name, true) {
        Ok(_) => Ok(()),
        Err(e) => Err(e),
    }
}


/// The bytes a listing of directory `dir` writes into a buffer of `cap`
/// bytes that already holds `out`, from entry `idx` on: each name's UTF-8
/// bytes followed by a comma while there is room after it, stopping at the
/// first name that does not fit whole, at the end of the directory, or at
/// a full buffer; a failing `readdir` fails the listing.
pub open spec fn listing_bytes<F: FileSystem>(fs: &F, dir: u64, out: Seq<u8>, idx: int, cap: int) -> Result<Seq<u8>, VfsError>
    decreases cap - out.len(),
{
    if out.len() >= cap || idx < 0 || idx > usize::MAX {
        Ok(out)
    } else {
        match fs.readdir_spec(dir, idx as usize) {
            Err(e) => Err(e),
            Ok(None) => Ok(out),
            Ok(Some((name, _t, _n))) => {
                let b = vstd::utf8::encode_utf8(name);
                if idx == usize::MAX || b.len() > cap - out.len() {
                    Ok(out)
                } else if out.len() + b.len() < cap {
                    listing_bytes(fs, dir, out + b + seq![0x2cu8], idx + 1, cap)
                } else {
                    Ok(out + b)
                }
            },
        }
    }
}

/// The length of a listing without its trailing comma.
pub open spec fn listing_len(out: Seq<u8>) -> int {
    if out.len() > 0 && out.last() == 0x2c { out.len() - 1 } else { out.len() as int }
}

/// Writes the names of directory `dir_inode` into `buf[..buf_len]`,
/// separated by commas (see `listing_bytes`); the length without the
/// trailing comma. Bytes past the listing are left as they were.
fn fill_listing<F: FileSystem>(fs: &F, dir_inode: u64, buf: &mut [u8], buf_len: usize) -> (r: Result<usize, VfsError>)
    requires
        buf_len <= old(buf)@.len(),
    ensures
        final(buf)@.len() == old(buf)@.len(),
        match listing_bytes(fs, dir_inode, Seq::empty(), 0, buf_len as int) {
            Err(e) => r == Err::<usize, VfsError>(e),
            Ok(out) => r == Ok::<usize, VfsError>(listing_len(out) as usize) && listing_len(out) <= buf_len
                && final(buf)@.subrange(0, out.len() as int) == out && forall|j: int|
                out.len() <= j < old(buf)@.len() ==> #[trigger] final(buf)@[j] == old(buf)@[j],
        },
{
    let ghost want = listing_bytes(fs, dir_inode, Seq::empty(), 0, buf_len as int);
    let mut written: usize = 0;
    let mut idx: usize = 0;
    proof {
        assert(buf@.subrange(0, 0) =~= Seq::<u8>::empty());
    }
    loop
        invariant_except_break
            want == listing_bytes(fs, dir_inode, Seq::empty(), 0, buf_len as int),
            written <= buf_len,
            buf_len <= buf@.len(),
            buf@.len() == old(buf)@.len(),
            want == listing_bytes(fs, dir_inode, buf@.subrange(0, written as int), idx as int, buf_len as int),
            forall|j: int| written <= j < old(buf)@.len() ==> #[trigger] buf@[j] == old(buf)@[j],
        ensures
            want == listing_bytes(fs, dir_inode, Seq::empty(), 0, buf_len as int),
            written <= buf_len,
            buf@.len() == old(buf)@.len(),
            want == Ok::<Seq<u8>, VfsError>(buf@.subrange(0, written as int)),
            forall|j: int| written <= j < old(buf)@.len() ==> #[trigger] buf@[j] == old(buf)@[j],
        decreases buf_len - written,
    {
        if written >= buf_len {
            break;
        }
        let rd = fs.readdir(dir_inode, idx);
        proof {
            let cur = buf@.subrange(0, written as int);
            assert(cur.len() == written);
            assert(want == listing_bytes(fs, dir_inode, cur, idx as int, buf_len as int));
        }
        let entry = match rd {
            Ok(Some(e)) => e,
            Ok(None) => break,
            Err(e) => {
                proof {
                    let cur = buf@.subrange(0, written as int);
                    assert(fs.readdir_spec(dir_inode, idx) == Err::<Option<(Seq<char>, VfsFileType, usize)>, VfsError>(e));
                    assert(listing_bytes(fs, dir_inode, cur, idx as int, buf_len as int) == Err::<Seq<u8>, VfsError>(e));
                }
                return Err(e);
            },
        };
        if idx == usize::MAX {
            break;
        }
        idx = idx + 1;
        let bytes = entry.name.as_str().as_bytes();
        if bytes.len() > buf_len - written {
            break;
        }
        let ghost before = buf@;
        let mut k: usize = 0;
        while k < bytes.len()
            invariant
                written + bytes@.len() <= buf_len,
                buf_len <= buf@.len(),
                buf@.len() == old(buf)@.len(),
                k <= bytes@.len(),
                forall|j: int| 0 <= j < written ==> #[trigger] buf@[j] == before[j],
                forall|j: int| written + k <= j < buf@.len() ==> #[trigger] buf@[j] == before[j],
                forall|j: int| 0 <= j < k ==> #[trigger] buf@[written + j] == bytes@[j],
            decreases bytes@.len() - k,
        {
            buf[written + k] = bytes[k];
            k = k + 1;
        }
        proof {
            assert forall|j: int| 0 <= j < written + bytes@.len() implies #[trigger] buf@.subrange(
                0,
                written + bytes@.len(),
            )[j] == (before.subrange(0, written as int) + bytes@)[j] by {
                if j >= written {
                    let q = j - written;
                    assert(buf@[written + q] == bytes@[q]);
                }
            }
            assert(buf@.subrange(0, written + bytes@.len()) =~= before.subrange(0, written as int) + bytes@);
        }
        written = written + bytes.len();
        if written < buf_len {
            let ghost mid = buf@;
            buf[written] = 0x2c;
            proof {
                assert(buf@.subrange(0, written + 1) =~= mid.subrange(0, written as int) + seq![0x2cu8]);
            }
            written = written + 1;
        } else {
            break;
        }
    }
    if written > 0 && buf[written - 1] == 0x2c {
        written = written - 1;
    }
    Ok(written)
}

/// Lists directory `path` into `buf[..buf_len]`: entry names separated by
/// commas, as many whole names as fit; the byte count. Errors on the way
/// are returned (see `resolve_spec`, `target_spec`).
pub fn ls<F: FileSystem>(vfs: &VfsState<F>, path: &str, buf: &mut [u8], buf_len: usize) -> (r: Result<usize, VfsError>)
    requires
        buf_len <= old(buf)@.len(),
    ensures
        final(buf)@.len() == old(buf)@.len(),
        match resolve_spec(prefixes(vfs.mounts@), path@) {
            Err(e) => r == Err::<usize, VfsError>(e),
            Ok((id, rel)) => match target_spec(&vfs.mounts@[id].fs, rel) {
                Err(e) => r == Err::<usize, VfsError>(e),
                Ok(d) => match listing_bytes(&vfs.mounts@[id].fs, d, Seq::empty(), 0, buf_len as int) {
                    Err(e) => r == Err::<usize, VfsError>(e),
                    Ok(out) => r == Ok::<usize, VfsError>(listing_len(out) as usize) && final(buf)@.subrange(
                        0,
                        out.len() as int,
                    ) == out && listing_len(out) <= buf_len,
                },
            },
        },
{
    let (mount_id, rel) = match vfs.resolve(path) {
        Ok(x) => x,
        Err(e) => return Err(e),
    };
    let dir_inode = match vfs.target(mount_id, &rel) {
        Ok(i) => i,
        Err(e) => return Err(e),
    };
    fill_listing(&vfs.mounts[mount_id].fs, dir_inode, buf, buf_len)
}

} // verus!
