//! The per-process file descriptor table.
use vstd::prelude::*;

use crate::driver::ext4::Ext4FileDesc;
use crate::driver::pipe::{PipeTable, MAX_PIPES};

verus! {

/// Maximum number of open file descriptors per process.
pub const MAX_FDS: usize = 32;

/// File open flags.
pub const O_RDONLY: u32 = 0;
pub const O_WRONLY: u32 = 1;
pub const O_RDWR: u32 = 2;
pub const O_CREAT: u32 = 0x100;
pub const O_TRUNC: u32 = 0x200;
pub const O_APPEND: u32 = 0x400;
pub const O_NONBLOCK: u32 = 0x800;

/// What an fd refers to.
pub enum FdType {
    /// Standard I/O (stdin/stdout/stderr), routed to the TTY.
    Stdio,
    /// Regular file of the in-memory file system.
    File,
    /// Pipe read end.
    PipeRead,
    /// Pipe write end.
    PipeWrite,
    /// Virtual file with an in-memory buffer.
    FakeFile(Vec<u8>),
    /// Virtual file that is always readable and empty.
    VirtualFile,
    /// /dev/urandom: reads give pseudo-random bytes, writes are dropped.
    Urandom,
    /// eventfd.
    Eventfd,
    /// epoll instance.
    Epoll,
    /// timerfd.
    Timerfd,
    /// Open ext4 file.
    Ext4File(Ext4FileDesc),
    /// File of the VFS open file table, by its index there.
    VfsFile(usize),
}

/// `FdType` with the buffer of a virtual file as a sequence.
pub enum FdKind {
    Stdio,
    File,
    PipeRead,
    PipeWrite,
    FakeFile(Seq<u8>),
    VirtualFile,
    Urandom,
    Eventfd,
    Epoll,
    Timerfd,
    Ext4File(Ext4FileDesc),
    VfsFile(usize),
}

impl View for FdType {
    type V = FdKind;

    open spec fn view(&self) -> FdKind {
        match self {
            FdType::Stdio => FdKind::Stdio,
            FdType::File => FdKind::File,
            FdType::PipeRead => FdKind::PipeRead,
            FdType::PipeWrite => FdKind::PipeWrite,
            FdType::FakeFile(v) => FdKind::FakeFile(v@),
            FdType::VirtualFile => FdKind::VirtualFile,
            FdType::Urandom => FdKind::Urandom,
            FdType::Eventfd => FdKind::Eventfd,
            FdType::Epoll => FdKind::Epoll,
            FdType::Timerfd => FdKind::Timerfd,
            FdType::Ext4File(d) => FdKind::Ext4File(*d),
            FdType::VfsFile(i) => FdKind::VfsFile(*i),
        }
    }
}

impl FdType {
    /// A copy.
    pub fn duplicate(&self) -> (r: FdType)
        ensures
            r@ == self@,
    {
        match self {
            FdType::Stdio => FdType::Stdio,
            FdType::File => FdType::File,
            FdType::PipeRead => FdType::PipeRead,
            FdType::PipeWrite => FdType::PipeWrite,
            FdType::FakeFile(v) => {
                let c = v.clone();
                assert(c@ =~= v@);
                FdType::FakeFile(c)
            },
            FdType::VirtualFile => FdType::VirtualFile,
            FdType::Urandom => FdType::Urandom,
            FdType::Eventfd => FdType::Eventfd,
            FdType::Epoll => FdType::Epoll,
            FdType::Timerfd => FdType::Timerfd,
            FdType::Ext4File(d) => FdType::Ext4File(*d),
            FdType::VfsFile(i) => FdType::VfsFile(*i),
        }
    }
}

/// A file descriptor entry: a name, a seek position and what it refers to.
pub struct FileDescriptor {
    /// Name of the file.
    pub name: String,
    /// Current seek position.
    pub pos: usize,
    /// Open flags (O_RDONLY, O_WRONLY, O_RDWR, ...).
    pub flags: u32,
    /// Whether this fd is in use.
    pub valid: bool,
    /// What the fd refers to.
    pub fd_type: FdType,
    /// The pipe, for pipe ends.
    pub pipe_id: Option<usize>,
    /// The fd number itself (for eventfd/timerfd lookups).
    pub fd_num: usize,
}

/// A file descriptor as plain values.
pub struct DescView {
    pub name: Seq<char>,
    pub pos: usize,
    pub flags: u32,
    pub valid: bool,
    pub kind: FdKind,
    pub pipe_id: Option<usize>,
    pub fd_num: usize,
}

impl View for FileDescriptor {
    type V = DescView;

    open spec fn view(&self) -> DescView {
        DescView {
            name: self.name@,
            pos: self.pos,
            flags: self.flags,
            valid: self.valid,
            kind: self.fd_type@,
            pipe_id: self.pipe_id,
            fd_num: self.fd_num,
        }
    }
}

impl FileDescriptor {
    /// A copy.
    pub fn duplicate(&self) -> (r: FileDescriptor)
        ensures
            r@ == self@,
    {
        FileDescriptor {
            name: self.name.clone(),
            pos: self.pos,
            flags: self.flags,
            valid: self.valid,
            fd_type: self.fd_type.duplicate(),
            pipe_id: self.pipe_id,
            fd_num: self.fd_num,
        }
    }

    /// Data can be read without blocking. `stdin_ready` says whether the TTY
    /// has input, `eventfd_ready` whether this fd's eventfd counter is
    /// non-zero and `timer_ready` whether this fd's timer has expired.
    pub fn is_readable(&self, stdin_ready: bool, pipes: &PipeTable, eventfd_ready: bool, timer_ready: bool) -> (r: bool)
        requires
            pipes.wf(),
            self.fd_type@ is PipeRead ==> (self.pipe_id matches Some(id) ==> id < MAX_PIPES),
        ensures
            r == match self.fd_type@ {
                FdKind::Stdio => self.name@ == "stdin"@ && stdin_ready,
                FdKind::PipeRead => match self.pipe_id {
                    Some(id) => (match pipes.pipes@[id as int] {
                        Some(p) => p.contents().len() > 0,
                        None => false,
                    }),
                    None => false,
                },
                FdKind::Eventfd => eventfd_ready,
                FdKind::Timerfd => timer_ready,
                _ => false,
            },
    {
        match &self.fd_type {
            FdType::Stdio => {
                if self.name == "stdin".to_owned() {
                    stdin_ready
                } else {
                    false
                }
            },
            FdType::PipeRead => {
                match self.pipe_id {
                    Some(id) => pipes.pipe_available(id) > 0,
                    None => false,
                }
            },
            FdType::Eventfd => eventfd_ready,
            FdType::Timerfd => timer_ready,
            _ => false,
        }
    }

    /// Data can be written without blocking.
    pub fn is_writable(&self) -> (r: bool)
        ensures
            r == match self.fd_type@ {
                FdKind::Stdio => self.name@ != "stdin"@,
                FdKind::PipeRead | FdKind::Eventfd | FdKind::Epoll | FdKind::Timerfd => false,
                FdKind::Ext4File(d) => d.writable,
                _ => true,
            },
    {
        match &self.fd_type {
            FdType::Stdio => !(self.name == "stdin".to_owned()),
            FdType::PipeWrite => true,
            FdType::PipeRead | FdType::Eventfd | FdType::Epoll | FdType::Timerfd => false,
            FdType::File | FdType::FakeFile(_) | FdType::VirtualFile | FdType::VfsFile(_)
            | FdType::Urandom => true,
            FdType::Ext4File(desc) => desc.writable,
        }
    }

    /// The fd number.
    pub fn fd_number(&self) -> (r: usize)
        ensures
            r == self.fd_num,
    {
        self.fd_num
    }
}

/// A slot can take a new fd: it is empty or holds an fd no longer in use.
pub open spec fn is_free(slot: Option<DescView>) -> bool {
    match slot {
        Some(d) => !d.valid,
        None => true,
    }
}

/// `i` is the lowest free slot.
pub open spec fn first_free(s: Seq<Option<DescView>>, i: int) -> bool {
    &&& 0 <= i < s.len()
    &&& is_free(s[i])
    &&& forall|j: int| 0 <= j < i ==> !is_free(#[trigger] s[j])
}

/// No slot is free.
pub open spec fn table_full(s: Seq<Option<DescView>>) -> bool {
    forall|j: int| 0 <= j < s.len() ==> !is_free(#[trigger] s[j])
}

/// A fresh descriptor.
pub open spec fn fresh(name: Seq<char>, flags: u32, kind: FdKind, pipe_id: Option<usize>, fd_num: usize) -> DescView {
    DescView { name, pos: 0, flags, valid: true, kind, pipe_id, fd_num }
}

/// An allocation into the lowest free slot: `r` is that slot and it now
/// holds `d(slot)`; with no free slot `r` is `None` and nothing changed.
pub open spec fn allocated(
    before: Seq<Option<DescView>>,
    after: Seq<Option<DescView>>,
    r: Option<usize>,
    d: spec_fn(int) -> DescView,
) -> bool {
    match r {
        Some(i) => first_free(before, i as int) && after == before.update(i as int, Some(d(i as int))),
        None => table_full(before) && after == before,
    }
}

/// `n` zero bytes.
pub open spec fn zeros(n: nat) -> Seq<u8> {
    Seq::new(n, |i: int| 0u8)
}

/// `c` after writing `data` at `pos`, padded with zeros up to `pos` first.
pub open spec fn write_at(c: Seq<u8>, pos: int, data: Seq<u8>) -> Seq<u8> {
    let end = pos + data.len();
    let ext = if end > c.len() {
        c + zeros((end - c.len()) as nat)
    } else {
        c
    };
    ext.take(pos) + data + ext.skip(end)
}

/// `c` cut or padded with zeros to `n` bytes.
pub open spec fn resized(c: Seq<u8>, n: int) -> Seq<u8> {
    if n <= c.len() {
        c.take(n)
    } else {
        c + zeros((n - c.len()) as nat)
    }
}

/// One step of the /dev/urandom generator.
#[verifier::opaque]
pub open spec fn lcg_next(x: u64) -> u64 {
    vstd::wrapping::u64_specs::wrapping_add(
        vstd::wrapping::u64_specs::wrapping_mul(x, 6364136223846793005u64),
        1442695040888963407u64,
    )
}

/// The generator's state after `n` steps.
pub open spec fn lcg_iter(x: u64, n: nat) -> u64
    decreases n,
{
    if n == 0 {
        x
    } else {
        lcg_next(lcg_iter(x, (n - 1) as nat))
    }
}

/// The `n` bytes that /dev/urandom gives from state `x`: byte `i` is byte
/// `i % 8` of the state after `i + 1` steps.
pub open spec fn urandom_bytes(x: u64, n: nat) -> Seq<u8> {
    Seq::new(n, |i: int| ((lcg_iter(x, (i + 1) as nat) >> (((i % 8) * 8) as u64)) & 0xff) as u8)
}

/// The up to `len` bytes of `c` from `pos` on.
pub open spec fn read_window(c: Seq<u8>, pos: int, len: int) -> Seq<u8> {
    if pos < c.len() {
        let n = if len < c.len() - pos { len } else { c.len() - pos };
        c.subrange(pos, pos + n)
    } else {
        Seq::empty()
    }
}

/// Up to `len` bytes of `buf` from `pos` on.
fn read_from(buf: &Vec<u8>, pos: usize, len: usize) -> (r: Vec<u8>)
    ensures
        r@ == read_window(buf@, pos as int, len as int),
        pos + r@.len() <= usize::MAX,
{
    let avail = if pos < buf.len() { buf.len() - pos } else { 0 };
    let n = if len < avail { len } else { avail };
    let mut out: Vec<u8> = Vec::new();
    let mut i: usize = 0;
    while i < n
        invariant
            i <= n,
            n <= avail,
            avail == (if pos < buf@.len() { buf@.len() - pos } else { 0 }),
            buf@.len() <= usize::MAX,
            n > 0 ==> pos + n <= buf@.len(),
            out@ == (if i == 0 { Seq::empty() } else { buf@.subrange(pos as int, pos + i) }),
        decreases n - i,
    {
        let k: usize = pos + i;
        out.push(buf[k]);
        i = i + 1;
        assert(out@ =~= buf@.subrange(pos as int, pos + i));
    }
    assert(out@ =~= read_window(buf@, pos as int, len as int));
    out
}

/// `len` bytes of the /dev/urandom generator, advancing its state.
fn urandom_fill(prng: &mut u64, len: usize) -> (r: Vec<u8>)
    ensures
        r@ == urandom_bytes(*old(prng), len as nat),
        *final(prng) == lcg_iter(*old(prng), len as nat),
{
    let ghost s0 = *prng;
    let mut out: Vec<u8> = Vec::new();
    let mut i: usize = 0;
    while i < len
        invariant
            i <= len,
            *prng == lcg_iter(s0, i as nat),
            out@ =~= urandom_bytes(s0, i as nat),
        decreases len - i,
    {
        let next = prng.wrapping_mul(6364136223846793005u64).wrapping_add(1442695040888963407u64);
        proof {
            reveal(lcg_next);
        }
        *prng = next;
        let sh: u64 = ((i % 8) * 8) as u64;
        out.push(((next >> sh) & 0xff) as u8);
        i = i + 1;
        assert(out@ =~= urandom_bytes(s0, i as nat));
    }
    out
}

/// Reads through descriptor `d` (see `FdTable::fake_read`).
fn read_desc(d: &mut FileDescriptor, len: usize, prng: &mut u64) -> (r: Option<Vec<u8>>)
    ensures
        match old(d)@.kind {
            FdKind::FakeFile(c) => {
                let w = read_window(c, old(d).pos as int, len as int);
                &&& r matches Some(v) && v@ == w
                &&& final(d)@ == DescView { pos: (old(d).pos + w.len()) as usize, ..old(d)@ }
                &&& *final(prng) == *old(prng)
            },
            FdKind::Urandom => {
                &&& r matches Some(v) && v@ == urandom_bytes(*old(prng), len as nat)
                &&& final(d)@ == DescView { pos: len, ..old(d)@ }
                &&& *final(prng) == lcg_iter(*old(prng), len as nat)
            },
            _ => r is None && final(d)@ == old(d)@ && *final(prng) == *old(prng),
        },
{
    match &d.fd_type {
        FdType::FakeFile(buf) => {
            let pos = d.pos;
            let out = read_from(buf, pos, len);
            d.pos = pos + out.len();
            Some(out)
        },
        FdType::Urandom => {
            let out = urandom_fill(prng, len);
            d.pos = len;
            Some(out)
        },
        _ => None,
    }
}

/// Writes `data` into `buf` at `pos`, padding with zeros up to `pos`
/// first (see `write_at`).
pub fn write_into(buf: &mut Vec<u8>, pos: usize, data: &[u8])
    requires
        pos + data@.len() <= usize::MAX,
    ensures
        final(buf)@ == write_at(old(buf)@, pos as int, data@),
{
    let ghost c = buf@;
    let end = pos + data.len();
    if end > buf.len() {
        buf.resize(end, 0);
    }
    let ghost ext = buf@;
    proof {
        if end > c.len() {
            assert(ext =~= c + zeros((end - c.len()) as nat));
        }
    }
    let mut i: usize = 0;
    while i < data.len()
        invariant
            i <= data@.len(),
            end == pos + data@.len(),
            buf@.len() == ext.len(),
            ext.len() >= end,
            forall|k: int| 0 <= k < buf@.len() && !(pos <= k < pos + i) ==> buf@[k] == ext[k],
            forall|k: int| pos <= k < pos + i ==> buf@[k] == data@[k - pos],
        decreases data@.len() - i,
    {
        buf.set(pos + i, data[i]);
        i = i + 1;
    }
    assert(buf@ =~= write_at(c, pos as int, data@));
}

/// Per-process file descriptor table.
pub struct FdTable {
    fds: Vec<Option<FileDescriptor>>,
}

impl View for FdTable {
    type V = Seq<Option<DescView>>;

    closed spec fn view(&self) -> Seq<Option<DescView>> {
        self.fds@.map_values(|s: Option<FileDescriptor>| match s {
            Some(d) => Some(d@),
            None => None,
        })
    }
}

impl FdTable {
    /// The table has `MAX_FDS` slots.
    pub closed spec fn wf(&self) -> bool {
        self.fds@.len() == MAX_FDS
    }

    /// `MAX_FDS` slots.
    pub proof fn lemma_len(&self)
        requires
            self.wf(),
        ensures
            self@.len() == MAX_FDS,
    {
    }

    fn stdio(name: &str, flags: u32) -> (r: FileDescriptor)
        ensures
            r@ == fresh(name@, flags, FdKind::Stdio, None, 0),
    {
        FileDescriptor {
            name: name.to_owned(),
            pos: 0,
            flags,
            valid: true,
            fd_type: FdType::Stdio,
            pipe_id: None,
            fd_num: 0,
        }
    }

    /// A table whose fds 0, 1 and 2 are stdin, stdout and stderr.
    pub fn new() -> (r: Self)
        ensures
            r.wf(),
            r@[0] == Some(fresh("stdin"@, O_RDONLY, FdKind::Stdio, None, 0)),
            r@[1] == Some(fresh("stdout"@, O_WRONLY, FdKind::Stdio, None, 0)),
            r@[2] == Some(fresh("stderr"@, O_WRONLY, FdKind::Stdio, None, 0)),
            forall|i: int| 3 <= i < MAX_FDS ==> r@[i] is None,
    {
        let mut fds: Vec<Option<FileDescriptor>> = Vec::new();
        fds.push(Some(Self::stdio("stdin", O_RDONLY)));
        fds.push(Some(Self::stdio("stdout", O_WRONLY)));
        fds.push(Some(Self::stdio("stderr", O_WRONLY)));
        while fds.len() < MAX_FDS
            invariant
                3 <= fds@.len() <= MAX_FDS,
                fds@[0] matches Some(d) && d@ == fresh("stdin"@, O_RDONLY, FdKind::Stdio, None, 0),
                fds@[1] matches Some(d) && d@ == fresh("stdout"@, O_WRONLY, FdKind::Stdio, None, 0),
                fds@[2] matches Some(d) && d@ == fresh("stderr"@, O_WRONLY, FdKind::Stdio, None, 0),
                forall|i: int| 3 <= i < fds@.len() ==> fds@[i] is None,
            decreases MAX_FDS - fds@.len(),
        {
            fds.push(None);
        }
        FdTable { fds }
    }

    /// The lowest free slot.
    fn find_free(&self) -> (r: Option<usize>)
        requires
            self.wf(),
        ensures
            match r {
                Some(i) => first_free(self@, i as int),
                None => table_full(self@),
            },
    {
        let mut i: usize = 0;
        while i < self.fds.len()
            invariant
                self.wf(),
                i <= MAX_FDS,
                forall|j: int| 0 <= j < i ==> !is_free(#[trigger] self@[j]),
            decreases MAX_FDS - i,
        {
            let free = match &self.fds[i] {
                Some(d) => !d.valid,
                None => true,
            };
            if free {
                return Some(i);
            }
            i = i + 1;
        }
        None
    }

    /// Puts `d` into slot `i`.
    fn put(&mut self, i: usize, d: Option<FileDescriptor>)
        requires
            old(self).wf(),
            i < MAX_FDS,
        ensures
            final(self).wf(),
            final(self)@ == old(self)@.update(
                i as int,
                match d {
                    Some(x) => Some(x@),
                    None => None,
                },
            ),
    {
        self.fds.set(i, d);
        assert(self@ =~= old(self)@.update(
            i as int,
            match d {
                Some(x) => Some(x@),
                None => None,
            },
        ));
    }

    /// Takes slot `i` out, leaving it empty.
    fn take_slot(&mut self, i: usize) -> (r: Option<FileDescriptor>)
        requires
            old(self).wf(),
            i < MAX_FDS,
        ensures
            final(self).wf(),
            final(self)@ == old(self)@.update(i as int, None),
            match r {
                Some(d) => old(self)@[i as int] == Some(d@),
                None => old(self)@[i as int] is None,
            },
    {
        let r = self.fds.remove(i);
        self.fds.insert(i, None);
        assert(self@ =~= old(self)@.update(i as int, None));
        r
    }

    fn install(&mut self, d: FileDescriptor) -> (r: Option<usize>)
        requires
            old(self).wf(),
        ensures
            final(self).wf(),
            allocated(old(self)@, final(self)@, r, |i: int| d@),
    {
        match self.find_free() {
            Some(i) => {
                self.put(i, Some(d));
                Some(i)
            },
            None => None,
        }
    }

    /// Allocates a regular-file fd in the lowest free slot.
    pub fn allocate(&mut self, name: String, flags: u32) -> (r: Option<usize>)
        requires
            old(self).wf(),
        ensures
            final(self).wf(),
            allocated(old(self)@, final(self)@, r, |i: int| fresh(name@, flags, FdKind::File, None, 0)),
    {
        let d = FileDescriptor {
            name,
            pos: 0,
            flags,
            valid: true,
            fd_type: FdType::File,
            pipe_id: None,
            fd_num: 0,
        };
        self.install(d)
    }

    /// Allocates an fd that routes to entry `vfs_fd` of the VFS open file
    /// table.
    pub fn alloc_vfs_fd(&mut self, name: String, vfs_fd: usize, flags: u32) -> (r: Option<usize>)
        requires
            old(self).wf(),
        ensures
            final(self).wf(),
            allocated(
                old(self)@,
                final(self)@,
                r,
                |i: int| fresh(name@, flags, FdKind::VfsFile(vfs_fd), None, 0),
            ),
    {
        let d = FileDescriptor {
            name,
            pos: 0,
            flags,
            valid: true,
            fd_type: FdType::VfsFile(vfs_fd),
            pipe_id: None,
            fd_num: 0,
        };
        self.install(d)
    }

    /// Allocates a standard-I/O fd.
    pub fn alloc_stdio_fd(&mut self, name: String, flags: u32) -> (r: Option<usize>)
        requires
            old(self).wf(),
        ensures
            final(self).wf(),
            allocated(old(self)@, final(self)@, r, |i: int| fresh(name@, flags, FdKind::Stdio, None, 0)),
    {
        let d = FileDescriptor {
            name,
            pos: 0,
            flags,
            valid: true,
            fd_type: FdType::Stdio,
            pipe_id: None,
            fd_num: 0,
        };
        self.install(d)
    }

    /// Allocates an empty virtual file.
    pub fn alloc_fake_fd(&mut self, name: String, flags: u32) -> (r: Option<usize>)
        requires
            old(self).wf(),
        ensures
            final(self).wf(),
            allocated(
                old(self)@,
                final(self)@,
                r,
                |i: int| fresh(name@, flags, FdKind::FakeFile(Seq::empty()), None, 0),
            ),
    {
        self.alloc_fake_fd_with_content(name, flags, Vec::new())
    }

    /// Allocates a virtual file holding `content`.
    pub fn alloc_fake_fd_with_content(&mut self, name: String, flags: u32, content: Vec<u8>) -> (r: Option<usize>)
        requires
            old(self).wf(),
        ensures
            final(self).wf(),
            allocated(
                old(self)@,
                final(self)@,
                r,
                |i: int| fresh(name@, flags, FdKind::FakeFile(content@), None, 0),
            ),
    {
        let d = FileDescriptor {
            name,
            pos: 0,
            flags,
            valid: true,
            fd_type: FdType::FakeFile(content),
            pipe_id: None,
            fd_num: 0,
        };
        self.install(d)
    }

    /// Allocates a /dev/urandom fd.
    pub fn alloc_urandom_fd(&mut self, flags: u32) -> (r: Option<usize>)
        requires
            old(self).wf(),
        ensures
            final(self).wf(),
            allocated(
                old(self)@,
                final(self)@,
                r,
                |i: int| fresh("/dev/urandom"@, flags, FdKind::Urandom, None, 0),
            ),
    {
        let d = FileDescriptor {
            name: "/dev/urandom".to_owned(),
            pos: 0,
            flags,
            valid: true,
            fd_type: FdType::Urandom,
            pipe_id: None,
            fd_num: 0,
        };
        self.install(d)
    }

    /// Allocates a kernel-backed fd (eventfd, epoll, timerfd, ...), which
    /// records its own number.
    pub fn alloc_special_fd(&mut self, name: String, flags: u32, fd_type: FdType) -> (r: Option<usize>)
        requires
            old(self).wf(),
        ensures
            final(self).wf(),
            allocated(
                old(self)@,
                final(self)@,
                r,
                |i: int| fresh(name@, flags, fd_type@, None, i as usize),
            ),
    {
        match self.find_free() {
            Some(i) => {
                let d = FileDescriptor {
                    name,
                    pos: 0,
                    flags,
                    valid: true,
                    fd_type,
                    pipe_id: None,
                    fd_num: i,
                };
                self.put(i, Some(d));
                Some(i)
            },
            None => None,
        }
    }

    /// Allocates one end of pipe `pipe_id`.
    pub fn alloc_pipe_fd(&mut self, pipe_id: usize, is_read: bool) -> (r: Option<usize>)
        requires
            old(self).wf(),
        ensures
            final(self).wf(),
            allocated(
                old(self)@,
                final(self)@,
                r,
                |i: int|
                    if is_read {
                        fresh("pipe:read"@, O_RDONLY, FdKind::PipeRead, Some(pipe_id), i as usize)
                    } else {
                        fresh("pipe:write"@, O_WRONLY, FdKind::PipeWrite, Some(pipe_id), i as usize)
                    },
            ),
    {
        match self.find_free() {
            Some(i) => {
                let d = if is_read {
                    FileDescriptor {
                        name: "pipe:read".to_owned(),
                        pos: 0,
                        flags: O_RDONLY,
                        valid: true,
                        fd_type: FdType::PipeRead,
                        pipe_id: Some(pipe_id),
                        fd_num: i,
                    }
                } else {
                    FileDescriptor {
                        name: "pipe:write".to_owned(),
                        pos: 0,
                        flags: O_WRONLY,
                        valid: true,
                        fd_type: FdType::PipeWrite,
                        pipe_id: Some(pipe_id),
                        fd_num: i,
                    }
                };
                self.put(i, Some(d));
                Some(i)
            },
            None => None,
        }
    }

    /// The slot of `fd`, if `fd` is a slot number.
    pub open spec fn slot(&self, fd: int) -> Option<DescView> {
        if 0 <= fd < self@.len() {
            self@[fd]
        } else {
            None
        }
    }

    /// Writes `data` at the position of virtual file `fd`, padding with
    /// zeros, and moves the position past it; returns the byte count, or
    /// `None` when `fd` is no virtual file.
    pub fn fake_write(&mut self, fd: i32, data: &[u8]) -> (r: Option<isize>)
        requires
            old(self).wf(),
            data@.len() <= isize::MAX,
            old(self).slot(fd as int) matches Some(d) ==> (d.kind is FakeFile ==> d.pos + data@.len()
                <= usize::MAX),
        ensures
            final(self).wf(),
            match old(self).slot(fd as int) {
                Some(d) => match d.kind {
                    FdKind::FakeFile(c) => {
                        &&& r == Some(data@.len() as isize)
                        &&& final(self)@ == old(self)@.update(
                            fd as int,
                            Some(
                                DescView {
                                    pos: (d.pos + data@.len()) as usize,
                                    kind: FdKind::FakeFile(write_at(c, d.pos as int, data@)),
                                    ..d
                                },
                            ),
                        )
                    },
                    _ => r is None && final(self)@ == old(self)@,
                },
                None => r is None && final(self)@ == old(self)@,
            },
    {
        if fd < 0 || fd as usize >= MAX_FDS {
            return None;
        }
        let idx = fd as usize;
        let slot = self.take_slot(idx);
        match slot {
            None => {
                assert(self@ =~= old(self)@);
                None
            },
            Some(mut desc) => {
                match desc.fd_type {
                    FdType::FakeFile(mut buf) => {
                        let pos = desc.pos;
                        let end = pos + data.len();
                        write_into(&mut buf, pos, data);
                        desc.fd_type = FdType::FakeFile(buf);
                        desc.pos = end;
                        self.put(idx, Some(desc));
                        Some(data.len() as isize)
                    },
                    other => {
                        desc.fd_type = other;
                        self.put(idx, Some(desc));
                        assert(self@ =~= old(self)@);
                        None
                    },
                }
            },
        }
    }

    /// Reads up to `len` bytes of virtual file `fd` from its position and
    /// moves the position past them; for /dev/urandom, `len` bytes of the
    /// generator whose state is `prng`. `None` for any other fd.
    #[verifier::rlimit(40)]
    pub fn fake_read(&mut self, fd: i32, len: usize, prng: &mut u64) -> (r: Option<Vec<u8>>)
        requires
            old(self).wf(),
        ensures
            final(self).wf(),
            match old(self).slot(fd as int) {
                Some(d) => match d.kind {
                    FdKind::FakeFile(c) => {
                        let w = read_window(c, d.pos as int, len as int);
                        &&& r matches Some(v) && v@ == w
                        &&& final(self)@ == old(self)@.update(fd as int, Some(DescView { pos: (d.pos + w.len()) as usize, ..d }))
                        &&& *final(prng) == *old(prng)
                    },
                    FdKind::Urandom => {
                        &&& r matches Some(v) && v@ == urandom_bytes(*old(prng), len as nat)
                        &&& final(self)@ == old(self)@.update(fd as int, Some(DescView { pos: len, ..d }))
                        &&& *final(prng) == lcg_iter(*old(prng), len as nat)
                    },
                    _ => r is None && final(self)@ == old(self)@ && *final(prng) == *old(prng),
                },
                None => r is None && final(self)@ == old(self)@ && *final(prng) == *old(prng),
            },
    {
        if fd < 0 || fd as usize >= MAX_FDS {
            return None;
        }
        let idx = fd as usize;
        let slot = self.take_slot(idx);
        match slot {
            None => {
                assert(self@ =~= old(self)@);
                None
            },
            Some(mut desc) => {
                let r = read_desc(&mut desc, len, prng);
                self.put(idx, Some(desc));
                proof {
                    if r is None {
                        assert(self@ =~= old(self)@);
                    }
                }
                r
            },
        }
    }

    /// Cuts or zero-pads virtual file `fd` to `size` bytes, pulling the
    /// position back to `size` if it was past it; false for any other fd.
    pub fn fake_truncate(&mut self, fd: i32, size: usize) -> (r: bool)
        requires
            old(self).wf(),
        ensures
            final(self).wf(),
            match old(self).slot(fd as int) {
                Some(d) => match d.kind {
                    FdKind::FakeFile(c) => {
                        &&& r
                        &&& final(self)@ == old(self)@.update(
                            fd as int,
                            Some(
                                DescView {
                                    pos: if d.pos > size { size } else { d.pos },
                                    kind: FdKind::FakeFile(resized(c, size as int)),
                                    ..d
                                },
                            ),
                        )
                    },
                    _ => !r && final(self)@ == old(self)@,
                },
                None => !r && final(self)@ == old(self)@,
            },
    {
        if fd < 0 || fd as usize >= MAX_FDS {
            return false;
        }
        let idx = fd as usize;
        let slot = self.take_slot(idx);
        match slot {
            None => {
                assert(self@ =~= old(self)@);
                false
            },
            Some(mut desc) => {
                match desc.fd_type {
                    FdType::FakeFile(mut buf) => {
                        let ghost c = buf@;
                        buf.resize(size, 0);
                        assert(buf@ =~= resized(c, size as int));
                        desc.fd_type = FdType::FakeFile(buf);
                        if desc.pos > size {
                            desc.pos = size;
                        }
                        self.put(idx, Some(desc));
                        true
                    },
                    other => {
                        desc.fd_type = other;
                        self.put(idx, Some(desc));
                        assert(self@ =~= old(self)@);
                        false
                    },
                }
            },
        }
    }

    /// Puts `desc` into slot `fd` (dup2, redirection); nothing happens when
    /// `fd` is no slot.
    pub fn set_fd(&mut self, fd: usize, desc: FileDescriptor)
        requires
            old(self).wf(),
        ensures
            final(self).wf(),
            final(self)@ == if fd < MAX_FDS {
                old(self)@.update(fd as int, Some(desc@))
            } else {
                old(self)@
            },
    {
        if fd < self.fds.len() {
            self.put(fd, Some(desc));
        }
    }

    /// The open fd `fd` (one in use), if any.
    pub open spec fn open_fd(&self, fd: int) -> Option<DescView> {
        match self.slot(fd) {
            Some(d) => if d.valid { Some(d) } else { None },
            None => None,
        }
    }

    /// Copies open fd `oldfd` into slot `newfd`; false when `newfd` is no
    /// slot or `oldfd` is not open.
    pub fn dup(&mut self, oldfd: usize, newfd: usize) -> (r: bool)
        requires
            old(self).wf(),
        ensures
            final(self).wf(),
            r == (newfd < MAX_FDS && old(self).open_fd(oldfd as int) is Some),
            r ==> final(self)@ == old(self)@.update(newfd as int, old(self).open_fd(oldfd as int)),
            !r ==> final(self)@ == old(self)@,
    {
        if newfd >= self.fds.len() {
            return false;
        }
        let copy = match self.get(oldfd) {
            Some(d) => d.duplicate(),
            None => return false,
        };
        self.put(newfd, Some(copy));
        true
    }

    /// The open fd `fd`, if any.
    pub fn get(&self, fd: usize) -> (r: Option<&FileDescriptor>)
        requires
            self.wf(),
        ensures
            match r {
                Some(d) => self.open_fd(fd as int) == Some(d@),
                None => self.open_fd(fd as int) is None,
            },
    {
        if fd >= self.fds.len() {
            return None;
        }
        match &self.fds[fd] {
            Some(d) => if d.valid { Some(d) } else { None },
            None => None,
        }
    }

    /// Takes open fd `fd` out of the table, for type-specific cleanup.
    pub fn take(&mut self, fd: usize) -> (r: Option<FileDescriptor>)
        requires
            old(self).wf(),
        ensures
            final(self).wf(),
            match old(self).open_fd(fd as int) {
                Some(d) => r matches Some(x) && x@ == d && final(self)@ == old(self)@.update(fd as int, None),
                None => r is None && final(self)@ == old(self)@,
            },
    {
        if fd >= self.fds.len() {
            return None;
        }
        let open = match &self.fds[fd] {
            Some(d) => d.valid,
            None => false,
        };
        if open {
            self.take_slot(fd)
        } else {
            None
        }
    }

    /// Closes open fd `fd`; false when it was not open.
    pub fn close(&mut self, fd: usize) -> (r: bool)
        requires
            old(self).wf(),
        ensures
            final(self).wf(),
            r == old(self).open_fd(fd as int) is Some,
            r ==> final(self)@ == old(self)@.update(fd as int, None),
            !r ==> final(self)@ == old(self)@,
    {
        match self.take(fd) {
            Some(_) => true,
            None => false,
        }
    }

    /// Takes every open fd out of the table, lowest first (process exit).
    pub fn drain_open_fds(&mut self) -> (r: Vec<(usize, FileDescriptor)>)
        requires
            old(self).wf(),
        ensures
            final(self).wf(),
            forall|i: int| 0 <= i < MAX_FDS ==> #[trigger] final(self)@[i] == if old(self).open_fd(i) is Some {
                None
            } else {
                old(self)@[i]
            },
            forall|k: int| 0 <= k < r@.len() ==> old(self).open_fd(#[trigger] r@[k].0 as int) == Some(r@[k].1@),
            forall|k1: int, k2: int| 0 <= k1 < k2 < r@.len() ==> r@[k1].0 < r@[k2].0,
            forall|i: int| 0 <= i < MAX_FDS && old(self).open_fd(i) is Some ==> exists|k: int| 0 <= k < r@.len() && #[trigger] r@[k].0 == i,
    {
        let ghost before = self@;
        let mut drained: Vec<(usize, FileDescriptor)> = Vec::new();
        let mut fd: usize = 0;
        while fd < self.fds.len()
            invariant
                self.wf(),
                fd <= MAX_FDS,
                before.len() == MAX_FDS,
                before == old(self)@,
                forall|i: int| 0 <= i < fd ==> #[trigger] self@[i] == if old(self).open_fd(i) is Some {
                    None
                } else {
                    before[i]
                },
                forall|i: int| fd <= i < MAX_FDS ==> #[trigger] self@[i] == before[i],
                forall|k: int| 0 <= k < drained@.len() ==> old(self).open_fd(#[trigger] drained@[k].0 as int) == Some(drained@[k].1@) && drained@[k].0 < fd,
                forall|k1: int, k2: int| 0 <= k1 < k2 < drained@.len() ==> drained@[k1].0 < drained@[k2].0,
                forall|i: int| 0 <= i < fd && old(self).open_fd(i) is Some ==> exists|k: int| 0 <= k < drained@.len() && #[trigger] drained@[k].0 == i,
            decreases MAX_FDS - fd,
        {
            let ghost snap = drained@;
            match self.take(fd) {
                Some(d) => {
                    drained.push((fd, d));
                    proof {
                        assert forall|i: int| 0 <= i < fd + 1 && old(self).open_fd(i) is Some implies exists|k: int| 0 <= k < drained@.len() && #[trigger] drained@[k].0 == i by {
                            if i < fd {
                                let k = choose|k: int| 0 <= k < snap.len() && #[trigger] snap[k].0 == i;
                                assert(drained@[k].0 == i);
                            } else {
                                assert(drained@[snap.len() as int].0 == i);
                            }
                        }
                    }
                },
                None => {},
            }
            fd = fd + 1;
        }
        drained
    }

    /// The open fd `fd`, to change in place.
    pub fn get_mut(&mut self, fd: usize) -> (r: Option<&mut FileDescriptor>)
        requires
            old(self).wf(),
        ensures
            match r {
                Some(d) => {
                    &&& old(self).open_fd(fd as int) == Some(d@)
                    &&& final(self)@ == old(self)@.update(fd as int, Some(final(d)@))
                    &&& final(self).wf()
                },
                None => old(self).open_fd(fd as int) is None && final(self)@ == old(self)@ && final(self).wf(),
            },
    {
        if fd >= self.fds.len() {
            return None;
        }
        let open = match &self.fds[fd] {
            Some(d) => d.valid,
            None => false,
        };
        if !open {
            return None;
        }
        let slot = &mut self.fds[fd];
        match slot {
            Some(d) => Some(d),
            None => None,
        }
    }
}

/// A successful allocation leaves the new descriptor in its slot and
/// every other slot as it was.
pub proof fn lemma_allocated_slot(
    before: Seq<Option<DescView>>,
    after: Seq<Option<DescView>>,
    i: usize,
    d: spec_fn(int) -> DescView,
)
    requires
        allocated(before, after, Some(i), d),
    ensures
        after[i as int] == Some(d(i as int)),
        forall|j: int| 0 <= j < before.len() && j != i ==> after[j] == before[j],
        is_free(before[i as int]),
{
}

/// The lowest-numbered free slot is reused: once `fd` is closed while
/// every lower slot is in use, the next allocation returns `fd`.
pub proof fn lemma_close_then_reuse(before: Seq<Option<DescView>>, fd: int)
    requires
        0 <= fd < before.len(),
        forall|j: int| 0 <= j < fd ==> !is_free(#[trigger] before[j]),
    ensures
        first_free(before.update(fd, None), fd),
{
}

} // verus!
