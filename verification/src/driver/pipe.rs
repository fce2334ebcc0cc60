//! Anonymous pipes: a 4 KiB ring buffer per pipe and a table of pipes with
//! reference counts.
//!
//! User memory is not touched here: a read appends the bytes it takes to a
//! vector the caller copies to user space, a write takes the user bytes as
//! a slice. A task that must be woken is returned to the caller.
use vstd::prelude::*;

verus! {

/// Maximum number of concurrent pipes.
pub const MAX_PIPES: usize = 16;

/// Pipe buffer size.
pub const PIPE_BUF_SIZE: usize = 4096;

/// Error: broken pipe (write with no reader).
pub const EPIPE: isize = -32;

/// No task is blocked.
pub const NO_TASK: usize = usize::MAX;

/// Reducing before adding does not change a residue.
pub proof fn lemma_mod_add(a: int, b: int, m: int)
    requires
        a >= 0,
        b >= 0,
        m > 0,
    ensures
        ((a % m) + b) % m == (a + b) % m,
{
    vstd::arithmetic::div_mod::lemma_add_mod_noop(a, b, m);
    vstd::arithmetic::div_mod::lemma_mod_twice(a, m);
    vstd::arithmetic::div_mod::lemma_add_mod_noop(a % m, b, m);
}

/// An anonymous pipe with a ring buffer.
pub struct Pipe {
    buffer: Vec<u8>,
    read_pos: usize,
    write_pos: usize,
    data_len: usize,
    read_closed: bool,
    write_closed: bool,
    reader_blocked: usize,
    writer_blocked: usize,
}

impl Pipe {
    /// The ring is consistent.
    pub closed spec fn wf(&self) -> bool {
        &&& self.buffer@.len() == PIPE_BUF_SIZE
        &&& self.read_pos < PIPE_BUF_SIZE
        &&& self.data_len <= PIPE_BUF_SIZE
        &&& self.write_pos == (self.read_pos + self.data_len) % (PIPE_BUF_SIZE as int)
    }

    /// The bytes in the pipe, oldest first.
    pub closed spec fn contents(&self) -> Seq<u8> {
        Seq::new(
            self.data_len as nat,
            |k: int| self.buffer@[(self.read_pos + k) % (PIPE_BUF_SIZE as int)],
        )
    }

    /// Whether the read end is closed.
    pub closed spec fn is_read_closed(&self) -> bool {
        self.read_closed
    }

    /// Whether the write end is closed.
    pub closed spec fn is_write_closed(&self) -> bool {
        self.write_closed
    }

    /// The task blocked reading, or `NO_TASK`.
    pub closed spec fn blocked_reader(&self) -> usize {
        self.reader_blocked
    }

    /// The task blocked writing, or `NO_TASK`.
    pub closed spec fn blocked_writer(&self) -> usize {
        self.writer_blocked
    }

    /// An empty pipe with both ends open.
    pub fn new() -> (r: Self)
        ensures
            r.wf(),
            r.contents() == Seq::<u8>::empty(),
            !r.is_read_closed(),
            !r.is_write_closed(),
            r.blocked_reader() == NO_TASK,
            r.blocked_writer() == NO_TASK,
    {
        let mut buffer: Vec<u8> = Vec::new();
        let mut i: usize = 0;
        while i < PIPE_BUF_SIZE
            invariant
                i <= PIPE_BUF_SIZE,
                buffer@.len() == i,
            decreases PIPE_BUF_SIZE - i,
        {
            buffer.push(0);
            i = i + 1;
        }
        let r = Pipe {
            buffer,
            read_pos: 0,
            write_pos: 0,
            data_len: 0,
            read_closed: false,
            write_closed: false,
            reader_blocked: NO_TASK,
            writer_blocked: NO_TASK,
        };
        assert(r.contents() =~= Seq::<u8>::empty());
        r
    }

    /// Read up to `len` bytes, appending them to `out`. Returns the number
    /// read; 0 for a zero length, a null buffer, or at end of file (empty
    /// and write end closed); -1 when empty with the write end open (the
    /// caller blocks). After taking bytes the blocked writer, if any, is
    /// returned for waking and forgotten.
    pub fn read(&mut self, buf: usize, len: usize, out: &mut Vec<u8>) -> (r: (isize, Option<usize>))
        requires
            old(self).wf(),
        ensures
            final(self).wf(),
            final(self).is_read_closed() == old(self).is_read_closed(),
            final(self).is_write_closed() == old(self).is_write_closed(),
            final(self).blocked_reader() == old(self).blocked_reader(),
            len == 0 || buf == 0 ==> r == (0isize, None::<usize>) && final(self).contents() == old(self).contents() && final(out)@ == old(out)@ && final(self).blocked_writer() == old(self).blocked_writer(),
            len != 0 && buf != 0 && old(self).contents().len() == 0 ==> r == (if old(self).is_write_closed() {
                0isize
            } else {
                -1isize
            }, None::<usize>) && final(self).contents() == old(self).contents() && final(out)@
                == old(out)@ && final(self).blocked_writer() == old(self).blocked_writer(),
            len != 0 && buf != 0 && old(self).contents().len() > 0 ==> {
                let n = if len < old(self).contents().len() {
                    len as int
                } else {
                    old(self).contents().len() as int
                };
                &&& r.0 == n
                &&& final(out)@ == old(out)@ + old(self).contents().take(n)
                &&& final(self).contents() == old(self).contents().skip(n)
                &&& final(self).blocked_writer() == NO_TASK
                &&& r.1 == if old(self).blocked_writer() != NO_TASK {
                    Some(old(self).blocked_writer())
                } else {
                    None::<usize>
                }
            },
    {
        if len == 0 || buf == 0 {
            return (0, None);
        }
        if self.data_len == 0 {
            if self.write_closed {
                return (0, None);
            }
            return (-1, None);
        }
        let to_read = if len < self.data_len {
            len
        } else {
            self.data_len
        };
        let ghost c0 = self.contents();
        let mut i: usize = 0;
        while i < to_read
            invariant
                self.buffer@.len() == PIPE_BUF_SIZE,
                self.read_pos < PIPE_BUF_SIZE,
                old(self).wf(),
                self.read_closed == old(self).read_closed,
                self.write_closed == old(self).write_closed,
                self.reader_blocked == old(self).reader_blocked,
                self.writer_blocked == old(self).writer_blocked,
                self.buffer@ == old(self).buffer@,
                self.data_len == old(self).data_len,
                0 < to_read <= self.data_len,
                i <= to_read,
                c0 == old(self).contents(),
                c0.len() == self.data_len,
                self.read_pos == (old(self).read_pos + i) % (PIPE_BUF_SIZE as int),
                self.write_pos == old(self).write_pos,
                out@ == old(out)@ + c0.take(i as int),
            decreases to_read - i,
        {
            let byte = self.buffer[self.read_pos];
            let ghost rp = self.read_pos;
            proof {
                assert(byte == c0[i as int]);
            }
            out.push(byte);
            self.read_pos = (self.read_pos + 1) % PIPE_BUF_SIZE;
            proof {
                assert(out@ =~= old(out)@ + c0.take(i + 1));
                lemma_mod_add(old(self).read_pos + i, 1, 4096);
            }
            i = i + 1;
        }
        self.data_len = self.data_len - to_read;
        proof {
            lemma_mod_add(old(self).read_pos as int, to_read as int, 4096);
            lemma_mod_add(old(self).read_pos + old(self).data_len, 0, 4096);
            assert forall|k: int| 0 <= k < self.data_len implies #[trigger] self.contents()[k]
                == c0.skip(to_read as int)[k] by {
                lemma_mod_add(old(self).read_pos + to_read, k, 4096);
            }
            assert(self.contents() =~= c0.skip(to_read as int));
        }
        let mut wake = None;
        if self.writer_blocked != NO_TASK {
            wake = Some(self.writer_blocked);
            self.writer_blocked = NO_TASK;
        }
        (to_read as isize, wake)
    }

    /// Write the bytes of `data` (the user buffer at `buf`) as far as they
    /// fit. Returns the number written; 0 for an empty write or a null
    /// buffer; EPIPE when the read end is closed; -1 when full (the caller
    /// blocks). After adding bytes the blocked reader, if any, is returned
    /// for waking and forgotten.
    pub fn write(&mut self, buf: usize, data: &[u8]) -> (r: (isize, Option<usize>))
        requires
            old(self).wf(),
        ensures
            final(self).wf(),
            final(self).is_read_closed() == old(self).is_read_closed(),
            final(self).is_write_closed() == old(self).is_write_closed(),
            final(self).blocked_writer() == old(self).blocked_writer(),
            data@.len() == 0 || buf == 0 ==> r == (0isize, None::<usize>) && final(self).contents()
                == old(self).contents() && final(self).blocked_reader() == old(self).blocked_reader(),
            data@.len() != 0 && buf != 0 && old(self).is_read_closed() ==> r == (EPIPE, None::<usize>)
                && final(self).contents() == old(self).contents() && final(self).blocked_reader()
                == old(self).blocked_reader(),
            data@.len() != 0 && buf != 0 && !old(self).is_read_closed() && old(self).contents().len()
                == PIPE_BUF_SIZE ==> r == (-1isize, None::<usize>) && final(self).contents() == old(self).contents() && final(self).blocked_reader() == old(self).blocked_reader(),
            data@.len() != 0 && buf != 0 && !old(self).is_read_closed() && old(self).contents().len()
                < PIPE_BUF_SIZE ==> {
                let room = PIPE_BUF_SIZE - old(self).contents().len();
                let n = if data@.len() < room {
                    data@.len() as int
                } else {
                    room as int
                };
                &&& r.0 == n
                &&& final(self).contents() == old(self).contents() + data@.take(n)
                &&& final(self).blocked_reader() == NO_TASK
                &&& r.1 == if old(self).blocked_reader() != NO_TASK {
                    Some(old(self).blocked_reader())
                } else {
                    None::<usize>
                }
            },
    {
        let len = data.len();
        if len == 0 || buf == 0 {
            return (0, None);
        }
        if self.read_closed {
            return (EPIPE, None);
        }
        let available = PIPE_BUF_SIZE - self.data_len;
        if available == 0 {
            return (-1, None);
        }
        let to_write = if len < available {
            len
        } else {
            available
        };
        let ghost c0 = self.contents();
        let mut i: usize = 0;
        while i < to_write
            invariant
                self.wf(),
                self.read_closed == old(self).read_closed,
                self.write_closed == old(self).write_closed,
                self.reader_blocked == old(self).reader_blocked,
                self.writer_blocked == old(self).writer_blocked,
                self.read_pos == old(self).read_pos,
                len == data@.len(),
                0 < to_write <= len,
                to_write <= PIPE_BUF_SIZE - old(self).data_len,
                i <= to_write,
                c0 == old(self).contents(),
                self.data_len == old(self).data_len + i,
                self.contents() == c0 + data@.take(i as int),
            decreases to_write - i,
        {
            let byte = data[i];
            let ghost before = self.contents();
            let wp = self.write_pos;
            self.buffer.set(wp, byte);
            self.write_pos = (self.write_pos + 1) % PIPE_BUF_SIZE;
            self.data_len = self.data_len + 1;
            proof {
                assert forall|k: int| 0 <= k < before.len() implies #[trigger] self.contents()[k]
                    == before[k] by {
                    assert((self.read_pos + k) % 4096 != wp as int);
                }
                assert(self.contents()[before.len() as int] == byte);
                assert(self.contents() =~= c0 + data@.take(i + 1));
            }
            i = i + 1;
        }
        let mut wake = None;
        if self.reader_blocked != NO_TASK {
            wake = Some(self.reader_blocked);
            self.reader_blocked = NO_TASK;
        }
        (to_write as isize, wake)
    }

    /// Whether the pipe holds data.
    pub fn has_data(&self) -> (r: bool)
        requires
            self.wf(),
        ensures
            r == (self.contents().len() > 0),
    {
        self.data_len > 0
    }

    /// Whether the pipe has room.
    pub fn has_space(&self) -> (r: bool)
        requires
            self.wf(),
        ensures
            r == (self.contents().len() < PIPE_BUF_SIZE),
    {
        self.data_len < PIPE_BUF_SIZE
    }

    /// The number of bytes in the pipe.
    pub fn available(&self) -> (r: usize)
        requires
            self.wf(),
        ensures
            r == self.contents().len(),
    {
        self.data_len
    }

    /// Close the read end; the blocked writer, if any, is returned for
    /// waking (it gets EPIPE on its next write).
    pub fn close_read(&mut self) -> (r: Option<usize>)
        requires
            old(self).wf(),
        ensures
            final(self).wf(),
            final(self).is_read_closed(),
            final(self).is_write_closed() == old(self).is_write_closed(),
            final(self).contents() == old(self).contents(),
            final(self).blocked_reader() == old(self).blocked_reader(),
            final(self).blocked_writer() == NO_TASK,
            r == if old(self).blocked_writer() != NO_TASK {
                Some(old(self).blocked_writer())
            } else {
                None::<usize>
            },
    {
        self.read_closed = true;
        let w = self.writer_blocked;
        self.writer_blocked = NO_TASK;
        if w != NO_TASK {
            Some(w)
        } else {
            None
        }
    }

    /// Close the write end; the blocked reader, if any, is returned for
    /// waking (it sees end of file on its next read).
    pub fn close_write(&mut self) -> (r: Option<usize>)
        requires
            old(self).wf(),
        ensures
            final(self).wf(),
            final(self).is_write_closed(),
            final(self).is_read_closed() == old(self).is_read_closed(),
            final(self).contents() == old(self).contents(),
            final(self).blocked_writer() == old(self).blocked_writer(),
            final(self).blocked_reader() == NO_TASK,
            r == if old(self).blocked_reader() != NO_TASK {
                Some(old(self).blocked_reader())
            } else {
                None::<usize>
            },
    {
        self.write_closed = true;
        let w = self.reader_blocked;
        self.reader_blocked = NO_TASK;
        if w != NO_TASK {
            Some(w)
        } else {
            None
        }
    }

    /// Record the task blocked reading.
    pub fn set_reader_blocked(&mut self, proc_idx: usize)
        requires
            old(self).wf(),
        ensures
            final(self).wf(),
            final(self).blocked_reader() == proc_idx,
            final(self).blocked_writer() == old(self).blocked_writer(),
            final(self).contents() == old(self).contents(),
            final(self).is_read_closed() == old(self).is_read_closed(),
            final(self).is_write_closed() == old(self).is_write_closed(),
    {
        self.reader_blocked = proc_idx;
    }

    /// Record the task blocked writing.
    pub fn set_writer_blocked(&mut self, proc_idx: usize)
        requires
            old(self).wf(),
        ensures
            final(self).wf(),
            final(self).blocked_writer() == proc_idx,
            final(self).blocked_reader() == old(self).blocked_reader(),
            final(self).contents() == old(self).contents(),
            final(self).is_read_closed() == old(self).is_read_closed(),
            final(self).is_write_closed() == old(self).is_write_closed(),
    {
        self.writer_blocked = proc_idx;
    }

    /// Whether both ends are closed.
    pub fn is_fully_closed(&self) -> (r: bool)
        ensures
            r == (self.is_read_closed() && self.is_write_closed()),
    {
        self.read_closed && self.write_closed
    }
}


/// The table of pipes and their reference counts (open descriptors per
/// pipe).
pub struct PipeTable {
    pub pipes: Vec<Option<Pipe>>,
    pub refcounts: Vec<usize>,
}

impl PipeTable {
    /// Both tables have a slot per pipe and every pipe is consistent.
    pub open spec fn wf(&self) -> bool {
        &&& self.pipes@.len() == MAX_PIPES
        &&& self.refcounts@.len() == MAX_PIPES
        &&& forall|i: int|
            0 <= i < MAX_PIPES ==> (#[trigger] self.pipes@[i] matches Some(p) ==> p.wf())
    }

    /// No pipe allocated yet (pipes are created lazily).
    pub fn init() -> (r: Self)
        ensures
            r.wf(),
            forall|i: int| 0 <= i < MAX_PIPES ==> #[trigger] r.pipes@[i] is None && r.refcounts@[i]
                == 0,
    {
        let mut pipes: Vec<Option<Pipe>> = Vec::new();
        let mut refcounts: Vec<usize> = Vec::new();
        let mut i: usize = 0;
        while i < MAX_PIPES
            invariant
                i <= MAX_PIPES,
                pipes@.len() == i,
                refcounts@.len() == i,
                forall|j: int| 0 <= j < i ==> #[trigger] pipes@[j] is None && refcounts@[j] == 0,
            decreases MAX_PIPES - i,
        {
            pipes.push(None);
            refcounts.push(0);
            i = i + 1;
        }
        PipeTable { pipes, refcounts }
    }

    /// Allocate a pipe in the first free slot, with a reference count of
    /// two (one per end). `None` when all slots are taken.
    pub fn alloc_pipe(&mut self) -> (r: Option<usize>)
        requires
            old(self).wf(),
        ensures
            final(self).wf(),
            r is None ==> *final(self) == *old(self) && forall|j: int|
                0 <= j < MAX_PIPES ==> #[trigger] old(self).pipes@[j] is Some,
            r matches Some(i) ==> i < MAX_PIPES && old(self).pipes@[i as int] is None && (forall|j: int|
                0 <= j < i ==> #[trigger] old(self).pipes@[j] is Some) && (final(self).pipes@[i as int] matches Some(p) && p.contents() == Seq::<u8>::empty()
                && !p.is_read_closed() && !p.is_write_closed() && p.blocked_reader() == NO_TASK
                && p.blocked_writer() == NO_TASK) && final(self).refcounts@ == old(self).refcounts@.update(i as int, 2) && forall|j: int|
                0 <= j < MAX_PIPES && j != i ==> #[trigger] final(self).pipes@[j] == old(self).pipes@[j],
    {
        let mut i: usize = 0;
        while i < self.pipes.len()
            invariant
                self.wf(),
                *self == *old(self),
                i <= MAX_PIPES,
                forall|j: int| 0 <= j < i ==> #[trigger] self.pipes@[j] is Some,
            decreases MAX_PIPES - i,
        {
            if self.pipes[i].is_none() {
                self.pipes.set(i, Some(Pipe::new()));
                self.refcounts.set(i, 2);
                return Some(i);
            }
            i = i + 1;
        }
        None
    }

    /// Bytes waiting in pipe `pipe_id`; 0 when it does not exist.
    pub fn pipe_available(&self, pipe_id: usize) -> (r: usize)
        requires
            self.wf(),
            pipe_id < MAX_PIPES,
        ensures
            r == match self.pipes@[pipe_id as int] {
                Some(p) => p.contents().len(),
                None => 0,
            },
    {
        match &self.pipes[pipe_id] {
            Some(p) => p.available(),
            None => 0,
        }
    }

    /// Count one more open descriptor on pipe `pipe_id`.
    pub fn inc_ref(&mut self, pipe_id: usize)
        requires
            old(self).wf(),
            pipe_id < MAX_PIPES,
            old(self).refcounts@[pipe_id as int] < usize::MAX,
        ensures
            final(self).wf(),
            final(self).pipes@ == old(self).pipes@,
            final(self).refcounts@ == old(self).refcounts@.update(
                pipe_id as int,
                (old(self).refcounts@[pipe_id as int] + 1) as usize,
            ),
    {
        let c = self.refcounts[pipe_id];
        self.refcounts.set(pipe_id, c + 1);
    }

    /// Count one descriptor less on pipe `pipe_id` (never below zero); at
    /// zero the pipe is freed and `true` returned.
    pub fn dec_ref(&mut self, pipe_id: usize) -> (r: bool)
        requires
            old(self).wf(),
            pipe_id < MAX_PIPES,
        ensures
            final(self).wf(),
            ({
                let c = old(self).refcounts@[pipe_id as int];
                let c2 = if c > 0 {
                    (c - 1) as usize
                } else {
                    0usize
                };
                &&& final(self).refcounts@ == old(self).refcounts@.update(pipe_id as int, c2)
                &&& r == (c2 == 0)
                &&& final(self).pipes@ == if c2 == 0 {
                    old(self).pipes@.update(pipe_id as int, None)
                } else {
                    old(self).pipes@
                }
            }),
    {
        let c = self.refcounts[pipe_id];
        if c > 0 {
            self.refcounts.set(pipe_id, c - 1);
        }
        if self.refcounts[pipe_id] == 0 {
            self.pipes.set(pipe_id, None);
            true
        } else {
            false
        }
    }

    /// Read from pipe `pipe_id` (see `Pipe::read`); `None` when the pipe
    /// does not exist.
    pub fn pipe_read(&mut self, pipe_id: usize, buf: usize, len: usize, out: &mut Vec<u8>) -> (r:
        Option<(isize, Option<usize>)>)
        requires
            old(self).wf(),
            pipe_id < MAX_PIPES,
        ensures
            final(self).wf(),
            final(self).refcounts@ == old(self).refcounts@,
            forall|j: int|
                0 <= j < MAX_PIPES && j != pipe_id ==> #[trigger] final(self).pipes@[j] == old(self).pipes@[j],
            old(self).pipes@[pipe_id as int] is None <==> r is None,
            old(self).pipes@[pipe_id as int] is None ==> final(self).pipes@ == old(self).pipes@
                && final(out)@ == old(out)@,
            old(self).pipes@[pipe_id as int] matches Some(p0) ==> final(self).pipes@[pipe_id as int] matches Some(p1) && p1.is_read_closed()
                == p0.is_read_closed() && p1.is_write_closed() == p0.is_write_closed() && (r
                matches Some(res) && (len == 0 || buf == 0 ==> res == (0isize, None::<usize>)
                && p1.contents() == p0.contents() && final(out)@ == old(out)@) && (len != 0 && buf
                != 0 && p0.contents().len() == 0 ==> res == (if p0.is_write_closed() {
                0isize
            } else {
                -1isize
            }, None::<usize>) && p1.contents() == p0.contents() && final(out)@ == old(out)@) && (
            len != 0 && buf != 0 && p0.contents().len() > 0 ==> {
                let n = if len < p0.contents().len() {
                    len as int
                } else {
                    p0.contents().len() as int
                };
                &&& res.0 == n
                &&& final(out)@ == old(out)@ + p0.contents().take(n)
                &&& p1.contents() == p0.contents().skip(n)
            })),
    {
        let slot = &mut self.pipes[pipe_id];
        match slot {
            Some(p) => Some(p.read(buf, len, out)),
            None => None,
        }
    }

    /// Write to pipe `pipe_id` (see `Pipe::write`); `None` when the pipe
    /// does not exist.
    pub fn pipe_write(&mut self, pipe_id: usize, buf: usize, data: &[u8]) -> (r: Option<
        (isize, Option<usize>),
    >)
        requires
            old(self).wf(),
            pipe_id < MAX_PIPES,
        ensures
            final(self).wf(),
            final(self).refcounts@ == old(self).refcounts@,
            forall|j: int|
                0 <= j < MAX_PIPES && j != pipe_id ==> #[trigger] final(self).pipes@[j] == old(self).pipes@[j],
            old(self).pipes@[pipe_id as int] is None <==> r is None,
            old(self).pipes@[pipe_id as int] is None ==> final(self).pipes@ == old(self).pipes@,
            old(self).pipes@[pipe_id as int] matches Some(p0) ==> final(self).pipes@[pipe_id as int] matches Some(p1) && p1.is_read_closed()
                == p0.is_read_closed() && p1.is_write_closed() == p0.is_write_closed() && (r
                matches Some(res) && (data@.len() == 0 || buf == 0 ==> res == (
                0isize,
                None::<usize>,
            ) && p1.contents() == p0.contents()) && (data@.len() != 0 && buf != 0
                && p0.is_read_closed() ==> res == (EPIPE, None::<usize>) && p1.contents()
                == p0.contents()) && (data@.len() != 0 && buf != 0 && !p0.is_read_closed()
                && p0.contents().len() == PIPE_BUF_SIZE ==> res == (-1isize, None::<usize>)
                && p1.contents() == p0.contents()) && (data@.len() != 0 && buf != 0
                && !p0.is_read_closed() && p0.contents().len() < PIPE_BUF_SIZE ==> {
                let room = PIPE_BUF_SIZE - p0.contents().len();
                let n = if data@.len() < room {
                    data@.len() as int
                } else {
                    room as int
                };
                &&& res.0 == n
                &&& p1.contents() == p0.contents() + data@.take(n)
            })),
    {
        let slot = &mut self.pipes[pipe_id];
        match slot {
            Some(p) => Some(p.write(buf, data)),
            None => None,
        }
    }
}

/// Bytes come out of a pipe in the order they went in: after a write that
/// took `n` bytes of `data` into pipe `p0` (giving `p1`), a read of at least
/// everything in `p1` (giving `p2`) appends the old contents of `p0`
/// followed by those `n` bytes, and leaves the pipe empty.
pub proof fn lemma_pipe_fifo(
    p0: Pipe,
    p1: Pipe,
    p2: Pipe,
    data: Seq<u8>,
    n: int,
    len: int,
    out0: Seq<u8>,
    out2: Seq<u8>,
)
    requires
        0 <= n <= data.len(),
        p1.contents() == p0.contents() + data.take(n),
        len >= p1.contents().len(),
        out2 == out0 + p1.contents().take(p1.contents().len() as int),
        p2.contents() == p1.contents().skip(p1.contents().len() as int),
    ensures
        out2 == out0 + p0.contents() + data.take(n),
        p2.contents() == Seq::<u8>::empty(),
{
    assert(p1.contents().take(p1.contents().len() as int) =~= p1.contents());
    assert(out0 + (p0.contents() + data.take(n)) =~= out0 + p0.contents() + data.take(n));
    assert(p1.contents().skip(p1.contents().len() as int) =~= Seq::<u8>::empty());
}

} // verus!
