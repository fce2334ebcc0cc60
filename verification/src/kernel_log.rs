//! Kernel log: a 32 KiB ring buffer that captures console output (oldest
//! bytes are dropped when full) and the runtime log level.
use vstd::prelude::*;

verus! {

/// Ring buffer size. One slot stays free, so it holds at most
/// `KLOG_BUF_SIZE - 1` bytes.
pub const KLOG_BUF_SIZE: usize = 32768;

pub const LEVEL_ERROR: u32 = 0;
pub const LEVEL_WARN: u32 = 1;
pub const LEVEL_INFO: u32 = 2;
pub const LEVEL_DEBUG: u32 = 3;
pub const LEVEL_TRACE: u32 = 4;

/// Level in effect until changed: INFO.
pub const DEFAULT_LEVEL: u32 = 2;

/// Reducing before adding does not change a residue.
proof fn lemma_mod_add(a: int, b: int, m: int)
    requires
        a >= 0,
        b >= 0,
        m > 0,
    ensures
        ((a % m) + b) % m == (a + b) % m,
{
    vstd::arithmetic::div_mod::lemma_add_mod_noop(a, b, m);
    vstd::arithmetic::div_mod::lemma_mod_twice(a, m);
    vstd::arithmetic::div_mod::lemma_add_mod_noop(a % m, b, m);
}

/// The log ring: bytes `[tail, head)` (modulo the size) are unread.
pub struct LogBuffer {
    data: Vec<u8>,
    head: usize,
    tail: usize,
}

impl LogBuffer {
    /// Positions are in range.
    pub closed spec fn wf(&self) -> bool {
        &&& self.data@.len() == KLOG_BUF_SIZE
        &&& self.head < KLOG_BUF_SIZE
        &&& self.tail < KLOG_BUF_SIZE
    }

    /// Number of unread bytes.
    pub closed spec fn avail(&self) -> int {
        if self.head >= self.tail {
            self.head - self.tail
        } else {
            KLOG_BUF_SIZE - self.tail + self.head
        }
    }

    /// The unread bytes, oldest first.
    pub closed spec fn contents(&self) -> Seq<u8> {
        Seq::new(
            self.avail() as nat,
            |k: int| self.data@[(self.tail + k) % (KLOG_BUF_SIZE as int)],
        )
    }

    /// An empty buffer.
    pub fn new() -> (r: Self)
        ensures
            r.wf(),
            r.contents() == Seq::<u8>::empty(),
    {
        let mut data: Vec<u8> = Vec::new();
        let mut i: usize = 0;
        while i < KLOG_BUF_SIZE
            invariant
                i <= KLOG_BUF_SIZE,
                data@.len() == i,
            decreases KLOG_BUF_SIZE - i,
        {
            data.push(0);
            i = i + 1;
        }
        let r = LogBuffer { data, head: 0, tail: 0 };
        assert(r.contents() =~= Seq::<u8>::empty());
        r
    }

    /// The buffer never holds more than `KLOG_BUF_SIZE - 1` bytes.
    pub proof fn lemma_capacity(&self)
        requires
            self.wf(),
        ensures
            self.contents().len() < KLOG_BUF_SIZE,
    {
    }

    /// Append a byte; when full the oldest byte is dropped.
    pub fn write_byte(&mut self, byte: u8)
        requires
            old(self).wf(),
        ensures
            final(self).wf(),
            final(self).contents() == if old(self).contents().len() == KLOG_BUF_SIZE - 1 {
                old(self).contents().drop_first().push(byte)
            } else {
                old(self).contents().push(byte)
            },
    {
        let head = self.head;
        let next_head = (head + 1) % KLOG_BUF_SIZE;
        let ghost c0 = self.contents();
        if next_head == self.tail {
            self.tail = (self.tail + 1) % KLOG_BUF_SIZE;
        }
        self.data.set(head, byte);
        self.head = next_head;
        proof {
            let expected = if c0.len() == KLOG_BUF_SIZE - 1 {
                c0.drop_first().push(byte)
            } else {
                c0.push(byte)
            };
            assert(self.contents().len() == expected.len());
            assert forall|k: int| 0 <= k < expected.len() implies #[trigger] self.contents()[k]
                == expected[k] by {
                if c0.len() == KLOG_BUF_SIZE - 1 {
                    lemma_mod_add(old(self).tail + 1, k, KLOG_BUF_SIZE as int);
                } else {
                    lemma_mod_add(old(self).tail as int, k, KLOG_BUF_SIZE as int);
                }
            }
            assert(self.contents() =~= expected);
        }
    }

    /// Copy up to `buf.len()` unread bytes into the front of `buf` and mark
    /// them read. Returns how many.
    pub fn read(&mut self, buf: &mut [u8]) -> (r: usize)
        requires
            old(self).wf(),
        ensures
            final(self).wf(),
            r == if (old(buf)@.len() as int) < old(self).contents().len() {
                old(buf)@.len() as int
            } else {
                old(self).contents().len() as int
            },
            final(buf)@.len() == old(buf)@.len(),
            final(buf)@.take(r as int) == old(self).contents().take(r as int),
            final(buf)@.skip(r as int) == old(buf)@.skip(r as int),
            final(self).contents() == old(self).contents().skip(r as int),
    {
        let n = self.peek(buf, 0);
        let ghost c0 = self.contents();
        self.tail = (self.tail + n) % KLOG_BUF_SIZE;
        proof {
            lemma_mod_add(old(self).tail as int, n as int, KLOG_BUF_SIZE as int);
            assert forall|k: int| 0 <= k < self.contents().len() implies #[trigger] self.contents()[k]
                == c0.skip(n as int)[k] by {
                lemma_mod_add(old(self).tail + n, k, KLOG_BUF_SIZE as int);
            }
            assert(self.contents() =~= c0.skip(n as int));
        }
        n
    }

    /// Copy up to `buf.len()` unread bytes, starting `offset` bytes past the
    /// oldest, into the front of `buf` without marking them read. Returns
    /// how many (0 when `offset` is past the end).
    pub fn peek(&self, buf: &mut [u8], offset: usize) -> (r: usize)
        requires
            self.wf(),
        ensures
            r == if offset >= self.contents().len() {
                0
            } else if (old(buf)@.len() as int) < self.contents().len() - offset {
                old(buf)@.len() as int
            } else {
                self.contents().len() - offset
            },
            final(buf)@.len() == old(buf)@.len(),
            offset < self.contents().len() ==> final(buf)@.take(r as int) == self.contents().subrange(
                offset as int,
                offset + r as int,
            ),
            final(buf)@.skip(r as int) == old(buf)@.skip(r as int),
    {
        let available = self.available();
        if offset >= available {
            return 0;
        }
        let room = buf.len();
        let to_read = if available - offset < room {
            available - offset
        } else {
            room
        };
        let ghost c0 = self.contents();
        let mut read: usize = 0;
        let mut pos = (self.tail + offset) % KLOG_BUF_SIZE;
        while read < to_read
            invariant
                self.wf(),
                c0 == self.contents(),
                offset + to_read <= c0.len(),
                to_read <= old(buf)@.len(),
                read <= to_read,
                buf@.len() == old(buf)@.len(),
                pos == (self.tail + offset + read) % (KLOG_BUF_SIZE as int),
                buf@.take(read as int) == c0.subrange(offset as int, offset + read),
                buf@.skip(to_read as int) == old(buf)@.skip(to_read as int),
            decreases to_read - read,
        {
            let b = self.data[pos];
            proof {
                assert(b == c0[offset + read]);
            }
            buf[read] = b;
            proof {
                assert(buf@.take(read + 1) =~= c0.subrange(offset as int, offset + read + 1));
                assert(buf@.skip(to_read as int) =~= old(buf)@.skip(to_read as int));
                lemma_mod_add(self.tail + offset + read, 1, KLOG_BUF_SIZE as int);
            }
            pos = (pos + 1) % KLOG_BUF_SIZE;
            read = read + 1;
        }
        to_read
    }

    /// Number of unread bytes.
    pub fn available(&self) -> (r: usize)
        requires
            self.wf(),
        ensures
            r == self.contents().len(),
    {
        if self.head >= self.tail {
            self.head - self.tail
        } else {
            KLOG_BUF_SIZE - self.tail + self.head
        }
    }

    /// Drop all unread bytes.
    pub fn clear(&mut self)
        requires
            old(self).wf(),
        ensures
            final(self).wf(),
            final(self).contents() == Seq::<u8>::empty(),
    {
        self.tail = self.head;
        assert(self.contents() =~= Seq::<u8>::empty());
    }
}

/// The kernel log: its ring buffer and the runtime level.
pub struct KernelLog {
    pub buf: LogBuffer,
    pub level: u32,
}

impl KernelLog {
    /// The buffer is consistent and the level at most TRACE.
    pub open spec fn wf(&self) -> bool {
        self.buf.wf() && self.level <= LEVEL_TRACE
    }

    /// An empty log at the default level.
    pub fn new() -> (r: Self)
        ensures
            r.wf(),
            r.buf.contents() == Seq::<u8>::empty(),
            r.level == DEFAULT_LEVEL,
    {
        KernelLog { buf: LogBuffer::new(), level: DEFAULT_LEVEL }
    }

    /// Record a byte of console output.
    pub fn log_write_byte(&mut self, byte: u8)
        requires
            old(self).wf(),
        ensures
            final(self).wf(),
            final(self).level == old(self).level,
            final(self).buf.contents() == if old(self).buf.contents().len() == KLOG_BUF_SIZE - 1 {
                old(self).buf.contents().drop_first().push(byte)
            } else {
                old(self).buf.contents().push(byte)
            },
    {
        self.buf.write_byte(byte);
    }

    /// Read the log into `buf` (for syslog): `(bytes read, bytes that were
    /// available)`.
    pub fn log_read(&mut self, buf: &mut [u8]) -> (r: (usize, usize))
        requires
            old(self).wf(),
        ensures
            final(self).wf(),
            final(self).level == old(self).level,
            r.1 == old(self).buf.contents().len(),
            r.0 == if (old(buf)@.len() as int) < r.1 {
                old(buf)@.len() as int
            } else {
                r.1 as int
            },
            final(buf)@.len() == old(buf)@.len(),
            final(buf)@.take(r.0 as int) == old(self).buf.contents().take(r.0 as int),
            final(buf)@.skip(r.0 as int) == old(buf)@.skip(r.0 as int),
            final(self).buf.contents() == old(self).buf.contents().skip(r.0 as int),
    {
        let available = self.buf.available();
        let read = self.buf.read(buf);
        (read, available)
    }

    /// Peek at the log without consuming it (see `LogBuffer::peek`).
    pub fn log_peek(&self, buf: &mut [u8], offset: usize) -> (r: usize)
        requires
            self.wf(),
        ensures
            r == if offset >= self.buf.contents().len() {
                0
            } else if (old(buf)@.len() as int) < self.buf.contents().len() - offset {
                old(buf)@.len() as int
            } else {
                self.buf.contents().len() - offset
            },
            final(buf)@.len() == old(buf)@.len(),
            offset < self.buf.contents().len() ==> final(buf)@.take(r as int)
                == self.buf.contents().subrange(offset as int, offset + r as int),
            final(buf)@.skip(r as int) == old(buf)@.skip(r as int),
    {
        self.buf.peek(buf, offset)
    }

    /// Bytes available in the log.
    pub fn log_available(&self) -> (r: usize)
        requires
            self.wf(),
        ensures
            r == self.buf.contents().len(),
    {
        self.buf.available()
    }

    /// Take everything in the log for writing to the log file; `None` when
    /// it is empty.
    pub fn log_flush_to_file(&mut self) -> (r: Option<Vec<u8>>)
        requires
            old(self).wf(),
        ensures
            final(self).wf(),
            final(self).level == old(self).level,
            old(self).buf.contents().len() == 0 ==> r is None && final(self).buf.contents() == old(
                self,
            ).buf.contents(),
            old(self).buf.contents().len() > 0 ==> (r matches Some(v) && v@ == old(
                self,
            ).buf.contents() && final(self).buf.contents() == Seq::<u8>::empty()),
    {
        let available = self.buf.available();
        if available == 0 {
            return None;
        }
        let mut tmp: Vec<u8> = Vec::new();
        let mut i: usize = 0;
        while i < available
            invariant
                i <= available,
                tmp@.len() == i,
            decreases available - i,
        {
            tmp.push(0);
            i = i + 1;
        }
        let (read, _) = self.log_read(tmp.as_mut_slice());
        proof {
            assert(tmp@ =~= tmp@.take(read as int));
            assert(old(self).buf.contents().take(read as int) =~= old(self).buf.contents());
            assert(self.buf.contents() =~= Seq::<u8>::empty());
        }
        Some(tmp)
    }

    /// The current log level.
    pub fn klog_level(&self) -> (r: u32)
        ensures
            r == self.level,
    {
        self.level
    }

    /// Set the log level, capped at TRACE.
    pub fn klog_set_level(&mut self, level: u32)
        ensures
            final(self).level == if level < LEVEL_TRACE {
                level
            } else {
                LEVEL_TRACE
            },
            final(self).buf == old(self).buf,
    {
        self.level = if level < LEVEL_TRACE {
            level
        } else {
            LEVEL_TRACE
        };
    }

    /// Whether a message at `level` is shown.
    pub fn klog_enabled(&self, level: u32) -> (r: bool)
        ensures
            r == (level <= self.level),
    {
        level <= self.level
    }
}

} // verus!
