//! The TTY line discipline: an input ring, a line editor for canonical
//! (cooked) mode, and raw mode. Each input byte yields the bytes to echo
//! and the reader to wake; the caller does the output and the waking.
use vstd::prelude::*;

verus! {

/// Input ring capacity; one slot stays free.
pub const TTY_BUF_SIZE: usize = 4096;

/// Line editor capacity; a line holds at most `TTY_LINE_SIZE - 1` bytes.
pub const TTY_LINE_SIZE: usize = 512;

/// SIGINT bit in a process's pending signal mask.
pub const SIGINT: u64 = 4;

/// No reader is waiting.
pub const NO_WAITER: usize = usize::MAX;

proof fn lemma_mod_add(a: int, b: int, m: int)
    requires
        a >= 0,
        b >= 0,
        m > 0,
    ensures
        ((a % m) + b) % m == (a + b) % m,
{
    vstd::arithmetic::div_mod::lemma_add_mod_noop(a, b, m);
    vstd::arithmetic::div_mod::lemma_mod_twice(a, m);
    vstd::arithmetic::div_mod::lemma_add_mod_noop(a % m, b, m);
}

/// The input ring: bytes `[tail, head)` (modulo the size) wait for a
/// reader.
pub struct InputRing {
    data: Vec<u8>,
    head: usize,
    tail: usize,
}

impl InputRing {
    /// Positions are in range.
    pub closed spec fn wf(&self) -> bool {
        &&& self.data@.len() == TTY_BUF_SIZE
        &&& self.head < TTY_BUF_SIZE
        &&& self.tail < TTY_BUF_SIZE
    }

    closed spec fn count(&self) -> int {
        if self.head >= self.tail {
            self.head - self.tail
        } else {
            TTY_BUF_SIZE - self.tail + self.head
        }
    }

    /// The waiting bytes, oldest first.
    pub closed spec fn contents(&self) -> Seq<u8> {
        Seq::new(
            self.count() as nat,
            |k: int| self.data@[(self.tail + k) % (TTY_BUF_SIZE as int)],
        )
    }

    /// The ring holds at most `TTY_BUF_SIZE - 1` bytes.
    pub proof fn lemma_capacity(&self)
        requires
            self.wf(),
        ensures
            self.contents().len() < TTY_BUF_SIZE,
    {
    }

    /// An empty ring.
    pub fn new() -> (r: Self)
        ensures
            r.wf(),
            r.contents() == Seq::<u8>::empty(),
    {
        let mut data: Vec<u8> = Vec::new();
        let mut i: usize = 0;
        while i < TTY_BUF_SIZE
            invariant
                i <= TTY_BUF_SIZE,
                data@.len() == i,
            decreases TTY_BUF_SIZE - i,
        {
            data.push(0);
            i = i + 1;
        }
        let r = InputRing { data, head: 0, tail: 0 };
        assert(r.contents() =~= Seq::<u8>::empty());
        r
    }

    /// Appends `byte`; false (and no change) when full.
    pub fn push(&mut self, byte: u8) -> (r: bool)
        requires
            old(self).wf(),
        ensures
            final(self).wf(),
            r == (old(self).contents().len() < TTY_BUF_SIZE - 1),
            r ==> final(self).contents() == old(self).contents().push(byte),
            !r ==> final(self).contents() == old(self).contents(),
    {
        let head = self.head;
        let next_head = (head + 1) % TTY_BUF_SIZE;
        if next_head == self.tail {
            return false;
        }
        let ghost c0 = self.contents();
        self.data.set(head, byte);
        self.head = next_head;
        proof {
            assert forall|k: int| 0 <= k < c0.len() + 1 implies #[trigger] self.contents()[k]
                == c0.push(byte)[k] by {
                lemma_mod_add(self.tail as int, k, TTY_BUF_SIZE as int);
            }
            assert(self.contents() =~= c0.push(byte));
        }
        true
    }

    /// Removes and returns the oldest byte.
    pub fn pop(&mut self) -> (r: Option<u8>)
        requires
            old(self).wf(),
        ensures
            final(self).wf(),
            old(self).contents().len() == 0 ==> r is None && final(self).contents() == old(self).contents(),
            old(self).contents().len() > 0 ==> r == Some(old(self).contents()[0])
                && final(self).contents() == old(self).contents().drop_first(),
    {
        if self.tail == self.head {
            return None;
        }
        let ghost c0 = self.contents();
        let b = self.data[self.tail];
        proof {
            assert(c0[0] == self.data@[(self.tail + 0) % (TTY_BUF_SIZE as int)]);
        }
        self.tail = (self.tail + 1) % TTY_BUF_SIZE;
        proof {
            assert forall|k: int| 0 <= k < c0.len() - 1 implies #[trigger] self.contents()[k]
                == c0.drop_first()[k] by {
                lemma_mod_add(old(self).tail + 1, k, TTY_BUF_SIZE as int);
            }
            assert(self.contents() =~= c0.drop_first());
        }
        Some(b)
    }

    /// Number of waiting bytes.
    pub fn len(&self) -> (r: usize)
        requires
            self.wf(),
        ensures
            r == self.contents().len(),
    {
        if self.head >= self.tail {
            self.head - self.tail
        } else {
            TTY_BUF_SIZE - self.tail + self.head
        }
    }
}

/// The line being composed in canonical mode.
pub struct LineEditor {
    buf: Vec<u8>,
    len: usize,
}

impl LineEditor {
    /// The buffer has its fixed size and the line fits in it.
    pub closed spec fn wf(&self) -> bool {
        &&& self.buf@.len() == TTY_LINE_SIZE
        &&& self.len < TTY_LINE_SIZE
    }

    /// The bytes of the line.
    pub closed spec fn line(&self) -> Seq<u8> {
        self.buf@.take(self.len as int)
    }

    /// A line holds at most `TTY_LINE_SIZE - 1` bytes.
    pub proof fn lemma_capacity(&self)
        requires
            self.wf(),
        ensures
            self.line().len() < TTY_LINE_SIZE,
    {
    }

    /// An empty line.
    pub fn new() -> (r: Self)
        ensures
            r.wf(),
            r.line() == Seq::<u8>::empty(),
    {
        let mut buf: Vec<u8> = Vec::new();
        let mut i: usize = 0;
        while i < TTY_LINE_SIZE
            invariant
                i <= TTY_LINE_SIZE,
                buf@.len() == i,
            decreases TTY_LINE_SIZE - i,
        {
            buf.push(0);
            i = i + 1;
        }
        let r = LineEditor { buf, len: 0 };
        assert(r.line() =~= Seq::<u8>::empty());
        r
    }

    /// Empties the line.
    pub fn clear(&mut self)
        requires
            old(self).wf(),
        ensures
            final(self).wf(),
            final(self).line() == Seq::<u8>::empty(),
    {
        self.len = 0;
        assert(self.line() =~= Seq::<u8>::empty());
    }

    /// Appends `c`; false (and no change) when the line is full.
    pub fn push(&mut self, c: u8) -> (r: bool)
        requires
            old(self).wf(),
        ensures
            final(self).wf(),
            r == (old(self).line().len() < TTY_LINE_SIZE - 1),
            r ==> final(self).line() == old(self).line().push(c),
            !r ==> final(self).line() == old(self).line(),
    {
        if self.len >= TTY_LINE_SIZE - 1 {
            return false;
        }
        self.buf.set(self.len, c);
        self.len = self.len + 1;
        assert(self.line() =~= old(self).line().push(c));
        true
    }

    /// Drops the last byte; false when the line is empty.
    pub fn pop(&mut self) -> (r: bool)
        requires
            old(self).wf(),
        ensures
            final(self).wf(),
            r == (old(self).line().len() > 0),
            r ==> final(self).line() == old(self).line().drop_last(),
            !r ==> final(self).line() == old(self).line(),
    {
        if self.len == 0 {
            return false;
        }
        self.len = self.len - 1;
        assert(self.line() =~= old(self).line().drop_last());
        true
    }

    /// Number of bytes in the line.
    pub fn len(&self) -> (r: usize)
        requires
            self.wf(),
        ensures
            r == self.line().len(),
    {
        self.len
    }

    /// The last byte of the line, if any.
    pub fn last(&self) -> (r: Option<u8>)
        requires
            self.wf(),
        ensures
            r == if self.line().len() > 0 {
                Some(self.line().last())
            } else {
                None
            },
    {
        if self.len == 0 {
            None
        } else {
            Some(self.buf[self.len - 1])
        }
    }

    /// Byte `i` of the line.
    pub fn byte(&self, i: usize) -> (r: u8)
        requires
            self.wf(),
            i < self.line().len(),
        ensures
            r == self.line()[i as int],
    {
        self.buf[i]
    }
}

/// Input mode.
#[derive(Clone, Copy, Debug, PartialEq, Eq, Structural)]
pub enum TtyMode {
    /// Canonical (cooked) mode: line editing, echo, signals.
    Canonical,
    /// Raw mode: no echo, no line editing, immediate delivery.
    Raw,
}

/// What one input byte asks of the caller.
pub struct TtyEffect {
    /// Bytes to echo to the console.
    pub echo: Vec<u8>,
    /// The blocked reader to wake, if any.
    pub wake: Option<usize>,
}

/// The erase sequence (backspace, space, backspace) `n` times.
pub open spec fn erase(n: nat) -> Seq<u8> {
    Seq::new(3 * n, |i: int| if i % 3 == 1 { 0x20u8 } else { 0x08u8 })
}

/// `s` without its trailing spaces.
pub open spec fn strip_spaces(s: Seq<u8>) -> Seq<u8>
    decreases s.len(),
{
    if s.len() > 0 && s.last() == 0x20 {
        strip_spaces(s.drop_last())
    } else {
        s
    }
}

/// `s` without its trailing run of non-space bytes.
pub open spec fn strip_word(s: Seq<u8>) -> Seq<u8>
    decreases s.len(),
{
    if s.len() > 0 && s.last() != 0x20 {
        strip_word(s.drop_last())
    } else {
        s
    }
}

/// The bytes of `more` that an input ring holding `c` takes, in order,
/// until it is full.
pub open spec fn fill(c: Seq<u8>, more: Seq<u8>) -> Seq<u8> {
    let room = TTY_BUF_SIZE - 1 - c.len();
    if more.len() <= room {
        c + more
    } else {
        c + more.take(room)
    }
}

/// One byte in canonical mode takes `before` to `after` with effect `r`
/// (see `Tty::on_char_canonical`).
pub open spec fn canonical_step(before: Tty, after: Tty, c: u8, r: TtyEffect) -> bool {

    let l = before.line.line();
    let i = before.input.contents();
    let waiter = if before.waiting == NO_WAITER {
        None::<usize>
    } else {
        Some(before.waiting)
    };
    if c == 0x03 {
        &&& r.echo@ == seq![0x5eu8, 0x43u8, 0x0du8, 0x0au8]
        &&& after.line.line() == Seq::<u8>::empty()
        &&& after.input.contents() == fill(i, seq![0x0au8])
        &&& r.wake == waiter
        &&& after.waiting == NO_WAITER
    } else if c == 0x08 || c == 0x7f {
        &&& after.line.line() == if l.len() > 0 { l.drop_last() } else { l }
        &&& r.echo@ == if l.len() > 0 { erase(1) } else { Seq::<u8>::empty() }
        &&& after.input.contents() == i
        &&& r.wake is None
        &&& after.waiting == before.waiting
    } else if c == 0x0d || c == 0x0a {
        &&& r.echo@ == seq![0x0du8, 0x0au8]
        &&& after.input.contents() == fill(i, l.push(0x0a))
        &&& after.line.line() == Seq::<u8>::empty()
        &&& r.wake == waiter
        &&& after.waiting == NO_WAITER
    } else if 0x20 <= c <= 0x7e {
        &&& after.line.line() == if l.len() < TTY_LINE_SIZE - 1 { l.push(c) } else { l }
        &&& r.echo@ == if l.len() < TTY_LINE_SIZE - 1 { seq![c] } else { Seq::<u8>::empty() }
        &&& after.input.contents() == i
        &&& r.wake is None
        &&& after.waiting == before.waiting
    } else if c == 0x04 {
        &&& after.line.line() == l
        &&& r.echo@ == Seq::<u8>::empty()
        &&& after.input.contents() == i
        &&& r.wake == if l.len() == 0 { waiter } else { None }
        &&& after.waiting == if l.len() == 0 { NO_WAITER } else { before.waiting }
    } else if c == 0x0c {
        &&& after.line.line() == l
        &&& r.echo@ == seq![0x1bu8, 0x5bu8, 0x32u8, 0x4au8, 0x1bu8, 0x5bu8, 0x48u8]
        &&& after.input.contents() == i
        &&& r.wake is None
        &&& after.waiting == before.waiting
    } else if c == 0x15 {
        &&& after.line.line() == Seq::<u8>::empty()
        &&& r.echo@ == erase(l.len())
        &&& after.input.contents() == i
        &&& r.wake is None
        &&& after.waiting == before.waiting
    } else if c == 0x17 {
        &&& after.line.line() == strip_word(strip_spaces(l))
        &&& r.echo@ == erase((l.len() - strip_word(strip_spaces(l)).len()) as nat)
        &&& after.input.contents() == i
        &&& r.wake is None
        &&& after.waiting == before.waiting
    } else {
        &&& after.line.line() == l
        &&& r.echo@ == Seq::<u8>::empty()
        &&& after.input.contents() == i
        &&& r.wake is None
        &&& after.waiting == before.waiting
    }
}

/// One byte in raw mode takes `before` to `after` with effect `r` (see
/// `Tty::on_char_raw`).
pub open spec fn raw_step(before: Tty, after: Tty, c: u8, r: TtyEffect) -> bool {
    &&& after.line == before.line
    &&& r.echo@ == Seq::<u8>::empty()
    &&& before.input.contents().len() < TTY_BUF_SIZE - 1 ==> {
        &&& after.input.contents() == before.input.contents().push(c)
        &&& r.wake == if before.waiting == NO_WAITER {
            None::<usize>
        } else {
            Some(before.waiting)
        }
        &&& after.waiting == NO_WAITER
    }
    &&& before.input.contents().len() >= TTY_BUF_SIZE - 1 ==> {
        &&& after.input.contents() == before.input.contents()
        &&& r.wake is None
        &&& after.waiting == before.waiting
    }
}

/// The terminal: input ring, line editor, mode, echo flag and the reader
/// blocked on input.
pub struct Tty {
    pub input: InputRing,
    pub line: LineEditor,
    pub raw: bool,
    pub echo: bool,
    pub waiting: usize,
}

impl Tty {
    /// Both buffers are well formed.
    pub open spec fn wf(&self) -> bool {
        self.input.wf() && self.line.wf()
    }

    /// Canonical mode with echo, nothing buffered, no reader waiting.
    pub fn new() -> (r: Self)
        ensures
            r.wf(),
            r.input.contents() == Seq::<u8>::empty(),
            r.line.line() == Seq::<u8>::empty(),
            !r.raw,
            r.echo,
            r.waiting == NO_WAITER,
    {
        Tty { input: InputRing::new(), line: LineEditor::new(), raw: false, echo: true, waiting: NO_WAITER }
    }

    /// Switches mode: canonical turns echo on; raw turns echo off and
    /// drops the line being composed.
    pub fn set_mode(&mut self, mode: TtyMode)
        requires
            old(self).wf(),
        ensures
            final(self).wf(),
            final(self).raw == (mode == TtyMode::Raw),
            final(self).echo == (mode == TtyMode::Canonical),
            final(self).input.contents() == old(self).input.contents(),
            final(self).waiting == old(self).waiting,
            mode == TtyMode::Raw ==> final(self).line.line() == Seq::<u8>::empty(),
            mode == TtyMode::Canonical ==> final(self).line.line() == old(self).line.line(),
    {
        match mode {
            TtyMode::Canonical => {
                self.raw = false;
                self.echo = true;
            },
            TtyMode::Raw => {
                self.raw = true;
                self.echo = false;
                self.line.clear();
            },
        }
    }

    /// The current mode.
    pub fn get_mode(&self) -> (r: TtyMode)
        ensures
            r == if self.raw {
                TtyMode::Raw
            } else {
                TtyMode::Canonical
            },
    {
        if self.raw {
            TtyMode::Raw
        } else {
            TtyMode::Canonical
        }
    }

    /// Sets the echo flag.
    pub fn set_echo(&mut self, enabled: bool)
        ensures
            final(self).echo == enabled,
            final(self).raw == old(self).raw,
            final(self).input == old(self).input,
            final(self).line == old(self).line,
            final(self).waiting == old(self).waiting,
    {
        self.echo = enabled;
    }

    /// Input is waiting to be read.
    pub fn has_input(&self) -> (r: bool)
        requires
            self.wf(),
        ensures
            r == (self.input.contents().len() > 0),
    {
        self.input.len() > 0
    }

    /// Records `task` as the reader blocked on input.
    pub fn block_reader(&mut self, task: usize)
        ensures
            final(self).waiting == task,
            final(self).raw == old(self).raw,
            final(self).echo == old(self).echo,
            final(self).input == old(self).input,
            final(self).line == old(self).line,
    {
        self.waiting = task;
    }

    /// Takes the blocked reader, if any.
    fn take_waiter(&mut self) -> (r: Option<usize>)
        ensures
            final(self).waiting == NO_WAITER,
            r == if old(self).waiting == NO_WAITER {
                None::<usize>
            } else {
                Some(old(self).waiting)
            },
            final(self).raw == old(self).raw,
            final(self).echo == old(self).echo,
            final(self).input == old(self).input,
            final(self).line == old(self).line,
    {
        let w = self.waiting;
        self.waiting = NO_WAITER;
        if w == NO_WAITER {
            None
        } else {
            Some(w)
        }
    }

    /// Removes up to `len` bytes from the input, oldest first.
    pub fn read(&mut self, len: usize) -> (r: Vec<u8>)
        requires
            old(self).wf(),
        ensures
            final(self).wf(),
            ({
                let c = old(self).input.contents();
                let n = if len < c.len() { len as int } else { c.len() as int };
                &&& r@ == c.take(n)
                &&& final(self).input.contents() == c.skip(n)
            }),
            final(self).line == old(self).line,
            final(self).raw == old(self).raw,
            final(self).echo == old(self).echo,
            final(self).waiting == old(self).waiting,
    {
        let ghost c = self.input.contents();
        let mut out: Vec<u8> = Vec::new();
        let mut i: usize = 0;
        while i < len
            invariant_except_break
                i <= len,
                i <= c.len(),
                self.input.wf(),
                out@ == c.take(i as int),
                self.input.contents() == c.skip(i as int),
                self.line == old(self).line,
                self.raw == old(self).raw,
                self.echo == old(self).echo,
                self.waiting == old(self).waiting,
            ensures
                self.input.wf(),
                ({
                    let n = if len < c.len() { len as int } else { c.len() as int };
                    &&& out@ == c.take(n)
                    &&& self.input.contents() == c.skip(n)
                }),
                self.line == old(self).line,
                self.raw == old(self).raw,
                self.echo == old(self).echo,
                self.waiting == old(self).waiting,
            decreases len - i,
        {
            match self.input.pop() {
                Some(b) => {
                    out.push(b);
                    proof {
                        assert(c.skip(i as int)[0] == c[i as int]);
                        assert(out@ =~= c.take(i + 1));
                        assert(self.input.contents() =~= c.skip(i + 1));
                    }
                    i = i + 1;
                },
                None => {
                    assert(c.skip(i as int).len() == 0);
                    assert(c.take(i as int) =~= c);
                    break;
                },
            }
        }
        out
    }


    /// Commits the line being composed (Enter): its bytes and a newline
    /// go to the input as far as it has room, and the line empties.
    fn commit_line(&mut self)
        requires
            old(self).wf(),
        ensures
            final(self).wf(),
            final(self).input.contents() == fill(old(self).input.contents(), old(self).line.line().push(0x0a)),
            final(self).line.line() == Seq::<u8>::empty(),
            final(self).raw == old(self).raw,
            final(self).echo == old(self).echo,
            final(self).waiting == old(self).waiting,
    {
        let ghost c0 = self.input.contents();
        let ghost l = self.line.line();
        let n = self.line.len();
        let mut i: usize = 0;
        while i < n
            invariant_except_break
                self.wf(),
                n == l.len(),
                i <= n,
                self.line.line() == l,
                self.input.contents() == c0 + l.take(i as int),
                c0.len() + i < TTY_BUF_SIZE,
                self.raw == old(self).raw,
                self.echo == old(self).echo,
                self.waiting == old(self).waiting,
            ensures
                self.wf(),
                self.line.line() == l,
                i <= n,
                self.input.contents() == c0 + l.take(i as int),
                i == n || self.input.contents().len() == TTY_BUF_SIZE - 1,
                self.raw == old(self).raw,
                self.echo == old(self).echo,
                self.waiting == old(self).waiting,
            decreases n - i,
        {
            let b = self.line.byte(i);
            if !self.input.push(b) {
                break;
            }
            assert(l.take(i + 1) =~= l.take(i as int).push(b));
            i = i + 1;
            proof {
                self.input.lemma_capacity();
            }
        }
        let ghost mid = self.input.contents();
        let _ = self.input.push(0x0a);
        proof {
            let more = l.push(0x0a);
            let room = TTY_BUF_SIZE - 1 - c0.len();
            if i == n {
                assert(l.take(i as int) =~= l);
                if mid.len() < TTY_BUF_SIZE - 1 {
                    assert(more.len() <= room);
                    assert(self.input.contents() =~= c0 + more);
                } else {
                    assert(more.take(room) =~= l);
                }
            } else {
                assert(more.take(room) =~= l.take(i as int));
            }
        }
        self.line.clear();
    }

    /// Ctrl+W: drops the trailing spaces of the line, then its last word;
    /// returns the erase sequence for the dropped bytes.
    fn delete_word(&mut self) -> (r: Vec<u8>)
        requires
            old(self).wf(),
        ensures
            final(self).wf(),
            final(self).line.line() == strip_word(strip_spaces(old(self).line.line())),
            r@ == erase((old(self).line.line().len() - final(self).line.line().len()) as nat),
            final(self).input == old(self).input,
            final(self).raw == old(self).raw,
            final(self).echo == old(self).echo,
            final(self).waiting == old(self).waiting,
    {
        let ghost l0 = self.line.line();
        let mut out: Vec<u8> = Vec::new();
        while self.line.last() == Some(0x20u8)
            invariant
                self.wf(),
                strip_spaces(self.line.line()) == strip_spaces(l0),
                self.line.line().len() <= l0.len(),
                out@ == erase((l0.len() - self.line.line().len()) as nat),
                self.input == old(self).input,
                self.raw == old(self).raw,
                self.echo == old(self).echo,
                self.waiting == old(self).waiting,
            decreases self.line.line().len(),
        {
            let ghost before = self.line.line();
            let _ = self.line.pop();
            out.push(0x08);
            out.push(0x20);
            out.push(0x08);
            assert(out@ =~= erase((l0.len() - self.line.line().len()) as nat));
        }
        let ghost l1 = self.line.line();
        assert(strip_spaces(l1) == l1);
        loop
            invariant
                self.wf(),
                strip_word(self.line.line()) == strip_word(l1),
                l1 == strip_spaces(l0),
                self.line.line().len() <= l0.len(),
                out@ == erase((l0.len() - self.line.line().len()) as nat),
                self.input == old(self).input,
                self.raw == old(self).raw,
                self.echo == old(self).echo,
                self.waiting == old(self).waiting,
            ensures
                self.wf(),
                self.line.line() == strip_word(l1),
                out@ == erase((l0.len() - self.line.line().len()) as nat),
                self.input == old(self).input,
                self.raw == old(self).raw,
                self.echo == old(self).echo,
                self.waiting == old(self).waiting,
            decreases self.line.line().len(),
        {
            match self.line.last() {
                Some(b) => {
                    if b == 0x20 {
                        break;
                    }
                },
                None => {
                    break;
                },
            }
            let _ = self.line.pop();
            out.push(0x08);
            out.push(0x20);
            out.push(0x08);
            assert(out@ =~= erase((l0.len() - self.line.line().len()) as nat));
        }
        out
    }

    /// Canonical mode: line editing and echo. Ctrl+C discards the line and
    /// delivers a newline; backspace/DEL erase a byte; CR/LF deliver the
    /// line and a newline; printable bytes join the line; Ctrl+D on an
    /// empty line wakes the reader (end of file); Ctrl+L clears the
    /// screen; Ctrl+U erases the line; Ctrl+W erases a word. Other bytes
    /// are ignored.
    pub fn on_char_canonical(&mut self, c: u8) -> (r: TtyEffect)
        requires
            old(self).wf(),
        ensures
            final(self).wf(),
            final(self).raw == old(self).raw,
            final(self).echo == old(self).echo,
            canonical_step(*old(self), *final(self), c, r),
    {
        if c == 0x03 {
            self.line.clear();
            let _ = self.input.push(0x0a);
            let wake = self.take_waiter();
            proof {
                let i = old(self).input.contents();
                if i.len() < TTY_BUF_SIZE - 1 {
                    assert(fill(i, seq![0x0au8]) =~= i.push(0x0a));
                } else {
                    assert(fill(i, seq![0x0au8]) =~= i);
                }
            }
            let echo: Vec<u8> = vec![0x5e, 0x43, 0x0d, 0x0a];
            assert(echo@ =~= seq![0x5eu8, 0x43u8, 0x0du8, 0x0au8]);
            TtyEffect { echo, wake }
        } else if c == 0x08 || c == 0x7f {
            if self.line.pop() {
                let echo: Vec<u8> = vec![0x08, 0x20, 0x08];
                assert(echo@ =~= erase(1));
                TtyEffect { echo, wake: None }
            } else {
                TtyEffect { echo: Vec::new(), wake: None }
            }
        } else if c == 0x0d || c == 0x0a {
            self.commit_line();
            let wake = self.take_waiter();
            let echo: Vec<u8> = vec![0x0d, 0x0a];
            assert(echo@ =~= seq![0x0du8, 0x0au8]);
            TtyEffect { echo, wake }
        } else if 0x20 <= c && c <= 0x7e {
            if self.line.push(c) {
                let echo: Vec<u8> = vec![c];
                assert(echo@ =~= seq![c]);
                TtyEffect { echo, wake: None }
            } else {
                TtyEffect { echo: Vec::new(), wake: None }
            }
        } else if c == 0x04 {
            if self.line.len() == 0 {
                let wake = self.take_waiter();
                TtyEffect { echo: Vec::new(), wake }
            } else {
                TtyEffect { echo: Vec::new(), wake: None }
            }
        } else if c == 0x0c {
            let echo: Vec<u8> = vec![0x1b, 0x5b, 0x32, 0x4a, 0x1b, 0x5b, 0x48];
            assert(echo@ =~= seq![0x1bu8, 0x5bu8, 0x32u8, 0x4au8, 0x1bu8, 0x5bu8, 0x48u8]);
            TtyEffect { echo, wake: None }
        } else if c == 0x15 {
            let n = self.line.len();
            let mut out: Vec<u8> = Vec::new();
            assert(out@ =~= erase(0));
            let mut k: usize = 0;
            while k < n
                invariant
                    k <= n,
                    out@ == erase(k as nat),
                decreases n - k,
            {
                out.push(0x08);
                out.push(0x20);
                out.push(0x08);
                k = k + 1;
                assert(out@ =~= erase(k as nat));
            }
            self.line.clear();
            TtyEffect { echo: out, wake: None }
        } else if c == 0x17 {
            let out = self.delete_word();
            TtyEffect { echo: out, wake: None }
        } else {
            TtyEffect { echo: Vec::new(), wake: None }
        }
    }

    /// Raw mode: the byte goes to the input at once (if there is room,
    /// waking the reader); nothing is echoed.
    pub fn on_char_raw(&mut self, c: u8) -> (r: TtyEffect)
        requires
            old(self).wf(),
        ensures
            final(self).wf(),
            final(self).raw == old(self).raw,
            final(self).echo == old(self).echo,
            raw_step(*old(self), *final(self), c, r),
    {
        if self.input.push(c) {
            let wake = self.take_waiter();
            TtyEffect { echo: Vec::new(), wake }
        } else {
            TtyEffect { echo: Vec::new(), wake: None }
        }
    }

    /// One input byte, by the current mode (see `on_char_raw` and
    /// `on_char_canonical`).
    pub fn on_char(&mut self, c: u8) -> (r: TtyEffect)
        requires
            old(self).wf(),
        ensures
            final(self).wf(),
            final(self).raw == old(self).raw,
            final(self).echo == old(self).echo,
            old(self).raw ==> raw_step(*old(self), *final(self), c, r),
            !old(self).raw ==> canonical_step(*old(self), *final(self), c, r),
    {
        if self.raw {
            self.on_char_raw(c)
        } else {
            self.on_char_canonical(c)
        }
    }

    /// Feeds one byte from a keyboard or serial driver.
    pub fn feed_byte(&mut self, c: u8) -> (r: TtyEffect)
        requires
            old(self).wf(),
        ensures
            final(self).wf(),
            final(self).raw == old(self).raw,
            final(self).echo == old(self).echo,
            old(self).raw ==> raw_step(*old(self), *final(self), c, r),
            !old(self).raw ==> canonical_step(*old(self), *final(self), c, r),
    {
        self.on_char(c)
    }
}

/// Enter delivers the line being composed, followed by a newline, when
/// the input has room for it, and starts an empty line.
pub proof fn lemma_enter_delivers_line(before: Tty, after: Tty, c: u8, r: TtyEffect)
    requires
        c == 0x0d || c == 0x0a,
        canonical_step(before, after, c, r),
        before.input.contents().len() + before.line.line().len() + 1 < TTY_BUF_SIZE,
    ensures
        after.input.contents() == before.input.contents() + before.line.line().push(0x0a),
        after.line.line() == Seq::<u8>::empty(),
{
}

/// A backspace undoes the printable byte typed just before it.
pub proof fn lemma_backspace_undoes(t0: Tty, t1: Tty, t2: Tty, c: u8, r1: TtyEffect, r2: TtyEffect)
    requires
        0x20 <= c <= 0x7e,
        t0.line.line().len() < TTY_LINE_SIZE - 1,
        canonical_step(t0, t1, c, r1),
        canonical_step(t1, t2, 0x7f, r2),
    ensures
        t2.line.line() == t0.line.line(),
        t2.input.contents() == t0.input.contents(),
        r2.echo@ == erase(1),
{
    assert(t0.line.line().push(c).drop_last() =~= t0.line.line());
}

/// In raw mode bytes reach the reader in the order they were typed: a
/// byte fed to a ring with room comes out after everything already there.
pub proof fn lemma_raw_fifo(before: Tty, after: Tty, c: u8, r: TtyEffect)
    requires
        raw_step(before, after, c, r),
        before.input.contents().len() < TTY_BUF_SIZE - 1,
    ensures
        after.input.contents().take(before.input.contents().len() as int) == before.input.contents(),
        after.input.contents().last() == c,
{
    assert(after.input.contents().take(before.input.contents().len() as int) =~= before.input.contents());
}

} // verus!
