//! Physical memory manager: a bitmap frame allocator over the frames above
//! the kernel image, and a small pool of pre-zeroed frames.
use vstd::prelude::*;

verus! {

/// Size of one physical frame.
pub const PAGE_SIZE: usize = 4096;

/// Capacity of the pre-zeroed frame pool.
pub const ZEROED_POOL_SIZE: usize = 32;

/// Bit `b` of `w`.
pub open spec fn bit(w: u64, b: int) -> bool {
    (w >> (b as u64)) & 1u64 == 1u64
}

/// Setting bit `b` sets it and keeps the others; clearing it clears it and
/// keeps the others.
pub proof fn lemma_bit_ops(w: u64, b: u64, c: u64)
    requires
        b < 64,
        c < 64,
    ensures
        bit(w | (1u64 << b), c as int) == (c == b || bit(w, c as int)),
        bit(w & !(1u64 << b), c as int) == (c != b && bit(w, c as int)),
        (w & (1u64 << b) == 0u64) == !bit(w, b as int),
{
    assert(((w | (1u64 << b)) >> c) & 1u64 == 1u64 <==> (c == b || (w >> c) & 1u64 == 1u64))
        by (bit_vector)
        requires
            b < 64,
            c < 64,
    ;
    assert(((w & !(1u64 << b)) >> c) & 1u64 == 1u64 <==> (c != b && (w >> c) & 1u64 == 1u64))
        by (bit_vector)
        requires
            b < 64,
            c < 64,
    ;
    assert((w & (1u64 << b) == 0u64) <==> !((w >> b) & 1u64 == 1u64)) by (bit_vector)
        requires
            b < 64,
    ;
}

/// A zero word has no bit set.
pub proof fn lemma_zero_word(c: u64)
    requires
        c < 64,
    ensures
        !bit(0u64, c as int),
{
    assert((0u64 >> c) & 1u64 != 1u64) by (bit_vector);
}

/// Bitmap frame allocator: frame `i` of `total_frames` is at
/// `start + i * PAGE_SIZE`; bit `i` of the bitmap is set when it is in use.
pub struct FrameAllocator {
    pub start: usize,
    pub bitmap: Vec<u64>,
    pub total_frames: usize,
    pub next_free: usize,
}

/// `frames[i]` is the in-use flag of frame `i` for a bitmap `words`.
pub open spec fn bitmap_view(words: Seq<u64>, total: nat) -> Seq<bool> {
    Seq::new(total, |i: int| bit(words[i / 64], i % 64))
}

/// Frames `[r, r + count)` are all free.
pub open spec fn is_free_run(used: Seq<bool>, r: int, count: int) -> bool {
    &&& 0 <= r
    &&& r + count <= used.len()
    &&& forall|j: int| r <= j < r + count ==> !#[trigger] used[j]
}

/// Number of free frames among `[lo, hi)`.
pub open spec fn free_count(used: Seq<bool>, lo: int, hi: int) -> nat
    decreases hi - lo,
{
    if hi <= lo {
        0
    } else {
        free_count(used, lo, hi - 1) + if 0 <= hi - 1 < used.len() && !used[hi - 1] {
            1nat
        } else {
            0nat
        }
    }
}

/// Number of used frames among the first `n`.
pub open spec fn used_count(used: Seq<bool>, n: int) -> nat
    decreases n,
{
    if n <= 0 {
        0
    } else {
        used_count(used, n - 1) + if used[n - 1] {
            1nat
        } else {
            0nat
        }
    }
}

impl FrameAllocator {
    /// The bitmap covers every frame and every frame address fits.
    pub open spec fn wf(&self) -> bool {
        &&& self.total_frames <= self.bitmap@.len() * 64
        &&& self.start + self.total_frames * PAGE_SIZE <= usize::MAX
        &&& self.next_free <= self.total_frames
        &&& self.start % 4096 == 0
    }

    /// The in-use flags of the frames.
    pub open spec fn used(&self) -> Seq<bool> {
        bitmap_view(self.bitmap@, self.total_frames as nat)
    }

    /// The physical address of frame `i`.
    pub open spec fn frame_addr(&self, i: int) -> int {
        self.start + i * PAGE_SIZE
    }

    /// An allocator for the frames of `[managed_start, mem_end)`, all free,
    /// with its bitmap of `bitmap_words` words.
    pub fn with_layout(managed_start: usize, managed_frames: usize, bitmap_words: usize) -> (r: Self)
        requires
            managed_frames <= bitmap_words * 64,
            managed_start + managed_frames * PAGE_SIZE <= usize::MAX,
            managed_start % 4096 == 0,
        ensures
            r.wf(),
            r.start == managed_start,
            r.total_frames == managed_frames,
            r.next_free == 0,
            forall|i: int| 0 <= i < managed_frames ==> !#[trigger] r.used()[i],
    {
        let mut bitmap: Vec<u64> = Vec::new();
        let mut i: usize = 0;
        while i < bitmap_words
            invariant
                i <= bitmap_words,
                bitmap@.len() == i,
                forall|j: int| 0 <= j < i ==> #[trigger] bitmap@[j] == 0u64,
            decreases bitmap_words - i,
        {
            bitmap.push(0);
            i = i + 1;
        }
        let r = FrameAllocator { start: managed_start, bitmap, total_frames: managed_frames, next_free: 0 };
        proof {
            assert forall|i: int| 0 <= i < managed_frames implies !#[trigger] r.used()[i] by {
                lemma_zero_word((i % 64) as u64);
            }
        }
        r
    }

    /// Lay out the allocator for the memory `[kernel_end, mem_end)`: the
    /// bitmap sits at the first page boundary after the kernel, the managed
    /// frames start at the first page boundary after the bitmap.
    pub fn new(kernel_end: usize, mem_end: usize) -> (r: Self)
        requires
            kernel_end <= usize::MAX - PAGE_SIZE,
            layout_start(kernel_end as int) <= mem_end,
            layout_managed_start(kernel_end as int, mem_end as int) <= mem_end,
        ensures
            r.wf(),
            r.next_free == 0,
            r.start == layout_managed_start(kernel_end as int, mem_end as int),
            r.total_frames == (mem_end - r.start) / PAGE_SIZE as int,
            forall|i: int| 0 <= i < r.total_frames ==> !#[trigger] r.used()[i],
    {
        let x = kernel_end + (PAGE_SIZE - 1);
        proof {
            crate::mm::addr::lemma_page_mask(x);
        }
        let start = x & !(PAGE_SIZE - 1);
        let total_frames = (mem_end - start) / PAGE_SIZE;
        let bitmap_words = (total_frames + 63) / 64;
        let bitmap_size = bitmap_words * 8;
        let y = start + bitmap_size + (PAGE_SIZE - 1);
        proof {
            crate::mm::addr::lemma_page_mask(y);
        }
        let managed_start = y & !(PAGE_SIZE - 1);
        let managed_frames = (mem_end - managed_start) / PAGE_SIZE;
        Self::with_layout(managed_start, managed_frames, bitmap_words)
    }
}

impl FrameAllocator {
    /// Whether frame `i` is in use.
    pub fn is_used(&self, i: usize) -> (r: bool)
        requires
            self.wf(),
            i < self.total_frames,
        ensures
            r == self.used()[i as int],
    {
        let word = i / 64;
        let b = (i % 64) as u64;
        proof {
            lemma_bit_ops(self.bitmap@[word as int], b, b);
        }
        self.bitmap[word] & (1u64 << b) != 0
    }

    /// Mark frame `i` in use.
    fn set_used(&mut self, i: usize)
        requires
            old(self).wf(),
            i < old(self).total_frames,
        ensures
            final(self).wf(),
            final(self).start == old(self).start,
            final(self).total_frames == old(self).total_frames,
            final(self).next_free == old(self).next_free,
            final(self).bitmap@.len() == old(self).bitmap@.len(),
            final(self).used() == old(self).used().update(i as int, true),
    {
        let word = i / 64;
        let b = (i % 64) as u64;
        let w = self.bitmap[word];
        self.bitmap.set(word, w | (1u64 << b));
        proof {
            assert forall|j: int| 0 <= j < self.total_frames implies #[trigger] self.used()[j] == old(
                self,
            ).used().update(i as int, true)[j] by {
                lemma_bit_ops(w, b, (j % 64) as u64);
            }
            assert(self.used() =~= old(self).used().update(i as int, true));
        }
    }

    /// Mark frame `i` free.
    fn set_free(&mut self, i: usize)
        requires
            old(self).wf(),
            i < old(self).total_frames,
        ensures
            final(self).wf(),
            final(self).start == old(self).start,
            final(self).total_frames == old(self).total_frames,
            final(self).next_free == old(self).next_free,
            final(self).bitmap@.len() == old(self).bitmap@.len(),
            final(self).used() == old(self).used().update(i as int, false),
    {
        let word = i / 64;
        let b = (i % 64) as u64;
        let w = self.bitmap[word];
        self.bitmap.set(word, w & !(1u64 << b));
        proof {
            assert forall|j: int| 0 <= j < self.total_frames implies #[trigger] self.used()[j] == old(
                self,
            ).used().update(i as int, false)[j] by {
                lemma_bit_ops(w, b, (j % 64) as u64);
            }
            assert(self.used() =~= old(self).used().update(i as int, false));
        }
    }

    /// Allocate one frame: the first free frame at or after `next_free`,
    /// else the first free frame before it. It is marked in use and
    /// `next_free` moves just past it. `None` when every frame is in use.
    pub fn allocate(&mut self) -> (r: Option<usize>)
        requires
            old(self).wf(),
        ensures
            final(self).wf(),
            final(self).start == old(self).start,
            final(self).total_frames == old(self).total_frames,
            r is None ==> *final(self) == *old(self) && forall|j: int|
                0 <= j < old(self).total_frames ==> #[trigger] old(self).used()[j],
            r matches Some(addr) ==> exists|i: int|
                #![trigger old(self).used()[i]]
                0 <= i < old(self).total_frames && addr == old(self).frame_addr(i)
                    && !old(self).used()[i] && final(self).used() == old(self).used().update(i, true)
                    && final(self).next_free == i + 1 && (if i >= old(self).next_free {
                    forall|j: int| old(self).next_free <= j < i ==> #[trigger] old(self).used()[j]
                } else {
                    (forall|j: int|
                        old(self).next_free <= j < old(self).total_frames
                            ==> #[trigger] old(self).used()[j]) && forall|j: int|
                        0 <= j < i ==> #[trigger] old(self).used()[j]
                }),
    {
        let mut i = self.next_free;
        while i < self.total_frames
            invariant
                self == old(self),
                self.wf(),
                self.next_free <= i <= self.total_frames,
                forall|j: int| self.next_free <= j < i ==> #[trigger] self.used()[j],
            decreases self.total_frames - i,
        {
            if !self.is_used(i) {
                self.set_used(i);
                self.next_free = i + 1;
                proof {
                    assert(self.start + i * PAGE_SIZE <= self.start + self.total_frames * PAGE_SIZE)
                        by (nonlinear_arith)
                        requires
                            i < self.total_frames,
                    ;
                    assert(!old(self).used()[i as int]);
                }
                return Some(self.start + i * PAGE_SIZE);
            }
            i = i + 1;
        }
        let mut i: usize = 0;
        while i < self.next_free
            invariant
                self == old(self),
                self.wf(),
                i <= self.next_free,
                forall|j: int| self.next_free <= j < self.total_frames ==> #[trigger] self.used()[j],
                forall|j: int| 0 <= j < i ==> #[trigger] self.used()[j],
            decreases self.next_free - i,
        {
            if !self.is_used(i) {
                self.set_used(i);
                self.next_free = i + 1;
                proof {
                    assert(self.start + i * PAGE_SIZE <= self.start + self.total_frames * PAGE_SIZE)
                        by (nonlinear_arith)
                        requires
                            i < self.total_frames,
                    ;
                    assert(!old(self).used()[i as int]);
                }
                return Some(self.start + i * PAGE_SIZE);
            }
            i = i + 1;
        }
        None
    }

    /// Free the frame at `frame`: frame `(frame - start) / PAGE_SIZE` is
    /// marked free and `next_free` lowered to it when below. Addresses past
    /// the managed frames are ignored.
    pub fn dealloc(&mut self, frame: usize)
        requires
            old(self).wf(),
            frame >= old(self).start,
        ensures
            final(self).wf(),
            final(self).start == old(self).start,
            final(self).total_frames == old(self).total_frames,
            ({
                let idx = (frame - old(self).start) / PAGE_SIZE as int;
                if idx < old(self).total_frames {
                    &&& final(self).used() == old(self).used().update(idx, false)
                    &&& final(self).next_free == if idx < old(self).next_free {
                        idx
                    } else {
                        old(self).next_free as int
                    }
                } else {
                    final(self).used() == old(self).used() && final(self).next_free
                        == old(self).next_free
                }
            }),
    {
        let idx = (frame - self.start) / PAGE_SIZE;
        if idx < self.total_frames {
            self.set_free(idx);
            if idx < self.next_free {
                self.next_free = idx;
            }
        }
    }

    /// Allocate `count` contiguous frames: the lowest run of `count` free
    /// frames, all marked in use, `next_free` just past it. `None` for a
    /// zero count or when no such run exists.
    pub fn alloc_contiguous(&mut self, count: usize) -> (r: Option<usize>)
        requires
            old(self).wf(),
        ensures
            final(self).wf(),
            final(self).start == old(self).start,
            final(self).total_frames == old(self).total_frames,
            r is None ==> *final(self) == *old(self) && (count == 0 || forall|q: int|
                !#[trigger] is_free_run(old(self).used(), q, count as int)),
            r matches Some(addr) ==> count > 0 && exists|q: int|
                #[trigger] is_free_run(old(self).used(), q, count as int) && addr == old(
                    self,
                ).frame_addr(q) && (forall|q2: int|
                    0 <= q2 < q ==> !#[trigger] is_free_run(old(self).used(), q2, count as int))
                    && final(self).next_free == q + count && final(self).used() == Seq::new(
                    old(self).total_frames as nat,
                    |j: int| old(self).used()[j] || (q <= j < q + count),
                ),
    {
        if count == 0 {
            return None;
        }
        let ghost used0 = self.used();
        let mut run_start: usize = 0;
        let mut run_length: usize = 0;
        let mut i: usize = 0;
        while i < self.total_frames
            invariant
                self == old(self),
                self.wf(),
                used0 == self.used(),
                count > 0,
                i <= self.total_frames,
                run_length < count,
                run_length <= i,
                run_length > 0 ==> run_start == i - run_length,
                forall|j: int| i - run_length <= j < i ==> !#[trigger] used0[j],
                i - run_length > 0 ==> used0[i - run_length - 1],
                forall|q: int| q + count <= i ==> !#[trigger] is_free_run(used0, q, count as int),
            decreases self.total_frames - i,
        {
            if !self.is_used(i) {
                if run_length == 0 {
                    run_start = i;
                }
                run_length = run_length + 1;
                if run_length == count {
                    proof {
                        assert(is_free_run(used0, run_start as int, count as int));
                        assert forall|q2: int| 0 <= q2 < run_start implies !#[trigger] is_free_run(
                            used0,
                            q2,
                            count as int,
                        ) by {
                            if q2 + count > i {
                                assert(used0[run_start - 1]);
                            }
                        }
                    }
                    return self.mark_run(run_start, count, Ghost(used0));
                }
            } else {
                proof {
                    assert forall|q: int| q + count <= i + 1 implies !#[trigger] is_free_run(
                        used0,
                        q,
                        count as int,
                    ) by {
                        if q + count == i + 1 {
                            assert(used0[i as int]);
                        }
                    }
                }
                run_length = 0;
            }
            proof {
                assert forall|q: int| q + count <= i + 1 implies !#[trigger] is_free_run(
                    used0,
                    q,
                    count as int,
                ) by {
                    if q + count == i + 1 && q >= 0 && run_length > 0 {
                        assert(used0[i + 1 - run_length - 1]);
                    }
                }
            }
            i = i + 1;
        }
        None
    }

    /// Mark the free run `[run_start, run_start + count)` in use and return
    /// the address of its first frame.
    fn mark_run(&mut self, run_start: usize, count: usize, Ghost(used0): Ghost<Seq<bool>>) -> (r:
        Option<usize>)
        requires
            old(self).wf(),
            used0 == old(self).used(),
            count > 0,
            is_free_run(used0, run_start as int, count as int),
        ensures
            final(self).wf(),
            final(self).start == old(self).start,
            final(self).total_frames == old(self).total_frames,
            r == Some((old(self).start + run_start * PAGE_SIZE) as usize),
            final(self).next_free == run_start + count,
            final(self).used() == Seq::new(
                old(self).total_frames as nat,
                |j: int| used0[j] || (run_start <= j < run_start + count),
            ),
    {
        let mut j = run_start;
        while j < run_start + count
            invariant
                self.wf(),
                self.start == old(self).start,
                self.total_frames == old(self).total_frames,
                run_start <= j <= run_start + count,
                run_start + count <= self.total_frames,
                self.used() == Seq::new(
                    old(self).total_frames as nat,
                    |k: int| used0[k] || (run_start <= k < j),
                ),
            decreases run_start + count - j,
        {
            let ghost before = self.used();
            self.set_used(j);
            proof {
                assert(self.used() =~= Seq::new(
                    old(self).total_frames as nat,
                    |k: int| used0[k] || (run_start <= k < j + 1),
                ));
            }
            j = j + 1;
        }
        self.next_free = run_start + count;
        proof {
            assert(self.start + run_start * PAGE_SIZE <= self.start + self.total_frames * PAGE_SIZE)
                by (nonlinear_arith)
                requires
                    run_start < self.total_frames,
            ;
        }
        Some(self.start + run_start * PAGE_SIZE)
    }
}

impl FrameAllocator {
    /// Count the frames in use.
    pub fn count_used(&self) -> (r: usize)
        requires
            self.wf(),
        ensures
            r == used_count(self.used(), self.total_frames as int),
    {
        let mut used: usize = 0;
        let mut i: usize = 0;
        while i < self.total_frames
            invariant
                self.wf(),
                i <= self.total_frames,
                used == used_count(self.used(), i as int),
                used <= i,
            decreases self.total_frames - i,
        {
            if self.is_used(i) {
                used = used + 1;
            }
            i = i + 1;
        }
        used
    }

    /// Mark in use every frame that lies in `[phys_start, phys_end)` once
    /// both ends are rounded inward to page boundaries. Returns the number
    /// of frames that were free before. Frames outside the managed range
    /// are skipped.
    pub fn mark_range_used(&mut self, phys_start: usize, phys_end: usize) -> (r: usize)
        requires
            old(self).wf(),
            phys_start <= usize::MAX - 4095,
        ensures
            final(self).wf(),
            final(self).start == old(self).start,
            final(self).total_frames == old(self).total_frames,
            final(self).next_free == old(self).next_free,
            final(self).used() == Seq::new(
                old(self).total_frames as nat,
                |j: int|
                    old(self).used()[j] || (page_align_up(phys_start as int) <= old(self).frame_addr(j)
                        && old(self).frame_addr(j) < align_down(phys_end as int)),
            ),
            r == free_count(
                old(self).used(),
                range_lo(old(self).start as int, page_align_up(phys_start as int)),
                range_hi(
                    old(self).start as int,
                    old(self).total_frames as int,
                    align_down(phys_end as int),
                ),
            ),
    {
        let x = phys_start + 4095;
        proof {
            crate::mm::addr::lemma_page_mask(x);
            crate::mm::addr::lemma_page_mask(phys_end);
        }
        let page_start = x & !4095;
        let page_end = phys_end & !4095;
        let lo = if page_start <= self.start {
            0
        } else {
            (page_start - self.start) / PAGE_SIZE
        };
        let hi = if page_end <= self.start {
            0
        } else {
            let h = (page_end - self.start) / PAGE_SIZE;
            if h < self.total_frames {
                h
            } else {
                self.total_frames
            }
        };
        let ghost used0 = self.used();
        let ghost st = self.start as int;
        proof {
            assert forall|j: int| 0 <= j < self.total_frames implies ((lo <= j < hi) <==> (page_start
                <= #[trigger] self.frame_addr(j) && self.frame_addr(j) < page_end)) by {
                lemma_frame_index_range(st, j, page_start as int, page_end as int);
            }
        }
        let mut count: usize = 0;
        let mut i = lo;
        while i < hi
            invariant
                self.wf(),
                self.start == old(self).start,
                self.total_frames == old(self).total_frames,
                self.next_free == old(self).next_free,
                used0 == old(self).used(),
                lo <= i,
                hi <= self.total_frames,
                lo < hi ==> i <= hi,
                lo >= hi ==> i == lo,
                self.used() == Seq::new(
                    self.total_frames as nat,
                    |j: int| used0[j] || (lo <= j < i),
                ),
                count == free_count(used0, lo as int, i as int),
                count <= i - lo,
            decreases hi - i,
        {
            if !self.is_used(i) {
                self.set_used(i);
                count = count + 1;
            }
            proof {
                assert(self.used() =~= Seq::new(
                    self.total_frames as nat,
                    |j: int| used0[j] || (lo <= j < i + 1),
                ));
            }
            i = i + 1;
        }
        proof {
            if lo >= hi {
                assert(self.used() =~= Seq::new(
                    self.total_frames as nat,
                    |j: int| used0[j] || (lo <= j < hi),
                ));
            }
            assert(self.used() =~= Seq::new(
                old(self).total_frames as nat,
                |j: int|
                    old(self).used()[j] || (page_align_up(phys_start as int) <= old(self).frame_addr(j)
                        && old(self).frame_addr(j) < align_down(phys_end as int)),
            ));
        }
        count
    }
}

/// Index of the first managed frame at or after `page_start`.
pub open spec fn range_lo(start: int, page_start: int) -> int {
    if page_start <= start {
        0
    } else {
        (page_start - start) / 4096
    }
}

/// Index just past the last managed frame before `page_end`.
pub open spec fn range_hi(start: int, total: int, page_end: int) -> int {
    if page_end <= start {
        0
    } else if (page_end - start) / 4096 < total {
        (page_end - start) / 4096
    } else {
        total
    }
}

/// Round `x` up to a page boundary.
pub open spec fn page_align_up(x: int) -> int {
    (x + 4095) - (x + 4095) % 4096
}

/// Round `x` down to a page boundary.
pub open spec fn align_down(x: int) -> int {
    x - x % 4096
}

/// For page-aligned bounds, frame `j` lies in `[ps, pe)` exactly when its
/// index lies between the rounded bounds.
proof fn lemma_frame_index_range(start: int, j: int, ps: int, pe: int)
    requires
        start >= 0,
        start % 4096 == 0,
        ps % 4096 == 0,
        pe % 4096 == 0,
        j >= 0,
    ensures
        (range_lo(start, ps) <= j && j < (if pe <= start {
            0
        } else {
            (pe - start) / 4096
        })) <==> (ps <= start + j * 4096 && start + j * 4096 < pe),
{
    assert((range_lo(start, ps) <= j && j < (if pe <= start {
        0
    } else {
        (pe - start) / 4096
    })) <==> (ps <= start + j * 4096 && start + j * 4096 < pe)) by (nonlinear_arith)
        requires
            start >= 0,
            start % 4096 == 0,
            ps % 4096 == 0,
            pe % 4096 == 0,
            j >= 0,
    ;
}

/// The first page boundary at or after the kernel end.
pub open spec fn layout_start(kernel_end: int) -> int {
    (kernel_end + 4095) - (kernel_end + 4095) % 4096
}

/// Words of bitmap for the memory after the kernel.
pub open spec fn layout_words(kernel_end: int, mem_end: int) -> int {
    ((mem_end - layout_start(kernel_end)) / 4096 + 63) / 64
}

/// The first managed frame: the first page boundary after the bitmap.
pub open spec fn layout_managed_start(kernel_end: int, mem_end: int) -> int {
    let y = layout_start(kernel_end) + layout_words(kernel_end, mem_end) * 8 + 4095;
    y - y % 4096
}


/// Start of physical memory managed by the kernel (kernel load address).
pub const MEMORY_START: usize = 0x0020_0000;

/// Default memory size until the boot information gives the real one.
pub const DEFAULT_MEMORY_SIZE: usize = 128 * 1024 * 1024;

/// Pool of pre-zeroed frames, used as a stack.
pub struct ZeroedPool {
    pub frames: Vec<usize>,
    pub count: usize,
}

impl ZeroedPool {
    /// The pool has its fixed number of slots.
    pub open spec fn wf(&self) -> bool {
        self.frames@.len() == ZEROED_POOL_SIZE && self.count <= ZEROED_POOL_SIZE
    }

    /// The frames in the pool, bottom first.
    pub open spec fn contents(&self) -> Seq<usize> {
        self.frames@.take(self.count as int)
    }

    /// An empty pool.
    pub fn new() -> (r: Self)
        ensures
            r.wf(),
            r.contents() == Seq::<usize>::empty(),
    {
        let mut frames: Vec<usize> = Vec::new();
        let mut i: usize = 0;
        while i < ZEROED_POOL_SIZE
            invariant
                i <= ZEROED_POOL_SIZE,
                frames@.len() == i,
            decreases ZEROED_POOL_SIZE - i,
        {
            frames.push(0);
            i = i + 1;
        }
        let r = ZeroedPool { frames, count: 0 };
        assert(r.contents() =~= Seq::<usize>::empty());
        r
    }

    /// Take the most recently pushed frame.
    pub fn pop(&mut self) -> (r: Option<usize>)
        requires
            old(self).wf(),
        ensures
            final(self).wf(),
            old(self).contents().len() == 0 ==> r is None && final(self).contents() == old(
                self,
            ).contents(),
            old(self).contents().len() > 0 ==> r == Some(old(self).contents().last())
                && final(self).contents() == old(self).contents().drop_last(),
    {
        if self.count > 0 {
            self.count = self.count - 1;
            assert(self.contents() =~= old(self).contents().drop_last());
            Some(self.frames[self.count])
        } else {
            None
        }
    }

    /// Whether another frame fits.
    pub fn has_room(&self) -> (r: bool)
        requires
            self.wf(),
        ensures
            r == (self.contents().len() < ZEROED_POOL_SIZE),
    {
        self.count < ZEROED_POOL_SIZE
    }

    /// Push a frame; the pool must have room.
    pub fn push(&mut self, frame: usize)
        requires
            old(self).wf(),
            old(self).contents().len() < ZEROED_POOL_SIZE,
        ensures
            final(self).wf(),
            final(self).contents() == old(self).contents().push(frame),
    {
        self.frames.set(self.count, frame);
        self.count = self.count + 1;
        assert(self.contents() =~= old(self).contents().push(frame));
    }
}

/// Where a frame handed out by `Pmm::alloc_zeroed_frame` comes from.
pub enum ZeroedFrame {
    /// Taken from the pre-zeroed pool: already zero.
    Pooled(usize),
    /// Freshly allocated: the caller zeroes it before use.
    Fresh(usize),
}

/// Frame `i` is the one the allocator picks: the first free frame at or
/// after `next_free`, or, when there is none, the first free frame before
/// it.
pub open spec fn first_free_from(a: FrameAllocator, i: int) -> bool {
    if i >= a.next_free {
        forall|j: int| a.next_free <= j < i ==> #[trigger] a.used()[j]
    } else {
        (forall|j: int| a.next_free <= j < a.total_frames ==> #[trigger] a.used()[j])
            && forall|j: int| 0 <= j < i ==> #[trigger] a.used()[j]
    }
}

/// Allocator state `a1` and result `r` are what one frame allocation leaves
/// of `a0`: nothing before initialization; `None`, nothing changed, when
/// every frame is in use; else the frame that `first_free_from` picks,
/// marked used, with `next_free` just past it.
pub open spec fn alloc_outcome(a0: Option<FrameAllocator>, a1: Option<FrameAllocator>, r: Option<usize>) -> bool {
    match a0 {
        None => r is None && a1 is None,
        Some(a0) => a1 matches Some(a1) && a1.start == a0.start && a1.total_frames == a0.total_frames && match r {
            None => a1 == a0 && forall|j: int| 0 <= j < a0.total_frames ==> #[trigger] a0.used()[j],
            Some(addr) => exists|i: int|
                #![trigger a0.used()[i]]
                0 <= i < a0.total_frames && addr == a0.frame_addr(i) && !a0.used()[i] && a1.used()
                    == a0.used().update(i, true) && a1.next_free == i + 1 && first_free_from(a0, i),
        },
    }
}

/// Allocator state `a1` is what freeing the frame at `frame` leaves of
/// `a0`: its frame marked free and `next_free` lowered to it when below;
/// an address past the managed frames changes nothing.
pub open spec fn dealloc_outcome(a0: FrameAllocator, a1: FrameAllocator, frame: int) -> bool {
    let idx = (frame - a0.start) / PAGE_SIZE as int;
    &&& a1.start == a0.start
    &&& a1.total_frames == a0.total_frames
    &&& if idx < a0.total_frames {
        &&& a1.used() == a0.used().update(idx, false)
        &&& a1.next_free == if idx < a0.next_free {
            idx
        } else {
            a0.next_free as int
        }
    } else {
        a1.used() == a0.used() && a1.next_free == a0.next_free
    }
}

/// A frame freed right after it was allocated is the one that the next
/// allocation hands out again: freeing it moves `next_free` back to it.
pub proof fn lemma_free_then_alloc_same(
    a0: FrameAllocator,
    a1: FrameAllocator,
    addr: usize,
    a2: FrameAllocator,
    a3: Option<FrameAllocator>,
    r: Option<usize>,
)
    requires
        a0.wf(),
        alloc_outcome(Some(a0), Some(a1), Some(addr)),
        dealloc_outcome(a1, a2, addr as int),
        alloc_outcome(Some(a2), a3, r),
    ensures
        r == Some(addr),
{
    let i = choose|i: int|
        #![trigger a0.used()[i]]
        0 <= i < a0.total_frames && addr == a0.frame_addr(i) && !a0.used()[i] && a1.used()
            == a0.used().update(i, true) && a1.next_free == i + 1 && first_free_from(a0, i);
    assert((addr - a1.start) / PAGE_SIZE as int == i) by {
        vstd::arithmetic::div_mod::lemma_div_multiples_vanish(i, PAGE_SIZE as int);
    }
    assert(a2.next_free == i);
    assert(!a2.used()[i]);
    match r {
        None => {
            assert(a2.used()[i]);
        },
        Some(addr2) => {
            let j = choose|j: int|
                #![trigger a2.used()[j]]
                0 <= j < a2.total_frames && addr2 == a2.frame_addr(j) && !a2.used()[j]
                    && first_free_from(a2, j);
            if j > i {
                assert(a2.used()[i]);
            } else if j < i {
                assert(a2.used()[i]);
            }
        },
    }
}

/// Marking one free frame used among the first `n` adds one to the count
/// of used ones.
proof fn lemma_used_count_mark(used: Seq<bool>, i: int, n: int)
    requires
        0 <= i < n <= used.len(),
        !used[i],
    ensures
        used_count(used.update(i, true), n) == used_count(used, n) + 1,
    decreases n,
{
    if n - 1 > i {
        lemma_used_count_mark(used, i, n - 1);
    } else {
        lemma_used_count_same(used, used.update(i, true), n - 1);
    }
}

/// Two flag sequences that agree on the first `n` count alike there.
proof fn lemma_used_count_same(a: Seq<bool>, b: Seq<bool>, n: int)
    requires
        0 <= n,
        n <= a.len(),
        n <= b.len(),
        forall|j: int| 0 <= j < n ==> a[j] == b[j],
    ensures
        used_count(a, n) == used_count(b, n),
    decreases n,
{
    if n > 0 {
        lemma_used_count_same(a, b, n - 1);
    }
}

/// Two allocations with no free between them hand out two different
/// frames, each page-aligned and inside the managed memory
/// `[start, start + total_frames * PAGE_SIZE)`, and each not in use before
/// it was handed out; each adds one to the count of frames in use.
pub proof fn law_successive_allocs_distinct(
    a0: FrameAllocator,
    a1: FrameAllocator,
    a2: Option<FrameAllocator>,
    r1: usize,
    r2: usize,
)
    requires
        a0.wf(),
        alloc_outcome(Some(a0), Some(a1), Some(r1)),
        alloc_outcome(Some(a1), a2, Some(r2)),
    ensures
        r1 != r2,
        r1 % PAGE_SIZE == 0 && r2 % PAGE_SIZE == 0,
        a0.start <= r1 < a0.start + a0.total_frames * PAGE_SIZE,
        a0.start <= r2 < a0.start + a0.total_frames * PAGE_SIZE,
        used_count(a1.used(), a0.total_frames as int) == used_count(a0.used(), a0.total_frames as int) + 1,
        used_count(a2->0.used(), a0.total_frames as int) == used_count(a0.used(), a0.total_frames as int) + 2,
{
    let i = choose|i: int|
        #![trigger a0.used()[i]]
        0 <= i < a0.total_frames && r1 == a0.frame_addr(i) && !a0.used()[i] && a1.used()
            == a0.used().update(i, true) && a1.next_free == i + 1 && first_free_from(a0, i);
    let j = choose|j: int|
        #![trigger a1.used()[j]]
        0 <= j < a1.total_frames && r2 == a1.frame_addr(j) && !a1.used()[j] && a2->0.used()
            == a1.used().update(j, true) && a2->0.next_free == j + 1 && first_free_from(a1, j);
    assert(a1.used()[i]);
    assert(i != j);
    lemma_used_count_mark(a0.used(), i, a0.total_frames as int);
    lemma_used_count_mark(a1.used(), j, a0.total_frames as int);
    assert(r1 != r2) by (nonlinear_arith)
        requires
            r1 == a0.start + i * PAGE_SIZE,
            r2 == a0.start + j * PAGE_SIZE,
            i != j,
    ;
    assert(r1 % PAGE_SIZE == 0 && r2 % PAGE_SIZE == 0) by (nonlinear_arith)
        requires
            r1 == a0.start + i * PAGE_SIZE,
            r2 == a0.start + j * PAGE_SIZE,
            a0.start % 4096 == 0,
            PAGE_SIZE == 4096,
    ;
    assert(a0.start <= r1 < a0.start + a0.total_frames * PAGE_SIZE && a0.start <= r2 < a0.start
        + a0.total_frames * PAGE_SIZE) by (nonlinear_arith)
        requires
            r1 == a0.start + i * PAGE_SIZE,
            r2 == a0.start + j * PAGE_SIZE,
            0 <= i < a0.total_frames,
            0 <= j < a0.total_frames,
            PAGE_SIZE == 4096,
    ;
}

/// The physical memory manager: the frame allocator once initialized, the
/// pool of pre-zeroed frames, and the size of physical memory.
pub struct Pmm {
    pub allocator: Option<FrameAllocator>,
    pub pool: ZeroedPool,
    pub memory_size: usize,
}

/// UEFI memory descriptor.
#[derive(Clone, Copy)]
pub struct EfiMemoryDescriptor {
    pub entry_type: u32,
    pub phys_start: u64,
    pub virt_start: u64,
    pub num_pages: u64,
    pub attribute: u64,
}

/// UEFI memory types that hold ordinary RAM.
pub const EFI_CONVENTIONAL_MEMORY: u32 = 7;
pub const EFI_BOOT_SERVICES_CODE: u32 = 5;
pub const EFI_BOOT_SERVICES_DATA: u32 = 6;
pub const EFI_LOADER_CODE: u32 = 2;
pub const EFI_LOADER_DATA: u32 = 3;

/// Memory of this UEFI type may be handed out by the frame allocator.
pub open spec fn efi_usable(t: u32) -> bool {
    t == EFI_CONVENTIONAL_MEMORY || t == EFI_BOOT_SERVICES_CODE || t == EFI_BOOT_SERVICES_DATA
        || t == EFI_LOADER_CODE || t == EFI_LOADER_DATA
}

/// Whether memory of UEFI type `t` may be handed out.
pub fn efi_type_is_usable(t: u32) -> (r: bool)
    ensures
        r == efi_usable(t),
{
    t == EFI_CONVENTIONAL_MEMORY || t == EFI_BOOT_SERVICES_CODE || t == EFI_BOOT_SERVICES_DATA
        || t == EFI_LOADER_CODE || t == EFI_LOADER_DATA
}

/// The page size.
pub fn page_size() -> (r: usize)
    ensures
        r == PAGE_SIZE,
{
    PAGE_SIZE
}

impl Pmm {
    pub open spec fn wf(&self) -> bool {
        &&& self.pool.wf()
        &&& self.allocator matches Some(a) ==> a.wf()
    }

    /// The manager before initialization: no allocator, an empty pool.
    pub fn new() -> (r: Self)
        ensures
            r.wf(),
            r.allocator is None,
            r.pool.contents() == Seq::<usize>::empty(),
            r.memory_size == DEFAULT_MEMORY_SIZE,
    {
        Pmm { allocator: None, pool: ZeroedPool::new(), memory_size: DEFAULT_MEMORY_SIZE }
    }

    /// Set up the allocator for memory `[MEMORY_START, MEMORY_START +
    /// mem_size)` after a kernel ending at `kernel_end`. Returns the
    /// managed memory in MiB.
    pub fn init_with_size(&mut self, kernel_end: usize, mem_size: usize) -> (r: usize)
        requires
            old(self).wf(),
            mem_size <= usize::MAX - MEMORY_START,
            kernel_end <= usize::MAX - PAGE_SIZE,
            layout_start(kernel_end as int) <= MEMORY_START + mem_size,
            layout_managed_start(kernel_end as int, MEMORY_START + mem_size) <= MEMORY_START
                + mem_size,
        ensures
            final(self).wf(),
            final(self).memory_size == mem_size,
            final(self).pool == old(self).pool,
            final(self).allocator matches Some(a) && a.next_free == 0 && a.start
                == layout_managed_start(kernel_end as int, MEMORY_START + mem_size) && a.total_frames
                == (MEMORY_START + mem_size - a.start) / PAGE_SIZE as int && (forall|i: int|
                0 <= i < a.total_frames ==> !#[trigger] a.used()[i]) && r == a.total_frames
                * PAGE_SIZE / 1024 / 1024,
    {
        self.memory_size = mem_size;
        let a = FrameAllocator::new(kernel_end, MEMORY_START + mem_size);
        let mb = a.total_frames / 256;
        proof {
            assert(a.total_frames / 256 == a.total_frames * 4096 / 1024 / 1024) by (nonlinear_arith);
        }
        self.allocator = Some(a);
        mb
    }

    /// The end of physical memory.
    pub fn total_memory(&self) -> (r: usize)
        requires
            self.memory_size <= usize::MAX - MEMORY_START,
        ensures
            r == MEMORY_START + self.memory_size,
    {
        MEMORY_START + self.memory_size
    }

    /// Allocate a frame (see `FrameAllocator::allocate`); `None` before
    /// initialization.
    pub fn alloc_frame(&mut self) -> (r: Option<usize>)
        requires
            old(self).wf(),
        ensures
            final(self).wf(),
            final(self).pool == old(self).pool,
            final(self).memory_size == old(self).memory_size,
            old(self).allocator is None ==> r is None && final(self).allocator is None,
            old(self).allocator matches Some(a0) ==> final(self).allocator matches Some(a1) && a1.start
                == a0.start && a1.total_frames == a0.total_frames && (r is None ==> a1 == a0 && forall|
                j: int,
            |
                0 <= j < a0.total_frames ==> #[trigger] a0.used()[j]) && (r matches Some(addr)
                ==> exists|i: int|
                #![trigger a0.used()[i]]
                0 <= i < a0.total_frames && addr == a0.frame_addr(i) && !a0.used()[i]
                    && a1.used() == a0.used().update(i, true) && a1.next_free == i + 1
                    && first_free_from(a0, i)),
            alloc_outcome(old(self).allocator, final(self).allocator, r),
    {
        match self.allocator.as_mut() {
            Some(a) => a.allocate(),
            None => None,
        }
    }

    /// Free a frame (see `FrameAllocator::dealloc`); nothing before
    /// initialization.
    pub fn dealloc_frame(&mut self, frame: usize)
        requires
            old(self).wf(),
            old(self).allocator matches Some(a) ==> frame >= a.start,
        ensures
            final(self).wf(),
            final(self).pool == old(self).pool,
            final(self).memory_size == old(self).memory_size,
            old(self).allocator is None ==> final(self).allocator is None,
            old(self).allocator matches Some(a0) ==> final(self).allocator matches Some(a1)
                && dealloc_outcome(a0, a1, frame as int),
    {
        match self.allocator.as_mut() {
            Some(a) => a.dealloc(frame),
            None => {},
        }
    }

    /// Allocate `count` contiguous frames (see
    /// `FrameAllocator::alloc_contiguous`); `None` before initialization.
    pub fn alloc_contiguous_frames(&mut self, count: usize) -> (r: Option<usize>)
        requires
            old(self).wf(),
        ensures
            final(self).wf(),
            final(self).pool == old(self).pool,
            old(self).allocator is None ==> r is None && final(self).allocator is None,
            old(self).allocator matches Some(a0) ==> final(self).allocator matches Some(a1) && a1.start
                == a0.start && a1.total_frames == a0.total_frames && (r is None ==> a1 == a0 && (
            count == 0 || forall|q: int| !#[trigger] is_free_run(a0.used(), q, count as int))) && (
            r matches Some(addr) ==> count > 0 && exists|q: int|
                #[trigger] is_free_run(a0.used(), q, count as int) && addr == a0.frame_addr(q) && (
                forall|q2: int| 0 <= q2 < q ==> !#[trigger] is_free_run(a0.used(), q2, count as int))
                    && a1.used() == Seq::new(
                    a0.total_frames as nat,
                    |j: int| a0.used()[j] || (q <= j < q + count),
                )),
    {
        match self.allocator.as_mut() {
            Some(a) => a.alloc_contiguous(count),
            None => None,
        }
    }

    /// `(total frames, frames in use, next free index)`; zeros before
    /// initialization.
    pub fn stats(&self) -> (r: (usize, usize, usize))
        requires
            self.wf(),
        ensures
            self.allocator is None ==> r == (0usize, 0usize, 0usize),
            self.allocator matches Some(a) ==> r.0 == a.total_frames && r.1 == used_count(
                a.used(),
                a.total_frames as int,
            ) && r.2 == a.next_free,
    {
        match &self.allocator {
            Some(a) => (a.total_frames, a.count_used(), a.next_free),
            None => (0, 0, 0),
        }
    }

    /// Same as `stats`.
    pub fn debug_stats(&self) -> (r: (usize, usize, usize))
        requires
            self.wf(),
        ensures
            self.allocator is None ==> r == (0usize, 0usize, 0usize),
            self.allocator matches Some(a) ==> r.0 == a.total_frames && r.1 == used_count(
                a.used(),
                a.total_frames as int,
            ) && r.2 == a.next_free,
    {
        self.stats()
    }

    /// A zeroed frame: from the pool when it has one, else freshly
    /// allocated (the caller zeroes it). `None` when neither has a frame.
    pub fn alloc_zeroed_frame(&mut self) -> (r: Option<ZeroedFrame>)
        requires
            old(self).wf(),
        ensures
            final(self).wf(),
            old(self).pool.contents().len() > 0 ==> r == Some(ZeroedFrame::Pooled(
                old(self).pool.contents().last(),
            )) && final(self).pool.contents() == old(self).pool.contents().drop_last()
                && final(self).allocator == old(self).allocator,
            old(self).pool.contents().len() == 0 ==> final(self).pool.contents() == old(
                self,
            ).pool.contents() && (r is None || r matches Some(ZeroedFrame::Fresh(_)))
                && final(self).memory_size == old(self).memory_size && alloc_outcome(
                old(self).allocator,
                final(self).allocator,
                match r {
                    Some(ZeroedFrame::Fresh(addr)) => Some(addr),
                    _ => None::<usize>,
                },
            ),
            r matches Some(ZeroedFrame::Fresh(addr)) ==> old(self).allocator matches Some(a0) && exists|
                i: int,
            |
                #![trigger a0.used()[i]]
                0 <= i < a0.total_frames && addr == a0.frame_addr(i) && !a0.used()[i],
    {
        match self.pool.pop() {
            Some(f) => Some(ZeroedFrame::Pooled(f)),
            None => match self.alloc_frame() {
                Some(f) => Some(ZeroedFrame::Fresh(f)),
                None => None,
            },
        }
    }

    /// Return a zeroed frame to the pool; when the pool is full the frame
    /// is freed instead.
    pub fn pool_push(&mut self, frame: usize)
        requires
            old(self).wf(),
            old(self).allocator matches Some(a) ==> frame >= a.start,
        ensures
            final(self).wf(),
            old(self).pool.contents().len() < ZEROED_POOL_SIZE ==> final(self).pool.contents()
                == old(self).pool.contents().push(frame) && final(self).allocator == old(
                self,
            ).allocator,
            old(self).pool.contents().len() >= ZEROED_POOL_SIZE ==> final(self).pool == old(
                self,
            ).pool,
    {
        if self.pool.has_room() {
            self.pool.push(frame);
        } else {
            self.dealloc_frame(frame);
        }
    }

    /// Whether the pool of zeroed frames wants another frame.
    pub fn pool_wants_frame(&self) -> (r: bool)
        requires
            self.wf(),
        ensures
            r == (self.pool.contents().len() < ZEROED_POOL_SIZE),
    {
        self.pool.has_room()
    }

    /// Mark a physical range in use (see `FrameAllocator::mark_range_used`);
    /// 0 before initialization.
    pub fn mark_range_used(&mut self, phys_start: usize, phys_end: usize) -> (r: usize)
        requires
            old(self).wf(),
            phys_start <= usize::MAX - 4095,
        ensures
            final(self).wf(),
            final(self).pool == old(self).pool,
            old(self).allocator is None ==> r == 0 && final(self).allocator is None,
            old(self).allocator matches Some(a0) ==> final(self).allocator matches Some(a1)
                && a1.start == a0.start && a1.total_frames == a0.total_frames && a1.next_free
                == a0.next_free && a1.used() == Seq::new(
                a0.total_frames as nat,
                |j: int|
                    a0.used()[j] || (page_align_up(phys_start as int) <= a0.frame_addr(j)
                        && a0.frame_addr(j) < align_down(phys_end as int)),
            ) && r == free_count(
                a0.used(),
                range_lo(a0.start as int, page_align_up(phys_start as int)),
                range_hi(a0.start as int, a0.total_frames as int, align_down(phys_end as int)),
            ),
    {
        match self.allocator.as_mut() {
            Some(a) => a.mark_range_used(phys_start, phys_end),
            None => 0,
        }
    }
}

} // verus!
