//! Frame ownership types.
//!
//! `OwnedFrame` is an exclusively owned 4 KiB frame, `PageTableFrame` a frame
//! used as a page table, `BorrowedFrame` a non-owning reference. An owner
//! either hands its frame on with `into_raw` or gives it back to the frame
//! allocator with `release`.
use crate::mm::addr::PhysAddr;
use crate::mm::pmm::{dealloc_outcome, first_free_from, FrameAllocator, Pmm, PAGE_SIZE};
use vstd::prelude::*;

verus! {

/// An exclusively owned 4 KiB physical frame.
pub struct OwnedFrame {
    addr: PhysAddr,
}

/// A physical frame used as a page table.
pub struct PageTableFrame {
    addr: PhysAddr,
}

/// A non-owning reference to a physical frame.
#[derive(Clone, Copy)]
pub struct BorrowedFrame {
    addr: PhysAddr,
}

impl OwnedFrame {
    /// The address of the frame.
    pub closed spec fn spec_addr(&self) -> usize {
        self.addr@
    }

    /// Take ownership of the frame at `addr`.
    pub fn from_raw(addr: PhysAddr) -> (r: Self)
        ensures
            r.spec_addr() == addr@,
    {
        OwnedFrame { addr }
    }

    /// The physical address of this frame.
    pub fn addr(&self) -> (r: PhysAddr)
        ensures
            r@ == self.spec_addr(),
    {
        self.addr
    }

    /// Give up ownership without freeing (the frame goes into a page table
    /// entry, whose owner frees it later).
    pub fn into_raw(self) -> (r: PhysAddr)
        ensures
            r@ == self.spec_addr(),
    {
        self.addr
    }

    /// Free the frame.
    pub fn release(self, pmm: &mut Pmm)
        requires
            old(pmm).wf(),
            old(pmm).allocator matches Some(a) ==> self.spec_addr() >= a.start,
        ensures
            final(pmm).wf(),
            final(pmm).pool == old(pmm).pool,
            final(pmm).memory_size == old(pmm).memory_size,
            old(pmm).allocator is None ==> final(pmm).allocator is None,
            old(pmm).allocator matches Some(a0) ==> final(pmm).allocator matches Some(a1)
                && dealloc_outcome(a0, a1, self.spec_addr() as int),
    {
        pmm.dealloc_frame(self.addr.as_usize());
    }
}

impl PageTableFrame {
    /// The address of the frame.
    pub closed spec fn spec_addr(&self) -> usize {
        self.addr@
    }

    /// Take ownership of the page table frame at `addr`.
    pub fn from_raw(addr: PhysAddr) -> (r: Self)
        ensures
            r.spec_addr() == addr@,
    {
        PageTableFrame { addr }
    }

    /// The physical address of this frame.
    pub fn addr(&self) -> (r: PhysAddr)
        ensures
            r@ == self.spec_addr(),
    {
        self.addr
    }

    /// Give up ownership without freeing (the table now belongs to the
    /// page table hierarchy).
    pub fn into_raw(self) -> (r: PhysAddr)
        ensures
            r@ == self.spec_addr(),
    {
        self.addr
    }

    /// Free the frame.
    pub fn release(self, pmm: &mut Pmm)
        requires
            old(pmm).wf(),
            old(pmm).allocator matches Some(a) ==> self.spec_addr() >= a.start,
        ensures
            final(pmm).wf(),
            final(pmm).pool == old(pmm).pool,
            final(pmm).memory_size == old(pmm).memory_size,
            old(pmm).allocator is None ==> final(pmm).allocator is None,
            old(pmm).allocator matches Some(a0) ==> final(pmm).allocator matches Some(a1)
                && dealloc_outcome(a0, a1, self.spec_addr() as int),
    {
        pmm.dealloc_frame(self.addr.as_usize());
    }
}

impl BorrowedFrame {
    /// The address of the frame.
    pub closed spec fn spec_addr(&self) -> usize {
        self.addr@
    }

    /// Refer to the frame at `addr`.
    pub fn from_raw(addr: PhysAddr) -> (r: Self)
        ensures
            r.spec_addr() == addr@,
    {
        BorrowedFrame { addr }
    }

    /// The physical address of this frame.
    pub fn addr(&self) -> (r: PhysAddr)
        ensures
            r@ == self.spec_addr(),
    {
        self.addr
    }
}

/// What allocating one frame did: `r` is `None` and the allocator
/// unchanged when it is not set up or every frame was in use; else `r` is
/// the frame the allocator picks (see `first_free_from`), which was free
/// and is now in use, with `next_free` just past it.
pub open spec fn alloc_post(old: Pmm, new: Pmm, r: Option<usize>) -> bool {
    &&& new.wf()
    &&& new.pool == old.pool
    &&& new.memory_size == old.memory_size
    &&& old.allocator is None ==> r is None && new.allocator is None
    &&& old.allocator matches Some(a0) ==> new.allocator matches Some(a1) && a1.start == a0.start
        && a1.total_frames == a0.total_frames && (r is None ==> a1 == a0 && forall|j: int|
        0 <= j < a0.total_frames ==> #[trigger] a0.used()[j]) && (r matches Some(addr)
        ==> exists|i: int|
        #![trigger a0.used()[i]]
        0 <= i < a0.total_frames && addr == a0.frame_addr(i) && !a0.used()[i] && a1.used()
            == a0.used().update(i, true) && a1.next_free == i + 1 && first_free_from(a0, i))
}

/// Allocate an owned frame; `None` when no frame is free.
pub fn alloc_owned_frame(pmm: &mut Pmm) -> (r: Option<OwnedFrame>)
    requires
        old(pmm).wf(),
    ensures
        alloc_post(
            *old(pmm),
            *final(pmm),
            match r {
                Some(f) => Some(f.spec_addr()),
                None => None,
            },
        ),
{
    match pmm.alloc_frame() {
        Some(raw) => Some(OwnedFrame::from_raw(PhysAddr::new(raw))),
        None => None,
    }
}

/// Allocate a frame for a page table; `None` when no frame is free.
pub fn alloc_page_table_frame(pmm: &mut Pmm) -> (r: Option<PageTableFrame>)
    requires
        old(pmm).wf(),
    ensures
        alloc_post(
            *old(pmm),
            *final(pmm),
            match r {
                Some(f) => Some(f.spec_addr()),
                None => None,
            },
        ),
{
    match pmm.alloc_frame() {
        Some(raw) => Some(PageTableFrame::from_raw(PhysAddr::new(raw))),
        None => None,
    }
}

} // verus!
