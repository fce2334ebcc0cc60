//! Typed address newtypes.
//!
//! Raw `usize` addresses are only allowed at architecture boundaries. All
//! other code uses these typed wrappers so that physical and virtual
//! addresses, and user and kernel virtual addresses, cannot be mixed.
use core::marker::PhantomData;
use vstd::prelude::*;

verus! {

/// Lowest address that is not a user address (user space ends here).
pub const USER_SPACE_END: u64 = 0x0000_8000_0000_0000;

/// The low twelve bits of `x` are its offset within a 4 KiB page.
pub proof fn lemma_page_mask(x: usize)
    ensures
        x & 0xfffusize == x % 4096,
        x & !0xfffusize == x - x % 4096,
        (x & !0xfffusize) % 4096 == 0,
{
    assert(x & 0xfffusize == x % 4096) by (bit_vector);
    assert(x & !0xfffusize == x - x % 4096) by (bit_vector);
    assert((x & !0xfffusize) % 4096 == 0) by (bit_vector);
}

/// Shifting right by twelve divides by the page size.
pub proof fn lemma_page_shift(x: usize)
    ensures
        x >> 12usize == x / 4096,
{
    assert(x >> 12usize == x / 4096) by (bit_vector);
}

/// Marker: physical address.
#[derive(Clone, Copy, PartialEq, Eq)]
pub struct Phys;

/// Marker: virtual address.
#[derive(Clone, Copy, PartialEq, Eq)]
pub struct Virt;

/// Marker: user virtual address space.
#[derive(Clone, Copy, PartialEq, Eq)]
pub struct User;

/// Marker: kernel virtual address space.
#[derive(Clone, Copy, PartialEq, Eq)]
pub struct Kernel;

/// A typed address value. `Kind` distinguishes physical from virtual,
/// `Space` user from kernel (for virtual addresses).
pub struct Addr<Kind, Space> {
    raw: usize,
    _kind: PhantomData<(Kind, Space)>,
}

impl<Kind, Space> Clone for Addr<Kind, Space> {
    fn clone(&self) -> (r: Self)
        ensures
            r@ == self@,
    {
        Addr { raw: self.raw, _kind: PhantomData }
    }
}

impl<Kind, Space> Copy for Addr<Kind, Space> {

}

impl<Kind, Space> View for Addr<Kind, Space> {
    type V = usize;

    closed spec fn view(&self) -> usize {
        self.raw
    }
}

/// A physical address.
pub type PhysAddr = Addr<Phys, ()>;

/// A virtual address.
pub type VirtAddr = Addr<Virt, ()>;

/// A user-space virtual address.
pub type UserVirtAddr = Addr<Virt, User>;

/// A kernel-space virtual address.
pub type KernelVirtAddr = Addr<Virt, Kernel>;

impl<Kind, Space> Addr<Kind, Space> {
    /// Create without validation.
    pub fn new_unchecked(raw: usize) -> (r: Self)
        ensures
            r@ == raw,
    {
        Addr { raw, _kind: PhantomData }
    }

    /// The raw value.
    pub fn as_usize(self) -> (r: usize)
        ensures
            r == self@,
    {
        self.raw
    }

    /// Whether the address is 4 KiB page-aligned.
    pub fn is_page_aligned(self) -> (r: bool)
        ensures
            r == (self@ % 4096 == 0),
    {
        proof {
            lemma_page_mask(self.raw);
        }
        self.raw & 0xfff == 0
    }

    /// Round down to the containing page boundary.
    pub fn page_align_down(self) -> (r: Self)
        ensures
            r@ == self@ - self@ % 4096,
    {
        proof {
            lemma_page_mask(self.raw);
        }
        Self::new_unchecked(self.raw & !0xfff)
    }

    /// Offset within the page (low 12 bits).
    pub fn page_offset(self) -> (r: usize)
        ensures
            r == self@ % 4096,
    {
        proof {
            lemma_page_mask(self.raw);
        }
        self.raw & 0xfff
    }
}

impl Addr<Virt, User> {
    /// A user address when `raw` lies below the end of user space.
    pub fn try_new(raw: usize) -> (r: Option<Self>)
        ensures
            raw < USER_SPACE_END ==> (r matches Some(a) && a@ == raw),
            raw >= USER_SPACE_END ==> r is None,
    {
        if (raw as u64) < USER_SPACE_END {
            Some(Self::new_unchecked(raw))
        } else {
            None
        }
    }
}

impl Addr<Virt, Kernel> {
    /// A kernel address when `raw` lies at or above the end of user space.
    pub fn try_new(raw: usize) -> (r: Option<Self>)
        ensures
            raw >= USER_SPACE_END ==> (r matches Some(a) && a@ == raw),
            raw < USER_SPACE_END ==> r is None,
    {
        if (raw as u64) >= USER_SPACE_END {
            Some(Self::new_unchecked(raw))
        } else {
            None
        }
    }
}

impl Addr<Phys, ()> {
    /// Create a physical address; physical addresses carry no range restriction.
    pub fn new(raw: usize) -> (r: Self)
        ensures
            r@ == raw,
    {
        Self::new_unchecked(raw)
    }

    /// Physical page number (address >> 12).
    pub fn ppn(self) -> (r: usize)
        ensures
            r == self@ / 4096,
    {
        proof {
            lemma_page_shift(self.raw);
        }
        self.raw >> 12
    }

    /// Create from a physical page number.
    pub fn from_ppn(ppn: usize) -> (r: Self)
        requires
            ppn * 4096 <= usize::MAX,
        ensures
            r@ == ppn * 4096,
    {
        Self::new_unchecked(ppn * 4096)
    }
}

} // verus!
