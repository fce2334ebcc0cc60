//! Typed page-table level markers and walk results.
//!
//! Page-table walks return typed `WalkResult` values that distinguish 4K
//! mappings, huge-page mappings, unmapped and invalid entries, so that no
//! caller descends into a huge page as if it were a page table.
use crate::mm::addr::PhysAddr;
use vstd::prelude::*;

verus! {

/// Marker trait that closes `Level` to the four levels below.
pub trait Sealed {

}

/// Page-table level indexing: levels are numbered from L4 (root, index 3)
/// down to L1 (leaf parent, index 0).
pub trait Level: Sealed {
    /// The VPN index of this level.
    fn index() -> (r: usize)
        ensures
            r < 4,
    ;
}

/// Level 4: PML4 root, index 3.
pub struct L4;

/// Level 3: PDP, index 2.
pub struct L3;

/// Level 2: PD, index 1.
pub struct L2;

/// Level 1: PT, index 0.
pub struct L1;

impl Sealed for L4 {

}

impl Sealed for L3 {

}

impl Sealed for L2 {

}

impl Sealed for L1 {

}

impl Level for L4 {
    fn index() -> (r: usize) {
        3
    }
}

impl Level for L3 {
    fn index() -> (r: usize) {
        2
    }
}

impl Level for L2 {
    fn index() -> (r: usize) {
        1
    }
}

impl Level for L1 {
    fn index() -> (r: usize) {
        0
    }
}

/// Result of a page-table walk for a virtual address.
#[derive(Clone, Copy)]
pub enum WalkResult {
    /// No mapping exists at this address (entry not present).
    NotMapped,
    /// 4 KiB leaf mapping at PT level: the page-aligned frame address and
    /// the raw PTE flags.
    Mapped4K { frame: PhysAddr, flags: u64 },
    /// Huge-page mapping found at `level` (1 = PD/2 MiB, 2 = PDP/1 GiB): the
    /// frame address, aligned to the huge page.
    MappedHuge { frame: PhysAddr, level: usize, size: usize, flags: u64 },
    /// Entry is present but unusable (a zero frame number with PRESENT set,
    /// or a table outside physical memory).
    Invalid,
}

impl WalkResult {
    /// Whether this is a usable mapping (4K or huge).
    pub fn is_mapped(&self) -> (r: bool)
        ensures
            r == (self is Mapped4K || self is MappedHuge),
    {
        match self {
            WalkResult::Mapped4K { .. } => true,
            WalkResult::MappedHuge { .. } => true,
            _ => false,
        }
    }

    /// The translated physical address, if mapped.
    pub fn frame(&self) -> (r: Option<PhysAddr>)
        ensures
            self is Mapped4K ==> r == Some(self->Mapped4K_frame),
            self is MappedHuge ==> r == Some(self->MappedHuge_frame),
            self is NotMapped || self is Invalid ==> r is None,
    {
        match self {
            WalkResult::Mapped4K { frame, .. } => Some(*frame),
            WalkResult::MappedHuge { frame, .. } => Some(*frame),
            _ => None,
        }
    }
}

} // verus!
