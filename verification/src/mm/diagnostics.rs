//! Page-fault diagnostics: the typed fault event and the chain of entries
//! that the walk of an address reads.
use vstd::prelude::*;

use crate::mm::page_table::WalkResult;
use crate::mm::vmm::{pte_huge, pte_ppn, pte_valid, vpn, vpn_s, vread, MemView, PhysMem, FLAG_PRESENT, FLAG_PS, PPN_MASK};

verus! {

/// What kind of access triggered the page fault.
#[derive(Clone, Copy, PartialEq, Eq, Structural)]
pub enum FaultAccess {
    Read,
    Write,
    Execute,
}

impl FaultAccess {
    /// The one-letter name of the access: `R`, `W` or `X`.
    pub fn as_str(&self) -> (r: &'static str)
        ensures
            r@ == match *self {
                FaultAccess::Read => "R"@,
                FaultAccess::Write => "W"@,
                FaultAccess::Execute => "X"@,
            },
    {
        match self {
            FaultAccess::Read => "R",
            FaultAccess::Write => "W",
            FaultAccess::Execute => "X",
        }
    }
}

/// A page fault, with what is known of its context.
pub struct PageFaultEvent {
    pub pid: usize,
    pub slot: usize,
    pub rip: usize,
    pub fault_addr: usize,
    pub access: FaultAccess,
    pub active_cr3: usize,
    pub expected_root: usize,
    pub fs_base: u64,
    pub walk_result: Option<WalkResult>,
    pub vma_prot: Option<usize>,
}

impl PageFaultEvent {
    /// Whether the fault is in the first page (most likely a thread-local
    /// access through a lost base).
    pub fn is_low_address(&self) -> (r: bool)
        ensures
            r == (self.fault_addr < 0x1000),
    {
        self.fault_addr < 0x1000
    }
}

/// The entries read by the walk of an address, level by level (zero below
/// where the walk stopped), how it ended, and the frame it found.
pub struct PteChain {
    pub pml4e: u64,
    pub pdpe: u64,
    pub pde: u64,
    pub pte: u64,
    pub leaf_kind: &'static str,
    pub translated_frame: Option<usize>,
}

/// The value of a `PteChain`, its ending as characters.
pub struct PteChainView {
    pub pml4e: u64,
    pub pdpe: u64,
    pub pde: u64,
    pub pte: u64,
    pub leaf_kind: Seq<char>,
    pub translated_frame: Option<usize>,
}

impl View for PteChain {
    type V = PteChainView;

    open spec fn view(&self) -> PteChainView {
        PteChainView {
            pml4e: self.pml4e,
            pdpe: self.pdpe,
            pde: self.pde,
            pte: self.pte,
            leaf_kind: self.leaf_kind@,
            translated_frame: self.translated_frame,
        }
    }
}

/// The start address of the frame an entry points to.
pub open spec fn entry_frame(e: u64) -> usize {
    (pte_ppn(e) << 12u64) as usize
}

/// The chain of the walk of `va` from the table in frame `root`; `None`
/// when a table on the way is not memory. The walk stops at a missing
/// entry, at a huge page below the root, or at the last level.
pub open spec fn pte_chain(m: MemView, root: u64, va: usize) -> Option<PteChainView> {
    match vread(m, root as int, vpn_s(va, 3)) {
        None => None,
        Some(e4) => if !pte_valid(e4) {
            Some(PteChainView { pml4e: e4, pdpe: 0, pde: 0, pte: 0, leaf_kind: "PML4 NotPresent"@, translated_frame: None })
        } else {
            match vread(m, pte_ppn(e4) as int, vpn_s(va, 2)) {
                None => None,
                Some(e3) => if !pte_valid(e3) {
                    Some(PteChainView { pml4e: e4, pdpe: e3, pde: 0, pte: 0, leaf_kind: "PDP NotPresent"@, translated_frame: None })
                } else if pte_huge(e3) {
                    Some(PteChainView { pml4e: e4, pdpe: e3, pde: 0, pte: 0, leaf_kind: "1GB HugePage"@, translated_frame: Some(entry_frame(e3)) })
                } else {
                    match vread(m, pte_ppn(e3) as int, vpn_s(va, 1)) {
                        None => None,
                        Some(e2) => if !pte_valid(e2) {
                            Some(PteChainView { pml4e: e4, pdpe: e3, pde: e2, pte: 0, leaf_kind: "PD NotPresent"@, translated_frame: None })
                        } else if pte_huge(e2) {
                            Some(PteChainView { pml4e: e4, pdpe: e3, pde: e2, pte: 0, leaf_kind: "2MB HugePage"@, translated_frame: Some(entry_frame(e2)) })
                        } else {
                            match vread(m, pte_ppn(e2) as int, vpn_s(va, 0)) {
                                None => None,
                                Some(e1) => if !pte_valid(e1) {
                                    Some(PteChainView { pml4e: e4, pdpe: e3, pde: e2, pte: e1, leaf_kind: "PT NotPresent"@, translated_frame: None })
                                } else {
                                    Some(PteChainView { pml4e: e4, pdpe: e3, pde: e2, pte: e1, leaf_kind: "4K"@, translated_frame: Some(entry_frame(e1)) })
                                },
                            }
                        },
                    }
                },
            }
        },
    }
}

/// The frame an entry points to, as an address.
fn frame_of(e: u64) -> (r: usize)
    ensures
        r == entry_frame(e),
{
    let a: u64 = ((e >> 12) & PPN_MASK) << 12;
    #[verifier::truncate]
    (a as usize)
}

/// The chain of entries the walk of `vaddr` from the table in frame `root`
/// reads (see `pte_chain`).
pub fn dump_pte_chain(mem: &PhysMem, root: u64, vaddr: usize) -> (r: Option<PteChain>)
    requires
        mem.wf(),
    ensures
        match r {
            None => pte_chain(mem@, root, vaddr) is None,
            Some(c) => pte_chain(mem@, root, vaddr) == Some(c@),
        },
{
    let pml4e = match mem.read_entry(root, vpn(vaddr, 3)) {
        Some(e) => e,
        None => return None,
    };
    if pml4e & FLAG_PRESENT == 0 {
        return Some(PteChain { pml4e, pdpe: 0, pde: 0, pte: 0, leaf_kind: "PML4 NotPresent", translated_frame: None });
    }
    let pdpe = match mem.read_entry((pml4e >> 12) & PPN_MASK, vpn(vaddr, 2)) {
        Some(e) => e,
        None => return None,
    };
    if pdpe & FLAG_PRESENT == 0 {
        return Some(PteChain { pml4e, pdpe, pde: 0, pte: 0, leaf_kind: "PDP NotPresent", translated_frame: None });
    }
    if pdpe & FLAG_PS != 0 {
        return Some(PteChain { pml4e, pdpe, pde: 0, pte: 0, leaf_kind: "1GB HugePage", translated_frame: Some(frame_of(pdpe)) });
    }
    let pde = match mem.read_entry((pdpe >> 12) & PPN_MASK, vpn(vaddr, 1)) {
        Some(e) => e,
        None => return None,
    };
    if pde & FLAG_PRESENT == 0 {
        return Some(PteChain { pml4e, pdpe, pde, pte: 0, leaf_kind: "PD NotPresent", translated_frame: None });
    }
    if pde & FLAG_PS != 0 {
        return Some(PteChain { pml4e, pdpe, pde, pte: 0, leaf_kind: "2MB HugePage", translated_frame: Some(frame_of(pde)) });
    }
    let pte = match mem.read_entry((pde >> 12) & PPN_MASK, vpn(vaddr, 0)) {
        Some(e) => e,
        None => return None,
    };
    if pte & FLAG_PRESENT == 0 {
        return Some(PteChain { pml4e, pdpe, pde, pte, leaf_kind: "PT NotPresent", translated_frame: None });
    }
    Some(PteChain { pml4e, pdpe, pde, pte, leaf_kind: "4K", translated_frame: Some(frame_of(pte)) })
}

} // verus!
