//! Per-process address space handles.
//!
//! An `AddressSpaceHandle` bundles a page table root with the VMA state the
//! registry keeps for that root.
use crate::mm::addr::PhysAddr;
use crate::mm::vma::{
    VmRegistry,
    VmState,
    is_slot_of,
    registered,
    only_state_changed,
    vma_add_post,
    check_result,
    query_result,
    no_new_coverage,
    hole_punched,
    all_active,
    overlaps,
    page_align_up,
    align_down,
    sat_sub,
    all_slots_active,
    holds_root,
    MAX_VMAS,
    VmaRegion,
};
use vstd::prelude::*;

verus! {

/// Typed page table root: the physical address of the top-level table.
#[derive(Clone, Copy)]
pub struct PageTableRoot(pub PhysAddr);

impl PageTableRoot {
    /// Create from a raw physical address.
    pub fn new(raw: usize) -> (r: Self)
        ensures
            r.0@ == raw,
    {
        PageTableRoot(PhysAddr::new_unchecked(raw))
    }

    /// The raw physical address.
    pub fn as_usize(self) -> (r: usize)
        ensures
            r == self.0@,
    {
        self.0.as_usize()
    }

    /// Physical page number (for CR3 loading).
    pub fn ppn(self) -> (r: usize)
        ensures
            r == self.0@ / 4096,
    {
        self.0.ppn()
    }

    /// Whether this is the null root.
    pub fn is_null(self) -> (r: bool)
        ensures
            r == (self.0@ == 0),
    {
        self.0.as_usize() == 0
    }
}

/// Handle to an address space: its page table root. The VMA state of the
/// root lives in the registry each method is given.
#[derive(Clone, Copy)]
pub struct AddressSpaceHandle {
    pub root: PageTableRoot,
}

impl AddressSpaceHandle {
    /// The raw root this handle names.
    pub open spec fn key(&self) -> usize {
        self.root.0@
    }

    /// Create a handle for `root` and register its VMA state. `Err` when
    /// the registry refuses the root (null root or no free slot).
    pub fn init(reg: &mut VmRegistry, root: PageTableRoot) -> (r: Result<Self, ()>)
        requires
            old(reg).wf(),
        ensures
            final(reg).wf(),
            final(reg).mmap_base == old(reg).mmap_base,
            final(reg).mmap_limit == old(reg).mmap_limit,
            r is Ok <==> root.0@ != 0 && (registered(old(reg).slots@, root.0@) || !all_slots_active(
                old(reg).slots@,
            )),
            r matches Ok(h) ==> h.root == root && exists|i: int|
                #![trigger final(reg).slots@[i]]
                is_slot_of(final(reg).slots@, root.0@, i)
                    && final(reg).slots@[i].state.is_empty_state(),
            r is Err ==> final(reg).slots@ == old(reg).slots@,
    {
        let res = crate::mm::vma::init_root(reg, root.as_usize());
        match res {
            Ok(()) => Ok(AddressSpaceHandle { root }),
            Err(()) => Err(()),
        }
    }

    /// A handle for a root whose state is already registered.
    pub fn from_existing(root: PageTableRoot) -> (r: Self)
        ensures
            r.root == root,
    {
        AddressSpaceHandle { root }
    }

    /// The page table root.
    pub fn root(&self) -> (r: PageTableRoot)
        ensures
            r == self.root,
    {
        self.root
    }

    /// See `vma::vma_check`.
    pub fn vma_check(&self, reg: &VmRegistry, addr: usize) -> (r: Option<usize>)
        ensures
            !registered(reg.slots@, self.key()) ==> r is None,
            forall|i: int|
                #[trigger] is_slot_of(reg.slots@, self.key(), i) ==> check_result(
                    reg.slots@[i].state.vmas@,
                    addr as int,
                    r,
                ),
    {
        crate::mm::vma::vma_check(reg, self.root.as_usize(), addr)
    }

    /// See `vma::vma_query`.
    pub fn vma_query(&self, reg: &VmRegistry, addr: usize) -> (r: Option<usize>)
        ensures
            !registered(reg.slots@, self.key()) ==> r is None,
            forall|i: int|
                #[trigger] is_slot_of(reg.slots@, self.key(), i) ==> query_result(
                    reg.slots@[i].state.vmas@,
                    addr as int,
                    r,
                ),
    {
        crate::mm::vma::vma_query(reg, self.root.as_usize(), addr)
    }

    /// See `vma::vma_add`.
    pub fn vma_add(
        &self,
        reg: &mut VmRegistry,
        start: usize,
        end: usize,
        prot: usize,
        is_fixed: bool,
    ) -> (r: Result<(), ()>)
        requires
            old(reg).wf(),
        ensures
            final(reg).wf(),
            final(reg).mmap_base == old(reg).mmap_base,
            final(reg).mmap_limit == old(reg).mmap_limit,
            !registered(old(reg).slots@, self.key()) ==> r is Err && final(reg).slots@ == old(
                reg,
            ).slots@,
            forall|i: int|
                #[trigger] is_slot_of(old(reg).slots@, self.key(), i) ==> only_state_changed(
                    old(reg).slots@,
                    final(reg).slots@,
                    i,
                ) && vma_add_post(
                    old(reg).slots@[i].state,
                    final(reg).slots@[i].state,
                    start,
                    end,
                    prot,
                    is_fixed,
                    r,
                ),
    {
        crate::mm::vma::vma_add(reg, self.root.as_usize(), start, end, prot, is_fixed)
    }

    /// See `vma::vma_remove_range`.
    pub fn vma_remove_range(&self, reg: &mut VmRegistry, start: usize, end: usize)
        requires
            old(reg).wf(),
        ensures
            final(reg).wf(),
            final(reg).mmap_base == old(reg).mmap_base,
            final(reg).mmap_limit == old(reg).mmap_limit,
            !registered(old(reg).slots@, self.key()) ==> final(reg).slots@ == old(reg).slots@,
            forall|i: int|
                #[trigger] is_slot_of(old(reg).slots@, self.key(), i) ==> {
                    let o = old(reg).slots@[i].state;
                    let n = final(reg).slots@[i].state;
                    &&& only_state_changed(old(reg).slots@, final(reg).slots@, i)
                    &&& n.wf()
                    &&& n.next_mmap_addr == o.next_mmap_addr
                    &&& n.max_elf_vaddr == o.max_elf_vaddr
                    &&& no_new_coverage(o.vmas@, n.vmas@)
                    &&& hole_punched(o.vmas@, n.vmas@, start as int, end as int) || all_active(
                        n.vmas@,
                    )
                },
    {
        crate::mm::vma::vma_remove_range(reg, self.root.as_usize(), start, end)
    }

    /// See `vma::vma_update_prot`.
    pub fn vma_update_prot(&self, reg: &mut VmRegistry, start: usize, end: usize, new_prot: usize)
        requires
            old(reg).wf(),
        ensures
            final(reg).wf(),
            final(reg).mmap_base == old(reg).mmap_base,
            final(reg).mmap_limit == old(reg).mmap_limit,
            !registered(old(reg).slots@, self.key()) ==> final(reg).slots@ == old(reg).slots@,
            forall|i: int|
                #[trigger] is_slot_of(old(reg).slots@, self.key(), i) ==> {
                    let o = old(reg).slots@[i].state;
                    let n = final(reg).slots@[i].state;
                    &&& only_state_changed(old(reg).slots@, final(reg).slots@, i)
                    &&& n.wf()
                    &&& n.next_mmap_addr == o.next_mmap_addr
                    &&& n.max_elf_vaddr == o.max_elf_vaddr
                    &&& forall|j: int|
                        0 <= j < MAX_VMAS ==> #[trigger] n.vmas@[j] == if overlaps(
                            o.vmas@[j],
                            start as int,
                            end as int,
                        ) {
                            VmaRegion { prot: new_prot, ..o.vmas@[j] }
                        } else {
                            o.vmas@[j]
                        }
                },
    {
        crate::mm::vma::vma_update_prot(reg, self.root.as_usize(), start, end, new_prot)
    }

    /// See `vma::ensure_mmap_above`.
    pub fn ensure_mmap_above(&self, reg: &mut VmRegistry, addr: usize)
        requires
            old(reg).wf(),
            addr <= usize::MAX - 4095,
        ensures
            final(reg).wf(),
            final(reg).mmap_base == old(reg).mmap_base,
            final(reg).mmap_limit == old(reg).mmap_limit,
            !registered(old(reg).slots@, self.key()) ==> final(reg).slots@ == old(reg).slots@,
            forall|i: int|
                #[trigger] is_slot_of(old(reg).slots@, self.key(), i) ==> {
                    let o = old(reg).slots@[i].state;
                    let n = final(reg).slots@[i].state;
                    &&& only_state_changed(old(reg).slots@, final(reg).slots@, i)
                    &&& n.vmas@ == o.vmas@
                    &&& n.next_mmap_addr as int == if o.next_mmap_addr < page_align_up(addr as int) {
                        page_align_up(addr as int)
                    } else {
                        o.next_mmap_addr as int
                    }
                    &&& n.max_elf_vaddr as int == if o.max_elf_vaddr < page_align_up(addr as int) {
                        page_align_up(addr as int)
                    } else {
                        o.max_elf_vaddr as int
                    }
                },
    {
        crate::mm::vma::ensure_mmap_above(reg, self.root.as_usize(), addr)
    }

    /// See `vma::reserve_mmap_addr`.
    pub fn reserve_mmap_addr(&self, reg: &mut VmRegistry, size: usize) -> (r: Result<usize, ()>)
        requires
            old(reg).wf(),
            size <= usize::MAX - 4095,
        ensures
            final(reg).wf(),
            final(reg).mmap_base == old(reg).mmap_base,
            final(reg).mmap_limit == old(reg).mmap_limit,
            !registered(old(reg).slots@, self.key()) ==> r is Err && final(reg).slots@ == old(
                reg,
            ).slots@,
            forall|i: int|
                #[trigger] is_slot_of(old(reg).slots@, self.key(), i) ==> {
                    let o = old(reg).slots@[i].state;
                    let n = final(reg).slots@[i].state;
                    &&& only_state_changed(old(reg).slots@, final(reg).slots@, i)
                    &&& n.vmas@ == o.vmas@
                    &&& n.max_elf_vaddr == o.max_elf_vaddr
                    &&& r matches Ok(c) ==> {
                        &&& c % 4096 == 0
                        &&& old(reg).mmap_base <= c
                        &&& c + page_align_up(size as int) <= usize::MAX
                        &&& n.next_mmap_addr == c
                        &&& forall|j: int|
                            0 <= j < MAX_VMAS ==> !#[trigger] overlaps(
                                n.vmas@[j],
                                c as int,
                                c + page_align_up(size as int),
                            )
                    }
                    &&& r is Err ==> align_down(
                        sat_sub(n.next_mmap_addr as int, page_align_up(size as int)),
                    ) < old(reg).mmap_base
                },
    {
        crate::mm::vma::reserve_mmap_addr(reg, self.root.as_usize(), size)
    }

    /// See `vma::release_root`.
    pub fn release(&self, reg: &mut VmRegistry)
        requires
            old(reg).wf(),
        ensures
            final(reg).wf(),
            final(reg).mmap_base == old(reg).mmap_base,
            final(reg).mmap_limit == old(reg).mmap_limit,
            final(reg).slots@.len() == old(reg).slots@.len(),
            self.key() == 0 || !registered(old(reg).slots@, self.key()) ==> final(reg).slots@
                == old(reg).slots@,
            self.key() != 0 ==> forall|i: int|
                #![trigger old(reg).slots@[i]]
                is_slot_of(old(reg).slots@, self.key(), i) ==> !final(reg).slots@[i].active
                    && final(reg).slots@[i].root == 0 && final(reg).slots@[i].state.is_empty_state()
                    && forall|j: int|
                    0 <= j < old(reg).slots@.len() && j != i ==> #[trigger] final(reg).slots@[j]
                        == old(reg).slots@[j],
    {
        crate::mm::vma::release_root(reg, self.root.as_usize())
    }

    /// Copy the VMA state of `src` into this address space (on fork). See
    /// `vma::clone_root_state`.
    pub fn clone_from(&self, reg: &mut VmRegistry, src: &AddressSpaceHandle) -> (r: Result<(), ()>)
        requires
            old(reg).wf(),
        ensures
            final(reg).wf(),
            final(reg).mmap_base == old(reg).mmap_base,
            final(reg).mmap_limit == old(reg).mmap_limit,
            final(reg).slots@.len() == old(reg).slots@.len(),
            r is Ok <==> src.key() != 0 && self.key() != 0 && registered(old(reg).slots@, src.key())
                && !all_slots_active(old(reg).slots@),
            r is Err ==> final(reg).slots@ == old(reg).slots@,
            r is Ok ==> exists|s: int, d: int|
                #![trigger old(reg).slots@[s], final(reg).slots@[d]]
                holds_root(old(reg).slots@, src.key(), s) && 0 <= d < old(reg).slots@.len()
                    && !old(reg).slots@[d].active && final(reg).slots@[d].active
                    && final(reg).slots@[d].root == self.key() && final(reg).slots@[d].state.vmas@
                    == old(reg).slots@[s].state.vmas@ && final(reg).slots@[d].state.next_mmap_addr
                    == old(reg).slots@[s].state.next_mmap_addr
                    && final(reg).slots@[d].state.max_elf_vaddr == old(
                    reg,
                ).slots@[s].state.max_elf_vaddr && forall|j: int|
                    0 <= j < old(reg).slots@.len() && j != d ==> #[trigger] final(reg).slots@[j]
                        == old(reg).slots@[j],
    {
        crate::mm::vma::clone_root_state(reg, src.root.as_usize(), self.root.as_usize())
    }

    /// See `vma::register_elf_vma`.
    pub fn register_elf_vma(&self, reg: &mut VmRegistry, start: usize, end: usize, prot: usize)
        requires
            old(reg).wf(),
        ensures
            final(reg).wf(),
            final(reg).mmap_base == old(reg).mmap_base,
            final(reg).mmap_limit == old(reg).mmap_limit,
            !registered(old(reg).slots@, self.key()) ==> final(reg).slots@ == old(reg).slots@,
            forall|i: int|
                #[trigger] is_slot_of(old(reg).slots@, self.key(), i) ==> only_state_changed(
                    old(reg).slots@,
                    final(reg).slots@,
                    i,
                ) && exists|r: Result<(), ()>|
                    vma_add_post(
                        old(reg).slots@[i].state,
                        final(reg).slots@[i].state,
                        start,
                        end,
                        prot,
                        false,
                        r,
                    ),
    {
        crate::mm::vma::register_elf_vma(reg, self.root.as_usize(), start, end, prot)
    }
}

} // verus!
