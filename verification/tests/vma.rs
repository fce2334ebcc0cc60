use karte::mm::address_space::{AddressSpaceHandle, PageTableRoot};
use karte::mm::vma::{
    init_root, insert_vma, release_root, reserve_mmap_addr, split_overlapping_vmas, vma_add, vma_check, vma_query,
    VmRegistry, VmState, VmaRegion, MAX_VMAS,
};

#[test]
fn add_query_check() {
    let mut s = VmState::new();
    assert_eq!(s.vma_add(0x1000, 0x5000, 3, false), Ok(()));
    assert_eq!(s.vma_add(0x2000, 0x3000, 1, false), Ok(()));
    assert_eq!(s.vma_query(0x2800), Some(3));
    assert_eq!(s.vma_check(0x2800), Some(1));
    assert_eq!(s.vma_check(0x4800), Some(3));
    assert_eq!(s.vma_check(0x5000), None);
    assert_eq!(s.vma_query(0x5000), None);
}

#[test]
fn prot_none_is_visible_to_query_only() {
    let mut s = VmState::new();
    assert_eq!(s.vma_add(0x1000, 0x2000, 0, false), Ok(()));
    assert_eq!(s.vma_query(0x1800), Some(0));
    assert_eq!(s.vma_check(0x1800), None);
}

#[test]
fn map_fixed_replaces_overlap() {
    let mut s = VmState::new();
    assert_eq!(s.vma_add(0x1000, 0x9000, 3, false), Ok(()));
    assert_eq!(s.vma_add(0x3000, 0x5000, 1, true), Ok(()));
    assert_eq!(s.vma_query(0x2000), Some(3));
    assert_eq!(s.vma_query(0x3000), Some(1));
    assert_eq!(s.vma_query(0x4fff), Some(1));
    assert_eq!(s.vma_query(0x5000), Some(3));
}

#[test]
fn remove_range_keeps_outside_parts() {
    let mut s = VmState::new();
    assert_eq!(s.vma_add(0x1000, 0x9000, 3, false), Ok(()));
    s.vma_remove_range(0x3000, 0x5000);
    assert_eq!(s.vma_query(0x2fff), Some(3));
    assert_eq!(s.vma_query(0x3000), None);
    assert_eq!(s.vma_query(0x5000), Some(3));
    assert!(s.vma_overlaps(0x2000, 0x3001));
    assert!(!s.vma_overlaps(0x3000, 0x5000));
}

#[test]
fn update_prot_on_overlapping_regions() {
    let mut s = VmState::new();
    assert_eq!(s.vma_add(0x1000, 0x2000, 3, false), Ok(()));
    assert_eq!(s.vma_add(0x3000, 0x4000, 3, false), Ok(()));
    s.vma_update_prot(0x1800, 0x3800, 1);
    assert_eq!(s.vma_query(0x1000), Some(1));
    assert_eq!(s.vma_query(0x3000), Some(1));
}

#[test]
fn reserve_moves_below_regions() {
    let mut s = VmState::new();
    let a = s.reserve_mmap_addr(0x1800, 0x1000_0000, 0x2000_0000).unwrap();
    assert_eq!(a, 0x2000_0000 - 0x2000);
    assert_eq!(s.vma_add(a, a + 0x2000, 3, false), Ok(()));
    let b = s.reserve_mmap_addr(0x1000, 0x1000_0000, 0x2000_0000).unwrap();
    assert_eq!(b, a - 0x1000);
    assert!(!s.vma_overlaps(b, b + 0x1000));
    assert_eq!(s.reserve_mmap_addr(0x2000_0000, 0x1000_0000, 0x2000_0000), Err(()));
}

#[test]
fn ensure_mmap_above_and_elf_range() {
    let mut s = VmState::new();
    s.ensure_mmap_above(0x40_1234);
    assert_eq!(s.next_mmap_addr, 0x40_2000);
    assert_eq!(s.max_elf_vaddr, 0x40_2000);
    assert_eq!(s.vma_add(0x40_0000, 0x40_2000, 5, false), Ok(()));
    assert!(s.vma_is_elf(0x40_1000));
    assert!(!s.vma_is_elf(0x40_2000));
    assert!(!s.vma_is_elf(0x3f_f000));
}

#[test]
fn insert_and_split_helpers() {
    let mut v: Vec<VmaRegion> = (0..4).map(|_| VmaRegion::empty()).collect();
    assert_eq!(insert_vma(&mut v, 0x1000, 0x4000, 3), Ok(()));
    assert_eq!(split_overlapping_vmas(&mut v, 0x2000, 0x3000), Ok(()));
    let active: Vec<(usize, usize)> = v.iter().filter(|r| r.active).map(|r| (r.start, r.end)).collect();
    assert_eq!(active.len(), 2);
    assert!(active.contains(&(0x1000, 0x2000)));
    assert!(active.contains(&(0x3000, 0x4000)));
    let mut full: Vec<VmaRegion> = Vec::new();
    assert_eq!(insert_vma(&mut full, 0x1000, 0x2000, 3), Err(()));
}

#[test]
fn table_has_fixed_capacity() {
    let s = VmState::new();
    assert_eq!(s.vmas.len(), MAX_VMAS);
}

#[test]
fn registry_roots() {
    let mut reg = VmRegistry::new(2, 0x1000_0000, 0x2000_0000);
    assert_eq!(init_root(&mut reg, 0), Err(()));
    assert_eq!(init_root(&mut reg, 0x5000), Ok(()));
    assert_eq!(vma_add(&mut reg, 0x5000, 0x1000, 0x2000, 3, false), Ok(()));
    assert_eq!(vma_query(&reg, 0x5000, 0x1000), Some(3));
    assert_eq!(vma_check(&reg, 0x6000, 0x1000), None);
    assert_eq!(vma_add(&mut reg, 0x6000, 0x1000, 0x2000, 3, false), Err(()));
    let a = reserve_mmap_addr(&mut reg, 0x5000, 0x1000).unwrap();
    assert_eq!(a, 0x2000_0000 - 0x1000);
    assert_eq!(init_root(&mut reg, 0x7000), Ok(()));
    assert_eq!(init_root(&mut reg, 0x8000), Err(()));
    release_root(&mut reg, 0x5000);
    assert_eq!(vma_query(&reg, 0x5000, 0x1000), None);
    assert_eq!(init_root(&mut reg, 0x8000), Ok(()));
}

#[test]
fn address_space_handle() {
    let mut reg = VmRegistry::new(4, 0x1000_0000, 0x2000_0000);
    let root = PageTableRoot::new(0x9000);
    assert_eq!(root.ppn(), 9);
    assert!(!root.is_null());
    assert!(PageTableRoot::new(0).is_null());
    let h = AddressSpaceHandle::init(&mut reg, root).unwrap();
    assert_eq!(h.root().as_usize(), 0x9000);
    assert_eq!(h.vma_add(&mut reg, 0x1000, 0x3000, 7, false), Ok(()));
    assert_eq!(h.vma_check(&reg, 0x2000), Some(7));
    h.vma_update_prot(&mut reg, 0x1000, 0x3000, 1);
    assert_eq!(h.vma_query(&reg, 0x2000), Some(1));
    let other = AddressSpaceHandle::from_existing(PageTableRoot::new(0xa000));
    assert_eq!(other.vma_query(&reg, 0x2000), None);
    assert_eq!(other.clone_from(&mut reg, &h), Ok(()));
    assert_eq!(other.vma_query(&reg, 0x2000), Some(1));
    h.vma_remove_range(&mut reg, 0x1000, 0x3000);
    assert_eq!(h.vma_query(&reg, 0x2000), None);
    assert_eq!(other.vma_query(&reg, 0x2000), Some(1));
    h.release(&mut reg);
    assert!(AddressSpaceHandle::init(&mut reg, PageTableRoot::new(0)).is_err());
}

#[test]
fn full_table_removal_without_split_succeeds() {
    let mut v: Vec<VmaRegion> = (0..2).map(|_| VmaRegion::empty()).collect();
    assert_eq!(insert_vma(&mut v, 0x1000, 0x3000, 3), Ok(()));
    assert_eq!(insert_vma(&mut v, 0x5000, 0x6000, 1), Ok(()));
    assert_eq!(split_overlapping_vmas(&mut v, 0x2000, 0x5800), Ok(()));
    let active: Vec<(usize, usize)> = v.iter().filter(|r| r.active).map(|r| (r.start, r.end)).collect();
    assert_eq!(active, vec![(0x1000, 0x2000), (0x5800, 0x6000)]);
}

#[test]
fn full_table_split_fails() {
    let mut v: Vec<VmaRegion> = (0..1).map(|_| VmaRegion::empty()).collect();
    assert_eq!(insert_vma(&mut v, 0x1000, 0x4000, 3), Ok(()));
    assert_eq!(split_overlapping_vmas(&mut v, 0x2000, 0x3000), Err(()));
    let mut w: Vec<VmaRegion> = (0..2).map(|_| VmaRegion::empty()).collect();
    assert_eq!(insert_vma(&mut w, 0x1000, 0x4000, 3), Ok(()));
    assert_eq!(split_overlapping_vmas(&mut w, 0x2000, 0x3000), Ok(()));
}

#[test]
fn successive_reservations_descend() {
    let mut s = VmState::new();
    let a = s.reserve_mmap_addr(0x3000, 0x1000_0000, 0x2000_0000).unwrap();
    let b = s.reserve_mmap_addr(0x2000, 0x1000_0000, 0x2000_0000).unwrap();
    assert_eq!(a, 0x2000_0000 - 0x3000);
    assert!(b + 0x2000 <= a);
    assert_eq!(s.vma_add(b - 0x1000, b, 3, false), Ok(()));
    let c = s.reserve_mmap_addr(0x1000, 0x1000_0000, 0x2000_0000).unwrap();
    assert_eq!(c, b - 0x2000);
}

#[test]
fn clone_answers_like_source() {
    let mut reg = VmRegistry::new(4, 0x1000_0000, 0x2000_0000);
    assert_eq!(init_root(&mut reg, 0x5000), Ok(()));
    assert_eq!(vma_add(&mut reg, 0x5000, 0x1000, 0x3000, 3, false), Ok(()));
    assert_eq!(vma_add(&mut reg, 0x5000, 0x8000, 0x9000, 0, false), Ok(()));
    assert_eq!(karte::mm::vma::clone_root_state(&mut reg, 0x5000, 0x6000), Ok(()));
    for a in [0x0usize, 0x1000, 0x2fff, 0x3000, 0x8000, 0x8800, 0x9000] {
        assert_eq!(vma_query(&reg, 0x6000, a), vma_query(&reg, 0x5000, a));
        assert_eq!(vma_check(&reg, 0x6000, a), vma_check(&reg, 0x5000, a));
    }
    assert_eq!(vma_add(&mut reg, 0x6000, 0x1000, 0x2000, 1, true), Ok(()));
    assert_eq!(vma_query(&reg, 0x6000, 0x1000), Some(1));
    assert_eq!(vma_query(&reg, 0x5000, 0x1000), Some(3));
    assert_eq!(karte::mm::vma::clone_root_state(&mut reg, 0x7777, 0x8000), Err(()));
}
