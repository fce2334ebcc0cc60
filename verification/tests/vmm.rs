use karte::mm::diagnostics::{dump_pte_chain, FaultAccess, PageFaultEvent};
use karte::mm::mapping::{
    can_map, create_user_page_table, free_user_page_table, identity_map, identity_map_2mb, identity_map_skip, map_user,
    set_all_ad_bits,
};
use karte::mm::page_table::WalkResult;
use karte::mm::vmm::{
    debug_pte, mprotect_user, or_pte_flags, translate_user, unmap_user, walk_mapping, PTEFlags, PageTable, PhysMem,
    FLAG_ACCESSED, FLAG_DIRTY, FLAG_PRESENT, FLAG_PS, FLAG_USER, PTE,
};

const MB: usize = 1024 * 1024;

fn setup(frames: usize) -> (PhysMem, Vec<u64>, u64) {
    let mut mem = PhysMem::new(1, frames);
    let mut free: Vec<u64> = (2..(1 + frames as u64)).collect();
    let root = create_user_page_table(&mut mem, &mut free).unwrap();
    (mem, free, root)
}

#[test]
fn vmm_create_page_table() {
    let (mem, free, root) = setup(16);
    assert_eq!(root, 16);
    assert_eq!(free.len(), 14);
    assert_eq!(mem.read_entry(root, 0), Some(0));
}

#[test]
fn create_fails_without_frames() {
    let mut mem = PhysMem::new(1, 4);
    let mut none: Vec<u64> = Vec::new();
    assert_eq!(create_user_page_table(&mut mem, &mut none), None);
    let mut outside = vec![99u64];
    assert_eq!(create_user_page_table(&mut mem, &mut outside), None);
    assert_eq!(outside, vec![99]);
}

#[test]
fn vmm_map_single_page() {
    let (mut mem, mut free, root) = setup(16);
    let a = 0x0040_0000usize;
    assert!(karte::mm::mapping::map(&mut mem, &mut free, root, a, a, PTEFlags::krw()));
    assert_eq!(translate_user(&mem, root, a), Some(a));
    assert_eq!(translate_user(&mem, root, a + 0x123), Some(a + 0x123));
    assert_eq!(translate_user(&mem, root, a + 0x1000), None);
    assert_eq!(free.len(), 14 - 3);
}

#[test]
fn vmm_pte_flags_present() {
    assert!(PTE::new(0x100, PTEFlags::krw()).is_valid());
    assert!(!PTE(0).is_valid());
}

#[test]
fn vmm_pte_ppn() {
    let p = PTE::new(0xABCD, PTEFlags::krw());
    assert_eq!(p.ppn(), 0xABCD);
    assert_eq!(PTE(0xff_ffff_ffff_f000).ppn(), 0xff_ffff_ffff);
    assert!(p.is_leaf_at_level(0));
    assert!(!p.is_leaf_at_level(1));
    assert_eq!(p.flags().bits(), 3);
}

#[test]
fn page_table_entries() {
    let mut t = PageTable::zeroed();
    assert_eq!(t.entries.len(), 512);
    t.set_entry(7, PTE::new_nonleaf(9));
    assert_eq!(t.entry(7).0, (9 << 12) | 7);
    assert_eq!(t.entry(6).0, 0);
}

#[test]
fn map_refuses_without_fresh_frames() {
    let (mut mem, _, root) = setup(8);
    let mut few = vec![2u64, 3];
    assert!(!can_map(&mem, &few, root, 0x1000));
    assert!(!karte::mm::mapping::map(&mut mem, &mut few, root, 0x1000, 0x1000, PTEFlags::krw()));
    assert_eq!(few, vec![2, 3]);
    let mut dup = vec![2u64, 3, 3];
    assert!(!karte::mm::mapping::map(&mut mem, &mut dup, root, 0x1000, 0x1000, PTEFlags::krw()));
    let mut has_root = vec![2u64, root, 3];
    assert!(!karte::mm::mapping::map(&mut mem, &mut has_root, root, 0x1000, 0x1000, PTEFlags::krw()));
    assert_eq!(translate_user(&mem, root, 0x1000), None);
}

#[test]
fn vmm_map_does_not_clobber_code_frame() {
    let (mut mem, free0, root) = setup(32);
    let code = 20u64;
    let mut free: Vec<u64> = free0.into_iter().filter(|f| *f != code).collect();
    let magic = 0xDEAD_BEEF_CAFE_BABEu64;
    mem.write_entry(code, 0, magic);
    let code_paddr = (code as usize) << 12;
    assert!(karte::mm::mapping::map(&mut mem, &mut free, root, 0x40_0000, code_paddr, PTEFlags::urw()));
    assert_eq!(translate_user(&mem, root, 0x40_0000), Some(code_paddr));
    assert!(karte::mm::mapping::map(&mut mem, &mut free, root, 0x2000_0000, 0x7000, PTEFlags::urw()));
    assert_eq!(mem.read_entry(code, 0), Some(magic));
}

#[test]
fn vmm_map_preserves_all_existing_mappings() {
    let (mut mem, free0, root) = setup(64);
    let codes = [40u64, 41, 42, 43];
    let mut free: Vec<u64> = free0.into_iter().filter(|f| !codes.contains(f)).collect();
    for (i, c) in codes.iter().enumerate() {
        mem.write_entry(*c, 0, 0xA000_0000_0000_0000 | i as u64);
        assert!(karte::mm::mapping::map(&mut mem, &mut free, root, 0x40_0000 + i * 4096, (*c as usize) << 12, PTEFlags::urw()));
    }
    for j in 0..8usize {
        assert!(karte::mm::mapping::map(&mut mem, &mut free, root, 0x2000_0000 + j * 4096, 0x80_0000 + j * 4096, PTEFlags::urw()));
    }
    for (i, c) in codes.iter().enumerate() {
        assert_eq!(mem.read_entry(*c, 0), Some(0xA000_0000_0000_0000 | i as u64));
        assert_eq!(translate_user(&mem, root, 0x40_0000 + i * 4096), Some((*c as usize) << 12));
    }
}

#[test]
fn vmm_walk_mapping_returns_mapped_huge() {
    let (mut mem, mut free, root) = setup(16);
    assert!(identity_map_2mb(&mut mem, &mut free, root, 0, 8 * MB, PTEFlags::krw()));
    assert_eq!(translate_user(&mem, root, 0x40_0000), Some(0x40_0000));
    match walk_mapping(&mem, root, 0x40_1000) {
        WalkResult::MappedHuge { size, level, frame, flags } => {
            assert_eq!(size, 2 * MB);
            assert_eq!(level, 1);
            assert_eq!(frame.as_usize(), 0x40_0000);
            assert_eq!(flags, 3 | FLAG_PS);
        }
        _ => panic!("expected a huge mapping"),
    }
}

#[test]
fn vmm_map_split_2mb_stops_at_pt_level() {
    let (mut mem, mut free, root) = setup(16);
    assert!(identity_map_2mb(&mut mem, &mut free, root, 0, 8 * MB, PTEFlags::krw()));
    let frame = 0x1234_5000usize;
    assert!(map_user(&mut mem, &mut free, root, 0x40_1000, frame, PTEFlags::ur()));
    assert_eq!(translate_user(&mem, root, 0x40_1000), Some(frame));
    assert_eq!(translate_user(&mem, root, 0x40_2000), Some(0x40_2000));
    assert_eq!(translate_user(&mem, root, 0x5f_f000), Some(0x5f_f000));
    match walk_mapping(&mem, root, 0x40_1000) {
        WalkResult::Mapped4K { frame: f, .. } => assert_eq!(f.as_usize(), frame),
        _ => panic!("expected a 4K mapping"),
    }
}

#[test]
fn vmm_mprotect_does_not_descend_into_huge_page() {
    let (mut mem, mut free, root) = setup(16);
    assert!(identity_map_2mb(&mut mem, &mut free, root, 0, 8 * MB, PTEFlags::krw()));
    let before = translate_user(&mem, root, 0x40_1000);
    assert!(!mprotect_user(&mut mem, root, 0x40_1000, PTEFlags::ur()));
    assert_eq!(translate_user(&mem, root, 0x40_1000), before);
}

#[test]
fn vmm_walk_mapping_not_mapped() {
    let (mem, _, root) = setup(8);
    assert!(matches!(walk_mapping(&mem, root, 0x40_0000), WalkResult::NotMapped));
}

#[test]
fn unmap_then_translate_none() {
    let (mut mem, mut free, root) = setup(16);
    assert!(karte::mm::mapping::map(&mut mem, &mut free, root, 0x40_0000, 0x9000, PTEFlags::urw()));
    assert_eq!(unmap_user(&mut mem, root, 0x40_0abc), Some(0x9abc));
    assert_eq!(translate_user(&mem, root, 0x40_0000), None);
    assert_eq!(unmap_user(&mut mem, root, 0x40_0000), None);
}

#[test]
fn mprotect_and_or_flags_keep_frame() {
    let (mut mem, mut free, root) = setup(16);
    assert!(karte::mm::mapping::map(&mut mem, &mut free, root, 0x40_0000, 0x9000, PTEFlags::krw()));
    assert!(mprotect_user(&mut mem, root, 0x40_0000, PTEFlags::ur()));
    assert_eq!(debug_pte(&mem, root, 0x40_0000), Some(0x9000 | 5));
    assert!(or_pte_flags(&mut mem, root, 0x40_0000, PTEFlags::from_bits_truncate(FLAG_DIRTY)));
    assert_eq!(debug_pte(&mem, root, 0x40_0000), Some(0x9000 | 5 | FLAG_DIRTY));
    assert_eq!(translate_user(&mem, root, 0x40_0000), Some(0x9000));
    assert!(!or_pte_flags(&mut mem, root, 0x80_0000, PTEFlags::krw()));
    assert_eq!(debug_pte(&mem, root, 0x80_0000), None);
}

#[test]
fn map_user_sets_user_bit_on_the_way() {
    let (mut mem, mut free, root) = setup(16);
    assert!(identity_map(&mut mem, &mut free, root, 0x40_0000, 0x40_1000, PTEFlags::krw()));
    assert!(map_user(&mut mem, &mut free, root, 0x40_0000, 0x9000, PTEFlags::urw()));
    let chain = dump_pte_chain(&mem, root, 0x40_0000).unwrap();
    assert_ne!(chain.pml4e & FLAG_USER, 0);
    assert_ne!(chain.pdpe & FLAG_USER, 0);
    assert_eq!(chain.pte, 0x9000 | 7);
    assert_eq!(chain.leaf_kind, "4K");
    assert_eq!(chain.translated_frame, Some(0x9000));
}

#[test]
fn identity_maps_ranges() {
    let (mut mem, mut free, root) = setup(16);
    assert!(identity_map(&mut mem, &mut free, root, 0x40_0010, 0x40_2001, PTEFlags::krw()));
    for a in [0x40_0000usize, 0x40_1000, 0x40_2000] {
        assert_eq!(translate_user(&mem, root, a), Some(a));
    }
    assert_eq!(translate_user(&mem, root, 0x40_3000), None);
    assert!(identity_map(&mut mem, &mut free, root, 0x5000, 0x5000, PTEFlags::krw()));
}

#[test]
fn identity_map_skip_leaves_loaded_pages() {
    let (mut mem, mut free, root) = setup(16);
    assert!(karte::mm::mapping::map(&mut mem, &mut free, root, 0x40_1000, 0x7000, PTEFlags::urw()));
    assert_eq!(identity_map_skip(&mut mem, &mut free, root, 0x40_0000, 0x40_3000, PTEFlags::krw()), Some((2, 1)));
    assert_eq!(translate_user(&mem, root, 0x40_1000), Some(0x7000));
    assert_eq!(translate_user(&mem, root, 0x40_2000), Some(0x40_2000));
    assert_eq!(identity_map_skip(&mut mem, &mut free, root, 0x9000, 0x9000, PTEFlags::krw()), Some((0, 0)));
}

#[test]
fn pte_chain_reports_where_walk_stops() {
    let (mut mem, mut free, root) = setup(16);
    let c = dump_pte_chain(&mem, root, 0x40_0000).unwrap();
    assert_eq!(c.leaf_kind, "PML4 NotPresent");
    assert_eq!((c.pml4e, c.pdpe, c.pde, c.pte), (0, 0, 0, 0));
    assert!(identity_map_2mb(&mut mem, &mut free, root, 0, 2 * MB, PTEFlags::krw()));
    let c = dump_pte_chain(&mem, root, 0x1000).unwrap();
    assert_eq!(c.leaf_kind, "2MB HugePage");
    assert_eq!(c.translated_frame, Some(0));
    let c = dump_pte_chain(&mem, root, 0x40_0000).unwrap();
    assert_eq!(c.leaf_kind, "PD NotPresent");
    let c = dump_pte_chain(&mem, root, 0x80_0000_0000).unwrap();
    assert_eq!(c.leaf_kind, "PML4 NotPresent");
    assert!(dump_pte_chain(&mem, 999, 0).is_none());
}

#[test]
fn set_all_ad_bits_on_present_root_entries() {
    let (mut mem, mut free, root) = setup(16);
    assert!(karte::mm::mapping::map(&mut mem, &mut free, root, 0x40_0000, 0x9000, PTEFlags::krw()));
    let e = mem.read_entry(root, 0).unwrap();
    assert!(set_all_ad_bits(&mut mem, root));
    let e2 = mem.read_entry(root, 0).unwrap();
    assert_eq!(e2, e | FLAG_ACCESSED | FLAG_DIRTY);
    assert_eq!(mem.read_entry(root, 1), Some(0));
    assert!(!set_all_ad_bits(&mut mem, 999));
}

#[test]
fn free_user_page_table_returns_tables_and_user_pages() {
    let (mut mem, mut free, root) = setup(16);
    let before = free.len();
    assert!(karte::mm::mapping::map(&mut mem, &mut free, root, 0x40_0000, 0x9000, PTEFlags::urw()));
    assert!(karte::mm::mapping::map(&mut mem, &mut free, root, 0x40_1000, 0xa000, PTEFlags::krw()));
    let tables: Vec<u64> = (free.len() as u64 + 2..before as u64 + 2).rev().collect();
    let mut released: Vec<u64> = Vec::new();
    free_user_page_table(&mem, &mut released, root);
    assert_eq!(released, vec![9, tables[2], tables[1], tables[0], root]);
}

#[test]
fn page_fault_event_helpers() {
    assert_eq!(FaultAccess::Read.as_str(), "R");
    assert_eq!(FaultAccess::Write.as_str(), "W");
    assert_eq!(FaultAccess::Execute.as_str(), "X");
    let ev = PageFaultEvent {
        pid: 1,
        slot: 0,
        rip: 0x40_1000,
        fault_addr: 0x8,
        access: FaultAccess::Read,
        active_cr3: 0x1000,
        expected_root: 0x1000,
        fs_base: 0,
        walk_result: None,
        vma_prot: None,
    };
    assert!(ev.is_low_address());
    let ev2 = PageFaultEvent { fault_addr: 0x1000, ..ev };
    assert!(!ev2.is_low_address());
    let _ = FLAG_PRESENT;
}

fn take(free: &mut Vec<u64>, ppn: u64) -> usize {
    free.retain(|f| *f != ppn);
    (ppn as usize) << 12
}

#[test]
fn vmm_huge_page_split_preserves_data() {
    let (mut mem, mut free, root) = setup(64);
    assert!(identity_map_2mb(&mut mem, &mut free, root, 0, 8 * MB, PTEFlags::krw()));
    assert_eq!(translate_user(&mem, root, 0x40_0000), Some(0x40_0000));
    let code = take(&mut free, 40);
    let magic = 0xFEED_FACE_CAFE_BEEFu64;
    mem.write_entry(40, 0, magic);
    assert!(map_user(&mut mem, &mut free, root, 0x40_1000, code, PTEFlags::urw()));
    assert_eq!(mem.read_entry(40, 0), Some(magic));
    let code2 = take(&mut free, 41);
    let magic2 = 0x1234_5678_ABCD_EF01u64;
    mem.write_entry(41, 0, magic2);
    assert!(map_user(&mut mem, &mut free, root, 0x40_2000, code2, PTEFlags::urw()));
    let far = take(&mut free, 42);
    for i in 0..512usize {
        mem.write_entry(42, i, 0xAFAF_AFAF_AFAF_AFAF);
    }
    assert!(map_user(&mut mem, &mut free, root, 0x2000_0000, far, PTEFlags::urw()));
    assert_eq!(mem.read_entry(40, 0), Some(magic));
    assert_eq!(mem.read_entry(41, 0), Some(magic2));
    assert_eq!(translate_user(&mem, root, 0x40_1000), Some(code));
    assert_eq!(translate_user(&mem, root, 0x40_2000), Some(code2));
    assert_eq!(translate_user(&mem, root, 0x2000_0000), Some(far));
}

#[test]
fn vmm_split_does_not_clobber_sibling_pages() {
    let frames = 0x400usize;
    let (mut mem, mut free, root) = setup(frames);
    assert!(identity_map_2mb(&mut mem, &mut free, root, 0, 4 * MB, PTEFlags::krw()));
    let phys = take(&mut free, 0x200);
    let magic = 0xABBA_CDEF_1234_5678u64;
    mem.write_entry(0x200, 0, magic);
    let phys2 = take(&mut free, 0x300);
    let magic2 = 0xDEAD_BEEF_CAFE_F00Du64;
    mem.write_entry(0x300, 0, magic2);
    let trigger = take(&mut free, 0x250);
    for i in 0..512usize {
        mem.write_entry(0x250, i, 0x4242_4242_4242_4242);
    }
    assert!(map_user(&mut mem, &mut free, root, 0x20_1000, trigger, PTEFlags::urw()));
    assert_eq!(translate_user(&mem, root, 0x20_0000), Some(phys));
    assert_eq!(mem.read_entry(0x200, 0), Some(magic));
    assert_eq!(translate_user(&mem, root, 0x30_0000), Some(phys2));
    assert_eq!(mem.read_entry(0x300, 0), Some(magic2));
    assert_eq!(translate_user(&mem, root, 0x20_1000), Some(trigger));
}

#[test]
fn vmm_unmap_then_remap_no_corruption() {
    let (mut mem, mut free, root) = setup(64);
    let code = take(&mut free, 40);
    let magic = 0x1234_5678_9ABC_DEF0u64;
    mem.write_entry(40, 0, magic);
    assert!(karte::mm::mapping::map(&mut mem, &mut free, root, 0x40_0000, code, PTEFlags::urw()));
    let tmp_ppn = free.pop().unwrap();
    let tmp = (tmp_ppn as usize) << 12;
    assert!(karte::mm::mapping::map(&mut mem, &mut free, root, 0x2000_0000, tmp, PTEFlags::urw()));
    assert_eq!(unmap_user(&mut mem, root, 0x2000_0000), Some(tmp));
    free.push(tmp_ppn);
    let new_ppn = free.pop().unwrap();
    assert!(karte::mm::mapping::map(&mut mem, &mut free, root, 0x2000_0000, (new_ppn as usize) << 12, PTEFlags::urw()));
    assert_eq!(mem.read_entry(40, 0), Some(magic));
    assert_eq!(translate_user(&mem, root, 0x40_0000), Some(code));
    assert_eq!(translate_user(&mem, root, 0x2000_0000), Some((new_ppn as usize) << 12));
}

#[test]
fn vmm_walk_mapping_4k_after_split() {
    let (mut mem, mut free, root) = setup(16);
    assert!(identity_map_2mb(&mut mem, &mut free, root, 0, 8 * MB, PTEFlags::krw()));
    let frame = take(&mut free, 9);
    assert!(map_user(&mut mem, &mut free, root, 0x40_1000, frame, PTEFlags::ur()));
    match walk_mapping(&mem, root, 0x40_1000) {
        WalkResult::Mapped4K { frame: f, .. } => assert_eq!(f.as_usize(), frame),
        _ => panic!("expected a 4K mapping"),
    }
}

#[test]
fn vmm_canary_survives_heavy_map() {
    let (mut mem, mut free, root) = setup(200);
    let canary = take(&mut free, 40);
    for i in 0..512usize {
        mem.write_entry(40, i, 0xCAFE_0000_BEEF_0000 | i as u64);
    }
    assert!(karte::mm::mapping::map(&mut mem, &mut free, root, 0x40_0000, canary, PTEFlags::urw()));
    for round in 0..4usize {
        let frames: Vec<u64> = (0..64).filter_map(|_| free.pop()).collect();
        assert_eq!(frames.len(), 64);
        for (i, f) in frames.iter().enumerate() {
            let vaddr = 0x2000_0000 + (round * 64 + i) * 4096;
            assert!(karte::mm::mapping::map(&mut mem, &mut free, root, vaddr, (*f as usize) << 12, PTEFlags::urw()));
        }
        for (i, f) in frames.iter().enumerate() {
            let vaddr = 0x2000_0000 + (round * 64 + i) * 4096;
            assert_eq!(unmap_user(&mut mem, root, vaddr), Some((*f as usize) << 12));
            free.push(*f);
        }
    }
    for i in 0..512usize {
        assert_eq!(mem.read_entry(40, i), Some(0xCAFE_0000_BEEF_0000 | i as u64));
    }
    assert_eq!(unmap_user(&mut mem, root, 0x40_0000), Some(canary));
}

#[test]
fn vmm_kernel_stack_mapping_preserves_user_elf_page() {
    let (mut mem, mut free, root) = setup(64);
    let elf_vaddr = 0x0460_3000usize;
    let elf_frame = take(&mut free, 40);
    assert!(karte::mm::mapping::map(&mut mem, &mut free, root, elf_vaddr, elf_frame, PTEFlags::ur()));
    assert_eq!(translate_user(&mem, root, elf_vaddr), Some(elf_frame));
    let stack_pages = 4usize;
    let stack_phys_base = elf_vaddr - (stack_pages - 1) * 4096;
    let kernel_stack_top = 0xFFFF_8000_0000_0000usize + stack_phys_base + stack_pages * 4096;
    for i in 0..stack_pages {
        let va = kernel_stack_top - (stack_pages - i) * 4096;
        assert!(karte::mm::mapping::map(&mut mem, &mut free, root, va, stack_phys_base + i * 4096, PTEFlags::krw()));
    }
    assert_eq!(translate_user(&mem, root, elf_vaddr), Some(elf_frame));
    assert_eq!(translate_user(&mem, root, kernel_stack_top - 4096), Some(elf_vaddr));
}

#[test]
fn vmm_map_user_no_identity_clobber() {
    let (mut mem, mut free, root) = setup(64);
    let code = take(&mut free, 40);
    let magic = 0xCAFE_0000_DEAD_BEEFu64;
    mem.write_entry(40, 0, magic);
    assert!(karte::mm::mapping::map(&mut mem, &mut free, root, code, code, PTEFlags::urw()));
    assert_eq!(translate_user(&mem, root, code), Some(code));
    assert_eq!(mem.read_entry(40, 0), Some(magic));
}

#[test]
fn flag_sets_match_x86_bits() {
    assert_eq!(PTEFlags::krwx().bits(), 3);
    assert_eq!(PTEFlags::krx().bits(), FLAG_PRESENT);
    assert_eq!(PTEFlags::urwx().bits(), 7);
    assert_eq!(PTEFlags::ux().bits(), FLAG_PRESENT | FLAG_USER);
}
