use karte::mm::addr::{KernelVirtAddr, PhysAddr, UserVirtAddr, USER_SPACE_END};
use karte::mm::frame::{alloc_owned_frame, alloc_page_table_frame, OwnedFrame};
use karte::mm::pmm::{efi_type_is_usable, page_size, FrameAllocator, Pmm, ZeroedFrame, MEMORY_START, PAGE_SIZE, ZEROED_POOL_SIZE};

const MEM: usize = 16 * 1024 * 1024;

fn ready() -> Pmm {
    let mut p = Pmm::new();
    p.init_with_size(0x30_0000, MEM);
    p
}

#[test]
fn pmm_page_size_is_4096() {
    assert_eq!(page_size(), 4096);
    assert_eq!(PAGE_SIZE, 4096);
}

#[test]
fn pmm_alloc_returns_valid_frame() {
    let mut p = ready();
    let f = p.alloc_frame().unwrap();
    assert_eq!(f % page_size(), 0);
}

#[test]
fn pmm_alloc_dealloc_cycle() {
    let mut p = ready();
    let f = p.alloc_frame().unwrap();
    let f2 = p.alloc_frame().unwrap();
    assert_ne!(f, f2);
    p.dealloc_frame(f);
    p.dealloc_frame(f2);
    assert!(p.alloc_frame().is_some());
}

#[test]
fn pmm_multiple_allocs_unique() {
    let mut p = ready();
    let mut frames = Vec::new();
    for _ in 0..16 {
        let f = p.alloc_frame().unwrap();
        assert!(!frames.contains(&f));
        frames.push(f);
    }
    for f in frames {
        p.dealloc_frame(f);
    }
}

#[test]
fn pmm_dealloc_reuse() {
    let mut p = ready();
    let f1 = p.alloc_frame().unwrap();
    p.dealloc_frame(f1);
    let f2 = p.alloc_frame().unwrap();
    p.dealloc_frame(f2);
}

#[test]
fn pmm_frames_in_valid_range() {
    let mut p = ready();
    let end = p.total_memory();
    assert_eq!(end, MEMORY_START + MEM);
    for _ in 0..4 {
        let f = p.alloc_frame().unwrap();
        assert!(f >= MEMORY_START && f < end);
    }
}

#[test]
fn uninitialized_pmm_has_no_frames() {
    let mut p = Pmm::new();
    assert_eq!(p.alloc_frame(), None);
    assert_eq!(p.stats(), (0, 0, 0));
}

#[test]
fn init_reports_managed_megabytes() {
    let mut p = Pmm::new();
    let mb = p.init_with_size(0x30_0000, MEM);
    let (total, used, next) = p.stats();
    assert_eq!(mb, total * 4096 / 1024 / 1024);
    assert_eq!(used, 0);
    assert_eq!(next, 0);
    assert_eq!(total, (MEMORY_START + MEM - 0x30_1000) / 4096);
}

#[test]
fn allocator_wraps_to_lowest_free_frame() {
    let mut a = FrameAllocator::with_layout(0x10_0000, 4, 1);
    let f: Vec<usize> = (0..4).map(|_| a.allocate().unwrap()).collect();
    assert_eq!(f, vec![0x10_0000, 0x10_1000, 0x10_2000, 0x10_3000]);
    assert_eq!(a.allocate(), None);
    a.dealloc(0x10_1000);
    assert_eq!(a.allocate(), Some(0x10_1000));
    assert_eq!(a.count_used(), 4);
}

#[test]
fn contiguous_allocation_finds_lowest_run() {
    let mut a = FrameAllocator::with_layout(0, 8, 1);
    assert_eq!(a.alloc_contiguous(0), None);
    assert_eq!(a.alloc_contiguous(3), Some(0));
    a.dealloc(0x1000);
    assert_eq!(a.alloc_contiguous(2), Some(0x3000));
    assert_eq!(a.alloc_contiguous(4), None);
    assert_eq!(a.mark_range_used(0x5000, 0x8000), 3);
    assert_eq!(a.count_used(), 7);
}

#[test]
fn zeroed_pool_first() {
    let mut p = ready();
    assert!(p.pool_wants_frame());
    let f = p.alloc_frame().unwrap();
    p.pool_push(f);
    match p.alloc_zeroed_frame() {
        Some(ZeroedFrame::Pooled(g)) => assert_eq!(g, f),
        _ => panic!("expected the pooled frame"),
    }
    match p.alloc_zeroed_frame() {
        Some(ZeroedFrame::Fresh(_)) => {}
        _ => panic!("expected a fresh frame"),
    }
    assert!(ZEROED_POOL_SIZE > 0);
}

#[test]
fn efi_usable_types() {
    assert!(efi_type_is_usable(7));
    assert!(efi_type_is_usable(3));
    assert!(!efi_type_is_usable(0));
    assert!(!efi_type_is_usable(11));
}

#[test]
fn frames_own_their_address() {
    let mut p = ready();
    let f = alloc_owned_frame(&mut p).unwrap();
    let a = f.addr();
    assert_eq!(a.as_usize() % 4096, 0);
    let raw = f.into_raw();
    assert_eq!(raw.as_usize(), a.as_usize());
    let g = OwnedFrame::from_raw(raw);
    g.release(&mut p);
    let t = alloc_page_table_frame(&mut p).unwrap();
    assert_eq!(t.addr().as_usize() % 4096, 0);
}

#[test]
fn typed_addresses() {
    let p = PhysAddr::new(0x1234);
    assert_eq!(p.ppn(), 1);
    assert_eq!(p.page_offset(), 0x234);
    assert!(!p.is_page_aligned());
    assert_eq!(p.page_align_down().as_usize(), 0x1000);
    assert_eq!(PhysAddr::from_ppn(5).as_usize(), 0x5000);
    assert!(UserVirtAddr::try_new(0x40_0000).is_some());
    assert!(UserVirtAddr::try_new(USER_SPACE_END as usize).is_none());
    assert!(KernelVirtAddr::try_new(USER_SPACE_END as usize).is_some());
    assert!(KernelVirtAddr::try_new(0x1000).is_none());
}

#[test]
fn freed_frame_is_handed_out_again() {
    let mut p = ready();
    let f1 = alloc_owned_frame(&mut p).unwrap();
    let a = f1.addr().as_usize();
    f1.release(&mut p);
    let f2 = alloc_owned_frame(&mut p).unwrap();
    assert_eq!(f2.addr().as_usize(), a);
}

#[test]
fn frame_alloc_drop_no_leak() {
    let mut p = ready();
    let f1 = alloc_owned_frame(&mut p).unwrap();
    let addr1 = f1.addr().as_usize();
    f1.release(&mut p);
    let f2 = alloc_owned_frame(&mut p).unwrap();
    let addr2 = f2.addr().as_usize();
    f2.release(&mut p);
    assert_eq!(addr1, addr2);
}

#[test]
fn frame_into_raw_prevents_double_free() {
    let mut p = ready();
    let used_before = p.debug_stats().1;
    let f = alloc_owned_frame(&mut p).unwrap();
    let raw = f.into_raw();
    assert_eq!(p.debug_stats().1, used_before + 1);
    p.dealloc_frame(raw.as_usize());
    assert_eq!(p.debug_stats().1, used_before);
}
