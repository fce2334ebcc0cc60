use karte::platform::{phys_to_virt, virt_to_phys, DIRECT_MAP_BASE};

#[test]
fn direct_map_roundtrip() {
    let v = phys_to_virt(0x1234);
    assert_eq!(v as u64, DIRECT_MAP_BASE + 0x1234);
    assert_eq!(virt_to_phys(v), 0x1234);
    assert_eq!(virt_to_phys(DIRECT_MAP_BASE as usize), 0);
}
