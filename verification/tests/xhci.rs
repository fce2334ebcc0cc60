use karte::driver::usb::xhci::{
    endpoint_dci, endpoint_ring_off, ep_ctx_dword, next_ext_cap_offset, output_ep_ctx_dword, slot_ctx_dword,
    xhci_interrupt_interval, PortMap, RootPortChanges, Trb, EP_RING_BASE_OFF, PORT_CHANGE_MASK, PORT_CSC, PORT_PR,
    PORT_WRITE_MASK_DEFAULT, PORT_WRITE_MASK_USB2, PORT_WRITE_MASK_USB3, TRB_CYCLE_BIT, TRB_ENABLE_SLOT,
};
use karte::driver::usb::UsbSpeed;

#[test]
fn trb_fields() {
    let c = Trb::control(TRB_ENABLE_SLOT, TRB_CYCLE_BIT);
    assert_eq!(c, (9 << 10) | 1);
    let t = Trb { parameter: 0, status: 13 << 24, control: c | (5 << 24) | (3 << 16) };
    assert_eq!(t.trb_type(), TRB_ENABLE_SLOT);
    assert!(t.cycle());
    assert_eq!(t.completion_code(), 13);
    assert_eq!(t.slot_id(), 5);
    assert_eq!(t.endpoint_id(), 3);
    assert_eq!(Trb::zero(), Trb { parameter: 0, status: 0, control: 0 });
}

#[test]
fn dci_and_context_offsets() {
    assert_eq!(endpoint_dci(0, true), 1);
    assert_eq!(endpoint_dci(1, true), 3);
    assert_eq!(endpoint_dci(1, false), 2);
    assert_eq!(endpoint_dci(15, true), 31);
    assert_eq!(slot_ctx_dword(8), 8);
    assert_eq!(ep_ctx_dword(8, 3), 32);
    assert_eq!(output_ep_ctx_dword(16, 3), 48);
    assert_eq!(endpoint_ring_off(2), EP_RING_BASE_OFF + 8192);
}

#[test]
fn interrupt_interval_exponents() {
    assert_eq!(xhci_interrupt_interval(UsbSpeed::Full, 10), 6);
    assert_eq!(xhci_interrupt_interval(UsbSpeed::Low, 0), 3);
    assert_eq!(xhci_interrupt_interval(UsbSpeed::Low, 1), 3);
    assert_eq!(xhci_interrupt_interval(UsbSpeed::Full, 255), 10);
    assert_eq!(xhci_interrupt_interval(UsbSpeed::High, 4), 3);
    assert_eq!(xhci_interrupt_interval(UsbSpeed::Super, 0), 0);
    assert_eq!(xhci_interrupt_interval(UsbSpeed::High, 20), 15);
    assert_eq!(xhci_interrupt_interval(UsbSpeed::Unknown, 8), 3);
}

#[test]
fn port_map_protocols() {
    let mut m = PortMap::new();
    m.reset(8);
    assert_eq!(m.port_mmio_index(3), 2);
    assert_eq!(m.port_major_rev(3), 0);
    let major = m.apply_protocol(0x0300_0802, 0x0000_0205, 8);
    assert_eq!(major, 3);
    assert_eq!(m.port_major_rev(5), 3);
    assert_eq!(m.port_major_rev(6), 3);
    assert_eq!(m.port_major_rev(7), 0);
    assert_eq!(m.port_mmio_index(5), 4);
    assert_eq!(m.port_mmio_index(0), 0);
    assert_eq!(m.port_major_rev(0), 0);
    let sc = 0xffff_ffffu32;
    assert_eq!(m.portsc_write_value(5, sc, PORT_CSC), (sc & PORT_WRITE_MASK_USB3) | PORT_CSC);
    m.apply_protocol(0x0200_0802, 0x0000_0201, 8);
    assert_eq!(m.portsc_write_value(1, sc, 0), sc & PORT_WRITE_MASK_USB2);
    assert_eq!(m.portsc_write_value(8, PORT_PR, 0xffff_ffff), (PORT_PR & PORT_WRITE_MASK_DEFAULT) | PORT_CHANGE_MASK);
}

#[test]
fn extended_capability_chain() {
    assert_eq!(next_ext_cap_offset(0x500, 0x0000_0401), 0x510);
    assert_eq!(next_ext_cap_offset(0x500, 0x0000_0001), 0);
}

#[test]
fn root_port_changes_taken_once() {
    let mut c = RootPortChanges::new();
    c.note_change(1);
    c.note_change(3);
    c.note_change(64);
    assert_eq!(c.take_root_port_changes(), 0b101 | (1 << 63));
    assert_eq!(c.take_root_port_changes(), 0);
}
