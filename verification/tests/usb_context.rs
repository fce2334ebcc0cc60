use karte::driver::usb::context::{
    config_descriptor_request, config_total_length, configure_endpoint_done, configure_endpoints_context,
    context_command, control_transfer_outcome, control_trbs, device_descriptor_request, ep0_max_packet,
    ep0_mps_update, input_context_address, input_context_evaluate, interrupt_in_endpoints, is_hub_device,
    keyboard_binding, set_configuration_request, KeyboardBinding, INPUT_CONTEXT_DWORDS, INT_RING_OFF, TRB_DIR_IN,
    TRB_IDT, TRB_IOC, TRB_TRT_IN, TRB_TRT_NONE,
};
use karte::driver::usb::xhci::{Trb, EP_RING_BASE_OFF, TRB_CONFIGURE_EP, TRB_DATA_STAGE, TRB_SETUP_STAGE, TRB_STATUS_STAGE};
use karte::driver::usb::{ParsedConfiguration, UsbSpeed, USB_DESC_CONFIGURATION};

fn composite_config() -> Vec<u8> {
    let mut v = vec![9, USB_DESC_CONFIGURATION, 48, 0, 2, 1, 0, 0xa0, 50];
    v.extend_from_slice(&[9, 4, 0, 0, 1, 3, 1, 1, 0]);
    v.extend_from_slice(&[7, 5, 0x81, 0x03, 8, 0, 10]);
    v.extend_from_slice(&[9, 4, 1, 0, 2, 3, 0, 0, 0]);
    v.extend_from_slice(&[7, 5, 0x02, 0x03, 16, 0, 4]);
    v.extend_from_slice(&[7, 5, 0x83, 0x03, 32, 0, 4]);
    v
}

#[test]
fn control_trbs_in_transfer() {
    let setup = device_descriptor_request(false);
    let t = control_trbs(&setup, true, 0x8000);
    assert_eq!(t.len(), 3);
    assert_eq!(t[0], Trb { parameter: setup.encode_trb_parameter(), status: 8, control: (TRB_SETUP_STAGE << 10) | TRB_TRT_IN | TRB_IDT });
    assert_eq!(t[1], Trb { parameter: 0x8000, status: 8, control: (TRB_DATA_STAGE << 10) | TRB_DIR_IN });
    assert_eq!(t[2], Trb { parameter: 0, status: 0, control: (TRB_STATUS_STAGE << 10) | TRB_IOC });
}

#[test]
fn control_trbs_without_data() {
    let setup = set_configuration_request(1);
    let t = control_trbs(&setup, false, 0x8000);
    assert_eq!(t.len(), 2);
    assert_eq!(t[0].control, (TRB_SETUP_STAGE << 10) | TRB_TRT_NONE | TRB_IDT);
    assert_eq!(t[1].control, (TRB_STATUS_STAGE << 10) | TRB_DIR_IN | TRB_IOC);
    assert_eq!(setup.bm_request_type, 0);
    assert_eq!(setup.w_value, 1);
}

#[test]
fn control_outcomes() {
    assert_eq!(control_transfer_outcome(None, 8, Some(8)), Err("transfer event timeout"));
    assert_eq!(control_transfer_outcome(Some(4), 8, Some(8)), Err("control transfer failed"));
    assert_eq!(control_transfer_outcome(Some(1), 18, Some(8)), Ok(8));
    assert_eq!(control_transfer_outcome(Some(1), 0, None), Ok(0));
    assert_eq!(control_transfer_outcome(Some(1), 9, None), Ok(9));
}

#[test]
fn descriptor_requests() {
    let d = device_descriptor_request(true);
    assert_eq!((d.bm_request_type, d.b_request, d.w_value, d.w_length), (0x80, 6, 0x0100, 18));
    let c = config_descriptor_request(9);
    assert_eq!((c.w_value, c.w_length), (0x0200, 9));
}

#[test]
fn enumeration_decisions() {
    assert_eq!(ep0_max_packet(UsbSpeed::Full), 8);
    assert_eq!(ep0_max_packet(UsbSpeed::High), 64);
    assert_eq!(ep0_max_packet(UsbSpeed::Super), 512);
    assert_eq!(ep0_mps_update(64, 8), Some(64));
    assert_eq!(ep0_mps_update(8, 8), None);
    assert_eq!(ep0_mps_update(12, 8), None);
    assert_eq!(ep0_mps_update(9, 512), Some(9));
    assert_eq!(config_total_length(&[9, 2, 34, 0]), Some(34));
    assert_eq!(config_total_length(&[9, 2, 8, 0]), None);
    assert_eq!(config_total_length(&[9, 2, 0, 0x10]), Some(4096));
    assert_eq!(config_total_length(&[9, 2, 1, 0x10]), None);
}

#[test]
fn hubs_and_keyboard_binding() {
    let cfg = composite_config();
    let p = ParsedConfiguration::parse(&cfg).unwrap();
    assert!(!is_hub_device(0, &p));
    assert!(is_hub_device(9, &p));
    let (iface, ep) = p.find_hid_keyboard().unwrap();
    assert_eq!(
        keyboard_binding(4, &iface.iface, ep),
        KeyboardBinding { slot: 4, ep_dci: 3, iface: 0, proto: 1, report_len: 8 }
    );
}

#[test]
fn address_context_layout() {
    let c = input_context_address(8, 3, UsbSpeed::High, 64, 0x1_2345_7000);
    assert_eq!(c.len(), INPUT_CONTEXT_DWORDS);
    assert_eq!(c[1], 3);
    assert_eq!(c[8], (3 << 20) | (1 << 27));
    assert_eq!(c[9], 3 << 16);
    assert_eq!(c[17], (3 << 1) | (4 << 3) | (64 << 16));
    assert_eq!(c[18], 0x2345_7001);
    assert_eq!(c[19], 1);
    assert_eq!(c[20], 8);
    assert_eq!(c.iter().filter(|x| **x != 0).count(), 7);
}

#[test]
fn evaluate_context_layout() {
    let out: Vec<u32> = vec![0x0000_0001, 0x0008_0026, 0xabc1, 0, 8, 0, 0, 0];
    let c = input_context_evaluate(8, &out, 64);
    assert_eq!(c[1], 2);
    assert_eq!(c[16], 0);
    assert_eq!(c[17], 0x0040_0026);
    assert_eq!(c[18], 0xabc1);
    assert_eq!(c[20], 8);
    assert_eq!(c[8], 0);
}

#[test]
fn configure_context_layout() {
    let cfg = composite_config();
    let p = ParsedConfiguration::parse(&cfg).unwrap();
    let eps = interrupt_in_endpoints(&p);
    let addrs: Vec<u8> = eps.iter().map(|e| e.b_endpoint_address).collect();
    assert_eq!(addrs, vec![0x81, 0x83]);
    let (_, kbd) = p.find_hid_keyboard().unwrap();
    let out_slot: Vec<u32> = vec![0x0830_0000, 0x0003_0000, 0, 0x1800_0000, 0, 0, 0, 0];
    let dma = 0x100_0000u64;
    let c = configure_endpoints_context(8, &out_slot, &p, kbd, UsbSpeed::High, dma).unwrap();
    assert_eq!(c[1], 1 | (1 << 3) | (1 << 7));
    assert_eq!(c[8], 0x0030_0000 | (7 << 27));
    assert_eq!(c[9], 0x0003_0000);
    assert_eq!(c[11], 0x1800_0000);
    // keyboard endpoint, index 3 at dword 8 + 24
    assert_eq!(c[32], 9 << 16);
    assert_eq!(c[33], (3 << 1) | (7 << 3) | (8 << 16));
    assert_eq!(c[34], (dma as u32 + INT_RING_OFF as u32) | 1);
    assert_eq!(c[36], 8 | (8 << 16));
    // second endpoint, index 7 at dword 8 + 56
    assert_eq!(c[64], 3 << 16);
    assert_eq!(c[66], (dma as u32 + EP_RING_BASE_OFF as u32 + 7 * 4096) | 1);
    assert_eq!(c[68], 32 | (32 << 16));
}

#[test]
fn configure_needs_interrupt_endpoints() {
    let mut cfg = vec![9, USB_DESC_CONFIGURATION, 25, 0, 1, 1, 0, 0xa0, 50];
    cfg.extend_from_slice(&[9, 4, 0, 0, 1, 8, 6, 0x50, 0]);
    cfg.extend_from_slice(&[7, 5, 0x81, 0x02, 0, 2, 0]);
    let p = ParsedConfiguration::parse(&cfg).unwrap();
    let ep = p.interfaces[0].endpoints[0];
    assert!(configure_endpoints_context(16, &[0u32; 16], &p, &ep, UsbSpeed::Super, 0).is_none());
}

#[test]
fn commands_and_results() {
    let t = context_command(TRB_CONFIGURE_EP, 5, 0x4000);
    assert_eq!(t, Trb { parameter: 0x4000, status: 0, control: (TRB_CONFIGURE_EP << 10) | (5 << 24) });
    assert!(configure_endpoint_done(Some(1), 0x0009_0001));
    assert!(!configure_endpoint_done(Some(1), 0x0009_0003));
    assert!(!configure_endpoint_done(Some(6), 1));
    assert!(!configure_endpoint_done(None, 1));
}
