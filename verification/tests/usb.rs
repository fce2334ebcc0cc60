use karte::driver::tty::Tty;
use karte::driver::usb::hid::{feed_to_tty, hid_to_ascii, shift_digit, KeyState, HID_USAGE_A, HID_USAGE_CAPSLOCK, MOD_LSHIFT, MOD_RSHIFT};
use karte::driver::usb::hub::enumerate_external_hub;
use karte::driver::usb::{
    hid_report_has_keyboard_usage, walk_config_descriptors, ConfigDescriptor, DeviceDescriptor, EndpointDescriptor,
    HidDescriptor, InterfaceDescriptor, ParsedConfiguration, SetupPacket, UsbDevice, UsbSpeed, USB_DESC_CONFIGURATION,
    USB_DESC_ENDPOINT, USB_DESC_HID, USB_DESC_INTERFACE, USB_ENDPOINT_XFER_INT,
};

fn keyboard_config() -> Vec<u8> {
    let mut v = vec![9, USB_DESC_CONFIGURATION, 34, 0, 1, 1, 0, 0xa0, 50];
    v.extend_from_slice(&[9, USB_DESC_INTERFACE, 0, 0, 1, 3, 1, 1, 0]);
    v.extend_from_slice(&[9, USB_DESC_HID, 0x11, 0x01, 0, 1, 0x22, 63, 0]);
    v.extend_from_slice(&[7, USB_DESC_ENDPOINT, 0x81, 0x03, 8, 0, 10]);
    v
}

#[test]
fn speed_codes_roundtrip() {
    for s in [UsbSpeed::Full, UsbSpeed::Low, UsbSpeed::High, UsbSpeed::Super] {
        assert_eq!(UsbSpeed::from_xhci_code(s.xhci_code()), s);
    }
    assert_eq!(UsbSpeed::from_xhci_code(1), UsbSpeed::Full);
    assert_eq!(UsbSpeed::from_xhci_code(2), UsbSpeed::Low);
    assert_eq!(UsbSpeed::from_xhci_code(3), UsbSpeed::High);
    assert_eq!(UsbSpeed::from_xhci_code(4), UsbSpeed::Super);
    assert_eq!(UsbSpeed::from_xhci_code(0), UsbSpeed::Unknown);
    assert_eq!(UsbSpeed::from_xhci_code(9), UsbSpeed::Unknown);
}

#[test]
fn setup_packet_encoding() {
    let p = SetupPacket::new(0x80, 0x06, 0x0100, 0x0002, 18);
    assert_eq!(p.encode_trb_parameter(), 0x0012_0002_0100_0680);
}

#[test]
fn device_descriptor_parse() {
    let d = [18u8, 1, 0x00, 0x02, 0, 0, 0, 64, 0x34, 0x12, 0x78, 0x56, 0x01, 0x00, 1, 2, 3, 1];
    let dd = DeviceDescriptor::parse(&d).unwrap();
    assert_eq!(dd.bcd_usb, 0x0200);
    assert_eq!(dd.b_max_packet_size0, 64);
    assert_eq!(dd.id_vendor, 0x1234);
    assert_eq!(dd.id_product, 0x5678);
    assert_eq!(dd.b_num_configurations, 1);
    assert!(DeviceDescriptor::parse(&d[..17]).is_none());
}

#[test]
fn small_descriptors_parse() {
    let cfg = keyboard_config();
    let c = ConfigDescriptor::parse(&cfg).unwrap();
    assert_eq!(c.total_length(), 34);
    assert_eq!(c.b_num_interfaces, 1);
    let i = InterfaceDescriptor::parse(&cfg[9..]).unwrap();
    assert_eq!((i.b_interface_class, i.b_interface_subclass, i.b_interface_protocol), (3, 1, 1));
    let h = HidDescriptor::parse(&cfg[18..]).unwrap();
    assert_eq!(h.w_descriptor_length, 63);
    let e = EndpointDescriptor::parse(&cfg[27..]).unwrap();
    assert!(e.direction_in());
    assert_eq!(e.number(), 1);
    assert_eq!(e.transfer_type(), USB_ENDPOINT_XFER_INT);
    assert_eq!(e.max_packet_size(), 8);
    assert!(EndpointDescriptor::parse(&cfg[27..33]).is_none());
}

#[test]
fn walk_yields_each_descriptor() {
    let cfg = keyboard_config();
    let mut it = walk_config_descriptors(&cfg);
    let mut kinds = Vec::new();
    while let Some((bytes, len, ty)) = it.next() {
        assert_eq!(bytes.len(), len as usize);
        kinds.push(ty);
    }
    assert_eq!(kinds, vec![USB_DESC_CONFIGURATION, USB_DESC_INTERFACE, USB_DESC_HID, USB_DESC_ENDPOINT]);
}

#[test]
fn walk_stops_at_zero_length() {
    let data = [0u8, 4, 9, 9];
    let mut it = walk_config_descriptors(&data);
    assert!(it.next().is_none());
}

#[test]
fn parsed_configuration_finds_keyboard() {
    let cfg = keyboard_config();
    let p = ParsedConfiguration::parse(&cfg).unwrap();
    assert_eq!(p.interfaces.len(), 1);
    assert!(p.interfaces[0].hid.is_some());
    assert_eq!(p.interfaces[0].endpoints.len(), 1);
    let (iface, ep) = p.find_hid_keyboard().unwrap();
    assert_eq!(iface.iface.b_interface_number, 0);
    assert_eq!(ep.b_endpoint_address, 0x81);
}

#[test]
fn parsed_configuration_without_keyboard() {
    let mut cfg = keyboard_config();
    cfg[9 + 6] = 2;
    let p = ParsedConfiguration::parse(&cfg).unwrap();
    assert!(p.find_hid_keyboard().is_none());
    assert!(ParsedConfiguration::parse(&cfg[..5]).is_none());
}

#[test]
fn report_descriptor_keyboard_usage() {
    let kbd = [0x05u8, 0x01, 0x09, 0x06, 0xa1, 0x01];
    assert!(hid_report_has_keyboard_usage(&kbd));
    let mouse = [0x05u8, 0x01, 0x09, 0x02, 0xa1, 0x01];
    assert!(!hid_report_has_keyboard_usage(&mouse));
    let keypad_page = [0x05u8, 0x07, 0x09, 0x00];
    assert!(hid_report_has_keyboard_usage(&keypad_page));
    let truncated = [0x06u8, 0x01];
    assert!(!hid_report_has_keyboard_usage(&truncated));
    let long_item = [0xfeu8, 1, 0, 0xaa, 0x05, 0x07, 0x09, 0x04];
    assert!(hid_report_has_keyboard_usage(&long_item));
}

#[test]
fn usb_device_defaults() {
    let d = UsbDevice::new(3, UsbSpeed::High);
    assert_eq!(d.slot_id, 3);
    assert_eq!(d.address, 0);
    assert_eq!(d.max_packet_size0, 8);
}

#[test]
fn hid_letters_digits_and_shift() {
    let mut k = KeyState::new();
    assert_eq!(hid_to_ascii(&mut k, HID_USAGE_A, 0), b'a');
    assert_eq!(hid_to_ascii(&mut k, HID_USAGE_A + 25, MOD_LSHIFT), b'Z');
    assert_eq!(hid_to_ascii(&mut k, 0x1e, 0), b'1');
    assert_eq!(hid_to_ascii(&mut k, 0x1e, MOD_RSHIFT), b'!');
    assert_eq!(hid_to_ascii(&mut k, 0x27, 0), b'0');
    assert_eq!(hid_to_ascii(&mut k, 0x27, MOD_LSHIFT), b')');
    assert_eq!(hid_to_ascii(&mut k, 0x28, 0), b'\n');
    assert_eq!(hid_to_ascii(&mut k, 0x2a, 0), 0x7f);
    assert_eq!(hid_to_ascii(&mut k, 0x2d, MOD_LSHIFT), b'_');
    assert_eq!(shift_digit(2), b'@');
    assert_eq!(shift_digit(9), b'(');
}

#[test]
fn caps_lock_affects_letters_only() {
    let mut k = KeyState::new();
    assert_eq!(hid_to_ascii(&mut k, HID_USAGE_CAPSLOCK, 0), 0);
    assert_eq!(hid_to_ascii(&mut k, HID_USAGE_A, 0), b'A');
    assert_eq!(hid_to_ascii(&mut k, HID_USAGE_A, MOD_LSHIFT), b'a');
    assert_eq!(hid_to_ascii(&mut k, 0x1e, 0), b'1');
    assert_eq!(hid_to_ascii(&mut k, HID_USAGE_CAPSLOCK, 0), 0);
    assert_eq!(hid_to_ascii(&mut k, HID_USAGE_A, 0), b'a');
}

#[test]
fn hid_feeds_the_tty() {
    let mut t = Tty::new();
    let e = feed_to_tty(&mut t, b'x');
    assert_eq!(e.echo, b"x".to_vec());
    let e = feed_to_tty(&mut t, 0);
    assert!(e.echo.is_empty());
    feed_to_tty(&mut t, b'\n');
    assert_eq!(t.read(10), b"x\n".to_vec());
}

#[test]
fn external_hub_reports_no_ports() {
    assert_eq!(enumerate_external_hub(2), Ok(0));
}
