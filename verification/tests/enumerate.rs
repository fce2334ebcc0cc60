use karte::driver::usb::context::KeyboardBinding;
use karte::driver::usb::enumerate::{config_summary, enumeration_step, EnumAction, EnumEvent, EnumPhase, EnumState};
use karte::driver::usb::{
    SetupPacket, UsbSpeed, USB_DESC_CONFIGURATION, USB_DESC_ENDPOINT, USB_DESC_HID, USB_DESC_INTERFACE,
};

fn keyboard_blob() -> Vec<u8> {
    let mut v = vec![9, USB_DESC_CONFIGURATION, 34, 0, 1, 1, 0, 0xa0, 50];
    v.extend_from_slice(&[9, USB_DESC_INTERFACE, 0, 0, 1, 3, 1, 1, 0]);
    v.extend_from_slice(&[9, USB_DESC_HID, 0x11, 0x01, 0, 1, 0x22, 63, 0]);
    v.extend_from_slice(&[7, USB_DESC_ENDPOINT, 0x81, 0x03, 8, 0, 10]);
    v
}

fn storage_blob() -> Vec<u8> {
    let mut v = vec![9, USB_DESC_CONFIGURATION, 25, 0, 1, 2, 0, 0x80, 50];
    v.extend_from_slice(&[9, USB_DESC_INTERFACE, 0, 0, 1, 8, 6, 0x50, 0]);
    v.extend_from_slice(&[7, USB_DESC_ENDPOINT, 0x81, 0x02, 0, 2, 0]);
    v
}

fn device_descriptor(class: u8, mps0: u8) -> Vec<u8> {
    vec![18, 1, 0, 2, class, 0, 0, mps0, 0x6d, 0x04, 0x1c, 0xc3, 0, 1, 1, 2, 0, 1]
}

fn get(desc: u8, len: u16) -> SetupPacket {
    SetupPacket { bm_request_type: 0x80, b_request: 6, w_value: (desc as u16) << 8, w_index: 0, w_length: len }
}

fn control_in(a: EnumAction) -> (u8, SetupPacket) {
    match a {
        EnumAction::ControlIn { slot, setup } => (slot, setup),
        _ => panic!("expected a control IN transfer"),
    }
}

/// Runs port 1 of 1 up to the configuration read; returns the total length asked.
fn to_configuration(st: &mut EnumState, prime: bool, speed: UsbSpeed, mps0: u8, blob: &[u8]) -> u16 {
    assert!(matches!(enumeration_step(st, EnumEvent::Begin { ports: 1, prime_keyboard: prime }), EnumAction::CheckPort(1)));
    assert!(matches!(enumeration_step(st, EnumEvent::Connected(true)), EnumAction::ResetPort(1)));
    assert!(matches!(enumeration_step(st, EnumEvent::Reset(Some(speed))), EnumAction::EnableSlot(1)));
    enumeration_step(st, EnumEvent::Slot(Some(3)));
    enumeration_step(st, EnumEvent::Done(true));
    let a = enumeration_step(st, EnumEvent::Data(Some(device_descriptor(0, mps0)[..8].to_vec())));
    if let EnumAction::EvaluateContext { .. } = a {
        enumeration_step(st, EnumEvent::Done(true));
    }
    enumeration_step(st, EnumEvent::Data(Some(device_descriptor(0, mps0))));
    let (_, setup) = control_in(enumeration_step(st, EnumEvent::Data(Some(blob[..9].to_vec()))));
    setup.w_length
}

#[test]
fn config_summary_finds_boot_keyboard() {
    let s = config_summary(0, &keyboard_blob()).unwrap();
    assert_eq!(s.config_value, 1);
    assert!(!s.hub);
    let k = s.keyboard.unwrap();
    assert_eq!(k.ep_address, 0x81);
    assert_eq!(k.binding, KeyboardBinding { slot: 0, ep_dci: 3, iface: 0, proto: 1, report_len: 8 });
}

#[test]
fn config_summary_other_devices() {
    let s = config_summary(0, &storage_blob()).unwrap();
    assert_eq!(s.config_value, 2);
    assert!(!s.hub);
    assert!(s.keyboard.is_none());
    assert!(config_summary(9, &storage_blob()).unwrap().hub);
    assert!(config_summary(0, &[9, USB_DESC_CONFIGURATION, 9]).is_none());
}

#[test]
fn enumerate_binds_boot_keyboard() {
    let mut st = EnumState::new();
    assert!(matches!(
        enumeration_step(&mut st, EnumEvent::Begin { ports: 2, prime_keyboard: true }),
        EnumAction::CheckPort(1)
    ));
    assert!(matches!(enumeration_step(&mut st, EnumEvent::Connected(false)), EnumAction::CheckPort(2)));
    assert!(matches!(enumeration_step(&mut st, EnumEvent::Connected(true)), EnumAction::ResetPort(2)));
    assert!(matches!(enumeration_step(&mut st, EnumEvent::Reset(Some(UsbSpeed::Full))), EnumAction::EnableSlot(2)));
    match enumeration_step(&mut st, EnumEvent::Slot(Some(1))) {
        EnumAction::AddressDevice { slot, port, speed, mps0 } => {
            assert_eq!((slot, port, speed, mps0), (1, 2, UsbSpeed::Full, 8));
        }
        _ => panic!("expected Address Device"),
    }
    assert_eq!(control_in(enumeration_step(&mut st, EnumEvent::Done(true))), (1, get(1, 8)));
    match enumeration_step(&mut st, EnumEvent::Data(Some(device_descriptor(0, 64)[..8].to_vec()))) {
        EnumAction::EvaluateContext { slot, mps0 } => assert_eq!((slot, mps0), (1, 64)),
        _ => panic!("expected Evaluate Context"),
    }
    assert_eq!(control_in(enumeration_step(&mut st, EnumEvent::Done(true))), (1, get(1, 18)));
    let blob = keyboard_blob();
    assert_eq!(
        control_in(enumeration_step(&mut st, EnumEvent::Data(Some(device_descriptor(0, 64))))),
        (1, get(USB_DESC_CONFIGURATION, 9))
    );
    assert_eq!(
        control_in(enumeration_step(&mut st, EnumEvent::Data(Some(blob[..9].to_vec())))),
        (1, get(USB_DESC_CONFIGURATION, 34))
    );
    let summary = config_summary(st.device_class, &blob);
    match enumeration_step(&mut st, EnumEvent::Configuration(summary)) {
        EnumAction::ConfigureEndpoints { slot, speed, ep_address } => {
            assert_eq!((slot, speed, ep_address), (1, UsbSpeed::Full, 0x81));
        }
        _ => panic!("expected Configure Endpoint"),
    }
    match enumeration_step(&mut st, EnumEvent::Done(true)) {
        EnumAction::ControlOut { slot, setup } => {
            assert_eq!(slot, 1);
            assert_eq!(setup, SetupPacket { bm_request_type: 0, b_request: 9, w_value: 1, w_index: 0, w_length: 0 });
        }
        _ => panic!("expected SET_CONFIGURATION"),
    }
    assert!(matches!(enumeration_step(&mut st, EnumEvent::Done(true)), EnumAction::InitBootHid { slot: 1 }));
    match enumeration_step(&mut st, EnumEvent::Done(true)) {
        EnumAction::Finished { keyboard, has_keyboard, connected } => {
            assert_eq!(keyboard, Some(KeyboardBinding { slot: 1, ep_dci: 3, iface: 0, proto: 1, report_len: 8 }));
            assert!(has_keyboard);
            assert_eq!(connected, 1);
        }
        _ => panic!("expected Finished"),
    }
    assert!(matches!(st.phase, EnumPhase::Finished));
}

#[test]
fn enumerate_look_only_notes_keyboard() {
    let mut st = EnumState::new();
    let blob = keyboard_blob();
    assert_eq!(to_configuration(&mut st, false, UsbSpeed::High, 64, &blob), 34);
    match enumeration_step(&mut st, EnumEvent::Configuration(config_summary(0, &blob))) {
        EnumAction::Finished { keyboard, has_keyboard, connected } => {
            assert_eq!(keyboard, None);
            assert!(has_keyboard);
            assert_eq!(connected, 1);
        }
        _ => panic!("expected Finished"),
    }
}

#[test]
fn enumerate_other_device_gets_configuration_and_report_check() {
    let mut st = EnumState::new();
    let blob = storage_blob();
    assert_eq!(to_configuration(&mut st, true, UsbSpeed::High, 64, &blob), 25);
    match enumeration_step(&mut st, EnumEvent::Configuration(config_summary(0, &blob))) {
        EnumAction::ControlOut { slot, setup } => {
            assert_eq!(slot, 3);
            assert_eq!(setup.w_value, 2);
            assert_eq!(setup.b_request, 9);
        }
        _ => panic!("expected SET_CONFIGURATION"),
    }
    assert!(matches!(enumeration_step(&mut st, EnumEvent::Done(true)), EnumAction::FindReportKeyboard { slot: 3 }));
    match enumeration_step(&mut st, EnumEvent::ReportKeyboard(None)) {
        EnumAction::Finished { keyboard, has_keyboard, connected } => {
            assert_eq!(keyboard, None);
            assert!(!has_keyboard);
            assert_eq!(connected, 1);
        }
        _ => panic!("expected Finished"),
    }
}

#[test]
fn enumerate_failures_move_to_next_port() {
    let mut st = EnumState::new();
    enumeration_step(&mut st, EnumEvent::Begin { ports: 3, prime_keyboard: true });
    enumeration_step(&mut st, EnumEvent::Connected(true));
    assert!(matches!(enumeration_step(&mut st, EnumEvent::Reset(None)), EnumAction::CheckPort(2)));
    enumeration_step(&mut st, EnumEvent::Connected(true));
    enumeration_step(&mut st, EnumEvent::Reset(Some(UsbSpeed::Low)));
    assert!(matches!(enumeration_step(&mut st, EnumEvent::Slot(None)), EnumAction::CheckPort(3)));
    enumeration_step(&mut st, EnumEvent::Connected(true));
    enumeration_step(&mut st, EnumEvent::Reset(Some(UsbSpeed::Super)));
    match enumeration_step(&mut st, EnumEvent::Slot(Some(2))) {
        EnumAction::AddressDevice { mps0, .. } => assert_eq!(mps0, 512),
        _ => panic!("expected Address Device"),
    }
    match enumeration_step(&mut st, EnumEvent::Done(false)) {
        EnumAction::Finished { keyboard, has_keyboard, connected } => {
            assert_eq!(keyboard, None);
            assert!(!has_keyboard);
            assert_eq!(connected, 3);
        }
        _ => panic!("expected Finished"),
    }
}

#[test]
fn enumerate_bad_total_length_skips_device() {
    let mut st = EnumState::new();
    let mut blob = storage_blob();
    blob[2] = 5;
    enumeration_step(&mut st, EnumEvent::Begin { ports: 1, prime_keyboard: true });
    enumeration_step(&mut st, EnumEvent::Connected(true));
    enumeration_step(&mut st, EnumEvent::Reset(Some(UsbSpeed::Full)));
    enumeration_step(&mut st, EnumEvent::Slot(Some(1)));
    enumeration_step(&mut st, EnumEvent::Done(true));
    let a = enumeration_step(&mut st, EnumEvent::Data(Some(device_descriptor(0, 8)[..8].to_vec())));
    assert_eq!(control_in(a), (1, get(1, 18)));
    enumeration_step(&mut st, EnumEvent::Data(Some(device_descriptor(0, 8))));
    assert!(matches!(
        enumeration_step(&mut st, EnumEvent::Data(Some(blob[..9].to_vec()))),
        EnumAction::Finished { connected: 1, .. }
    ));
}

#[test]
fn enumerate_no_ports_finishes_at_once() {
    let mut st = EnumState::new();
    assert!(matches!(
        enumeration_step(&mut st, EnumEvent::Begin { ports: 0, prime_keyboard: true }),
        EnumAction::Finished { connected: 0, has_keyboard: false, .. }
    ));
    assert!(matches!(enumeration_step(&mut st, EnumEvent::Connected(true)), EnumAction::Ignore));
}
