use karte::net::device::{NetDevice, NetState, VirtRxToken, VirtTxToken, MAX_FRAME, MTU};
use karte::net::iface::{SocketState, SocketType};

#[test]
fn device_keeps_mac() {
    let d = NetDevice::new([1, 2, 3, 4, 5, 6]);
    assert_eq!(d.mac_addr(), [1, 2, 3, 4, 5, 6]);
}

#[test]
fn received_frame_waits_until_consumed() {
    let mut d = NetDevice::new([0; 6]);
    let mut s = NetState::new();
    assert!(!d.receive(&s));
    d.receive_packet(&mut s, Some(&[9, 8, 7]));
    assert!(d.receive(&s));
    d.receive_packet(&mut s, Some(&[1]));
    assert_eq!(VirtRxToken.consume(&mut s), vec![9, 8, 7]);
    assert!(!s.has_packet());
    assert_eq!(VirtRxToken.consume(&mut s), Vec::<u8>::new());
    d.receive_packet(&mut s, None);
    assert!(!s.has_packet());
}

#[test]
fn transmit_length_is_capped() {
    assert_eq!(VirtTxToken.frame_len(60), 60);
    assert_eq!(VirtTxToken.frame_len(5000), MAX_FRAME);
    assert_eq!(MAX_FRAME, MTU + 18);
}

#[test]
fn socket_kinds_compare() {
    assert!(SocketType::Tcp != SocketType::Udp);
    assert!(SocketState::Connected == SocketState::Connected);
    assert!(SocketType::Icmp == SocketType::Icmp);
}
