use karte::driver::tty::Tty;
use karte::driver::usb::hid::KeyState;
use karte::driver::usb::ring::{
    feed_report_bytes, process_event, report_bytes, trb_address, EventAction, EventRing, ProducerRing, RING_SIZE,
};
use karte::driver::usb::xhci::{Trb, TRB_LINK, TRB_NORMAL, TRB_PORT_STATUS_CHANGE, TRB_TRANSFER_EVENT};

fn trb(ty: u32, flags: u32) -> Trb {
    Trb { parameter: 0x1000, status: 8, control: Trb::control(ty, flags) }
}

#[test]
fn new_ring_has_a_link_trb_back_to_its_base() {
    let r = ProducerRing::new(0x8000);
    assert_eq!(r.trbs.len(), RING_SIZE);
    assert_eq!(r.index, 0);
    assert!(r.cycle);
    let link = r.trbs[RING_SIZE - 1];
    assert_eq!(link.parameter, 0x8000);
    assert_eq!(link.trb_type(), TRB_LINK);
    assert!(link.cycle());
    assert_eq!(r.trbs[0], Trb::zero());
}

#[test]
fn enqueue_writes_the_next_slot_with_the_given_cycle_bit() {
    let mut r = ProducerRing::new(0x8000);
    assert_eq!(r.enqueue(trb(TRB_NORMAL, 0), true), 0);
    assert_eq!(r.enqueue(trb(TRB_NORMAL, 1), false), 1);
    assert!(r.trbs[0].cycle());
    assert!(!r.trbs[1].cycle());
    assert_eq!(r.trbs[1].trb_type(), TRB_NORMAL);
    assert_eq!(r.index, 2);
    assert_eq!(r.next_slot(), 2);
}

#[test]
fn ring_wraps_at_the_link_trb_and_flips_its_cycle() {
    let mut r = ProducerRing::new(0x8000);
    for i in 0..RING_SIZE - 1 {
        assert_eq!(r.enqueue(trb(TRB_NORMAL, 0), true), i);
    }
    assert_eq!(r.index, RING_SIZE - 1);
    assert_eq!(r.next_slot(), 0);
    // the cycle bit handed in is what the link and the TRB get
    assert_eq!(r.enqueue(trb(TRB_NORMAL, 0), true), 0);
    assert!(!r.cycle);
    assert_eq!(r.index, 1);
    assert!(r.trbs[RING_SIZE - 1].cycle());
    let slot = r.enqueue(trb(TRB_NORMAL, 0), false);
    assert_eq!(slot, 1);
    assert!(!r.trbs[1].cycle());
}

#[test]
fn trb_addresses() {
    assert_eq!(trb_address(0x10000, 0), 0x10000);
    assert_eq!(trb_address(0x10000, 255), 0x10000 + 255 * 16);
}

fn event(ty: u32, cycle: bool) -> Trb {
    Trb { parameter: 0, status: 1 << 24, control: Trb::control(ty, if cycle { 1 } else { 0 }) }
}

#[test]
fn event_ring_takes_events_until_the_cycle_bit_differs() {
    let mut evts = vec![event(TRB_TRANSFER_EVENT, false); RING_SIZE];
    evts[0] = event(TRB_PORT_STATUS_CHANGE, true);
    evts[1] = event(TRB_TRANSFER_EVENT, true);
    let mut ring = EventRing::new();
    assert_eq!(ring.pending(&evts), Some(evts[0]));
    let got = ring.drain(&evts);
    assert_eq!(got, vec![evts[0], evts[1]]);
    assert_eq!((ring.index, ring.cycle), (2, true));
    assert_eq!(ring.pending(&evts), None);
    assert!(ring.drain(&evts).is_empty());
}

#[test]
fn event_ring_wraps_and_flips_its_cycle() {
    let mut evts = vec![event(TRB_TRANSFER_EVENT, true); RING_SIZE];
    evts[0] = event(TRB_TRANSFER_EVENT, false);
    evts[1] = event(TRB_TRANSFER_EVENT, true);
    let mut ring = EventRing { index: 250, cycle: true };
    let got = ring.drain(&evts);
    // slots 250..=255 with cycle 1, then slot 0 with cycle 0 on the next lap
    assert_eq!(got.len(), 7);
    assert_eq!((ring.index, ring.cycle), (1, false));
    // a full lap of matching events stops where it began
    let all = vec![event(TRB_TRANSFER_EVENT, true); RING_SIZE];
    let mut ring = EventRing::new();
    assert_eq!(ring.drain(&all).len(), RING_SIZE);
    assert_eq!((ring.index, ring.cycle), (0, false));
}

#[test]
fn erdp_points_at_the_consumer_with_the_busy_bit() {
    let mut ring = EventRing::new();
    ring.advance();
    ring.advance();
    assert_eq!(ring.erdp(0x1_2345_0000), (0x2345_0020 | 8, 1));
    let mut ring = EventRing { index: 255, cycle: true };
    ring.advance();
    assert_eq!((ring.index, ring.cycle), (0, false));
}

#[test]
fn events_map_to_actions() {
    // transfer event on slot 3, endpoint 3 with success
    let ok = Trb { parameter: 0, status: 1 << 24, control: (3 << 24) | (3 << 16) | (TRB_TRANSFER_EVENT << 10) };
    assert_eq!(process_event(ok, Some((3, 3))), EventAction::KeyboardTransfer { deliver: true });
    let short = Trb { status: 13 << 24, ..ok };
    assert_eq!(process_event(short, Some((3, 3))), EventAction::KeyboardTransfer { deliver: true });
    let stall = Trb { status: 6 << 24, ..ok };
    assert_eq!(process_event(stall, Some((3, 3))), EventAction::KeyboardTransfer { deliver: false });
    assert_eq!(process_event(ok, Some((2, 3))), EventAction::Ignore);
    assert_eq!(process_event(ok, None), EventAction::Ignore);
    assert_eq!(process_event(event(TRB_PORT_STATUS_CHANGE, true), None), EventAction::PortChange);
    assert_eq!(process_event(event(33, true), Some((3, 3))), EventAction::Ignore);
}

#[test]
fn report_bytes_follow_slot_order_and_caps_lock() {
    let mut keys = KeyState::new();
    // shift held, 'a' and '1' pressed
    assert_eq!(report_bytes(&mut keys, &[0x02, 0, 0x04, 0x1E, 0, 0, 0, 0]), b"A!".to_vec());
    // caps lock then 'b' in the same report
    assert_eq!(report_bytes(&mut keys, &[0, 0, 0x39, 0x05, 0, 0, 0, 0]), b"B".to_vec());
    assert!(keys.caps);
    // an unmapped usage gives nothing
    assert_eq!(report_bytes(&mut keys, &[0, 0, 0x3A, 0, 0, 0, 0, 0]), Vec::<u8>::new());
}

#[test]
fn report_keys_reach_the_tty() {
    let mut keys = KeyState::new();
    let mut tty = Tty::new();
    let effects = feed_report_bytes(&mut keys, &mut tty, &[0, 0, 0x0B, 0x0C, 0x28, 0, 0, 0]);
    assert_eq!(effects.len(), 3);
    assert!(tty.has_input());
    assert_eq!(tty.read(10), b"hi\n".to_vec());
}
