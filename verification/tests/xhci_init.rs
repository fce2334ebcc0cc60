use karte::driver::usb::xhci_init::{
    controller_init_step, XhciInit, XhciInitAction, XhciInitEvent, XhciPhase, CMD_HCRST, CMD_HSEE, CMD_INTE, CMD_RUN,
    DMA_PAGES, STS_CNR, STS_HCH,
};

fn through_capabilities(st: &mut XhciInit, hcs_params1: u32, irq_line: u8) {
    assert!(matches!(
        controller_init_step(st, XhciInitEvent::Begin { bar0: 0xfebf_0000, irq_line }),
        XhciInitAction::ReadCapabilities
    ));
    assert!(matches!(
        controller_init_step(
            st,
            XhciInitEvent::Capabilities {
                cap_length: 0x20,
                hcs_params1,
                hcc_params1: 4,
                dboff: 0x2003,
                rtsoff: 0x3001,
            },
        ),
        XhciInitAction::TakeOwnership
    ));
}

#[test]
fn xhci_bring_up_sequence() {
    let mut st = XhciInit::new();
    through_capabilities(&mut st, (8 << 24) | 32, 11);
    assert_eq!(st.op_offset, 0x20);
    assert_eq!(st.db_offset, 0x2000);
    assert_eq!(st.rt_offset, 0x3000);
    assert_eq!(st.ports, 8);
    assert_eq!(st.slots, 32);
    assert_eq!(st.context_size, 64);
    assert!(matches!(controller_init_step(&mut st, XhciInitEvent::Done), XhciInitAction::ReadCommand));
    let w = controller_init_step(&mut st, XhciInitEvent::Register(CMD_RUN | CMD_INTE));
    assert!(matches!(w, XhciInitAction::WriteCommand(x) if x == CMD_INTE));
    assert!(matches!(controller_init_step(&mut st, XhciInitEvent::Done), XhciInitAction::ReadStatus));
    assert!(matches!(controller_init_step(&mut st, XhciInitEvent::Register(0)), XhciInitAction::ReadStatus));
    let w = controller_init_step(&mut st, XhciInitEvent::Register(STS_HCH));
    assert!(matches!(w, XhciInitAction::WriteCommand(x) if x == CMD_HCRST));
    assert!(matches!(controller_init_step(&mut st, XhciInitEvent::Done), XhciInitAction::ReadStatus));
    assert!(matches!(controller_init_step(&mut st, XhciInitEvent::Register(STS_CNR)), XhciInitAction::ReadStatus));
    assert!(matches!(controller_init_step(&mut st, XhciInitEvent::Register(0)), XhciInitAction::WriteConfig(32)));
    let a = controller_init_step(&mut st, XhciInitEvent::Done);
    assert!(matches!(a, XhciInitAction::AllocArena(n) if n == DMA_PAGES));
    match controller_init_step(&mut st, XhciInitEvent::Arena(Some(0x10_0000))) {
        XhciInitAction::SetupRings(l) => {
            assert_eq!(l.dcbaap, 0x10_0000);
            assert_eq!(l.erst, 0x10_1000);
            assert_eq!(l.event_ring, 0x10_2000);
            assert_eq!(l.command_ring, 0x10_3000);
            assert_eq!(l.crcr, 0x10_3001);
            assert_eq!(l.control_ring, 0x10_7000);
            assert_eq!(l.interrupt_ring, 0x10_9000);
            assert_eq!(l.endpoint_rings, 0x12_B000);
            assert_eq!(l.ring_size, 256);
        }
        _ => panic!("expected the ring layout"),
    }
    assert!(matches!(controller_init_step(&mut st, XhciInitEvent::Done), XhciInitAction::PowerPorts(8)));
    let w = controller_init_step(&mut st, XhciInitEvent::Done);
    assert!(matches!(w, XhciInitAction::WriteCommand(x) if x == CMD_RUN | CMD_INTE | CMD_HSEE));
    assert!(matches!(controller_init_step(&mut st, XhciInitEvent::Done), XhciInitAction::ReadStatus));
    assert!(matches!(controller_init_step(&mut st, XhciInitEvent::Register(0)), XhciInitAction::PowerPorts(8)));
    assert!(matches!(controller_init_step(&mut st, XhciInitEvent::Done), XhciInitAction::Done { irq: Some(11) }));
    assert!(matches!(st.phase, XhciPhase::Ready));
}

#[test]
fn xhci_zero_bar_refused() {
    let mut st = XhciInit::new();
    assert!(matches!(
        controller_init_step(&mut st, XhciInitEvent::Begin { bar0: 0, irq_line: 11 }),
        XhciInitAction::Fail("XHCI BAR0 is zero")
    ));
    assert!(matches!(st.phase, XhciPhase::Failed));
}

#[test]
fn xhci_slot_count_capped() {
    let mut st = XhciInit::new();
    through_capabilities(&mut st, (4 << 24) | 0xFF, 0);
    assert_eq!(st.slots, 64);
    assert_eq!(st.ports, 4);
}

fn to_reset(st: &mut XhciInit) {
    through_capabilities(st, (2 << 24) | 16, 0);
    controller_init_step(st, XhciInitEvent::Done);
    controller_init_step(st, XhciInitEvent::Register(0));
    controller_init_step(st, XhciInitEvent::Done);
    controller_init_step(st, XhciInitEvent::Register(STS_HCH));
    controller_init_step(st, XhciInitEvent::Done);
}

#[test]
fn xhci_reset_timeout() {
    let mut st = XhciInit::new();
    to_reset(&mut st);
    let mut reads: u32 = 0;
    loop {
        reads += 1;
        match controller_init_step(&mut st, XhciInitEvent::Register(STS_CNR)) {
            XhciInitAction::ReadStatus => {}
            XhciInitAction::Fail(msg) => {
                assert_eq!(msg, "reset timeout");
                break;
            }
            _ => panic!("unexpected action"),
        }
    }
    assert_eq!(reads, 200000);
}

#[test]
fn xhci_halt_wait_gives_up_and_resets() {
    let mut st = XhciInit::new();
    through_capabilities(&mut st, (2 << 24) | 16, 0);
    controller_init_step(&mut st, XhciInitEvent::Done);
    controller_init_step(&mut st, XhciInitEvent::Register(CMD_RUN));
    controller_init_step(&mut st, XhciInitEvent::Done);
    let mut reads: u32 = 0;
    loop {
        reads += 1;
        match controller_init_step(&mut st, XhciInitEvent::Register(0)) {
            XhciInitAction::ReadStatus => {}
            XhciInitAction::WriteCommand(x) => {
                assert_eq!(x, CMD_HCRST);
                break;
            }
            _ => panic!("unexpected action"),
        }
    }
    assert_eq!(reads, 50000);
}

#[test]
fn xhci_arena_failure() {
    let mut st = XhciInit::new();
    to_reset(&mut st);
    controller_init_step(&mut st, XhciInitEvent::Register(0));
    controller_init_step(&mut st, XhciInitEvent::Done);
    assert!(matches!(
        controller_init_step(&mut st, XhciInitEvent::Arena(None)),
        XhciInitAction::Fail("DMA alloc failed")
    ));
}

#[test]
fn xhci_foreign_event_ignored() {
    let mut st = XhciInit::new();
    assert!(matches!(controller_init_step(&mut st, XhciInitEvent::Done), XhciInitAction::Ignore));
    assert!(matches!(st.phase, XhciPhase::Start));
}
