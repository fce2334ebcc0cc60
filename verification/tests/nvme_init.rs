use karte::driver::nvme::{OPC_CREATE_IO_CQ, OPC_CREATE_IO_SQ};
use karte::driver::nvme_init::{nvme_init_step, NvmeAction, NvmeEvent, NvmeInit, NvmePhase};

fn cap_with_timeout(to: u64) -> u64 {
    (to << 24) | 0xFF
}

fn admin_ready(st: &mut NvmeInit) {
    assert!(matches!(nvme_init_step(st, NvmeEvent::Begin), NvmeAction::ReadCap));
    assert!(matches!(nvme_init_step(st, NvmeEvent::Register(cap_with_timeout(0x14))), NvmeAction::ReadStatus));
    assert_eq!(st.stride, 4);
    assert_eq!(st.timeout, 0x14);
    assert!(matches!(nvme_init_step(st, NvmeEvent::Register(0)), NvmeAction::ReadConfig));
    assert!(matches!(nvme_init_step(st, NvmeEvent::Register(0)), NvmeAction::AllocQueueBuffer));
    assert!(matches!(nvme_init_step(st, NvmeEvent::Buffer(Some(0x10000))), NvmeAction::AllocQueueBuffer));
    match nvme_init_step(st, NvmeEvent::Buffer(Some(0x20000))) {
        NvmeAction::ProgramAdmin { aqa, asq, acq, sq_doorbell, cq_doorbell } => {
            assert_eq!(aqa, 0x3F_003F);
            assert_eq!(asq, 0x10000);
            assert_eq!(acq, 0x20000);
            assert_eq!(sq_doorbell, 0x1000);
            assert_eq!(cq_doorbell, 0x1004);
        }
        _ => panic!("expected ProgramAdmin"),
    }
    assert!(matches!(nvme_init_step(st, NvmeEvent::Written), NvmeAction::WriteConfig(1)));
    assert!(matches!(nvme_init_step(st, NvmeEvent::Written), NvmeAction::ReadStatus));
    assert!(matches!(nvme_init_step(st, NvmeEvent::Register(0)), NvmeAction::ReadStatus));
    assert!(matches!(nvme_init_step(st, NvmeEvent::Register(1)), NvmeAction::IdentifyController));
}

#[test]
fn nvme_bring_up_reaches_ready() {
    let mut st = NvmeInit::new();
    admin_ready(&mut st);
    assert!(matches!(nvme_init_step(&mut st, NvmeEvent::Controller(Ok(1))), NvmeAction::IdentifyNamespace(1)));
    assert!(matches!(nvme_init_step(&mut st, NvmeEvent::Namespace(Ok((2048, 9)))), NvmeAction::AllocQueueBuffer));
    assert_eq!(st.block_size, 512);
    assert!(matches!(nvme_init_step(&mut st, NvmeEvent::Buffer(Some(0x30000))), NvmeAction::AllocQueueBuffer));
    match nvme_init_step(&mut st, NvmeEvent::Buffer(Some(0x40000))) {
        NvmeAction::Submit(cmd) => {
            assert_eq!(cmd.cdw0, OPC_CREATE_IO_CQ as u32);
            assert_eq!(cmd.cdw10, 0x3F_0001);
            assert_eq!(cmd.cdw11, 3);
            assert_eq!(cmd.dptr1, 0x30000);
        }
        _ => panic!("expected the completion queue command"),
    }
    match nvme_init_step(&mut st, NvmeEvent::Command(Ok(()))) {
        NvmeAction::Submit(cmd) => {
            assert_eq!(cmd.cdw0, OPC_CREATE_IO_SQ as u32);
            assert_eq!(cmd.cdw10, 0x3F_0001);
            assert_eq!(cmd.cdw11, 0x1_0001);
            assert_eq!(cmd.dptr1, 0x40000);
        }
        _ => panic!("expected the submission queue command"),
    }
    match nvme_init_step(&mut st, NvmeEvent::Command(Ok(()))) {
        NvmeAction::SetIoDoorbellsAndAllocPrp { sq_doorbell, cq_doorbell } => {
            assert_eq!(sq_doorbell, 0x1008);
            assert_eq!(cq_doorbell, 0x100C);
        }
        _ => panic!("expected the I/O doorbells"),
    }
    match nvme_init_step(&mut st, NvmeEvent::Buffer(Some(0x50000))) {
        NvmeAction::Done { ns_count, ns_size, block_size } => {
            assert_eq!(ns_count, 1);
            assert_eq!(ns_size, 2048);
            assert_eq!(block_size, 512);
        }
        _ => panic!("expected Done"),
    }
    assert!(matches!(st.phase, NvmePhase::Ready));
}

#[test]
fn nvme_block_size_from_lbads() {
    let mut st = NvmeInit::new();
    admin_ready(&mut st);
    nvme_init_step(&mut st, NvmeEvent::Controller(Ok(2)));
    nvme_init_step(&mut st, NvmeEvent::Namespace(Ok((100, 12))));
    assert_eq!(st.block_size, 4096);
    assert_eq!(st.ns_count, 2);
    assert_eq!(st.ns_size, 100);
}

#[test]
fn nvme_no_controller() {
    for cap in [0u64, u64::MAX] {
        let mut st = NvmeInit::new();
        nvme_init_step(&mut st, NvmeEvent::Begin);
        assert!(matches!(
            nvme_init_step(&mut st, NvmeEvent::Register(cap)),
            NvmeAction::Fail("No NVMe controller at BAR0")
        ));
        assert!(matches!(st.phase, NvmePhase::Failed));
    }
}

#[test]
fn nvme_fatal_status_refused() {
    let mut st = NvmeInit::new();
    nvme_init_step(&mut st, NvmeEvent::Begin);
    nvme_init_step(&mut st, NvmeEvent::Register(cap_with_timeout(1)));
    assert!(matches!(nvme_init_step(&mut st, NvmeEvent::Register(2)), NvmeAction::Fail("Controller fatal error")));
}

#[test]
fn nvme_enabled_controller_is_disabled_first() {
    let mut st = NvmeInit::new();
    nvme_init_step(&mut st, NvmeEvent::Begin);
    nvme_init_step(&mut st, NvmeEvent::Register(cap_with_timeout(1)));
    nvme_init_step(&mut st, NvmeEvent::Register(0));
    assert!(matches!(nvme_init_step(&mut st, NvmeEvent::Register(0x0046_0001)), NvmeAction::WriteConfig(0x0046_0000)));
    assert!(matches!(nvme_init_step(&mut st, NvmeEvent::Written), NvmeAction::ReadStatus));
    assert!(matches!(nvme_init_step(&mut st, NvmeEvent::Register(1)), NvmeAction::ReadStatus));
    assert_eq!(st.polls, 1);
    assert!(matches!(nvme_init_step(&mut st, NvmeEvent::Register(0)), NvmeAction::AllocQueueBuffer));
}

#[test]
fn nvme_ready_wait_times_out() {
    let mut st = NvmeInit::new();
    nvme_init_step(&mut st, NvmeEvent::Begin);
    nvme_init_step(&mut st, NvmeEvent::Register(cap_with_timeout(0)));
    nvme_init_step(&mut st, NvmeEvent::Register(0));
    nvme_init_step(&mut st, NvmeEvent::Register(0));
    nvme_init_step(&mut st, NvmeEvent::Buffer(Some(0x1000)));
    nvme_init_step(&mut st, NvmeEvent::Buffer(Some(0x2000)));
    nvme_init_step(&mut st, NvmeEvent::Written);
    nvme_init_step(&mut st, NvmeEvent::Written);
    let mut reads: u64 = 0;
    loop {
        reads += 1;
        match nvme_init_step(&mut st, NvmeEvent::Register(0)) {
            NvmeAction::ReadStatus => {}
            NvmeAction::Fail(msg) => {
                assert_eq!(msg, "Controller failed to become ready");
                break;
            }
            _ => panic!("unexpected action"),
        }
    }
    assert_eq!(reads, 50000);
}

#[test]
fn nvme_ready_with_fatal_status_fails() {
    let mut st = NvmeInit::new();
    admin_ready_until_enable(&mut st);
    assert!(matches!(
        nvme_init_step(&mut st, NvmeEvent::Register(3)),
        NvmeAction::Fail("Controller fatal status after enable")
    ));
}

fn admin_ready_until_enable(st: &mut NvmeInit) {
    nvme_init_step(st, NvmeEvent::Begin);
    nvme_init_step(st, NvmeEvent::Register(cap_with_timeout(1)));
    nvme_init_step(st, NvmeEvent::Register(0));
    nvme_init_step(st, NvmeEvent::Register(0));
    nvme_init_step(st, NvmeEvent::Buffer(Some(0x1000)));
    nvme_init_step(st, NvmeEvent::Buffer(Some(0x2000)));
    nvme_init_step(st, NvmeEvent::Written);
    nvme_init_step(st, NvmeEvent::Written);
}

#[test]
fn nvme_identify_errors() {
    let mut st = NvmeInit::new();
    admin_ready(&mut st);
    assert!(matches!(
        nvme_init_step(&mut st, NvmeEvent::Controller(Ok(0))),
        NvmeAction::Fail("No NVMe namespaces found")
    ));
    let mut st = NvmeInit::new();
    admin_ready(&mut st);
    assert!(matches!(
        nvme_init_step(&mut st, NvmeEvent::Controller(Err("Identify Controller failed"))),
        NvmeAction::Fail("Identify Controller failed")
    ));
}

#[test]
fn nvme_allocation_failures() {
    let mut st = NvmeInit::new();
    nvme_init_step(&mut st, NvmeEvent::Begin);
    nvme_init_step(&mut st, NvmeEvent::Register(cap_with_timeout(1)));
    nvme_init_step(&mut st, NvmeEvent::Register(0));
    nvme_init_step(&mut st, NvmeEvent::Register(0));
    assert!(matches!(
        nvme_init_step(&mut st, NvmeEvent::Buffer(None)),
        NvmeAction::Fail("Failed to allocate SQ memory")
    ));
}

#[test]
fn nvme_foreign_event_ignored() {
    let mut st = NvmeInit::new();
    assert!(matches!(nvme_init_step(&mut st, NvmeEvent::Written), NvmeAction::Ignore));
    assert!(matches!(st.phase, NvmePhase::Start));
}
