use karte::driver::nvme::{
    admin_queue_attributes, block_size_from_lbads, cap_dstrd, cap_mqes, cap_to, capacity_sectors, check_disabled,
    check_enabled, check_not_fatal, controller_present, create_io_cq_cmd, create_io_sq_cmd, doorbell_offset,
    doorbell_stride, identify_cmd, io_cmd, sector_to_lba, status_code, transfer_bytes, version_parts, NvmeCmd,
    QueueState,
};

#[test]
fn capability_and_version_fields() {
    let cap: u64 = 0x0000_0002_2000_07FF;
    assert_eq!(cap_mqes(cap), 0x07FF);
    assert_eq!(cap_dstrd(cap), 2);
    assert_eq!(cap_to(cap), 0x20);
    assert_eq!(version_parts(0x0001_0400), (1, 4, 0));
    assert!(controller_present(cap));
    assert!(!controller_present(0));
    assert!(!controller_present(u64::MAX));
}

#[test]
fn doorbells_alternate_submission_and_completion() {
    let stride = doorbell_stride(0);
    assert_eq!(stride, 4);
    assert_eq!(doorbell_stride(2), 16);
    assert_eq!(doorbell_offset(0, false, stride), 0x1000);
    assert_eq!(doorbell_offset(0, true, stride), 0x1004);
    assert_eq!(doorbell_offset(1, false, stride), 0x1008);
    assert_eq!(doorbell_offset(1, true, 16), 0x1030);
    assert_eq!(admin_queue_attributes(), 0x003F_003F);
}

#[test]
fn admin_commands() {
    let cq = create_io_cq_cmd(0x5000);
    assert_eq!((cq.cdw0, cq.cdw10, cq.cdw11, cq.dptr1), (5, 0x003F_0001, 3, 0x5000));
    let sq = create_io_sq_cmd(0x6000);
    assert_eq!((sq.cdw0, sq.cdw10, sq.cdw11, sq.dptr1), (1, 0x003F_0001, 0x0001_0001, 0x6000));
    let id = identify_cmd(true, 0, 0x7000);
    assert_eq!((id.cdw0, id.cdw10, id.nsid, id.dptr1), (6, 1, 0, 0x7000));
    let ns = identify_cmd(false, 1, 0x7000);
    assert_eq!((ns.cdw10, ns.nsid), (0, 1));
    assert_eq!(NvmeCmd::zero().cdw12, 0);
}

#[test]
fn io_commands_split_the_lba() {
    let r = io_cmd(false, 0x1_2345_6789, 8, 0x9000);
    assert_eq!((r.cdw0, r.nsid, r.cdw10, r.cdw11, r.cdw12, r.dptr1), (2, 1, 0x2345_6789, 1, 8, 0x9000));
    assert_eq!(io_cmd(true, 7, 1, 0).cdw0, 1);
    assert_eq!(status_code(0x0001), 0);
    assert_eq!(status_code(0x0005), 2);
}

#[test]
fn submission_tail_wraps() {
    let mut q = QueueState::new();
    for i in 0..64u16 {
        assert_eq!(q.submit(), i);
    }
    assert_eq!(q.sq_tail, 0);
    assert_eq!(q.submit(), 0);
}

#[test]
fn completions_follow_the_phase_bit() {
    let mut q = QueueState::new();
    assert!(!q.take_completion(0));
    assert!(q.take_completion(1));
    assert_eq!(q.cq_head, 1);
    for _ in 1..64 {
        assert!(q.take_completion(1));
    }
    // wrapped: the next lap carries phase 0
    assert_eq!((q.cq_head, q.cq_phase), (0, 0));
    assert!(!q.take_completion(1));
    assert!(q.take_completion(0));
}

#[test]
fn status_checks() {
    assert_eq!(check_not_fatal(2), Err("Controller fatal error"));
    assert!(check_not_fatal(1).is_ok());
    assert_eq!(check_disabled(1), Err("Controller failed to disable"));
    assert!(check_disabled(0).is_ok());
    assert_eq!(check_enabled(0), Err("Controller failed to become ready"));
    assert_eq!(check_enabled(3), Err("Controller fatal status after enable"));
    assert!(check_enabled(1).is_ok());
}

#[test]
fn block_arithmetic() {
    assert_eq!(block_size_from_lbads(9), 512);
    assert_eq!(block_size_from_lbads(12), 4096);
    assert_eq!(block_size_from_lbads(8), 512);
    assert_eq!(block_size_from_lbads(17), 512);
    assert_eq!(sector_to_lba(10, 512), 10);
    assert_eq!(sector_to_lba(10, 4096), 1);
    assert_eq!(capacity_sectors(1000, 4096), 8000);
    assert_eq!(transfer_bytes(1, 4096, 512), 512);
    assert_eq!(transfer_bytes(1, 512, 4096), 512);
}
