//! NVMe controller bring-up as a state machine: each step takes what the
//! last register access, allocation or admin command gave and says what to
//! do next. The caller performs the actions (register and DMA access) and
//! hands back the results.
use vstd::prelude::*;

use crate::driver::nvme::{
    admin_queue_attributes, block_size_from_lbads, cap_dstrd, cap_to, controller_present, create_io_cq_cmd,
    create_io_sq_cmd, doorbell_stride, zero_cmd, NvmeCmd, CC_EN, CSTS_CFS, CSTS_RDY,
    DOORBELL_BASE, OPC_CREATE_IO_CQ, OPC_CREATE_IO_SQ,
};

verus! {

/// Status polls per 500 ms unit of CAP.TO.
pub const POLLS_PER_TIMEOUT_UNIT: u64 = 50000;

/// Where the bring-up stands: the next result it waits for.
#[derive(Clone, Copy)]
pub enum NvmePhase {
    Start,
    Cap,
    FatalCheck,
    Config,
    Disabling,
    AdminSq,
    AdminCq,
    AdminProgrammed,
    Enabling,
    IdentifyController,
    IdentifyNamespace,
    IoCq,
    IoSq,
    CreateCq,
    CreateSq,
    Prp,
    Ready,
    Failed,
}

/// The bring-up state: the phase, what CAP gave (doorbell stride, ready
/// timeout), the status polls made in the current wait, the queue buffers
/// and what the Identify commands gave.
#[derive(Clone, Copy)]
pub struct NvmeInit {
    pub phase: NvmePhase,
    pub stride: u32,
    pub timeout: u8,
    pub polls: u64,
    pub sq: u64,
    pub cq: u64,
    pub ns_count: u32,
    pub ns_size: u64,
    pub block_size: u32,
}

/// What the last action gave.
pub enum NvmeEvent {
    /// Start the bring-up.
    Begin,
    /// A register read: its value.
    Register(u64),
    /// A register write is done.
    Written,
    /// A buffer allocation: its physical address, if any.
    Buffer(Option<u64>),
    /// Identify Controller: the namespace count, or the error.
    Controller(Result<u32, &'static str>),
    /// Identify Namespace: its size in blocks and the LBADS of format 0.
    Namespace(Result<(u64, u8), &'static str>),
    /// An admin command completed, or failed.
    Command(Result<(), &'static str>),
}

/// What to do next.
pub enum NvmeAction {
    ReadCap,
    ReadStatus,
    ReadConfig,
    WriteConfig(u32),
    AllocQueueBuffer,
    ProgramAdmin { aqa: u32, asq: u64, acq: u64, sq_doorbell: u64, cq_doorbell: u64 },
    IdentifyController,
    IdentifyNamespace(u32),
    Submit(NvmeCmd),
    SetIoDoorbellsAndAllocPrp { sq_doorbell: u64, cq_doorbell: u64 },
    Done { ns_count: u32, ns_size: u64, block_size: u32 },
    Fail(&'static str),
    /// Nothing to do: the event does not belong to this phase.
    Ignore,
}

impl NvmeInit {
    /// Polls are counted within the ready timeout.
    pub open spec fn wf(&self) -> bool {
        self.polls <= 256 * POLLS_PER_TIMEOUT_UNIT
    }

    /// A bring-up that has not started.
    pub fn new() -> (r: Self)
        ensures
            r.wf(),
            r.phase is Start,
            r.polls == 0,
    {
        NvmeInit { phase: NvmePhase::Start, stride: 0, timeout: 0, polls: 0, sq: 0, cq: 0, ns_count: 0, ns_size: 0, block_size: 0 }
    }
}

/// The polls a wait for a ready change may make: CAP.TO + 1 units.
pub open spec fn poll_limit(timeout: u8) -> u64 {
    ((timeout + 1) * POLLS_PER_TIMEOUT_UNIT) as u64
}

/// The state `st` failed with `msg`.
pub open spec fn nvme_fail(st: NvmeInit, msg: &'static str) -> (NvmeInit, NvmeAction) {
    (NvmeInit { phase: NvmePhase::Failed, ..st }, NvmeAction::Fail(msg))
}

/// A status poll in a wait for ready to become `want`: on it, `next`;
/// otherwise another poll while the limit allows, else `msg`.
pub open spec fn nvme_poll(st: NvmeInit, csts: u32, want: bool, msg: &'static str) -> (NvmeInit, NvmeAction) {
    if (csts & CSTS_RDY != 0) == want {
        (st, NvmeAction::Ignore)
    } else if st.polls + 1 < poll_limit(st.timeout) {
        (NvmeInit { polls: (st.polls + 1) as u64, ..st }, NvmeAction::ReadStatus)
    } else {
        nvme_fail(st, msg)
    }
}

/// One step of the bring-up: the controller must answer CAP (else no
/// controller), must not be in fatal state, is disabled when enabled
/// (waiting for ready to clear), gets its admin queues (AQA, ASQ, ACQ and
/// the doorbells at the stride CAP gives), is enabled (waiting for ready,
/// without fatal status), identifies itself (at least one namespace) and
/// namespace 1 (size and block size), and gets I/O completion queue 1 and
/// submission queue 1, their doorbells and a PRP buffer.
pub open spec fn nvme_step_spec(st: NvmeInit, ev: NvmeEvent) -> (NvmeInit, NvmeAction) {
    match (st.phase, ev) {
        (NvmePhase::Start, NvmeEvent::Begin) => (NvmeInit { phase: NvmePhase::Cap, ..st }, NvmeAction::ReadCap),
        (NvmePhase::Cap, NvmeEvent::Register(cap)) => if !(cap != 0 && cap != u64::MAX) {
            nvme_fail(st, "No NVMe controller at BAR0")
        } else {
            (
                NvmeInit {
                    phase: NvmePhase::FatalCheck,
                    stride: (4 * vstd::arithmetic::power2::pow2(((cap >> 32u64) & 0xF) as nat)) as u32,
                    timeout: ((cap >> 24u64) & 0xFF) as u8,
                    ..st
                },
                NvmeAction::ReadStatus,
            )
        },
        (NvmePhase::FatalCheck, NvmeEvent::Register(v)) => if (v as u32) & CSTS_CFS != 0 {
            nvme_fail(st, "Controller fatal error")
        } else {
            (NvmeInit { phase: NvmePhase::Config, ..st }, NvmeAction::ReadConfig)
        },
        (NvmePhase::Config, NvmeEvent::Register(v)) => if (v as u32) & CC_EN != 0 {
            (NvmeInit { phase: NvmePhase::Disabling, polls: 0, ..st }, NvmeAction::WriteConfig((v as u32) & !CC_EN))
        } else {
            (NvmeInit { phase: NvmePhase::AdminSq, ..st }, NvmeAction::AllocQueueBuffer)
        },
        (NvmePhase::Disabling, NvmeEvent::Written) => (st, NvmeAction::ReadStatus),
        (NvmePhase::Disabling, NvmeEvent::Register(v)) => if (v as u32) & CSTS_RDY == 0 {
            (NvmeInit { phase: NvmePhase::AdminSq, ..st }, NvmeAction::AllocQueueBuffer)
        } else {
            nvme_poll(st, v as u32, false, "Controller failed to disable")
        },
        (NvmePhase::AdminSq, NvmeEvent::Buffer(b)) => match b {
            None => nvme_fail(st, "Failed to allocate SQ memory"),
            Some(p) => (NvmeInit { phase: NvmePhase::AdminCq, sq: p, ..st }, NvmeAction::AllocQueueBuffer),
        },
        (NvmePhase::AdminCq, NvmeEvent::Buffer(b)) => match b {
            None => nvme_fail(st, "Failed to allocate CQ memory"),
            Some(p) => (
                NvmeInit { phase: NvmePhase::AdminProgrammed, cq: p, ..st },
                NvmeAction::ProgramAdmin {
                    aqa: 0x3F_003F,
                    asq: st.sq,
                    acq: p,
                    sq_doorbell: DOORBELL_BASE,
                    cq_doorbell: (DOORBELL_BASE + st.stride) as u64,
                },
            ),
        },
        (NvmePhase::AdminProgrammed, NvmeEvent::Written) => (
            NvmeInit { phase: NvmePhase::Enabling, polls: 0, ..st },
            NvmeAction::WriteConfig(CC_EN),
        ),
        (NvmePhase::Enabling, NvmeEvent::Written) => (st, NvmeAction::ReadStatus),
        (NvmePhase::Enabling, NvmeEvent::Register(v)) => if (v as u32) & CSTS_RDY != 0 {
            if (v as u32) & CSTS_CFS != 0 {
                nvme_fail(st, "Controller fatal status after enable")
            } else {
                (NvmeInit { phase: NvmePhase::IdentifyController, ..st }, NvmeAction::IdentifyController)
            }
        } else {
            nvme_poll(st, v as u32, true, "Controller failed to become ready")
        },
        (NvmePhase::IdentifyController, NvmeEvent::Controller(res)) => match res {
            Err(e) => nvme_fail(st, e),
            Ok(nn) => if nn == 0 {
                nvme_fail(st, "No NVMe namespaces found")
            } else {
                (NvmeInit { phase: NvmePhase::IdentifyNamespace, ns_count: nn, ..st }, NvmeAction::IdentifyNamespace(1))
            },
        },
        (NvmePhase::IdentifyNamespace, NvmeEvent::Namespace(res)) => match res {
            Err(e) => nvme_fail(st, e),
            Ok((nsze, lbads)) => (
                NvmeInit {
                    phase: NvmePhase::IoCq,
                    ns_size: nsze,
                    block_size: if 9 <= lbads <= 16 {
                        vstd::arithmetic::power2::pow2(lbads as nat) as u32
                    } else {
                        512
                    },
                    ..st
                },
                NvmeAction::AllocQueueBuffer,
            ),
        },
        (NvmePhase::IoCq, NvmeEvent::Buffer(b)) => match b {
            None => nvme_fail(st, "Failed to allocate CQ memory"),
            Some(p) => (NvmeInit { phase: NvmePhase::IoSq, cq: p, ..st }, NvmeAction::AllocQueueBuffer),
        },
        (NvmePhase::IoSq, NvmeEvent::Buffer(b)) => match b {
            None => nvme_fail(st, "Failed to allocate SQ memory"),
            Some(p) => (
                NvmeInit { phase: NvmePhase::CreateCq, sq: p, ..st },
                NvmeAction::Submit(
                    NvmeCmd {
                        cdw0: OPC_CREATE_IO_CQ as u32,
                        cdw10: 0x3F_0001,
                        cdw11: 3,
                        dptr1: st.cq,
                        ..zero_cmd()
                    },
                ),
            ),
        },
        (NvmePhase::CreateCq, NvmeEvent::Command(res)) => match res {
            Err(e) => nvme_fail(st, e),
            Ok(_) => (
                NvmeInit { phase: NvmePhase::CreateSq, ..st },
                NvmeAction::Submit(
                    NvmeCmd {
                        cdw0: OPC_CREATE_IO_SQ as u32,
                        cdw10: 0x3F_0001,
                        cdw11: 0x1_0001,
                        dptr1: st.sq,
                        ..zero_cmd()
                    },
                ),
            ),
        },
        (NvmePhase::CreateSq, NvmeEvent::Command(res)) => match res {
            Err(e) => nvme_fail(st, e),
            Ok(_) => (
                NvmeInit { phase: NvmePhase::Prp, ..st },
                NvmeAction::SetIoDoorbellsAndAllocPrp {
                    sq_doorbell: (DOORBELL_BASE + 2 * st.stride) as u64,
                    cq_doorbell: (DOORBELL_BASE + 3 * st.stride) as u64,
                },
            ),
        },
        (NvmePhase::Prp, NvmeEvent::Buffer(b)) => match b {
            None => nvme_fail(st, "Failed to allocate NVMe PRP buffer"),
            Some(_) => (
                NvmeInit { phase: NvmePhase::Ready, ..st },
                NvmeAction::Done { ns_count: st.ns_count, ns_size: st.ns_size, block_size: st.block_size },
            ),
        },
        _ => (st, NvmeAction::Ignore),
    }
}

/// The failed state and action of `st` with `msg`.
fn fail_with(st: &mut NvmeInit, msg: &'static str) -> (a: NvmeAction)
    ensures
        (*final(st), a) == nvme_fail(*old(st), msg),
{
    st.phase = NvmePhase::Failed;
    NvmeAction::Fail(msg)
}

/// A status poll in a ready wait (see `nvme_poll`), when ready is not yet
/// as wanted.
fn poll_again(st: &mut NvmeInit, msg: &'static str) -> (a: NvmeAction)
    requires
        old(st).wf(),
    ensures
        final(st).wf(),
        (*final(st), a) == (if old(st).polls + 1 < poll_limit(old(st).timeout) {
            (NvmeInit { polls: (old(st).polls + 1) as u64, ..*old(st) }, NvmeAction::ReadStatus)
        } else {
            nvme_fail(*old(st), msg)
        }),
{
    let limit: u64 = (st.timeout as u64 + 1) * POLLS_PER_TIMEOUT_UNIT;
    if st.polls + 1 < limit {
        st.polls = st.polls + 1;
        NvmeAction::ReadStatus
    } else {
        fail_with(st, msg)
    }
}

/// One step of the NVMe bring-up (see `nvme_step_spec`).
pub fn nvme_init_step(st: &mut NvmeInit, ev: NvmeEvent) -> (a: NvmeAction)
    requires
        old(st).wf(),
    ensures
        final(st).wf(),
        (*final(st), a) == nvme_step_spec(*old(st), ev),
{
    match (st.phase, ev) {
        (NvmePhase::Start, NvmeEvent::Begin) => {
            st.phase = NvmePhase::Cap;
            NvmeAction::ReadCap
        },
        (NvmePhase::Cap, NvmeEvent::Register(cap)) => {
            if !controller_present(cap) {
                fail_with(st, "No NVMe controller at BAR0")
            } else {
                let d = cap_dstrd(cap);
                assert(((cap >> 32u64) & 0xF) < 16) by (bit_vector);
                st.stride = doorbell_stride(d);
                st.timeout = cap_to(cap);
                st.phase = NvmePhase::FatalCheck;
                NvmeAction::ReadStatus
            }
        },
        (NvmePhase::FatalCheck, NvmeEvent::Register(v)) => {
            if (v as u32) & CSTS_CFS != 0 {
                fail_with(st, "Controller fatal error")
            } else {
                st.phase = NvmePhase::Config;
                NvmeAction::ReadConfig
            }
        },
        (NvmePhase::Config, NvmeEvent::Register(v)) => {
            if (v as u32) & CC_EN != 0 {
                st.phase = NvmePhase::Disabling;
                st.polls = 0;
                NvmeAction::WriteConfig((v as u32) & !CC_EN)
            } else {
                st.phase = NvmePhase::AdminSq;
                NvmeAction::AllocQueueBuffer
            }
        },
        (NvmePhase::Disabling, NvmeEvent::Written) => NvmeAction::ReadStatus,
        (NvmePhase::Disabling, NvmeEvent::Register(v)) => {
            if (v as u32) & CSTS_RDY == 0 {
                st.phase = NvmePhase::AdminSq;
                NvmeAction::AllocQueueBuffer
            } else {
                poll_again(st, "Controller failed to disable")
            }
        },
        (NvmePhase::AdminSq, NvmeEvent::Buffer(b)) => match b {
            None => fail_with(st, "Failed to allocate SQ memory"),
            Some(p) => {
                st.phase = NvmePhase::AdminCq;
                st.sq = p;
                NvmeAction::AllocQueueBuffer
            },
        },
        (NvmePhase::AdminCq, NvmeEvent::Buffer(b)) => match b {
            None => fail_with(st, "Failed to allocate CQ memory"),
            Some(p) => {
                st.phase = NvmePhase::AdminProgrammed;
                st.cq = p;
                let sq_doorbell = DOORBELL_BASE;
                let cq_doorbell = DOORBELL_BASE + st.stride as u64;
                NvmeAction::ProgramAdmin { aqa: admin_queue_attributes(), asq: st.sq, acq: p, sq_doorbell, cq_doorbell }
            },
        },
        (NvmePhase::AdminProgrammed, NvmeEvent::Written) => {
            st.phase = NvmePhase::Enabling;
            st.polls = 0;
            NvmeAction::WriteConfig(CC_EN)
        },
        (NvmePhase::Enabling, NvmeEvent::Written) => NvmeAction::ReadStatus,
        (NvmePhase::Enabling, NvmeEvent::Register(v)) => {
            if (v as u32) & CSTS_RDY != 0 {
                if (v as u32) & CSTS_CFS != 0 {
                    fail_with(st, "Controller fatal status after enable")
                } else {
                    st.phase = NvmePhase::IdentifyController;
                    NvmeAction::IdentifyController
                }
            } else {
                poll_again(st, "Controller failed to become ready")
            }
        },
        (NvmePhase::IdentifyController, NvmeEvent::Controller(res)) => match res {
            Err(e) => fail_with(st, e),
            Ok(nn) => {
                if nn == 0 {
                    fail_with(st, "No NVMe namespaces found")
                } else {
                    st.phase = NvmePhase::IdentifyNamespace;
                    st.ns_count = nn;
                    NvmeAction::IdentifyNamespace(1)
                }
            },
        },
        (NvmePhase::IdentifyNamespace, NvmeEvent::Namespace(res)) => match res {
            Err(e) => fail_with(st, e),
            Ok((nsze, lbads)) => {
                st.phase = NvmePhase::IoCq;
                st.ns_size = nsze;
                st.block_size = block_size_from_lbads(lbads);
                NvmeAction::AllocQueueBuffer
            },
        },
        (NvmePhase::IoCq, NvmeEvent::Buffer(b)) => match b {
            None => fail_with(st, "Failed to allocate CQ memory"),
            Some(p) => {
                st.phase = NvmePhase::IoSq;
                st.cq = p;
                NvmeAction::AllocQueueBuffer
            },
        },
        (NvmePhase::IoSq, NvmeEvent::Buffer(b)) => match b {
            None => fail_with(st, "Failed to allocate SQ memory"),
            Some(p) => {
                st.phase = NvmePhase::CreateCq;
                st.sq = p;
                NvmeAction::Submit(create_io_cq_cmd(st.cq))
            },
        },
        (NvmePhase::CreateCq, NvmeEvent::Command(res)) => match res {
            Err(e) => fail_with(st, e),
            Ok(_) => {
                st.phase = NvmePhase::CreateSq;
                NvmeAction::Submit(create_io_sq_cmd(st.sq))
            },
        },
        (NvmePhase::CreateSq, NvmeEvent::Command(res)) => match res {
            Err(e) => fail_with(st, e),
            Ok(_) => {
                st.phase = NvmePhase::Prp;
                let sq_doorbell = DOORBELL_BASE + 2 * st.stride as u64;
                let cq_doorbell = DOORBELL_BASE + 3 * st.stride as u64;
                NvmeAction::SetIoDoorbellsAndAllocPrp { sq_doorbell, cq_doorbell }
            },
        },
        (NvmePhase::Prp, NvmeEvent::Buffer(b)) => match b {
            None => fail_with(st, "Failed to allocate NVMe PRP buffer"),
            Some(_) => {
                st.phase = NvmePhase::Ready;
                NvmeAction::Done { ns_count: st.ns_count, ns_size: st.ns_size, block_size: st.block_size }
            },
        },
        _ => NvmeAction::Ignore,
    }
}

} // verus!
