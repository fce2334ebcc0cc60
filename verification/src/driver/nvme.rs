//! NVMe as the driver decides it: the capability and version fields, the
//! doorbell layout, the admin and I/O commands it submits, the submission
//! and completion queue indices with the completion phase bit, the checks
//! of controller status, and the sector/LBA arithmetic of the block
//! device.  Register and DMA access stay with the caller.
use vstd::prelude::*;

verus! {

/// Entries per queue.
pub const QUEUE_DEPTH: u16 = 64;

pub const OPC_CREATE_IO_SQ: u8 = 0x01;
pub const OPC_CREATE_IO_CQ: u8 = 0x05;
pub const OPC_IDENTIFY: u8 = 0x06;
pub const OPC_READ: u8 = 0x02;
pub const OPC_WRITE: u8 = 0x01;

/// CC.EN, CSTS.RDY and CSTS.CFS.
pub const CC_EN: u32 = 1;
pub const CSTS_RDY: u32 = 1;
pub const CSTS_CFS: u32 = 2;

/// Offset of the first doorbell register.
pub const DOORBELL_BASE: u64 = 0x1000;

/// A submission queue entry (64 bytes).
#[derive(Clone, Copy, Debug, PartialEq, Eq, Structural)]
pub struct NvmeCmd {
    pub cdw0: u32,
    pub nsid: u32,
    pub cdw2: u32,
    pub cdw3: u32,
    pub mptr: u64,
    pub dptr1: u64,
    pub dptr2: u64,
    pub cdw10: u32,
    pub cdw11: u32,
    pub cdw12: u32,
    pub cdw13: u32,
    pub cdw14: u32,
    pub cdw15: u32,
}

pub open spec fn zero_cmd() -> NvmeCmd {
    NvmeCmd {
        cdw0: 0,
        nsid: 0,
        cdw2: 0,
        cdw3: 0,
        mptr: 0,
        dptr1: 0,
        dptr2: 0,
        cdw10: 0,
        cdw11: 0,
        cdw12: 0,
        cdw13: 0,
        cdw14: 0,
        cdw15: 0,
    }
}

impl NvmeCmd {
    /// All fields zero.
    pub fn zero() -> (r: Self)
        ensures
            r == zero_cmd(),
    {
        NvmeCmd {
            cdw0: 0,
            nsid: 0,
            cdw2: 0,
            cdw3: 0,
            mptr: 0,
            dptr1: 0,
            dptr2: 0,
            cdw10: 0,
            cdw11: 0,
            cdw12: 0,
            cdw13: 0,
            cdw14: 0,
            cdw15: 0,
        }
    }
}

/// CAP.MQES: largest queue size, less one.
pub fn cap_mqes(cap: u64) -> (r: u16)
    ensures
        r == cap % 0x1_0000,
{
    assert((cap & 0xFFFF) == cap % 0x1_0000) by (bit_vector);
    (cap & 0xFFFF) as u16
}

/// CAP.DSTRD: doorbell stride exponent.
pub fn cap_dstrd(cap: u64) -> (r: u8)
    ensures
        r == ((cap >> 32u64) & 0xF) as u8,
{
    ((cap >> 32u64) & 0xF) as u8
}

/// CAP.TO: ready timeout in 500 ms units.
pub fn cap_to(cap: u64) -> (r: u8)
    ensures
        r == ((cap >> 24u64) & 0xFF) as u8,
{
    ((cap >> 24u64) & 0xFF) as u8
}

/// Major, minor and tertiary version numbers of VS.
pub fn version_parts(vs: u32) -> (r: (u32, u32, u32))
    ensures
        r == ((vs >> 16u32) & 0xFF, (vs >> 8u32) & 0xFF, vs & 0xFF),
{
    ((vs >> 16u32) & 0xFF, (vs >> 8u32) & 0xFF, vs & 0xFF)
}

/// Byte distance between doorbell registers: 4 shifted by DSTRD.
pub fn doorbell_stride(dstrd: u8) -> (r: u32)
    requires
        dstrd < 16,
    ensures
        r == 4 * vstd::arithmetic::power2::pow2(dstrd as nat),
{
    let r = 4u32 << dstrd;
    proof {
        vstd::arithmetic::power2::lemma2_to64();
        if dstrd < 15 {
            vstd::arithmetic::power2::lemma_pow2_strictly_increases(dstrd as nat, 15);
        }
        vstd::bits::lemma_u32_shl_is_mul(4, dstrd as u32);
    }
    r
}

/// Offset of the doorbell of submission queue `qid` (`completion` false)
/// or completion queue `qid` (true): they alternate from `DOORBELL_BASE`.
pub fn doorbell_offset(qid: u16, completion: bool, stride: u32) -> (r: u64)
    ensures
        r == DOORBELL_BASE + (2 * qid + if completion { 1int } else { 0 }) * stride,
{
    let k: u64 = 2 * qid as u64 + if completion { 1 } else { 0 };
    proof {
        assert(k * stride <= 0x2_0000 * 0x1_0000_0000) by (nonlinear_arith)
            requires
                k <= 0x2_0000,
                stride <= 0xFFFF_FFFF,
        ;
    }
    DOORBELL_BASE + k * stride as u64
}

/// AQA: admin submission and completion queue sizes, less one.
pub fn admin_queue_attributes() -> (r: u32)
    ensures
        r == 0x3F_003F,
{
    0x3F_003F
}

/// Create I/O completion queue 1 (63 = depth less one, in the upper half
/// of CDW10) at `cq_paddr`: physically contiguous, interrupts enabled.
pub fn create_io_cq_cmd(cq_paddr: u64) -> (r: NvmeCmd)
    ensures
        r == (NvmeCmd {
            cdw0: OPC_CREATE_IO_CQ as u32,
            cdw10: 0x3F_0001,
            cdw11: 3,
            dptr1: cq_paddr,
            ..zero_cmd()
        }),
{
    NvmeCmd {
        cdw0: OPC_CREATE_IO_CQ as u32,
        cdw10: 0x3F_0001,
        cdw11: 3,
        dptr1: cq_paddr,
        ..NvmeCmd::zero()
    }
}

/// Create I/O submission queue 1 at `sq_paddr`, completing to queue 1.
pub fn create_io_sq_cmd(sq_paddr: u64) -> (r: NvmeCmd)
    ensures
        r == (NvmeCmd {
            cdw0: OPC_CREATE_IO_SQ as u32,
            cdw10: 0x3F_0001,
            cdw11: 0x1_0001,
            dptr1: sq_paddr,
            ..zero_cmd()
        }),
{
    NvmeCmd {
        cdw0: OPC_CREATE_IO_SQ as u32,
        cdw10: 0x3F_0001,
        cdw11: 0x1_0001,
        dptr1: sq_paddr,
        ..NvmeCmd::zero()
    }
}

/// Identify: the controller (CNS 1), or namespace `nsid` (CNS 0), into
/// the page at `buf`.
pub fn identify_cmd(controller: bool, nsid: u32, buf: u64) -> (r: NvmeCmd)
    ensures
        controller ==> r == (NvmeCmd { cdw0: OPC_IDENTIFY as u32, cdw10: 1, dptr1: buf, ..zero_cmd() }),
        !controller ==> r == (NvmeCmd { cdw0: OPC_IDENTIFY as u32, nsid, cdw10: 0, dptr1: buf, ..zero_cmd() }),
{
    if controller {
        NvmeCmd { cdw0: OPC_IDENTIFY as u32, cdw10: 1, dptr1: buf, ..NvmeCmd::zero() }
    } else {
        NvmeCmd { cdw0: OPC_IDENTIFY as u32, nsid, cdw10: 0, dptr1: buf, ..NvmeCmd::zero() }
    }
}

/// Read (or write) `count` blocks at `lba` of namespace 1 through the
/// buffer at `buf`.
pub fn io_cmd(write: bool, lba: u64, count: u32, buf: u64) -> (r: NvmeCmd)
    ensures
        r == (NvmeCmd {
            cdw0: if write { OPC_WRITE as u32 } else { OPC_READ as u32 },
            nsid: 1,
            dptr1: buf,
            cdw10: (lba % 0x1_0000_0000) as u32,
            cdw11: (lba / 0x1_0000_0000) as u32,
            cdw12: count,
            ..zero_cmd()
        }),
{
    let lo = (lba % 0x1_0000_0000) as u32;
    let hi = (lba / 0x1_0000_0000) as u32;
    NvmeCmd {
        cdw0: if write { OPC_WRITE as u32 } else { OPC_READ as u32 },
        nsid: 1,
        dptr1: buf,
        cdw10: lo,
        cdw11: hi,
        cdw12: count,
        ..NvmeCmd::zero()
    }
}

/// Status code of a completion's status field (bits 1..8).
pub fn status_code(status: u16) -> (r: u16)
    ensures
        r == (status >> 1u16) & 0xFF,
{
    (status >> 1u16) & 0xFF
}

/// The submission tail, completion head and expected phase of a queue
/// pair.
pub struct QueueState {
    pub sq_tail: u16,
    pub cq_head: u16,
    pub cq_phase: u8,
}

impl QueueState {
    pub open spec fn wf(&self) -> bool {
        self.sq_tail < QUEUE_DEPTH && self.cq_head < QUEUE_DEPTH && self.cq_phase <= 1
    }

    /// Empty queues; the first completions carry phase 1.
    pub fn new() -> (r: Self)
        ensures
            r.wf(),
            r.sq_tail == 0,
            r.cq_head == 0,
            r.cq_phase == 1,
    {
        QueueState { sq_tail: 0, cq_head: 0, cq_phase: 1 }
    }

    /// A command goes into the tail slot: that slot is its command id and
    /// the tail moves on, wrapping at the queue depth.
    pub fn submit(&mut self) -> (r: u16)
        requires
            old(self).wf(),
        ensures
            final(self).wf(),
            r == old(self).sq_tail,
            final(self).sq_tail == (old(self).sq_tail + 1) % 64,
            final(self).cq_head == old(self).cq_head,
            final(self).cq_phase == old(self).cq_phase,
    {
        let cid = self.sq_tail;
        self.sq_tail = (self.sq_tail + 1) % QUEUE_DEPTH;
        cid
    }

    /// The completion at the head with status `status`: when its phase bit
    /// is the expected one it is taken, the head moves on and the expected
    /// phase flips each time the head wraps; otherwise it is not there yet.
    pub fn take_completion(&mut self, status: u16) -> (r: bool)
        requires
            old(self).wf(),
        ensures
            final(self).wf(),
            r == ((status & 1) as u8 == old(self).cq_phase),
            final(self).sq_tail == old(self).sq_tail,
            r ==> final(self).cq_head == (old(self).cq_head + 1) % 64,
            r ==> final(self).cq_phase == if final(self).cq_head == 0 { 1 - old(self).cq_phase } else { old(self).cq_phase as int },
            !r ==> final(self).cq_head == old(self).cq_head && final(self).cq_phase == old(self).cq_phase,
    {
        let phase = (status & 1) as u8;
        if phase != self.cq_phase {
            return false;
        }
        self.cq_head = (self.cq_head + 1) % QUEUE_DEPTH;
        if self.cq_head == 0 {
            let p = self.cq_phase;
            assert(p ^ 1u8 == 1 - p) by (bit_vector)
                requires
                    p <= 1,
            ;
            self.cq_phase = p ^ 1;
        }
        true
    }
}

/// Before enabling: a controller in fatal state is given up.
pub fn check_not_fatal(csts: u32) -> (r: Result<(), &'static str>)
    ensures
        csts & CSTS_CFS != 0 ==> r == Err::<(), &'static str>("Controller fatal error"),
        csts & CSTS_CFS == 0 ==> r is Ok,
{
    if csts & CSTS_CFS != 0 { Err("Controller fatal error") } else { Ok(()) }
}

/// After disabling: ready must have cleared.
pub fn check_disabled(csts: u32) -> (r: Result<(), &'static str>)
    ensures
        csts & CSTS_RDY != 0 ==> r == Err::<(), &'static str>("Controller failed to disable"),
        csts & CSTS_RDY == 0 ==> r is Ok,
{
    if csts & CSTS_RDY != 0 { Err("Controller failed to disable") } else { Ok(()) }
}

/// After enabling: ready must be set and no fatal status.
pub fn check_enabled(csts: u32) -> (r: Result<(), &'static str>)
    ensures
        csts & CSTS_RDY == 0 ==> r == Err::<(), &'static str>("Controller failed to become ready"),
        csts & CSTS_RDY != 0 && csts & CSTS_CFS != 0 ==> r == Err::<(), &'static str>(
            "Controller fatal status after enable",
        ),
        csts & CSTS_RDY != 0 && csts & CSTS_CFS == 0 ==> r is Ok,
{
    if csts & CSTS_RDY == 0 {
        Err("Controller failed to become ready")
    } else if csts & CSTS_CFS != 0 {
        Err("Controller fatal status after enable")
    } else {
        Ok(())
    }
}

/// A CAP read of all zeros or all ones means no controller.
pub fn controller_present(cap: u64) -> (r: bool)
    ensures
        r == (cap != 0 && cap != u64::MAX),
{
    cap != 0 && cap != u64::MAX
}

/// Logical block size from LBADS of LBA format 0: 2^LBADS for 9..=16,
/// else 512.
pub fn block_size_from_lbads(lbads: u8) -> (r: u32)
    ensures
        9 <= lbads <= 16 ==> r == vstd::arithmetic::power2::pow2(lbads as nat),
        !(9 <= lbads <= 16) ==> r == 512,
{
    if 9 <= lbads && lbads <= 16 {
        let r = 1u32 << lbads;
        proof {
            vstd::arithmetic::power2::lemma2_to64();
            vstd::arithmetic::power2::lemma_pow2_strictly_increases(lbads as nat, 17);
            vstd::bits::lemma_u32_shl_is_mul(1, lbads as u32);
        }
        r
    } else {
        512
    }
}

/// The namespace block holding 512-byte sector `block_id`.
pub fn sector_to_lba(block_id: u64, block_size: u32) -> (r: u64)
    requires
        block_size > 0,
        block_id * 512 <= u64::MAX,
    ensures
        block_size == 512 ==> r == block_id,
        block_size != 512 ==> r == block_id * 512 / block_size as int,
{
    if block_size == 512 { block_id } else { block_id * 512 / block_size as u64 }
}

/// The namespace size in 512-byte sectors.
pub fn capacity_sectors(ns_size: u64, block_size: u32) -> (r: u64)
    requires
        ns_size * block_size <= u64::MAX,
    ensures
        r == ns_size * block_size / 512,
{
    ns_size * block_size as u64 / 512
}

/// Bytes copied for a transfer of `count` blocks with a buffer of `len`.
pub fn transfer_bytes(count: u32, block_size: u32, len: usize) -> (r: usize)
    requires
        count * block_size <= usize::MAX,
    ensures
        r == if count * block_size < len { count * block_size } else { len as int },
{
    let n = count as usize * block_size as usize;
    if n < len { n } else { len }
}

} // verus!
