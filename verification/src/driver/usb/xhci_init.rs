//! xHCI controller bring-up as a state machine: each step takes what the
//! last register access or allocation gave and says what to do next. The
//! caller performs the actions (MMIO, DMA, interrupt routing) and hands
//! back the results.
use vstd::prelude::*;

verus! {

/// USBCMD bits.
pub const CMD_RUN: u32 = 1;
pub const CMD_HCRST: u32 = 2;
pub const CMD_INTE: u32 = 4;
pub const CMD_HSEE: u32 = 8;

/// USBSTS bits: halted, controller not ready.
pub const STS_HCH: u32 = 1;
pub const STS_CNR: u32 = 0x800;

/// Device slots the driver supports at most.
pub const MAX_SUPPORTED_SLOTS: u8 = 64;

/// Pages of the DMA arena and the offsets of its parts.
pub const DMA_PAGES: usize = 80;
pub const DCBAA_OFF: u64 = 0;
pub const ERST_OFF: u64 = 4096;
pub const EVENT_RING_OFF: u64 = 8192;
pub const CMD_RING_OFF: u64 = 12288;
pub const CTRL_RING_OFF: u64 = 28672;
pub const INT_RING_OFF: u64 = 36864;
pub const ENDPOINT_RINGS_OFF: u64 = 176128;

/// Status reads while waiting for the controller to halt, to come out of
/// reset, and to run.
pub const HALT_POLLS: u32 = 50000;
pub const RESET_POLLS: u32 = 200000;
pub const RUN_POLLS: u32 = 10000;

/// Where the bring-up stands: the next result it waits for.
#[derive(Clone, Copy)]
pub enum XhciPhase {
    Start,
    Capabilities,
    Ownership,
    Command,
    Halting,
    Resetting,
    Configured,
    Dma,
    Rings,
    PrePower,
    Starting,
    PostPower,
    Ready,
    Failed,
}

/// The bring-up state: the phase, what the capability registers gave (the
/// register blocks' offsets from BAR0, the port and slot counts and the
/// context size), the status reads made in the current wait, the DMA arena
/// and the interrupt line.
#[derive(Clone, Copy)]
pub struct XhciInit {
    pub phase: XhciPhase,
    pub op_offset: u64,
    pub db_offset: u64,
    pub rt_offset: u64,
    pub ports: u8,
    pub slots: u8,
    pub context_size: u16,
    pub polls: u32,
    pub dma: u64,
    pub irq_line: u8,
}

/// What the last action gave.
pub enum XhciInitEvent {
    /// Start with the controller's BAR0 and its PCI interrupt line.
    Begin { bar0: u64, irq_line: u8 },
    /// The capability registers: CAPLENGTH, HCSPARAMS1, HCCPARAMS1, DBOFF
    /// and RTSOFF.
    Capabilities { cap_length: u8, hcs_params1: u32, hcc_params1: u32, dboff: u32, rtsoff: u32 },
    /// A register read: its value.
    Register(u32),
    /// The last action is done.
    Done,
    /// The DMA arena: its physical address, if allocated.
    Arena(Option<u64>),
}

/// The rings and tables of the DMA arena, at their physical addresses.
pub struct RingLayout {
    pub dcbaap: u64,
    /// CRCR: the command ring with the ring cycle state set.
    pub crcr: u64,
    /// Ring starts: each ring's last TRB is a Link TRB back to its start.
    pub command_ring: u64,
    pub control_ring: u64,
    pub interrupt_ring: u64,
    pub endpoint_rings: u64,
    pub erst: u64,
    pub event_ring: u64,
    /// Entries of each ring segment; one ERST segment.
    pub ring_size: u32,
}

/// What to do next.
pub enum XhciInitAction {
    ReadCapabilities,
    /// Take the controller from the firmware and read the Supported
    /// Protocol capabilities.
    TakeOwnership,
    ReadCommand,
    ReadStatus,
    WriteCommand(u32),
    WriteConfig(u32),
    /// Allocate (and zero) this many contiguous pages.
    AllocArena(usize),
    /// Program DCBAAP, CRCR, the Link TRBs, the ERST and interrupter 0.
    SetupRings(RingLayout),
    /// Power every root port.
    PowerPorts(u8),
    /// Route the interrupt line when there is one, and be ready.
    Done { irq: Option<u8> },
    Fail(&'static str),
    /// Nothing to do: the event does not belong to this phase.
    Ignore,
}

impl XhciInit {
    /// Status reads are counted within the longest wait.
    pub open spec fn wf(&self) -> bool {
        self.polls <= RESET_POLLS
    }

    /// A bring-up that has not started.
    pub fn new() -> (r: Self)
        ensures
            r.wf(),
            r.phase is Start,
    {
        XhciInit {
            phase: XhciPhase::Start,
            op_offset: 0,
            db_offset: 0,
            rt_offset: 0,
            ports: 0,
            slots: 0,
            context_size: 0,
            polls: 0,
            dma: 0,
            irq_line: 0,
        }
    }
}

/// The state `st` failed with `msg`.
pub open spec fn xhci_fail(st: XhciInit, msg: &'static str) -> (XhciInit, XhciInitAction) {
    (XhciInit { phase: XhciPhase::Failed, ..st }, XhciInitAction::Fail(msg))
}

/// The ring layout of the arena at `p`.
pub open spec fn ring_layout(p: u64) -> RingLayout {
    RingLayout {
        dcbaap: (p + DCBAA_OFF) as u64,
        crcr: ((p + CMD_RING_OFF) as u64) | 1,
        command_ring: (p + CMD_RING_OFF) as u64,
        control_ring: (p + CTRL_RING_OFF) as u64,
        interrupt_ring: (p + INT_RING_OFF) as u64,
        endpoint_rings: (p + ENDPOINT_RINGS_OFF) as u64,
        erst: (p + ERST_OFF) as u64,
        event_ring: (p + EVENT_RING_OFF) as u64,
        ring_size: 256,
    }
}

/// One step of the bring-up: a zero BAR0 is refused; the capability
/// registers give the operational, doorbell and runtime offsets, the port
/// count, the slot count (at most `MAX_SUPPORTED_SLOTS`) and the context
/// size (64 bytes when HCCPARAMS1 bit 2 is set, else 32); the firmware is
/// asked to let go; the controller is stopped (run cleared, up to
/// `HALT_POLLS` reads for halted), reset (up to `RESET_POLLS` reads for
/// not-ready to clear, else "reset timeout") and told the slot count; the
/// DMA arena is allocated and its rings programmed; the ports are powered,
/// the controller started with interrupts (up to `RUN_POLLS` reads for
/// halted to clear), the ports powered again, and the interrupt routed when
/// the line is 1 to 15.
pub open spec fn controller_init_spec(st: XhciInit, ev: XhciInitEvent) -> (XhciInit, XhciInitAction) {
    match (st.phase, ev) {
        (XhciPhase::Start, XhciInitEvent::Begin { bar0, irq_line }) => if bar0 == 0 {
            xhci_fail(st, "XHCI BAR0 is zero")
        } else {
            (XhciInit { phase: XhciPhase::Capabilities, irq_line, ..st }, XhciInitAction::ReadCapabilities)
        },
        (
            XhciPhase::Capabilities,
            XhciInitEvent::Capabilities { cap_length, hcs_params1, hcc_params1, dboff, rtsoff },
        ) => (
            XhciInit {
                phase: XhciPhase::Ownership,
                op_offset: cap_length as u64,
                db_offset: (dboff & !3u32) as u64,
                rt_offset: (rtsoff & !3u32) as u64,
                ports: ((hcs_params1 >> 24u32) & 0xFF) as u8,
                slots: if ((hcs_params1 & 0xFF) as u8) < MAX_SUPPORTED_SLOTS {
                    (hcs_params1 & 0xFF) as u8
                } else {
                    MAX_SUPPORTED_SLOTS
                },
                context_size: if hcc_params1 & 4 != 0 { 64 } else { 32 },
                ..st
            },
            XhciInitAction::TakeOwnership,
        ),
        (XhciPhase::Ownership, XhciInitEvent::Done) => (
            XhciInit { phase: XhciPhase::Command, ..st },
            XhciInitAction::ReadCommand,
        ),
        (XhciPhase::Command, XhciInitEvent::Register(cmd)) => (
            XhciInit { phase: XhciPhase::Halting, polls: 0, ..st },
            XhciInitAction::WriteCommand(cmd & !CMD_RUN),
        ),
        (XhciPhase::Halting, XhciInitEvent::Done) => (st, XhciInitAction::ReadStatus),
        (XhciPhase::Halting, XhciInitEvent::Register(sts)) => if sts & STS_HCH != 0 || st.polls + 1 >= HALT_POLLS {
            (XhciInit { phase: XhciPhase::Resetting, polls: 0, ..st }, XhciInitAction::WriteCommand(CMD_HCRST))
        } else {
            (XhciInit { polls: (st.polls + 1) as u32, ..st }, XhciInitAction::ReadStatus)
        },
        (XhciPhase::Resetting, XhciInitEvent::Done) => (st, XhciInitAction::ReadStatus),
        (XhciPhase::Resetting, XhciInitEvent::Register(sts)) => if sts & STS_CNR == 0 {
            (XhciInit { phase: XhciPhase::Configured, ..st }, XhciInitAction::WriteConfig(st.slots as u32))
        } else if st.polls + 1 < RESET_POLLS {
            (XhciInit { polls: (st.polls + 1) as u32, ..st }, XhciInitAction::ReadStatus)
        } else {
            xhci_fail(st, "reset timeout")
        },
        (XhciPhase::Configured, XhciInitEvent::Done) => (
            XhciInit { phase: XhciPhase::Dma, ..st },
            XhciInitAction::AllocArena(DMA_PAGES),
        ),
        (XhciPhase::Dma, XhciInitEvent::Arena(a)) => match a {
            None => xhci_fail(st, "DMA alloc failed"),
            Some(p) => if p > u64::MAX - DMA_PAGES * 4096 {
                xhci_fail(st, "DMA alloc failed")
            } else {
                (XhciInit { phase: XhciPhase::Rings, dma: p, ..st }, XhciInitAction::SetupRings(ring_layout(p)))
            },
        },
        (XhciPhase::Rings, XhciInitEvent::Done) => (
            XhciInit { phase: XhciPhase::PrePower, ..st },
            XhciInitAction::PowerPorts(st.ports),
        ),
        (XhciPhase::PrePower, XhciInitEvent::Done) => (
            XhciInit { phase: XhciPhase::Starting, polls: 0, ..st },
            XhciInitAction::WriteCommand(CMD_RUN | CMD_INTE | CMD_HSEE),
        ),
        (XhciPhase::Starting, XhciInitEvent::Done) => (st, XhciInitAction::ReadStatus),
        (XhciPhase::Starting, XhciInitEvent::Register(sts)) => if sts & STS_HCH == 0 || st.polls + 1 >= RUN_POLLS {
            (XhciInit { phase: XhciPhase::PostPower, ..st }, XhciInitAction::PowerPorts(st.ports))
        } else {
            (XhciInit { polls: (st.polls + 1) as u32, ..st }, XhciInitAction::ReadStatus)
        },
        (XhciPhase::PostPower, XhciInitEvent::Done) => (
            XhciInit { phase: XhciPhase::Ready, ..st },
            XhciInitAction::Done { irq: if 0 < st.irq_line < 16 { Some(st.irq_line) } else { None } },
        ),
        _ => (st, XhciInitAction::Ignore),
    }
}

/// The failed state and action of `st` with `msg`.
fn xhci_fail_with(st: &mut XhciInit, msg: &'static str) -> (a: XhciInitAction)
    ensures
        (*final(st), a) == xhci_fail(*old(st), msg),
{
    st.phase = XhciPhase::Failed;
    XhciInitAction::Fail(msg)
}

/// One step of the xHCI controller bring-up (see `controller_init_spec`).
pub fn controller_init_step(st: &mut XhciInit, ev: XhciInitEvent) -> (a: XhciInitAction)
    requires
        old(st).wf(),
    ensures
        final(st).wf(),
        (*final(st), a) == controller_init_spec(*old(st), ev),
{
    match (st.phase, ev) {
        (XhciPhase::Start, XhciInitEvent::Begin { bar0, irq_line }) => {
            if bar0 == 0 {
                xhci_fail_with(st, "XHCI BAR0 is zero")
            } else {
                st.phase = XhciPhase::Capabilities;
                st.irq_line = irq_line;
                XhciInitAction::ReadCapabilities
            }
        },
        (
            XhciPhase::Capabilities,
            XhciInitEvent::Capabilities { cap_length, hcs_params1, hcc_params1, dboff, rtsoff },
        ) => {
            st.phase = XhciPhase::Ownership;
            st.op_offset = cap_length as u64;
            st.db_offset = (dboff & !3u32) as u64;
            st.rt_offset = (rtsoff & !3u32) as u64;
            st.ports = ((hcs_params1 >> 24u32) & 0xFF) as u8;
            let hw_slots = (hcs_params1 & 0xFF) as u8;
            st.slots = if hw_slots < MAX_SUPPORTED_SLOTS { hw_slots } else { MAX_SUPPORTED_SLOTS };
            st.context_size = if hcc_params1 & 4 != 0 { 64 } else { 32 };
            XhciInitAction::TakeOwnership
        },
        (XhciPhase::Ownership, XhciInitEvent::Done) => {
            st.phase = XhciPhase::Command;
            XhciInitAction::ReadCommand
        },
        (XhciPhase::Command, XhciInitEvent::Register(cmd)) => {
            st.phase = XhciPhase::Halting;
            st.polls = 0;
            XhciInitAction::WriteCommand(cmd & !CMD_RUN)
        },
        (XhciPhase::Halting, XhciInitEvent::Done) => XhciInitAction::ReadStatus,
        (XhciPhase::Halting, XhciInitEvent::Register(sts)) => {
            if sts & STS_HCH != 0 || st.polls + 1 >= HALT_POLLS {
                st.phase = XhciPhase::Resetting;
                st.polls = 0;
                XhciInitAction::WriteCommand(CMD_HCRST)
            } else {
                st.polls = st.polls + 1;
                XhciInitAction::ReadStatus
            }
        },
        (XhciPhase::Resetting, XhciInitEvent::Done) => XhciInitAction::ReadStatus,
        (XhciPhase::Resetting, XhciInitEvent::Register(sts)) => {
            if sts & STS_CNR == 0 {
                st.phase = XhciPhase::Configured;
                XhciInitAction::WriteConfig(st.slots as u32)
            } else if st.polls + 1 < RESET_POLLS {
                st.polls = st.polls + 1;
                XhciInitAction::ReadStatus
            } else {
                xhci_fail_with(st, "reset timeout")
            }
        },
        (XhciPhase::Configured, XhciInitEvent::Done) => {
            st.phase = XhciPhase::Dma;
            XhciInitAction::AllocArena(DMA_PAGES)
        },
        (XhciPhase::Dma, XhciInitEvent::Arena(a)) => match a {
            None => xhci_fail_with(st, "DMA alloc failed"),
            Some(p) => {
                if p > u64::MAX - (DMA_PAGES as u64) * 4096 {
                    xhci_fail_with(st, "DMA alloc failed")
                } else {
                    st.phase = XhciPhase::Rings;
                    st.dma = p;
                    let command_ring = p + CMD_RING_OFF;
                    XhciInitAction::SetupRings(
                        RingLayout {
                            dcbaap: p + DCBAA_OFF,
                            crcr: command_ring | 1,
                            command_ring,
                            control_ring: p + CTRL_RING_OFF,
                            interrupt_ring: p + INT_RING_OFF,
                            endpoint_rings: p + ENDPOINT_RINGS_OFF,
                            erst: p + ERST_OFF,
                            event_ring: p + EVENT_RING_OFF,
                            ring_size: 256,
                        },
                    )
                }
            },
        },
        (XhciPhase::Rings, XhciInitEvent::Done) => {
            st.phase = XhciPhase::PrePower;
            XhciInitAction::PowerPorts(st.ports)
        },
        (XhciPhase::PrePower, XhciInitEvent::Done) => {
            st.phase = XhciPhase::Starting;
            st.polls = 0;
            XhciInitAction::WriteCommand(CMD_RUN | CMD_INTE | CMD_HSEE)
        },
        (XhciPhase::Starting, XhciInitEvent::Done) => XhciInitAction::ReadStatus,
        (XhciPhase::Starting, XhciInitEvent::Register(sts)) => {
            if sts & STS_HCH == 0 || st.polls + 1 >= RUN_POLLS {
                st.phase = XhciPhase::PostPower;
                XhciInitAction::PowerPorts(st.ports)
            } else {
                st.polls = st.polls + 1;
                XhciInitAction::ReadStatus
            }
        },
        (XhciPhase::PostPower, XhciInitEvent::Done) => {
            st.phase = XhciPhase::Ready;
            let irq = if 0 < st.irq_line && st.irq_line < 16 { Some(st.irq_line) } else { None };
            XhciInitAction::Done { irq }
        },
        _ => XhciInitAction::Ignore,
    }
}

} // verus!
