//! xHCI bookkeeping that needs no register access: the TRB and ERST
//! layouts, endpoint context indices and intervals, the root-port protocol
//! map built from the Supported Protocol capabilities, PORTSC write values,
//! and the root-port change bits.
use vstd::prelude::*;

use crate::driver::usb::UsbSpeed;

verus! {

/// TRB types.
pub const TRB_NORMAL: u32 = 1;
pub const TRB_SETUP_STAGE: u32 = 2;
pub const TRB_DATA_STAGE: u32 = 3;
pub const TRB_STATUS_STAGE: u32 = 4;
pub const TRB_LINK: u32 = 6;
pub const TRB_ENABLE_SLOT: u32 = 9;
pub const TRB_DISABLE_SLOT: u32 = 10;
pub const TRB_ADDRESS_DEV: u32 = 11;
pub const TRB_CONFIGURE_EP: u32 = 12;
pub const TRB_EVALUATE_CTX: u32 = 13;
pub const TRB_NOOP: u32 = 23;
pub const TRB_TRANSFER_EVENT: u32 = 32;
pub const TRB_CMD_COMPLETE: u32 = 33;
pub const TRB_PORT_STATUS_CHANGE: u32 = 34;

/// The cycle bit of a TRB control word.
pub const TRB_CYCLE_BIT: u32 = 1;

/// Completion codes.
pub const TRB_CC_SUCCESS: u32 = 1;
pub const TRB_CC_SHORT_PACKET: u32 = 13;

/// Extended capability IDs.
pub const XEC_ID_LEGACY: u32 = 1;
pub const XEC_ID_PROTOCOL: u32 = 2;

/// PORTSC bits.
pub const PORT_CCS: u32 = 0x1;
pub const PORT_PED: u32 = 0x2;
pub const PORT_PR: u32 = 0x10;
pub const PORT_PP: u32 = 0x200;
pub const PORT_CSC: u32 = 0x2_0000;
pub const PORT_PEC: u32 = 0x4_0000;
pub const PORT_WRC: u32 = 0x8_0000;
pub const PORT_OCC: u32 = 0x10_0000;
pub const PORT_PRC: u32 = 0x20_0000;
pub const PORT_PLC: u32 = 0x40_0000;
pub const PORT_CEC: u32 = 0x80_0000;
pub const PORT_WPR: u32 = 0x8000_0000;
/// All write-1-to-clear change bits.
pub const PORT_CHANGE_MASK: u32 = 0xFE_0000;
/// The control bits written back: power and the protocol's reset bit.
pub const PORT_WRITE_MASK_USB2: u32 = 0x210;
pub const PORT_WRITE_MASK_USB3: u32 = 0x8000_0200;
pub const PORT_WRITE_MASK_DEFAULT: u32 = 0x210;

/// Length of the per-port protocol tables (logical ports 1..255).
pub const PORT_CAPS_LEN: usize = 256;

/// Offset of the per-endpoint transfer rings in the DMA arena, and the
/// stride between them.
pub const EP_RING_BASE_OFF: usize = 176128;

/// A transfer request block (16 bytes).
#[derive(Clone, Copy, Debug, PartialEq, Eq, Structural)]
pub struct Trb {
    pub parameter: u64,
    pub status: u32,
    pub control: u32,
}

/// A TRB control word: type in bits 10-15 over the flag bits.
pub open spec fn control_word(trb_type: u32, flags: u32) -> u32 {
    ((trb_type << 10u32) | flags) as u32
}

impl Trb {
    /// An all-zero TRB.
    pub fn zero() -> (r: Self)
        ensures
            r == (Trb { parameter: 0, status: 0, control: 0 }),
    {
        Trb { parameter: 0, status: 0, control: 0 }
    }

    /// The control word of a TRB of type `trb_type` with `flags` (see
    /// `control_word`).
    pub fn control(trb_type: u32, flags: u32) -> (r: u32)
        ensures
            r == control_word(trb_type, flags),
    {
        (trb_type << 10u32) | flags
    }

    /// The TRB type (bits 10-15 of the control word).
    pub fn trb_type(&self) -> (r: u32)
        ensures
            r == (self.control >> 10u32) & 0x3F,
    {
        (self.control >> 10u32) & 0x3F
    }

    /// The cycle bit.
    pub fn cycle(&self) -> (r: bool)
        ensures
            r == (self.control & TRB_CYCLE_BIT != 0),
    {
        self.control & TRB_CYCLE_BIT != 0
    }

    /// The completion code (bits 24-31 of the status word).
    pub fn completion_code(&self) -> (r: u32)
        ensures
            r == (self.status >> 24u32) & 0xFF,
    {
        (self.status >> 24u32) & 0xFF
    }

    /// The slot ID (bits 24-31 of the control word).
    pub fn slot_id(&self) -> (r: u8)
        ensures
            r == ((self.control >> 24u32) & 0xFF) as u8,
    {
        ((self.control >> 24u32) & 0xFF) as u8
    }

    /// The endpoint ID (bits 16-20 of the control word).
    pub fn endpoint_id(&self) -> (r: u8)
        ensures
            r == ((self.control >> 16u32) & 0x1F) as u8,
    {
        ((self.control >> 16u32) & 0x1F) as u8
    }
}

/// The type and flags written into a control word are read back: the type
/// when it fits in 6 bits and no flag sits in the type field, the cycle bit
/// as given.
pub proof fn lemma_control_roundtrip(trb_type: u32, flags: u32)
    requires
        trb_type < 64,
        flags & 0xFC00 == 0,
    ensures
        (control_word(trb_type, flags) >> 10u32) & 0x3F == trb_type,
        (control_word(trb_type, flags) & TRB_CYCLE_BIT != 0) == (flags & 1 != 0),
{
    assert(((((trb_type << 10u32) | flags) as u32) >> 10u32) & 0x3F == trb_type) by (bit_vector)
        requires
            trb_type < 64,
            flags & 0xFC00 == 0,
    ;
    assert(((((trb_type << 10u32) | flags) as u32) & 1 != 0) == (flags & 1 != 0)) by (bit_vector)
        requires
            trb_type < 64,
    ;
}

/// An Event Ring Segment Table entry (16 bytes).
#[derive(Clone, Copy, Debug, PartialEq, Eq, Structural)]
pub struct ErstEntry {
    pub ring_seg_addr_lo: u32,
    pub ring_seg_addr_hi: u32,
    pub ring_seg_size: u32,
    pub reserved: u32,
}

/// The Device Context Index of endpoint `ep_number`: 1 for the control
/// endpoint, else twice the number plus one for IN.
pub fn endpoint_dci(ep_number: u8, dir_in: bool) -> (r: u8)
    requires
        ep_number < 128,
    ensures
        r == if ep_number == 0 {
            1
        } else {
            2 * ep_number + if dir_in { 1int } else { 0int }
        },
{
    if ep_number == 0 {
        1
    } else {
        2 * ep_number + if dir_in { 1 } else { 0 }
    }
}

/// floor(log2(v)) for v >= 1 (0 for 0).
pub open spec fn log2_floor(v: nat) -> nat
    decreases v,
{
    if v <= 1 {
        0
    } else {
        1 + log2_floor(v / 2)
    }
}

proof fn lemma_log2_floor_le(v: nat)
    ensures
        log2_floor(v) <= v,
        v >= 1 ==> log2_floor(v) < v,
    decreases v,
{
    if v > 1 {
        lemma_log2_floor_le(v / 2);
    }
}

/// The Endpoint Context interval exponent for an interrupt endpoint:
/// full/low speed count bInterval in 1 ms frames, given as log2 of the
/// 125 us microframes, at least 3; high/super speed use bInterval - 1 with
/// bInterval clamped to 1..16; unknown speeds get 3.
pub open spec fn interval_exponent(speed: UsbSpeed, b_interval: u8) -> u32 {
    match speed {
        UsbSpeed::Low | UsbSpeed::Full => {
            let frames = if b_interval < 1 { 1nat } else { b_interval as nat };
            let l = log2_floor(frames * 8);
            if l < 3 { 3 } else { l as u32 }
        },
        UsbSpeed::High | UsbSpeed::Super => {
            if b_interval < 1 {
                0
            } else if b_interval > 16 {
                15
            } else {
                (b_interval - 1) as u32
            }
        },
        UsbSpeed::Unknown => 3,
    }
}

/// The interval exponent for an interrupt endpoint (see
/// `interval_exponent`).
pub fn xhci_interrupt_interval(speed: UsbSpeed, b_interval: u8) -> (r: u32)
    ensures
        r == interval_exponent(speed, b_interval),
{
    match speed {
        UsbSpeed::Low | UsbSpeed::Full => {
            let frames: u32 = if b_interval < 1 { 1 } else { b_interval as u32 };
            let microframes: u32 = frames * 8;
            let mut interval: u32 = 0;
            let mut value: u32 = microframes;
            while value > 1
                invariant
                    1 <= value,
                    interval + log2_floor(value as nat) == log2_floor(microframes as nat),
                    microframes <= 2040,
                    interval <= microframes,
                decreases value,
            {
                proof {
                    lemma_log2_floor_le(microframes as nat);
                }
                value = value / 2;
                interval = interval + 1;
            }
            if interval < 3 { 3 } else { interval }
        },
        UsbSpeed::High | UsbSpeed::Super => {
            if b_interval < 1 {
                0
            } else if b_interval > 16 {
                15
            } else {
                (b_interval - 1) as u32
            }
        },
        UsbSpeed::Unknown => 3,
    }
}

/// Dword index of the Slot Context in the Input Context, for contexts of
/// `ctx_dwords` dwords (after the Input Control Context).
pub fn slot_ctx_dword(ctx_dwords: usize) -> (r: usize)
    ensures
        r == ctx_dwords,
{
    ctx_dwords
}

/// Dword index of the Endpoint Context of `dci` in the Input Context.
pub fn ep_ctx_dword(ctx_dwords: usize, dci: u8) -> (r: usize)
    requires
        ctx_dwords <= 16,
    ensures
        r == ctx_dwords + ctx_dwords * dci,
{
    assert(ctx_dwords * dci <= 16 * 255) by (nonlinear_arith)
        requires
            ctx_dwords <= 16,
            dci <= 255,
    ;
    ctx_dwords + ctx_dwords * dci as usize
}

/// Dword index of the Endpoint Context of `dci` in the Output Context.
pub fn output_ep_ctx_dword(ctx_dwords: usize, dci: u8) -> (r: usize)
    requires
        ctx_dwords <= 16,
    ensures
        r == ctx_dwords * dci,
{
    assert(ctx_dwords * dci <= 16 * 255) by (nonlinear_arith)
        requires
            ctx_dwords <= 16,
            dci <= 255,
    ;
    ctx_dwords * dci as usize
}

/// Offset of the transfer ring of `dci` in the DMA arena (a page each).
pub fn endpoint_ring_off(dci: u8) -> (r: usize)
    ensures
        r == EP_RING_BASE_OFF + dci * 4096,
{
    EP_RING_BASE_OFF + dci as usize * 4096
}

/// Per logical port (1-based): the USB major revision that the Supported
/// Protocol capabilities declared (0 if none) and its 0-based PORTSC index
/// (0 meaning "not declared": the index is then `port - 1`).
pub struct PortMap {
    pub major_rev: Vec<u8>,
    pub mmio_idx: Vec<u8>,
}

/// What one Supported Protocol capability declares: its major revision,
/// first logical port and port count.
pub open spec fn protocol_major(header: u32) -> u8 {
    (header / 0x100_0000) as u8
}

/// The first logical port (bits 0-7 of dword 2).
pub open spec fn protocol_first_port(port_info: u32) -> int {
    (port_info % 256) as int
}

/// The number of ports (bits 8-15 of dword 2).
pub open spec fn protocol_port_count(port_info: u32) -> int {
    ((port_info / 256) % 256) as int
}

/// Logical port `p` is declared by a capability with `port_info` on a
/// controller with `max_ports` ports.
pub open spec fn declares(port_info: u32, max_ports: int, p: int) -> bool {
    let first = protocol_first_port(port_info);
    let count = protocol_port_count(port_info);
    &&& first != 0 && count != 0
    &&& first <= p < first + count
    &&& 1 <= p < PORT_CAPS_LEN
    &&& p <= max_ports
}

impl PortMap {
    /// Both tables have `PORT_CAPS_LEN` entries.
    pub open spec fn wf(&self) -> bool {
        self.major_rev@.len() == PORT_CAPS_LEN && self.mmio_idx@.len() == PORT_CAPS_LEN
    }

    /// No port declared.
    pub fn new() -> (r: Self)
        ensures
            r.wf(),
            forall|p: int| 0 <= p < PORT_CAPS_LEN ==> r.major_rev@[p] == 0 && r.mmio_idx@[p] == 0,
    {
        let mut major_rev: Vec<u8> = Vec::new();
        let mut mmio_idx: Vec<u8> = Vec::new();
        let mut i: usize = 0;
        while i < PORT_CAPS_LEN
            invariant
                i <= PORT_CAPS_LEN,
                major_rev@.len() == i,
                mmio_idx@.len() == i,
                forall|p: int| 0 <= p < i ==> major_rev@[p] == 0 && mmio_idx@[p] == 0,
            decreases PORT_CAPS_LEN - i,
        {
            major_rev.push(0);
            mmio_idx.push(0);
            i = i + 1;
        }
        PortMap { major_rev, mmio_idx }
    }

    /// Forgets what was declared for ports 1..=max_ports (before a new
    /// scan of the capabilities).
    pub fn reset(&mut self, max_ports: usize)
        requires
            old(self).wf(),
        ensures
            final(self).wf(),
            forall|p: int|
                0 <= p < PORT_CAPS_LEN ==> if 1 <= p <= max_ports {
                    final(self).major_rev@[p] == 0 && final(self).mmio_idx@[p] == 0
                } else {
                    final(self).major_rev@[p] == old(self).major_rev@[p] && final(self).mmio_idx@[p]
                        == old(self).mmio_idx@[p]
                },
    {
        let last = if max_ports < PORT_CAPS_LEN - 1 { max_ports } else { PORT_CAPS_LEN - 1 };
        let mut p: usize = 1;
        while p <= last
            invariant
                self.wf(),
                1 <= p <= last + 1,
                last < PORT_CAPS_LEN,
                last == if max_ports < PORT_CAPS_LEN - 1 { max_ports } else { (PORT_CAPS_LEN - 1) as usize },
                forall|q: int|
                    0 <= q < PORT_CAPS_LEN ==> if 1 <= q < p {
                        self.major_rev@[q] == 0 && self.mmio_idx@[q] == 0
                    } else {
                        self.major_rev@[q] == old(self).major_rev@[q] && self.mmio_idx@[q]
                            == old(self).mmio_idx@[q]
                    },
            decreases last + 1 - p,
        {
            self.major_rev.set(p, 0);
            self.mmio_idx.set(p, 0);
            p = p + 1;
        }
    }

    /// Records one Supported Protocol capability (`header` is its dword 0,
    /// `port_info` its dword 2): each declared port gets the major revision
    /// and the PORTSC index `port - 1`. Returns the major revision.
    pub fn apply_protocol(&mut self, header: u32, port_info: u32, max_ports: usize) -> (r: u8)
        requires
            old(self).wf(),
        ensures
            final(self).wf(),
            r == protocol_major(header),
            forall|p: int|
                0 <= p < PORT_CAPS_LEN ==> if declares(port_info, max_ports as int, p) {
                    final(self).major_rev@[p] == protocol_major(header) && final(self).mmio_idx@[p]
                        == (p - 1) as u8
                } else {
                    final(self).major_rev@[p] == old(self).major_rev@[p] && final(self).mmio_idx@[p]
                        == old(self).mmio_idx@[p]
                },
    {
        let major = (header / 0x100_0000) as u8;
        let port_offset = (port_info % 256) as usize;
        let port_count = ((port_info / 256) % 256) as usize;
        if port_offset == 0 || port_count == 0 {
            return major;
        }
        let mut i: usize = 0;
        while i < port_count
            invariant_except_break
                self.wf(),
                i <= port_count,
                port_offset == protocol_first_port(port_info),
                port_count == protocol_port_count(port_info),
                port_offset != 0,
                port_count != 0,
                major == protocol_major(header),
                forall|q: int|
                    0 <= q < PORT_CAPS_LEN ==> if declares(port_info, max_ports as int, q) && q < port_offset + i {
                        self.major_rev@[q] == major && self.mmio_idx@[q] == (q - 1) as u8
                    } else {
                        self.major_rev@[q] == old(self).major_rev@[q] && self.mmio_idx@[q]
                            == old(self).mmio_idx@[q]
                    },
            ensures
                self.wf(),
                forall|q: int|
                    0 <= q < PORT_CAPS_LEN ==> if declares(port_info, max_ports as int, q) {
                        self.major_rev@[q] == major && self.mmio_idx@[q] == (q - 1) as u8
                    } else {
                        self.major_rev@[q] == old(self).major_rev@[q] && self.mmio_idx@[q]
                            == old(self).mmio_idx@[q]
                    },
            decreases port_count - i,
        {
            let logical = port_offset + i;
            if logical >= PORT_CAPS_LEN || logical > max_ports {
                break;
            }
            self.major_rev.set(logical, major);
            self.mmio_idx.set(logical, (logical - 1) as u8);
            i = i + 1;
        }
        major
    }

    /// The 0-based PORTSC index of logical port `port`: the declared index,
    /// or `port - 1` when none was declared (or the port is out of the
    /// table; 0 for port 0).
    pub fn port_mmio_index(&self, port: usize) -> (r: usize)
        requires
            self.wf(),
        ensures
            r == if port == 0 {
                0
            } else if port >= PORT_CAPS_LEN || self.mmio_idx@[port as int] == 0 {
                (port - 1) as usize
            } else {
                self.mmio_idx@[port as int] as usize
            },
    {
        if port == 0 {
            return 0;
        }
        if port >= PORT_CAPS_LEN {
            return port - 1;
        }
        let idx = self.mmio_idx[port];
        if idx == 0 {
            port - 1
        } else {
            idx as usize
        }
    }

    /// The declared USB major revision of logical port `port` (0 if none).
    pub fn port_major_rev(&self, port: usize) -> (r: u8)
        requires
            self.wf(),
        ensures
            r == if port == 0 || port >= PORT_CAPS_LEN {
                0
            } else {
                self.major_rev@[port as int]
            },
    {
        if port == 0 || port >= PORT_CAPS_LEN {
            return 0;
        }
        self.major_rev[port]
    }

    /// The value to write to PORTSC of `port` after reading `sc`: only the
    /// control bits we own (power and the protocol's reset bit) and the
    /// change bits in `clear_changes`, so that status and other change
    /// bits are not echoed back.
    pub fn portsc_write_value(&self, port: usize, sc: u32, clear_changes: u32) -> (r: u32)
        requires
            self.wf(),
        ensures
            ({
                let rev = if port == 0 || port >= PORT_CAPS_LEN {
                    0u8
                } else {
                    self.major_rev@[port as int]
                };
                let mask = if rev == 3 {
                    PORT_WRITE_MASK_USB3
                } else if rev == 2 {
                    PORT_WRITE_MASK_USB2
                } else {
                    PORT_WRITE_MASK_DEFAULT
                };
                r == (sc & mask) | (clear_changes & PORT_CHANGE_MASK)
            }),
    {
        let mask = match self.port_major_rev(port) {
            3 => PORT_WRITE_MASK_USB3,
            2 => PORT_WRITE_MASK_USB2,
            _ => PORT_WRITE_MASK_DEFAULT,
        };
        (sc & mask) | (clear_changes & PORT_CHANGE_MASK)
    }
}

/// Byte offset of the next extended capability after the one at `offset`
/// with dword 0 `header`; 0 at the end of the list.
pub fn next_ext_cap_offset(offset: usize, header: u32) -> (r: usize)
    requires
        offset + 1024 <= usize::MAX,
    ensures
        r == if (header / 256) % 256 == 0 {
            0
        } else {
            offset + ((header / 256) % 256) * 4
        },
{
    let next = ((header / 256) % 256) as usize;
    if next == 0 {
        0
    } else {
        offset + next * 4
    }
}

/// Root ports that changed status since the last look, one bit per port
/// (bit N for port N + 1).
pub struct RootPortChanges {
    pub bits: u64,
}

impl RootPortChanges {
    /// No change seen.
    pub fn new() -> (r: Self)
        ensures
            r.bits == 0,
    {
        RootPortChanges { bits: 0 }
    }

    /// Notes a status change on logical port `port` (1..=64).
    pub fn note_change(&mut self, port: usize)
        requires
            1 <= port <= 64,
        ensures
            final(self).bits == old(self).bits | (1u64 << ((port - 1) as u64)),
    {
        self.bits = self.bits | (1u64 << ((port - 1) as u64));
    }

    /// Takes the changes seen so far, leaving none.
    pub fn take_root_port_changes(&mut self) -> (r: u64)
        ensures
            r == old(self).bits,
            final(self).bits == 0,
    {
        let b = self.bits;
        self.bits = 0;
        b
    }
}

} // verus!
