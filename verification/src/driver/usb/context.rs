//! What the xHCI driver writes for a device, computed as values: the TRBs
//! of a control transfer and its outcome, the Input Contexts of the
//! Address Device, Evaluate Context and Configure Endpoint commands, and
//! the decisions taken while a root-port device is enumerated.
use vstd::prelude::*;

use crate::driver::usb::xhci::{
    control_word, endpoint_dci, xhci_interrupt_interval, interval_exponent, Trb, EP_RING_BASE_OFF,
    TRB_CC_SUCCESS, TRB_DATA_STAGE, TRB_SETUP_STAGE, TRB_STATUS_STAGE,
};
use crate::driver::usb::{
    is_interrupt_in, EndpointDescriptor, InterfaceDescriptor, InterfaceView, ParsedConfiguration, SetupPacket,
    UsbSpeed, USB_CLASS_HUB, USB_DESC_CONFIGURATION, USB_DESC_DEVICE, USB_DIR_IN, USB_DIR_OUT,
    USB_RECIP_DEVICE, USB_REQ_GET_DESCRIPTOR, USB_REQ_SET_CONFIGURATION, USB_TYPE_STANDARD,
};

verus! {

/// Interrupt-On-Completion.
pub const TRB_IOC: u32 = 0x20;

/// Immediate Data: the Setup Stage TRB carries the setup packet itself.
pub const TRB_IDT: u32 = 0x40;

/// Setup Stage transfer types (bits 16-17): no data, IN data, OUT data.
pub const TRB_TRT_NONE: u32 = 0;
pub const TRB_TRT_IN: u32 = 0x2_0000;
pub const TRB_TRT_OUT: u32 = 0x3_0000;

/// Data and Status Stage direction bit (bit 16).
pub const TRB_DIR_IN: u32 = 0x1_0000;
pub const TRB_DIR_OUT: u32 = 0;

/// The TRBs of a control transfer with setup packet `setup` whose data
/// stage (if `setup` asks for data) goes IN when `dir_in` and uses the
/// buffer at `data_phys`: Setup, then Data, then Status with IOC; the
/// status stage runs opposite to an IN data stage, else IN.
pub open spec fn control_trbs_spec(setup: SetupPacket, dir_in: bool, data_phys: u64) -> Seq<Trb> {
    let has_data = setup.w_length > 0;
    let trt = if !has_data {
        TRB_TRT_NONE
    } else if dir_in {
        TRB_TRT_IN
    } else {
        TRB_TRT_OUT
    };
    let setup_trb = Trb {
        parameter: setup.trb_parameter(),
        status: 8,
        control: control_word(TRB_SETUP_STAGE, trt | TRB_IDT),
    };
    let status_dir = if has_data && dir_in {
        TRB_DIR_OUT
    } else {
        TRB_DIR_IN
    };
    let status_trb = Trb { parameter: 0, status: 0, control: control_word(TRB_STATUS_STAGE, status_dir | TRB_IOC) };
    if has_data {
        let data_trb = Trb {
            parameter: data_phys,
            status: setup.w_length as u32,
            control: control_word(TRB_DATA_STAGE, if dir_in { TRB_DIR_IN } else { TRB_DIR_OUT }),
        };
        seq![setup_trb, data_trb, status_trb]
    } else {
        seq![setup_trb, status_trb]
    }
}

/// The TRBs to enqueue for a control transfer (see `control_trbs_spec`).
pub fn control_trbs(setup: &SetupPacket, dir_in: bool, data_phys: u64) -> (r: Vec<Trb>)
    ensures
        r@ == control_trbs_spec(*setup, dir_in, data_phys),
{
    let has_data = setup.w_length > 0;
    let trt: u32 = if !has_data {
        TRB_TRT_NONE
    } else if dir_in {
        TRB_TRT_IN
    } else {
        TRB_TRT_OUT
    };
    let mut v: Vec<Trb> = Vec::new();
    v.push(Trb { parameter: setup.encode_trb_parameter(), status: 8, control: Trb::control(TRB_SETUP_STAGE, trt | TRB_IDT) });
    if has_data {
        let dir: u32 = if dir_in { TRB_DIR_IN } else { TRB_DIR_OUT };
        v.push(Trb { parameter: data_phys, status: setup.w_length as u32, control: Trb::control(TRB_DATA_STAGE, dir) });
    }
    let status_dir: u32 = if has_data && dir_in { TRB_DIR_OUT } else { TRB_DIR_IN };
    v.push(Trb { parameter: 0, status: 0, control: Trb::control(TRB_STATUS_STAGE, status_dir | TRB_IOC) });
    proof {
        assert(v@ =~= control_trbs_spec(*setup, dir_in, data_phys));
    }
    v
}

/// What a control transfer of `length` bytes returns once its status
/// event came (`event`, its completion code; `None` after a timeout): an
/// error unless it succeeded, else the bytes moved, which for an IN
/// transfer into a buffer of `in_buf` bytes is at most the buffer.
pub fn control_transfer_outcome(event: Option<u32>, length: usize, in_buf: Option<usize>) -> (r: Result<usize, &'static str>)
    ensures
        match event {
            None => r == Err::<usize, &'static str>("transfer event timeout"),
            Some(cc) => if cc != TRB_CC_SUCCESS {
                r == Err::<usize, &'static str>("control transfer failed")
            } else {
                match in_buf {
                    Some(n) => if length > 0 {
                        r == Ok::<usize, &'static str>(if length < n { length } else { n })
                    } else {
                        r == Ok::<usize, &'static str>(length)
                    },
                    None => r == Ok::<usize, &'static str>(length),
                }
            },
        },
{
    let cc = match event {
        Some(c) => c,
        None => return Err("transfer event timeout"),
    };
    if cc != TRB_CC_SUCCESS {
        return Err("control transfer failed");
    }
    match in_buf {
        Some(n) => {
            if length > 0 {
                return Ok(if length < n { length } else { n });
            }
        },
        None => {},
    }
    Ok(length)
}

/// A standard GET_DESCRIPTOR request of `len` bytes of the device's
/// descriptor of type `desc_type` (index 0).
pub fn get_descriptor_request(desc_type: u8, len: u16) -> (r: SetupPacket)
    ensures
        r == (SetupPacket {
            bm_request_type: USB_DIR_IN | USB_TYPE_STANDARD | USB_RECIP_DEVICE,
            b_request: USB_REQ_GET_DESCRIPTOR,
            w_value: ((desc_type as u16) << 8u16) as u16,
            w_index: 0,
            w_length: len,
        }),
{
    SetupPacket::new(
        USB_DIR_IN | USB_TYPE_STANDARD | USB_RECIP_DEVICE,
        USB_REQ_GET_DESCRIPTOR,
        (desc_type as u16) << 8u16,
        0,
        len,
    )
}

/// A standard SET_CONFIGURATION request for configuration `value`.
pub fn set_configuration_request(value: u8) -> (r: SetupPacket)
    ensures
        r == (SetupPacket {
            bm_request_type: USB_DIR_OUT | USB_TYPE_STANDARD | USB_RECIP_DEVICE,
            b_request: USB_REQ_SET_CONFIGURATION,
            w_value: value as u16,
            w_index: 0,
            w_length: 0,
        }),
{
    SetupPacket::new(USB_DIR_OUT | USB_TYPE_STANDARD | USB_RECIP_DEVICE, USB_REQ_SET_CONFIGURATION, value as u16, 0, 0)
}

/// The device descriptor request: its first 8 bytes, or all 18.
pub fn device_descriptor_request(full: bool) -> (r: SetupPacket)
    ensures
        r == (SetupPacket {
            bm_request_type: USB_DIR_IN | USB_TYPE_STANDARD | USB_RECIP_DEVICE,
            b_request: USB_REQ_GET_DESCRIPTOR,
            w_value: ((USB_DESC_DEVICE as u16) << 8u16) as u16,
            w_index: 0,
            w_length: if full { 18 } else { 8 },
        }),
{
    get_descriptor_request(USB_DESC_DEVICE, if full { 18 } else { 8 })
}

/// The configuration descriptor request of `len` bytes.
pub fn config_descriptor_request(len: u16) -> (r: SetupPacket)
    ensures
        r == (SetupPacket {
            bm_request_type: USB_DIR_IN | USB_TYPE_STANDARD | USB_RECIP_DEVICE,
            b_request: USB_REQ_GET_DESCRIPTOR,
            w_value: ((USB_DESC_CONFIGURATION as u16) << 8u16) as u16,
            w_index: 0,
            w_length: len,
        }),
{
    get_descriptor_request(USB_DESC_CONFIGURATION, len)
}

/// The control endpoint's packet size that a device is first addressed
/// with, by speed.
pub fn ep0_max_packet(speed: UsbSpeed) -> (r: u16)
    ensures
        r == match speed {
            UsbSpeed::Low | UsbSpeed::Full | UsbSpeed::Unknown => 8u16,
            UsbSpeed::High => 64u16,
            UsbSpeed::Super => 512u16,
        },
{
    match speed {
        UsbSpeed::Low | UsbSpeed::Full => 8,
        UsbSpeed::High => 64,
        UsbSpeed::Super => 512,
        UsbSpeed::Unknown => 8,
    }
}

/// The control packet size to switch to after the first 8 bytes of the
/// device descriptor reported `reported` (its byte 7) while the device
/// runs with `current`: the reported size when it is one the driver
/// accepts (8, 9, 16, 32 or 64) and differs, else none.
pub fn ep0_mps_update(reported: u8, current: u16) -> (r: Option<u16>)
    ensures
        r == if (reported == 8 || reported == 9 || reported == 16 || reported == 32 || reported == 64)
            && reported as u16 != current {
            Some(reported as u16)
        } else {
            None::<u16>
        },
{
    let mps = reported as u16;
    let valid = mps == 8 || mps == 16 || mps == 32 || mps == 64 || mps == 9;
    if valid && mps != current {
        Some(mps)
    } else {
        None
    }
}

/// Size of the buffer the configuration descriptor is read into.
pub const CONFIG_BUF_LEN: usize = 4096;

/// The total length that the first 9 bytes of a configuration descriptor
/// (`header`) announce, when it is at least 9 and fits the buffer.
pub fn config_total_length(header: &[u8]) -> (r: Option<usize>)
    requires
        header@.len() >= 4,
    ensures
        ({
            let total = header@[2] as int + header@[3] as int * 256;
            r == if 9 <= total <= CONFIG_BUF_LEN {
                Some(total as usize)
            } else {
                None::<usize>
            }
        }),
{
    let total = (header[2] as usize) + (header[3] as usize) * 256;
    if total < 9 || total > CONFIG_BUF_LEN {
        None
    } else {
        Some(total)
    }
}

/// Some interface of `ifs` has class `class`.
pub open spec fn has_class(ifs: Seq<InterfaceView>, class: u8) -> bool {
    exists|i: int| 0 <= i < ifs.len() && #[trigger] ifs[i].iface.b_interface_class == class
}

/// A hub: by its device class or by one of its interfaces.
pub fn is_hub_device(device_class: u8, parsed: &ParsedConfiguration) -> (r: bool)
    ensures
        r == (device_class == USB_CLASS_HUB || has_class(parsed.ifaces(), USB_CLASS_HUB)),
{
    if device_class == USB_CLASS_HUB {
        return true;
    }
    let mut i: usize = 0;
    while i < parsed.interfaces.len()
        invariant
            i <= parsed.interfaces@.len(),
            forall|k: int| 0 <= k < i ==> (#[trigger] parsed.ifaces()[k]).iface.b_interface_class != USB_CLASS_HUB,
        decreases parsed.interfaces@.len() - i,
    {
        if parsed.interfaces[i].iface.b_interface_class == USB_CLASS_HUB {
            assert(parsed.ifaces()[i as int].iface.b_interface_class == USB_CLASS_HUB);
            return true;
        }
        i = i + 1;
    }
    false
}

/// Where a bound keyboard is read: its slot, the context index of its
/// interrupt IN endpoint, its interface and protocol, and the report
/// length (the endpoint's packet size, at least 8).
#[derive(Clone, Copy, Debug, PartialEq, Eq, Structural)]
pub struct KeyboardBinding {
    pub slot: u8,
    pub ep_dci: u8,
    pub iface: u8,
    pub proto: u8,
    pub report_len: u16,
}

/// The binding of a keyboard found at interface `iface`, endpoint `ep`,
/// on device slot `slot`.
pub fn keyboard_binding(slot: u8, iface: &InterfaceDescriptor, ep: &EndpointDescriptor) -> (r: KeyboardBinding)
    ensures
        r == (KeyboardBinding {
            slot,
            ep_dci: (if ep.b_endpoint_address & 0x0F == 0 {
                1int
            } else {
                2 * (ep.b_endpoint_address & 0x0F) + 1
            }) as u8,
            iface: iface.b_interface_number,
            proto: iface.b_interface_protocol,
            report_len: if ep.w_max_packet_size < 8 {
                8u16
            } else {
                ep.w_max_packet_size
            },
        }),
{
    let n = ep.number();
    let a = ep.b_endpoint_address;
    assert(a & 0x0F < 16) by (bit_vector);
    let mp = ep.max_packet_size();
    KeyboardBinding {
        slot,
        ep_dci: endpoint_dci(n, true),
        iface: iface.b_interface_number,
        proto: iface.b_interface_protocol,
        report_len: if mp < 8 { 8 } else { mp },
    }
}


/// Dwords of the Input Context arena (64-byte contexts: the control
/// context, the slot context and 31 endpoint contexts).
pub const INPUT_CONTEXT_DWORDS: usize = 528;

/// Endpoint context types: control, interrupt IN.
pub const EP_TYPE_CONTROL: u32 = 4;
pub const EP_TYPE_INT_IN: u32 = 7;

/// Endpoint state "Running" in an output endpoint context.
pub const EP_STATE_RUNNING: u32 = 1;

/// Offset of the keyboard's interrupt ring in the DMA arena.
pub const INT_RING_OFF: usize = 36864;

/// `n` zero dwords.
pub open spec fn zeros(n: nat) -> Seq<u32> {
    Seq::new(n, |i: int| 0u32)
}

/// `n` zero dwords, as a `Vec`.
fn zero_dwords(n: usize) -> (r: Vec<u32>)
    ensures
        r@ == zeros(n as nat),
{
    let mut v: Vec<u32> = Vec::new();
    let mut i: usize = 0;
    while i < n
        invariant
            i <= n,
            v@ == zeros(i as nat),
        decreases n - i,
    {
        v.push(0);
        i = i + 1;
        assert(v@ =~= zeros(i as nat));
    }
    v
}

/// The Input Context of an Address Device command, for contexts of `cd`
/// dwords: add flags for the slot and EP0; the slot context with the
/// speed code, one context entry and the root port; EP0 as a control
/// endpoint (three errors allowed) with packet size `mps0`, its ring at
/// `ring` with the cycle bit, and an average TRB length of 8.
pub open spec fn address_context(cd: int, port: u8, speed: UsbSpeed, mps0: u16, ring: u64) -> Seq<u32> {
    zeros(INPUT_CONTEXT_DWORDS as nat).update(1, 3u32).update(cd, ((speed.code_spec() << 20u32) | (1u32 << 27u32)) as u32).update(
        cd + 1,
        ((port as u32) << 16u32) as u32,
    ).update(2 * cd + 1, ((3u32 << 1u32) | (EP_TYPE_CONTROL << 3u32) | ((mps0 as u32) << 16u32)) as u32).update(
        2 * cd + 2,
        ((ring as u32) | 1u32) as u32,
    ).update(2 * cd + 3, (ring >> 32u64) as u32).update(2 * cd + 4, 8u32)
}

/// The Input Context of an Address Device command (see `address_context`).
pub fn input_context_address(cd: usize, port: u8, speed: UsbSpeed, mps0: u16, ring: u64) -> (r: Vec<u32>)
    requires
        cd == 8 || cd == 16,
    ensures
        r@ == address_context(cd as int, port, speed, mps0, ring),
{
    let mut v = zero_dwords(INPUT_CONTEXT_DWORDS);
    v.set(1, 3);
    v.set(cd, (speed.xhci_code() << 20u32) | (1u32 << 27u32));
    v.set(cd + 1, (port as u32) << 16u32);
    let ep0 = 2 * cd;
    v.set(ep0 + 1, (3u32 << 1u32) | (EP_TYPE_CONTROL << 3u32) | ((mps0 as u32) << 16u32));
    v.set(ep0 + 2, (ring as u32) | 1u32);
    v.set(ep0 + 3, (ring >> 32u64) as u32);
    v.set(ep0 + 4, 8);
    v
}

/// The Input Context of an Evaluate Context command that changes EP0's
/// packet size to `mps0`: the add flag of EP0 only, and the current
/// output EP0 context `out_ep0` with its state cleared and the new size.
pub open spec fn evaluate_context(cd: int, out_ep0: Seq<u32>, mps0: u16) -> Seq<u32> {
    Seq::new(
        INPUT_CONTEXT_DWORDS as nat,
        |i: int|
            if i == 1 {
                2u32
            } else if 2 * cd <= i < 3 * cd {
                let k = i - 2 * cd;
                if k == 0 {
                    out_ep0[0] & !7u32
                } else if k == 1 {
                    ((out_ep0[1] & 0xffffu32) | ((mps0 as u32) << 16u32)) as u32
                } else {
                    out_ep0[k]
                }
            } else {
                0u32
            },
    )
}

/// The Input Context of an Evaluate Context command (see
/// `evaluate_context`).
pub fn input_context_evaluate(cd: usize, out_ep0: &[u32], mps0: u16) -> (r: Vec<u32>)
    requires
        cd == 8 || cd == 16,
        out_ep0@.len() >= cd,
    ensures
        r@ == evaluate_context(cd as int, out_ep0@, mps0),
{
    let mut v = zero_dwords(INPUT_CONTEXT_DWORDS);
    v.set(1, 2);
    let base = 2 * cd;
    let mut k: usize = 0;
    while k < cd
        invariant
            cd == 8 || cd == 16,
            base == 2 * cd,
            k <= cd,
            out_ep0@.len() >= cd,
            v@.len() == INPUT_CONTEXT_DWORDS,
            forall|i: int|
                0 <= i < INPUT_CONTEXT_DWORDS ==> #[trigger] v@[i] == if i == 1 {
                    2u32
                } else if base <= i < base + k {
                    out_ep0@[i - base]
                } else {
                    0u32
                },
        decreases cd - k,
    {
        v.set(base + k, out_ep0[k]);
        k = k + 1;
    }
    let info = v[base];
    v.set(base, info & !7u32);
    let info2 = v[base + 1];
    v.set(base + 1, (info2 & 0xffffu32) | ((mps0 as u32) << 16u32));
    assert(v@ =~= evaluate_context(cd as int, out_ep0@, mps0));
    v
}


/// The interrupt IN endpoints among the first `n` of `eps`, in order.
pub open spec fn int_in_prefix(eps: Seq<EndpointDescriptor>, n: int) -> Seq<EndpointDescriptor>
    decreases n,
{
    if n <= 0 {
        Seq::empty()
    } else if is_interrupt_in(eps[n - 1]) {
        int_in_prefix(eps, n - 1).push(eps[n - 1])
    } else {
        int_in_prefix(eps, n - 1)
    }
}

/// The interrupt IN endpoints of the first `n` interfaces of `ifs`, in
/// order.
pub open spec fn int_in_endpoints(ifs: Seq<InterfaceView>, n: int) -> Seq<EndpointDescriptor>
    decreases n,
{
    if n <= 0 {
        Seq::empty()
    } else {
        int_in_endpoints(ifs, n - 1) + int_in_prefix(ifs[n - 1].endpoints, ifs[n - 1].endpoints.len() as int)
    }
}

/// Every interrupt IN endpoint of the configuration, interface by
/// interface.
pub fn interrupt_in_endpoints(parsed: &ParsedConfiguration) -> (r: Vec<EndpointDescriptor>)
    ensures
        r@ == int_in_endpoints(parsed.ifaces(), parsed.ifaces().len() as int),
{
    let mut out: Vec<EndpointDescriptor> = Vec::new();
    let mut i: usize = 0;
    while i < parsed.interfaces.len()
        invariant
            i <= parsed.interfaces@.len(),
            out@ == int_in_endpoints(parsed.ifaces(), i as int),
        decreases parsed.interfaces@.len() - i,
    {
        let pi = &parsed.interfaces[i];
        let ghost before = out@;
        let mut j: usize = 0;
        while j < pi.endpoints.len()
            invariant
                i < parsed.interfaces@.len(),
                *pi == parsed.interfaces@[i as int],
                j <= pi.endpoints@.len(),
                out@ == before + int_in_prefix(pi.endpoints@, j as int),
            decreases pi.endpoints@.len() - j,
        {
            let ep = pi.endpoints[j];
            if ep.direction_in() && ep.transfer_type() == 0x03 {
                out.push(ep);
                assert(out@ =~= before + int_in_prefix(pi.endpoints@, j + 1));
            }
            j = j + 1;
        }
        assert(parsed.ifaces()[i as int].endpoints == pi.endpoints@);
        i = i + 1;
    }
    out
}

/// The Device Context Index of an IN endpoint.
pub open spec fn in_dci(e: EndpointDescriptor) -> int {
    let num = e.b_endpoint_address & 0x0F;
    if num == 0 {
        1
    } else {
        2 * num + 1
    }
}

/// The add flags for the slot and the first `n` endpoints of `eps`.
pub open spec fn add_flags(eps: Seq<EndpointDescriptor>, n: int) -> u32
    decreases n,
{
    if n <= 0 {
        1
    } else {
        add_flags(eps, n - 1) | (1u32 << (in_dci(eps[n - 1]) as u32))
    }
}

/// The highest context index among `kd` and the first `n` endpoints of `eps`.
pub open spec fn highest_dci(kd: int, eps: Seq<EndpointDescriptor>, n: int) -> int
    decreases n,
{
    if n <= 0 {
        kd
    } else {
        let h = highest_dci(kd, eps, n - 1);
        if in_dci(eps[n - 1]) > h {
            in_dci(eps[n - 1])
        } else {
            h
        }
    }
}

/// Where the ring of the endpoint with context index `d` lies in the DMA
/// arena: the keyboard's (index `kd`) at its own offset, the others a
/// page each.
pub open spec fn ring_off(d: int, kd: int) -> int {
    if d == kd {
        INT_RING_OFF as int
    } else {
        EP_RING_BASE_OFF + d * 4096
    }
}

/// `c` with the endpoint context of interrupt IN endpoint `e` written:
/// its interval exponent, three errors allowed, interrupt IN, its packet
/// size, its ring (with the cycle bit) and its packet size as average
/// TRB length and maximum payload.
pub open spec fn with_int_ep(c: Seq<u32>, cd: int, e: EndpointDescriptor, kd: int, speed: UsbSpeed, dma: u64) -> Seq<u32> {
    let d = in_dci(e);
    let base = cd + cd * d;
    let mp = e.w_max_packet_size as u32;
    let ring = (dma + ring_off(d, kd)) as u64;
    c.update(base, (interval_exponent(speed, e.b_interval) << 16u32) as u32).update(
        base + 1,
        ((3u32 << 1u32) | (EP_TYPE_INT_IN << 3u32) | (mp << 16u32)) as u32,
    ).update(base + 2, ((ring as u32) | 1u32) as u32).update(base + 3, (ring >> 32u64) as u32).update(
        base + 4,
        (mp | (mp << 16u32)) as u32,
    )
}

/// The Input Context of a Configure Endpoint command after the first `n`
/// endpoints of `eps`: add flags for the slot and every endpoint, the
/// current output slot context `out_slot` with its context entries set to
/// the highest index (the keyboard's, `kd`, counted), then each endpoint's
/// context in turn.
pub open spec fn configure_context(
    cd: int,
    out_slot: Seq<u32>,
    kd: int,
    eps: Seq<EndpointDescriptor>,
    speed: UsbSpeed,
    dma: u64,
    n: int,
) -> Seq<u32>
    decreases n,
{
    if n <= 0 {
        Seq::new(
            INPUT_CONTEXT_DWORDS as nat,
            |i: int|
                if i == 1 {
                    add_flags(eps, eps.len() as int)
                } else if i == cd {
                    ((out_slot[0] & !(0x1fu32 << 27u32)) | ((highest_dci(kd, eps, eps.len() as int) as u32) << 27u32)) as u32
                } else if cd < i < 2 * cd {
                    out_slot[i - cd]
                } else {
                    0u32
                },
        )
    } else {
        with_int_ep(configure_context(cd, out_slot, kd, eps, speed, dma, n - 1), cd, eps[n - 1], kd, speed, dma)
    }
}

proof fn lemma_dci_bound(e: EndpointDescriptor)
    ensures
        1 <= in_dci(e) <= 31,
        in_dci(e) == (if e.b_endpoint_address & 0x0F == 0 {
            1int
        } else {
            2 * (e.b_endpoint_address & 0x0F) + 1
        }),
{
    let a = e.b_endpoint_address;
    assert(a & 0x0F < 16) by (bit_vector);
}

/// The Input Context of a Configure Endpoint command for the interrupt IN
/// endpoints `eps`, the keyboard's being `keyboard_ep` (see
/// `configure_context`).
pub fn input_context_configure(
    cd: usize,
    out_slot: &[u32],
    keyboard_ep: &EndpointDescriptor,
    eps: &Vec<EndpointDescriptor>,
    speed: UsbSpeed,
    dma_phys: u64,
) -> (r: Vec<u32>)
    requires
        cd == 8 || cd == 16,
        out_slot@.len() >= cd,
        dma_phys <= u64::MAX - 0x10_0000,
    ensures
        r@ == configure_context(cd as int, out_slot@, in_dci(*keyboard_ep), eps@, speed, dma_phys, eps@.len() as int),
{
    proof {
        lemma_dci_bound(*keyboard_ep);
    }
    let kd = endpoint_dci(keyboard_ep.number(), true);
    let mut flags: u32 = 1;
    let mut highest: u8 = kd;
    let mut i: usize = 0;
    while i < eps.len()
        invariant
            i <= eps@.len(),
            flags == add_flags(eps@, i as int),
            highest == highest_dci(kd as int, eps@, i as int),
            1 <= highest <= 31,
        decreases eps@.len() - i,
    {
        proof {
            lemma_dci_bound(eps@[i as int]);
        }
        let d = endpoint_dci(eps[i].number(), true);
        flags = flags | (1u32 << d as u32);
        if d > highest {
            highest = d;
        }
        i = i + 1;
    }
    let mut v = zero_dwords(INPUT_CONTEXT_DWORDS);
    v.set(1, flags);
    let mut k: usize = 0;
    while k < cd
        invariant
            cd == 8 || cd == 16,
            k <= cd,
            out_slot@.len() >= cd,
            v@.len() == INPUT_CONTEXT_DWORDS,
            forall|j: int|
                0 <= j < INPUT_CONTEXT_DWORDS ==> #[trigger] v@[j] == if j == 1 {
                    flags
                } else if cd <= j < cd + k {
                    out_slot@[j - cd]
                } else {
                    0u32
                },
        decreases cd - k,
    {
        v.set(cd + k, out_slot[k]);
        k = k + 1;
    }
    let info = v[cd];
    v.set(cd, (info & !(0x1fu32 << 27u32)) | ((highest as u32) << 27u32));
    assert(v@ =~= configure_context(cd as int, out_slot@, kd as int, eps@, speed, dma_phys, 0));
    let mut n: usize = 0;
    while n < eps.len()
        invariant
            cd == 8 || cd == 16,
            n <= eps@.len(),
            dma_phys <= u64::MAX - 0x10_0000,
            kd as int == in_dci(*keyboard_ep),
            1 <= kd <= 31,
            v@ == configure_context(cd as int, out_slot@, kd as int, eps@, speed, dma_phys, n as int),
            v@.len() == INPUT_CONTEXT_DWORDS,
        decreases eps@.len() - n,
    {
        let e = eps[n];
        proof {
            lemma_dci_bound(e);
        }
        let d = endpoint_dci(e.number(), true);
        assert(cd * d <= 16 * 31) by (nonlinear_arith)
            requires
                cd <= 16,
                d <= 31,
        ;
        let base = cd + cd * d as usize;
        let mp = e.max_packet_size() as u32;
        let off: u64 = if d == kd { INT_RING_OFF as u64 } else { EP_RING_BASE_OFF as u64 + d as u64 * 4096 };
        let ring: u64 = dma_phys + off;
        v.set(base, xhci_interrupt_interval(speed, e.b_interval) << 16u32);
        v.set(base + 1, (3u32 << 1u32) | (EP_TYPE_INT_IN << 3u32) | (mp << 16u32));
        v.set(base + 2, (ring as u32) | 1u32);
        v.set(base + 3, (ring >> 32u64) as u32);
        v.set(base + 4, mp | (mp << 16u32));
        n = n + 1;
    }
    v
}

/// The interrupt endpoints' Input Context for a Configure Endpoint
/// command of a configuration whose keyboard endpoint is `keyboard_ep`;
/// `None` when the configuration has no interrupt IN endpoint.
pub fn configure_endpoints_context(
    cd: usize,
    out_slot: &[u32],
    parsed: &ParsedConfiguration,
    keyboard_ep: &EndpointDescriptor,
    speed: UsbSpeed,
    dma_phys: u64,
) -> (r: Option<Vec<u32>>)
    requires
        cd == 8 || cd == 16,
        out_slot@.len() >= cd,
        dma_phys <= u64::MAX - 0x10_0000,
    ensures
        ({
            let eps = int_in_endpoints(parsed.ifaces(), parsed.ifaces().len() as int);
            match r {
                None => eps.len() == 0,
                Some(v) => eps.len() > 0 && v@ == configure_context(
                    cd as int,
                    out_slot@,
                    in_dci(*keyboard_ep),
                    eps,
                    speed,
                    dma_phys,
                    eps.len() as int,
                ),
            }
        }),
{
    let eps = interrupt_in_endpoints(parsed);
    if eps.len() == 0 {
        return None;
    }
    Some(input_context_configure(cd, out_slot, keyboard_ep, &eps, speed, dma_phys))
}

/// A command TRB of type `trb_type` for device slot `slot` whose
/// parameter is the Input Context at `ictx_phys`.
pub fn context_command(trb_type: u32, slot: u8, ictx_phys: u64) -> (r: Trb)
    requires
        trb_type < 64,
    ensures
        r == (Trb { parameter: ictx_phys, status: 0, control: control_word(trb_type, ((slot as u32) << 24u32) as u32) }),
{
    Trb { parameter: ictx_phys, status: 0, control: Trb::control(trb_type, (slot as u32) << 24u32) }
}

/// A Configure Endpoint command succeeded when it completed with success
/// and the keyboard endpoint's output context (`out_ep_info`, its first
/// dword) shows it running.
pub fn configure_endpoint_done(event: Option<u32>, out_ep_info: u32) -> (r: bool)
    ensures
        r == match event {
            Some(cc) => cc == TRB_CC_SUCCESS && out_ep_info & 7 == EP_STATE_RUNNING,
            None => false,
        },
{
    match event {
        Some(cc) => cc == TRB_CC_SUCCESS && out_ep_info & 7 == EP_STATE_RUNNING,
        None => false,
    }
}

} // verus!
