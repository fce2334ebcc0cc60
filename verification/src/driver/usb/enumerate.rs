//! Root-port device enumeration as a state machine: port by port, a
//! connected device is reset, given a slot (Enable Slot), addressed
//! (Address Device), its descriptors read (the control endpoint's packet
//! size corrected with Evaluate Context when the device reports another),
//! and a keyboard among its interfaces configured (Configure Endpoint,
//! SET_CONFIGURATION). Each step takes what the last command or transfer
//! gave and says what to issue next; the caller issues it.
use vstd::prelude::*;

use crate::driver::usb::context::{
    config_descriptor_request, config_total_length, device_descriptor_request, ep0_max_packet, ep0_mps_update,
    has_class, is_hub_device, keyboard_binding, set_configuration_request, KeyboardBinding,
};
use crate::driver::usb::{
    keyboard_at, pair_before, parsed_interfaces, ConfigDescriptor, InterfaceView, ParsedConfiguration, SetupPacket,
    UsbSpeed, USB_CLASS_HUB, USB_DESC_CONFIGURATION, USB_DESC_DEVICE, USB_DIR_IN, USB_DIR_OUT, USB_RECIP_DEVICE,
    USB_REQ_GET_DESCRIPTOR, USB_REQ_SET_CONFIGURATION, USB_TYPE_STANDARD,
};

verus! {

/// A keyboard found in a configuration: where it is read from (its slot
/// still unset) and its endpoint's address.
#[derive(Clone, Copy)]
pub struct KeyboardFound {
    pub binding: KeyboardBinding,
    pub ep_address: u8,
}

/// What enumeration needs of a configuration descriptor: its value,
/// whether the device is a hub, and its first boot keyboard.
#[derive(Clone, Copy)]
pub struct ConfigSummary {
    pub config_value: u8,
    pub hub: bool,
    pub keyboard: Option<KeyboardFound>,
}

/// The interfaces of the configuration blob `blob` (within its total
/// length).
pub open spec fn config_ifaces(blob: Seq<u8>, c: ConfigDescriptor) -> Seq<InterfaceView> {
    parsed_interfaces(blob.take(if (c.w_total_length as int) < blob.len() { c.w_total_length as int } else { blob.len() as int }))
}

/// The binding of the keyboard at interface `i`, endpoint `j` of `ifs`
/// (slot unset).
pub open spec fn found_at(ifs: Seq<InterfaceView>, i: int, j: int) -> KeyboardFound {
    let ep = ifs[i].endpoints[j];
    KeyboardFound {
        binding: KeyboardBinding {
            slot: 0,
            ep_dci: (if ep.b_endpoint_address & 0x0F == 0 { 1int } else { 2 * (ep.b_endpoint_address & 0x0F) + 1 }) as u8,
            iface: ifs[i].iface.b_interface_number,
            proto: ifs[i].iface.b_interface_protocol,
            report_len: if ep.w_max_packet_size < 8 { 8u16 } else { ep.w_max_packet_size },
        },
        ep_address: ep.b_endpoint_address,
    }
}

/// `k` is the first boot keyboard of `ifs` (by interface, then endpoint),
/// or `None` when there is none.
pub open spec fn first_keyboard(ifs: Seq<InterfaceView>, k: Option<KeyboardFound>) -> bool {
    match k {
        None => forall|i: int, j: int| !#[trigger] keyboard_at(ifs, i, j),
        Some(f) => exists|i: int, j: int|
            #![trigger keyboard_at(ifs, i, j)]
            keyboard_at(ifs, i, j) && f == found_at(ifs, i, j) && (forall|i2: int, j2: int|
                #[trigger] keyboard_at(ifs, i2, j2) ==> !pair_before(i2, j2, i, j)),
    }
}

/// `s` sums up the configuration `c` read as `blob` from a device of class
/// `device_class`.
pub open spec fn summarizes(device_class: u8, blob: Seq<u8>, c: ConfigDescriptor, s: ConfigSummary) -> bool {
    let ifs = config_ifaces(blob, c);
    &&& s.config_value == c.b_configuration_value
    &&& s.hub == (device_class == USB_CLASS_HUB || has_class(ifs, USB_CLASS_HUB))
    &&& first_keyboard(ifs, s.keyboard)
}

/// The summary of the configuration blob of a device of class
/// `device_class`: `None` when the header does not decode; else its value,
/// whether the device or one of its interfaces is a hub, and the first boot
/// keyboard (by interface, then endpoint), if any.
pub fn config_summary(device_class: u8, blob: &[u8]) -> (r: Option<ConfigSummary>)
    ensures
        match ConfigDescriptor::parse_spec(blob@) {
            None => r is None,
            Some(c) => r matches Some(s) && summarizes(device_class, blob@, c, s),
        },
{
    let parsed = match ParsedConfiguration::parse(blob) {
        Some(p) => p,
        None => return None,
    };
    let hub = is_hub_device(device_class, &parsed);
    let keyboard = match parsed.find_hid_keyboard() {
        None => None,
        Some((pi, ep)) => {
            let binding = keyboard_binding(0, &pi.iface, ep);
            Some(KeyboardFound { binding, ep_address: ep.b_endpoint_address })
        },
    };
    Some(ConfigSummary { config_value: parsed.config.b_configuration_value, hub, keyboard })
}

/// Where enumeration stands: the next result it waits for.
#[derive(Clone, Copy)]
pub enum EnumPhase {
    Idle,
    CheckPort,
    ResetPort,
    EnableSlot,
    Address,
    DeviceHeader,
    Evaluate,
    Device,
    ConfigHeader,
    Config,
    KeyboardConfigure,
    KeyboardSetConfig,
    BootHid,
    PlainSetConfig,
    ReportKeyboard,
    ReportConfigure,
    Finished,
}

/// The enumeration state: the phase, the port count and current port,
/// whether a keyboard is bound (else only looked for), the connected ports
/// seen, and what is known of the current device.
#[derive(Clone, Copy)]
pub struct EnumState {
    pub phase: EnumPhase,
    pub ports: u8,
    pub port: u8,
    pub prime_keyboard: bool,
    pub connected: u8,
    pub speed: UsbSpeed,
    pub slot: u8,
    pub mps0: u16,
    pub device_class: u8,
    pub config_value: u8,
    pub hub: bool,
    pub found: Option<KeyboardFound>,
    pub keyboard: Option<KeyboardBinding>,
    pub has_keyboard: bool,
}

/// What the last command or transfer gave.
pub enum EnumEvent {
    /// Start over `ports` root ports; bind a keyboard or only look for one.
    Begin { ports: u8, prime_keyboard: bool },
    /// Whether the port has a device.
    Connected(bool),
    /// The port reset: the device's speed, or failure.
    Reset(Option<UsbSpeed>),
    /// Enable Slot: the slot, or failure.
    Slot(Option<u8>),
    /// A command or a transfer without data: whether it succeeded.
    Done(bool),
    /// A descriptor read: the buffer, or failure.
    Data(Option<Vec<u8>>),
    /// The full configuration read and summed up (see `config_summary`),
    /// or the read or the decoding failed.
    Configuration(Option<ConfigSummary>),
    /// The keyboard a HID report descriptor shows, if any.
    ReportKeyboard(Option<KeyboardFound>),
}

/// What to issue next.
pub enum EnumAction {
    CheckPort(u8),
    ResetPort(u8),
    /// Clear the port's reset change, then Enable Slot.
    EnableSlot(u8),
    AddressDevice { slot: u8, port: u8, speed: UsbSpeed, mps0: u16 },
    ControlIn { slot: u8, setup: SetupPacket },
    ControlOut { slot: u8, setup: SetupPacket },
    EvaluateContext { slot: u8, mps0: u16 },
    ConfigureEndpoints { slot: u8, speed: UsbSpeed, ep_address: u8 },
    InitBootHid { slot: u8 },
    FindReportKeyboard { slot: u8 },
    /// Every port is done: the keyboard bound, whether one was seen, and
    /// how many ports had a device.
    Finished { keyboard: Option<KeyboardBinding>, has_keyboard: bool, connected: u8 },
    /// Nothing to do: the event does not belong to this phase.
    Ignore,
}

impl EnumState {
    /// Within the ports: the current port is one of them, and the
    /// connected ports counted are among those visited.
    pub open spec fn wf(&self) -> bool {
        match self.phase {
            EnumPhase::Idle => self.connected == 0,
            EnumPhase::Finished => true,
            EnumPhase::CheckPort => 1 <= self.port <= self.ports && self.connected < self.port,
            _ => 1 <= self.port <= self.ports && self.connected <= self.port,
        }
    }

    /// Enumeration not started.
    pub fn new() -> (r: Self)
        ensures
            r.wf(),
            r.phase is Idle,
    {
        EnumState {
            phase: EnumPhase::Idle,
            ports: 0,
            port: 0,
            prime_keyboard: false,
            connected: 0,
            speed: UsbSpeed::Unknown,
            slot: 0,
            mps0: 0,
            device_class: 0,
            config_value: 0,
            hub: false,
            found: None,
            keyboard: None,
            has_keyboard: false,
        }
    }
}

/// A GET_DESCRIPTOR request of `len` bytes of descriptor `desc_type`.
pub open spec fn get_descriptor_setup(desc_type: u8, len: u16) -> SetupPacket {
    SetupPacket {
        bm_request_type: USB_DIR_IN | USB_TYPE_STANDARD | USB_RECIP_DEVICE,
        b_request: USB_REQ_GET_DESCRIPTOR,
        w_value: ((desc_type as u16) << 8u16) as u16,
        w_index: 0,
        w_length: len,
    }
}

/// A SET_CONFIGURATION request for configuration `value`.
pub open spec fn set_configuration_setup(value: u8) -> SetupPacket {
    SetupPacket {
        bm_request_type: USB_DIR_OUT | USB_TYPE_STANDARD | USB_RECIP_DEVICE,
        b_request: USB_REQ_SET_CONFIGURATION,
        w_value: value as u16,
        w_index: 0,
        w_length: 0,
    }
}

/// The control packet size a device of speed `speed` is addressed with.
pub open spec fn ep0_size(speed: UsbSpeed) -> u16 {
    match speed {
        UsbSpeed::Low | UsbSpeed::Full | UsbSpeed::Unknown => 8u16,
        UsbSpeed::High => 64u16,
        UsbSpeed::Super => 512u16,
    }
}

/// On to the next port, or finished after the last one.
pub open spec fn enum_next(st: EnumState) -> (EnumState, EnumAction) {
    if st.port >= st.ports {
        (
            EnumState { phase: EnumPhase::Finished, ..st },
            EnumAction::Finished { keyboard: st.keyboard, has_keyboard: st.has_keyboard, connected: st.connected },
        )
    } else {
        (EnumState { phase: EnumPhase::CheckPort, port: (st.port + 1) as u8, ..st }, EnumAction::CheckPort((st.port + 1) as u8))
    }
}

/// The keyboard `k` bound on the current device.
pub open spec fn enum_bind(st: EnumState, k: KeyboardFound) -> EnumState {
    EnumState { keyboard: Some(KeyboardBinding { slot: st.slot, ..k.binding }), has_keyboard: true, ..st }
}

/// One step of enumeration: an unconnected port, a failed reset, slot,
/// address or descriptor read, a configuration total length outside 9 to
/// 4096 bytes, an undecodable configuration, or a failed configuration
/// step moves on to the next port. The device is addressed with the
/// control packet size of its speed and read 8 bytes of its device
/// descriptor; when it reports another accepted size, Evaluate Context
/// switches to it; then the full device descriptor, the first 9 bytes of
/// the configuration and the whole configuration are read. When only
/// looking, a boot keyboard is noted. A boot keyboard is bound by
/// Configure Endpoint, SET_CONFIGURATION and the boot-protocol setup; any
/// other device gets SET_CONFIGURATION, and a keyboard its HID report
/// descriptor shows is bound by Configure Endpoint.
pub open spec fn enum_step_spec(st: EnumState, ev: EnumEvent) -> (EnumState, EnumAction) {
    match (st.phase, ev) {
        (EnumPhase::Idle, EnumEvent::Begin { ports, prime_keyboard }) => if ports == 0 {
            (
                EnumState { phase: EnumPhase::Finished, ports, prime_keyboard, ..st },
                EnumAction::Finished { keyboard: st.keyboard, has_keyboard: st.has_keyboard, connected: st.connected },
            )
        } else {
            (
                EnumState { phase: EnumPhase::CheckPort, ports, port: 1, prime_keyboard, ..st },
                EnumAction::CheckPort(1),
            )
        },
        (EnumPhase::CheckPort, EnumEvent::Connected(c)) => if !c {
            enum_next(st)
        } else {
            (
                EnumState { phase: EnumPhase::ResetPort, connected: (st.connected + 1) as u8, ..st },
                EnumAction::ResetPort(st.port),
            )
        },
        (EnumPhase::ResetPort, EnumEvent::Reset(r)) => match r {
            None => enum_next(st),
            Some(speed) => (EnumState { phase: EnumPhase::EnableSlot, speed, ..st }, EnumAction::EnableSlot(st.port)),
        },
        (EnumPhase::EnableSlot, EnumEvent::Slot(s)) => match s {
            None => enum_next(st),
            Some(slot) => (
                EnumState { phase: EnumPhase::Address, slot, mps0: ep0_size(st.speed), ..st },
                EnumAction::AddressDevice { slot, port: st.port, speed: st.speed, mps0: ep0_size(st.speed) },
            ),
        },
        (EnumPhase::Address, EnumEvent::Done(ok)) => if !ok {
            enum_next(st)
        } else {
            (
                EnumState { phase: EnumPhase::DeviceHeader, ..st },
                EnumAction::ControlIn { slot: st.slot, setup: get_descriptor_setup(USB_DESC_DEVICE, 8) },
            )
        },
        (EnumPhase::DeviceHeader, EnumEvent::Data(d)) => match d {
            None => enum_next(st),
            Some(v) => {
                let reported: u8 = if v@.len() > 7 { v@[7] } else { 0 };
                if (reported == 8 || reported == 9 || reported == 16 || reported == 32 || reported == 64)
                    && reported as u16 != st.mps0 {
                    (
                        EnumState { phase: EnumPhase::Evaluate, ..st },
                        EnumAction::EvaluateContext { slot: st.slot, mps0: reported as u16 },
                    )
                } else {
                    (
                        EnumState { phase: EnumPhase::Device, ..st },
                        EnumAction::ControlIn { slot: st.slot, setup: get_descriptor_setup(USB_DESC_DEVICE, 18) },
                    )
                }
            },
        },
        (EnumPhase::Evaluate, EnumEvent::Done(_)) => (
            EnumState { phase: EnumPhase::Device, ..st },
            EnumAction::ControlIn { slot: st.slot, setup: get_descriptor_setup(USB_DESC_DEVICE, 18) },
        ),
        (EnumPhase::Device, EnumEvent::Data(d)) => match d {
            None => enum_next(st),
            Some(v) => (
                EnumState { phase: EnumPhase::ConfigHeader, device_class: if v@.len() > 4 { v@[4] } else { 0 }, ..st },
                EnumAction::ControlIn { slot: st.slot, setup: get_descriptor_setup(USB_DESC_CONFIGURATION, 9) },
            ),
        },
        (EnumPhase::ConfigHeader, EnumEvent::Data(d)) => match d {
            None => enum_next(st),
            Some(v) => {
                let total = if v@.len() >= 4 { v@[2] as int + v@[3] as int * 256 } else { 0 };
                if 9 <= total <= 4096 {
                    (
                        EnumState { phase: EnumPhase::Config, ..st },
                        EnumAction::ControlIn { slot: st.slot, setup: get_descriptor_setup(USB_DESC_CONFIGURATION, total as u16) },
                    )
                } else {
                    enum_next(st)
                }
            },
        },
        (EnumPhase::Config, EnumEvent::Configuration(c)) => match c {
            None => enum_next(st),
            Some(s) => {
                let st2 = EnumState { config_value: s.config_value, hub: s.hub, found: s.keyboard, ..st };
                if !st.prime_keyboard && s.keyboard is Some {
                    enum_next(EnumState { has_keyboard: true, ..st2 })
                } else if s.keyboard is Some {
                    (
                        EnumState { phase: EnumPhase::KeyboardConfigure, ..st2 },
                        EnumAction::ConfigureEndpoints { slot: st.slot, speed: st.speed, ep_address: s.keyboard->0.ep_address },
                    )
                } else {
                    (
                        EnumState { phase: EnumPhase::PlainSetConfig, ..st2 },
                        EnumAction::ControlOut { slot: st.slot, setup: set_configuration_setup(s.config_value) },
                    )
                }
            },
        },
        (EnumPhase::KeyboardConfigure, EnumEvent::Done(ok)) => if !ok {
            enum_next(st)
        } else {
            (
                EnumState { phase: EnumPhase::KeyboardSetConfig, ..st },
                EnumAction::ControlOut { slot: st.slot, setup: set_configuration_setup(st.config_value) },
            )
        },
        (EnumPhase::KeyboardSetConfig, EnumEvent::Done(ok)) => if !ok {
            enum_next(st)
        } else {
            (EnumState { phase: EnumPhase::BootHid, ..st }, EnumAction::InitBootHid { slot: st.slot })
        },
        (EnumPhase::BootHid, EnumEvent::Done(_)) => match st.found {
            Some(k) => enum_next(enum_bind(st, k)),
            None => enum_next(st),
        },
        (EnumPhase::PlainSetConfig, EnumEvent::Done(ok)) => if !ok {
            enum_next(st)
        } else {
            (EnumState { phase: EnumPhase::ReportKeyboard, ..st }, EnumAction::FindReportKeyboard { slot: st.slot })
        },
        (EnumPhase::ReportKeyboard, EnumEvent::ReportKeyboard(k)) => match k {
            None => enum_next(st),
            Some(k) => (
                EnumState { phase: EnumPhase::ReportConfigure, found: Some(k), ..st },
                EnumAction::ConfigureEndpoints { slot: st.slot, speed: st.speed, ep_address: k.ep_address },
            ),
        },
        (EnumPhase::ReportConfigure, EnumEvent::Done(ok)) => if !ok {
            enum_next(st)
        } else {
            match st.found {
                Some(k) => enum_next(enum_bind(st, k)),
                None => enum_next(st),
            }
        },
        _ => (st, EnumAction::Ignore),
    }
}

/// On to the next port (see `enum_next`).
fn next_port(st: &mut EnumState) -> (a: EnumAction)
    requires
        1 <= old(st).port <= old(st).ports,
        old(st).connected <= old(st).port,
    ensures
        final(st).wf(),
        (*final(st), a) == enum_next(*old(st)),
{
    if st.port >= st.ports {
        st.phase = EnumPhase::Finished;
        EnumAction::Finished { keyboard: st.keyboard, has_keyboard: st.has_keyboard, connected: st.connected }
    } else {
        st.phase = EnumPhase::CheckPort;
        st.port = st.port + 1;
        EnumAction::CheckPort(st.port)
    }
}

/// One step of root-port enumeration (see `enum_step_spec`).
pub fn enumeration_step(st: &mut EnumState, ev: EnumEvent) -> (a: EnumAction)
    requires
        old(st).wf(),
    ensures
        final(st).wf(),
        (*final(st), a) == enum_step_spec(*old(st), ev),
{
    match (st.phase, ev) {
        (EnumPhase::Idle, EnumEvent::Begin { ports, prime_keyboard }) => {
            st.ports = ports;
            st.prime_keyboard = prime_keyboard;
            if ports == 0 {
                st.phase = EnumPhase::Finished;
                EnumAction::Finished { keyboard: st.keyboard, has_keyboard: st.has_keyboard, connected: st.connected }
            } else {
                st.phase = EnumPhase::CheckPort;
                st.port = 1;
                EnumAction::CheckPort(1)
            }
        },
        (EnumPhase::CheckPort, EnumEvent::Connected(c)) => {
            if !c {
                next_port(st)
            } else {
                st.phase = EnumPhase::ResetPort;
                st.connected = st.connected + 1;
                EnumAction::ResetPort(st.port)
            }
        },
        (EnumPhase::ResetPort, EnumEvent::Reset(r)) => match r {
            None => next_port(st),
            Some(speed) => {
                st.phase = EnumPhase::EnableSlot;
                st.speed = speed;
                EnumAction::EnableSlot(st.port)
            },
        },
        (EnumPhase::EnableSlot, EnumEvent::Slot(s)) => match s {
            None => next_port(st),
            Some(slot) => {
                let mps0 = ep0_max_packet(st.speed);
                st.phase = EnumPhase::Address;
                st.slot = slot;
                st.mps0 = mps0;
                EnumAction::AddressDevice { slot, port: st.port, speed: st.speed, mps0 }
            },
        },
        (EnumPhase::Address, EnumEvent::Done(ok)) => {
            if !ok {
                next_port(st)
            } else {
                st.phase = EnumPhase::DeviceHeader;
                EnumAction::ControlIn { slot: st.slot, setup: device_descriptor_request(false) }
            }
        },
        (EnumPhase::DeviceHeader, EnumEvent::Data(d)) => match d {
            None => next_port(st),
            Some(v) => {
                let reported: u8 = if v.len() > 7 { v[7] } else { 0 };
                match ep0_mps_update(reported, st.mps0) {
                    Some(m) => {
                        st.phase = EnumPhase::Evaluate;
                        EnumAction::EvaluateContext { slot: st.slot, mps0: m }
                    },
                    None => {
                        st.phase = EnumPhase::Device;
                        EnumAction::ControlIn { slot: st.slot, setup: device_descriptor_request(true) }
                    },
                }
            },
        },
        (EnumPhase::Evaluate, EnumEvent::Done(_)) => {
            st.phase = EnumPhase::Device;
            EnumAction::ControlIn { slot: st.slot, setup: device_descriptor_request(true) }
        },
        (EnumPhase::Device, EnumEvent::Data(d)) => match d {
            None => next_port(st),
            Some(v) => {
                st.phase = EnumPhase::ConfigHeader;
                st.device_class = if v.len() > 4 { v[4] } else { 0 };
                EnumAction::ControlIn { slot: st.slot, setup: config_descriptor_request(9) }
            },
        },
        (EnumPhase::ConfigHeader, EnumEvent::Data(d)) => match d {
            None => next_port(st),
            Some(v) => {
                if v.len() < 4 {
                    next_port(st)
                } else {
                    match config_total_length(v.as_slice()) {
                        None => next_port(st),
                        Some(total) => {
                            st.phase = EnumPhase::Config;
                            EnumAction::ControlIn { slot: st.slot, setup: config_descriptor_request(total as u16) }
                        },
                    }
                }
            },
        },
        (EnumPhase::Config, EnumEvent::Configuration(c)) => match c {
            None => next_port(st),
            Some(s) => {
                st.config_value = s.config_value;
                st.hub = s.hub;
                st.found = s.keyboard;
                if !st.prime_keyboard && s.keyboard.is_some() {
                    st.has_keyboard = true;
                    next_port(st)
                } else {
                    match s.keyboard {
                        Some(k) => {
                            st.phase = EnumPhase::KeyboardConfigure;
                            EnumAction::ConfigureEndpoints { slot: st.slot, speed: st.speed, ep_address: k.ep_address }
                        },
                        None => {
                            st.phase = EnumPhase::PlainSetConfig;
                            EnumAction::ControlOut { slot: st.slot, setup: set_configuration_request(s.config_value) }
                        },
                    }
                }
            },
        },
        (EnumPhase::KeyboardConfigure, EnumEvent::Done(ok)) => {
            if !ok {
                next_port(st)
            } else {
                st.phase = EnumPhase::KeyboardSetConfig;
                EnumAction::ControlOut { slot: st.slot, setup: set_configuration_request(st.config_value) }
            }
        },
        (EnumPhase::KeyboardSetConfig, EnumEvent::Done(ok)) => {
            if !ok {
                next_port(st)
            } else {
                st.phase = EnumPhase::BootHid;
                EnumAction::InitBootHid { slot: st.slot }
            }
        },
        (EnumPhase::BootHid, EnumEvent::Done(_)) => {
            match st.found {
                Some(k) => {
                    st.keyboard = Some(KeyboardBinding { slot: st.slot, ..k.binding });
                    st.has_keyboard = true;
                },
                None => {},
            }
            next_port(st)
        },
        (EnumPhase::PlainSetConfig, EnumEvent::Done(ok)) => {
            if !ok {
                next_port(st)
            } else {
                st.phase = EnumPhase::ReportKeyboard;
                EnumAction::FindReportKeyboard { slot: st.slot }
            }
        },
        (EnumPhase::ReportKeyboard, EnumEvent::ReportKeyboard(k)) => match k {
            None => next_port(st),
            Some(k) => {
                st.phase = EnumPhase::ReportConfigure;
                st.found = Some(k);
                EnumAction::ConfigureEndpoints { slot: st.slot, speed: st.speed, ep_address: k.ep_address }
            },
        },
        (EnumPhase::ReportConfigure, EnumEvent::Done(ok)) => {
            if !ok {
                next_port(st)
            } else {
                match st.found {
                    Some(k) => {
                        st.keyboard = Some(KeyboardBinding { slot: st.slot, ..k.binding });
                        st.has_keyboard = true;
                    },
                    None => {},
                }
                next_port(st)
            }
        },
        _ => EnumAction::Ignore,
    }
}

} // verus!
