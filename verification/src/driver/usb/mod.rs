//! USB core: descriptor layouts and parsers, the configuration walker and
//! the device model. Nothing here touches hardware.
use vstd::prelude::*;

use crate::driver::flock::le16;

pub mod hid;
pub mod context;
pub mod hub;
pub mod xhci;
pub mod ring;
pub mod xhci_init;
pub mod enumerate;

verus! {

pub const USB_REQ_GET_STATUS: u8 = 0x00;
pub const USB_REQ_CLEAR_FEATURE: u8 = 0x01;
pub const USB_REQ_SET_FEATURE: u8 = 0x03;
pub const USB_REQ_SET_ADDRESS: u8 = 0x05;
pub const USB_REQ_GET_DESCRIPTOR: u8 = 0x06;
pub const USB_REQ_SET_DESCRIPTOR: u8 = 0x07;
pub const USB_REQ_GET_CONFIGURATION: u8 = 0x08;
pub const USB_REQ_SET_CONFIGURATION: u8 = 0x09;
pub const USB_REQ_GET_INTERFACE: u8 = 0x0A;
pub const USB_REQ_SET_INTERFACE: u8 = 0x0B;
pub const USB_REQ_SYNCH_FRAME: u8 = 0x0C;
pub const HID_REQ_GET_REPORT: u8 = 0x01;
pub const HID_REQ_SET_REPORT: u8 = 0x09;
pub const HID_REQ_SET_IDLE: u8 = 0x0A;
pub const HID_REQ_SET_PROTOCOL: u8 = 0x0B;
pub const USB_DIR_OUT: u8 = 0x00;
pub const USB_DIR_IN: u8 = 0x80;
pub const USB_TYPE_STANDARD: u8 = 0x00;
pub const USB_TYPE_CLASS: u8 = 0x20;
pub const USB_TYPE_VENDOR: u8 = 0x40;
pub const USB_RECIP_DEVICE: u8 = 0x00;
pub const USB_RECIP_INTERFACE: u8 = 0x01;
pub const USB_RECIP_ENDPOINT: u8 = 0x02;
pub const USB_DESC_DEVICE: u8 = 0x01;
pub const USB_DESC_CONFIGURATION: u8 = 0x02;
pub const USB_DESC_STRING: u8 = 0x03;
pub const USB_DESC_INTERFACE: u8 = 0x04;
pub const USB_DESC_ENDPOINT: u8 = 0x05;
pub const USB_DESC_INTERFACE_POWER: u8 = 0x06;
pub const USB_DESC_HID: u8 = 0x21;
pub const USB_DESC_HID_REPORT: u8 = 0x22;
pub const USB_DESC_HID_PHYSICAL: u8 = 0x23;
pub const USB_CLASS_PER_INTERFACE: u8 = 0x00;
pub const USB_CLASS_AUDIO: u8 = 0x01;
pub const USB_CLASS_COMM: u8 = 0x02;
pub const USB_CLASS_HID: u8 = 0x03;
pub const USB_CLASS_PHYSICAL: u8 = 0x05;
pub const USB_CLASS_HUB: u8 = 0x09;
pub const USB_CLASS_MASS_STORAGE: u8 = 0x08;
pub const USB_ENDPOINT_DIR_OUT: u8 = 0x00;
pub const USB_ENDPOINT_DIR_IN: u8 = 0x80;
pub const USB_ENDPOINT_NUMBER_MASK: u8 = 0x0F;
pub const USB_ENDPOINT_XFER_CONTROL: u8 = 0x00;
pub const USB_ENDPOINT_XFER_ISOC: u8 = 0x01;
pub const USB_ENDPOINT_XFER_BULK: u8 = 0x02;
pub const USB_ENDPOINT_XFER_INT: u8 = 0x03;

/// USB speeds, in the order of the xHCI speed codes.
#[derive(Clone, Copy, Debug, PartialEq, Eq, Structural)]
pub enum UsbSpeed {
    /// USB 1.1/2.0 full-speed (12 Mbps).
    Full,
    /// USB 1.1 low-speed (1.5 Mbps).
    Low,
    /// USB 2.0 high-speed (480 Mbps).
    High,
    /// USB 3.0 super-speed (5 Gbps).
    Super,
    Unknown,
}

impl UsbSpeed {
    /// The speed that xHCI code `code` (PORTSC / Slot Context) denotes.
    pub fn from_xhci_code(code: u32) -> (r: Self)
        ensures
            r == if code == 1 {
                UsbSpeed::Full
            } else if code == 2 {
                UsbSpeed::Low
            } else if code == 3 {
                UsbSpeed::High
            } else if code == 4 {
                UsbSpeed::Super
            } else {
                UsbSpeed::Unknown
            },
    {
        match code {
            1 => UsbSpeed::Full,
            2 => UsbSpeed::Low,
            3 => UsbSpeed::High,
            4 => UsbSpeed::Super,
            _ => UsbSpeed::Unknown,
        }
    }

    /// The xHCI hardware speed code: 1 full, 2 low, 3 high, 4 super, 0
    /// unknown.
    pub open spec fn code_spec(self) -> u32 {
        match self {
            UsbSpeed::Full => 1,
            UsbSpeed::Low => 2,
            UsbSpeed::High => 3,
            UsbSpeed::Super => 4,
            UsbSpeed::Unknown => 0,
        }
    }

    /// The xHCI hardware speed code (see `code_spec`).
    pub fn xhci_code(self) -> (r: u32)
        ensures
            r == self.code_spec(),
    {
        match self {
            UsbSpeed::Full => 1,
            UsbSpeed::Low => 2,
            UsbSpeed::High => 3,
            UsbSpeed::Super => 4,
            UsbSpeed::Unknown => 0,
        }
    }
}

/// A known speed survives the trip to its xHCI code and back; every code
/// that names a speed comes back unchanged.
pub proof fn lemma_speed_code_roundtrip(s: UsbSpeed, code: u32)
    ensures
        s != UsbSpeed::Unknown ==> (if s.code_spec() == 1 {
            UsbSpeed::Full
        } else if s.code_spec() == 2 {
            UsbSpeed::Low
        } else if s.code_spec() == 3 {
            UsbSpeed::High
        } else if s.code_spec() == 4 {
            UsbSpeed::Super
        } else {
            UsbSpeed::Unknown
        }) == s,
        1 <= code <= 4 ==> (if code == 1 {
            UsbSpeed::Full
        } else if code == 2 {
            UsbSpeed::Low
        } else if code == 3 {
            UsbSpeed::High
        } else {
            UsbSpeed::Super
        }).code_spec() == code,
{
}

/// A control transfer's setup packet (8 bytes).
#[derive(Clone, Copy, Debug, PartialEq, Eq, Structural)]
pub struct SetupPacket {
    pub bm_request_type: u8,
    pub b_request: u8,
    pub w_value: u16,
    pub w_index: u16,
    pub w_length: u16,
}

impl SetupPacket {
    /// A setup packet with the given fields.
    pub fn new(bm_request_type: u8, b_request: u8, w_value: u16, w_index: u16, w_length: u16) -> (r: Self)
        ensures
            r == (SetupPacket { bm_request_type, b_request, w_value, w_index, w_length }),
    {
        SetupPacket { bm_request_type, b_request, w_value, w_index, w_length }
    }

    /// The packet as the 64-bit parameter of an xHCI Setup TRB: the fields
    /// packed little-endian, in order.
    pub open spec fn trb_parameter(&self) -> u64 {
        (self.bm_request_type as u64) | ((self.b_request as u64) << 8u64) | ((self.w_value as u64)
            << 16u64) | ((self.w_index as u64) << 32u64) | ((self.w_length as u64) << 48u64)
    }

    /// Encodes the packet as a Setup TRB parameter (see `trb_parameter`).
    pub fn encode_trb_parameter(&self) -> (r: u64)
        ensures
            r == self.trb_parameter(),
    {
        (self.bm_request_type as u64) | ((self.b_request as u64) << 8u64) | ((self.w_value as u64)
            << 16u64) | ((self.w_index as u64) << 32u64) | ((self.w_length as u64) << 48u64)
    }
}

/// Device descriptor (18 bytes).
#[derive(Clone, Copy, Debug, PartialEq, Eq, Structural)]
pub struct DeviceDescriptor {
    pub b_length: u8,
    pub b_descriptor_type: u8,
    pub bcd_usb: u16,
    pub b_device_class: u8,
    pub b_device_subclass: u8,
    pub b_device_protocol: u8,
    pub b_max_packet_size0: u8,
    pub id_vendor: u16,
    pub id_product: u16,
    pub bcd_device: u16,
    pub i_manufacturer: u8,
    pub i_product: u8,
    pub i_serial: u8,
    pub b_num_configurations: u8,
}

/// The device descriptor that the first 18 bytes of `b` encode.
pub open spec fn device_descriptor_from(b: Seq<u8>) -> DeviceDescriptor {
    DeviceDescriptor {
        b_length: b[0],
        b_descriptor_type: b[1],
        bcd_usb: le16(b[2], b[3]),
        b_device_class: b[4],
        b_device_subclass: b[5],
        b_device_protocol: b[6],
        b_max_packet_size0: b[7],
        id_vendor: le16(b[8], b[9]),
        id_product: le16(b[10], b[11]),
        bcd_device: le16(b[12], b[13]),
        i_manufacturer: b[14],
        i_product: b[15],
        i_serial: b[16],
        b_num_configurations: b[17],
    }
}

/// Two bytes of `data` at `i`, least significant first.
fn read_le16(data: &[u8], i: usize) -> (r: u16)
    requires
        i + 1 < data@.len(),
    ensures
        r == le16(data@[i as int], data@[i + 1]),
{
    (data[i] as u16) | ((data[i + 1] as u16) << 8u16)
}

impl DeviceDescriptor {
    /// Decodes a device descriptor; `None` when `data` is shorter than 18
    /// bytes or is not one.
    pub fn parse(data: &[u8]) -> (r: Option<Self>)
        ensures
            r == if data@.len() < 18 || data@[1] != USB_DESC_DEVICE {
                None
            } else {
                Some(device_descriptor_from(data@))
            },
    {
        if data.len() < 18 || data[1] != USB_DESC_DEVICE {
            return None;
        }
        Some(
            DeviceDescriptor {
                b_length: data[0],
                b_descriptor_type: data[1],
                bcd_usb: read_le16(data, 2),
                b_device_class: data[4],
                b_device_subclass: data[5],
                b_device_protocol: data[6],
                b_max_packet_size0: data[7],
                id_vendor: read_le16(data, 8),
                id_product: read_le16(data, 10),
                bcd_device: read_le16(data, 12),
                i_manufacturer: data[14],
                i_product: data[15],
                i_serial: data[16],
                b_num_configurations: data[17],
            },
        )
    }
}

/// The low byte of `x`.
pub open spec fn lo_byte(x: u16) -> u8 {
    (x % 256) as u8
}

/// The high byte of `x`.
pub open spec fn hi_byte(x: u16) -> u8 {
    (x / 256) as u8
}

/// The 18 bytes of device descriptor `d` as USB 2.0 (table 9-8) lays them
/// out: bLength, bDescriptorType, bcdUSB, bDeviceClass, bDeviceSubClass,
/// bDeviceProtocol, bMaxPacketSize0, idVendor, idProduct, bcdDevice,
/// iManufacturer, iProduct, iSerialNumber, bNumConfigurations, each
/// two-byte field least significant byte first.
pub open spec fn device_descriptor_bytes(d: DeviceDescriptor) -> Seq<u8> {
    seq![
        d.b_length,
        d.b_descriptor_type,
        lo_byte(d.bcd_usb),
        hi_byte(d.bcd_usb),
        d.b_device_class,
        d.b_device_subclass,
        d.b_device_protocol,
        d.b_max_packet_size0,
        lo_byte(d.id_vendor),
        hi_byte(d.id_vendor),
        lo_byte(d.id_product),
        hi_byte(d.id_product),
        lo_byte(d.bcd_device),
        hi_byte(d.bcd_device),
        d.i_manufacturer,
        d.i_product,
        d.i_serial,
        d.b_num_configurations,
    ]
}

proof fn lemma_le16_bytes(x: u16, a: u8, b: u8)
    ensures
        le16(lo_byte(x), hi_byte(x)) == x,
        lo_byte(le16(a, b)) == a,
        hi_byte(le16(a, b)) == b,
{
    assert(((x % 256) as u8 as u16) | (((x / 256) as u8 as u16) << 8u16) == x && ((((a as u16) | ((b as u16)
        << 8u16)) % 256) as u8) == a && ((((a as u16) | ((b as u16) << 8u16)) / 256) as u8) == b) by (bit_vector);
}

/// Decoding reads each field where USB lays it out: a device descriptor
/// written out in the standard layout parses back to itself.
pub proof fn law_device_descriptor_roundtrip(d: DeviceDescriptor)
    requires
        d.b_descriptor_type == USB_DESC_DEVICE,
    ensures
        device_descriptor_bytes(d).len() == 18,
        device_descriptor_bytes(d)[1] == USB_DESC_DEVICE,
        device_descriptor_from(device_descriptor_bytes(d)) == d,
{
    lemma_le16_bytes(d.bcd_usb, 0, 0);
    lemma_le16_bytes(d.id_vendor, 0, 0);
    lemma_le16_bytes(d.id_product, 0, 0);
    lemma_le16_bytes(d.bcd_device, 0, 0);
}

/// And the other way: the 18 bytes of a device descriptor are what the
/// parsed descriptor writes out, so no byte is read into the wrong field.
pub proof fn law_device_descriptor_bytes_kept(data: Seq<u8>)
    requires
        data.len() >= 18,
        data[1] == USB_DESC_DEVICE,
    ensures
        device_descriptor_bytes(device_descriptor_from(data)) == data.take(18),
{
    lemma_le16_bytes(0, data[2], data[3]);
    lemma_le16_bytes(0, data[8], data[9]);
    lemma_le16_bytes(0, data[10], data[11]);
    lemma_le16_bytes(0, data[12], data[13]);
    assert(device_descriptor_bytes(device_descriptor_from(data)) =~= data.take(18));
}

/// Configuration descriptor header (9 bytes).
#[derive(Clone, Copy, Debug, PartialEq, Eq, Structural)]
pub struct ConfigDescriptor {
    pub b_length: u8,
    pub b_descriptor_type: u8,
    pub w_total_length: u16,
    pub b_num_interfaces: u8,
    pub b_configuration_value: u8,
    pub i_configuration: u8,
    pub bm_attributes: u8,
    pub b_max_power: u8,
}

/// The configuration header that the first 9 bytes of `b` encode.
pub open spec fn config_descriptor_from(b: Seq<u8>) -> ConfigDescriptor {
    ConfigDescriptor {
        b_length: b[0],
        b_descriptor_type: b[1],
        w_total_length: le16(b[2], b[3]),
        b_num_interfaces: b[4],
        b_configuration_value: b[5],
        i_configuration: b[6],
        bm_attributes: b[7],
        b_max_power: b[8],
    }
}

impl ConfigDescriptor {
    /// The header that `data` decodes to, if any.
    pub open spec fn parse_spec(data: Seq<u8>) -> Option<ConfigDescriptor> {
        if data.len() < 9 || data[1] != USB_DESC_CONFIGURATION {
            None
        } else {
            Some(config_descriptor_from(data))
        }
    }

    /// Decodes a configuration header; `None` when `data` is shorter than
    /// 9 bytes or is not one.
    pub fn parse(data: &[u8]) -> (r: Option<Self>)
        ensures
            r == if data@.len() < 9 || data@[1] != USB_DESC_CONFIGURATION {
                None
            } else {
                Some(config_descriptor_from(data@))
            },
    {
        if data.len() < 9 || data[1] != USB_DESC_CONFIGURATION {
            return None;
        }
        Some(
            ConfigDescriptor {
                b_length: data[0],
                b_descriptor_type: data[1],
                w_total_length: read_le16(data, 2),
                b_num_interfaces: data[4],
                b_configuration_value: data[5],
                i_configuration: data[6],
                bm_attributes: data[7],
                b_max_power: data[8],
            },
        )
    }

    /// wTotalLength: the size of the whole configuration blob.
    pub fn total_length(&self) -> (r: usize)
        ensures
            r == self.w_total_length,
    {
        self.w_total_length as usize
    }
}

/// Interface descriptor (9 bytes).
#[derive(Clone, Copy, Debug, PartialEq, Eq, Structural)]
pub struct InterfaceDescriptor {
    pub b_length: u8,
    pub b_descriptor_type: u8,
    pub b_interface_number: u8,
    pub b_alternate_setting: u8,
    pub b_num_endpoints: u8,
    pub b_interface_class: u8,
    pub b_interface_subclass: u8,
    pub b_interface_protocol: u8,
    pub i_interface: u8,
}

/// The interface descriptor that the first 9 bytes of `b` encode.
pub open spec fn interface_descriptor_from(b: Seq<u8>) -> InterfaceDescriptor {
    InterfaceDescriptor {
        b_length: b[0],
        b_descriptor_type: b[1],
        b_interface_number: b[2],
        b_alternate_setting: b[3],
        b_num_endpoints: b[4],
        b_interface_class: b[5],
        b_interface_subclass: b[6],
        b_interface_protocol: b[7],
        i_interface: b[8],
    }
}

/// `b` holds an interface descriptor.
pub open spec fn is_interface(b: Seq<u8>) -> bool {
    b.len() >= 9 && b[1] == USB_DESC_INTERFACE
}

impl InterfaceDescriptor {
    /// Decodes an interface descriptor; `None` when `data` is shorter than
    /// 9 bytes or is not one.
    pub fn parse(data: &[u8]) -> (r: Option<Self>)
        ensures
            r == if is_interface(data@) {
                Some(interface_descriptor_from(data@))
            } else {
                None
            },
    {
        if data.len() < 9 || data[1] != USB_DESC_INTERFACE {
            return None;
        }
        Some(
            InterfaceDescriptor {
                b_length: data[0],
                b_descriptor_type: data[1],
                b_interface_number: data[2],
                b_alternate_setting: data[3],
                b_num_endpoints: data[4],
                b_interface_class: data[5],
                b_interface_subclass: data[6],
                b_interface_protocol: data[7],
                i_interface: data[8],
            },
        )
    }
}

/// Endpoint descriptor (7 bytes).
#[derive(Clone, Copy, Debug, PartialEq, Eq, Structural)]
pub struct EndpointDescriptor {
    pub b_length: u8,
    pub b_descriptor_type: u8,
    pub b_endpoint_address: u8,
    pub bm_attributes: u8,
    pub w_max_packet_size: u16,
    pub b_interval: u8,
}

/// The endpoint descriptor that the first 7 bytes of `b` encode.
pub open spec fn endpoint_descriptor_from(b: Seq<u8>) -> EndpointDescriptor {
    EndpointDescriptor {
        b_length: b[0],
        b_descriptor_type: b[1],
        b_endpoint_address: b[2],
        bm_attributes: b[3],
        w_max_packet_size: le16(b[4], b[5]),
        b_interval: b[6],
    }
}

/// `b` holds an endpoint descriptor.
pub open spec fn is_endpoint(b: Seq<u8>) -> bool {
    b.len() >= 7 && b[1] == USB_DESC_ENDPOINT
}

impl EndpointDescriptor {
    /// Decodes an endpoint descriptor; `None` when `data` is shorter than 7
    /// bytes or is not one.
    pub fn parse(data: &[u8]) -> (r: Option<Self>)
        ensures
            r == if is_endpoint(data@) {
                Some(endpoint_descriptor_from(data@))
            } else {
                None
            },
    {
        if data.len() < 7 || data[1] != USB_DESC_ENDPOINT {
            return None;
        }
        Some(
            EndpointDescriptor {
                b_length: data[0],
                b_descriptor_type: data[1],
                b_endpoint_address: data[2],
                bm_attributes: data[3],
                w_max_packet_size: read_le16(data, 4),
                b_interval: data[6],
            },
        )
    }

    /// The endpoint sends to the host (bit 7 of the address).
    pub open spec fn is_in(&self) -> bool {
        self.b_endpoint_address & USB_ENDPOINT_DIR_IN != 0
    }

    /// The transfer type (bits 0-1 of the attributes).
    pub open spec fn xfer_type(&self) -> u8 {
        self.bm_attributes & 0x03
    }

    /// The endpoint sends to the host.
    pub fn direction_in(&self) -> (r: bool)
        ensures
            r == self.is_in(),
    {
        self.b_endpoint_address & USB_ENDPOINT_DIR_IN != 0
    }

    /// The endpoint number (bits 0-3 of the address).
    pub fn number(&self) -> (r: u8)
        ensures
            r == self.b_endpoint_address & USB_ENDPOINT_NUMBER_MASK,
    {
        self.b_endpoint_address & USB_ENDPOINT_NUMBER_MASK
    }

    /// The transfer type (bits 0-1 of the attributes).
    pub fn transfer_type(&self) -> (r: u8)
        ensures
            r == self.xfer_type(),
    {
        self.bm_attributes & 0x03
    }

    /// wMaxPacketSize.
    pub fn max_packet_size(&self) -> (r: u16)
        ensures
            r == self.w_max_packet_size,
    {
        self.w_max_packet_size
    }
}

/// HID class descriptor (9 bytes).
#[derive(Clone, Copy, Debug, PartialEq, Eq, Structural)]
pub struct HidDescriptor {
    pub b_length: u8,
    pub b_descriptor_type: u8,
    pub bcd_hid: u16,
    pub b_country_code: u8,
    pub b_num_descriptors: u8,
    pub b_report_descriptor_type: u8,
    pub w_descriptor_length: u16,
}

/// The HID descriptor that the first 9 bytes of `b` encode.
pub open spec fn hid_descriptor_from(b: Seq<u8>) -> HidDescriptor {
    HidDescriptor {
        b_length: b[0],
        b_descriptor_type: b[1],
        bcd_hid: le16(b[2], b[3]),
        b_country_code: b[4],
        b_num_descriptors: b[5],
        b_report_descriptor_type: b[6],
        w_descriptor_length: le16(b[7], b[8]),
    }
}

/// `b` holds a HID descriptor.
pub open spec fn is_hid(b: Seq<u8>) -> bool {
    b.len() >= 9 && b[1] == USB_DESC_HID
}

impl HidDescriptor {
    /// Decodes a HID descriptor; `None` when `data` is shorter than 9 bytes
    /// or is not one.
    pub fn parse(data: &[u8]) -> (r: Option<Self>)
        ensures
            r == if is_hid(data@) {
                Some(hid_descriptor_from(data@))
            } else {
                None
            },
    {
        if data.len() < 9 || data[1] != USB_DESC_HID {
            return None;
        }
        Some(
            HidDescriptor {
                b_length: data[0],
                b_descriptor_type: data[1],
                bcd_hid: read_le16(data, 2),
                b_country_code: data[4],
                b_num_descriptors: data[5],
                b_report_descriptor_type: data[6],
                w_descriptor_length: read_le16(data, 7),
            },
        )
    }
}


/// The descriptors of a configuration blob from offset `pos` on, as
/// (offset, length, type): each starts with its length and type byte; the
/// walk stops at a header that does not fit, a length below 2, or a
/// descriptor that runs past the end.
pub open spec fn walk(data: Seq<u8>, pos: int) -> Seq<(int, int, u8)>
    decreases data.len() - pos,
{
    if pos < 0 || pos + 2 > data.len() {
        Seq::empty()
    } else {
        let len = data[pos] as int;
        if len < 2 || pos + len > data.len() {
            Seq::empty()
        } else {
            seq![(pos, len, data[pos + 1])] + walk(data, pos + len)
        }
    }
}

/// Walks the descriptors of a configuration blob (see `walk`).
pub struct ConfigDescriptorIter<'a> {
    pub data: &'a [u8],
    pub pos: usize,
}

/// A walker at the start of `data`.
pub fn walk_config_descriptors<'a>(data: &'a [u8]) -> (r: ConfigDescriptorIter<'a>)
    ensures
        r.data@ == data@,
        r.pos == 0,
{
    ConfigDescriptorIter { data, pos: 0 }
}

impl<'a> ConfigDescriptorIter<'a> {
    /// The next descriptor, its length and its type, as the first step of
    /// `walk` gives them; `None` at the end.
    pub fn next(&mut self) -> (r: Option<(&'a [u8], u8, u8)>)
        ensures
            final(self).data@ == old(self).data@,
            ({
                let w = walk(old(self).data@, old(self).pos as int);
                if w.len() == 0 {
                    r is None && final(self).pos == old(self).pos
                } else {
                    &&& r matches Some((slice, len, typ)) && slice@ == old(self).data@.subrange(
                        w[0].0,
                        w[0].0 + w[0].1,
                    ) && len == w[0].1 && typ == w[0].2
                    &&& final(self).pos == w[0].0 + w[0].1
                    &&& walk(old(self).data@, final(self).pos as int) == w.drop_first()
                }
            }),
    {
        let pos = self.pos;
        if pos > self.data.len() || self.data.len() - pos < 2 {
            return None;
        }
        let len = self.data[pos] as usize;
        let typ = self.data[pos + 1];
        if len < 2 || len > self.data.len() - pos {
            return None;
        }
        let slice = &self.data[pos..pos + len];
        self.pos = pos + len;
        proof {
            let w = walk(old(self).data@, pos as int);
            assert(w.drop_first() =~= walk(old(self).data@, self.pos as int));
        }
        Some((slice, len as u8, typ))
    }
}

/// An interface of a parsed configuration: its descriptor, its HID
/// descriptor if any, and its endpoints in order.
pub struct ParsedInterface {
    pub iface: InterfaceDescriptor,
    pub hid: Option<HidDescriptor>,
    pub endpoints: Vec<EndpointDescriptor>,
}

/// `ParsedInterface` as plain values.
pub struct InterfaceView {
    pub iface: InterfaceDescriptor,
    pub hid: Option<HidDescriptor>,
    pub endpoints: Seq<EndpointDescriptor>,
}

impl View for ParsedInterface {
    type V = InterfaceView;

    open spec fn view(&self) -> InterfaceView {
        InterfaceView { iface: self.iface, hid: self.hid, endpoints: self.endpoints@ }
    }
}

/// Parsing state: the interfaces done and the one being filled.
pub struct ParseState {
    pub done: Seq<InterfaceView>,
    pub current: Option<InterfaceView>,
}

/// One descriptor of the walk: an interface starts a new group (closing
/// the current one), an endpoint or HID descriptor joins the current group
/// (and is dropped before the first interface); anything else, or a
/// descriptor too short to decode, is skipped.
pub open spec fn parse_step(st: ParseState, d: Seq<u8>, typ: u8) -> ParseState {
    if typ == USB_DESC_INTERFACE && is_interface(d) {
        ParseState {
            done: match st.current {
                Some(c) => st.done.push(c),
                None => st.done,
            },
            current: Some(InterfaceView { iface: interface_descriptor_from(d), hid: None, endpoints: Seq::empty() }),
        }
    } else if typ == USB_DESC_ENDPOINT && is_endpoint(d) {
        match st.current {
            Some(c) => ParseState {
                done: st.done,
                current: Some(InterfaceView { endpoints: c.endpoints.push(endpoint_descriptor_from(d)), ..c }),
            },
            None => st,
        }
    } else if typ == USB_DESC_HID && is_hid(d) {
        match st.current {
            Some(c) => ParseState {
                done: st.done,
                current: Some(InterfaceView { hid: Some(hid_descriptor_from(d)), ..c }),
            },
            None => st,
        }
    } else {
        st
    }
}

/// The state after the first `n` descriptors of the walk of `blob`.
pub open spec fn parse_upto(blob: Seq<u8>, n: int) -> ParseState
    decreases n,
{
    if n <= 0 {
        ParseState { done: Seq::empty(), current: None }
    } else {
        let w = walk(blob, 0);
        let e = w[n - 1];
        parse_step(parse_upto(blob, n - 1), blob.subrange(e.0, e.0 + e.1), e.2)
    }
}

/// The interfaces of a configuration blob: all groups of its walk, the
/// last one included.
pub open spec fn parsed_interfaces(blob: Seq<u8>) -> Seq<InterfaceView> {
    let st = parse_upto(blob, walk(blob, 0).len() as int);
    match st.current {
        Some(c) => st.done.push(c),
        None => st.done,
    }
}

/// A configuration: its header and its interfaces.
pub struct ParsedConfiguration {
    pub config: ConfigDescriptor,
    pub interfaces: Vec<ParsedInterface>,
}


impl ParsedConfiguration {
    /// Parses a configuration blob: its header, then the descriptors of
    /// its first `min(wTotalLength, blob length)` bytes grouped by
    /// interface (see `parse_step`). `None` when the header does not
    /// decode.
    pub fn parse(blob: &[u8]) -> (r: Option<Self>)
        ensures
            match ConfigDescriptor::parse_spec(blob@) {
                None => r is None,
                Some(c) => r matches Some(pc) && pc.config == c && pc.interfaces@.map_values(
                    |p: ParsedInterface| p@,
                ) == parsed_interfaces(blob@.take(
                    if (c.w_total_length as int) < blob@.len() {
                        c.w_total_length as int
                    } else {
                        blob@.len() as int
                    },
                )),
            },
    {
        let config = match ConfigDescriptor::parse(blob) {
            Some(c) => c,
            None => return None,
        };
        let t = config.total_length();
        let total = if t < blob.len() { t } else { blob.len() };
        let data = &blob[0..total];
        let ghost d = data@;
        let mut interfaces: Vec<ParsedInterface> = Vec::new();
        let mut current: Option<ParsedInterface> = None;
        let mut it = walk_config_descriptors(data);
        let ghost mut n: int = 0;
        assert(walk(d, 0).skip(0) =~= walk(d, 0));
        loop
            invariant
                it.data@ == d,
                0 <= n <= walk(d, 0).len(),
                walk(d, it.pos as int) == walk(d, 0).skip(n),
                interfaces@.map_values(|p: ParsedInterface| p@) == parse_upto(d, n).done,
                match current {
                    Some(c) => parse_upto(d, n).current == Some(c@),
                    None => parse_upto(d, n).current is None,
                },
            ensures
                n == walk(d, 0).len(),
                interfaces@.map_values(|p: ParsedInterface| p@) == parse_upto(d, n).done,
                match current {
                    Some(c) => parse_upto(d, n).current == Some(c@),
                    None => parse_upto(d, n).current is None,
                },
            decreases walk(d, 0).len() - n,
        {
            let ghost before_pos = it.pos;
            match it.next() {
                None => {
                    assert(walk(d, 0).skip(n).len() == 0);
                    break;
                },
                Some((slice, _len, typ)) => {
                    proof {
                        let w = walk(d, 0);
                        assert(w.skip(n)[0] == w[n]);
                        assert(w.skip(n).drop_first() =~= w.skip(n + 1));
                    }
                    let ghost st = parse_upto(d, n);
                    if typ == USB_DESC_INTERFACE {
                        match InterfaceDescriptor::parse(slice) {
                            Some(iface) => {
                                let prev = current.take();
                                match prev {
                                    Some(p) => {
                                        interfaces.push(p);
                                    },
                                    None => {},
                                }
                                current = Some(ParsedInterface { iface, hid: None, endpoints: Vec::new() });
                            },
                            None => {},
                        }
                    } else if typ == USB_DESC_ENDPOINT {
                        match EndpointDescriptor::parse(slice) {
                            Some(ep) => {
                                match current {
                                    Some(mut pi) => {
                                        pi.endpoints.push(ep);
                                        current = Some(pi);
                                    },
                                    None => {},
                                }
                            },
                            None => {},
                        }
                    } else if typ == USB_DESC_HID {
                        match HidDescriptor::parse(slice) {
                            Some(h) => {
                                match current {
                                    Some(mut pi) => {
                                        pi.hid = Some(h);
                                        current = Some(pi);
                                    },
                                    None => {},
                                }
                            },
                            None => {},
                        }
                    }
                    proof {
                        n = n + 1;
                        assert(interfaces@.map_values(|p: ParsedInterface| p@) =~= parse_upto(d, n).done);
                    }
                },
            }
        }
        match current {
            Some(p) => {
                interfaces.push(p);
            },
            None => {},
        }
        assert(blob@.take(total as int) =~= d);
        assert(interfaces@.map_values(|p: ParsedInterface| p@) =~= parsed_interfaces(d));
        Some(ParsedConfiguration { config, interfaces })
    }
}


/// A boot keyboard interface: HID class, boot subclass, keyboard protocol.
pub open spec fn is_boot_keyboard(i: InterfaceDescriptor) -> bool {
    i.b_interface_class == USB_CLASS_HID && i.b_interface_subclass == 0x01 && i.b_interface_protocol
        == 0x01
}

/// An interrupt IN endpoint.
pub open spec fn is_interrupt_in(e: EndpointDescriptor) -> bool {
    e.is_in() && e.xfer_type() == USB_ENDPOINT_XFER_INT
}

/// Interface `i`, endpoint `j` is a keyboard's report endpoint.
pub open spec fn keyboard_at(ifs: Seq<InterfaceView>, i: int, j: int) -> bool {
    0 <= i < ifs.len() && is_boot_keyboard(ifs[i].iface) && 0 <= j < ifs[i].endpoints.len()
        && is_interrupt_in(ifs[i].endpoints[j])
}

/// (i, j) comes before (i2, j2): by interface, then by endpoint.
pub open spec fn pair_before(i: int, j: int, i2: int, j2: int) -> bool {
    i < i2 || (i == i2 && j < j2)
}

impl ParsedConfiguration {
    /// The interfaces as plain values.
    pub open spec fn ifaces(&self) -> Seq<InterfaceView> {
        self.interfaces@.map_values(|p: ParsedInterface| p@)
    }

    /// The first boot keyboard interface (class HID, subclass 1, protocol
    /// 1) with an interrupt IN endpoint, and the first such endpoint of it.
    /// Protocol 0 devices are not taken: their report descriptor decides.
    pub fn find_hid_keyboard(&self) -> (r: Option<(&ParsedInterface, &EndpointDescriptor)>)
        ensures
            match r {
                Some((pi, ep)) => exists|i: int, j: int|
                    keyboard_at(self.ifaces(), i, j) && self.interfaces@[i] == *pi && self.ifaces()[i].endpoints[j] == *ep
                        && forall|i2: int, j2: int| #[trigger] keyboard_at(self.ifaces(), i2, j2) ==> !pair_before(i2, j2, i, j),
                None => forall|i: int, j: int| !#[trigger] keyboard_at(self.ifaces(), i, j),
            },
    {
        let mut i: usize = 0;
        while i < self.interfaces.len()
            invariant
                i <= self.interfaces@.len(),
                forall|i2: int, j2: int| 0 <= i2 < i ==> !#[trigger] keyboard_at(self.ifaces(), i2, j2),
            decreases self.interfaces@.len() - i,
        {
            let pi = &self.interfaces[i];
            if pi.iface.b_interface_class == USB_CLASS_HID && pi.iface.b_interface_subclass == 0x01
                && pi.iface.b_interface_protocol == 0x01 {
                let mut j: usize = 0;
                while j < pi.endpoints.len()
                    invariant
                        i < self.interfaces@.len(),
                        *pi == self.interfaces@[i as int],
                        j <= pi.endpoints@.len(),
                        is_boot_keyboard(pi.iface),
                        forall|i2: int, j2: int| 0 <= i2 < i ==> !#[trigger] keyboard_at(self.ifaces(), i2, j2),
                        forall|j2: int| 0 <= j2 < j ==> !#[trigger] keyboard_at(self.ifaces(), i as int, j2),
                    decreases pi.endpoints@.len() - j,
                {
                    let ep = &pi.endpoints[j];
                    if ep.direction_in() && ep.transfer_type() == USB_ENDPOINT_XFER_INT {
                        assert(keyboard_at(self.ifaces(), i as int, j as int));
                        return Some((pi, ep));
                    }
                    assert(!keyboard_at(self.ifaces(), i as int, j as int));
                    j = j + 1;
                }
            }
            i = i + 1;
        }
        None
    }
}

/// Data size of a short report item with prefix `p`: 0, 1, 2 or 4 bytes.
pub open spec fn item_size(p: u8) -> int {
    let s = p & 0x03;
    if s == 0 {
        0
    } else if s == 1 {
        1
    } else if s == 2 {
        2
    } else {
        4
    }
}

/// The little-endian item data of `size` bytes at `i`.
pub open spec fn item_value(d: Seq<u8>, i: int, size: int) -> u32 {
    if size == 0 {
        0
    } else if size == 1 {
        d[i] as u32
    } else if size == 2 {
        (d[i] as u32) | ((d[i + 1] as u32) << 8u32)
    } else {
        (d[i] as u32) | ((d[i + 1] as u32) << 8u32) | ((d[i + 2] as u32) << 16u32) | ((
        d[i + 3] as u32) << 24u32)
    }
}

/// Scanning report descriptor `d` from item `i` with usage page `page`
/// finds a keyboard usage: a Usage of Generic Desktop / Keyboard (page 1,
/// usage 6) or any usage on the Keyboard/Keypad page (7). Long items are
/// skipped; a truncated item ends the scan with no finding.
pub open spec fn scan_keyboard(d: Seq<u8>, i: int, page: u32) -> bool
    decreases d.len() - i,
{
    if i < 0 || i >= d.len() {
        false
    } else {
        let prefix = d[i];
        let i1 = i + 1;
        if prefix == 0xFE {
            if i1 + 2 > d.len() {
                false
            } else {
                let l = d[i1] as int;
                let i2 = i1 + 2;
                if i2 + l > d.len() {
                    false
                } else {
                    scan_keyboard(d, i2 + l, page)
                }
            }
        } else {
            let size = item_size(prefix);
            if i1 + size > d.len() {
                false
            } else {
                let v = item_value(d, i1, size);
                let i2 = i1 + size;
                let ty = (prefix >> 2u8) & 0x03;
                let tag = (prefix >> 4u8) & 0x0F;
                if ty == 1 && tag == 0 {
                    scan_keyboard(d, i2, v)
                } else if ty == 2 && tag == 0 && ((page == 1 && v == 6) || page == 7) {
                    true
                } else {
                    scan_keyboard(d, i2, page)
                }
            }
        }
    }
}

/// A HID report descriptor advertises keyboard input usages (see
/// `scan_keyboard`): enough to tell keyboards from mice and consumer
/// controls among protocol-0 devices.
pub fn hid_report_has_keyboard_usage(desc: &[u8]) -> (r: bool)
    ensures
        r == scan_keyboard(desc@, 0, 0),
{
    let d = desc;
    let mut i: usize = 0;
    let mut usage_page: u32 = 0;
    while i < d.len()
        invariant
            i <= d@.len(),
            d@ == desc@,
            scan_keyboard(d@, i as int, usage_page) == scan_keyboard(d@, 0, 0),
        decreases d@.len() - i,
    {
        let prefix = d[i];
        let i1 = i + 1;
        if prefix == 0xFE {
            if d.len() - i1 < 2 {
                return false;
            }
            let len = d[i1] as usize;
            let i2 = i1 + 2;
            if d.len() - i2 < len {
                return false;
            }
            i = i2 + len;
            continue;
        }
        let s = prefix & 0x03;
        let size: usize = if s == 0 {
            0
        } else if s == 1 {
            1
        } else if s == 2 {
            2
        } else {
            4
        };
        if d.len() - i1 < size {
            return false;
        }
        let value: u32 = if size == 0 {
            0
        } else if size == 1 {
            d[i1] as u32
        } else if size == 2 {
            (d[i1] as u32) | ((d[i1 + 1] as u32) << 8u32)
        } else {
            (d[i1] as u32) | ((d[i1 + 1] as u32) << 8u32) | ((d[i1 + 2] as u32) << 16u32) | ((
            d[i1 + 3] as u32) << 24u32)
        };
        let i2 = i1 + size;
        let item_type = (prefix >> 2u8) & 0x03;
        let item_tag = (prefix >> 4u8) & 0x0F;
        if item_type == 1 && item_tag == 0 {
            usage_page = value;
        } else if item_type == 2 && item_tag == 0 {
            if (usage_page == 1 && value == 6) || usage_page == 7 {
                return true;
            }
        }
        i = i2;
    }
    false
}

/// A USB device known to the host controller (one per slot).
#[derive(Clone, Copy, Debug, PartialEq, Eq, Structural)]
pub struct UsbDevice {
    pub slot_id: u8,
    pub address: u8,
    pub speed: UsbSpeed,
    pub vendor_id: u16,
    pub product_id: u16,
    pub class: u8,
    pub config_value: u8,
    pub max_packet_size0: u16,
}

impl UsbDevice {
    /// A device in slot `slot_id`, not yet addressed or described; the
    /// default control packet size is 8.
    pub fn new(slot_id: u8, speed: UsbSpeed) -> (r: Self)
        ensures
            r == (UsbDevice {
                slot_id,
                address: 0,
                speed,
                vendor_id: 0,
                product_id: 0,
                class: 0,
                config_value: 0,
                max_packet_size0: 8,
            }),
    {
        UsbDevice {
            slot_id,
            address: 0,
            speed,
            vendor_id: 0,
            product_id: 0,
            class: 0,
            config_value: 0,
            max_packet_size0: 8,
        }
    }
}

/// The 9 bytes of configuration header `c` in the USB layout (table 9-10):
/// bLength, bDescriptorType, wTotalLength, bNumInterfaces,
/// bConfigurationValue, iConfiguration, bmAttributes, bMaxPower.
pub open spec fn config_descriptor_bytes(c: ConfigDescriptor) -> Seq<u8> {
    seq![
        c.b_length,
        c.b_descriptor_type,
        lo_byte(c.w_total_length),
        hi_byte(c.w_total_length),
        c.b_num_interfaces,
        c.b_configuration_value,
        c.i_configuration,
        c.bm_attributes,
        c.b_max_power,
    ]
}

/// The 9 bytes of interface descriptor `d` in the USB layout (table 9-12):
/// bLength, bDescriptorType, bInterfaceNumber, bAlternateSetting,
/// bNumEndpoints, bInterfaceClass, bInterfaceSubClass,
/// bInterfaceProtocol, iInterface.
pub open spec fn interface_descriptor_bytes(d: InterfaceDescriptor) -> Seq<u8> {
    seq![
        d.b_length,
        d.b_descriptor_type,
        d.b_interface_number,
        d.b_alternate_setting,
        d.b_num_endpoints,
        d.b_interface_class,
        d.b_interface_subclass,
        d.b_interface_protocol,
        d.i_interface,
    ]
}

/// The 7 bytes of endpoint descriptor `d` in the USB layout (table 9-13):
/// bLength, bDescriptorType, bEndpointAddress, bmAttributes,
/// wMaxPacketSize, bInterval.
pub open spec fn endpoint_descriptor_bytes(d: EndpointDescriptor) -> Seq<u8> {
    seq![
        d.b_length,
        d.b_descriptor_type,
        d.b_endpoint_address,
        d.bm_attributes,
        lo_byte(d.w_max_packet_size),
        hi_byte(d.w_max_packet_size),
        d.b_interval,
    ]
}

/// The 9 bytes of HID descriptor `d` in the HID 1.11 layout (6.2.1):
/// bLength, bDescriptorType, bcdHID, bCountryCode, bNumDescriptors,
/// bDescriptorType of the report descriptor, wDescriptorLength.
pub open spec fn hid_descriptor_bytes(d: HidDescriptor) -> Seq<u8> {
    seq![
        d.b_length,
        d.b_descriptor_type,
        lo_byte(d.bcd_hid),
        hi_byte(d.bcd_hid),
        d.b_country_code,
        d.b_num_descriptors,
        d.b_report_descriptor_type,
        lo_byte(d.w_descriptor_length),
        hi_byte(d.w_descriptor_length),
    ]
}

/// Each descriptor decoder reads every field where the standard layout
/// puts it: writing the decoded configuration header, interface or HID
/// descriptor back out in that layout gives the bytes it was read from.
pub proof fn law_descriptor_bytes_kept(data: Seq<u8>)
    requires
        data.len() >= 9,
    ensures
        config_descriptor_bytes(config_descriptor_from(data)) == data.take(9),
        interface_descriptor_bytes(interface_descriptor_from(data)) == data.take(9),
        hid_descriptor_bytes(hid_descriptor_from(data)) == data.take(9),
{
    lemma_le16_bytes(0, data[2], data[3]);
    lemma_le16_bytes(0, data[7], data[8]);
    assert(config_descriptor_bytes(config_descriptor_from(data)) =~= data.take(9));
    assert(interface_descriptor_bytes(interface_descriptor_from(data)) =~= data.take(9));
    assert(hid_descriptor_bytes(hid_descriptor_from(data)) =~= data.take(9));
}

/// The endpoint decoder reads every field where the standard layout puts
/// it: the decoded endpoint descriptor written back out is its 7 bytes.
pub proof fn law_endpoint_bytes_kept(data: Seq<u8>)
    requires
        data.len() >= 7,
    ensures
        endpoint_descriptor_bytes(endpoint_descriptor_from(data)) == data.take(7),
{
    lemma_le16_bytes(0, data[4], data[5]);
    assert(endpoint_descriptor_bytes(endpoint_descriptor_from(data)) =~= data.take(7));
}

} // verus!
