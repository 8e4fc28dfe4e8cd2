//! The raw-gadget kernel interface: request layouts and endpoint information.
use vstd::prelude::*;

verus! {

/// Size of the UDC driver and device name fields.
pub const UDC_NAME_LENGTH_MAX: usize = 128;

/// Number of entries of the endpoint information array.
pub const USB_RAW_EPS_NUM_MAX: usize = 30;

/// Size of the name field of an endpoint.
pub const USB_RAW_EP_NAME_MAX: usize = 16;

/// Endpoint address meaning "any address".
pub const USB_RAW_EP_ADDR_ANY: u32 = 0xff;

/// Endpoint I/O flag: finish the transfer with a zero-length packet.
pub const USB_RAW_IO_FLAGS_ZERO: u16 = 0x0001;

/// Argument for `USB_RAW_IOCTL_INIT`.
pub struct UsbRawInit {
    pub driver_name: [u8; UDC_NAME_LENGTH_MAX],
    pub device_name: [u8; UDC_NAME_LENGTH_MAX],
    pub speed: u8,
}

/// Header for `USB_RAW_IOCTL_EP0_WRITE/READ` and `USB_RAW_IOCTL_EP_WRITE/READ`;
/// the data follows it.
#[derive(Debug, Clone, Copy, PartialEq, Eq, Structural)]
pub struct UsbRawEpIoHeader {
    pub ep: u16,
    pub flags: u16,
    pub length: u32,
}

/// Bit `i` of `bits` is set.
pub open spec fn bit_set(bits: u32, i: u32) -> bool {
    (bits >> i) % 2 == 1
}

/// Endpoint capabilities bitfield.
#[derive(Debug, Clone, Copy)]
pub struct UsbRawEpCaps {
    bits: u32,
}

impl UsbRawEpCaps {
    /// The capability bits.
    pub closed spec fn spec_bits(self) -> u32 {
        self.bits
    }

    /// Capabilities with the given bits, as the kernel reports them.
    pub fn from_bits(bits: u32) -> (c: Self)
        ensures
            c.spec_bits() == bits,
    {
        UsbRawEpCaps { bits }
    }

    /// The capability bits.
    pub fn bits(&self) -> (r: u32)
        ensures
            r == self.spec_bits(),
    {
        self.bits
    }

    /// The endpoint can do control transfers (bit 0).
    pub fn type_control(&self) -> (r: bool)
        ensures
            r == bit_set(self.spec_bits(), 0),
    {
        let b = self.bits;
        assert((b & 1u32 != 0) == ((b >> 0u32) % 2 == 1)) by (bit_vector);
        self.bits & 1u32 != 0
    }

    /// The endpoint can do isochronous transfers (bit 1).
    pub fn type_iso(&self) -> (r: bool)
        ensures
            r == bit_set(self.spec_bits(), 1),
    {
        let b = self.bits;
        assert((b & (1u32 << 1u32) != 0) == ((b >> 1u32) % 2 == 1)) by (bit_vector);
        self.bits & (1u32 << 1u32) != 0
    }

    /// The endpoint can do bulk transfers (bit 2).
    pub fn type_bulk(&self) -> (r: bool)
        ensures
            r == bit_set(self.spec_bits(), 2),
    {
        let b = self.bits;
        assert((b & (1u32 << 2u32) != 0) == ((b >> 2u32) % 2 == 1)) by (bit_vector);
        self.bits & (1u32 << 2u32) != 0
    }

    /// The endpoint can do interrupt transfers (bit 3).
    pub fn type_int(&self) -> (r: bool)
        ensures
            r == bit_set(self.spec_bits(), 3),
    {
        let b = self.bits;
        assert((b & (1u32 << 3u32) != 0) == ((b >> 3u32) % 2 == 1)) by (bit_vector);
        self.bits & (1u32 << 3u32) != 0
    }

    /// The endpoint can be an IN endpoint (bit 4).
    pub fn dir_in(&self) -> (r: bool)
        ensures
            r == bit_set(self.spec_bits(), 4),
    {
        let b = self.bits;
        assert((b & (1u32 << 4u32) != 0) == ((b >> 4u32) % 2 == 1)) by (bit_vector);
        self.bits & (1u32 << 4u32) != 0
    }

    /// The endpoint can be an OUT endpoint (bit 5).
    pub fn dir_out(&self) -> (r: bool)
        ensures
            r == bit_set(self.spec_bits(), 5),
    {
        let b = self.bits;
        assert((b & (1u32 << 5u32) != 0) == ((b >> 5u32) % 2 == 1)) by (bit_vector);
        self.bits & (1u32 << 5u32) != 0
    }
}

impl Default for UsbRawEpCaps {
    /// No capabilities.
    fn default() -> (c: Self)
        ensures
            c.spec_bits() == 0,
    {
        UsbRawEpCaps { bits: 0 }
    }
}

/// Endpoint limits.
#[derive(Debug, Clone, Copy)]
pub struct UsbRawEpLimits {
    pub maxpacket_limit: u16,
    pub max_streams: u16,
    pub reserved: u32,
}

impl Default for UsbRawEpLimits {
    /// All limits zero.
    fn default() -> (l: Self)
        ensures
            l.maxpacket_limit == 0,
            l.max_streams == 0,
            l.reserved == 0,
    {
        UsbRawEpLimits { maxpacket_limit: 0, max_streams: 0, reserved: 0 }
    }
}

/// Information about a gadget endpoint.
#[derive(Debug, Clone, Copy)]
pub struct UsbRawEpInfo {
    pub name: [u8; USB_RAW_EP_NAME_MAX],
    pub addr: u32,
    pub caps: UsbRawEpCaps,
    pub limits: UsbRawEpLimits,
}

/// The entry is all zero: empty name, address 0, no capabilities, no limits.
pub open spec fn ep_info_is_zero(e: UsbRawEpInfo) -> bool {
    &&& forall|i: int| 0 <= i < USB_RAW_EP_NAME_MAX ==> #[trigger] e.name@[i] == 0
    &&& e.addr == 0
    &&& e.caps.spec_bits() == 0
    &&& e.limits.maxpacket_limit == 0
    &&& e.limits.max_streams == 0
    &&& e.limits.reserved == 0
}

impl Default for UsbRawEpInfo {
    /// An all-zero entry.
    fn default() -> (e: Self)
        ensures
            ep_info_is_zero(e),
    {
        UsbRawEpInfo {
            name: [0u8; USB_RAW_EP_NAME_MAX],
            addr: 0,
            caps: UsbRawEpCaps::default(),
            limits: UsbRawEpLimits::default(),
        }
    }
}

/// Argument for `USB_RAW_IOCTL_EPS_INFO`.
pub struct UsbRawEpsInfo {
    pub eps: [UsbRawEpInfo; USB_RAW_EPS_NUM_MAX],
}

impl Default for UsbRawEpsInfo {
    /// All entries zero.
    fn default() -> (info: Self)
        ensures
            forall|i: int|
                0 <= i < USB_RAW_EPS_NUM_MAX ==> ep_info_is_zero(#[trigger] info.eps@[i]),
    {
        let e = UsbRawEpInfo::default();
        UsbRawEpsInfo { eps: [e; USB_RAW_EPS_NUM_MAX] }
    }
}

} // verus!
