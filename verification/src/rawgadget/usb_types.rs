//! USB chapter 9 constants and the control request and endpoint descriptor.
use vstd::prelude::*;

verus! {

/// Direction bit of `bRequestType` and `bEndpointAddress`: host to device.
pub const USB_DIR_OUT: u8 = 0x00;

/// Direction bit of `bRequestType` and `bEndpointAddress`: device to host.
pub const USB_DIR_IN: u8 = 0x80;

/// Type bits of `bRequestType`.
pub const USB_TYPE_MASK: u8 = 0x60;

/// Standard request type.
pub const USB_TYPE_STANDARD: u8 = 0x00;

/// Class request type.
pub const USB_TYPE_CLASS: u8 = 0x20;

/// Vendor request type.
pub const USB_TYPE_VENDOR: u8 = 0x40;

pub const USB_REQ_GET_STATUS: u8 = 0x00;

pub const USB_REQ_CLEAR_FEATURE: u8 = 0x01;

pub const USB_REQ_SET_FEATURE: u8 = 0x03;

pub const USB_REQ_SET_ADDRESS: u8 = 0x05;

pub const USB_REQ_GET_DESCRIPTOR: u8 = 0x06;

pub const USB_REQ_SET_DESCRIPTOR: u8 = 0x07;

pub const USB_REQ_GET_CONFIGURATION: u8 = 0x08;

pub const USB_REQ_SET_CONFIGURATION: u8 = 0x09;

pub const USB_REQ_GET_INTERFACE: u8 = 0x0A;

pub const USB_REQ_SET_INTERFACE: u8 = 0x0B;

pub const USB_DT_DEVICE: u8 = 0x01;

pub const USB_DT_CONFIG: u8 = 0x02;

pub const USB_DT_STRING: u8 = 0x03;

pub const USB_DT_INTERFACE: u8 = 0x04;

pub const USB_DT_ENDPOINT: u8 = 0x05;

pub const USB_DT_DEVICE_QUALIFIER: u8 = 0x06;

pub const USB_DT_OTHER_SPEED_CONFIG: u8 = 0x07;

/// Transfer type (`bmAttributes`) of a control endpoint.
pub const USB_ENDPOINT_XFER_CONTROL: u8 = 0;

/// Transfer type of an isochronous endpoint.
pub const USB_ENDPOINT_XFER_ISOC: u8 = 1;

/// Transfer type of a bulk endpoint.
pub const USB_ENDPOINT_XFER_BULK: u8 = 2;

/// Transfer type of an interrupt endpoint.
pub const USB_ENDPOINT_XFER_INT: u8 = 3;

/// USB device speed.
#[derive(Debug, Clone, Copy, PartialEq, Eq, Structural)]
pub enum UsbSpeed {
    Unknown,
    Low,
    Full,
    High,
    Wireless,
    Super,
    SuperPlus,
}

/// The number that the kernel uses for a speed (`Unknown` 0 up to `SuperPlus` 6).
pub open spec fn speed_code(s: UsbSpeed) -> u8 {
    match s {
        UsbSpeed::Unknown => 0,
        UsbSpeed::Low => 1,
        UsbSpeed::Full => 2,
        UsbSpeed::High => 3,
        UsbSpeed::Wireless => 4,
        UsbSpeed::Super => 5,
        UsbSpeed::SuperPlus => 6,
    }
}

impl UsbSpeed {
    /// The number that the kernel uses for this speed.
    pub fn code(self) -> (r: u8)
        ensures
            r == speed_code(self),
    {
        match self {
            UsbSpeed::Unknown => 0,
            UsbSpeed::Low => 1,
            UsbSpeed::Full => 2,
            UsbSpeed::High => 3,
            UsbSpeed::Wireless => 4,
            UsbSpeed::Super => 5,
            UsbSpeed::SuperPlus => 6,
        }
    }
}

/// USB control request (`struct usb_ctrlrequest`).
#[derive(Debug, Clone, Copy)]
#[allow(non_snake_case)]
pub struct UsbCtrlRequest {
    pub bRequestType: u8,
    pub bRequest: u8,
    pub wValue: u16,
    pub wIndex: u16,
    pub wLength: u16,
}

/// USB endpoint descriptor (`struct usb_endpoint_descriptor`).
#[derive(Debug, Clone, Copy)]
#[allow(non_snake_case)]
pub struct UsbEndpointDescriptor {
    pub bLength: u8,
    pub bDescriptorType: u8,
    pub bEndpointAddress: u8,
    pub bmAttributes: u8,
    pub wMaxPacketSize: u16,
    pub bInterval: u8,
    pub bRefresh: u8,
    pub bSynchAddress: u8,
}

} // verus!
