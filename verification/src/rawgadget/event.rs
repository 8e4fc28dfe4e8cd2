//! Events that the raw-gadget device reports.
use vstd::prelude::*;
use crate::rawgadget::usb_types::UsbCtrlRequest;

verus! {

/// Event type: the host connected.
pub const USB_RAW_EVENT_CONNECT: u32 = 1;

/// Event type: a control request arrived; it follows the event header.
pub const USB_RAW_EVENT_CONTROL: u32 = 2;

/// Event type: the bus was suspended.
pub const USB_RAW_EVENT_SUSPEND: u32 = 3;

/// Event type: the bus was resumed.
pub const USB_RAW_EVENT_RESUME: u32 = 4;

/// Event type: the bus was reset.
pub const USB_RAW_EVENT_RESET: u32 = 5;

/// Event type: the host disconnected.
pub const USB_RAW_EVENT_DISCONNECT: u32 = 6;

/// An event fetched from the raw-gadget device.
#[derive(Debug)]
pub enum Event {
    Connect,
    Control(UsbCtrlRequest),
    Suspend,
    Resume,
    Reset,
    Disconnect,
    Unknown(u32),
}

/// The event of the given type; `ctrl` is the control request that came with it.
pub open spec fn spec_event(event_type: u32, ctrl: UsbCtrlRequest) -> Event {
    if event_type == USB_RAW_EVENT_CONNECT {
        Event::Connect
    } else if event_type == USB_RAW_EVENT_CONTROL {
        Event::Control(ctrl)
    } else if event_type == USB_RAW_EVENT_SUSPEND {
        Event::Suspend
    } else if event_type == USB_RAW_EVENT_RESUME {
        Event::Resume
    } else if event_type == USB_RAW_EVENT_RESET {
        Event::Reset
    } else if event_type == USB_RAW_EVENT_DISCONNECT {
        Event::Disconnect
    } else {
        Event::Unknown(event_type)
    }
}

impl Event {
    /// The event that `USB_RAW_IOCTL_EVENT_FETCH` filled in: its type and the
    /// control request that follows the event header.
    pub fn from_raw(event_type: u32, ctrl: UsbCtrlRequest) -> (e: Event)
        ensures
            e == spec_event(event_type, ctrl),
    {
        match event_type {
            1 => Event::Connect,
            2 => Event::Control(ctrl),
            3 => Event::Suspend,
            4 => Event::Resume,
            5 => Event::Reset,
            6 => Event::Disconnect,
            t => Event::Unknown(t),
        }
    }
}

} // verus!
