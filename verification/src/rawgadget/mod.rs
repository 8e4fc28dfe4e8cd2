//! Linux raw-gadget: the kernel's request layouts, their ioctl numbers, and
//! the requests and events of a gadget device. Issuing the ioctls is left
//! to the caller.
pub mod usb_types;
pub mod types;
pub mod ioctl;
pub mod event;
pub mod ep;
pub mod device;

pub use device::{Ep0IoBuf, GadgetError};
pub use ep::EpHandle;
pub use event::Event;
pub use types::{
    UsbRawEpCaps, UsbRawEpInfo, UsbRawEpLimits, UsbRawEpsInfo, USB_RAW_EPS_NUM_MAX,
    USB_RAW_EP_ADDR_ANY, USB_RAW_EP_NAME_MAX, USB_RAW_IO_FLAGS_ZERO,
};
pub use usb_types::{UsbCtrlRequest, UsbEndpointDescriptor, UsbSpeed};
