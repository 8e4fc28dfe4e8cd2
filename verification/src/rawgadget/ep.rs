//! Handles of enabled endpoints.
use vstd::prelude::*;

verus! {

/// Handle to an enabled non-control endpoint, as the kernel returns it from
/// `USB_RAW_IOCTL_EP_ENABLE`.
#[derive(Debug, Clone, Copy, PartialEq, Eq, Structural)]
pub struct EpHandle(u32);

impl EpHandle {
    /// The handle with the number the kernel gave.
    pub fn from_raw(raw: u32) -> (h: EpHandle)
        ensures
            h.raw_value() == raw,
    {
        EpHandle(raw)
    }

    /// The number of the handle.
    pub closed spec fn raw_value(self) -> u32 {
        self.0
    }

    /// The number of the handle, as the kernel expects it back.
    pub fn as_raw(self) -> (r: u32)
        ensures
            r == self.raw_value(),
    {
        self.0
    }
}

} // verus!
