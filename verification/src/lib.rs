//! USB/IP client protocol and Linux raw-gadget request logic, used to
//! re-create a remote USB/IP device as a local gadget.
pub mod endian;
pub mod usbip;
pub mod rawgadget;
pub mod bridge;
