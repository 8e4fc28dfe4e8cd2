//! The USB/IP protocol: constants and decoded values, wire layouts, and the
//! decisions of a client connection.
pub mod protocol;
pub mod wire;
pub mod client;

pub use client::{CommandState, DevlistDecoder, SharedState, UsbipError};
pub use protocol::{DeviceInfo, Direction, InterfaceInfo, RetSubmit, RetUnlink, UrbResponse};
