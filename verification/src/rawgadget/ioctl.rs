//! Numbers of the raw-gadget ioctls, encoded as Linux does on the generic
//! architectures (aarch64 among them).
use vstd::prelude::*;

verus! {

/// ioctl direction: no data.
pub const IOC_NONE: u32 = 0;

/// ioctl direction: user space writes to the kernel.
pub const IOC_WRITE: u32 = 1;

/// ioctl direction: user space reads from the kernel.
pub const IOC_READ: u32 = 2;

/// ioctl direction: both.
pub const IOC_RDWR: u32 = 3;

/// ioctl type of raw-gadget: the character `'U'`.
pub const IOC_TYPE: u32 = 0x55;

/// The ioctl number with the given direction, number and argument size: the
/// direction in bits 30-31, the size from bit 16, the type in bits 8-15 and
/// the number in bits 0-7.
pub open spec fn spec_ioc(dir: u32, nr: u32, size: u32) -> u32 {
    (dir << 30u32) | (size << 16u32) | (IOC_TYPE << 8u32) | nr
}

/// The ioctl number with the given direction, number and argument size.
pub fn ioc(dir: u32, nr: u32, size: u32) -> (r: u32)
    ensures
        r == spec_ioc(dir, nr, size),
{
    (dir << 30u32) | (size << 16u32) | (IOC_TYPE << 8u32) | nr
}

pub const IOCTL_INIT: u32 = 0x4101_5500;

pub const IOCTL_RUN: u32 = 0x0000_5501;

pub const IOCTL_EVENT_FETCH: u32 = 0x8008_5502;

pub const IOCTL_EP0_WRITE: u32 = 0x4008_5503;

pub const IOCTL_EP0_READ: u32 = 0xc008_5504;

pub const IOCTL_EP_ENABLE: u32 = 0x4009_5505;

pub const IOCTL_EP_DISABLE: u32 = 0x4004_5506;

pub const IOCTL_EP_WRITE: u32 = 0x4008_5507;

pub const IOCTL_EP_READ: u32 = 0xc008_5508;

pub const IOCTL_CONFIGURE: u32 = 0x0000_5509;

pub const IOCTL_VBUS_DRAW: u32 = 0x4004_550a;

pub const IOCTL_EPS_INFO: u32 = 0x83c0_550b;

pub const IOCTL_EP0_STALL: u32 = 0x0000_550c;

pub const IOCTL_EP_SET_HALT: u32 = 0x4004_550d;

pub const IOCTL_EP_CLEAR_HALT: u32 = 0x4004_550e;

pub const IOCTL_EP_SET_WEDGE: u32 = 0x4004_550f;

/// Each ioctl number is the encoding of its direction, number and argument
/// size (the sizes of the kernel structures; a header with a flexible array
/// member counts 8 bytes).
pub proof fn lemma_ioctl_numbers()
    ensures
        IOCTL_INIT == spec_ioc(IOC_WRITE, 0, 257),
        IOCTL_RUN == spec_ioc(IOC_NONE, 1, 0),
        IOCTL_EVENT_FETCH == spec_ioc(IOC_READ, 2, 8),
        IOCTL_EP0_WRITE == spec_ioc(IOC_WRITE, 3, 8),
        IOCTL_EP0_READ == spec_ioc(IOC_RDWR, 4, 8),
        IOCTL_EP_ENABLE == spec_ioc(IOC_WRITE, 5, 9),
        IOCTL_EP_DISABLE == spec_ioc(IOC_WRITE, 6, 4),
        IOCTL_EP_WRITE == spec_ioc(IOC_WRITE, 7, 8),
        IOCTL_EP_READ == spec_ioc(IOC_RDWR, 8, 8),
        IOCTL_CONFIGURE == spec_ioc(IOC_NONE, 9, 0),
        IOCTL_VBUS_DRAW == spec_ioc(IOC_WRITE, 10, 4),
        IOCTL_EPS_INFO == spec_ioc(IOC_READ, 11, 960),
        IOCTL_EP0_STALL == spec_ioc(IOC_NONE, 12, 0),
        IOCTL_EP_SET_HALT == spec_ioc(IOC_WRITE, 13, 4),
        IOCTL_EP_CLEAR_HALT == spec_ioc(IOC_WRITE, 14, 4),
        IOCTL_EP_SET_WEDGE == spec_ioc(IOC_WRITE, 15, 4),
{
    assert(0x4101_5500u32 == (1u32 << 30u32) | (257u32 << 16u32) | (0x55u32 << 8u32) | 0u32)
        by (bit_vector);
    assert(0x0000_5501u32 == (0u32 << 30u32) | (0u32 << 16u32) | (0x55u32 << 8u32) | 1u32)
        by (bit_vector);
    assert(0x8008_5502u32 == (2u32 << 30u32) | (8u32 << 16u32) | (0x55u32 << 8u32) | 2u32)
        by (bit_vector);
    assert(0x4008_5503u32 == (1u32 << 30u32) | (8u32 << 16u32) | (0x55u32 << 8u32) | 3u32)
        by (bit_vector);
    assert(0xc008_5504u32 == (3u32 << 30u32) | (8u32 << 16u32) | (0x55u32 << 8u32) | 4u32)
        by (bit_vector);
    assert(0x4009_5505u32 == (1u32 << 30u32) | (9u32 << 16u32) | (0x55u32 << 8u32) | 5u32)
        by (bit_vector);
    assert(0x4004_5506u32 == (1u32 << 30u32) | (4u32 << 16u32) | (0x55u32 << 8u32) | 6u32)
        by (bit_vector);
    assert(0x4008_5507u32 == (1u32 << 30u32) | (8u32 << 16u32) | (0x55u32 << 8u32) | 7u32)
        by (bit_vector);
    assert(0xc008_5508u32 == (3u32 << 30u32) | (8u32 << 16u32) | (0x55u32 << 8u32) | 8u32)
        by (bit_vector);
    assert(0x0000_5509u32 == (0u32 << 30u32) | (0u32 << 16u32) | (0x55u32 << 8u32) | 9u32)
        by (bit_vector);
    assert(0x4004_550au32 == (1u32 << 30u32) | (4u32 << 16u32) | (0x55u32 << 8u32) | 10u32)
        by (bit_vector);
    assert(0x83c0_550bu32 == (2u32 << 30u32) | (960u32 << 16u32) | (0x55u32 << 8u32) | 11u32)
        by (bit_vector);
    assert(0x0000_550cu32 == (0u32 << 30u32) | (0u32 << 16u32) | (0x55u32 << 8u32) | 12u32)
        by (bit_vector);
    assert(0x4004_550du32 == (1u32 << 30u32) | (4u32 << 16u32) | (0x55u32 << 8u32) | 13u32)
        by (bit_vector);
    assert(0x4004_550eu32 == (1u32 << 30u32) | (4u32 << 16u32) | (0x55u32 << 8u32) | 14u32)
        by (bit_vector);
    assert(0x4004_550fu32 == (1u32 << 30u32) | (4u32 << 16u32) | (0x55u32 << 8u32) | 15u32)
        by (bit_vector);
}

} // verus!
