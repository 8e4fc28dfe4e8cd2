//! The requests of a raw-gadget device: what each ioctl is given, and what
//! its answer means. Opening the device and issuing the ioctls is left to
//! the caller.
use vstd::prelude::*;
use vstd::string::StringSliceAdditionalSpecFns;
use crate::rawgadget::ep::EpHandle;
use crate::rawgadget::types::{UsbRawEpIoHeader, UsbRawInit, UDC_NAME_LENGTH_MAX};
use crate::rawgadget::usb_types::{speed_code, UsbSpeed};

verus! {

/// What a raw-gadget request refuses.
#[derive(Debug, Clone, Copy, PartialEq, Eq, Structural)]
pub enum GadgetError {
    /// The UDC driver name does not fit its field with a terminating NUL.
    DriverNameTooLong,
    /// The UDC device name does not fit its field with a terminating NUL.
    DeviceNameTooLong,
    /// More data for endpoint 0 than its buffer holds; the length is given.
    Ep0DataTooLarge(usize),
}

/// A name field of `USB_RAW_IOCTL_INIT`: the name, then NUL bytes.
pub open spec fn name_field(name: Seq<u8>) -> Seq<u8> {
    Seq::new(UDC_NAME_LENGTH_MAX as nat, |i: int| if i < name.len() { name[i] } else { 0u8 })
}

/// Copies `name` into a NUL-padded name field.
fn fill_name(name: &[u8]) -> (r: [u8; UDC_NAME_LENGTH_MAX])
    requires
        name@.len() < UDC_NAME_LENGTH_MAX,
    ensures
        r@ == name_field(name@),
{
    let mut field = [0u8; UDC_NAME_LENGTH_MAX];
    let mut i: usize = 0;
    while i < name.len()
        invariant
            name@.len() < UDC_NAME_LENGTH_MAX,
            i <= name@.len(),
            field@.len() == UDC_NAME_LENGTH_MAX,
            forall|j: int| 0 <= j < i ==> field@[j] == name@[j],
            forall|j: int| i <= j < UDC_NAME_LENGTH_MAX ==> field@[j] == 0,
        decreases name@.len() - i,
    {
        field[i] = name[i];
        i = i + 1;
    }
    assert(field@ =~= name_field(name@));
    field
}

impl UsbRawInit {
    /// The argument of `USB_RAW_IOCTL_INIT` for the given UDC driver and
    /// device names and speed. Each name must leave room for a terminating
    /// NUL in its field; the driver name is checked first.
    pub fn new(driver_name: &str, device_name: &str, speed: UsbSpeed) -> (r: Result<
        UsbRawInit,
        GadgetError,
    >)
        ensures
            driver_name.spec_bytes().len() >= UDC_NAME_LENGTH_MAX ==> r == Err::<
                UsbRawInit,
                GadgetError,
            >(GadgetError::DriverNameTooLong),
            driver_name.spec_bytes().len() < UDC_NAME_LENGTH_MAX && device_name.spec_bytes().len()
                >= UDC_NAME_LENGTH_MAX ==> r == Err::<UsbRawInit, GadgetError>(
                GadgetError::DeviceNameTooLong,
            ),
            driver_name.spec_bytes().len() < UDC_NAME_LENGTH_MAX && device_name.spec_bytes().len()
                < UDC_NAME_LENGTH_MAX ==> (r matches Ok(init) && init.driver_name@ == name_field(
                driver_name.spec_bytes(),
            ) && init.device_name@ == name_field(device_name.spec_bytes()) && init.speed
                == speed_code(speed)),
    {
        let driver = driver_name.as_bytes();
        let device = device_name.as_bytes();
        if driver.len() >= UDC_NAME_LENGTH_MAX {
            return Err(GadgetError::DriverNameTooLong);
        }
        if device.len() >= UDC_NAME_LENGTH_MAX {
            return Err(GadgetError::DeviceNameTooLong);
        }
        Ok(
            UsbRawInit {
                driver_name: fill_name(driver),
                device_name: fill_name(device),
                speed: speed.code(),
            },
        )
    }
}

/// Size of the data buffer of an endpoint 0 request.
pub const EP0_BUF_SIZE: usize = 512;

/// Argument of `USB_RAW_IOCTL_EP0_WRITE` and `USB_RAW_IOCTL_EP0_READ`: the
/// header and a buffer of `EP0_BUF_SIZE` bytes.
pub struct Ep0IoBuf {
    pub header: UsbRawEpIoHeader,
    pub data: [u8; EP0_BUF_SIZE],
}

impl Ep0IoBuf {
    /// The request that writes `data` to endpoint 0: the header gives its
    /// length, the buffer holds it, then zeros. More data than the buffer
    /// holds is refused.
    pub fn for_write(data: &[u8]) -> (r: Result<Ep0IoBuf, GadgetError>)
        ensures
            data@.len() > EP0_BUF_SIZE ==> r == Err::<Ep0IoBuf, GadgetError>(
                GadgetError::Ep0DataTooLarge(data@.len() as usize),
            ),
            data@.len() <= EP0_BUF_SIZE ==> (r matches Ok(buf) && buf.header == (UsbRawEpIoHeader {
                ep: 0,
                flags: 0,
                length: data@.len() as u32,
            }) && buf.data@ == data@ + Seq::new((EP0_BUF_SIZE - data@.len()) as nat, |i: int| 0u8)),
    {
        if data.len() > EP0_BUF_SIZE {
            return Err(GadgetError::Ep0DataTooLarge(data.len()));
        }
        let mut buf = [0u8; EP0_BUF_SIZE];
        let mut i: usize = 0;
        while i < data.len()
            invariant
                data@.len() <= EP0_BUF_SIZE,
                i <= data@.len(),
                buf@.len() == EP0_BUF_SIZE,
                forall|j: int| 0 <= j < i ==> buf@[j] == data@[j],
                forall|j: int| i <= j < EP0_BUF_SIZE ==> buf@[j] == 0,
            decreases data@.len() - i,
        {
            buf[i] = data[i];
            i = i + 1;
        }
        assert(buf@ =~= data@ + Seq::new((EP0_BUF_SIZE - data@.len()) as nat, |i: int| 0u8));
        Ok(
            Ep0IoBuf {
                header: UsbRawEpIoHeader { ep: 0, flags: 0, length: data.len() as u32 },
                data: buf,
            },
        )
    }

    /// The request that reads from endpoint 0 into a buffer of `buf_len`
    /// bytes: it asks for `buf_len` bytes, at most `EP0_BUF_SIZE`.
    pub fn for_read(buf_len: usize) -> (r: Ep0IoBuf)
        ensures
            r.header == (UsbRawEpIoHeader {
                ep: 0,
                flags: 0,
                length: ep0_read_len(buf_len) as u32,
            }),
            forall|j: int| 0 <= j < EP0_BUF_SIZE ==> #[trigger] r.data@[j] == 0,
    {
        let len = if buf_len < EP0_BUF_SIZE {
            buf_len
        } else {
            EP0_BUF_SIZE
        };
        Ep0IoBuf {
            header: UsbRawEpIoHeader { ep: 0, flags: 0, length: len as u32 },
            data: [0u8; EP0_BUF_SIZE],
        }
    }
}

/// How many bytes an endpoint 0 read into a buffer of `buf_len` bytes asks for.
pub open spec fn ep0_read_len(buf_len: usize) -> usize {
    if buf_len < EP0_BUF_SIZE {
        buf_len
    } else {
        EP0_BUF_SIZE
    }
}

/// How many bytes of a read to hand over: what the kernel reported as
/// transferred, but no more than was asked for.
pub fn received_len(transferred: i32, asked: usize) -> (n: usize)
    requires
        transferred >= 0,
    ensures
        n == if transferred as int <= asked { transferred as int } else { asked as int },
{
    let t = transferred as usize;
    if t < asked {
        t
    } else {
        asked
    }
}

/// The header of a write or read of `len` bytes on a non-control endpoint.
/// The header holds the handle and the length in 16 and 32 bits, so larger
/// values are cut to those widths, as the kernel structure demands.
pub fn ep_io_header(ep: EpHandle, len: usize) -> (h: UsbRawEpIoHeader)
    ensures
        h == (UsbRawEpIoHeader { ep: ep.raw_value() as u16, flags: 0, length: len as u32 }),
{
    UsbRawEpIoHeader { ep: ep.as_raw() as u16, flags: 0, length: len as u32 }
}

} // verus!
