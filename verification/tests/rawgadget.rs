use usbipdevirt::rawgadget::device::{
    ep_io_header, received_len, Ep0IoBuf, GadgetError, EP0_BUF_SIZE,
};
use usbipdevirt::rawgadget::ep::EpHandle;
use usbipdevirt::rawgadget::event::Event;
use usbipdevirt::rawgadget::ioctl::{
    ioc, IOCTL_CONFIGURE, IOCTL_EP0_READ, IOCTL_EP0_STALL, IOCTL_EP0_WRITE, IOCTL_EPS_INFO,
    IOCTL_EP_CLEAR_HALT, IOCTL_EP_DISABLE, IOCTL_EP_ENABLE, IOCTL_EP_READ, IOCTL_EP_SET_HALT,
    IOCTL_EP_SET_WEDGE, IOCTL_EP_WRITE, IOCTL_EVENT_FETCH, IOCTL_INIT, IOCTL_RUN,
    IOCTL_VBUS_DRAW, IOC_NONE, IOC_RDWR, IOC_READ, IOC_WRITE,
};
use usbipdevirt::rawgadget::types::{UsbRawEpCaps, UsbRawEpIoHeader, UsbRawEpsInfo, UsbRawInit};
use usbipdevirt::rawgadget::usb_types::{UsbCtrlRequest, UsbSpeed};

#[test]
fn ioctl_numbers_match_their_encoding() {
    assert_eq!(IOCTL_INIT, ioc(IOC_WRITE, 0, 257));
    assert_eq!(IOCTL_RUN, ioc(IOC_NONE, 1, 0));
    assert_eq!(IOCTL_EVENT_FETCH, ioc(IOC_READ, 2, 8));
    assert_eq!(IOCTL_EP0_WRITE, ioc(IOC_WRITE, 3, 8));
    assert_eq!(IOCTL_EP0_READ, ioc(IOC_RDWR, 4, 8));
    assert_eq!(IOCTL_EP_ENABLE, ioc(IOC_WRITE, 5, 9));
    assert_eq!(IOCTL_EP_DISABLE, ioc(IOC_WRITE, 6, 4));
    assert_eq!(IOCTL_EP_WRITE, ioc(IOC_WRITE, 7, 8));
    assert_eq!(IOCTL_EP_READ, ioc(IOC_RDWR, 8, 8));
    assert_eq!(IOCTL_CONFIGURE, ioc(IOC_NONE, 9, 0));
    assert_eq!(IOCTL_VBUS_DRAW, ioc(IOC_WRITE, 10, 4));
    assert_eq!(IOCTL_EPS_INFO, ioc(IOC_READ, 11, 960));
    assert_eq!(IOCTL_EP0_STALL, ioc(IOC_NONE, 12, 0));
    assert_eq!(IOCTL_EP_SET_HALT, ioc(IOC_WRITE, 13, 4));
    assert_eq!(IOCTL_EP_CLEAR_HALT, ioc(IOC_WRITE, 14, 4));
    assert_eq!(IOCTL_EP_SET_WEDGE, ioc(IOC_WRITE, 15, 4));
}

#[test]
fn ioc_known_value() {
    // _IOW('U', 0, struct usb_raw_init) on the generic layout.
    assert_eq!(ioc(1, 0, 257), 0x4101_5500);
}

#[test]
fn ep_caps_bits() {
    let caps = UsbRawEpCaps::from_bits(0b10_0101);
    assert!(caps.type_control());
    assert!(!caps.type_iso());
    assert!(caps.type_bulk());
    assert!(!caps.type_int());
    assert!(!caps.dir_in());
    assert!(caps.dir_out());
    assert_eq!(caps.bits(), 0b10_0101);
    let all = UsbRawEpCaps::from_bits(0x3f);
    assert!(all.type_iso() && all.type_int() && all.dir_in());
    let none = UsbRawEpCaps::default();
    assert!(!none.type_control() && !none.dir_out());
}

#[test]
fn eps_info_default_is_zero() {
    let info = UsbRawEpsInfo::default();
    assert_eq!(info.eps.len(), 30);
    for ep in info.eps.iter() {
        assert_eq!(ep.name, [0; 16]);
        assert_eq!(ep.addr, 0);
        assert_eq!(ep.caps.bits(), 0);
        assert_eq!(ep.limits.maxpacket_limit, 0);
    }
}

#[test]
fn init_copies_names_and_speed() {
    let init = UsbRawInit::new("dummy_udc", "dummy_udc.0", UsbSpeed::High).unwrap();
    assert_eq!(&init.driver_name[..9], b"dummy_udc");
    assert!(init.driver_name[9..].iter().all(|&b| b == 0));
    assert_eq!(&init.device_name[..11], b"dummy_udc.0");
    assert!(init.device_name[11..].iter().all(|&b| b == 0));
    assert_eq!(init.speed, 3);
}

#[test]
fn init_refuses_long_names() {
    let long = "x".repeat(128);
    let fits = "y".repeat(127);
    assert_eq!(UsbRawInit::new(&long, "d", UsbSpeed::Full).err(), Some(GadgetError::DriverNameTooLong));
    assert_eq!(UsbRawInit::new("d", &long, UsbSpeed::Full).err(), Some(GadgetError::DeviceNameTooLong));
    assert_eq!(UsbRawInit::new(&long, &long, UsbSpeed::Full).err(), Some(GadgetError::DriverNameTooLong));
    let init = UsbRawInit::new(&fits, &fits, UsbSpeed::Full).unwrap();
    assert_eq!(init.driver_name[126], b'y');
    assert_eq!(init.driver_name[127], 0);
}

#[test]
fn speed_codes() {
    assert_eq!(UsbSpeed::Unknown.code(), 0);
    assert_eq!(UsbSpeed::Low.code(), 1);
    assert_eq!(UsbSpeed::High.code(), 3);
    assert_eq!(UsbSpeed::SuperPlus.code(), 6);
}

fn ctrl() -> UsbCtrlRequest {
    UsbCtrlRequest { bRequestType: 0x80, bRequest: 6, wValue: 0x0100, wIndex: 0, wLength: 18 }
}

#[test]
fn events_by_type() {
    assert!(matches!(Event::from_raw(1, ctrl()), Event::Connect));
    match Event::from_raw(2, ctrl()) {
        Event::Control(c) => {
            assert_eq!(c.bRequest, 6);
            assert_eq!({ c.wLength }, 18);
        }
        other => panic!("unexpected {:?}", other),
    }
    assert!(matches!(Event::from_raw(3, ctrl()), Event::Suspend));
    assert!(matches!(Event::from_raw(4, ctrl()), Event::Resume));
    assert!(matches!(Event::from_raw(5, ctrl()), Event::Reset));
    assert!(matches!(Event::from_raw(6, ctrl()), Event::Disconnect));
    assert!(matches!(Event::from_raw(0, ctrl()), Event::Unknown(0)));
    assert!(matches!(Event::from_raw(7, ctrl()), Event::Unknown(7)));
}

#[test]
fn ep0_write_buffer() {
    let buf = Ep0IoBuf::for_write(&[1, 2, 3]).unwrap();
    assert_eq!(buf.header, UsbRawEpIoHeader { ep: 0, flags: 0, length: 3 });
    assert_eq!(&buf.data[..3], &[1, 2, 3]);
    assert!(buf.data[3..].iter().all(|&b| b == 0));
    let full = Ep0IoBuf::for_write(&[5u8; 512]).unwrap();
    assert_eq!(full.header.length, 512);
}

#[test]
fn ep0_write_refuses_too_much_data() {
    assert_eq!(Ep0IoBuf::for_write(&[0u8; 513]).err(), Some(GadgetError::Ep0DataTooLarge(513)));
}

#[test]
fn ep0_read_buffer_length_is_capped() {
    assert_eq!(Ep0IoBuf::for_read(0).header.length, 0);
    assert_eq!(Ep0IoBuf::for_read(18).header.length, 18);
    assert_eq!(Ep0IoBuf::for_read(4096).header.length, EP0_BUF_SIZE as u32);
}

#[test]
fn received_len_is_capped() {
    assert_eq!(received_len(10, 18), 10);
    assert_eq!(received_len(30, 18), 18);
    assert_eq!(received_len(0, 0), 0);
}

#[test]
fn ep_io_header_fields() {
    let h = ep_io_header(EpHandle::from_raw(3), 64);
    assert_eq!(h, UsbRawEpIoHeader { ep: 3, flags: 0, length: 64 });
    let wide = ep_io_header(EpHandle::from_raw(0x1_0002), 1);
    assert_eq!(wide.ep, 2);
    assert_eq!(EpHandle::from_raw(7).as_raw(), 7);
}
