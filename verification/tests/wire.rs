use usbipdevirt::usbip::protocol::{bytes_to_string, DeviceInfo, InterfaceInfo};
use usbipdevirt::usbip::wire::{
    CmdSubmitHeader, CmdUnlinkHeader, OpHeader, OpRepDevlistHeader, OpReqImport,
    RetSubmitHeader, RetUnlinkHeader, WireDeviceInfo, WireInterfaceInfo,
};

#[test]
fn test_cmd_submit_parse_known_bytes() {
    // From usbip_protocol.rst EXAMPLE: CmdIntrIN
    let bytes: [u8; 48] = [
        0x00, 0x00, 0x00, 0x01, // command = CMD_SUBMIT (1)
        0x00, 0x00, 0x0d, 0x05, // seqnum = 0x0d05
        0x00, 0x01, 0x00, 0x0f, // devid = 0x1000f
        0x00, 0x00, 0x00, 0x01, // direction = IN (1)
        0x00, 0x00, 0x00, 0x01, // ep = 1
        0x00, 0x00, 0x02, 0x00, // transfer_flags = 0x200
        0x00, 0x00, 0x00, 0x40, // transfer_buffer_length = 64
        0xff, 0xff, 0xff, 0xff, // start_frame = 0xffffffff
        0x00, 0x00, 0x00, 0x00, // number_of_packets = 0
        0x00, 0x00, 0x00, 0x04, // interval = 4
        0x00, 0x00, 0x00, 0x00, // setup[0..4]
        0x00, 0x00, 0x00, 0x00, // setup[4..8]
    ];

    let header = CmdSubmitHeader::read_from_bytes(&bytes).unwrap();
    assert_eq!(header.command, 1);
    assert_eq!(header.seqnum, 0x0d05);
    assert_eq!(header.devid, 0x0001_000f);
    assert_eq!(header.direction, 1);
    assert_eq!(header.ep, 1);
    assert_eq!(header.transfer_flags, 0x200);
    assert_eq!(header.transfer_buffer_length, 64);
    assert_eq!(header.start_frame, 0xffffffff);
    assert_eq!(header.number_of_packets, 0);
    assert_eq!(header.interval, 4);
    assert_eq!(header.setup, [0; 8]);
}

#[test]
fn test_ret_submit_parse_known_bytes() {
    // From usbip_protocol.rst EXAMPLE: RetIntrOut
    let bytes: [u8; 48] = [
        0x00, 0x00, 0x00, 0x03, // command = RET_SUBMIT (3)
        0x00, 0x00, 0x0d, 0x06, // seqnum = 0x0d06
        0x00, 0x00, 0x00, 0x00, // devid = 0
        0x00, 0x00, 0x00, 0x00, // direction = 0
        0x00, 0x00, 0x00, 0x00, // ep = 0
        0x00, 0x00, 0x00, 0x00, // status = 0
        0x00, 0x00, 0x00, 0x40, // actual_length = 64
        0xff, 0xff, 0xff, 0xff, // start_frame = 0xffffffff
        0x00, 0x00, 0x00, 0x00, // number_of_packets = 0
        0x00, 0x00, 0x00, 0x00, // error_count = 0
        0x00, 0x00, 0x00, 0x00, // padding[0..4]
        0x00, 0x00, 0x00, 0x00, // padding[4..8]
    ];

    let header = RetSubmitHeader::read_from_bytes(&bytes).unwrap();
    assert_eq!(header.command, 3);
    assert_eq!(header.seqnum, 0x0d06);
    assert_eq!(header.devid, 0);
    assert_eq!(header.direction, 0);
    assert_eq!(header.ep, 0);
    assert_eq!(header.status, 0);
    assert_eq!(header.actual_length, 64);
    assert_eq!(header.start_frame, 0xffffffff);
    assert_eq!(header.number_of_packets, 0);
    assert_eq!(header.error_count, 0);
}

#[test]
fn test_cmd_submit_roundtrip() {
    let header = CmdSubmitHeader {
        command: 1,
        seqnum: 42,
        devid: 0x0002_0003,
        direction: 0,
        ep: 2,
        transfer_flags: 0x200,
        transfer_buffer_length: 512,
        start_frame: 0,
        number_of_packets: 0xffffffff,
        interval: 0,
        setup: [0x80, 0x06, 0x00, 0x01, 0x00, 0x00, 0x40, 0x00],
    };

    let bytes = header.to_bytes();
    assert_eq!(bytes.len(), 48);

    let parsed = CmdSubmitHeader::read_from_bytes(&bytes).unwrap();
    assert_eq!(parsed.command, 1);
    assert_eq!(parsed.seqnum, 42);
    assert_eq!(parsed.devid, 0x0002_0003);
    assert_eq!(parsed.direction, 0);
    assert_eq!(parsed.ep, 2);
    assert_eq!(parsed.transfer_flags, 0x200);
    assert_eq!(parsed.transfer_buffer_length, 512);
    assert_eq!(parsed.start_frame, 0);
    assert_eq!(parsed.number_of_packets, 0xffffffff);
    assert_eq!(parsed.interval, 0);
    assert_eq!(
        parsed.setup,
        [0x80, 0x06, 0x00, 0x01, 0x00, 0x00, 0x40, 0x00]
    );
}

#[test]
fn test_ret_submit_roundtrip() {
    let header = RetSubmitHeader {
        command: 3,
        seqnum: 100,
        devid: 0,
        direction: 0,
        ep: 0,
        status: -1,
        actual_length: 0,
        start_frame: 0,
        number_of_packets: 0xffffffff,
        error_count: 0,
        _padding: [0; 8],
    };

    let bytes = header.to_bytes();
    let parsed = RetSubmitHeader::read_from_bytes(&bytes).unwrap();
    assert_eq!(parsed.status, -1);
    assert_eq!(parsed.actual_length, 0);
}

#[test]
fn test_cmd_unlink_roundtrip() {
    let header = CmdUnlinkHeader {
        command: 2,
        seqnum: 50,
        devid: 0x0001_0002,
        direction: 0,
        ep: 0,
        unlink_seqnum: 49,
        _padding: [0; 24],
    };

    let bytes = header.to_bytes();
    assert_eq!(bytes.len(), 48);

    let parsed = CmdUnlinkHeader::read_from_bytes(&bytes).unwrap();
    assert_eq!(parsed.command, 2);
    assert_eq!(parsed.seqnum, 50);
    assert_eq!(parsed.unlink_seqnum, 49);
}

#[test]
fn test_ret_unlink_roundtrip() {
    let header = RetUnlinkHeader {
        command: 4,
        seqnum: 50,
        devid: 0,
        direction: 0,
        ep: 0,
        status: -104, // -ECONNRESET
        _padding: [0; 24],
    };

    let bytes = header.to_bytes();
    let parsed = RetUnlinkHeader::read_from_bytes(&bytes).unwrap();
    assert_eq!(parsed.command, 4);
    assert_eq!(parsed.status, -104);
}

#[test]
fn test_op_header_roundtrip() {
    let header = OpHeader {
        version: 0x0111,
        code: 0x8005,
        status: 0,
    };

    let bytes = header.to_bytes();
    assert_eq!(bytes.len(), 8);

    let parsed = OpHeader::read_from_bytes(&bytes).unwrap();
    assert_eq!(parsed.version, 0x0111);
    assert_eq!(parsed.code, 0x8005);
    assert_eq!(parsed.status, 0);
}

#[test]
fn test_op_req_import_roundtrip() {
    let mut req = OpReqImport {
        header: OpHeader {
            version: 0x0111,
            code: 0x8003,
            status: 0,
        },
        busid: [0u8; 32],
    };
    let busid = b"1-1";
    req.busid[..busid.len()].copy_from_slice(busid);

    let bytes = req.to_bytes();
    assert_eq!(bytes.len(), 40);

    let parsed = OpReqImport::read_from_bytes(&bytes).unwrap();
    assert_eq!(parsed.header.version, 0x0111);
    assert_eq!(parsed.header.code, 0x8003);
    assert_eq!(&parsed.busid[..3], b"1-1");
    assert_eq!(parsed.busid[3], 0);
}

#[test]
fn test_wire_device_info_to_device_info() {
    let mut wire = WireDeviceInfo {
        path: [0u8; 256],
        busid: [0u8; 32],
        busnum: 3,
        devnum: 2,
        speed: 2,
        id_vendor: 0x1234,
        id_product: 0x5678,
        bcd_device: 0x0100,
        device_class: 0xff,
        device_sub_class: 0x01,
        device_protocol: 0x02,
        configuration_value: 1,
        num_configurations: 1,
        num_interfaces: 2,
    };
    let path = b"/sys/devices/pci0000:00/usb3/3-2";
    wire.path[..path.len()].copy_from_slice(path);
    let busid = b"3-2";
    wire.busid[..busid.len()].copy_from_slice(busid);

    let dev = DeviceInfo::from(&wire);
    assert_eq!(dev.path, "/sys/devices/pci0000:00/usb3/3-2");
    assert_eq!(dev.busid, "3-2");
    assert_eq!(dev.busnum, 3);
    assert_eq!(dev.devnum, 2);
    assert_eq!(dev.id_vendor, 0x1234);
    assert_eq!(dev.id_product, 0x5678);
    assert_eq!(dev.num_interfaces, 2);
    assert!(dev.interfaces.is_empty());
}

#[test]
fn test_wire_interface_info_to_interface_info() {
    let wire = WireInterfaceInfo {
        class: 0x03,
        sub_class: 0x01,
        protocol: 0x02,
        _padding: 0,
    };

    let iface = InterfaceInfo::from(&wire);
    assert_eq!(iface.class, 0x03);
    assert_eq!(iface.sub_class, 0x01);
    assert_eq!(iface.protocol, 0x02);
}

// --- Layouts: exact bytes, lengths, and the roundtrip both ways ---

#[test]
fn op_header_bytes_are_network_order() {
    let header = OpHeader { version: 0x0111, code: 0x8003, status: 0x0102_0304 };
    assert_eq!(header.to_bytes(), vec![0x01, 0x11, 0x80, 0x03, 0x01, 0x02, 0x03, 0x04]);
}

#[test]
fn ret_submit_negative_status_bytes() {
    let header = RetSubmitHeader {
        command: 3,
        seqnum: 1,
        devid: 0,
        direction: 0,
        ep: 0,
        status: -104,
        actual_length: 0,
        start_frame: 0,
        number_of_packets: 0,
        error_count: 0,
        _padding: [0; 8],
    };
    let bytes = header.to_bytes();
    assert_eq!(&bytes[20..24], &[0xff, 0xff, 0xff, 0x98]);
}

#[test]
fn read_from_bytes_refuses_other_lengths() {
    assert!(CmdSubmitHeader::read_from_bytes(&[0u8; 47]).is_none());
    assert!(CmdSubmitHeader::read_from_bytes(&[0u8; 49]).is_none());
    assert!(OpHeader::read_from_bytes(&[0u8; 7]).is_none());
    assert!(OpRepDevlistHeader::read_from_bytes(&[0u8; 13]).is_none());
    assert!(WireDeviceInfo::read_from_bytes(&[0u8; 311]).is_none());
    assert!(WireInterfaceInfo::read_from_bytes(&[]).is_none());
    assert!(RetUnlinkHeader::read_from_bytes(&[0u8; 8]).is_none());
}

#[test]
fn bytes_encode_what_they_decode_to() {
    let bytes: Vec<u8> = (0u8..48).collect();
    let header = RetUnlinkHeader::read_from_bytes(&bytes).unwrap();
    assert_eq!(header.seqnum, 0x0405_0607);
    assert_eq!(header.to_bytes(), bytes);
    let submit = CmdSubmitHeader::read_from_bytes(&bytes).unwrap();
    assert_eq!(submit.to_bytes(), bytes);
}

#[test]
fn devlist_header_layout() {
    let rep = OpRepDevlistHeader {
        header: OpHeader { version: 0x0111, code: 0x0005, status: 0 },
        num_devices: 2,
    };
    let bytes = rep.to_bytes();
    assert_eq!(bytes, vec![0x01, 0x11, 0x00, 0x05, 0, 0, 0, 0, 0, 0, 0, 2]);
    let parsed = OpRepDevlistHeader::read_from_bytes(&bytes).unwrap();
    assert_eq!(parsed.num_devices, 2);
}

#[test]
fn device_record_layout() {
    let mut wire = WireDeviceInfo {
        path: [0u8; 256],
        busid: [0u8; 32],
        busnum: 1,
        devnum: 4,
        speed: 3,
        id_vendor: 0x046d,
        id_product: 0xc077,
        bcd_device: 0x7200,
        device_class: 0,
        device_sub_class: 0,
        device_protocol: 0,
        configuration_value: 1,
        num_configurations: 1,
        num_interfaces: 1,
    };
    wire.busid[..3].copy_from_slice(b"1-4");
    let bytes = wire.to_bytes();
    assert_eq!(bytes.len(), 312);
    assert_eq!(&bytes[256..259], b"1-4");
    assert_eq!(&bytes[288..292], &[0, 0, 0, 1]);
    assert_eq!(&bytes[300..302], &[0x04, 0x6d]);
    assert_eq!(bytes[311], 1);
    let parsed = WireDeviceInfo::read_from_bytes(&bytes).unwrap();
    let dev = DeviceInfo::from_wire(&parsed);
    assert_eq!(dev.busid, "1-4");
    assert_eq!(dev.path, "");
    assert_eq!(dev.id_vendor, 0x046d);
    assert_eq!(dev.speed, 3);
}

#[test]
fn interface_record_layout() {
    let wire = WireInterfaceInfo { class: 3, sub_class: 1, protocol: 2, _padding: 0 };
    assert_eq!(wire.to_bytes(), vec![3, 1, 2, 0]);
    let parsed = WireInterfaceInfo::read_from_bytes(&[8, 6, 80, 0]).unwrap();
    let iface = InterfaceInfo::from_wire(&parsed);
    assert_eq!(iface, InterfaceInfo { class: 8, sub_class: 6, protocol: 80 });
}

// --- NUL-padded text fields ---

#[test]
fn bytes_to_string_stops_at_first_nul() {
    assert_eq!(bytes_to_string(b"abc\0def"), "abc");
    assert_eq!(bytes_to_string(b"\0abc"), "");
    assert_eq!(bytes_to_string(b""), "");
}

#[test]
fn bytes_to_string_without_nul_takes_all() {
    assert_eq!(bytes_to_string(b"3-2"), "3-2");
    assert_eq!(bytes_to_string(&[b'3', b'-', b'2', 0, b'x']), "3-2");
}

#[test]
fn bytes_to_string_replaces_invalid_utf8() {
    assert_eq!(bytes_to_string(&[0x66, 0xff, 0x67, 0]), "f\u{FFFD}g");
    assert_eq!(bytes_to_string("é".as_bytes()), "é");
}

#[test]
fn bytes_to_string_of_invalid_utf8_holds_no_nul() {
    let text = bytes_to_string(&[0xff, b'A', 0xc3, 0, 0xff]);
    assert_eq!(text, "\u{FFFD}A\u{FFFD}");
    assert!(!text.contains('\0'));
    assert!(!bytes_to_string(&[0xc0, 0x80, 0x80]).contains('\0'));
}
