use usbipdevirt::usbip::client::{
    check_devlist_reply, check_import_reply, devlist_request, encode_cmd_submit,
    encode_cmd_unlink, import_devid, import_request, CommandState, DevlistDecoder, SharedState,
    UrbHeader, UsbipError, ECONNRESET,
};
use usbipdevirt::usbip::protocol::Direction;
use usbipdevirt::usbip::wire::{
    CmdSubmitHeader, CmdUnlinkHeader, OpHeader, OpRepDevlistHeader, OpReqImport,
    RetSubmitHeader, RetUnlinkHeader, WireDeviceInfo, WireInterfaceInfo,
};

fn ret_submit(seqnum: u32, status: i32, actual_length: u32) -> Vec<u8> {
    RetSubmitHeader {
        command: 3,
        seqnum,
        devid: 0,
        direction: 0,
        ep: 0,
        status,
        actual_length,
        start_frame: 0,
        number_of_packets: 0,
        error_count: 0,
        _padding: [0; 8],
    }
    .to_bytes()
}

fn ret_unlink(seqnum: u32, status: i32) -> Vec<u8> {
    RetUnlinkHeader { command: 4, seqnum, devid: 0, direction: 0, ep: 0, status, _padding: [0; 24] }
        .to_bytes()
}

// --- Requests ---

#[test]
fn devlist_request_bytes() {
    assert_eq!(devlist_request(), vec![0x01, 0x11, 0x80, 0x05, 0, 0, 0, 0]);
}

#[test]
fn import_request_carries_busid() {
    let bytes = import_request("1-1");
    assert_eq!(bytes.len(), 40);
    let req = OpReqImport::read_from_bytes(&bytes).unwrap();
    assert_eq!(req.header.version, 0x0111);
    assert_eq!(req.header.code, 0x8003);
    assert_eq!(req.header.status, 0);
    assert_eq!(&req.busid[..3], b"1-1");
    assert!(req.busid[3..].iter().all(|&b| b == 0));
}

#[test]
fn import_request_truncates_long_busid_keeping_nul() {
    let long = "0123456789abcdef0123456789abcdefXYZ";
    let bytes = import_request(long);
    let req = OpReqImport::read_from_bytes(&bytes).unwrap();
    assert_eq!(&req.busid[..31], &long.as_bytes()[..31]);
    assert_eq!(req.busid[31], 0);
}

#[test]
fn devlist_reply_checks() {
    let ok = OpRepDevlistHeader {
        header: OpHeader { version: 0x0111, code: 0x0005, status: 0 },
        num_devices: 3,
    };
    assert_eq!(check_devlist_reply(&ok.to_bytes()), Ok(3));
    let wrong_code = OpRepDevlistHeader {
        header: OpHeader { version: 0x0111, code: 0x0003, status: 0 },
        num_devices: 3,
    };
    assert_eq!(check_devlist_reply(&wrong_code.to_bytes()), Err(UsbipError::UnexpectedReplyCode(3)));
    let failed = OpRepDevlistHeader {
        header: OpHeader { version: 0x0111, code: 0x0005, status: 1 },
        num_devices: 0,
    };
    assert_eq!(check_devlist_reply(&failed.to_bytes()), Err(UsbipError::ServerStatus(1)));
}

#[test]
fn import_reply_checks() {
    let ok = OpHeader { version: 0x0111, code: 0x0003, status: 0 };
    assert_eq!(check_import_reply(&ok.to_bytes()), Ok(()));
    let wrong = OpHeader { version: 0x0111, code: 0x0005, status: 0 };
    assert_eq!(check_import_reply(&wrong.to_bytes()), Err(UsbipError::UnexpectedReplyCode(5)));
    let failed = OpHeader { version: 0x0111, code: 0x0003, status: 2 };
    assert_eq!(check_import_reply(&failed.to_bytes()), Err(UsbipError::ImportFailed(2)));
}

#[test]
fn devid_is_busnum_and_devnum() {
    assert_eq!(import_devid(3, 2), 0x0003_0002);
    assert_eq!(import_devid(0x1_0001, 5), 0x0001_0005);
}

// --- Commands ---

#[test]
fn cmd_submit_out_carries_data() {
    let setup = [1, 2, 3, 4, 5, 6, 7, 8];
    let bytes = encode_cmd_submit(7, 0x0001_0002, 2, Direction::Out, 0, 3, setup, &[9, 9, 9], 0);
    assert_eq!(bytes.len(), 51);
    assert_eq!(&bytes[48..], &[9, 9, 9]);
    let h = CmdSubmitHeader::read_from_bytes(&bytes[..48]).unwrap();
    assert_eq!(h.command, 1);
    assert_eq!(h.seqnum, 7);
    assert_eq!(h.devid, 0x0001_0002);
    assert_eq!(h.direction, 0);
    assert_eq!(h.ep, 2);
    assert_eq!(h.transfer_buffer_length, 3);
    assert_eq!(h.start_frame, 0);
    assert_eq!(h.number_of_packets, 0xffff_ffff);
    assert_eq!(h.setup, setup);
}

#[test]
fn cmd_submit_in_never_carries_data() {
    let bytes = encode_cmd_submit(1, 0, 1, Direction::In, 0x200, 64, [0; 8], &[1, 2, 3], 4);
    assert_eq!(bytes.len(), 48);
    let h = CmdSubmitHeader::read_from_bytes(&bytes).unwrap();
    assert_eq!(h.direction, 1);
    assert_eq!(h.transfer_flags, 0x200);
    assert_eq!(h.interval, 4);
}

#[test]
fn cmd_unlink_bytes() {
    let bytes = encode_cmd_unlink(50, 0x0001_0002, 49);
    let h = CmdUnlinkHeader::read_from_bytes(&bytes).unwrap();
    assert_eq!(h.command, 2);
    assert_eq!(h.seqnum, 50);
    assert_eq!(h.devid, 0x0001_0002);
    assert_eq!(h.direction, 0);
    assert_eq!(h.ep, 0);
    assert_eq!(h.unlink_seqnum, 49);
    assert_eq!(h._padding, [0; 24]);
}

#[test]
fn seqnums_start_at_one_and_increase() {
    let mut cmd = CommandState::new(0x0003_0002);
    assert_eq!(cmd.next_seqnum(), 1);
    let (a, bytes) = cmd.submit_command(0, Direction::In, 0, 18, [0; 8], &[], 0);
    let (b, _) = cmd.unlink_command(a);
    let c = cmd.alloc_seqnum();
    assert_eq!((a, b, c), (1, 2, 3));
    assert_eq!(cmd.next_seqnum(), 4);
    let h = CmdSubmitHeader::read_from_bytes(&bytes).unwrap();
    assert_eq!(h.seqnum, 1);
    assert_eq!(h.devid, 0x0003_0002);
    assert_eq!(cmd.devid(), 0x0003_0002);
}

// --- Replies ---

#[test]
fn ret_submit_answers_pending_urb() {
    let mut shared = SharedState::new();
    shared.register_submit(5, Direction::In);
    let head = match shared.on_reply_header(&ret_submit(5, 0, 18)) {
        Ok(UrbHeader::Submit(h)) => h,
        other => panic!("unexpected {:?}", other),
    };
    assert_eq!(head.seqnum, 5);
    assert_eq!(head.status, 0);
    assert_eq!(head.actual_length, 18);
    assert_eq!(head.direction, Direction::In);
    assert_eq!(head.data_len(), 18);
    let ret = head.complete(vec![7; 18]);
    assert_eq!(ret.data, vec![7; 18]);
    assert_eq!(ret.direction, Direction::In);
    // The URB is no longer pending: a second reply for it is refused.
    assert_eq!(shared.on_reply_header(&ret_submit(5, 0, 18)), Err(UsbipError::UnknownSeqnum(5)));
}

#[test]
fn ret_submit_for_out_urb_has_no_data() {
    let mut shared = SharedState::new();
    shared.register_submit(9, Direction::Out);
    match shared.on_reply_header(&ret_submit(9, 0, 64)) {
        Ok(UrbHeader::Submit(h)) => {
            assert_eq!(h.direction, Direction::Out);
            assert_eq!(h.data_len(), 0);
        }
        other => panic!("unexpected {:?}", other),
    }
}

#[test]
fn ret_submit_for_unknown_seqnum_is_refused() {
    let mut shared = SharedState::new();
    shared.register_submit(1, Direction::In);
    assert_eq!(shared.on_reply_header(&ret_submit(2, 0, 0)), Err(UsbipError::UnknownSeqnum(2)));
    // Nothing changed: URB 1 is still answered.
    assert!(matches!(shared.on_reply_header(&ret_submit(1, 0, 0)), Ok(UrbHeader::Submit(_))));
}

#[test]
fn forgotten_submit_is_not_answered() {
    let mut shared = SharedState::new();
    shared.register_submit(3, Direction::Out);
    shared.forget_submit(3);
    assert_eq!(shared.on_reply_header(&ret_submit(3, 0, 0)), Err(UsbipError::UnknownSeqnum(3)));
}

#[test]
fn unknown_reply_command_is_refused() {
    let mut shared = SharedState::new();
    let mut bytes = ret_submit(1, 0, 0);
    bytes[3] = 9;
    assert_eq!(shared.on_reply_header(&bytes), Err(UsbipError::UnknownCommand(9)));
}

#[test]
fn unlink_with_econnreset_cancels_urb() {
    let mut shared = SharedState::new();
    shared.register_submit(10, Direction::In);
    shared.register_unlink(11, 10);
    assert_eq!(
        shared.on_reply_header(&ret_unlink(11, -ECONNRESET)),
        Ok(UrbHeader::Unlink(usbipdevirt::usbip::protocol::RetUnlink { seqnum: 11, status: -104 }))
    );
    assert_eq!(shared.on_reply_header(&ret_submit(10, 0, 0)), Err(UsbipError::UnknownSeqnum(10)));
}

#[test]
fn unlink_with_other_status_keeps_urb() {
    let mut shared = SharedState::new();
    shared.register_submit(10, Direction::In);
    shared.register_unlink(11, 10);
    assert!(matches!(shared.on_reply_header(&ret_unlink(11, 0)), Ok(UrbHeader::Unlink(_))));
    assert!(matches!(shared.on_reply_header(&ret_submit(10, 0, 0)), Ok(UrbHeader::Submit(_))));
}

#[test]
fn unlink_reply_for_unknown_unlink_is_passed_on() {
    let mut shared = SharedState::new();
    shared.register_submit(10, Direction::In);
    assert!(matches!(shared.on_reply_header(&ret_unlink(12, -ECONNRESET)), Ok(UrbHeader::Unlink(u)) if u.seqnum == 12));
    assert!(matches!(shared.on_reply_header(&ret_submit(10, 0, 0)), Ok(UrbHeader::Submit(_))));
}

#[test]
fn forgotten_unlink_does_not_cancel() {
    let mut shared = SharedState::new();
    shared.register_submit(10, Direction::In);
    shared.register_unlink(11, 10);
    shared.forget_unlink(11);
    assert!(matches!(shared.on_reply_header(&ret_unlink(11, -ECONNRESET)), Ok(UrbHeader::Unlink(_))));
    assert!(matches!(shared.on_reply_header(&ret_submit(10, 0, 0)), Ok(UrbHeader::Submit(_))));
}

// --- Device list ---

fn device_record(busid: &[u8], num_interfaces: u8) -> Vec<u8> {
    let mut wire = WireDeviceInfo {
        path: [0u8; 256],
        busid: [0u8; 32],
        busnum: 1,
        devnum: 2,
        speed: 3,
        id_vendor: 0x1234,
        id_product: 0x5678,
        bcd_device: 0x0100,
        device_class: 0,
        device_sub_class: 0,
        device_protocol: 0,
        configuration_value: 1,
        num_configurations: 1,
        num_interfaces,
    };
    wire.busid[..busid.len()].copy_from_slice(busid);
    wire.to_bytes()
}

fn devlist_header(code: u16, status: u32, num_devices: u32) -> Vec<u8> {
    OpRepDevlistHeader { header: OpHeader { version: 0x0111, code, status }, num_devices }
        .to_bytes()
}

#[test]
fn devlist_decoder_reads_devices_and_interfaces() {
    let mut dec = DevlistDecoder::new();
    assert_eq!(dec.bytes_needed(), 12);
    dec.feed(&devlist_header(0x0005, 0, 2)).unwrap();
    assert_eq!(dec.bytes_needed(), 312);
    dec.feed(&device_record(b"1-1", 2)).unwrap();
    assert_eq!(dec.bytes_needed(), 4);
    dec.feed(&WireInterfaceInfo { class: 3, sub_class: 1, protocol: 1, _padding: 0 }.to_bytes())
        .unwrap();
    dec.feed(&WireInterfaceInfo { class: 3, sub_class: 0, protocol: 0, _padding: 0 }.to_bytes())
        .unwrap();
    assert!(!dec.is_done());
    assert_eq!(dec.bytes_needed(), 312);
    dec.feed(&device_record(b"1-2", 0)).unwrap();
    assert!(dec.is_done());
    assert_eq!(dec.bytes_needed(), 0);
    let devices = dec.into_devices();
    assert_eq!(devices.len(), 2);
    assert_eq!(devices[0].busid, "1-1");
    assert_eq!(devices[0].interfaces.len(), 2);
    assert_eq!(devices[0].interfaces[0].class, 3);
    assert_eq!(devices[0].interfaces[0].sub_class, 1);
    assert_eq!(devices[0].interfaces[1].sub_class, 0);
    assert_eq!(devices[1].busid, "1-2");
    assert!(devices[1].interfaces.is_empty());
}

#[test]
fn devlist_decoder_empty_list() {
    let mut dec = DevlistDecoder::new();
    dec.feed(&devlist_header(0x0005, 0, 0)).unwrap();
    assert!(dec.is_done());
    assert!(dec.into_devices().is_empty());
}

#[test]
fn devlist_decoder_errors() {
    let mut dec = DevlistDecoder::new();
    assert_eq!(dec.feed(&devlist_header(0x0003, 0, 1)), Err(UsbipError::UnexpectedReplyCode(3)));
    assert_eq!(dec.bytes_needed(), 12);
    assert_eq!(dec.feed(&devlist_header(0x0005, 7, 1)), Err(UsbipError::ServerStatus(7)));
    assert!(!dec.is_done());
}
