//! The decisions of a USB/IP client: what it sends, how it numbers and
//! tracks the URBs it submits, and what each reply from the server means.
//! Reading and writing the socket is left to the caller.
use std::collections::HashMap;
use vstd::prelude::*;
use vstd::string::StringSliceAdditionalSpecFns;
use crate::endian::{
    be16_value, be32_value, lemma_be16_roundtrip, lemma_be32_roundtrip, read_be32,
};
use crate::usbip::protocol::{
    direction_code, DeviceInfo, DeviceInfoView, Direction, InterfaceInfo, RetSubmit, RetUnlink,
    BUSID_LEN, OP_REP_DEVLIST, OP_REP_IMPORT, OP_REQ_DEVLIST, OP_REQ_IMPORT, USBIP_CMD_SUBMIT,
    USBIP_CMD_UNLINK, USBIP_RET_SUBMIT, USBIP_RET_UNLINK, USBIP_VERSION,
};
use crate::usbip::wire::{
    CmdSubmitHeader, CmdUnlinkHeader, OpHeader, OpRepDevlistHeader, OpReqImport, RetSubmitHeader,
    RetUnlinkHeader, WireDeviceInfo, WireInterfaceInfo,
};

verus! {

broadcast use vstd::std_specs::hash::group_hash_axioms;

/// `ECONNRESET` on Linux: the status of an unlink that cancelled its URB is its negation.
pub const ECONNRESET: i32 = 104;

/// What went wrong in an exchange with a USB/IP server.
#[derive(Debug, Clone, Copy, PartialEq, Eq, Structural)]
pub enum UsbipError {
    /// An operation reply carried another code than the one expected.
    UnexpectedReplyCode(u16),
    /// The device list reply carried a non-zero status.
    ServerStatus(u32),
    /// The import reply carried a non-zero status.
    ImportFailed(u32),
    /// A `RET_SUBMIT` named a sequence number that no pending URB has.
    UnknownSeqnum(u32),
    /// A URB reply carried an unknown command.
    UnknownCommand(u32),
}

// --- Operation requests and replies ---

/// The header of an operation request with the given code.
pub open spec fn request_header(code: u16) -> OpHeader {
    OpHeader { version: USBIP_VERSION, code, status: 0 }
}

/// The `OP_REQ_DEVLIST` request.
pub fn devlist_request() -> (r: Vec<u8>)
    ensures
        r@ == request_header(OP_REQ_DEVLIST).spec_bytes(),
        r@.len() == 8,
        be16_value(r@.subrange(0, 2)) == 0x0111,
        be16_value(r@.subrange(2, 4)) == 0x8005,
        be32_value(r@.subrange(4, 8)) == 0,
{
    proof {
        lemma_request_header_fields(OP_REQ_DEVLIST);
    }
    let header = OpHeader { version: USBIP_VERSION, code: OP_REQ_DEVLIST, status: 0 };
    header.to_bytes()
}

/// The bus id field of an import request: the first 31 bytes of the bus id
/// at most, then NUL bytes up to 32, so the field always ends with a NUL.
pub open spec fn import_busid_field(busid: Seq<u8>) -> Seq<u8> {
    Seq::new(
        BUSID_LEN as nat,
        |i: int|
            if i < busid.len() && i < BUSID_LEN - 1 {
                busid[i]
            } else {
                0u8
            },
    )
}

/// The `OP_REQ_IMPORT` request for the device with the given bus id.
pub fn import_request(busid: &str) -> (r: Vec<u8>)
    ensures
        r@ == request_header(OP_REQ_IMPORT).spec_bytes() + import_busid_field(busid.spec_bytes()),
        r@.len() == 40,
        be16_value(r@.subrange(0, 2)) == 0x0111,
        be16_value(r@.subrange(2, 4)) == 0x8003,
        be32_value(r@.subrange(4, 8)) == 0,
        forall|i: int|
            0 <= i < 32 ==> #[trigger] r@[8 + i] == if i < busid.spec_bytes().len() && i < 31 {
                busid.spec_bytes()[i]
            } else {
                0u8
            },
{
    proof {
        lemma_import_request_fields(busid.spec_bytes());
    }
    let bytes = busid.as_bytes();
    let copy_len = if bytes.len() < BUSID_LEN - 1 {
        bytes.len()
    } else {
        BUSID_LEN - 1
    };
    let mut field = [0u8; BUSID_LEN];
    let mut i: usize = 0;
    while i < copy_len
        invariant
            copy_len <= bytes@.len(),
            copy_len <= BUSID_LEN - 1,
            i <= copy_len,
            field@.len() == 32,
            forall|j: int| 0 <= j < i ==> field@[j] == bytes@[j],
            forall|j: int| i <= j < 32 ==> field@[j] == 0,
        decreases copy_len - i,
    {
        field[i] = bytes[i];
        i = i + 1;
    }
    let req = OpReqImport {
        header: OpHeader { version: USBIP_VERSION, code: OP_REQ_IMPORT, status: 0 },
        busid: field,
    };
    assert(field@ =~= import_busid_field(busid.spec_bytes()));
    req.to_bytes()
}

/// The header of an operation request: version 0x0111 at bytes 0..2, the
/// request's code at bytes 2..4, and status 0 at bytes 4..8.
pub proof fn lemma_request_header_fields(code: u16)
    ensures
        request_header(code).spec_bytes().len() == 8,
        be16_value(request_header(code).spec_bytes().subrange(0, 2)) == 0x0111,
        be16_value(request_header(code).spec_bytes().subrange(2, 4)) == code,
        be32_value(request_header(code).spec_bytes().subrange(4, 8)) == 0,
{
    OpHeader::lemma_layout(request_header(code));
    lemma_be16_roundtrip(USBIP_VERSION);
    lemma_be16_roundtrip(code);
    lemma_be32_roundtrip(0);
}

/// An import request is 40 bytes: the request header with code
/// `OP_REQ_IMPORT` (0x8003), then the bus id's first 31 bytes at most,
/// padded with NUL bytes to 32.
pub proof fn lemma_import_request_fields(busid: Seq<u8>)
    ensures
        ({
            let r = request_header(OP_REQ_IMPORT).spec_bytes() + import_busid_field(busid);
            &&& r.len() == 40
            &&& be16_value(r.subrange(0, 2)) == 0x0111
            &&& be16_value(r.subrange(2, 4)) == 0x8003
            &&& be32_value(r.subrange(4, 8)) == 0
            &&& forall|i: int|
                0 <= i < 32 ==> #[trigger] r[8 + i] == if i < busid.len() && i < 31 {
                    busid[i]
                } else {
                    0u8
                }
        }),
{
    let hb = request_header(OP_REQ_IMPORT).spec_bytes();
    let r = hb + import_busid_field(busid);
    lemma_request_header_fields(OP_REQ_IMPORT);
    assert(r.subrange(0, 2) =~= hb.subrange(0, 2));
    assert(r.subrange(2, 4) =~= hb.subrange(2, 4));
    assert(r.subrange(4, 8) =~= hb.subrange(4, 8));
}

/// What the 12-byte header of a device list reply means: the number of
/// device records that follow, or the error that ends the listing.
pub open spec fn devlist_reply_result(bytes: Seq<u8>) -> Result<u32, UsbipError> {
    let rep = OpRepDevlistHeader::spec_decode(bytes);
    if rep.header.code != OP_REP_DEVLIST {
        Err(UsbipError::UnexpectedReplyCode(rep.header.code))
    } else if rep.header.status != 0 {
        Err(UsbipError::ServerStatus(rep.header.status))
    } else {
        Ok(rep.num_devices)
    }
}

/// Checks the 12-byte header of a device list reply.
pub fn check_devlist_reply(bytes: &[u8]) -> (r: Result<u32, UsbipError>)
    requires
        bytes@.len() == 12,
    ensures
        r == devlist_reply_result(bytes@),
        r is Ok <==> be16_value(bytes@.subrange(2, 4)) == 0x0005 && be32_value(
            bytes@.subrange(4, 8),
        ) == 0,
        r is Ok ==> r == Ok::<u32, UsbipError>(be32_value(bytes@.subrange(8, 12))),
{
    proof {
        lemma_devlist_reply(bytes@);
    }
    let rep = OpRepDevlistHeader::read_from_bytes(bytes).unwrap();
    if rep.header.code != OP_REP_DEVLIST {
        Err(UsbipError::UnexpectedReplyCode(rep.header.code))
    } else if rep.header.status != 0 {
        Err(UsbipError::ServerStatus(rep.header.status))
    } else {
        Ok(rep.num_devices)
    }
}

/// What the 8-byte header of an import reply means.
pub open spec fn import_reply_result(bytes: Seq<u8>) -> Result<(), UsbipError> {
    let rep = OpHeader::spec_decode(bytes);
    if rep.code != OP_REP_IMPORT {
        Err(UsbipError::UnexpectedReplyCode(rep.code))
    } else if rep.status != 0 {
        Err(UsbipError::ImportFailed(rep.status))
    } else {
        Ok(())
    }
}

/// Checks the 8-byte header of an import reply.
pub fn check_import_reply(bytes: &[u8]) -> (r: Result<(), UsbipError>)
    requires
        bytes@.len() == 8,
    ensures
        r == import_reply_result(bytes@),
        r is Ok <==> be16_value(bytes@.subrange(2, 4)) == 0x0003 && be32_value(
            bytes@.subrange(4, 8),
        ) == 0,
        be16_value(bytes@.subrange(2, 4)) == 0x0003 && be32_value(bytes@.subrange(4, 8)) != 0
            ==> r == Err::<(), UsbipError>(
            UsbipError::ImportFailed(be32_value(bytes@.subrange(4, 8))),
        ),
{
    proof {
        lemma_import_reply(bytes@);
    }
    let rep = OpHeader::read_from_bytes(bytes).unwrap();
    if rep.code != OP_REP_IMPORT {
        Err(UsbipError::UnexpectedReplyCode(rep.code))
    } else if rep.status != 0 {
        Err(UsbipError::ImportFailed(rep.status))
    } else {
        Ok(())
    }
}

/// An import reply is accepted exactly when its code (bytes 2..4) is
/// `OP_REP_IMPORT` and its status (bytes 4..8) is 0; another code is refused
/// as unexpected, and a non-zero status `st` with the right code is refused
/// as `ImportFailed(st)`.
pub proof fn lemma_import_reply(bytes: Seq<u8>)
    requires
        bytes.len() == 8,
    ensures
        ({
            let code = be16_value(bytes.subrange(2, 4));
            let status = be32_value(bytes.subrange(4, 8));
            &&& import_reply_result(bytes) is Ok <==> code == 0x0003 && status == 0
            &&& code != 0x0003 ==> import_reply_result(bytes) == Err::<(), UsbipError>(
                UsbipError::UnexpectedReplyCode(code),
            )
            &&& code == 0x0003 && status != 0 ==> import_reply_result(bytes) == Err::<
                (),
                UsbipError,
            >(UsbipError::ImportFailed(status))
        }),
{
    let h = OpHeader {
        version: be16_value(bytes.subrange(0, 2)),
        code: be16_value(bytes.subrange(2, 4)),
        status: be32_value(bytes.subrange(4, 8)),
    };
    assert(OpHeader::decodes_to(bytes, h));
    OpHeader::lemma_bytes_determined(bytes, h);
}

/// A device list reply header is accepted exactly when its code (bytes 2..4)
/// is `OP_REP_DEVLIST` and its status (bytes 4..8) is 0, and then gives the
/// device count of bytes 8..12; another code is refused as unexpected, and a
/// non-zero status `st` with the right code as `ServerStatus(st)`.
pub proof fn lemma_devlist_reply(bytes: Seq<u8>)
    requires
        bytes.len() == 12,
    ensures
        ({
            let code = be16_value(bytes.subrange(2, 4));
            let status = be32_value(bytes.subrange(4, 8));
            &&& devlist_reply_result(bytes) is Ok <==> code == 0x0005 && status == 0
            &&& devlist_reply_result(bytes) is Ok ==> devlist_reply_result(bytes) == Ok::<
                u32,
                UsbipError,
            >(be32_value(bytes.subrange(8, 12)))
            &&& code != 0x0005 ==> devlist_reply_result(bytes) == Err::<u32, UsbipError>(
                UsbipError::UnexpectedReplyCode(code),
            )
            &&& code == 0x0005 && status != 0 ==> devlist_reply_result(bytes) == Err::<
                u32,
                UsbipError,
            >(UsbipError::ServerStatus(status))
        }),
{
    let hd = OpHeader {
        version: be16_value(bytes.subrange(0, 2)),
        code: be16_value(bytes.subrange(2, 4)),
        status: be32_value(bytes.subrange(4, 8)),
    };
    let h = OpRepDevlistHeader { header: hd, num_devices: be32_value(bytes.subrange(8, 12)) };
    assert(bytes.subrange(0, 8).subrange(0, 2) =~= bytes.subrange(0, 2));
    assert(bytes.subrange(0, 8).subrange(2, 4) =~= bytes.subrange(2, 4));
    assert(bytes.subrange(0, 8).subrange(4, 8) =~= bytes.subrange(4, 8));
    assert(OpRepDevlistHeader::decodes_to(bytes, h));
    OpRepDevlistHeader::lemma_bytes_determined(bytes, h);
}

/// The device id of an imported device: its bus number shifted into the high
/// 16 bits, or-ed with its device number.
pub fn import_devid(busnum: u32, devnum: u32) -> (r: u32)
    ensures
        r == (busnum << 16u32) | devnum,
{
    (busnum << 16u32) | devnum
}

// --- URB commands ---

/// The header of a `CMD_SUBMIT`.
pub open spec fn cmd_submit_header(
    seqnum: u32,
    devid: u32,
    ep: u32,
    direction: Direction,
    transfer_flags: u32,
    transfer_buffer_length: u32,
    setup: [u8; 8],
    interval: u32,
) -> CmdSubmitHeader {
    CmdSubmitHeader {
        command: USBIP_CMD_SUBMIT,
        seqnum,
        devid,
        direction: direction_code(direction),
        ep,
        transfer_flags,
        transfer_buffer_length,
        start_frame: 0,
        number_of_packets: 0xffff_ffff,
        interval,
        setup,
    }
}

/// The bytes of a `CMD_SUBMIT`: the header, then the transfer buffer for an
/// `Out` URB with data.
pub open spec fn cmd_submit_bytes(
    seqnum: u32,
    devid: u32,
    ep: u32,
    direction: Direction,
    transfer_flags: u32,
    transfer_buffer_length: u32,
    setup: [u8; 8],
    data: Seq<u8>,
    interval: u32,
) -> Seq<u8> {
    cmd_submit_header(
        seqnum,
        devid,
        ep,
        direction,
        transfer_flags,
        transfer_buffer_length,
        setup,
        interval,
    ).spec_bytes() + if direction == Direction::Out && data.len() > 0 {
        data
    } else {
        Seq::empty()
    }
}

/// Encodes a `CMD_SUBMIT`.
pub fn encode_cmd_submit(
    seqnum: u32,
    devid: u32,
    ep: u32,
    direction: Direction,
    transfer_flags: u32,
    transfer_buffer_length: u32,
    setup: [u8; 8],
    data: &[u8],
    interval: u32,
) -> (r: Vec<u8>)
    ensures
        r@ == cmd_submit_bytes(
            seqnum,
            devid,
            ep,
            direction,
            transfer_flags,
            transfer_buffer_length,
            setup,
            data@,
            interval,
        ),
        be32_value(r@.subrange(4, 8)) == seqnum,
        be32_value(r@.subrange(8, 12)) == devid,
        be32_value(r@.subrange(16, 20)) == ep,
        be32_value(r@.subrange(20, 24)) == transfer_flags,
        be32_value(r@.subrange(24, 28)) == transfer_buffer_length,
        be32_value(r@.subrange(36, 40)) == interval,
        r@.subrange(40, 48) == setup@,
{
    proof {
        lemma_cmd_submit_fields(
            seqnum,
            devid,
            ep,
            direction,
            transfer_flags,
            transfer_buffer_length,
            setup,
            data@,
            interval,
        );
    }
    let header = CmdSubmitHeader {
        command: USBIP_CMD_SUBMIT,
        seqnum,
        devid,
        direction: direction.code(),
        ep,
        transfer_flags,
        transfer_buffer_length,
        start_frame: 0,
        number_of_packets: 0xffff_ffff,
        interval,
        setup,
    };
    let mut out = header.to_bytes();
    if direction == Direction::Out && data.len() > 0 {
        crate::endian::push_bytes(&mut out, data);
    } else {
        assert(out@ =~= out@ + Seq::<u8>::empty());
    }
    out
}

/// The header of a `CMD_UNLINK`.
pub open spec fn cmd_unlink_header(seqnum: u32, devid: u32, unlink_seqnum: u32) -> CmdUnlinkHeader {
    CmdUnlinkHeader {
        command: USBIP_CMD_UNLINK,
        seqnum,
        devid,
        direction: 0,
        ep: 0,
        unlink_seqnum,
        _padding: vstd::array::spec_array_fill_for_copy_type::<u8, 24>(0u8),
    }
}

/// Encodes a `CMD_UNLINK`.
pub fn encode_cmd_unlink(seqnum: u32, devid: u32, unlink_seqnum: u32) -> (r: Vec<u8>)
    ensures
        r@ == cmd_unlink_header(seqnum, devid, unlink_seqnum).spec_bytes(),
        be32_value(r@.subrange(4, 8)) == seqnum,
        be32_value(r@.subrange(8, 12)) == devid,
        be32_value(r@.subrange(20, 24)) == unlink_seqnum,
{
    proof {
        lemma_cmd_unlink_fields(seqnum, devid, unlink_seqnum);
    }
    let header = CmdUnlinkHeader {
        command: USBIP_CMD_UNLINK,
        seqnum,
        devid,
        direction: 0,
        ep: 0,
        unlink_seqnum,
        _padding: [0u8; 24],
    };
    header.to_bytes()
}

/// What each field of an encoded `CMD_SUBMIT` holds, read at the offsets of
/// the protocol: the command 1, the sequence number, the device id, the
/// direction (0 out, 1 in), the endpoint, the transfer flags, the transfer
/// buffer length the caller asked for, start frame 0, `0xffff_ffff` packets
/// (not isochronous), the interval, the setup packet, and then the data of an
/// `Out` URB and nothing else. The header is the same whatever the data.
pub proof fn lemma_cmd_submit_fields(
    seqnum: u32,
    devid: u32,
    ep: u32,
    direction: Direction,
    transfer_flags: u32,
    transfer_buffer_length: u32,
    setup: [u8; 8],
    data: Seq<u8>,
    interval: u32,
)
    ensures
        ({
            let r = cmd_submit_bytes(
                seqnum,
                devid,
                ep,
                direction,
                transfer_flags,
                transfer_buffer_length,
                setup,
                data,
                interval,
            );
            &&& r.len() == 48 + (if direction == Direction::Out { data.len() } else { 0 })
            &&& be32_value(r.subrange(0, 4)) == 1
            &&& be32_value(r.subrange(4, 8)) == seqnum
            &&& be32_value(r.subrange(8, 12)) == devid
            &&& be32_value(r.subrange(12, 16)) == (if direction == Direction::In { 1u32 } else { 0u32 })
            &&& be32_value(r.subrange(16, 20)) == ep
            &&& be32_value(r.subrange(20, 24)) == transfer_flags
            &&& be32_value(r.subrange(24, 28)) == transfer_buffer_length
            &&& be32_value(r.subrange(28, 32)) == 0
            &&& be32_value(r.subrange(32, 36)) == 0xffff_ffffu32
            &&& be32_value(r.subrange(36, 40)) == interval
            &&& r.subrange(40, 48) == setup@
            &&& r.subrange(48, r.len() as int) == (if direction == Direction::Out { data } else {
                Seq::<u8>::empty()
            })
        }),
{
    let h = cmd_submit_header(
        seqnum,
        devid,
        ep,
        direction,
        transfer_flags,
        transfer_buffer_length,
        setup,
        interval,
    );
    let r = cmd_submit_bytes(
        seqnum,
        devid,
        ep,
        direction,
        transfer_flags,
        transfer_buffer_length,
        setup,
        data,
        interval,
    );
    let hb = h.spec_bytes();
    CmdSubmitHeader::lemma_layout(h);
    assert(r.subrange(0, 48) =~= hb);
    assert forall|a: int, b: int| 0 <= a <= b <= 48 implies #[trigger] r.subrange(a, b)
        == hb.subrange(a, b) by {
        assert(r.subrange(a, b) =~= hb.subrange(a, b));
    }
    lemma_be32_roundtrip(USBIP_CMD_SUBMIT);
    lemma_be32_roundtrip(seqnum);
    lemma_be32_roundtrip(devid);
    lemma_be32_roundtrip(direction_code(direction));
    lemma_be32_roundtrip(ep);
    lemma_be32_roundtrip(transfer_flags);
    lemma_be32_roundtrip(transfer_buffer_length);
    lemma_be32_roundtrip(0);
    lemma_be32_roundtrip(0xffff_ffff);
    lemma_be32_roundtrip(interval);
    assert(r.subrange(48, r.len() as int) =~= (if direction == Direction::Out && data.len() > 0 {
        data
    } else {
        Seq::<u8>::empty()
    }));
    if direction == Direction::Out && data.len() == 0 {
        assert(data =~= Seq::<u8>::empty());
    }
}

/// What each field of an encoded `CMD_UNLINK` holds, read at the offsets of
/// the protocol: the command 2, the sequence number, the device id, direction
/// and endpoint 0, the sequence number of the URB to unlink, and 24 zero bytes.
pub proof fn lemma_cmd_unlink_fields(seqnum: u32, devid: u32, unlink_seqnum: u32)
    ensures
        ({
            let r = cmd_unlink_header(seqnum, devid, unlink_seqnum).spec_bytes();
            &&& r.len() == 48
            &&& be32_value(r.subrange(0, 4)) == 2
            &&& be32_value(r.subrange(4, 8)) == seqnum
            &&& be32_value(r.subrange(8, 12)) == devid
            &&& be32_value(r.subrange(12, 16)) == 0
            &&& be32_value(r.subrange(16, 20)) == 0
            &&& be32_value(r.subrange(20, 24)) == unlink_seqnum
            &&& forall|i: int| 24 <= i < 48 ==> r[i] == 0
        }),
{
    let h = cmd_unlink_header(seqnum, devid, unlink_seqnum);
    let r = h.spec_bytes();
    CmdUnlinkHeader::lemma_layout(h);
    lemma_be32_roundtrip(USBIP_CMD_UNLINK);
    lemma_be32_roundtrip(seqnum);
    lemma_be32_roundtrip(devid);
    lemma_be32_roundtrip(0);
    lemma_be32_roundtrip(unlink_seqnum);
    assert forall|i: int| 24 <= i < 48 implies r[i] == 0 by {
        assert(r[i] == r.subrange(24, 48)[i - 24]);
    }
}

// --- Command side: sequence numbers ---

/// The command side of a connection: the device id that commands name and
/// the sequence number that the next command gets.
pub struct CommandState {
    devid: u32,
    next_seqnum: u32,
}

/// The abstract value of a `CommandState`.
pub struct CommandStateView {
    pub devid: u32,
    pub next_seqnum: u32,
}

impl View for CommandState {
    type V = CommandStateView;

    closed spec fn view(&self) -> CommandStateView {
        CommandStateView { devid: self.devid, next_seqnum: self.next_seqnum }
    }
}

impl CommandState {
    /// The command side of a newly imported device; numbering starts at 1.
    pub fn new(devid: u32) -> (s: Self)
        ensures
            s@.devid == devid,
            s@.next_seqnum == 1,
    {
        CommandState { devid, next_seqnum: 1 }
    }

    /// The device id that commands name.
    pub fn devid(&self) -> (r: u32)
        ensures
            r == self@.devid,
    {
        self.devid
    }

    /// The sequence number that the next command gets.
    pub fn next_seqnum(&self) -> (r: u32)
        ensures
            r == self@.next_seqnum,
    {
        self.next_seqnum
    }

    /// Takes the next sequence number. Each number is handed out once: the
    /// numbers strictly increase.
    pub fn alloc_seqnum(&mut self) -> (seq: u32)
        requires
            old(self)@.next_seqnum < u32::MAX,
        ensures
            seq == old(self)@.next_seqnum,
            final(self)@.next_seqnum == old(self)@.next_seqnum + 1,
            final(self)@.devid == old(self)@.devid,
    {
        let seq = self.next_seqnum;
        self.next_seqnum = self.next_seqnum + 1;
        seq
    }

    /// Numbers a `CMD_SUBMIT` and encodes it; returns the number and the bytes.
    pub fn submit_command(
        &mut self,
        ep: u32,
        direction: Direction,
        transfer_flags: u32,
        transfer_buffer_length: u32,
        setup: [u8; 8],
        data: &[u8],
        interval: u32,
    ) -> (r: (u32, Vec<u8>))
        requires
            old(self)@.next_seqnum < u32::MAX,
        ensures
            r.0 == old(self)@.next_seqnum,
            final(self)@.next_seqnum == old(self)@.next_seqnum + 1,
            final(self)@.devid == old(self)@.devid,
            r.1@ == cmd_submit_bytes(
                r.0,
                old(self)@.devid,
                ep,
                direction,
                transfer_flags,
                transfer_buffer_length,
                setup,
                data@,
                interval,
            ),
    {
        let seqnum = self.alloc_seqnum();
        let bytes = encode_cmd_submit(
            seqnum,
            self.devid,
            ep,
            direction,
            transfer_flags,
            transfer_buffer_length,
            setup,
            data,
            interval,
        );
        (seqnum, bytes)
    }

    /// Numbers a `CMD_UNLINK` of the URB `unlink_seqnum` and encodes it;
    /// returns the number and the bytes.
    pub fn unlink_command(&mut self, unlink_seqnum: u32) -> (r: (u32, Vec<u8>))
        requires
            old(self)@.next_seqnum < u32::MAX,
        ensures
            r.0 == old(self)@.next_seqnum,
            final(self)@.next_seqnum == old(self)@.next_seqnum + 1,
            final(self)@.devid == old(self)@.devid,
            r.1@ == cmd_unlink_header(r.0, old(self)@.devid, unlink_seqnum).spec_bytes(),
    {
        let seqnum = self.alloc_seqnum();
        let bytes = encode_cmd_unlink(seqnum, self.devid, unlink_seqnum);
        (seqnum, bytes)
    }
}

// --- Reply side: URBs in flight ---

/// The URBs in flight: the direction of each submitted URB that has no
/// reply yet, and the target of each unlink request that has no reply yet,
/// both keyed by sequence number.
pub struct SharedState {
    pending: HashMap<u32, Direction>,
    unlinks: HashMap<u32, u32>,
}

/// The abstract value of a `SharedState`.
#[verifier::ext_equal]
pub struct SharedStateView {
    pub pending: Map<u32, Direction>,
    pub unlinks: Map<u32, u32>,
}

impl View for SharedState {
    type V = SharedStateView;

    closed spec fn view(&self) -> SharedStateView {
        SharedStateView { pending: self.pending@, unlinks: self.unlinks@ }
    }
}

/// The header of a `RET_SUBMIT`, with the direction of the URB it answers.
#[derive(Debug, Clone, Copy, PartialEq, Eq, Structural)]
pub struct RetSubmitHead {
    pub seqnum: u32,
    pub status: i32,
    pub actual_length: u32,
    pub direction: Direction,
}

impl RetSubmitHead {
    /// Number of transfer-buffer bytes that follow the header: `actual_length`
    /// for an `In` URB, none for an `Out` URB.
    pub open spec fn spec_data_len(self) -> u32 {
        if self.direction == Direction::In && self.actual_length > 0 {
            self.actual_length
        } else {
            0
        }
    }

    /// Number of transfer-buffer bytes that follow the header.
    pub fn data_len(&self) -> (r: u32)
        ensures
            r == self.spec_data_len(),
            self.direction == Direction::In ==> r == self.actual_length,
            self.direction == Direction::Out ==> r == 0,
    {
        if self.direction == Direction::In && self.actual_length > 0 {
            self.actual_length
        } else {
            0
        }
    }

    /// The response, once the bytes that follow the header have been read.
    pub fn complete(self, data: Vec<u8>) -> (r: RetSubmit)
        requires
            data@.len() == self.spec_data_len(),
        ensures
            r.seqnum == self.seqnum,
            r.status == self.status,
            r.actual_length == self.actual_length,
            r.direction == self.direction,
            r.data@ == data@,
    {
        RetSubmit {
            seqnum: self.seqnum,
            status: self.status,
            actual_length: self.actual_length,
            data,
            direction: self.direction,
        }
    }
}

/// What the 48-byte header of a URB reply tells.
#[derive(Debug, Clone, Copy, PartialEq, Eq, Structural)]
pub enum UrbHeader {
    /// A `RET_SUBMIT`; for an `In` URB its data follows.
    Submit(RetSubmitHead),
    /// A `RET_UNLINK`; nothing follows.
    Unlink(RetUnlink),
}

/// The command field of a URB reply header.
pub open spec fn reply_command(s: Seq<u8>) -> u32 {
    be32_value(s.subrange(0, 4))
}

/// How a URB reply header changes what is in flight, and what it tells.
/// A `RET_SUBMIT` answers the pending URB it names, which stops being pending;
/// naming none is an error. A `RET_UNLINK` answers the unlink request it
/// names; when the status is `-ECONNRESET` the unlinked URB was cancelled and
/// stops being pending too. Any other command is an error. Errors change nothing.
pub open spec fn reply_step(st: SharedStateView, s: Seq<u8>) -> (
    SharedStateView,
    Result<UrbHeader, UsbipError>,
) {
    let command = reply_command(s);
    if command == USBIP_RET_SUBMIT {
        let h = RetSubmitHeader::spec_decode(s);
        if st.pending.contains_key(h.seqnum) {
            (
                SharedStateView { pending: st.pending.remove(h.seqnum), unlinks: st.unlinks },
                Ok(
                    UrbHeader::Submit(
                        RetSubmitHead {
                            seqnum: h.seqnum,
                            status: h.status,
                            actual_length: h.actual_length,
                            direction: st.pending[h.seqnum],
                        },
                    ),
                ),
            )
        } else {
            (st, Err(UsbipError::UnknownSeqnum(h.seqnum)))
        }
    } else if command == USBIP_RET_UNLINK {
        let h = RetUnlinkHeader::spec_decode(s);
        let next = if st.unlinks.contains_key(h.seqnum) {
            SharedStateView {
                pending: if h.status == -ECONNRESET {
                    st.pending.remove(st.unlinks[h.seqnum])
                } else {
                    st.pending
                },
                unlinks: st.unlinks.remove(h.seqnum),
            }
        } else {
            st
        };
        (next, Ok(UrbHeader::Unlink(RetUnlink { seqnum: h.seqnum, status: h.status })))
    } else {
        (st, Err(UsbipError::UnknownCommand(command)))
    }
}

impl SharedState {
    /// Nothing in flight.
    pub fn new() -> (s: Self)
        ensures
            s@.pending == Map::<u32, Direction>::empty(),
            s@.unlinks == Map::<u32, u32>::empty(),
    {
        SharedState { pending: HashMap::new(), unlinks: HashMap::new() }
    }

    /// Records a submitted URB as pending.
    pub fn register_submit(&mut self, seqnum: u32, direction: Direction)
        ensures
            final(self)@.pending == old(self)@.pending.insert(seqnum, direction),
            final(self)@.unlinks == old(self)@.unlinks,
    {
        self.pending.insert(seqnum, direction);
    }

    /// Forgets a submitted URB whose command could not be sent.
    pub fn forget_submit(&mut self, seqnum: u32)
        ensures
            final(self)@.pending == old(self)@.pending.remove(seqnum),
            final(self)@.unlinks == old(self)@.unlinks,
    {
        self.pending.remove(&seqnum);
    }

    /// Records an unlink request of the URB `unlink_seqnum`.
    pub fn register_unlink(&mut self, seqnum: u32, unlink_seqnum: u32)
        ensures
            final(self)@.pending == old(self)@.pending,
            final(self)@.unlinks == old(self)@.unlinks.insert(seqnum, unlink_seqnum),
    {
        self.unlinks.insert(seqnum, unlink_seqnum);
    }

    /// Forgets an unlink request that could not be sent.
    pub fn forget_unlink(&mut self, seqnum: u32)
        ensures
            final(self)@.pending == old(self)@.pending,
            final(self)@.unlinks == old(self)@.unlinks.remove(seqnum),
    {
        self.unlinks.remove(&seqnum);
    }

    /// Takes in the 48-byte header of a URB reply: updates what is in flight
    /// and tells what the header means, as `reply_step` states.
    pub fn on_reply_header(&mut self, header: &[u8]) -> (r: Result<UrbHeader, UsbipError>)
        requires
            header@.len() == 48,
        ensures
            (final(self)@, r) == reply_step(old(self)@, header@),
    {
        let ghost st = self@;
        let command = read_be32(header, 0);
        if command == USBIP_RET_SUBMIT {
            let h = RetSubmitHeader::read_from_bytes(header).unwrap();
            match self.pending.remove(&h.seqnum) {
                Some(direction) => {
                    assert(self@ =~= SharedStateView {
                        pending: st.pending.remove(h.seqnum),
                        unlinks: st.unlinks,
                    });
                    Ok(
                        UrbHeader::Submit(
                            RetSubmitHead {
                                seqnum: h.seqnum,
                                status: h.status,
                                actual_length: h.actual_length,
                                direction,
                            },
                        ),
                    )
                },
                None => {
                    assert(st.pending.remove(h.seqnum) =~= st.pending);
                    assert(self@ =~= st);
                    Err(UsbipError::UnknownSeqnum(h.seqnum))
                },
            }
        } else if command == USBIP_RET_UNLINK {
            let h = RetUnlinkHeader::read_from_bytes(header).unwrap();
            match self.unlinks.remove(&h.seqnum) {
                Some(target) => {
                    if h.status == -ECONNRESET {
                        self.pending.remove(&target);
                    }
                },
                None => {
                    assert(st.unlinks.remove(h.seqnum) =~= st.unlinks);
                    assert(self@ =~= st);
                },
            }
            Ok(UrbHeader::Unlink(RetUnlink { seqnum: h.seqnum, status: h.status }))
        } else {
            Err(UsbipError::UnknownCommand(command))
        }
    }
}

// --- Device list reply ---

/// Where a device list reply stands: its header, a device record, an
/// interface record of the device before, or its end.
#[derive(Debug, Clone, Copy, PartialEq, Eq, Structural)]
pub enum DevlistStage {
    Header,
    Device,
    Interface,
    Done,
}

/// Number of bytes of the next record in a device list reply.
pub open spec fn stage_len(stage: DevlistStage) -> nat {
    match stage {
        DevlistStage::Header => 12,
        DevlistStage::Device => 312,
        DevlistStage::Interface => 4,
        DevlistStage::Done => 0,
    }
}

/// Decodes an `OP_REP_DEVLIST` reply record by record, as its bytes arrive.
pub struct DevlistDecoder {
    stage: DevlistStage,
    num_devices: u32,
    devices_left: u32,
    ifaces_left: u8,
    current: Option<DeviceInfo>,
    devices: Vec<DeviceInfo>,
}

/// The abstract value of a `DevlistDecoder`: the stage; the number of devices
/// that the header announced; how many of them are not complete yet; how many
/// interface records of the device in progress are still to come; that device;
/// and the complete devices, in order.
#[verifier::ext_equal]
pub struct DevlistView {
    pub stage: DevlistStage,
    pub num_devices: u32,
    pub devices_left: u32,
    pub ifaces_left: u8,
    pub current: Option<DeviceInfoView>,
    pub devices: Seq<DeviceInfoView>,
}

impl View for DevlistDecoder {
    type V = DevlistView;

    closed spec fn view(&self) -> DevlistView {
        DevlistView {
            stage: self.stage,
            num_devices: self.num_devices,
            devices_left: self.devices_left,
            ifaces_left: self.ifaces_left,
            current: match self.current {
                Some(d) => Some(d@),
                None => None,
            },
            devices: self.devices@.map_values(|d: DeviceInfo| d@),
        }
    }
}

/// The stage that follows a complete device, when `left` devices remain.
pub open spec fn stage_after_device(left: u32) -> DevlistStage {
    if left == 0 {
        DevlistStage::Done
    } else {
        DevlistStage::Device
    }
}

/// How one record of a device list reply changes the decoder. The header
/// announces the number of devices (or ends the listing with an error); a
/// device record with no interfaces completes a device, otherwise its
/// interface records follow, each added to the device in turn.
pub open spec fn devlist_step(v: DevlistView, chunk: Seq<u8>) -> Result<DevlistView, UsbipError> {
    match v.stage {
        DevlistStage::Header => match devlist_reply_result(chunk) {
            Err(e) => Err(e),
            Ok(n) => Ok(
                DevlistView {
                    stage: stage_after_device(n),
                    num_devices: n,
                    devices_left: n,
                    ifaces_left: 0,
                    current: None,
                    devices: v.devices,
                },
            ),
        },
        DevlistStage::Device => {
            let w = WireDeviceInfo::spec_decode(chunk);
            if w.num_interfaces == 0 {
                let left = (v.devices_left - 1) as u32;
                Ok(
                    DevlistView {
                        stage: stage_after_device(left),
                        devices_left: left,
                        devices: v.devices.push(w.info_view()),
                        ..v
                    },
                )
            } else {
                Ok(
                    DevlistView {
                        stage: DevlistStage::Interface,
                        ifaces_left: w.num_interfaces,
                        current: Some(w.info_view()),
                        ..v
                    },
                )
            }
        },
        DevlistStage::Interface => {
            let i = WireInterfaceInfo::spec_decode(chunk).info();
            let cur = v.current.unwrap();
            let d = DeviceInfoView { interfaces: cur.interfaces.push(i), ..cur };
            if v.ifaces_left == 1 {
                let left = (v.devices_left - 1) as u32;
                Ok(
                    DevlistView {
                        stage: stage_after_device(left),
                        devices_left: left,
                        ifaces_left: 0,
                        current: None,
                        devices: v.devices.push(d),
                        ..v
                    },
                )
            } else {
                Ok(
                    DevlistView {
                        ifaces_left: (v.ifaces_left - 1) as u8,
                        current: Some(d),
                        ..v
                    },
                )
            }
        },
        DevlistStage::Done => Ok(v),
    }
}

/// The decoder's invariant. Past the header, the complete devices and the
/// devices left add up to the number announced; every complete device has
/// as many interfaces as its record announced, and the device in progress
/// has those it got plus those still to come.
pub open spec fn devlist_wf(v: DevlistView) -> bool {
    &&& v.stage == DevlistStage::Header ==> v.devices.len() == 0 && v.current is None
    &&& v.stage != DevlistStage::Header ==> v.devices.len() + v.devices_left == v.num_devices
    &&& v.stage == DevlistStage::Device ==> v.devices_left > 0 && v.current is None
    &&& v.stage == DevlistStage::Done ==> v.devices_left == 0 && v.current is None
    &&& v.stage == DevlistStage::Interface ==> {
        &&& v.devices_left > 0
        &&& v.ifaces_left > 0
        &&& v.current matches Some(d) && d.interfaces.len() + v.ifaces_left == d.num_interfaces
    }
    &&& forall|k: int|
        0 <= k < v.devices.len() ==> #[trigger] v.devices[k].interfaces.len()
            == v.devices[k].num_interfaces
}

/// A decoder that waits for the reply header and has nothing yet.
pub open spec fn devlist_start() -> DevlistView {
    DevlistView {
        stage: DevlistStage::Header,
        num_devices: 0,
        devices_left: 0,
        ifaces_left: 0,
        current: None,
        devices: Seq::empty(),
    }
}

impl DevlistDecoder {
    /// A decoder waiting for the reply header.
    pub fn new() -> (d: Self)
        ensures
            d@ == devlist_start(),
            devlist_wf(d@),
    {
        let d = DevlistDecoder {
            stage: DevlistStage::Header,
            num_devices: 0,
            devices_left: 0,
            ifaces_left: 0,
            current: None,
            devices: Vec::new(),
        };
        assert(d@ =~= devlist_start());
        d
    }

    /// Whether the whole reply has been decoded.
    pub fn is_done(&self) -> (r: bool)
        ensures
            r == (self@.stage == DevlistStage::Done),
    {
        self.stage == DevlistStage::Done
    }

    /// Number of bytes of the next record (0 once the reply is complete).
    pub fn bytes_needed(&self) -> (r: usize)
        ensures
            r == stage_len(self@.stage),
    {
        match self.stage {
            DevlistStage::Header => 12,
            DevlistStage::Device => 312,
            DevlistStage::Interface => 4,
            DevlistStage::Done => 0,
        }
    }

    /// Takes in the next record. On an error the decoder is left as it was.
    pub fn feed(&mut self, chunk: &[u8]) -> (r: Result<(), UsbipError>)
        requires
            devlist_wf(old(self)@),
            old(self)@.stage != DevlistStage::Done,
            chunk@.len() == stage_len(old(self)@.stage),
        ensures
            devlist_wf(final(self)@),
            match devlist_step(old(self)@, chunk@) {
                Ok(v) => r is Ok && final(self)@ == v,
                Err(e) => r == Err::<(), UsbipError>(e) && final(self)@ == old(self)@,
            },
    {
        let ghost v = self@;
        match self.stage {
            DevlistStage::Header => {
                let n = check_devlist_reply(chunk)?;
                self.num_devices = n;
                self.devices_left = n;
                self.ifaces_left = 0;
                self.stage = if n == 0 {
                    DevlistStage::Done
                } else {
                    DevlistStage::Device
                };
                Ok(())
            },
            DevlistStage::Device => {
                let w = WireDeviceInfo::read_from_bytes(chunk).unwrap();
                let dev = DeviceInfo::from_wire(&w);
                if w.num_interfaces == 0 {
                    self.devices.push(dev);
                    self.devices_left = self.devices_left - 1;
                    if self.devices_left == 0 {
                        self.stage = DevlistStage::Done;
                    }
                    assert(self@.devices =~= v.devices.push(w.info_view()));
                } else {
                    self.current = Some(dev);
                    self.ifaces_left = w.num_interfaces;
                    self.stage = DevlistStage::Interface;
                }
                Ok(())
            },
            DevlistStage::Interface => {
                let w = WireInterfaceInfo::read_from_bytes(chunk).unwrap();
                let iface = InterfaceInfo::from_wire(&w);
                let mut dev = self.current.take().unwrap();
                let ghost before = dev@;
                dev.interfaces.push(iface);
                assert(dev@ == DeviceInfoView {
                    interfaces: before.interfaces.push(w.info()),
                    ..before
                });
                if self.ifaces_left == 1 {
                    self.devices.push(dev);
                    self.devices_left = self.devices_left - 1;
                    self.ifaces_left = 0;
                    self.stage = if self.devices_left == 0 {
                        DevlistStage::Done
                    } else {
                        DevlistStage::Device
                    };
                    assert(self@.devices =~= v.devices.push(dev@));
                } else {
                    self.ifaces_left = self.ifaces_left - 1;
                    self.current = Some(dev);
                }
                Ok(())
            },
            DevlistStage::Done => Ok(()),
        }
    }

    /// The decoded devices, in the order of the reply.
    pub fn into_devices(self) -> (r: Vec<DeviceInfo>)
        requires
            self@.stage == DevlistStage::Done,
        ensures
            r@.map_values(|d: DeviceInfo| d@) == self@.devices,
    {
        self.devices
    }
}

// --- Laws ---

/// A URB submitted with direction `dir` and then answered by a `RET_SUBMIT`
/// that names it is answered with the status and length of the reply and
/// with `dir`, and afterwards it is no longer pending: what is in flight is
/// as before the submission, less that sequence number.
pub proof fn lemma_submit_then_reply(
    st: SharedStateView,
    seqnum: u32,
    dir: Direction,
    reply: RetSubmitHeader,
)
    requires
        reply.command == USBIP_RET_SUBMIT,
        reply.seqnum == seqnum,
    ensures
        ({
            let submitted = SharedStateView {
                pending: st.pending.insert(seqnum, dir),
                unlinks: st.unlinks,
            };
            let (after, r) = reply_step(submitted, reply.spec_bytes());
            &&& r == Ok::<UrbHeader, UsbipError>(
                UrbHeader::Submit(
                    RetSubmitHead {
                        seqnum,
                        status: reply.status,
                        actual_length: reply.actual_length,
                        direction: dir,
                    },
                ),
            )
            &&& after.pending == st.pending.remove(seqnum)
            &&& after.unlinks == st.unlinks
        }),
{
    RetSubmitHeader::lemma_roundtrip(reply);
    let s = reply.spec_bytes();
    assert(s.subrange(0, 4) =~= crate::endian::be32_bytes(reply.command));
    crate::endian::lemma_be32_roundtrip(reply.command);
    assert(st.pending.insert(seqnum, dir).remove(seqnum) =~= st.pending.remove(seqnum));
}

/// A URB whose command could not be sent leaves no trace: registering it
/// and forgetting it gives back what was in flight, when its sequence
/// number was not pending before.
pub proof fn lemma_forget_undoes_register(st: SharedStateView, seqnum: u32, dir: Direction)
    requires
        !st.pending.contains_key(seqnum),
    ensures
        st.pending.insert(seqnum, dir).remove(seqnum) == st.pending,
{
    assert(st.pending.insert(seqnum, dir).remove(seqnum) =~= st.pending);
}

/// An unlink request of URB `target`, answered by a `RET_UNLINK` that names
/// it, is answered with the status of the reply and is no longer in flight;
/// when that status is `-ECONNRESET` the URB was cancelled and `target` is no
/// longer pending, and otherwise the pending URBs are untouched.
pub proof fn lemma_unlink_then_reply(
    st: SharedStateView,
    seqnum: u32,
    target: u32,
    reply: RetUnlinkHeader,
)
    requires
        reply.command == USBIP_RET_UNLINK,
        reply.seqnum == seqnum,
    ensures
        ({
            let sent = SharedStateView {
                pending: st.pending,
                unlinks: st.unlinks.insert(seqnum, target),
            };
            let (after, r) = reply_step(sent, reply.spec_bytes());
            &&& r == Ok::<UrbHeader, UsbipError>(
                UrbHeader::Unlink(RetUnlink { seqnum, status: reply.status }),
            )
            &&& after.unlinks == st.unlinks.remove(seqnum)
            &&& after.pending == if reply.status == -ECONNRESET {
                st.pending.remove(target)
            } else {
                st.pending
            }
        }),
{
    RetUnlinkHeader::lemma_roundtrip(reply);
    let s = reply.spec_bytes();
    assert(s.subrange(0, 4) =~= crate::endian::be32_bytes(reply.command));
    crate::endian::lemma_be32_roundtrip(reply.command);
    assert(st.unlinks.insert(seqnum, target).remove(seqnum) =~= st.unlinks.remove(seqnum));
}

/// A reply that names no URB in flight, or carries an unknown command,
/// changes nothing.
pub proof fn lemma_rejected_reply_changes_nothing(st: SharedStateView, s: Seq<u8>)
    ensures
        reply_step(st, s).1 is Err ==> reply_step(st, s).0 == st,
{
}

/// The bus id field of an import request always ends with a NUL byte, and
/// holds the bus id itself when it is shorter than the field.
pub proof fn lemma_import_busid_field(busid: Seq<u8>)
    ensures
        import_busid_field(busid).len() == BUSID_LEN,
        import_busid_field(busid)[BUSID_LEN - 1] == 0,
        busid.len() < BUSID_LEN ==> import_busid_field(busid).take(busid.len() as int) == busid,
{
    if busid.len() < BUSID_LEN {
        assert(import_busid_field(busid).take(busid.len() as int) =~= busid);
    }
}

/// A device list reply that has been decoded to its end holds as many
/// devices as its header announced, each with as many interfaces as its
/// record announced.
pub proof fn lemma_devlist_complete(v: DevlistView)
    requires
        devlist_wf(v),
        v.stage == DevlistStage::Done,
    ensures
        v.devices.len() == v.num_devices,
        forall|k: int|
            0 <= k < v.devices.len() ==> #[trigger] v.devices[k].interfaces.len()
                == v.devices[k].num_interfaces,
{
}

// --- A whole device list reply ---

/// The records of one device in a device list reply: its device record,
/// then its interface records.
pub open spec fn device_records(w: WireDeviceInfo, ifaces: Seq<WireInterfaceInfo>) -> Seq<Seq<u8>> {
    seq![w.spec_bytes()] + ifaces.map_values(|i: WireInterfaceInfo| i.spec_bytes())
}

/// The records of the devices of a device list reply, in order.
pub open spec fn devices_records(devs: Seq<(WireDeviceInfo, Seq<WireInterfaceInfo>)>) -> Seq<
    Seq<u8>,
>
    decreases devs.len(),
{
    if devs.len() == 0 {
        Seq::empty()
    } else {
        device_records(devs[0].0, devs[0].1) + devices_records(devs.drop_first())
    }
}

/// The device that a device record and its interface records describe.
pub open spec fn listed_device(
    w: WireDeviceInfo,
    ifaces: Seq<WireInterfaceInfo>,
) -> DeviceInfoView {
    DeviceInfoView {
        interfaces: ifaces.map_values(|i: WireInterfaceInfo| i.info()),
        ..w.info_view()
    }
}

/// Feeds records to the decoder one after the other, stopping at the first error.
pub open spec fn devlist_feed_all(v: DevlistView, chunks: Seq<Seq<u8>>) -> Result<
    DevlistView,
    UsbipError,
>
    decreases chunks.len(),
{
    if chunks.len() == 0 {
        Ok(v)
    } else {
        match devlist_step(v, chunks[0]) {
            Ok(next) => devlist_feed_all(next, chunks.drop_first()),
            Err(e) => Err(e),
        }
    }
}

/// Feeding two runs of records is feeding the first, then the second.
proof fn lemma_feed_all_append(v: DevlistView, a: Seq<Seq<u8>>, b: Seq<Seq<u8>>)
    ensures
        devlist_feed_all(v, a + b) == match devlist_feed_all(v, a) {
            Ok(mid) => devlist_feed_all(mid, b),
            Err(e) => Err(e),
        },
    decreases a.len(),
{
    if a.len() > 0 {
        assert((a + b).drop_first() =~= a.drop_first() + b);
        assert((a + b)[0] == a[0]);
        if let Ok(next) = devlist_step(v, a[0]) {
            lemma_feed_all_append(next, a.drop_first(), b);
        }
    } else {
        assert(a + b =~= b);
    }
}

/// The interface records of the device in progress complete it.
proof fn lemma_feed_interfaces(v: DevlistView, cur: DeviceInfoView, ifaces: Seq<WireInterfaceInfo>)
    requires
        v.stage == DevlistStage::Interface,
        v.current == Some(cur),
        v.ifaces_left == ifaces.len(),
        ifaces.len() >= 1,
        v.devices_left >= 1,
    ensures
        devlist_feed_all(v, ifaces.map_values(|i: WireInterfaceInfo| i.spec_bytes())) == Ok::<
            DevlistView,
            UsbipError,
        >(
            DevlistView {
                stage: stage_after_device((v.devices_left - 1) as u32),
                devices_left: (v.devices_left - 1) as u32,
                ifaces_left: 0,
                current: None,
                devices: v.devices.push(
                    DeviceInfoView {
                        interfaces: cur.interfaces + ifaces.map_values(
                            |i: WireInterfaceInfo| i.info(),
                        ),
                        ..cur
                    },
                ),
                ..v
            },
        ),
    decreases ifaces.len(),
{
    let chunks = ifaces.map_values(|i: WireInterfaceInfo| i.spec_bytes());
    WireInterfaceInfo::lemma_roundtrip(ifaces[0]);
    assert(chunks[0] == ifaces[0].spec_bytes());
    assert(WireInterfaceInfo::spec_decode(chunks[0]).info() == ifaces[0].info());
    let d = DeviceInfoView { interfaces: cur.interfaces.push(ifaces[0].info()), ..cur };
    let target = DevlistView {
        stage: stage_after_device((v.devices_left - 1) as u32),
        devices_left: (v.devices_left - 1) as u32,
        ifaces_left: 0,
        current: None,
        devices: v.devices.push(
            DeviceInfoView {
                interfaces: cur.interfaces + ifaces.map_values(|i: WireInterfaceInfo| i.info()),
                ..cur
            },
        ),
        ..v
    };
    if ifaces.len() == 1 {
        assert(cur.interfaces + ifaces.map_values(|i: WireInterfaceInfo| i.info())
            =~= cur.interfaces.push(ifaces[0].info()));
        let after = DevlistView {
            stage: stage_after_device((v.devices_left - 1) as u32),
            devices_left: (v.devices_left - 1) as u32,
            ifaces_left: 0,
            current: None,
            devices: v.devices.push(d),
            ..v
        };
        assert(devlist_step(v, chunks[0]) == Ok::<DevlistView, UsbipError>(after));
        assert(after == target);
        assert(chunks.drop_first() =~= Seq::<Seq<u8>>::empty());
        assert(devlist_feed_all(after, chunks.drop_first()) == Ok::<DevlistView, UsbipError>(
            after,
        ));
    } else {
        let next = DevlistView { ifaces_left: (v.ifaces_left - 1) as u8, current: Some(d), ..v };
        assert(devlist_step(v, chunks[0]) == Ok::<DevlistView, UsbipError>(next));
        let rest = ifaces.drop_first();
        assert(chunks.drop_first() =~= rest.map_values(|i: WireInterfaceInfo| i.spec_bytes()));
        lemma_feed_interfaces(next, d, rest);
        assert(d.interfaces + rest.map_values(|i: WireInterfaceInfo| i.info()) =~= cur.interfaces
            + ifaces.map_values(|i: WireInterfaceInfo| i.info()));
        assert(devlist_feed_all(next, chunks.drop_first()) == Ok::<DevlistView, UsbipError>(
            target,
        ));
    }
}

/// The records of one device complete it.
proof fn lemma_feed_device(v: DevlistView, w: WireDeviceInfo, ifaces: Seq<WireInterfaceInfo>)
    requires
        v.stage == DevlistStage::Device,
        v.devices_left >= 1,
        v.ifaces_left == 0,
        v.current is None,
        w.num_interfaces == ifaces.len(),
    ensures
        devlist_feed_all(v, device_records(w, ifaces)) == Ok::<DevlistView, UsbipError>(
            DevlistView {
                stage: stage_after_device((v.devices_left - 1) as u32),
                devices_left: (v.devices_left - 1) as u32,
                devices: v.devices.push(listed_device(w, ifaces)),
                ..v
            },
        ),
{
    let chunks = device_records(w, ifaces);
    let rest = ifaces.map_values(|i: WireInterfaceInfo| i.spec_bytes());
    WireDeviceInfo::lemma_roundtrip(w);
    assert(chunks[0] == w.spec_bytes());
    assert(WireDeviceInfo::spec_decode(chunks[0]) == w);
    assert(chunks.drop_first() =~= rest);
    let target = DevlistView {
        stage: stage_after_device((v.devices_left - 1) as u32),
        devices_left: (v.devices_left - 1) as u32,
        devices: v.devices.push(listed_device(w, ifaces)),
        ..v
    };
    if ifaces.len() == 0 {
        assert(rest =~= Seq::<Seq<u8>>::empty());
        assert(ifaces.map_values(|i: WireInterfaceInfo| i.info()) =~= Seq::<
            InterfaceInfo,
        >::empty());
        assert(listed_device(w, ifaces) == w.info_view());
        assert(devlist_step(v, chunks[0]) == Ok::<DevlistView, UsbipError>(target));
        assert(devlist_feed_all(target, rest) == Ok::<DevlistView, UsbipError>(target));
    } else {
        let next = DevlistView {
            stage: DevlistStage::Interface,
            ifaces_left: w.num_interfaces,
            current: Some(w.info_view()),
            ..v
        };
        assert(devlist_step(v, chunks[0]) == Ok::<DevlistView, UsbipError>(next));
        lemma_feed_interfaces(next, w.info_view(), ifaces);
        assert(w.info_view().interfaces + ifaces.map_values(|i: WireInterfaceInfo| i.info())
            =~= ifaces.map_values(|i: WireInterfaceInfo| i.info()));
        assert(DeviceInfoView {
            interfaces: w.info_view().interfaces + ifaces.map_values(
                |i: WireInterfaceInfo| i.info(),
            ),
            ..w.info_view()
        } == listed_device(w, ifaces));
        assert(devlist_feed_all(next, rest) == Ok::<DevlistView, UsbipError>(target));
    }
}

/// The records of the remaining devices complete the listing.
proof fn lemma_feed_devices(v: DevlistView, devs: Seq<(WireDeviceInfo, Seq<WireInterfaceInfo>)>)
    requires
        v.stage == stage_after_device(v.devices_left),
        v.devices_left == devs.len(),
        v.ifaces_left == 0,
        v.current is None,
        forall|k: int|
            0 <= k < devs.len() ==> (#[trigger] devs[k]).0.num_interfaces == devs[k].1.len(),
    ensures
        devlist_feed_all(v, devices_records(devs)) == Ok::<DevlistView, UsbipError>(
            DevlistView {
                stage: DevlistStage::Done,
                devices_left: 0,
                devices: v.devices + devs.map_values(
                    |d: (WireDeviceInfo, Seq<WireInterfaceInfo>)| listed_device(d.0, d.1),
                ),
                ..v
            },
        ),
    decreases devs.len(),
{
    let listed = devs.map_values(
        |d: (WireDeviceInfo, Seq<WireInterfaceInfo>)| listed_device(d.0, d.1),
    );
    if devs.len() == 0 {
        assert(v.devices + listed =~= v.devices);
    } else {
        let first = device_records(devs[0].0, devs[0].1);
        lemma_feed_all_append(v, first, devices_records(devs.drop_first()));
        lemma_feed_device(v, devs[0].0, devs[0].1);
        let mid = DevlistView {
            stage: stage_after_device((v.devices_left - 1) as u32),
            devices_left: (v.devices_left - 1) as u32,
            devices: v.devices.push(listed_device(devs[0].0, devs[0].1)),
            ..v
        };
        let rest = devs.drop_first();
        assert forall|k: int| 0 <= k < rest.len() implies (#[trigger] rest[k]).0.num_interfaces
            == rest[k].1.len() by {
            assert(rest[k] == devs[k + 1]);
        }
        lemma_feed_devices(mid, rest);
        assert(mid.devices + rest.map_values(
            |d: (WireDeviceInfo, Seq<WireInterfaceInfo>)| listed_device(d.0, d.1),
        ) =~= v.devices + listed);
    }
}

/// A device list reply made of a header that announces `n` devices and, for
/// each of the `n` devices, its record followed by as many interface records
/// as it announces, is decoded to exactly those devices, in order, each with
/// its interfaces in order.
pub proof fn lemma_devlist_reads_back(
    header: OpRepDevlistHeader,
    devs: Seq<(WireDeviceInfo, Seq<WireInterfaceInfo>)>,
)
    requires
        header.header.code == OP_REP_DEVLIST,
        header.header.status == 0,
        header.num_devices == devs.len(),
        forall|k: int|
            0 <= k < devs.len() ==> (#[trigger] devs[k]).0.num_interfaces == devs[k].1.len(),
    ensures
        devlist_feed_all(
            devlist_start(),
            seq![header.spec_bytes()] + devices_records(devs),
        ) == Ok::<
            DevlistView,
            UsbipError,
        >(
            DevlistView {
                stage: DevlistStage::Done,
                num_devices: header.num_devices,
                devices_left: 0,
                ifaces_left: 0,
                current: None,
                devices: devs.map_values(
                    |d: (WireDeviceInfo, Seq<WireInterfaceInfo>)| listed_device(d.0, d.1),
                ),
            },
        ),
{
    OpRepDevlistHeader::lemma_roundtrip(header);
    let n = header.num_devices;
    let after_header = DevlistView {
        stage: stage_after_device(n),
        num_devices: n,
        devices_left: n,
        ifaces_left: 0,
        current: None,
        devices: Seq::empty(),
    };
    assert(devlist_reply_result(header.spec_bytes()) == Ok::<u32, UsbipError>(n));
    assert(devlist_step(devlist_start(), header.spec_bytes()) == Ok::<DevlistView, UsbipError>(
        after_header,
    ));
    let first = seq![header.spec_bytes()];
    lemma_feed_all_append(devlist_start(), first, devices_records(devs));
    assert(first.drop_first() =~= Seq::<Seq<u8>>::empty());
    assert(first[0] == header.spec_bytes());
    assert(devlist_feed_all(after_header, first.drop_first()) == Ok::<DevlistView, UsbipError>(
        after_header,
    ));
    assert(devlist_feed_all(devlist_start(), first) == Ok::<DevlistView, UsbipError>(
        after_header,
    ));
    lemma_feed_devices(after_header, devs);
    assert(Seq::<DeviceInfoView>::empty() + devs.map_values(
        |d: (WireDeviceInfo, Seq<WireInterfaceInfo>)| listed_device(d.0, d.1),
    ) =~= devs.map_values(|d: (WireDeviceInfo, Seq<WireInterfaceInfo>)| listed_device(d.0, d.1)));
}

} // verus!
