//! Constants and decoded values of the USB/IP protocol.
use vstd::prelude::*;
use vstd::utf8::{
    decode_utf8, decode_utf8_encode_utf8, encode_scalar, encode_utf8, valid_utf8,
};

verus! {

/// Protocol version.
pub const USBIP_VERSION: u16 = 0x0111;

/// Operation code: request the list of exported devices.
pub const OP_REQ_DEVLIST: u16 = 0x8005;

/// Operation code: reply with the list of exported devices.
pub const OP_REP_DEVLIST: u16 = 0x0005;

/// Operation code: request to import a device.
pub const OP_REQ_IMPORT: u16 = 0x8003;

/// Operation code: reply to an import request.
pub const OP_REP_IMPORT: u16 = 0x0003;

/// URB command: submit a URB.
pub const USBIP_CMD_SUBMIT: u32 = 1;

/// URB reply: result of a submitted URB.
pub const USBIP_RET_SUBMIT: u32 = 3;

/// URB command: unlink (cancel) a submitted URB.
pub const USBIP_CMD_UNLINK: u32 = 2;

/// URB reply: result of an unlink request.
pub const USBIP_RET_UNLINK: u32 = 4;

/// Length of the sysfs path field of a device record.
pub const PATH_LEN: usize = 256;

/// Length of the bus id field of a device record.
pub const BUSID_LEN: usize = 32;

/// USB device information from a USB/IP server.
#[derive(Debug, Clone)]
pub struct DeviceInfo {
    pub path: String,
    pub busid: String,
    pub busnum: u32,
    pub devnum: u32,
    pub speed: u32,
    pub id_vendor: u16,
    pub id_product: u16,
    pub bcd_device: u16,
    pub device_class: u8,
    pub device_sub_class: u8,
    pub device_protocol: u8,
    pub configuration_value: u8,
    pub num_configurations: u8,
    pub num_interfaces: u8,
    pub interfaces: Vec<InterfaceInfo>,
}

/// USB interface information.
#[derive(Debug, Clone, Copy, PartialEq, Eq, Structural)]
pub struct InterfaceInfo {
    pub class: u8,
    pub sub_class: u8,
    pub protocol: u8,
}

/// A `DeviceInfo` with its text fields as characters and its interfaces as a sequence.
pub struct DeviceInfoView {
    pub path: Seq<char>,
    pub busid: Seq<char>,
    pub busnum: u32,
    pub devnum: u32,
    pub speed: u32,
    pub id_vendor: u16,
    pub id_product: u16,
    pub bcd_device: u16,
    pub device_class: u8,
    pub device_sub_class: u8,
    pub device_protocol: u8,
    pub configuration_value: u8,
    pub num_configurations: u8,
    pub num_interfaces: u8,
    pub interfaces: Seq<InterfaceInfo>,
}

impl View for DeviceInfo {
    type V = DeviceInfoView;

    open spec fn view(&self) -> DeviceInfoView {
        DeviceInfoView {
            path: self.path@,
            busid: self.busid@,
            busnum: self.busnum,
            devnum: self.devnum,
            speed: self.speed,
            id_vendor: self.id_vendor,
            id_product: self.id_product,
            bcd_device: self.bcd_device,
            device_class: self.device_class,
            device_sub_class: self.device_sub_class,
            device_protocol: self.device_protocol,
            configuration_value: self.configuration_value,
            num_configurations: self.num_configurations,
            num_interfaces: self.num_interfaces,
            interfaces: self.interfaces@,
        }
    }
}

/// USB transfer direction.
#[derive(Debug, Clone, Copy, PartialEq, Eq, Structural)]
pub enum Direction {
    Out,
    In,
}

/// The number that stands for a direction on the wire (`Out` 0, `In` 1).
pub open spec fn direction_code(d: Direction) -> u32 {
    match d {
        Direction::Out => 0,
        Direction::In => 1,
    }
}

impl Direction {
    /// The number that stands for this direction on the wire.
    pub fn code(self) -> (r: u32)
        ensures
            r == direction_code(self),
    {
        match self {
            Direction::Out => 0,
            Direction::In => 1,
        }
    }
}

/// Response to a submitted URB.
#[derive(Debug)]
pub struct RetSubmit {
    pub seqnum: u32,
    pub status: i32,
    pub actual_length: u32,
    pub data: Vec<u8>,
    pub direction: Direction,
}

/// Response to an unlink request.
#[derive(Debug, Clone, Copy, PartialEq, Eq, Structural)]
pub struct RetUnlink {
    pub seqnum: u32,
    pub status: i32,
}

/// A response received from the USB/IP server.
#[derive(Debug)]
pub enum UrbResponse {
    Submit(RetSubmit),
    Unlink(RetUnlink),
}

/// What the lossy UTF-8 decoding of `std` (`String::from_utf8_lossy`) makes of
/// `bytes`: each invalid sequence becomes U+FFFD.
pub uninterp spec fn utf8_lossy(bytes: Seq<u8>) -> Seq<char>;

/// Calls `String::from_utf8_lossy` and takes the text as an owned `String`.
/// The contract claims that the text depends on the bytes alone (`utf8_lossy`),
/// that valid UTF-8 is decoded unchanged, and that bytes holding no 0 give a
/// text holding no NUL character: the documentation of `from_utf8_lossy`
/// says that only invalid sequences are replaced, and with U+FFFD, while the
/// one UTF-8 encoding of NUL is the byte 0. Which sequences count as one
/// invalid sequence, and so how many U+FFFD appear, is left unsaid.
#[verifier::external_body]
fn from_utf8_lossy(bytes: &[u8]) -> (s: String)
    ensures
        s@ == utf8_lossy(bytes@),
        valid_utf8(bytes@) ==> s@ == decode_utf8(bytes@),
        (forall|j: int| 0 <= j < bytes@.len() ==> bytes@[j] != 0) ==> forall|i: int|
            0 <= i < s@.len() ==> s@[i] != '\0',
{
    String::from_utf8_lossy(bytes).into_owned()
}

/// Number of bytes before the first NUL of `s`, or `s.len()` if there is none.
pub open spec fn cstr_len(s: Seq<u8>) -> nat
    decreases s.len(),
{
    if s.len() == 0 {
        0
    } else if s[0] == 0 {
        0
    } else {
        1 + cstr_len(s.drop_first())
    }
}

/// `cstr_len(s)` is the position of the first NUL byte, or the length.
pub proof fn lemma_cstr_len(s: Seq<u8>)
    ensures
        cstr_len(s) <= s.len(),
        forall|j: int| 0 <= j < cstr_len(s) ==> s[j] != 0,
        cstr_len(s) < s.len() ==> s[cstr_len(s) as int] == 0,
    decreases s.len(),
{
    if s.len() > 0 && s[0] != 0 {
        lemma_cstr_len(s.drop_first());
        assert forall|j: int| 0 <= j < cstr_len(s) implies s[j] != 0 by {
            if j > 0 {
                assert(s[j] == s.drop_first()[j - 1]);
            }
        }
    }
}

/// The bytes of a NUL-padded byte field before its first NUL.
pub open spec fn cstr_prefix(bytes: Seq<u8>) -> Seq<u8> {
    bytes.take(cstr_len(bytes) as int)
}

/// The text of a NUL-padded byte field: the bytes before the first NUL,
/// decoded as UTF-8 when they are valid UTF-8, and decoded lossily otherwise.
pub open spec fn spec_bytes_to_string(bytes: Seq<u8>) -> Seq<char> {
    let prefix = cstr_prefix(bytes);
    if valid_utf8(prefix) {
        decode_utf8(prefix)
    } else {
        utf8_lossy(prefix)
    }
}

/// A NUL character in a text puts a NUL byte into its UTF-8 encoding; the
/// result is the position of that byte.
proof fn lemma_nul_char_encodes_nul(chars: Seq<char>, i: int) -> (j: int)
    requires
        0 <= i < chars.len(),
        chars[i] == '\0',
    ensures
        0 <= j < encode_utf8(chars).len(),
        encode_utf8(chars)[j] == 0,
    decreases chars.len(),
{
    let first = encode_scalar(chars[0] as u32);
    if i == 0 {
        let z: u32 = 0;
        assert((z & 0x7Fu32) as u8 == 0) by (bit_vector)
            requires
                z == 0,
        ;
        assert(first == seq![0u8]);
        0
    } else {
        let k = lemma_nul_char_encodes_nul(chars.drop_first(), i - 1);
        assert(encode_utf8(chars) == first + encode_utf8(chars.drop_first()));
        first.len() + k
    }
}

/// When the bytes of a field before its first NUL are valid UTF-8, its text
/// encodes back to exactly those bytes and holds no NUL character.
pub proof fn lemma_field_text(bytes: Seq<u8>)
    ensures
        valid_utf8(cstr_prefix(bytes)) ==> encode_utf8(spec_bytes_to_string(bytes)) == cstr_prefix(
            bytes,
        ),
        valid_utf8(cstr_prefix(bytes)) ==> forall|i: int|
            0 <= i < spec_bytes_to_string(bytes).len() ==> #[trigger] spec_bytes_to_string(
                bytes,
            )[i] != '\0',
{
    let prefix = cstr_prefix(bytes);
    if valid_utf8(prefix) {
        lemma_cstr_len(bytes);
        decode_utf8_encode_utf8(prefix);
        let text = spec_bytes_to_string(bytes);
        assert forall|i: int| 0 <= i < text.len() implies #[trigger] text[i] != '\0' by {
            if text[i] == '\0' {
                let j = lemma_nul_char_encodes_nul(text, i);
                assert(prefix[j] == bytes[j]);
            }
        }
    }
}

/// The text of a NUL-padded byte field.
pub fn bytes_to_string(bytes: &[u8]) -> (s: String)
    ensures
        s@ == spec_bytes_to_string(bytes@),
        s@ == utf8_lossy(cstr_prefix(bytes@)),
        valid_utf8(cstr_prefix(bytes@)) ==> s@ == decode_utf8(cstr_prefix(bytes@)),
        valid_utf8(cstr_prefix(bytes@)) ==> encode_utf8(s@) == cstr_prefix(bytes@),
        forall|i: int| 0 <= i < s@.len() ==> s@[i] != '\0',
{
    let mut end: usize = 0;
    while end < bytes.len() && bytes[end] != 0
        invariant
            end <= bytes@.len(),
            forall|j: int| 0 <= j < end ==> bytes@[j] != 0,
        decreases bytes@.len() - end,
    {
        end = end + 1;
    }
    proof {
        lemma_cstr_len(bytes@);
        let c = cstr_len(bytes@);
        if c < end {
            assert(bytes@[c as int] == 0);
        }
        if end < c {
            assert(bytes@[end as int] != 0);
        }
        lemma_field_text(bytes@);
    }
    let prefix = vstd::slice::slice_subrange(bytes, 0, end);
    assert(prefix@ =~= cstr_prefix(bytes@));
    assert(forall|j: int| 0 <= j < prefix@.len() ==> prefix@[j] != 0);
    let s = from_utf8_lossy(prefix);
    s
}

} // verus!
