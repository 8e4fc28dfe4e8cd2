//! Byte layouts of the USB/IP messages. All integers travel in network byte
//! order; every layout is a fixed number of bytes. Each layout has an
//! encoder (`to_bytes`), a decoder (`read_from_bytes`), and two laws: decoding
//! an encoding gives the value back, and the bytes a value decodes from are
//! exactly its encoding.
use vstd::prelude::*;
use crate::usbip::protocol::{
    bytes_to_string, spec_bytes_to_string, DeviceInfo, DeviceInfoView, InterfaceInfo,
};
use crate::endian::{
    be16_bytes, be16_value, be32_bytes, be32_value, be_i32_bytes, be_i32_value,
    lemma_be16_bytes_determined, lemma_be16_roundtrip, lemma_be32_bytes_determined,
    lemma_be32_roundtrip, lemma_be_i32_bytes_determined, lemma_be_i32_roundtrip, push_be16,
    push_be32, push_be_i32, push_bytes, read_array, read_be16, read_be32, read_be_i32,
};

verus! {

broadcast use vstd::array::group_array_axioms;

/// Common header of the operation messages (8 bytes).
pub struct OpHeader {
    pub version: u16,
    pub code: u16,
    pub status: u32,
}

impl OpHeader {
    /// The 8 bytes of this value on the wire.
    pub open spec fn spec_bytes(self) -> Seq<u8> {
        be16_bytes(self.version)
            + be16_bytes(self.code)
            + be32_bytes(self.status)
    }

    /// `h` is what the 8 bytes `s` hold.
    pub open spec fn decodes_to(s: Seq<u8>, h: Self) -> bool {
        &&& s.len() == 8
        &&& h.version == be16_value(s.subrange(0, 2))
        &&& h.code == be16_value(s.subrange(2, 4))
        &&& h.status == be32_value(s.subrange(4, 8))
    }

    /// The value that the bytes `s` hold (meaningful when `s` has the layout's length).
    pub open spec fn spec_decode(s: Seq<u8>) -> Self {
        choose|h: Self| Self::decodes_to(s, h)
    }

    /// Encodes the value.
    pub fn to_bytes(&self) -> (r: Vec<u8>)
        ensures
            r@ == self.spec_bytes(),
    {
        let mut out: Vec<u8> = Vec::new();
        self.write_to(&mut out);
        assert(out@ =~= self.spec_bytes());
        out
    }

    /// Appends the encoding of the value to `out`.
    pub fn write_to(&self, out: &mut Vec<u8>)
        ensures
            final(out)@ == old(out)@ + self.spec_bytes(),
    {
        let ghost start = out@;
        let ghost mut expected = start;
        push_be16(out, self.version);
        proof {
            expected = expected + be16_bytes(self.version);
        }
        assert(out@ =~= expected);
        push_be16(out, self.code);
        proof {
            expected = expected + be16_bytes(self.code);
        }
        assert(out@ =~= expected);
        push_be32(out, self.status);
        proof {
            expected = expected + be32_bytes(self.status);
        }
        assert(out@ =~= expected);
        assert(expected =~= start + self.spec_bytes());
    }

    /// Decodes the value from the 8 bytes at `off`.
    pub fn decode_at(bytes: &[u8], off: usize) -> (r: Self)
        requires
            off + 8 <= bytes@.len(),
        ensures
            Self::decodes_to(bytes@.subrange(off as int, off + 8), r),
            r.version == be16_value(bytes@.subrange(off as int, off + 2)),
            r.code == be16_value(bytes@.subrange(off + 2, off + 4)),
            r.status == be32_value(bytes@.subrange(off + 4, off + 8)),
    {
        let len = bytes.len();
        assert(off + 8 <= len);
        let r = OpHeader {
            version: read_be16(bytes, off),
            code: read_be16(bytes, off + 2),
            status: read_be32(bytes, off + 4),
        };
        let ghost s = bytes@.subrange(off as int, off + 8);
        assert(bytes@.subrange(off as int, off + 2) =~= s.subrange(0, 2));
        assert(bytes@.subrange(off + 2, off + 4) =~= s.subrange(2, 4));
        assert(bytes@.subrange(off + 4, off + 8) =~= s.subrange(4, 8));
        r
    }

    /// Decodes the value from exactly 8 bytes; `None` for any other length.
    pub fn read_from_bytes(bytes: &[u8]) -> (r: Option<Self>)
        ensures
            r is Some <==> bytes@.len() == 8,
            r matches Some(h) ==> Self::decodes_to(bytes@, h) && h == Self::spec_decode(bytes@),
            r matches Some(h) ==> h.version == be16_value(bytes@.subrange(0, 2)),
            r matches Some(h) ==> h.code == be16_value(bytes@.subrange(2, 4)),
            r matches Some(h) ==> h.status == be32_value(bytes@.subrange(4, 8)),
    {
        if bytes.len() != 8 {
            return None;
        }
        let r = Self::decode_at(bytes, 0);
        assert(bytes@.subrange(0, 8) =~= bytes@);
        proof {
            Self::lemma_bytes_determined(bytes@, r);
        }
        Some(r)
    }

    /// The encoding is 8 bytes long and carries each field at its offset
    /// in the protocol's layout, integers in network byte order.
    pub proof fn lemma_layout(h: Self)
        ensures
            h.spec_bytes().len() == 8,
            h.spec_bytes().subrange(0, 2) == be16_bytes(h.version),
            h.spec_bytes().subrange(2, 4) == be16_bytes(h.code),
            h.spec_bytes().subrange(4, 8) == be32_bytes(h.status),
    {
        let s = h.spec_bytes();
        assert(s.subrange(0, 2) =~= be16_bytes(h.version));
        assert(s.subrange(2, 4) =~= be16_bytes(h.code));
        assert(s.subrange(4, 8) =~= be32_bytes(h.status));
    }

    /// Decoding the encoding of a value gives the value back.
    pub proof fn lemma_roundtrip(h: Self)
        ensures
            Self::decodes_to(h.spec_bytes(), h),
            Self::spec_decode(h.spec_bytes()) == h,
    {
        let s = h.spec_bytes();
        lemma_be16_roundtrip(h.version);
        assert(s.subrange(0, 2) =~= be16_bytes(h.version));
        lemma_be16_roundtrip(h.code);
        assert(s.subrange(2, 4) =~= be16_bytes(h.code));
        lemma_be32_roundtrip(h.status);
        assert(s.subrange(4, 8) =~= be32_bytes(h.status));
        Self::lemma_bytes_determined(s, h);
    }

    /// A value decoded from 8 bytes encodes to those same bytes, and it
    /// is the only value that decodes from them.
    pub proof fn lemma_bytes_determined(s: Seq<u8>, h: Self)
        requires
            Self::decodes_to(s, h),
        ensures
            h.spec_bytes() == s,
            forall|g: Self| #[trigger] Self::decodes_to(s, g) ==> g == h,
            Self::spec_decode(s) == h,
    {
        lemma_be16_bytes_determined(s.subrange(0, 2));
        lemma_be16_bytes_determined(s.subrange(2, 4));
        lemma_be32_bytes_determined(s.subrange(4, 8));
        assert(h.spec_bytes() =~= s);
        assert forall|g: Self| #[trigger] Self::decodes_to(s, g) implies g == h by {
        }
    }
}

/// `OP_REQ_IMPORT` request (40 bytes).
pub struct OpReqImport {
    pub header: OpHeader,
    pub busid: [u8; 32],
}

impl OpReqImport {
    /// The 40 bytes of this value on the wire.
    pub open spec fn spec_bytes(self) -> Seq<u8> {
        self.header.spec_bytes()
            + self.busid@
    }

    /// `h` is what the 40 bytes `s` hold.
    pub open spec fn decodes_to(s: Seq<u8>, h: Self) -> bool {
        &&& s.len() == 40
        &&& OpHeader::decodes_to(s.subrange(0, 8), h.header)
        &&& h.busid@ == s.subrange(8, 40)
    }

    /// The value that the bytes `s` hold (meaningful when `s` has the layout's length).
    pub open spec fn spec_decode(s: Seq<u8>) -> Self {
        choose|h: Self| Self::decodes_to(s, h)
    }

    /// Encodes the value.
    pub fn to_bytes(&self) -> (r: Vec<u8>)
        ensures
            r@ == self.spec_bytes(),
    {
        let mut out: Vec<u8> = Vec::new();
        self.write_to(&mut out);
        assert(out@ =~= self.spec_bytes());
        out
    }

    /// Appends the encoding of the value to `out`.
    pub fn write_to(&self, out: &mut Vec<u8>)
        ensures
            final(out)@ == old(out)@ + self.spec_bytes(),
    {
        let ghost start = out@;
        let ghost mut expected = start;
        self.header.write_to(out);
        proof {
            expected = expected + self.header.spec_bytes();
        }
        assert(out@ =~= expected);
        push_bytes(out, &self.busid);
        proof {
            expected = expected + self.busid@;
        }
        assert(out@ =~= expected);
        assert(expected =~= start + self.spec_bytes());
    }

    /// Decodes the value from the 40 bytes at `off`.
    pub fn decode_at(bytes: &[u8], off: usize) -> (r: Self)
        requires
            off + 40 <= bytes@.len(),
        ensures
            Self::decodes_to(bytes@.subrange(off as int, off + 40), r),
            r.header.version == be16_value(bytes@.subrange(off as int, off + 2)),
            r.header.code == be16_value(bytes@.subrange(off + 2, off + 4)),
            r.header.status == be32_value(bytes@.subrange(off + 4, off + 8)),
            r.busid@ == bytes@.subrange(off + 8, off + 40),
    {
        let len = bytes.len();
        assert(off + 40 <= len);
        let r = OpReqImport {
            header: OpHeader::decode_at(bytes, off),
            busid: read_array(bytes, off + 8),
        };
        let ghost s = bytes@.subrange(off as int, off + 40);
        assert(bytes@.subrange(off as int, off + 8) =~= s.subrange(0, 8));
        assert(bytes@.subrange(off + 8, off + 40) =~= s.subrange(8, 40));
        r
    }

    /// Decodes the value from exactly 40 bytes; `None` for any other length.
    pub fn read_from_bytes(bytes: &[u8]) -> (r: Option<Self>)
        ensures
            r is Some <==> bytes@.len() == 40,
            r matches Some(h) ==> Self::decodes_to(bytes@, h) && h == Self::spec_decode(bytes@),
            r matches Some(h) ==> h.header.version == be16_value(bytes@.subrange(0, 2)),
            r matches Some(h) ==> h.header.code == be16_value(bytes@.subrange(2, 4)),
            r matches Some(h) ==> h.header.status == be32_value(bytes@.subrange(4, 8)),
            r matches Some(h) ==> h.busid@ == bytes@.subrange(8, 40),
    {
        if bytes.len() != 40 {
            return None;
        }
        let r = Self::decode_at(bytes, 0);
        assert(bytes@.subrange(0, 40) =~= bytes@);
        proof {
            Self::lemma_bytes_determined(bytes@, r);
        }
        Some(r)
    }

    /// The encoding is 40 bytes long and carries each field at its offset
    /// in the protocol's layout, integers in network byte order.
    pub proof fn lemma_layout(h: Self)
        ensures
            h.spec_bytes().len() == 40,
            h.spec_bytes().subrange(0, 2) == be16_bytes(h.header.version),
            h.spec_bytes().subrange(2, 4) == be16_bytes(h.header.code),
            h.spec_bytes().subrange(4, 8) == be32_bytes(h.header.status),
            h.spec_bytes().subrange(8, 40) == h.busid@,
    {
        let s = h.spec_bytes();
        assert(s.subrange(0, 8) =~= h.header.spec_bytes());
        assert(s.subrange(0, 2) =~= be16_bytes(h.header.version));
        assert(s.subrange(2, 4) =~= be16_bytes(h.header.code));
        assert(s.subrange(4, 8) =~= be32_bytes(h.header.status));
        assert(s.subrange(8, 40) =~= h.busid@);
    }

    /// Decoding the encoding of a value gives the value back.
    pub proof fn lemma_roundtrip(h: Self)
        ensures
            Self::decodes_to(h.spec_bytes(), h),
            Self::spec_decode(h.spec_bytes()) == h,
    {
        let s = h.spec_bytes();
        OpHeader::lemma_roundtrip(h.header);
        assert(s.subrange(0, 8) =~= h.header.spec_bytes());
        assert(s.subrange(8, 40) =~= h.busid@);
        Self::lemma_bytes_determined(s, h);
    }

    /// A value decoded from 40 bytes encodes to those same bytes, and it
    /// is the only value that decodes from them.
    pub proof fn lemma_bytes_determined(s: Seq<u8>, h: Self)
        requires
            Self::decodes_to(s, h),
        ensures
            h.spec_bytes() == s,
            forall|g: Self| #[trigger] Self::decodes_to(s, g) ==> g == h,
            Self::spec_decode(s) == h,
    {
        OpHeader::lemma_bytes_determined(s.subrange(0, 8), h.header);
        assert(h.header.spec_bytes() == s.subrange(0, 8));
        assert(h.spec_bytes() =~= s);
        assert forall|g: Self| #[trigger] Self::decodes_to(s, g) implies g == h by {
            assert(g.busid =~= h.busid);
        }
    }
}

/// Header of the `OP_REP_DEVLIST` reply (12 bytes).
pub struct OpRepDevlistHeader {
    pub header: OpHeader,
    pub num_devices: u32,
}

impl OpRepDevlistHeader {
    /// The 12 bytes of this value on the wire.
    pub open spec fn spec_bytes(self) -> Seq<u8> {
        self.header.spec_bytes()
            + be32_bytes(self.num_devices)
    }

    /// `h` is what the 12 bytes `s` hold.
    pub open spec fn decodes_to(s: Seq<u8>, h: Self) -> bool {
        &&& s.len() == 12
        &&& OpHeader::decodes_to(s.subrange(0, 8), h.header)
        &&& h.num_devices == be32_value(s.subrange(8, 12))
    }

    /// The value that the bytes `s` hold (meaningful when `s` has the layout's length).
    pub open spec fn spec_decode(s: Seq<u8>) -> Self {
        choose|h: Self| Self::decodes_to(s, h)
    }

    /// Encodes the value.
    pub fn to_bytes(&self) -> (r: Vec<u8>)
        ensures
            r@ == self.spec_bytes(),
    {
        let mut out: Vec<u8> = Vec::new();
        self.write_to(&mut out);
        assert(out@ =~= self.spec_bytes());
        out
    }

    /// Appends the encoding of the value to `out`.
    pub fn write_to(&self, out: &mut Vec<u8>)
        ensures
            final(out)@ == old(out)@ + self.spec_bytes(),
    {
        let ghost start = out@;
        let ghost mut expected = start;
        self.header.write_to(out);
        proof {
            expected = expected + self.header.spec_bytes();
        }
        assert(out@ =~= expected);
        push_be32(out, self.num_devices);
        proof {
            expected = expected + be32_bytes(self.num_devices);
        }
        assert(out@ =~= expected);
        assert(expected =~= start + self.spec_bytes());
    }

    /// Decodes the value from the 12 bytes at `off`.
    pub fn decode_at(bytes: &[u8], off: usize) -> (r: Self)
        requires
            off + 12 <= bytes@.len(),
        ensures
            Self::decodes_to(bytes@.subrange(off as int, off + 12), r),
            r.header.version == be16_value(bytes@.subrange(off as int, off + 2)),
            r.header.code == be16_value(bytes@.subrange(off + 2, off + 4)),
            r.header.status == be32_value(bytes@.subrange(off + 4, off + 8)),
            r.num_devices == be32_value(bytes@.subrange(off + 8, off + 12)),
    {
        let len = bytes.len();
        assert(off + 12 <= len);
        let r = OpRepDevlistHeader {
            header: OpHeader::decode_at(bytes, off),
            num_devices: read_be32(bytes, off + 8),
        };
        let ghost s = bytes@.subrange(off as int, off + 12);
        assert(bytes@.subrange(off as int, off + 8) =~= s.subrange(0, 8));
        assert(bytes@.subrange(off + 8, off + 12) =~= s.subrange(8, 12));
        r
    }

    /// Decodes the value from exactly 12 bytes; `None` for any other length.
    pub fn read_from_bytes(bytes: &[u8]) -> (r: Option<Self>)
        ensures
            r is Some <==> bytes@.len() == 12,
            r matches Some(h) ==> Self::decodes_to(bytes@, h) && h == Self::spec_decode(bytes@),
            r matches Some(h) ==> h.header.version == be16_value(bytes@.subrange(0, 2)),
            r matches Some(h) ==> h.header.code == be16_value(bytes@.subrange(2, 4)),
            r matches Some(h) ==> h.header.status == be32_value(bytes@.subrange(4, 8)),
            r matches Some(h) ==> h.num_devices == be32_value(bytes@.subrange(8, 12)),
    {
        if bytes.len() != 12 {
            return None;
        }
        let r = Self::decode_at(bytes, 0);
        assert(bytes@.subrange(0, 12) =~= bytes@);
        proof {
            Self::lemma_bytes_determined(bytes@, r);
        }
        Some(r)
    }

    /// The encoding is 12 bytes long and carries each field at its offset
    /// in the protocol's layout, integers in network byte order.
    pub proof fn lemma_layout(h: Self)
        ensures
            h.spec_bytes().len() == 12,
            h.spec_bytes().subrange(0, 2) == be16_bytes(h.header.version),
            h.spec_bytes().subrange(2, 4) == be16_bytes(h.header.code),
            h.spec_bytes().subrange(4, 8) == be32_bytes(h.header.status),
            h.spec_bytes().subrange(8, 12) == be32_bytes(h.num_devices),
    {
        let s = h.spec_bytes();
        assert(s.subrange(0, 8) =~= h.header.spec_bytes());
        assert(s.subrange(0, 2) =~= be16_bytes(h.header.version));
        assert(s.subrange(2, 4) =~= be16_bytes(h.header.code));
        assert(s.subrange(4, 8) =~= be32_bytes(h.header.status));
        assert(s.subrange(8, 12) =~= be32_bytes(h.num_devices));
    }

    /// Decoding the encoding of a value gives the value back.
    pub proof fn lemma_roundtrip(h: Self)
        ensures
            Self::decodes_to(h.spec_bytes(), h),
            Self::spec_decode(h.spec_bytes()) == h,
    {
        let s = h.spec_bytes();
        OpHeader::lemma_roundtrip(h.header);
        assert(s.subrange(0, 8) =~= h.header.spec_bytes());
        lemma_be32_roundtrip(h.num_devices);
        assert(s.subrange(8, 12) =~= be32_bytes(h.num_devices));
        Self::lemma_bytes_determined(s, h);
    }

    /// A value decoded from 12 bytes encodes to those same bytes, and it
    /// is the only value that decodes from them.
    pub proof fn lemma_bytes_determined(s: Seq<u8>, h: Self)
        requires
            Self::decodes_to(s, h),
        ensures
            h.spec_bytes() == s,
            forall|g: Self| #[trigger] Self::decodes_to(s, g) ==> g == h,
            Self::spec_decode(s) == h,
    {
        OpHeader::lemma_bytes_determined(s.subrange(0, 8), h.header);
        assert(h.header.spec_bytes() == s.subrange(0, 8));
        lemma_be32_bytes_determined(s.subrange(8, 12));
        assert(h.spec_bytes() =~= s);
        assert forall|g: Self| #[trigger] Self::decodes_to(s, g) implies g == h by {
        }
    }
}

/// Device record of the operation replies (312 bytes).
pub struct WireDeviceInfo {
    pub path: [u8; 256],
    pub busid: [u8; 32],
    pub busnum: u32,
    pub devnum: u32,
    pub speed: u32,
    pub id_vendor: u16,
    pub id_product: u16,
    pub bcd_device: u16,
    pub device_class: u8,
    pub device_sub_class: u8,
    pub device_protocol: u8,
    pub configuration_value: u8,
    pub num_configurations: u8,
    pub num_interfaces: u8,
}

impl WireDeviceInfo {
    /// The 312 bytes of this value on the wire.
    pub open spec fn spec_bytes(self) -> Seq<u8> {
        self.path@
            + self.busid@
            + be32_bytes(self.busnum)
            + be32_bytes(self.devnum)
            + be32_bytes(self.speed)
            + be16_bytes(self.id_vendor)
            + be16_bytes(self.id_product)
            + be16_bytes(self.bcd_device)
            + seq![self.device_class]
            + seq![self.device_sub_class]
            + seq![self.device_protocol]
            + seq![self.configuration_value]
            + seq![self.num_configurations]
            + seq![self.num_interfaces]
    }

    /// `h` is what the 312 bytes `s` hold.
    pub open spec fn decodes_to(s: Seq<u8>, h: Self) -> bool {
        &&& s.len() == 312
        &&& h.path@ == s.subrange(0, 256)
        &&& h.busid@ == s.subrange(256, 288)
        &&& h.busnum == be32_value(s.subrange(288, 292))
        &&& h.devnum == be32_value(s.subrange(292, 296))
        &&& h.speed == be32_value(s.subrange(296, 300))
        &&& h.id_vendor == be16_value(s.subrange(300, 302))
        &&& h.id_product == be16_value(s.subrange(302, 304))
        &&& h.bcd_device == be16_value(s.subrange(304, 306))
        &&& h.device_class == s[306]
        &&& h.device_sub_class == s[307]
        &&& h.device_protocol == s[308]
        &&& h.configuration_value == s[309]
        &&& h.num_configurations == s[310]
        &&& h.num_interfaces == s[311]
    }

    /// The value that the bytes `s` hold (meaningful when `s` has the layout's length).
    pub open spec fn spec_decode(s: Seq<u8>) -> Self {
        choose|h: Self| Self::decodes_to(s, h)
    }

    /// Encodes the value.
    pub fn to_bytes(&self) -> (r: Vec<u8>)
        ensures
            r@ == self.spec_bytes(),
    {
        let mut out: Vec<u8> = Vec::new();
        self.write_to(&mut out);
        assert(out@ =~= self.spec_bytes());
        out
    }

    /// Appends the encoding of the value to `out`.
    pub fn write_to(&self, out: &mut Vec<u8>)
        ensures
            final(out)@ == old(out)@ + self.spec_bytes(),
    {
        let ghost start = out@;
        let ghost mut expected = start;
        push_bytes(out, &self.path);
        proof {
            expected = expected + self.path@;
        }
        assert(out@ =~= expected);
        push_bytes(out, &self.busid);
        proof {
            expected = expected + self.busid@;
        }
        assert(out@ =~= expected);
        push_be32(out, self.busnum);
        proof {
            expected = expected + be32_bytes(self.busnum);
        }
        assert(out@ =~= expected);
        push_be32(out, self.devnum);
        proof {
            expected = expected + be32_bytes(self.devnum);
        }
        assert(out@ =~= expected);
        push_be32(out, self.speed);
        proof {
            expected = expected + be32_bytes(self.speed);
        }
        assert(out@ =~= expected);
        push_be16(out, self.id_vendor);
        proof {
            expected = expected + be16_bytes(self.id_vendor);
        }
        assert(out@ =~= expected);
        push_be16(out, self.id_product);
        proof {
            expected = expected + be16_bytes(self.id_product);
        }
        assert(out@ =~= expected);
        push_be16(out, self.bcd_device);
        proof {
            expected = expected + be16_bytes(self.bcd_device);
        }
        assert(out@ =~= expected);
        out.push(self.device_class);
        proof {
            expected = expected + seq![self.device_class];
        }
        assert(out@ =~= expected);
        out.push(self.device_sub_class);
        proof {
            expected = expected + seq![self.device_sub_class];
        }
        assert(out@ =~= expected);
        out.push(self.device_protocol);
        proof {
            expected = expected + seq![self.device_protocol];
        }
        assert(out@ =~= expected);
        out.push(self.configuration_value);
        proof {
            expected = expected + seq![self.configuration_value];
        }
        assert(out@ =~= expected);
        out.push(self.num_configurations);
        proof {
            expected = expected + seq![self.num_configurations];
        }
        assert(out@ =~= expected);
        out.push(self.num_interfaces);
        proof {
            expected = expected + seq![self.num_interfaces];
        }
        assert(out@ =~= expected);
        assert(expected =~= start + self.spec_bytes());
    }

    /// Decodes the value from the 312 bytes at `off`.
    pub fn decode_at(bytes: &[u8], off: usize) -> (r: Self)
        requires
            off + 312 <= bytes@.len(),
        ensures
            Self::decodes_to(bytes@.subrange(off as int, off + 312), r),
            r.path@ == bytes@.subrange(off as int, off + 256),
            r.busid@ == bytes@.subrange(off + 256, off + 288),
            r.busnum == be32_value(bytes@.subrange(off + 288, off + 292)),
            r.devnum == be32_value(bytes@.subrange(off + 292, off + 296)),
            r.speed == be32_value(bytes@.subrange(off + 296, off + 300)),
            r.id_vendor == be16_value(bytes@.subrange(off + 300, off + 302)),
            r.id_product == be16_value(bytes@.subrange(off + 302, off + 304)),
            r.bcd_device == be16_value(bytes@.subrange(off + 304, off + 306)),
            r.device_class == bytes@[off + 306],
            r.device_sub_class == bytes@[off + 307],
            r.device_protocol == bytes@[off + 308],
            r.configuration_value == bytes@[off + 309],
            r.num_configurations == bytes@[off + 310],
            r.num_interfaces == bytes@[off + 311],
    {
        let len = bytes.len();
        assert(off + 312 <= len);
        let r = WireDeviceInfo {
            path: read_array(bytes, off),
            busid: read_array(bytes, off + 256),
            busnum: read_be32(bytes, off + 288),
            devnum: read_be32(bytes, off + 292),
            speed: read_be32(bytes, off + 296),
            id_vendor: read_be16(bytes, off + 300),
            id_product: read_be16(bytes, off + 302),
            bcd_device: read_be16(bytes, off + 304),
            device_class: bytes[off + 306],
            device_sub_class: bytes[off + 307],
            device_protocol: bytes[off + 308],
            configuration_value: bytes[off + 309],
            num_configurations: bytes[off + 310],
            num_interfaces: bytes[off + 311],
        };
        let ghost s = bytes@.subrange(off as int, off + 312);
        assert(bytes@.subrange(off as int, off + 256) =~= s.subrange(0, 256));
        assert(bytes@.subrange(off + 256, off + 288) =~= s.subrange(256, 288));
        assert(bytes@.subrange(off + 288, off + 292) =~= s.subrange(288, 292));
        assert(bytes@.subrange(off + 292, off + 296) =~= s.subrange(292, 296));
        assert(bytes@.subrange(off + 296, off + 300) =~= s.subrange(296, 300));
        assert(bytes@.subrange(off + 300, off + 302) =~= s.subrange(300, 302));
        assert(bytes@.subrange(off + 302, off + 304) =~= s.subrange(302, 304));
        assert(bytes@.subrange(off + 304, off + 306) =~= s.subrange(304, 306));
        assert(bytes@.subrange(off + 306, off + 307) =~= s.subrange(306, 307));
        assert(bytes@.subrange(off + 307, off + 308) =~= s.subrange(307, 308));
        assert(bytes@.subrange(off + 308, off + 309) =~= s.subrange(308, 309));
        assert(bytes@.subrange(off + 309, off + 310) =~= s.subrange(309, 310));
        assert(bytes@.subrange(off + 310, off + 311) =~= s.subrange(310, 311));
        assert(bytes@.subrange(off + 311, off + 312) =~= s.subrange(311, 312));
        r
    }

    /// Decodes the value from exactly 312 bytes; `None` for any other length.
    pub fn read_from_bytes(bytes: &[u8]) -> (r: Option<Self>)
        ensures
            r is Some <==> bytes@.len() == 312,
            r matches Some(h) ==> Self::decodes_to(bytes@, h) && h == Self::spec_decode(bytes@),
            r matches Some(h) ==> h.path@ == bytes@.subrange(0, 256),
            r matches Some(h) ==> h.busid@ == bytes@.subrange(256, 288),
            r matches Some(h) ==> h.busnum == be32_value(bytes@.subrange(288, 292)),
            r matches Some(h) ==> h.devnum == be32_value(bytes@.subrange(292, 296)),
            r matches Some(h) ==> h.speed == be32_value(bytes@.subrange(296, 300)),
            r matches Some(h) ==> h.id_vendor == be16_value(bytes@.subrange(300, 302)),
            r matches Some(h) ==> h.id_product == be16_value(bytes@.subrange(302, 304)),
            r matches Some(h) ==> h.bcd_device == be16_value(bytes@.subrange(304, 306)),
            r matches Some(h) ==> h.device_class == bytes@[306],
            r matches Some(h) ==> h.device_sub_class == bytes@[307],
            r matches Some(h) ==> h.device_protocol == bytes@[308],
            r matches Some(h) ==> h.configuration_value == bytes@[309],
            r matches Some(h) ==> h.num_configurations == bytes@[310],
            r matches Some(h) ==> h.num_interfaces == bytes@[311],
    {
        if bytes.len() != 312 {
            return None;
        }
        let r = Self::decode_at(bytes, 0);
        assert(bytes@.subrange(0, 312) =~= bytes@);
        proof {
            Self::lemma_bytes_determined(bytes@, r);
        }
        Some(r)
    }

    /// The encoding is 312 bytes long and carries each field at its offset
    /// in the protocol's layout, integers in network byte order.
    pub proof fn lemma_layout(h: Self)
        ensures
            h.spec_bytes().len() == 312,
            h.spec_bytes().subrange(0, 256) == h.path@,
            h.spec_bytes().subrange(256, 288) == h.busid@,
            h.spec_bytes().subrange(288, 292) == be32_bytes(h.busnum),
            h.spec_bytes().subrange(292, 296) == be32_bytes(h.devnum),
            h.spec_bytes().subrange(296, 300) == be32_bytes(h.speed),
            h.spec_bytes().subrange(300, 302) == be16_bytes(h.id_vendor),
            h.spec_bytes().subrange(302, 304) == be16_bytes(h.id_product),
            h.spec_bytes().subrange(304, 306) == be16_bytes(h.bcd_device),
            h.spec_bytes()[306] == h.device_class,
            h.spec_bytes()[307] == h.device_sub_class,
            h.spec_bytes()[308] == h.device_protocol,
            h.spec_bytes()[309] == h.configuration_value,
            h.spec_bytes()[310] == h.num_configurations,
            h.spec_bytes()[311] == h.num_interfaces,
    {
        let s = h.spec_bytes();
        assert(s.subrange(0, 256) =~= h.path@);
        assert(s.subrange(256, 288) =~= h.busid@);
        assert(s.subrange(288, 292) =~= be32_bytes(h.busnum));
        assert(s.subrange(292, 296) =~= be32_bytes(h.devnum));
        assert(s.subrange(296, 300) =~= be32_bytes(h.speed));
        assert(s.subrange(300, 302) =~= be16_bytes(h.id_vendor));
        assert(s.subrange(302, 304) =~= be16_bytes(h.id_product));
        assert(s.subrange(304, 306) =~= be16_bytes(h.bcd_device));
        assert(s.subrange(306, 307) =~= seq![h.device_class]);
        assert(s.subrange(307, 308) =~= seq![h.device_sub_class]);
        assert(s.subrange(308, 309) =~= seq![h.device_protocol]);
        assert(s.subrange(309, 310) =~= seq![h.configuration_value]);
        assert(s.subrange(310, 311) =~= seq![h.num_configurations]);
        assert(s.subrange(311, 312) =~= seq![h.num_interfaces]);
    }

    /// Decoding the encoding of a value gives the value back.
    pub proof fn lemma_roundtrip(h: Self)
        ensures
            Self::decodes_to(h.spec_bytes(), h),
            Self::spec_decode(h.spec_bytes()) == h,
    {
        let s = h.spec_bytes();
        assert(s.subrange(0, 256) =~= h.path@);
        assert(s.subrange(256, 288) =~= h.busid@);
        lemma_be32_roundtrip(h.busnum);
        assert(s.subrange(288, 292) =~= be32_bytes(h.busnum));
        lemma_be32_roundtrip(h.devnum);
        assert(s.subrange(292, 296) =~= be32_bytes(h.devnum));
        lemma_be32_roundtrip(h.speed);
        assert(s.subrange(296, 300) =~= be32_bytes(h.speed));
        lemma_be16_roundtrip(h.id_vendor);
        assert(s.subrange(300, 302) =~= be16_bytes(h.id_vendor));
        lemma_be16_roundtrip(h.id_product);
        assert(s.subrange(302, 304) =~= be16_bytes(h.id_product));
        lemma_be16_roundtrip(h.bcd_device);
        assert(s.subrange(304, 306) =~= be16_bytes(h.bcd_device));
        assert(s.subrange(306, 307) =~= seq![h.device_class]);
        assert(s.subrange(307, 308) =~= seq![h.device_sub_class]);
        assert(s.subrange(308, 309) =~= seq![h.device_protocol]);
        assert(s.subrange(309, 310) =~= seq![h.configuration_value]);
        assert(s.subrange(310, 311) =~= seq![h.num_configurations]);
        assert(s.subrange(311, 312) =~= seq![h.num_interfaces]);
        Self::lemma_bytes_determined(s, h);
    }

    /// A value decoded from 312 bytes encodes to those same bytes, and it
    /// is the only value that decodes from them.
    pub proof fn lemma_bytes_determined(s: Seq<u8>, h: Self)
        requires
            Self::decodes_to(s, h),
        ensures
            h.spec_bytes() == s,
            forall|g: Self| #[trigger] Self::decodes_to(s, g) ==> g == h,
            Self::spec_decode(s) == h,
    {
        lemma_be32_bytes_determined(s.subrange(288, 292));
        lemma_be32_bytes_determined(s.subrange(292, 296));
        lemma_be32_bytes_determined(s.subrange(296, 300));
        lemma_be16_bytes_determined(s.subrange(300, 302));
        lemma_be16_bytes_determined(s.subrange(302, 304));
        lemma_be16_bytes_determined(s.subrange(304, 306));
        assert(h.spec_bytes() =~= s);
        assert forall|g: Self| #[trigger] Self::decodes_to(s, g) implies g == h by {
            assert(g.path =~= h.path);
            assert(g.busid =~= h.busid);
        }
    }
}

/// Interface record that follows a device record in `OP_REP_DEVLIST` (4 bytes).
pub struct WireInterfaceInfo {
    pub class: u8,
    pub sub_class: u8,
    pub protocol: u8,
    pub _padding: u8,
}

impl WireInterfaceInfo {
    /// The 4 bytes of this value on the wire.
    pub open spec fn spec_bytes(self) -> Seq<u8> {
        seq![self.class]
            + seq![self.sub_class]
            + seq![self.protocol]
            + seq![self._padding]
    }

    /// `h` is what the 4 bytes `s` hold.
    pub open spec fn decodes_to(s: Seq<u8>, h: Self) -> bool {
        &&& s.len() == 4
        &&& h.class == s[0]
        &&& h.sub_class == s[1]
        &&& h.protocol == s[2]
        &&& h._padding == s[3]
    }

    /// The value that the bytes `s` hold (meaningful when `s` has the layout's length).
    pub open spec fn spec_decode(s: Seq<u8>) -> Self {
        choose|h: Self| Self::decodes_to(s, h)
    }

    /// Encodes the value.
    pub fn to_bytes(&self) -> (r: Vec<u8>)
        ensures
            r@ == self.spec_bytes(),
    {
        let mut out: Vec<u8> = Vec::new();
        self.write_to(&mut out);
        assert(out@ =~= self.spec_bytes());
        out
    }

    /// Appends the encoding of the value to `out`.
    pub fn write_to(&self, out: &mut Vec<u8>)
        ensures
            final(out)@ == old(out)@ + self.spec_bytes(),
    {
        let ghost start = out@;
        let ghost mut expected = start;
        out.push(self.class);
        proof {
            expected = expected + seq![self.class];
        }
        assert(out@ =~= expected);
        out.push(self.sub_class);
        proof {
            expected = expected + seq![self.sub_class];
        }
        assert(out@ =~= expected);
        out.push(self.protocol);
        proof {
            expected = expected + seq![self.protocol];
        }
        assert(out@ =~= expected);
        out.push(self._padding);
        proof {
            expected = expected + seq![self._padding];
        }
        assert(out@ =~= expected);
        assert(expected =~= start + self.spec_bytes());
    }

    /// Decodes the value from the 4 bytes at `off`.
    pub fn decode_at(bytes: &[u8], off: usize) -> (r: Self)
        requires
            off + 4 <= bytes@.len(),
        ensures
            Self::decodes_to(bytes@.subrange(off as int, off + 4), r),
            r.class == bytes@[off as int],
            r.sub_class == bytes@[off + 1],
            r.protocol == bytes@[off + 2],
            r._padding == bytes@[off + 3],
    {
        let len = bytes.len();
        assert(off + 4 <= len);
        let r = WireInterfaceInfo {
            class: bytes[off],
            sub_class: bytes[off + 1],
            protocol: bytes[off + 2],
            _padding: bytes[off + 3],
        };
        let ghost s = bytes@.subrange(off as int, off + 4);
        assert(bytes@.subrange(off as int, off + 1) =~= s.subrange(0, 1));
        assert(bytes@.subrange(off + 1, off + 2) =~= s.subrange(1, 2));
        assert(bytes@.subrange(off + 2, off + 3) =~= s.subrange(2, 3));
        assert(bytes@.subrange(off + 3, off + 4) =~= s.subrange(3, 4));
        r
    }

    /// Decodes the value from exactly 4 bytes; `None` for any other length.
    pub fn read_from_bytes(bytes: &[u8]) -> (r: Option<Self>)
        ensures
            r is Some <==> bytes@.len() == 4,
            r matches Some(h) ==> Self::decodes_to(bytes@, h) && h == Self::spec_decode(bytes@),
            r matches Some(h) ==> h.class == bytes@[0],
            r matches Some(h) ==> h.sub_class == bytes@[1],
            r matches Some(h) ==> h.protocol == bytes@[2],
            r matches Some(h) ==> h._padding == bytes@[3],
    {
        if bytes.len() != 4 {
            return None;
        }
        let r = Self::decode_at(bytes, 0);
        assert(bytes@.subrange(0, 4) =~= bytes@);
        proof {
            Self::lemma_bytes_determined(bytes@, r);
        }
        Some(r)
    }

    /// The encoding is 4 bytes long and carries each field at its offset
    /// in the protocol's layout, integers in network byte order.
    pub proof fn lemma_layout(h: Self)
        ensures
            h.spec_bytes().len() == 4,
            h.spec_bytes()[0] == h.class,
            h.spec_bytes()[1] == h.sub_class,
            h.spec_bytes()[2] == h.protocol,
            h.spec_bytes()[3] == h._padding,
    {
        let s = h.spec_bytes();
        assert(s.subrange(0, 1) =~= seq![h.class]);
        assert(s.subrange(1, 2) =~= seq![h.sub_class]);
        assert(s.subrange(2, 3) =~= seq![h.protocol]);
        assert(s.subrange(3, 4) =~= seq![h._padding]);
    }

    /// Decoding the encoding of a value gives the value back.
    pub proof fn lemma_roundtrip(h: Self)
        ensures
            Self::decodes_to(h.spec_bytes(), h),
            Self::spec_decode(h.spec_bytes()) == h,
    {
        let s = h.spec_bytes();
        assert(s.subrange(0, 1) =~= seq![h.class]);
        assert(s.subrange(1, 2) =~= seq![h.sub_class]);
        assert(s.subrange(2, 3) =~= seq![h.protocol]);
        assert(s.subrange(3, 4) =~= seq![h._padding]);
        Self::lemma_bytes_determined(s, h);
    }

    /// A value decoded from 4 bytes encodes to those same bytes, and it
    /// is the only value that decodes from them.
    pub proof fn lemma_bytes_determined(s: Seq<u8>, h: Self)
        requires
            Self::decodes_to(s, h),
        ensures
            h.spec_bytes() == s,
            forall|g: Self| #[trigger] Self::decodes_to(s, g) ==> g == h,
            Self::spec_decode(s) == h,
    {
        assert(h.spec_bytes() =~= s);
        assert forall|g: Self| #[trigger] Self::decodes_to(s, g) implies g == h by {
        }
    }
}

/// Header of `USBIP_CMD_SUBMIT` (48 bytes).
pub struct CmdSubmitHeader {
    pub command: u32,
    pub seqnum: u32,
    pub devid: u32,
    pub direction: u32,
    pub ep: u32,
    pub transfer_flags: u32,
    pub transfer_buffer_length: u32,
    pub start_frame: u32,
    pub number_of_packets: u32,
    pub interval: u32,
    pub setup: [u8; 8],
}

impl CmdSubmitHeader {
    /// The 48 bytes of this value on the wire.
    pub open spec fn spec_bytes(self) -> Seq<u8> {
        be32_bytes(self.command)
            + be32_bytes(self.seqnum)
            + be32_bytes(self.devid)
            + be32_bytes(self.direction)
            + be32_bytes(self.ep)
            + be32_bytes(self.transfer_flags)
            + be32_bytes(self.transfer_buffer_length)
            + be32_bytes(self.start_frame)
            + be32_bytes(self.number_of_packets)
            + be32_bytes(self.interval)
            + self.setup@
    }

    /// `h` is what the 48 bytes `s` hold.
    pub open spec fn decodes_to(s: Seq<u8>, h: Self) -> bool {
        &&& s.len() == 48
        &&& h.command == be32_value(s.subrange(0, 4))
        &&& h.seqnum == be32_value(s.subrange(4, 8))
        &&& h.devid == be32_value(s.subrange(8, 12))
        &&& h.direction == be32_value(s.subrange(12, 16))
        &&& h.ep == be32_value(s.subrange(16, 20))
        &&& h.transfer_flags == be32_value(s.subrange(20, 24))
        &&& h.transfer_buffer_length == be32_value(s.subrange(24, 28))
        &&& h.start_frame == be32_value(s.subrange(28, 32))
        &&& h.number_of_packets == be32_value(s.subrange(32, 36))
        &&& h.interval == be32_value(s.subrange(36, 40))
        &&& h.setup@ == s.subrange(40, 48)
    }

    /// The value that the bytes `s` hold (meaningful when `s` has the layout's length).
    pub open spec fn spec_decode(s: Seq<u8>) -> Self {
        choose|h: Self| Self::decodes_to(s, h)
    }

    /// Encodes the value.
    pub fn to_bytes(&self) -> (r: Vec<u8>)
        ensures
            r@ == self.spec_bytes(),
    {
        let mut out: Vec<u8> = Vec::new();
        self.write_to(&mut out);
        assert(out@ =~= self.spec_bytes());
        out
    }

    /// Appends the encoding of the value to `out`.
    pub fn write_to(&self, out: &mut Vec<u8>)
        ensures
            final(out)@ == old(out)@ + self.spec_bytes(),
    {
        let ghost start = out@;
        let ghost mut expected = start;
        push_be32(out, self.command);
        proof {
            expected = expected + be32_bytes(self.command);
        }
        assert(out@ =~= expected);
        push_be32(out, self.seqnum);
        proof {
            expected = expected + be32_bytes(self.seqnum);
        }
        assert(out@ =~= expected);
        push_be32(out, self.devid);
        proof {
            expected = expected + be32_bytes(self.devid);
        }
        assert(out@ =~= expected);
        push_be32(out, self.direction);
        proof {
            expected = expected + be32_bytes(self.direction);
        }
        assert(out@ =~= expected);
        push_be32(out, self.ep);
        proof {
            expected = expected + be32_bytes(self.ep);
        }
        assert(out@ =~= expected);
        push_be32(out, self.transfer_flags);
        proof {
            expected = expected + be32_bytes(self.transfer_flags);
        }
        assert(out@ =~= expected);
        push_be32(out, self.transfer_buffer_length);
        proof {
            expected = expected + be32_bytes(self.transfer_buffer_length);
        }
        assert(out@ =~= expected);
        push_be32(out, self.start_frame);
        proof {
            expected = expected + be32_bytes(self.start_frame);
        }
        assert(out@ =~= expected);
        push_be32(out, self.number_of_packets);
        proof {
            expected = expected + be32_bytes(self.number_of_packets);
        }
        assert(out@ =~= expected);
        push_be32(out, self.interval);
        proof {
            expected = expected + be32_bytes(self.interval);
        }
        assert(out@ =~= expected);
        push_bytes(out, &self.setup);
        proof {
            expected = expected + self.setup@;
        }
        assert(out@ =~= expected);
        assert(expected =~= start + self.spec_bytes());
    }

    /// Decodes the value from the 48 bytes at `off`.
    pub fn decode_at(bytes: &[u8], off: usize) -> (r: Self)
        requires
            off + 48 <= bytes@.len(),
        ensures
            Self::decodes_to(bytes@.subrange(off as int, off + 48), r),
            r.command == be32_value(bytes@.subrange(off as int, off + 4)),
            r.seqnum == be32_value(bytes@.subrange(off + 4, off + 8)),
            r.devid == be32_value(bytes@.subrange(off + 8, off + 12)),
            r.direction == be32_value(bytes@.subrange(off + 12, off + 16)),
            r.ep == be32_value(bytes@.subrange(off + 16, off + 20)),
            r.transfer_flags == be32_value(bytes@.subrange(off + 20, off + 24)),
            r.transfer_buffer_length == be32_value(bytes@.subrange(off + 24, off + 28)),
            r.start_frame == be32_value(bytes@.subrange(off + 28, off + 32)),
            r.number_of_packets == be32_value(bytes@.subrange(off + 32, off + 36)),
            r.interval == be32_value(bytes@.subrange(off + 36, off + 40)),
            r.setup@ == bytes@.subrange(off + 40, off + 48),
    {
        let len = bytes.len();
        assert(off + 48 <= len);
        let r = CmdSubmitHeader {
            command: read_be32(bytes, off),
            seqnum: read_be32(bytes, off + 4),
            devid: read_be32(bytes, off + 8),
            direction: read_be32(bytes, off + 12),
            ep: read_be32(bytes, off + 16),
            transfer_flags: read_be32(bytes, off + 20),
            transfer_buffer_length: read_be32(bytes, off + 24),
            start_frame: read_be32(bytes, off + 28),
            number_of_packets: read_be32(bytes, off + 32),
            interval: read_be32(bytes, off + 36),
            setup: read_array(bytes, off + 40),
        };
        let ghost s = bytes@.subrange(off as int, off + 48);
        assert(bytes@.subrange(off as int, off + 4) =~= s.subrange(0, 4));
        assert(bytes@.subrange(off + 4, off + 8) =~= s.subrange(4, 8));
        assert(bytes@.subrange(off + 8, off + 12) =~= s.subrange(8, 12));
        assert(bytes@.subrange(off + 12, off + 16) =~= s.subrange(12, 16));
        assert(bytes@.subrange(off + 16, off + 20) =~= s.subrange(16, 20));
        assert(bytes@.subrange(off + 20, off + 24) =~= s.subrange(20, 24));
        assert(bytes@.subrange(off + 24, off + 28) =~= s.subrange(24, 28));
        assert(bytes@.subrange(off + 28, off + 32) =~= s.subrange(28, 32));
        assert(bytes@.subrange(off + 32, off + 36) =~= s.subrange(32, 36));
        assert(bytes@.subrange(off + 36, off + 40) =~= s.subrange(36, 40));
        assert(bytes@.subrange(off + 40, off + 48) =~= s.subrange(40, 48));
        r
    }

    /// Decodes the value from exactly 48 bytes; `None` for any other length.
    pub fn read_from_bytes(bytes: &[u8]) -> (r: Option<Self>)
        ensures
            r is Some <==> bytes@.len() == 48,
            r matches Some(h) ==> Self::decodes_to(bytes@, h) && h == Self::spec_decode(bytes@),
            r matches Some(h) ==> h.command == be32_value(bytes@.subrange(0, 4)),
            r matches Some(h) ==> h.seqnum == be32_value(bytes@.subrange(4, 8)),
            r matches Some(h) ==> h.devid == be32_value(bytes@.subrange(8, 12)),
            r matches Some(h) ==> h.direction == be32_value(bytes@.subrange(12, 16)),
            r matches Some(h) ==> h.ep == be32_value(bytes@.subrange(16, 20)),
            r matches Some(h) ==> h.transfer_flags == be32_value(bytes@.subrange(20, 24)),
            r matches Some(h) ==> h.transfer_buffer_length == be32_value(bytes@.subrange(24, 28)),
            r matches Some(h) ==> h.start_frame == be32_value(bytes@.subrange(28, 32)),
            r matches Some(h) ==> h.number_of_packets == be32_value(bytes@.subrange(32, 36)),
            r matches Some(h) ==> h.interval == be32_value(bytes@.subrange(36, 40)),
            r matches Some(h) ==> h.setup@ == bytes@.subrange(40, 48),
    {
        if bytes.len() != 48 {
            return None;
        }
        let r = Self::decode_at(bytes, 0);
        assert(bytes@.subrange(0, 48) =~= bytes@);
        proof {
            Self::lemma_bytes_determined(bytes@, r);
        }
        Some(r)
    }

    /// The encoding is 48 bytes long and carries each field at its offset
    /// in the protocol's layout, integers in network byte order.
    pub proof fn lemma_layout(h: Self)
        ensures
            h.spec_bytes().len() == 48,
            h.spec_bytes().subrange(0, 4) == be32_bytes(h.command),
            h.spec_bytes().subrange(4, 8) == be32_bytes(h.seqnum),
            h.spec_bytes().subrange(8, 12) == be32_bytes(h.devid),
            h.spec_bytes().subrange(12, 16) == be32_bytes(h.direction),
            h.spec_bytes().subrange(16, 20) == be32_bytes(h.ep),
            h.spec_bytes().subrange(20, 24) == be32_bytes(h.transfer_flags),
            h.spec_bytes().subrange(24, 28) == be32_bytes(h.transfer_buffer_length),
            h.spec_bytes().subrange(28, 32) == be32_bytes(h.start_frame),
            h.spec_bytes().subrange(32, 36) == be32_bytes(h.number_of_packets),
            h.spec_bytes().subrange(36, 40) == be32_bytes(h.interval),
            h.spec_bytes().subrange(40, 48) == h.setup@,
    {
        let s = h.spec_bytes();
        assert(s.subrange(0, 4) =~= be32_bytes(h.command));
        assert(s.subrange(4, 8) =~= be32_bytes(h.seqnum));
        assert(s.subrange(8, 12) =~= be32_bytes(h.devid));
        assert(s.subrange(12, 16) =~= be32_bytes(h.direction));
        assert(s.subrange(16, 20) =~= be32_bytes(h.ep));
        assert(s.subrange(20, 24) =~= be32_bytes(h.transfer_flags));
        assert(s.subrange(24, 28) =~= be32_bytes(h.transfer_buffer_length));
        assert(s.subrange(28, 32) =~= be32_bytes(h.start_frame));
        assert(s.subrange(32, 36) =~= be32_bytes(h.number_of_packets));
        assert(s.subrange(36, 40) =~= be32_bytes(h.interval));
        assert(s.subrange(40, 48) =~= h.setup@);
    }

    /// Decoding the encoding of a value gives the value back.
    pub proof fn lemma_roundtrip(h: Self)
        ensures
            Self::decodes_to(h.spec_bytes(), h),
            Self::spec_decode(h.spec_bytes()) == h,
    {
        let s = h.spec_bytes();
        lemma_be32_roundtrip(h.command);
        assert(s.subrange(0, 4) =~= be32_bytes(h.command));
        lemma_be32_roundtrip(h.seqnum);
        assert(s.subrange(4, 8) =~= be32_bytes(h.seqnum));
        lemma_be32_roundtrip(h.devid);
        assert(s.subrange(8, 12) =~= be32_bytes(h.devid));
        lemma_be32_roundtrip(h.direction);
        assert(s.subrange(12, 16) =~= be32_bytes(h.direction));
        lemma_be32_roundtrip(h.ep);
        assert(s.subrange(16, 20) =~= be32_bytes(h.ep));
        lemma_be32_roundtrip(h.transfer_flags);
        assert(s.subrange(20, 24) =~= be32_bytes(h.transfer_flags));
        lemma_be32_roundtrip(h.transfer_buffer_length);
        assert(s.subrange(24, 28) =~= be32_bytes(h.transfer_buffer_length));
        lemma_be32_roundtrip(h.start_frame);
        assert(s.subrange(28, 32) =~= be32_bytes(h.start_frame));
        lemma_be32_roundtrip(h.number_of_packets);
        assert(s.subrange(32, 36) =~= be32_bytes(h.number_of_packets));
        lemma_be32_roundtrip(h.interval);
        assert(s.subrange(36, 40) =~= be32_bytes(h.interval));
        assert(s.subrange(40, 48) =~= h.setup@);
        Self::lemma_bytes_determined(s, h);
    }

    /// A value decoded from 48 bytes encodes to those same bytes, and it
    /// is the only value that decodes from them.
    pub proof fn lemma_bytes_determined(s: Seq<u8>, h: Self)
        requires
            Self::decodes_to(s, h),
        ensures
            h.spec_bytes() == s,
            forall|g: Self| #[trigger] Self::decodes_to(s, g) ==> g == h,
            Self::spec_decode(s) == h,
    {
        lemma_be32_bytes_determined(s.subrange(0, 4));
        lemma_be32_bytes_determined(s.subrange(4, 8));
        lemma_be32_bytes_determined(s.subrange(8, 12));
        lemma_be32_bytes_determined(s.subrange(12, 16));
        lemma_be32_bytes_determined(s.subrange(16, 20));
        lemma_be32_bytes_determined(s.subrange(20, 24));
        lemma_be32_bytes_determined(s.subrange(24, 28));
        lemma_be32_bytes_determined(s.subrange(28, 32));
        lemma_be32_bytes_determined(s.subrange(32, 36));
        lemma_be32_bytes_determined(s.subrange(36, 40));
        assert(h.spec_bytes() =~= s);
        assert forall|g: Self| #[trigger] Self::decodes_to(s, g) implies g == h by {
            assert(g.setup =~= h.setup);
        }
    }
}

/// Header of `USBIP_CMD_UNLINK` (48 bytes).
pub struct CmdUnlinkHeader {
    pub command: u32,
    pub seqnum: u32,
    pub devid: u32,
    pub direction: u32,
    pub ep: u32,
    pub unlink_seqnum: u32,
    pub _padding: [u8; 24],
}

impl CmdUnlinkHeader {
    /// The 48 bytes of this value on the wire.
    pub open spec fn spec_bytes(self) -> Seq<u8> {
        be32_bytes(self.command)
            + be32_bytes(self.seqnum)
            + be32_bytes(self.devid)
            + be32_bytes(self.direction)
            + be32_bytes(self.ep)
            + be32_bytes(self.unlink_seqnum)
            + self._padding@
    }

    /// `h` is what the 48 bytes `s` hold.
    pub open spec fn decodes_to(s: Seq<u8>, h: Self) -> bool {
        &&& s.len() == 48
        &&& h.command == be32_value(s.subrange(0, 4))
        &&& h.seqnum == be32_value(s.subrange(4, 8))
        &&& h.devid == be32_value(s.subrange(8, 12))
        &&& h.direction == be32_value(s.subrange(12, 16))
        &&& h.ep == be32_value(s.subrange(16, 20))
        &&& h.unlink_seqnum == be32_value(s.subrange(20, 24))
        &&& h._padding@ == s.subrange(24, 48)
    }

    /// The value that the bytes `s` hold (meaningful when `s` has the layout's length).
    pub open spec fn spec_decode(s: Seq<u8>) -> Self {
        choose|h: Self| Self::decodes_to(s, h)
    }

    /// Encodes the value.
    pub fn to_bytes(&self) -> (r: Vec<u8>)
        ensures
            r@ == self.spec_bytes(),
    {
        let mut out: Vec<u8> = Vec::new();
        self.write_to(&mut out);
        assert(out@ =~= self.spec_bytes());
        out
    }

    /// Appends the encoding of the value to `out`.
    pub fn write_to(&self, out: &mut Vec<u8>)
        ensures
            final(out)@ == old(out)@ + self.spec_bytes(),
    {
        let ghost start = out@;
        let ghost mut expected = start;
        push_be32(out, self.command);
        proof {
            expected = expected + be32_bytes(self.command);
        }
        assert(out@ =~= expected);
        push_be32(out, self.seqnum);
        proof {
            expected = expected + be32_bytes(self.seqnum);
        }
        assert(out@ =~= expected);
        push_be32(out, self.devid);
        proof {
            expected = expected + be32_bytes(self.devid);
        }
        assert(out@ =~= expected);
        push_be32(out, self.direction);
        proof {
            expected = expected + be32_bytes(self.direction);
        }
        assert(out@ =~= expected);
        push_be32(out, self.ep);
        proof {
            expected = expected + be32_bytes(self.ep);
        }
        assert(out@ =~= expected);
        push_be32(out, self.unlink_seqnum);
        proof {
            expected = expected + be32_bytes(self.unlink_seqnum);
        }
        assert(out@ =~= expected);
        push_bytes(out, &self._padding);
        proof {
            expected = expected + self._padding@;
        }
        assert(out@ =~= expected);
        assert(expected =~= start + self.spec_bytes());
    }

    /// Decodes the value from the 48 bytes at `off`.
    pub fn decode_at(bytes: &[u8], off: usize) -> (r: Self)
        requires
            off + 48 <= bytes@.len(),
        ensures
            Self::decodes_to(bytes@.subrange(off as int, off + 48), r),
            r.command == be32_value(bytes@.subrange(off as int, off + 4)),
            r.seqnum == be32_value(bytes@.subrange(off + 4, off + 8)),
            r.devid == be32_value(bytes@.subrange(off + 8, off + 12)),
            r.direction == be32_value(bytes@.subrange(off + 12, off + 16)),
            r.ep == be32_value(bytes@.subrange(off + 16, off + 20)),
            r.unlink_seqnum == be32_value(bytes@.subrange(off + 20, off + 24)),
            r._padding@ == bytes@.subrange(off + 24, off + 48),
    {
        let len = bytes.len();
        assert(off + 48 <= len);
        let r = CmdUnlinkHeader {
            command: read_be32(bytes, off),
            seqnum: read_be32(bytes, off + 4),
            devid: read_be32(bytes, off + 8),
            direction: read_be32(bytes, off + 12),
            ep: read_be32(bytes, off + 16),
            unlink_seqnum: read_be32(bytes, off + 20),
            _padding: read_array(bytes, off + 24),
        };
        let ghost s = bytes@.subrange(off as int, off + 48);
        assert(bytes@.subrange(off as int, off + 4) =~= s.subrange(0, 4));
        assert(bytes@.subrange(off + 4, off + 8) =~= s.subrange(4, 8));
        assert(bytes@.subrange(off + 8, off + 12) =~= s.subrange(8, 12));
        assert(bytes@.subrange(off + 12, off + 16) =~= s.subrange(12, 16));
        assert(bytes@.subrange(off + 16, off + 20) =~= s.subrange(16, 20));
        assert(bytes@.subrange(off + 20, off + 24) =~= s.subrange(20, 24));
        assert(bytes@.subrange(off + 24, off + 48) =~= s.subrange(24, 48));
        r
    }

    /// Decodes the value from exactly 48 bytes; `None` for any other length.
    pub fn read_from_bytes(bytes: &[u8]) -> (r: Option<Self>)
        ensures
            r is Some <==> bytes@.len() == 48,
            r matches Some(h) ==> Self::decodes_to(bytes@, h) && h == Self::spec_decode(bytes@),
            r matches Some(h) ==> h.command == be32_value(bytes@.subrange(0, 4)),
            r matches Some(h) ==> h.seqnum == be32_value(bytes@.subrange(4, 8)),
            r matches Some(h) ==> h.devid == be32_value(bytes@.subrange(8, 12)),
            r matches Some(h) ==> h.direction == be32_value(bytes@.subrange(12, 16)),
            r matches Some(h) ==> h.ep == be32_value(bytes@.subrange(16, 20)),
            r matches Some(h) ==> h.unlink_seqnum == be32_value(bytes@.subrange(20, 24)),
            r matches Some(h) ==> h._padding@ == bytes@.subrange(24, 48),
    {
        if bytes.len() != 48 {
            return None;
        }
        let r = Self::decode_at(bytes, 0);
        assert(bytes@.subrange(0, 48) =~= bytes@);
        proof {
            Self::lemma_bytes_determined(bytes@, r);
        }
        Some(r)
    }

    /// The encoding is 48 bytes long and carries each field at its offset
    /// in the protocol's layout, integers in network byte order.
    pub proof fn lemma_layout(h: Self)
        ensures
            h.spec_bytes().len() == 48,
            h.spec_bytes().subrange(0, 4) == be32_bytes(h.command),
            h.spec_bytes().subrange(4, 8) == be32_bytes(h.seqnum),
            h.spec_bytes().subrange(8, 12) == be32_bytes(h.devid),
            h.spec_bytes().subrange(12, 16) == be32_bytes(h.direction),
            h.spec_bytes().subrange(16, 20) == be32_bytes(h.ep),
            h.spec_bytes().subrange(20, 24) == be32_bytes(h.unlink_seqnum),
            h.spec_bytes().subrange(24, 48) == h._padding@,
    {
        let s = h.spec_bytes();
        assert(s.subrange(0, 4) =~= be32_bytes(h.command));
        assert(s.subrange(4, 8) =~= be32_bytes(h.seqnum));
        assert(s.subrange(8, 12) =~= be32_bytes(h.devid));
        assert(s.subrange(12, 16) =~= be32_bytes(h.direction));
        assert(s.subrange(16, 20) =~= be32_bytes(h.ep));
        assert(s.subrange(20, 24) =~= be32_bytes(h.unlink_seqnum));
        assert(s.subrange(24, 48) =~= h._padding@);
    }

    /// Decoding the encoding of a value gives the value back.
    pub proof fn lemma_roundtrip(h: Self)
        ensures
            Self::decodes_to(h.spec_bytes(), h),
            Self::spec_decode(h.spec_bytes()) == h,
    {
        let s = h.spec_bytes();
        lemma_be32_roundtrip(h.command);
        assert(s.subrange(0, 4) =~= be32_bytes(h.command));
        lemma_be32_roundtrip(h.seqnum);
        assert(s.subrange(4, 8) =~= be32_bytes(h.seqnum));
        lemma_be32_roundtrip(h.devid);
        assert(s.subrange(8, 12) =~= be32_bytes(h.devid));
        lemma_be32_roundtrip(h.direction);
        assert(s.subrange(12, 16) =~= be32_bytes(h.direction));
        lemma_be32_roundtrip(h.ep);
        assert(s.subrange(16, 20) =~= be32_bytes(h.ep));
        lemma_be32_roundtrip(h.unlink_seqnum);
        assert(s.subrange(20, 24) =~= be32_bytes(h.unlink_seqnum));
        assert(s.subrange(24, 48) =~= h._padding@);
        Self::lemma_bytes_determined(s, h);
    }

    /// A value decoded from 48 bytes encodes to those same bytes, and it
    /// is the only value that decodes from them.
    pub proof fn lemma_bytes_determined(s: Seq<u8>, h: Self)
        requires
            Self::decodes_to(s, h),
        ensures
            h.spec_bytes() == s,
            forall|g: Self| #[trigger] Self::decodes_to(s, g) ==> g == h,
            Self::spec_decode(s) == h,
    {
        lemma_be32_bytes_determined(s.subrange(0, 4));
        lemma_be32_bytes_determined(s.subrange(4, 8));
        lemma_be32_bytes_determined(s.subrange(8, 12));
        lemma_be32_bytes_determined(s.subrange(12, 16));
        lemma_be32_bytes_determined(s.subrange(16, 20));
        lemma_be32_bytes_determined(s.subrange(20, 24));
        assert(h.spec_bytes() =~= s);
        assert forall|g: Self| #[trigger] Self::decodes_to(s, g) implies g == h by {
            assert(g._padding =~= h._padding);
        }
    }
}

/// Header of `USBIP_RET_SUBMIT` (48 bytes).
pub struct RetSubmitHeader {
    pub command: u32,
    pub seqnum: u32,
    pub devid: u32,
    pub direction: u32,
    pub ep: u32,
    pub status: i32,
    pub actual_length: u32,
    pub start_frame: u32,
    pub number_of_packets: u32,
    pub error_count: u32,
    pub _padding: [u8; 8],
}

impl RetSubmitHeader {
    /// The 48 bytes of this value on the wire.
    pub open spec fn spec_bytes(self) -> Seq<u8> {
        be32_bytes(self.command)
            + be32_bytes(self.seqnum)
            + be32_bytes(self.devid)
            + be32_bytes(self.direction)
            + be32_bytes(self.ep)
            + be_i32_bytes(self.status)
            + be32_bytes(self.actual_length)
            + be32_bytes(self.start_frame)
            + be32_bytes(self.number_of_packets)
            + be32_bytes(self.error_count)
            + self._padding@
    }

    /// `h` is what the 48 bytes `s` hold.
    pub open spec fn decodes_to(s: Seq<u8>, h: Self) -> bool {
        &&& s.len() == 48
        &&& h.command == be32_value(s.subrange(0, 4))
        &&& h.seqnum == be32_value(s.subrange(4, 8))
        &&& h.devid == be32_value(s.subrange(8, 12))
        &&& h.direction == be32_value(s.subrange(12, 16))
        &&& h.ep == be32_value(s.subrange(16, 20))
        &&& h.status == be_i32_value(s.subrange(20, 24))
        &&& h.actual_length == be32_value(s.subrange(24, 28))
        &&& h.start_frame == be32_value(s.subrange(28, 32))
        &&& h.number_of_packets == be32_value(s.subrange(32, 36))
        &&& h.error_count == be32_value(s.subrange(36, 40))
        &&& h._padding@ == s.subrange(40, 48)
    }

    /// The value that the bytes `s` hold (meaningful when `s` has the layout's length).
    pub open spec fn spec_decode(s: Seq<u8>) -> Self {
        choose|h: Self| Self::decodes_to(s, h)
    }

    /// Encodes the value.
    pub fn to_bytes(&self) -> (r: Vec<u8>)
        ensures
            r@ == self.spec_bytes(),
    {
        let mut out: Vec<u8> = Vec::new();
        self.write_to(&mut out);
        assert(out@ =~= self.spec_bytes());
        out
    }

    /// Appends the encoding of the value to `out`.
    pub fn write_to(&self, out: &mut Vec<u8>)
        ensures
            final(out)@ == old(out)@ + self.spec_bytes(),
    {
        let ghost start = out@;
        let ghost mut expected = start;
        push_be32(out, self.command);
        proof {
            expected = expected + be32_bytes(self.command);
        }
        assert(out@ =~= expected);
        push_be32(out, self.seqnum);
        proof {
            expected = expected + be32_bytes(self.seqnum);
        }
        assert(out@ =~= expected);
        push_be32(out, self.devid);
        proof {
            expected = expected + be32_bytes(self.devid);
        }
        assert(out@ =~= expected);
        push_be32(out, self.direction);
        proof {
            expected = expected + be32_bytes(self.direction);
        }
        assert(out@ =~= expected);
        push_be32(out, self.ep);
        proof {
            expected = expected + be32_bytes(self.ep);
        }
        assert(out@ =~= expected);
        push_be_i32(out, self.status);
        proof {
            expected = expected + be_i32_bytes(self.status);
        }
        assert(out@ =~= expected);
        push_be32(out, self.actual_length);
        proof {
            expected = expected + be32_bytes(self.actual_length);
        }
        assert(out@ =~= expected);
        push_be32(out, self.start_frame);
        proof {
            expected = expected + be32_bytes(self.start_frame);
        }
        assert(out@ =~= expected);
        push_be32(out, self.number_of_packets);
        proof {
            expected = expected + be32_bytes(self.number_of_packets);
        }
        assert(out@ =~= expected);
        push_be32(out, self.error_count);
        proof {
            expected = expected + be32_bytes(self.error_count);
        }
        assert(out@ =~= expected);
        push_bytes(out, &self._padding);
        proof {
            expected = expected + self._padding@;
        }
        assert(out@ =~= expected);
        assert(expected =~= start + self.spec_bytes());
    }

    /// Decodes the value from the 48 bytes at `off`.
    pub fn decode_at(bytes: &[u8], off: usize) -> (r: Self)
        requires
            off + 48 <= bytes@.len(),
        ensures
            Self::decodes_to(bytes@.subrange(off as int, off + 48), r),
            r.command == be32_value(bytes@.subrange(off as int, off + 4)),
            r.seqnum == be32_value(bytes@.subrange(off + 4, off + 8)),
            r.devid == be32_value(bytes@.subrange(off + 8, off + 12)),
            r.direction == be32_value(bytes@.subrange(off + 12, off + 16)),
            r.ep == be32_value(bytes@.subrange(off + 16, off + 20)),
            r.status == be_i32_value(bytes@.subrange(off + 20, off + 24)),
            r.actual_length == be32_value(bytes@.subrange(off + 24, off + 28)),
            r.start_frame == be32_value(bytes@.subrange(off + 28, off + 32)),
            r.number_of_packets == be32_value(bytes@.subrange(off + 32, off + 36)),
            r.error_count == be32_value(bytes@.subrange(off + 36, off + 40)),
            r._padding@ == bytes@.subrange(off + 40, off + 48),
    {
        let len = bytes.len();
        assert(off + 48 <= len);
        let r = RetSubmitHeader {
            command: read_be32(bytes, off),
            seqnum: read_be32(bytes, off + 4),
            devid: read_be32(bytes, off + 8),
            direction: read_be32(bytes, off + 12),
            ep: read_be32(bytes, off + 16),
            status: read_be_i32(bytes, off + 20),
            actual_length: read_be32(bytes, off + 24),
            start_frame: read_be32(bytes, off + 28),
            number_of_packets: read_be32(bytes, off + 32),
            error_count: read_be32(bytes, off + 36),
            _padding: read_array(bytes, off + 40),
        };
        let ghost s = bytes@.subrange(off as int, off + 48);
        assert(bytes@.subrange(off as int, off + 4) =~= s.subrange(0, 4));
        assert(bytes@.subrange(off + 4, off + 8) =~= s.subrange(4, 8));
        assert(bytes@.subrange(off + 8, off + 12) =~= s.subrange(8, 12));
        assert(bytes@.subrange(off + 12, off + 16) =~= s.subrange(12, 16));
        assert(bytes@.subrange(off + 16, off + 20) =~= s.subrange(16, 20));
        assert(bytes@.subrange(off + 20, off + 24) =~= s.subrange(20, 24));
        assert(bytes@.subrange(off + 24, off + 28) =~= s.subrange(24, 28));
        assert(bytes@.subrange(off + 28, off + 32) =~= s.subrange(28, 32));
        assert(bytes@.subrange(off + 32, off + 36) =~= s.subrange(32, 36));
        assert(bytes@.subrange(off + 36, off + 40) =~= s.subrange(36, 40));
        assert(bytes@.subrange(off + 40, off + 48) =~= s.subrange(40, 48));
        r
    }

    /// Decodes the value from exactly 48 bytes; `None` for any other length.
    pub fn read_from_bytes(bytes: &[u8]) -> (r: Option<Self>)
        ensures
            r is Some <==> bytes@.len() == 48,
            r matches Some(h) ==> Self::decodes_to(bytes@, h) && h == Self::spec_decode(bytes@),
            r matches Some(h) ==> h.command == be32_value(bytes@.subrange(0, 4)),
            r matches Some(h) ==> h.seqnum == be32_value(bytes@.subrange(4, 8)),
            r matches Some(h) ==> h.devid == be32_value(bytes@.subrange(8, 12)),
            r matches Some(h) ==> h.direction == be32_value(bytes@.subrange(12, 16)),
            r matches Some(h) ==> h.ep == be32_value(bytes@.subrange(16, 20)),
            r matches Some(h) ==> h.status == be_i32_value(bytes@.subrange(20, 24)),
            r matches Some(h) ==> h.actual_length == be32_value(bytes@.subrange(24, 28)),
            r matches Some(h) ==> h.start_frame == be32_value(bytes@.subrange(28, 32)),
            r matches Some(h) ==> h.number_of_packets == be32_value(bytes@.subrange(32, 36)),
            r matches Some(h) ==> h.error_count == be32_value(bytes@.subrange(36, 40)),
            r matches Some(h) ==> h._padding@ == bytes@.subrange(40, 48),
    {
        if bytes.len() != 48 {
            return None;
        }
        let r = Self::decode_at(bytes, 0);
        assert(bytes@.subrange(0, 48) =~= bytes@);
        proof {
            Self::lemma_bytes_determined(bytes@, r);
        }
        Some(r)
    }

    /// The encoding is 48 bytes long and carries each field at its offset
    /// in the protocol's layout, integers in network byte order.
    pub proof fn lemma_layout(h: Self)
        ensures
            h.spec_bytes().len() == 48,
            h.spec_bytes().subrange(0, 4) == be32_bytes(h.command),
            h.spec_bytes().subrange(4, 8) == be32_bytes(h.seqnum),
            h.spec_bytes().subrange(8, 12) == be32_bytes(h.devid),
            h.spec_bytes().subrange(12, 16) == be32_bytes(h.direction),
            h.spec_bytes().subrange(16, 20) == be32_bytes(h.ep),
            h.spec_bytes().subrange(20, 24) == be_i32_bytes(h.status),
            h.spec_bytes().subrange(24, 28) == be32_bytes(h.actual_length),
            h.spec_bytes().subrange(28, 32) == be32_bytes(h.start_frame),
            h.spec_bytes().subrange(32, 36) == be32_bytes(h.number_of_packets),
            h.spec_bytes().subrange(36, 40) == be32_bytes(h.error_count),
            h.spec_bytes().subrange(40, 48) == h._padding@,
    {
        let s = h.spec_bytes();
        assert(s.subrange(0, 4) =~= be32_bytes(h.command));
        assert(s.subrange(4, 8) =~= be32_bytes(h.seqnum));
        assert(s.subrange(8, 12) =~= be32_bytes(h.devid));
        assert(s.subrange(12, 16) =~= be32_bytes(h.direction));
        assert(s.subrange(16, 20) =~= be32_bytes(h.ep));
        assert(s.subrange(20, 24) =~= be_i32_bytes(h.status));
        assert(s.subrange(24, 28) =~= be32_bytes(h.actual_length));
        assert(s.subrange(28, 32) =~= be32_bytes(h.start_frame));
        assert(s.subrange(32, 36) =~= be32_bytes(h.number_of_packets));
        assert(s.subrange(36, 40) =~= be32_bytes(h.error_count));
        assert(s.subrange(40, 48) =~= h._padding@);
    }

    /// Decoding the encoding of a value gives the value back.
    pub proof fn lemma_roundtrip(h: Self)
        ensures
            Self::decodes_to(h.spec_bytes(), h),
            Self::spec_decode(h.spec_bytes()) == h,
    {
        let s = h.spec_bytes();
        lemma_be32_roundtrip(h.command);
        assert(s.subrange(0, 4) =~= be32_bytes(h.command));
        lemma_be32_roundtrip(h.seqnum);
        assert(s.subrange(4, 8) =~= be32_bytes(h.seqnum));
        lemma_be32_roundtrip(h.devid);
        assert(s.subrange(8, 12) =~= be32_bytes(h.devid));
        lemma_be32_roundtrip(h.direction);
        assert(s.subrange(12, 16) =~= be32_bytes(h.direction));
        lemma_be32_roundtrip(h.ep);
        assert(s.subrange(16, 20) =~= be32_bytes(h.ep));
        lemma_be_i32_roundtrip(h.status);
        assert(s.subrange(20, 24) =~= be_i32_bytes(h.status));
        lemma_be32_roundtrip(h.actual_length);
        assert(s.subrange(24, 28) =~= be32_bytes(h.actual_length));
        lemma_be32_roundtrip(h.start_frame);
        assert(s.subrange(28, 32) =~= be32_bytes(h.start_frame));
        lemma_be32_roundtrip(h.number_of_packets);
        assert(s.subrange(32, 36) =~= be32_bytes(h.number_of_packets));
        lemma_be32_roundtrip(h.error_count);
        assert(s.subrange(36, 40) =~= be32_bytes(h.error_count));
        assert(s.subrange(40, 48) =~= h._padding@);
        Self::lemma_bytes_determined(s, h);
    }

    /// A value decoded from 48 bytes encodes to those same bytes, and it
    /// is the only value that decodes from them.
    pub proof fn lemma_bytes_determined(s: Seq<u8>, h: Self)
        requires
            Self::decodes_to(s, h),
        ensures
            h.spec_bytes() == s,
            forall|g: Self| #[trigger] Self::decodes_to(s, g) ==> g == h,
            Self::spec_decode(s) == h,
    {
        lemma_be32_bytes_determined(s.subrange(0, 4));
        lemma_be32_bytes_determined(s.subrange(4, 8));
        lemma_be32_bytes_determined(s.subrange(8, 12));
        lemma_be32_bytes_determined(s.subrange(12, 16));
        lemma_be32_bytes_determined(s.subrange(16, 20));
        lemma_be_i32_bytes_determined(s.subrange(20, 24));
        lemma_be32_bytes_determined(s.subrange(24, 28));
        lemma_be32_bytes_determined(s.subrange(28, 32));
        lemma_be32_bytes_determined(s.subrange(32, 36));
        lemma_be32_bytes_determined(s.subrange(36, 40));
        assert(h.spec_bytes() =~= s);
        assert forall|g: Self| #[trigger] Self::decodes_to(s, g) implies g == h by {
            assert(g._padding =~= h._padding);
        }
    }
}

/// Header of `USBIP_RET_UNLINK` (48 bytes).
pub struct RetUnlinkHeader {
    pub command: u32,
    pub seqnum: u32,
    pub devid: u32,
    pub direction: u32,
    pub ep: u32,
    pub status: i32,
    pub _padding: [u8; 24],
}

impl RetUnlinkHeader {
    /// The 48 bytes of this value on the wire.
    pub open spec fn spec_bytes(self) -> Seq<u8> {
        be32_bytes(self.command)
            + be32_bytes(self.seqnum)
            + be32_bytes(self.devid)
            + be32_bytes(self.direction)
            + be32_bytes(self.ep)
            + be_i32_bytes(self.status)
            + self._padding@
    }

    /// `h` is what the 48 bytes `s` hold.
    pub open spec fn decodes_to(s: Seq<u8>, h: Self) -> bool {
        &&& s.len() == 48
        &&& h.command == be32_value(s.subrange(0, 4))
        &&& h.seqnum == be32_value(s.subrange(4, 8))
        &&& h.devid == be32_value(s.subrange(8, 12))
        &&& h.direction == be32_value(s.subrange(12, 16))
        &&& h.ep == be32_value(s.subrange(16, 20))
        &&& h.status == be_i32_value(s.subrange(20, 24))
        &&& h._padding@ == s.subrange(24, 48)
    }

    /// The value that the bytes `s` hold (meaningful when `s` has the layout's length).
    pub open spec fn spec_decode(s: Seq<u8>) -> Self {
        choose|h: Self| Self::decodes_to(s, h)
    }

    /// Encodes the value.
    pub fn to_bytes(&self) -> (r: Vec<u8>)
        ensures
            r@ == self.spec_bytes(),
    {
        let mut out: Vec<u8> = Vec::new();
        self.write_to(&mut out);
        assert(out@ =~= self.spec_bytes());
        out
    }

    /// Appends the encoding of the value to `out`.
    pub fn write_to(&self, out: &mut Vec<u8>)
        ensures
            final(out)@ == old(out)@ + self.spec_bytes(),
    {
        let ghost start = out@;
        let ghost mut expected = start;
        push_be32(out, self.command);
        proof {
            expected = expected + be32_bytes(self.command);
        }
        assert(out@ =~= expected);
        push_be32(out, self.seqnum);
        proof {
            expected = expected + be32_bytes(self.seqnum);
        }
        assert(out@ =~= expected);
        push_be32(out, self.devid);
        proof {
            expected = expected + be32_bytes(self.devid);
        }
        assert(out@ =~= expected);
        push_be32(out, self.direction);
        proof {
            expected = expected + be32_bytes(self.direction);
        }
        assert(out@ =~= expected);
        push_be32(out, self.ep);
        proof {
            expected = expected + be32_bytes(self.ep);
        }
        assert(out@ =~= expected);
        push_be_i32(out, self.status);
        proof {
            expected = expected + be_i32_bytes(self.status);
        }
        assert(out@ =~= expected);
        push_bytes(out, &self._padding);
        proof {
            expected = expected + self._padding@;
        }
        assert(out@ =~= expected);
        assert(expected =~= start + self.spec_bytes());
    }

    /// Decodes the value from the 48 bytes at `off`.
    pub fn decode_at(bytes: &[u8], off: usize) -> (r: Self)
        requires
            off + 48 <= bytes@.len(),
        ensures
            Self::decodes_to(bytes@.subrange(off as int, off + 48), r),
            r.command == be32_value(bytes@.subrange(off as int, off + 4)),
            r.seqnum == be32_value(bytes@.subrange(off + 4, off + 8)),
            r.devid == be32_value(bytes@.subrange(off + 8, off + 12)),
            r.direction == be32_value(bytes@.subrange(off + 12, off + 16)),
            r.ep == be32_value(bytes@.subrange(off + 16, off + 20)),
            r.status == be_i32_value(bytes@.subrange(off + 20, off + 24)),
            r._padding@ == bytes@.subrange(off + 24, off + 48),
    {
        let len = bytes.len();
        assert(off + 48 <= len);
        let r = RetUnlinkHeader {
            command: read_be32(bytes, off),
            seqnum: read_be32(bytes, off + 4),
            devid: read_be32(bytes, off + 8),
            direction: read_be32(bytes, off + 12),
            ep: read_be32(bytes, off + 16),
            status: read_be_i32(bytes, off + 20),
            _padding: read_array(bytes, off + 24),
        };
        let ghost s = bytes@.subrange(off as int, off + 48);
        assert(bytes@.subrange(off as int, off + 4) =~= s.subrange(0, 4));
        assert(bytes@.subrange(off + 4, off + 8) =~= s.subrange(4, 8));
        assert(bytes@.subrange(off + 8, off + 12) =~= s.subrange(8, 12));
        assert(bytes@.subrange(off + 12, off + 16) =~= s.subrange(12, 16));
        assert(bytes@.subrange(off + 16, off + 20) =~= s.subrange(16, 20));
        assert(bytes@.subrange(off + 20, off + 24) =~= s.subrange(20, 24));
        assert(bytes@.subrange(off + 24, off + 48) =~= s.subrange(24, 48));
        r
    }

    /// Decodes the value from exactly 48 bytes; `None` for any other length.
    pub fn read_from_bytes(bytes: &[u8]) -> (r: Option<Self>)
        ensures
            r is Some <==> bytes@.len() == 48,
            r matches Some(h) ==> Self::decodes_to(bytes@, h) && h == Self::spec_decode(bytes@),
            r matches Some(h) ==> h.command == be32_value(bytes@.subrange(0, 4)),
            r matches Some(h) ==> h.seqnum == be32_value(bytes@.subrange(4, 8)),
            r matches Some(h) ==> h.devid == be32_value(bytes@.subrange(8, 12)),
            r matches Some(h) ==> h.direction == be32_value(bytes@.subrange(12, 16)),
            r matches Some(h) ==> h.ep == be32_value(bytes@.subrange(16, 20)),
            r matches Some(h) ==> h.status == be_i32_value(bytes@.subrange(20, 24)),
            r matches Some(h) ==> h._padding@ == bytes@.subrange(24, 48),
    {
        if bytes.len() != 48 {
            return None;
        }
        let r = Self::decode_at(bytes, 0);
        assert(bytes@.subrange(0, 48) =~= bytes@);
        proof {
            Self::lemma_bytes_determined(bytes@, r);
        }
        Some(r)
    }

    /// The encoding is 48 bytes long and carries each field at its offset
    /// in the protocol's layout, integers in network byte order.
    pub proof fn lemma_layout(h: Self)
        ensures
            h.spec_bytes().len() == 48,
            h.spec_bytes().subrange(0, 4) == be32_bytes(h.command),
            h.spec_bytes().subrange(4, 8) == be32_bytes(h.seqnum),
            h.spec_bytes().subrange(8, 12) == be32_bytes(h.devid),
            h.spec_bytes().subrange(12, 16) == be32_bytes(h.direction),
            h.spec_bytes().subrange(16, 20) == be32_bytes(h.ep),
            h.spec_bytes().subrange(20, 24) == be_i32_bytes(h.status),
            h.spec_bytes().subrange(24, 48) == h._padding@,
    {
        let s = h.spec_bytes();
        assert(s.subrange(0, 4) =~= be32_bytes(h.command));
        assert(s.subrange(4, 8) =~= be32_bytes(h.seqnum));
        assert(s.subrange(8, 12) =~= be32_bytes(h.devid));
        assert(s.subrange(12, 16) =~= be32_bytes(h.direction));
        assert(s.subrange(16, 20) =~= be32_bytes(h.ep));
        assert(s.subrange(20, 24) =~= be_i32_bytes(h.status));
        assert(s.subrange(24, 48) =~= h._padding@);
    }

    /// Decoding the encoding of a value gives the value back.
    pub proof fn lemma_roundtrip(h: Self)
        ensures
            Self::decodes_to(h.spec_bytes(), h),
            Self::spec_decode(h.spec_bytes()) == h,
    {
        let s = h.spec_bytes();
        lemma_be32_roundtrip(h.command);
        assert(s.subrange(0, 4) =~= be32_bytes(h.command));
        lemma_be32_roundtrip(h.seqnum);
        assert(s.subrange(4, 8) =~= be32_bytes(h.seqnum));
        lemma_be32_roundtrip(h.devid);
        assert(s.subrange(8, 12) =~= be32_bytes(h.devid));
        lemma_be32_roundtrip(h.direction);
        assert(s.subrange(12, 16) =~= be32_bytes(h.direction));
        lemma_be32_roundtrip(h.ep);
        assert(s.subrange(16, 20) =~= be32_bytes(h.ep));
        lemma_be_i32_roundtrip(h.status);
        assert(s.subrange(20, 24) =~= be_i32_bytes(h.status));
        assert(s.subrange(24, 48) =~= h._padding@);
        Self::lemma_bytes_determined(s, h);
    }

    /// A value decoded from 48 bytes encodes to those same bytes, and it
    /// is the only value that decodes from them.
    pub proof fn lemma_bytes_determined(s: Seq<u8>, h: Self)
        requires
            Self::decodes_to(s, h),
        ensures
            h.spec_bytes() == s,
            forall|g: Self| #[trigger] Self::decodes_to(s, g) ==> g == h,
            Self::spec_decode(s) == h,
    {
        lemma_be32_bytes_determined(s.subrange(0, 4));
        lemma_be32_bytes_determined(s.subrange(4, 8));
        lemma_be32_bytes_determined(s.subrange(8, 12));
        lemma_be32_bytes_determined(s.subrange(12, 16));
        lemma_be32_bytes_determined(s.subrange(16, 20));
        lemma_be_i32_bytes_determined(s.subrange(20, 24));
        assert(h.spec_bytes() =~= s);
        assert forall|g: Self| #[trigger] Self::decodes_to(s, g) implies g == h by {
            assert(g._padding =~= h._padding);
        }
    }
}

impl WireDeviceInfo {
    /// The device information that this record carries; its interface list is empty,
    /// since interface records travel separately.
    pub open spec fn info_view(self) -> DeviceInfoView {
        DeviceInfoView {
            path: spec_bytes_to_string(self.path@),
            busid: spec_bytes_to_string(self.busid@),
            busnum: self.busnum,
            devnum: self.devnum,
            speed: self.speed,
            id_vendor: self.id_vendor,
            id_product: self.id_product,
            bcd_device: self.bcd_device,
            device_class: self.device_class,
            device_sub_class: self.device_sub_class,
            device_protocol: self.device_protocol,
            configuration_value: self.configuration_value,
            num_configurations: self.num_configurations,
            num_interfaces: self.num_interfaces,
            interfaces: Seq::empty(),
        }
    }
}

impl WireInterfaceInfo {
    /// The interface information that this record carries.
    pub open spec fn info(self) -> InterfaceInfo {
        InterfaceInfo { class: self.class, sub_class: self.sub_class, protocol: self.protocol }
    }
}

/// The device information of a device record carries every numeric field of
/// the record unchanged, the two text fields as their NUL-terminated text,
/// and no interfaces.
pub proof fn lemma_info_view_fields(w: WireDeviceInfo)
    ensures
        w.info_view().path == spec_bytes_to_string(w.path@),
        w.info_view().busid == spec_bytes_to_string(w.busid@),
        w.info_view().busnum == w.busnum,
        w.info_view().devnum == w.devnum,
        w.info_view().speed == w.speed,
        w.info_view().id_vendor == w.id_vendor,
        w.info_view().id_product == w.id_product,
        w.info_view().bcd_device == w.bcd_device,
        w.info_view().device_class == w.device_class,
        w.info_view().device_sub_class == w.device_sub_class,
        w.info_view().device_protocol == w.device_protocol,
        w.info_view().configuration_value == w.configuration_value,
        w.info_view().num_configurations == w.num_configurations,
        w.info_view().num_interfaces == w.num_interfaces,
        w.info_view().interfaces.len() == 0,
{
}

/// The device information of the 312 bytes of a device record, read straight
/// off the bytes: the numbers at their offsets in network byte order, the
/// class triple at bytes 306, 307 and 308.
pub proof fn lemma_record_info(s: Seq<u8>, w: WireDeviceInfo)
    requires
        WireDeviceInfo::decodes_to(s, w),
    ensures
        w.info_view().path == spec_bytes_to_string(s.subrange(0, 256)),
        w.info_view().busid == spec_bytes_to_string(s.subrange(256, 288)),
        w.info_view().busnum == be32_value(s.subrange(288, 292)),
        w.info_view().devnum == be32_value(s.subrange(292, 296)),
        w.info_view().speed == be32_value(s.subrange(296, 300)),
        w.info_view().id_vendor == be16_value(s.subrange(300, 302)),
        w.info_view().id_product == be16_value(s.subrange(302, 304)),
        w.info_view().bcd_device == be16_value(s.subrange(304, 306)),
        w.info_view().device_class == s[306],
        w.info_view().device_sub_class == s[307],
        w.info_view().device_protocol == s[308],
        w.info_view().configuration_value == s[309],
        w.info_view().num_configurations == s[310],
        w.info_view().num_interfaces == s[311],
{
}

/// The interface information of an interface record carries its class,
/// subclass and protocol unchanged.
pub proof fn lemma_interface_info_fields(w: WireInterfaceInfo)
    ensures
        w.info().class == w.class,
        w.info().sub_class == w.sub_class,
        w.info().protocol == w.protocol,
{
}

impl DeviceInfo {
    /// The device information of a device record, with no interfaces yet.
    pub fn from_wire(w: &WireDeviceInfo) -> (d: DeviceInfo)
        ensures
            d@ == w.info_view(),
            d.path@ == spec_bytes_to_string(w.path@),
            d.busid@ == spec_bytes_to_string(w.busid@),
            d.busnum == w.busnum,
            d.devnum == w.devnum,
            d.speed == w.speed,
            d.id_vendor == w.id_vendor,
            d.id_product == w.id_product,
            d.bcd_device == w.bcd_device,
            d.device_class == w.device_class,
            d.device_sub_class == w.device_sub_class,
            d.device_protocol == w.device_protocol,
            d.configuration_value == w.configuration_value,
            d.num_configurations == w.num_configurations,
            d.num_interfaces == w.num_interfaces,
            d.interfaces@.len() == 0,
            forall|i: int| 0 <= i < d@.path.len() ==> d@.path[i] != '\0',
            forall|i: int| 0 <= i < d@.busid.len() ==> d@.busid[i] != '\0',
    {
        DeviceInfo {
            path: bytes_to_string(&w.path),
            busid: bytes_to_string(&w.busid),
            busnum: w.busnum,
            devnum: w.devnum,
            speed: w.speed,
            id_vendor: w.id_vendor,
            id_product: w.id_product,
            bcd_device: w.bcd_device,
            device_class: w.device_class,
            device_sub_class: w.device_sub_class,
            device_protocol: w.device_protocol,
            configuration_value: w.configuration_value,
            num_configurations: w.num_configurations,
            num_interfaces: w.num_interfaces,
            interfaces: Vec::new(),
        }
    }
}

impl InterfaceInfo {
    /// The interface information of an interface record.
    pub fn from_wire(w: &WireInterfaceInfo) -> (i: InterfaceInfo)
        ensures
            i == w.info(),
            i.class == w.class,
            i.sub_class == w.sub_class,
            i.protocol == w.protocol,
    {
        InterfaceInfo { class: w.class, sub_class: w.sub_class, protocol: w.protocol }
    }
}

impl<'a> From<&'a WireDeviceInfo> for DeviceInfo {
    /// The device information of a device record, as `DeviceInfo::from_wire`.
    fn from(w: &'a WireDeviceInfo) -> (d: DeviceInfo)
        ensures
            d@ == w.info_view(),
            d.path@ == spec_bytes_to_string(w.path@),
            d.busid@ == spec_bytes_to_string(w.busid@),
            d.busnum == w.busnum,
            d.devnum == w.devnum,
            d.speed == w.speed,
            d.id_vendor == w.id_vendor,
            d.id_product == w.id_product,
            d.bcd_device == w.bcd_device,
            d.device_class == w.device_class,
            d.device_sub_class == w.device_sub_class,
            d.device_protocol == w.device_protocol,
            d.configuration_value == w.configuration_value,
            d.num_configurations == w.num_configurations,
            d.num_interfaces == w.num_interfaces,
            d.interfaces@.len() == 0,
            forall|i: int| 0 <= i < d@.path.len() ==> d@.path[i] != '\0',
            forall|i: int| 0 <= i < d@.busid.len() ==> d@.busid[i] != '\0',
    {
        DeviceInfo::from_wire(w)
    }
}

impl<'a> vstd::std_specs::convert::FromSpecImpl<&'a WireDeviceInfo> for DeviceInfo {
    /// A `DeviceInfo` holds `String`s, which a spec function cannot build; the
    /// result of `from` is stated by the `ensures` of the impl above instead.
    open spec fn obeys_from_spec() -> bool {
        false
    }

    open spec fn from_spec(v: &'a WireDeviceInfo) -> DeviceInfo {
        arbitrary()
    }
}

impl<'a> From<&'a WireInterfaceInfo> for InterfaceInfo {
    fn from(w: &'a WireInterfaceInfo) -> (i: InterfaceInfo) {
        InterfaceInfo::from_wire(w)
    }
}

impl<'a> vstd::std_specs::convert::FromSpecImpl<&'a WireInterfaceInfo> for InterfaceInfo {
    open spec fn obeys_from_spec() -> bool {
        true
    }

    open spec fn from_spec(v: &'a WireInterfaceInfo) -> InterfaceInfo {
        v.info()
    }
}

} // verus!
