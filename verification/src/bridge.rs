//! The decisions of the bridge that re-creates an imported USB/IP device as
//! a raw-gadget device: which endpoints a configuration has, how a control
//! request is forwarded, and how speeds and setup packets are converted.
use vstd::prelude::*;
use crate::endian::{le16_bytes, le16_from_bytes, le16_to_bytes, le16_value, lemma_le16_roundtrip};
use crate::rawgadget::event::Event;
use crate::rawgadget::usb_types::{
    speed_code, UsbCtrlRequest, UsbEndpointDescriptor, UsbSpeed, USB_DT_ENDPOINT,
    USB_REQ_GET_DESCRIPTOR, USB_REQ_SET_ADDRESS, USB_REQ_SET_CONFIGURATION,
};

verus! {

// --- Configuration descriptor ---

/// The endpoint descriptor whose `len` bytes start at `off`; the fields
/// past its length read as 0.
pub open spec fn descriptor_at(data: Seq<u8>, off: int, len: int) -> UsbEndpointDescriptor {
    UsbEndpointDescriptor {
        bLength: data[off],
        bDescriptorType: data[off + 1],
        bEndpointAddress: data[off + 2],
        bmAttributes: data[off + 3],
        wMaxPacketSize: le16_value(data.subrange(off + 4, off + 6)),
        bInterval: data[off + 6],
        bRefresh: if len > 7 {
            data[off + 7]
        } else {
            0
        },
        bSynchAddress: if len > 8 {
            data[off + 8]
        } else {
            0
        },
    }
}

/// The endpoint descriptors of a configuration from offset `off` on. The
/// descriptors are walked by their length byte; the walk stops at a length
/// below 2, at a descriptor that runs past the end, or when fewer than two
/// bytes are left. Descriptors of type endpoint with at least 7 bytes are kept.
pub open spec fn endpoints_from(data: Seq<u8>, off: int) -> Seq<UsbEndpointDescriptor>
    decreases data.len() - off,
{
    if off < 0 || off + 1 >= data.len() {
        Seq::empty()
    } else {
        let len = data[off] as int;
        if len < 2 || off + len > data.len() {
            Seq::empty()
        } else if data[off + 1] == USB_DT_ENDPOINT && len >= 7 {
            seq![descriptor_at(data, off, len)] + endpoints_from(data, off + len)
        } else {
            endpoints_from(data, off + len)
        }
    }
}

/// The endpoint descriptors of a configuration descriptor and what follows it.
pub fn parse_endpoint_descriptors(config_data: &[u8]) -> (r: Vec<UsbEndpointDescriptor>)
    ensures
        r@ == endpoints_from(config_data@, 0),
{
    let mut endpoints: Vec<UsbEndpointDescriptor> = Vec::new();
    let mut offset: usize = 0;
    let n = config_data.len();
    while n > 1 && offset < n - 1
        invariant
            n == config_data@.len(),
            offset <= n,
            endpoints@ + endpoints_from(config_data@, offset as int) == endpoints_from(
                config_data@,
                0,
            ),
        ensures
            endpoints@ + endpoints_from(config_data@, offset as int) == endpoints_from(
                config_data@,
                0,
            ),
            endpoints_from(config_data@, offset as int) == Seq::<UsbEndpointDescriptor>::empty(),
        decreases n - offset,
    {
        let b_length = config_data[offset] as usize;
        if b_length < 2 || b_length > n - offset {
            assert(endpoints_from(config_data@, offset as int) =~= Seq::<
                UsbEndpointDescriptor,
            >::empty());
            break;
        }
        let b_descriptor_type = config_data[offset + 1];
        let ghost before = endpoints@;
        if b_descriptor_type == USB_DT_ENDPOINT && b_length >= 7 {
            let desc = UsbEndpointDescriptor {
                bLength: config_data[offset],
                bDescriptorType: b_descriptor_type,
                bEndpointAddress: config_data[offset + 2],
                bmAttributes: config_data[offset + 3],
                wMaxPacketSize: le16_from_bytes(config_data[offset + 4], config_data[offset + 5]),
                bInterval: config_data[offset + 6],
                bRefresh: if b_length > 7 {
                    config_data[offset + 7]
                } else {
                    0
                },
                bSynchAddress: if b_length > 8 {
                    config_data[offset + 8]
                } else {
                    0
                },
            };
            assert(config_data@.subrange(offset + 4, offset + 6) =~= seq![
                config_data@[offset + 4],
                config_data@[offset + 5],
            ]);
            assert(desc == descriptor_at(config_data@, offset as int, b_length as int));
            endpoints.push(desc);
            assert(endpoints@ + endpoints_from(config_data@, offset + b_length) =~= before
                + endpoints_from(config_data@, offset as int));
        }
        offset = offset + b_length;
    }
    assert(endpoints@ =~= endpoints@ + Seq::<UsbEndpointDescriptor>::empty());
    endpoints
}

/// Every descriptor the walk keeps is an endpoint descriptor of at least 7 bytes.
pub proof fn lemma_endpoints_are_endpoints(data: Seq<u8>, off: int)
    ensures
        forall|k: int|
            0 <= k < endpoints_from(data, off).len() ==> {
                let d = #[trigger] endpoints_from(data, off)[k];
                &&& d.bDescriptorType == USB_DT_ENDPOINT
                &&& d.bLength >= 7
            },
    decreases data.len() - off,
{
    if off < 0 || off + 1 >= data.len() {
    } else {
        let len = data[off] as int;
        if len < 2 || off + len > data.len() {
        } else {
            lemma_endpoints_are_endpoints(data, off + len);
            let rest = endpoints_from(data, off + len);
            assert forall|k: int| 0 <= k < endpoints_from(data, off).len() implies {
                let d = #[trigger] endpoints_from(data, off)[k];
                &&& d.bDescriptorType == USB_DT_ENDPOINT
                &&& d.bLength >= 7
            } by {
                if data[off + 1] == USB_DT_ENDPOINT && len >= 7 {
                    if k > 0 {
                        assert(endpoints_from(data, off)[k] == rest[k - 1]);
                    }
                } else {
                    assert(endpoints_from(data, off)[k] == rest[k]);
                }
            }
        }
    }
}

/// The maximum power of a configuration descriptor (byte 7, in 2 mA units),
/// if the descriptor is long enough to hold it.
pub open spec fn spec_config_max_power(config_data: Seq<u8>) -> Option<u32> {
    if config_data.len() > 7 {
        Some(config_data[7] as u32)
    } else {
        None
    }
}

/// The maximum power of a configuration descriptor (byte 7, in 2 mA units),
/// if the descriptor is long enough to hold it.
pub fn config_max_power(config_data: &[u8]) -> (r: Option<u32>)
    ensures
        r == spec_config_max_power(config_data@),
{
    if config_data.len() > 7 {
        Some(config_data[7] as u32)
    } else {
        None
    }
}

/// The descriptors from offset `off` on form a complete chain: each is at
/// least 2 bytes long and the last one ends exactly at the end of the data.
pub open spec fn is_descriptor_chain(data: Seq<u8>, off: int) -> bool
    decreases data.len() - off,
{
    if off < 0 || off > data.len() {
        false
    } else if off == data.len() {
        true
    } else if data[off] < 2 || off + data[off] > data.len() {
        false
    } else {
        is_descriptor_chain(data, off + data[off])
    }
}

/// Walking a prefix `p` and then `b` from offset `k` of `b` is walking `b` from `k`.
proof fn lemma_endpoints_shift(p: Seq<u8>, b: Seq<u8>, k: int)
    requires
        0 <= k,
    ensures
        endpoints_from(p + b, p.len() + k) == endpoints_from(b, k),
    decreases b.len() - k,
{
    let d = p + b;
    let off = p.len() + k;
    if k + 1 >= b.len() {
    } else {
        assert(d[off] == b[k]);
        assert(d[off + 1] == b[k + 1]);
        let len = b[k] as int;
        if len < 2 || k + len > b.len() {
        } else {
            lemma_endpoints_shift(p, b, k + len);
            if b[k + 1] == USB_DT_ENDPOINT && len >= 7 {
                assert(d.subrange(off + 4, off + 6) =~= b.subrange(k + 4, k + 6));
                assert(d[off + 2] == b[k + 2]);
                assert(d[off + 3] == b[k + 3]);
                assert(d[off + 6] == b[k + 6]);
                if len > 7 {
                    assert(d[off + 7] == b[k + 7]);
                }
                if len > 8 {
                    assert(d[off + 8] == b[k + 8]);
                }
                assert(descriptor_at(d, off, len) == descriptor_at(b, k, len));
            }
        }
    }
}

/// Walking a complete chain `a` followed by `b` is walking `a` from `off`, then `b`.
proof fn lemma_endpoints_chain_prefix(a: Seq<u8>, b: Seq<u8>, off: int)
    requires
        is_descriptor_chain(a, off),
    ensures
        endpoints_from(a + b, off) == endpoints_from(a, off) + endpoints_from(b, 0),
    decreases a.len() - off,
{
    let d = a + b;
    if off == a.len() {
        lemma_endpoints_shift(a, b, 0);
        assert(endpoints_from(a, off) =~= Seq::<UsbEndpointDescriptor>::empty());
        assert(endpoints_from(a, off) + endpoints_from(b, 0) =~= endpoints_from(b, 0));
    } else {
        let len = a[off] as int;
        assert(d[off] == a[off]);
        assert(d[off + 1] == a[off + 1]);
        lemma_endpoints_chain_prefix(a, b, off + len);
        if a[off + 1] == USB_DT_ENDPOINT && len >= 7 {
            assert(d.subrange(off + 4, off + 6) =~= a.subrange(off + 4, off + 6));
            assert(d[off + 2] == a[off + 2]);
            assert(d[off + 3] == a[off + 3]);
            assert(d[off + 6] == a[off + 6]);
            if len > 7 {
                assert(d[off + 7] == a[off + 7]);
            }
            if len > 8 {
                assert(d[off + 8] == a[off + 8]);
            }
            assert(descriptor_at(d, off, len) == descriptor_at(a, off, len));
            assert(seq![descriptor_at(a, off, len)] + endpoints_from(a, off + len) + endpoints_from(
                b,
                0,
            ) =~= seq![descriptor_at(a, off, len)] + (endpoints_from(a, off + len)
                + endpoints_from(b, 0)));
        }
    }
}

/// The endpoints of a complete chain of descriptors followed by any bytes are
/// the endpoints of the chain followed by the endpoints of those bytes.
pub proof fn lemma_endpoints_of_concatenation(a: Seq<u8>, b: Seq<u8>)
    requires
        is_descriptor_chain(a, 0),
    ensures
        endpoints_from(a + b, 0) == endpoints_from(a, 0) + endpoints_from(b, 0),
{
    lemma_endpoints_chain_prefix(a, b, 0);
}

// --- The kept configuration descriptor ---

/// Why the endpoints of a configuration cannot be enabled.
#[derive(Debug, Clone, Copy, PartialEq, Eq, Structural)]
pub enum ConfigError {
    /// `SET_CONFIGURATION` came before any configuration descriptor was read.
    NoConfigDescriptor,
}

/// The configuration descriptor that the host last read, kept until the bus
/// is reset or disconnected, to find the endpoints when the host sets the
/// configuration.
pub struct ConfigCache {
    descriptor: Option<Vec<u8>>,
}

impl View for ConfigCache {
    type V = Option<Seq<u8>>;

    closed spec fn view(&self) -> Option<Seq<u8>> {
        match self.descriptor {
            Some(d) => Some(d@),
            None => None,
        }
    }
}

/// What a configuration needs to be enabled: its endpoint descriptors and,
/// if the descriptor holds it, the power to draw.
pub struct ConfigPlan {
    pub endpoints: Vec<UsbEndpointDescriptor>,
    pub max_power: Option<u32>,
}

impl ConfigCache {
    /// Nothing kept.
    pub fn new() -> (c: Self)
        ensures
            c@ == None::<Seq<u8>>,
    {
        ConfigCache { descriptor: None }
    }

    /// Keeps a configuration descriptor that the device answered with.
    pub fn store(&mut self, descriptor: Vec<u8>)
        ensures
            final(self)@ == Some(descriptor@),
    {
        self.descriptor = Some(descriptor);
    }

    /// Takes in a bus event: a reset or a disconnection forgets the kept
    /// descriptor; other events keep it.
    pub fn on_bus_event(&mut self, event: &Event)
        ensures
            (event is Reset || event is Disconnect) ==> final(self)@ == None::<Seq<u8>>,
            !(event is Reset || event is Disconnect) ==> final(self)@ == old(self)@,
    {
        match event {
            Event::Reset | Event::Disconnect => {
                self.descriptor = None;
            },
            _ => {},
        }
    }

    /// The plan of the kept configuration, or an error if none is kept.
    pub fn plan(&self) -> (r: Result<ConfigPlan, ConfigError>)
        ensures
            match self@ {
                None => r == Err::<ConfigPlan, ConfigError>(ConfigError::NoConfigDescriptor),
                Some(d) => r matches Ok(p) && p.endpoints@ == endpoints_from(d, 0) && p.max_power
                    == spec_config_max_power(d),
            },
    {
        match &self.descriptor {
            None => Err(ConfigError::NoConfigDescriptor),
            Some(d) => Ok(
                ConfigPlan {
                    endpoints: parse_endpoint_descriptors(d.as_slice()),
                    max_power: config_max_power(d.as_slice()),
                },
            ),
        }
    }
}

// --- Speeds ---

/// The gadget speed for a USB/IP speed number; numbers outside 1 to 6 are `Unknown`.
pub open spec fn spec_map_speed(speed: u32) -> UsbSpeed {
    if speed == 1 {
        UsbSpeed::Low
    } else if speed == 2 {
        UsbSpeed::Full
    } else if speed == 3 {
        UsbSpeed::High
    } else if speed == 4 {
        UsbSpeed::Wireless
    } else if speed == 5 {
        UsbSpeed::Super
    } else if speed == 6 {
        UsbSpeed::SuperPlus
    } else {
        UsbSpeed::Unknown
    }
}

/// The gadget speed for a USB/IP speed number.
pub fn map_speed(speed: u32) -> (r: UsbSpeed)
    ensures
        r == spec_map_speed(speed),
{
    match speed {
        1 => UsbSpeed::Low,
        2 => UsbSpeed::Full,
        3 => UsbSpeed::High,
        4 => UsbSpeed::Wireless,
        5 => UsbSpeed::Super,
        6 => UsbSpeed::SuperPlus,
        _ => UsbSpeed::Unknown,
    }
}

/// USB/IP and raw-gadget number speeds alike: mapping a USB/IP speed number
/// gives the gadget speed with that number, and numbers outside 1 to 6 give
/// `Unknown`; mapping the number of a gadget speed gives that speed back.
pub proof fn lemma_map_speed_keeps_numbers(speed: u32, s: UsbSpeed)
    ensures
        speed_code(spec_map_speed(speed)) == if 1 <= speed <= 6 {
            speed
        } else {
            0
        },
        spec_map_speed(speed_code(s) as u32) == s,
{
}

// --- Control requests ---

/// The 8-byte setup packet of a control request: the request type and
/// request bytes, then value, index and length in little-endian order.
pub open spec fn setup_bytes(ctrl: UsbCtrlRequest) -> Seq<u8> {
    seq![ctrl.bRequestType, ctrl.bRequest] + le16_bytes(ctrl.wValue) + le16_bytes(ctrl.wIndex)
        + le16_bytes(ctrl.wLength)
}

/// The setup packet of a control request.
pub fn ctrl_to_setup(ctrl: &UsbCtrlRequest) -> (setup: [u8; 8])
    ensures
        setup@ == setup_bytes(*ctrl),
{
    let (value_lo, value_hi) = le16_to_bytes(ctrl.wValue);
    let (index_lo, index_hi) = le16_to_bytes(ctrl.wIndex);
    let (length_lo, length_hi) = le16_to_bytes(ctrl.wLength);
    let mut setup = [0u8; 8];
    setup[0] = ctrl.bRequestType;
    setup[1] = ctrl.bRequest;
    setup[2] = value_lo;
    setup[3] = value_hi;
    setup[4] = index_lo;
    setup[5] = index_hi;
    setup[6] = length_lo;
    setup[7] = length_hi;
    assert(le16_bytes(ctrl.wValue) == seq![value_lo, value_hi]);
    assert(le16_bytes(ctrl.wIndex) == seq![index_lo, index_hi]);
    assert(le16_bytes(ctrl.wLength) == seq![length_lo, length_hi]);
    assert(setup@ =~= setup_bytes(*ctrl));
    setup
}

/// A setup packet gives back the request it was made from.
pub proof fn lemma_setup_fields(ctrl: UsbCtrlRequest)
    ensures
        setup_bytes(ctrl).len() == 8,
        setup_bytes(ctrl)[0] == ctrl.bRequestType,
        setup_bytes(ctrl)[1] == ctrl.bRequest,
        le16_value(setup_bytes(ctrl).subrange(2, 4)) == ctrl.wValue,
        le16_value(setup_bytes(ctrl).subrange(4, 6)) == ctrl.wIndex,
        le16_value(setup_bytes(ctrl).subrange(6, 8)) == ctrl.wLength,
{
    let s = setup_bytes(ctrl);
    lemma_le16_roundtrip(ctrl.wValue);
    lemma_le16_roundtrip(ctrl.wIndex);
    lemma_le16_roundtrip(ctrl.wLength);
    assert(s.subrange(2, 4) =~= le16_bytes(ctrl.wValue));
    assert(s.subrange(4, 6) =~= le16_bytes(ctrl.wIndex));
    assert(s.subrange(6, 8) =~= le16_bytes(ctrl.wLength));
}

/// How the bridge serves a control request from the host.
#[derive(Debug, Clone, Copy, PartialEq, Eq, Structural)]
pub enum ControlRoute {
    /// `SET_ADDRESS`: acknowledged locally, not forwarded.
    SetAddress,
    /// `SET_CONFIGURATION` without data: forwarded, then the endpoints of
    /// the configuration are enabled.
    SetConfiguration,
    /// A device-to-host request: forwarded, its data written back to the host.
    In,
    /// A host-to-device request with data: the data is read, then forwarded.
    OutWithData,
    /// A host-to-device request without data: forwarded.
    OutNoData,
}

/// The route of a control request.
pub open spec fn spec_route_control(ctrl: UsbCtrlRequest) -> ControlRoute {
    if ctrl.bRequest == USB_REQ_SET_ADDRESS {
        ControlRoute::SetAddress
    } else if ctrl.bRequest == USB_REQ_SET_CONFIGURATION && ctrl.bRequestType & 0x80u8 == 0
        && ctrl.wLength == 0 {
        ControlRoute::SetConfiguration
    } else if ctrl.bRequestType & 0x80u8 != 0 {
        ControlRoute::In
    } else if ctrl.wLength > 0 {
        ControlRoute::OutWithData
    } else {
        ControlRoute::OutNoData
    }
}

/// The route of a control request.
pub fn route_control(ctrl: &UsbCtrlRequest) -> (r: ControlRoute)
    ensures
        r == spec_route_control(*ctrl),
{
    if ctrl.bRequest == USB_REQ_SET_ADDRESS {
        ControlRoute::SetAddress
    } else if ctrl.bRequest == USB_REQ_SET_CONFIGURATION && ctrl.bRequestType & 0x80u8 == 0
        && ctrl.wLength == 0 {
        ControlRoute::SetConfiguration
    } else if ctrl.bRequestType & 0x80u8 != 0 {
        ControlRoute::In
    } else if ctrl.wLength > 0 {
        ControlRoute::OutWithData
    } else {
        ControlRoute::OutNoData
    }
}

/// Whether a control request asks for a configuration descriptor, whose
/// answer the bridge keeps to find the endpoints later.
pub fn is_config_descriptor_request(ctrl: &UsbCtrlRequest) -> (r: bool)
    ensures
        r == (ctrl.bRequest == USB_REQ_GET_DESCRIPTOR && (ctrl.wValue >> 8u16) == 2),
{
    ctrl.bRequest == USB_REQ_GET_DESCRIPTOR && (ctrl.wValue >> 8u16) == 2
}

/// What the bridge does on the bus once the device has answered a
/// forwarded control request.
#[derive(Debug, Clone, Copy, PartialEq, Eq, Structural)]
pub enum ControlOutcome {
    /// Stall endpoint 0: the device refused the request.
    Stall,
    /// Acknowledge the status stage with an empty read of endpoint 0.
    Ack,
    /// Write the answer back to the host on endpoint 0, first keeping it as the
    /// configuration descriptor when `cache_config` holds.
    WriteBack { cache_config: bool },
    /// Enable the endpoints of the kept configuration, mark the gadget
    /// configured, then acknowledge.
    Configure,
    /// Nothing is left to do on the bus (the data stage already ended it); a
    /// refusal by the device can only be reported.
    Finished { refused: bool },
}

/// The outcome of a control request on the given route, when the device
/// answered it with `status` (0 is success). A `SetAddress` request is not
/// forwarded, so it is acknowledged whatever the status.
pub open spec fn spec_control_outcome(
    route: ControlRoute,
    ctrl: UsbCtrlRequest,
    status: i32,
) -> ControlOutcome {
    match route {
        ControlRoute::SetAddress => ControlOutcome::Ack,
        ControlRoute::SetConfiguration => if status == 0 {
            ControlOutcome::Configure
        } else {
            ControlOutcome::Stall
        },
        ControlRoute::In => if status == 0 {
            ControlOutcome::WriteBack {
                cache_config: ctrl.bRequest == USB_REQ_GET_DESCRIPTOR && (ctrl.wValue >> 8u16)
                    == 2,
            }
        } else {
            ControlOutcome::Stall
        },
        ControlRoute::OutWithData => ControlOutcome::Finished { refused: status != 0 },
        ControlRoute::OutNoData => if status == 0 {
            ControlOutcome::Ack
        } else {
            ControlOutcome::Stall
        },
    }
}

/// The outcome of a control request on the given route, once the device
/// answered it with `status`.
pub fn control_outcome(route: ControlRoute, ctrl: &UsbCtrlRequest, status: i32) -> (r:
    ControlOutcome)
    ensures
        r == spec_control_outcome(route, *ctrl, status),
        route == ControlRoute::In && status == 0 ==> r == (ControlOutcome::WriteBack {
            cache_config: ctrl.bRequest == 0x06 && (ctrl.wValue >> 8u16) == 2,
        }),
        route == ControlRoute::In && status != 0 ==> r == ControlOutcome::Stall,
{
    proof {
        lemma_in_answer_kept_iff_config_descriptor(*ctrl, status);
    }
    match route {
        ControlRoute::SetAddress => ControlOutcome::Ack,
        ControlRoute::SetConfiguration => if status == 0 {
            ControlOutcome::Configure
        } else {
            ControlOutcome::Stall
        },
        ControlRoute::In => if status == 0 {
            ControlOutcome::WriteBack { cache_config: is_config_descriptor_request(ctrl) }
        } else {
            ControlOutcome::Stall
        },
        ControlRoute::OutWithData => ControlOutcome::Finished { refused: status != 0 },
        ControlRoute::OutNoData => if status == 0 {
            ControlOutcome::Ack
        } else {
            ControlOutcome::Stall
        },
    }
}

/// The answer to a request on the IN route that the device gave with success
/// is written back to the host, and kept as the configuration descriptor
/// exactly when the request is `GET_DESCRIPTOR` (6) for descriptor type 2
/// (the high byte of `wValue`), whatever length the host asked for; a
/// refused one is stalled.
pub proof fn lemma_in_answer_kept_iff_config_descriptor(ctrl: UsbCtrlRequest, status: i32)
    ensures
        status == 0 ==> spec_control_outcome(ControlRoute::In, ctrl, status) == (
        ControlOutcome::WriteBack {
            cache_config: ctrl.bRequest == 0x06 && (ctrl.wValue >> 8u16) == 2,
        }),
        status != 0 ==> spec_control_outcome(ControlRoute::In, ctrl, status)
            == ControlOutcome::Stall,
{
}

/// Once the route is fixed, what happens on the bus does not depend on how
/// many bytes the host asked for: two requests that differ only in `wLength`
/// have the same outcome for the same answer.
pub proof fn lemma_outcome_ignores_length(
    route: ControlRoute,
    a: UsbCtrlRequest,
    b: UsbCtrlRequest,
    status: i32,
)
    requires
        a.bRequestType == b.bRequestType,
        a.bRequest == b.bRequest,
        a.wValue == b.wValue,
        a.wIndex == b.wIndex,
    ensures
        spec_control_outcome(route, a, status) == spec_control_outcome(route, b, status),
{
}

/// A control request that the device refused is never acknowledged as a
/// success: it is stalled, unless its data stage already ended it on the bus.
pub proof fn lemma_refused_control_is_not_acked(ctrl: UsbCtrlRequest, status: i32)
    requires
        status != 0,
        spec_route_control(ctrl) != ControlRoute::SetAddress,
    ensures
        spec_route_control(ctrl) == ControlRoute::OutWithData ==> spec_control_outcome(
            spec_route_control(ctrl),
            ctrl,
            status,
        ) == (ControlOutcome::Finished { refused: true }),
        spec_route_control(ctrl) != ControlRoute::OutWithData ==> spec_control_outcome(
            spec_route_control(ctrl),
            ctrl,
            status,
        ) == ControlOutcome::Stall,
{
}

// --- Data endpoints ---

/// How the data of an endpoint is relayed: its number on the USB/IP side,
/// whether it is an IN endpoint, and the packet size to relay with.
#[derive(Debug, Clone, Copy, PartialEq, Eq, Structural)]
pub struct EndpointRoute {
    pub ep_num: u32,
    pub is_in: bool,
    pub max_packet_size: u32,
}

/// The relay of an endpoint: the number is the low 4 bits of its address,
/// the direction its top bit.
pub fn endpoint_route(desc: &UsbEndpointDescriptor) -> (r: EndpointRoute)
    ensures
        r.ep_num == (desc.bEndpointAddress & 0x0fu8) as u32,
        r.is_in == (desc.bEndpointAddress & 0x80u8 != 0),
        r.max_packet_size == desc.wMaxPacketSize as u32,
{
    let ep_addr = desc.bEndpointAddress;
    EndpointRoute {
        ep_num: (ep_addr & 0x0fu8) as u32,
        is_in: ep_addr & 0x80u8 != 0,
        max_packet_size: desc.wMaxPacketSize as u32,
    }
}

} // verus!
