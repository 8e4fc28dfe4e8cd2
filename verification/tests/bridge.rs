use usbipdevirt::bridge::{
    config_max_power, control_outcome, ctrl_to_setup, endpoint_route, is_config_descriptor_request, map_speed,
    parse_endpoint_descriptors, route_control, ConfigCache, ConfigError, ControlOutcome, ControlRoute,
    EndpointRoute,
};
use usbipdevirt::rawgadget::Event;
use usbipdevirt::rawgadget::usb_types::{UsbCtrlRequest, UsbEndpointDescriptor, UsbSpeed};

fn config_with_endpoints() -> Vec<u8> {
    vec![
        // configuration descriptor (9 bytes)
        9, 2, 32, 0, 1, 1, 0, 0x80, 50,
        // interface descriptor (9 bytes)
        9, 4, 0, 0, 2, 8, 6, 80, 0,
        // endpoint 0x81 bulk, 512 bytes
        7, 5, 0x81, 2, 0x00, 0x02, 0,
        // endpoint 0x02 bulk, 512 bytes
        7, 5, 0x02, 2, 0x00, 0x02, 1,
    ]
}

#[test]
fn parse_endpoints_of_configuration() {
    let eps = parse_endpoint_descriptors(&config_with_endpoints());
    assert_eq!(eps.len(), 2);
    assert_eq!(eps[0].bEndpointAddress, 0x81);
    assert_eq!(eps[0].bmAttributes, 2);
    assert_eq!({ eps[0].wMaxPacketSize }, 512);
    assert_eq!(eps[0].bRefresh, 0);
    assert_eq!(eps[1].bEndpointAddress, 0x02);
    assert_eq!(eps[1].bInterval, 1);
}

#[test]
fn parse_endpoints_long_descriptor_keeps_extra_fields() {
    let data = vec![9, 5, 0x83, 1, 0xc0, 0x00, 1, 7, 8];
    let eps = parse_endpoint_descriptors(&data);
    assert_eq!(eps.len(), 1);
    assert_eq!(eps[0].bLength, 9);
    assert_eq!({ eps[0].wMaxPacketSize }, 192);
    assert_eq!(eps[0].bRefresh, 7);
    assert_eq!(eps[0].bSynchAddress, 8);
}

#[test]
fn parse_endpoints_stops_at_malformed_descriptor() {
    // A length below 2 ends the walk.
    let mut data = vec![9, 2, 32, 0, 1, 1, 0, 0x80, 50, 1, 5];
    data.extend_from_slice(&[7, 5, 0x81, 2, 0, 2, 0]);
    assert!(parse_endpoint_descriptors(&data).is_empty());
    // A descriptor that runs past the end is dropped.
    let truncated = vec![7, 5, 0x81, 2, 0, 2];
    assert!(parse_endpoint_descriptors(&truncated).is_empty());
    // Short endpoint descriptors are skipped, the walk goes on.
    let short = vec![6, 5, 0x81, 2, 0, 2, 7, 5, 0x82, 2, 0x40, 0, 0];
    let eps = parse_endpoint_descriptors(&short);
    assert_eq!(eps.len(), 1);
    assert_eq!(eps[0].bEndpointAddress, 0x82);
}

#[test]
fn parse_endpoints_of_tiny_inputs() {
    assert!(parse_endpoint_descriptors(&[]).is_empty());
    assert!(parse_endpoint_descriptors(&[7]).is_empty());
}

#[test]
fn max_power_of_configuration() {
    // The byte at offset 7 is taken.
    assert_eq!(config_max_power(&config_with_endpoints()), Some(0x80));
    assert_eq!(config_max_power(&[9, 2, 32, 0, 1, 1, 0, 25, 50]), Some(25));
    assert_eq!(config_max_power(&[9, 2, 32, 0, 1, 1, 0]), None);
}

#[test]
fn speeds_map_by_number() {
    assert_eq!(map_speed(0), UsbSpeed::Unknown);
    assert_eq!(map_speed(1), UsbSpeed::Low);
    assert_eq!(map_speed(2), UsbSpeed::Full);
    assert_eq!(map_speed(3), UsbSpeed::High);
    assert_eq!(map_speed(4), UsbSpeed::Wireless);
    assert_eq!(map_speed(5), UsbSpeed::Super);
    assert_eq!(map_speed(6), UsbSpeed::SuperPlus);
    assert_eq!(map_speed(7), UsbSpeed::Unknown);
    for n in 1u32..=6 {
        assert_eq!(map_speed(n).code() as u32, n);
    }
}

#[test]
fn setup_packet_is_little_endian() {
    let ctrl = UsbCtrlRequest {
        bRequestType: 0x80,
        bRequest: 0x06,
        wValue: 0x0100,
        wIndex: 0x0409,
        wLength: 0x0012,
    };
    assert_eq!(ctrl_to_setup(&ctrl), [0x80, 0x06, 0x00, 0x01, 0x09, 0x04, 0x12, 0x00]);
}

fn req(t: u8, r: u8, v: u16, l: u16) -> UsbCtrlRequest {
    UsbCtrlRequest { bRequestType: t, bRequest: r, wValue: v, wIndex: 0, wLength: l }
}

#[test]
fn control_routes() {
    assert_eq!(route_control(&req(0x00, 0x05, 7, 0)), ControlRoute::SetAddress);
    assert_eq!(route_control(&req(0x00, 0x09, 1, 0)), ControlRoute::SetConfiguration);
    assert_eq!(route_control(&req(0x80, 0x09, 1, 0)), ControlRoute::In);
    assert_eq!(route_control(&req(0x00, 0x09, 1, 2)), ControlRoute::OutWithData);
    assert_eq!(route_control(&req(0x80, 0x06, 0x0100, 18)), ControlRoute::In);
    assert_eq!(route_control(&req(0x21, 0x09, 0x0200, 1)), ControlRoute::OutWithData);
    assert_eq!(route_control(&req(0x21, 0x0a, 0, 0)), ControlRoute::OutNoData);
}

#[test]
fn config_descriptor_requests() {
    assert!(is_config_descriptor_request(&req(0x80, 0x06, 0x0200, 9)));
    assert!(is_config_descriptor_request(&req(0x80, 0x06, 0x0201, 255)));
    assert!(!is_config_descriptor_request(&req(0x80, 0x06, 0x0100, 18)));
    assert!(!is_config_descriptor_request(&req(0x80, 0x00, 0x0200, 2)));
}

#[test]
fn endpoint_routes() {
    let desc = UsbEndpointDescriptor {
        bLength: 7,
        bDescriptorType: 5,
        bEndpointAddress: 0x83,
        bmAttributes: 3,
        wMaxPacketSize: 64,
        bInterval: 10,
        bRefresh: 0,
        bSynchAddress: 0,
    };
    assert_eq!(endpoint_route(&desc), EndpointRoute { ep_num: 3, is_in: true, max_packet_size: 64 });
    let out = UsbEndpointDescriptor { bEndpointAddress: 0x02, wMaxPacketSize: 512, ..desc };
    assert_eq!(endpoint_route(&out), EndpointRoute { ep_num: 2, is_in: false, max_packet_size: 512 });
}

#[test]
fn control_outcomes() {
    let get_config = req(0x80, 0x06, 0x0200, 9);
    let get_device = req(0x80, 0x06, 0x0100, 18);
    assert_eq!(
        control_outcome(ControlRoute::In, &get_config, 0),
        ControlOutcome::WriteBack { cache_config: true }
    );
    assert_eq!(
        control_outcome(ControlRoute::In, &get_device, 0),
        ControlOutcome::WriteBack { cache_config: false }
    );
    assert_eq!(control_outcome(ControlRoute::In, &get_device, -32), ControlOutcome::Stall);
    let set_config = req(0x00, 0x09, 1, 0);
    assert_eq!(control_outcome(ControlRoute::SetConfiguration, &set_config, 0), ControlOutcome::Configure);
    assert_eq!(control_outcome(ControlRoute::SetConfiguration, &set_config, -71), ControlOutcome::Stall);
    let out = req(0x21, 0x09, 0x0200, 1);
    assert_eq!(control_outcome(ControlRoute::OutWithData, &out, 0), ControlOutcome::Finished { refused: false });
    assert_eq!(control_outcome(ControlRoute::OutWithData, &out, -1), ControlOutcome::Finished { refused: true });
    let idle = req(0x21, 0x0a, 0, 0);
    assert_eq!(control_outcome(ControlRoute::OutNoData, &idle, 0), ControlOutcome::Ack);
    assert_eq!(control_outcome(ControlRoute::OutNoData, &idle, -32), ControlOutcome::Stall);
    let set_address = req(0x00, 0x05, 3, 0);
    assert_eq!(control_outcome(ControlRoute::SetAddress, &set_address, -1), ControlOutcome::Ack);
}

#[test]
fn endpoints_of_concatenated_chains() {
    let a = config_with_endpoints();
    let b: Vec<u8> = vec![7, 5, 0x83, 3, 0x08, 0x00, 4, 1, 0];
    let mut ab = a.clone();
    ab.extend_from_slice(&b);
    let whole = parse_endpoint_descriptors(&ab);
    let first = parse_endpoint_descriptors(&a);
    let second = parse_endpoint_descriptors(&b);
    assert_eq!(first.len(), 2);
    assert_eq!(second.len(), 1);
    assert_eq!(whole.len(), first.len() + second.len());
    for (i, e) in first.iter().chain(second.iter()).enumerate() {
        assert_eq!(whole[i].bEndpointAddress, e.bEndpointAddress);
        assert_eq!(whole[i].bmAttributes, e.bmAttributes);
        assert_eq!({ whole[i].wMaxPacketSize }, { e.wMaxPacketSize });
        assert_eq!(whole[i].bInterval, e.bInterval);
    }
    assert_eq!(whole[2].bEndpointAddress, 0x83);
    assert_eq!({ whole[2].wMaxPacketSize }, 8);
}

#[test]
fn config_cache_without_descriptor_refuses() {
    let cache = ConfigCache::new();
    assert!(matches!(cache.plan(), Err(ConfigError::NoConfigDescriptor)));
}

#[test]
fn config_cache_plans_the_stored_descriptor() {
    let mut cache = ConfigCache::new();
    cache.store(config_with_endpoints());
    let plan = match cache.plan() {
        Ok(p) => p,
        Err(_) => panic!("a stored descriptor gives a plan"),
    };
    assert_eq!(plan.endpoints.len(), 2);
    assert_eq!(plan.endpoints[0].bEndpointAddress, 0x81);
    assert_eq!(plan.endpoints[1].bEndpointAddress, 0x02);
    assert_eq!(plan.max_power, Some(0x80));
}

#[test]
fn config_cache_forgets_on_reset_and_disconnect() {
    let mut cache = ConfigCache::new();
    cache.store(config_with_endpoints());
    cache.on_bus_event(&Event::Connect);
    cache.on_bus_event(&Event::Suspend);
    assert!(cache.plan().is_ok());
    cache.on_bus_event(&Event::Reset);
    assert!(matches!(cache.plan(), Err(ConfigError::NoConfigDescriptor)));
    cache.store(config_with_endpoints());
    assert!(cache.plan().is_ok());
    cache.on_bus_event(&Event::Disconnect);
    assert!(matches!(cache.plan(), Err(ConfigError::NoConfigDescriptor)));
}
