use picoboot::{
    Configuration, DeviceInfo, Direction, Duration, EndpointInfo, Error, InterfaceInfo,
    InterfaceSetting, Picoboot, PicobootInterface, Speed, Target, Timeouts, TransferType,
    UsbError, UsbErrorKind,
};

fn device(vid: u16, pid: u16, address: u8) -> DeviceInfo {
    DeviceInfo {
        slot: 0,
        vendor_id: vid,
        product_id: pid,
        bus_id: String::from("001"),
        device_address: address,
        serial_number: Some(String::from("E0C9125B0D9B")),
        device_version: 0x0100,
        manufacturer_string: Some(String::from("Raspberry Pi")),
        product_string: None,
        usb_version: 0x0110,
        speed: Some(Speed::Full),
    }
}

fn endpoint(address: u8, transfer_type: TransferType, size: usize) -> EndpointInfo {
    let direction = if address >= 0x80 { Direction::In } else { Direction::Out };
    EndpointInfo { address, transfer_type, direction, max_packet_size: size }
}

fn setting(number: u8, class: u8, subclass: u8, endpoints: Vec<EndpointInfo>) -> InterfaceSetting {
    InterfaceSetting { interface_number: number, class, subclass, endpoints }
}

fn one(settings: Vec<InterfaceSetting>) -> Vec<Configuration> {
    vec![Configuration { interfaces: vec![InterfaceInfo { alt_settings: settings }] }]
}

fn bootsel() -> Vec<Configuration> {
    let bulk = TransferType::Bulk;
    vec![Configuration {
        interfaces: vec![
            InterfaceInfo {
                alt_settings: vec![setting(
                    0,
                    0x08,
                    0x06,
                    vec![endpoint(0x81, bulk, 64), endpoint(0x02, bulk, 64)],
                )],
            },
            InterfaceInfo {
                alt_settings: vec![setting(
                    1,
                    0xff,
                    0x00,
                    vec![endpoint(0x03, bulk, 64), endpoint(0x84, bulk, 64)],
                )],
            },
        ],
    }]
}

fn created(info: DeviceInfo, configurations: Vec<Configuration>) -> Result<Picoboot, Error> {
    Picoboot::new(info, Ok(configurations))
}

fn interface_of(picoboot: &Picoboot) -> PicobootInterface {
    let state = picoboot.start();
    PicobootInterface {
        if_num: state.if_num,
        in_ep: state.in_ep,
        in_ep_max_packet_size: state.in_ep_max_packet_size,
        out_ep: state.out_ep,
    }
}

#[test]
fn stock_devices_are_listed_by_default() {
    let attached = vec![
        device(0x1d6b, 0x0002, 1),
        device(0x2e8a, 0x000f, 2),
        device(0x2e8a, 0x000a, 3),
        device(0x2e8a, 0x0003, 4),
    ];
    let found = Picoboot::list_devices(Ok(attached), None).unwrap();
    let addresses: Vec<u8> = found.iter().map(|d| d.device_address).collect();
    assert_eq!(addresses, vec![2, 4]);
}

#[test]
fn only_wanted_types_are_listed() {
    let wanted = [Target::Custom { vid: 0x1d6b, pid: 0x0002 }, Target::Rp2040];
    let attached = vec![
        device(0x1d6b, 0x0002, 1),
        device(0x2e8a, 0x000f, 2),
        device(0x2e8a, 0x0003, 4),
        device(0x1d6b, 0x0002, 5),
    ];
    let found = Picoboot::list_devices(Ok(attached), Some(&wanted)).unwrap();
    let addresses: Vec<u8> = found.iter().map(|d| d.device_address).collect();
    assert_eq!(addresses, vec![1, 4, 5]);
    let none: [Target; 0] = [];
    let found = Picoboot::list_devices(Ok(vec![device(0x2e8a, 3, 1)]), Some(&none)).unwrap();
    assert!(found.is_empty());
}

#[test]
fn listing_can_fail() {
    let error = UsbError { kind: UsbErrorKind::Other, os_error: None, message: String::new() };
    match Picoboot::list_devices(Err(error), None) {
        Err(Error::UsbEnumerationError(e)) => assert_eq!(e.kind, UsbErrorKind::Other),
        _ => panic!("listing failed"),
    }
}

#[test]
fn the_first_device_is_taken() {
    let attached = vec![device(0x1d6b, 2, 1), device(0x2e8a, 0x000f, 2), device(0x2e8a, 3, 3)];
    let first = Picoboot::from_first(Ok(attached), None).unwrap();
    assert_eq!(first.device_address, 2);
    assert_eq!(
        Picoboot::from_first(Ok(vec![device(0x1d6b, 2, 1)]), None),
        Err(Error::PicobootNoDevicesFound)
    );
    let error = UsbError { kind: UsbErrorKind::Busy, os_error: None, message: String::new() };
    assert!(matches!(
        Picoboot::from_first(Err(error), None),
        Err(Error::UsbEnumerationError(_))
    ));
}

#[test]
fn the_picoboot_interface_is_found() {
    let picoboot = created(device(0x2e8a, 0x0003, 1), bootsel()).ok().unwrap();
    assert_eq!(
        interface_of(&picoboot),
        PicobootInterface { if_num: 1, in_ep: 0x84, in_ep_max_packet_size: 64, out_ep: 0x03 }
    );
    assert_eq!(*picoboot.target(), Target::Rp2040);
    assert!(!picoboot.is_connected());
    assert_eq!(picoboot.start().cmd_token, 1);
    assert_eq!(picoboot.start().timeouts, Timeouts::default());
}

#[test]
fn an_interface_needs_bulk_endpoints_both_ways() {
    let bulk = TransferType::Bulk;
    let settings = vec![
        setting(4, 0xff, 0x00, vec![endpoint(0x81, bulk, 64)]),
        setting(5, 0xff, 0x00, vec![endpoint(0x01, bulk, 64), endpoint(0x82, TransferType::Interrupt, 8)]),
        setting(6, 0xff, 0x01, vec![endpoint(0x01, bulk, 64), endpoint(0x81, bulk, 64)]),
        setting(
            7,
            0xff,
            0x00,
            vec![
                endpoint(0x81, bulk, 64),
                endpoint(0x01, bulk, 64),
                endpoint(0x85, TransferType::Isochronous, 32),
                endpoint(0x86, bulk, 512),
                endpoint(0x02, bulk, 512),
            ],
        ),
        setting(8, 0xff, 0x00, vec![endpoint(0x01, bulk, 64), endpoint(0x81, bulk, 64)]),
    ];
    let picoboot = created(device(0x1209, 0xf540, 1), one(settings)).ok().unwrap();
    assert_eq!(
        interface_of(&picoboot),
        PicobootInterface { if_num: 7, in_ep: 0x86, in_ep_max_packet_size: 512, out_ep: 0x02 }
    );
    assert_eq!(*picoboot.target(), Target::Custom { vid: 0x1209, pid: 0xf540 });
}

#[test]
fn later_configurations_are_searched_too() {
    let mut configurations = vec![Configuration { interfaces: vec![] }];
    configurations.extend(bootsel());
    let picoboot = created(device(0x2e8a, 0x000f, 1), configurations).ok().unwrap();
    assert_eq!(interface_of(&picoboot).if_num, 1);
}

#[test]
fn a_device_without_the_interface_is_refused() {
    match created(device(0x2e8a, 0x000f, 1), one(vec![])) {
        Err(e) => assert_eq!(e, Error::PicobootInterfaceNotFound(Target::Rp2350)),
        Ok(_) => panic!("there is no interface"),
    }
}

#[test]
fn a_device_that_does_not_open_is_refused() {
    let error =
        UsbError { kind: UsbErrorKind::PermissionDenied, os_error: Some(13), message: String::new() };
    match Picoboot::new(device(0x2e8a, 0x0003, 1), Err(error)) {
        Err(Error::UsbOpenError(Target::Rp2040, e)) => assert_eq!(e.os_error, Some(13)),
        _ => panic!("the device did not open"),
    }
}

#[test]
fn what_is_known_of_a_device_is_told() {
    let picoboot = created(device(0x2e8a, 0x0003, 9), bootsel()).ok().unwrap();
    assert_eq!(picoboot.info(), "2E8A:0003");
    assert_eq!(picoboot.vid(), 0x2e8a);
    assert_eq!(picoboot.pid(), 0x0003);
    assert_eq!(picoboot.serial_number(), Some("E0C9125B0D9B"));
    assert_eq!(picoboot.device_version(), 0x0100);
    assert_eq!(picoboot.manufacturer_string(), Some("Raspberry Pi"));
    assert_eq!(picoboot.product_string(), None);
    assert_eq!(picoboot.usb_version(), 0x0110);
    assert_eq!(picoboot.speed(), Some(Speed::Full));
    let other = created(device(0xabcd, 0xef01, 9), bootsel()).ok().unwrap();
    assert_eq!(other.info(), "ABCD:EF01");
    assert_eq!(Target::from(&device(0x2e8a, 0x000f, 1)), Target::Rp2350);
}

#[test]
fn equality_is_about_the_device_and_the_timeouts() {
    let a = created(device(0x2e8a, 0x0003, 9), bootsel()).ok().unwrap();
    let mut b = created(device(0x2e8a, 0x0003, 9), bootsel()).ok().unwrap();
    assert!(a == b && b == a && a == a);
    assert!(a == a.clone());

    b.set_timeouts(Timeouts { reset: Duration::from_secs(2), ..Timeouts::default() });
    assert!(a != b);

    let elsewhere = created(device(0x2e8a, 0x0003, 8), bootsel()).ok().unwrap();
    assert!(a != elsewhere);
    let mut info = device(0x2e8a, 0x0003, 9);
    info.serial_number = None;
    assert!(a != created(info, bootsel()).ok().unwrap());
    let mut info = device(0x2e8a, 0x0003, 9);
    info.bus_id = String::from("002");
    assert!(a != created(info, bootsel()).ok().unwrap());
    let other = created(device(0x2e8a, 0x000f, 9), bootsel()).ok().unwrap();
    assert!(a != other);

    // What the device calls itself, and its endpoints, do not matter.
    let mut info = device(0x2e8a, 0x0003, 9);
    info.product_string = Some(String::from("RP2 Boot"));
    let bulk = TransferType::Bulk;
    let settings = vec![setting(3, 0xff, 0, vec![endpoint(5, bulk, 8), endpoint(0x85, bulk, 8)])];
    assert!(a == created(info, one(settings)).ok().unwrap());
}
