//! USB devices as the host lists them, and where PICOBOOT is found on one.

use vstd::prelude::*;
use vstd::std_specs::convert::FromSpecImpl;

use crate::error::{Error, UsbError};
use crate::target::{Direction, Target};

verus! {

/// USB class of a PICOBOOT interface
pub const PICOBOOT_USB_CLASS: u8 = 0xFF;

/// USB subclass of a PICOBOOT interface
pub const PICOBOOT_USB_SUBCLASS: u8 = 0x00;

/// Speed of a device.
#[derive(Debug, Clone, Copy, PartialEq, Eq, Structural)]
pub enum Speed {
    /// 1.5 Mbit
    Low,
    /// 12 Mbit
    Full,
    /// 480 Mbit
    High,
    /// 5000 Mbit
    Super,
    /// 10000 Mbit
    SuperPlus,
}

/// An attached USB device.
#[derive(Debug, PartialEq, Eq)]
pub struct DeviceInfo {
    /// Position in the list the device was found in
    pub slot: usize,
    /// USB vendor ID
    pub vendor_id: u16,
    /// USB product ID
    pub product_id: u16,
    /// Bus the device is on
    pub bus_id: String,
    /// Address on its bus
    pub device_address: u8,
    /// Serial number, if the device has one
    pub serial_number: Option<String>,
    /// Version of the device
    pub device_version: u16,
    /// Maker, if the device says
    pub manufacturer_string: Option<String>,
    /// Product name, if the device says
    pub product_string: Option<String>,
    /// USB version the device supports
    pub usb_version: u16,
    /// Speed, if known
    pub speed: Option<Speed>,
}

impl Clone for DeviceInfo {
    fn clone(&self) -> (device: Self)
        ensures
            device == *self,
    {
        DeviceInfo {
            slot: self.slot,
            vendor_id: self.vendor_id,
            product_id: self.product_id,
            bus_id: self.bus_id.clone(),
            device_address: self.device_address,
            serial_number: clone_text(&self.serial_number),
            device_version: self.device_version,
            manufacturer_string: clone_text(&self.manufacturer_string),
            product_string: clone_text(&self.product_string),
            usb_version: self.usb_version,
            speed: self.speed,
        }
    }
}

/// A copy of a string, if there is one.
fn clone_text(text: &Option<String>) -> (copy: Option<String>)
    ensures
        copy == *text,
{
    match text {
        Some(text) => Some(text.clone()),
        None => None,
    }
}

impl FromSpecImpl<&DeviceInfo> for Target {
    open spec fn obeys_from_spec() -> bool {
        true
    }

    open spec fn from_spec(device: &DeviceInfo) -> Target {
        Target::of_ids(device.vendor_id, device.product_id)
    }
}

impl From<&DeviceInfo> for Target {
    fn from(device: &DeviceInfo) -> (target: Target) {
        Target::from_ids(device.vendor_id, device.product_id)
    }
}

// ----- discovery -----

/// Whether a device has the IDs of a type.
pub open spec fn has_ids(device: DeviceInfo, target: Target) -> bool {
    device.vendor_id == target.vid_of() && device.product_id == target.pid_of()
}

/// Whether a device has the IDs of one of the types.
pub open spec fn is_wanted(device: DeviceInfo, targets: Seq<Target>) -> bool {
    exists|i: int| 0 <= i < targets.len() && has_ids(device, #[trigger] targets[i])
}

/// The types to look for: those asked for, or else the stock ones.
pub open spec fn wanted_targets(targets: Option<&[Target]>) -> Seq<Target> {
    match targets {
        Some(targets) => targets@,
        None => seq![Target::Rp2040, Target::Rp2350],
    }
}

/// The devices with the IDs of one of the types, in the order they were found.
pub open spec fn wanted_devices(devices: Seq<DeviceInfo>, targets: Seq<Target>) -> Seq<
    DeviceInfo,
> {
    devices.filter(|device: DeviceInfo| is_wanted(device, targets))
}

/// Law: exactly those attached devices are listed that have the IDs of one of
/// the types.
pub proof fn law_wanted_devices(
    devices: Seq<DeviceInfo>,
    targets: Seq<Target>,
    device: DeviceInfo,
)
    ensures
        wanted_devices(devices, targets).contains(device) <==> devices.contains(device)
            && is_wanted(device, targets),
    decreases devices.len(),
{
    reveal(Seq::filter);
    if devices.len() > 0 {
        let front = devices.drop_last();
        let last = devices.last();
        law_wanted_devices(front, targets, device);
        assert(devices =~= front.push(last));
        assert(devices.contains(device) <==> front.contains(device) || device == last) by {
            if front.contains(device) {
                let i = front.index_of(device);
                assert(devices[i] == device);
            }
            assert(devices[devices.len() - 1] == last);
        }
        let found = wanted_devices(front, targets);
        assert(found.push(last).contains(device) <==> found.contains(device) || device == last) by {
            if found.contains(device) {
                let i = found.index_of(device);
                assert(found.push(last)[i] == device);
            }
            assert(found.push(last)[found.len() as int] == last);
        }
    }
}

/// Law: without types to look for, exactly the devices are wanted that are an
/// RP2040 or an RP2350.
pub proof fn law_stock_devices(device: DeviceInfo)
    ensures
        is_wanted(device, wanted_targets(None)) <==> Target::of_ids(
            device.vendor_id,
            device.product_id,
        ) is Rp2040 || Target::of_ids(device.vendor_id, device.product_id) is Rp2350,
{
    let stock = wanted_targets(None);
    assert(stock[0] == Target::Rp2040 && stock[1] == Target::Rp2350);
    if has_ids(device, stock[0]) {
        assert(is_wanted(device, stock));
    }
    if has_ids(device, stock[1]) {
        assert(is_wanted(device, stock));
    }
}

/// Law: a device is wanted if and only if it has both the vendor ID and the product
/// ID of one of the types: 2e8a:0003 for an RP2040, 2e8a:000f for an RP2350, and
/// those of a custom type.
pub proof fn law_wanted_by_ids(device: DeviceInfo, targets: Seq<Target>)
    ensures
        is_wanted(device, targets) <==> exists|i: int|
            0 <= i < targets.len() && match #[trigger] targets[i] {
                Target::Rp2040 => device.vendor_id == 0x2e8a && device.product_id == 0x0003,
                Target::Rp2350 => device.vendor_id == 0x2e8a && device.product_id == 0x000f,
                Target::Custom { vid, pid } => device.vendor_id == vid && device.product_id == pid,
            },
{
    if is_wanted(device, targets) {
        let i = choose|i: int| 0 <= i < targets.len() && has_ids(device, #[trigger] targets[i]);
        assert(has_ids(device, targets[i]));
    }
    if exists|i: int|
        0 <= i < targets.len() && match #[trigger] targets[i] {
            Target::Rp2040 => device.vendor_id == 0x2e8a && device.product_id == 0x0003,
            Target::Rp2350 => device.vendor_id == 0x2e8a && device.product_id == 0x000f,
            Target::Custom { vid, pid } => device.vendor_id == vid && device.product_id == pid,
        } {
        let i = choose|i: int|
            0 <= i < targets.len() && match #[trigger] targets[i] {
                Target::Rp2040 => device.vendor_id == 0x2e8a && device.product_id == 0x0003,
                Target::Rp2350 => device.vendor_id == 0x2e8a && device.product_id == 0x000f,
                Target::Custom { vid, pid } => device.vendor_id == vid && device.product_id == pid,
            };
        assert(has_ids(device, targets[i]));
    }
}

/// Law: a custom type stands for the devices with just its vendor ID and product
/// ID.
pub proof fn law_custom_devices(device: DeviceInfo, vid: u16, pid: u16)
    ensures
        is_wanted(device, seq![Target::Custom { vid, pid }]) <==> device.vendor_id == vid
            && device.product_id == pid,
{
    let targets = seq![Target::Custom { vid, pid }];
    assert(targets[0] == (Target::Custom { vid, pid }));
    law_wanted_by_ids(device, targets);
    if device.vendor_id == vid && device.product_id == pid {
        assert(has_ids(device, targets[0]));
    }
}

/// Law: devices are listed in the order they were found in, each as often as it
/// was found: what is listed of two lists is what is listed of the first, and then
/// of the second, and of one device it is that device if it is wanted.
pub proof fn law_listed_in_order(
    a: Seq<DeviceInfo>,
    b: Seq<DeviceInfo>,
    device: DeviceInfo,
    targets: Seq<Target>,
)
    ensures
        wanted_devices(a + b, targets) == wanted_devices(a, targets) + wanted_devices(b, targets),
        wanted_devices(seq![device], targets) == (if is_wanted(device, targets) {
            seq![device]
        } else {
            Seq::empty()
        }),
    decreases b.len(),
{
    reveal(Seq::filter);
    let single = seq![device];
    assert(single.drop_last() =~= Seq::empty());
    assert(wanted_devices(Seq::empty(), targets) =~= Seq::empty());
    assert(wanted_devices(single, targets) =~= (if is_wanted(device, targets) {
        seq![device]
    } else {
        Seq::empty()
    }));
    if b.len() == 0 {
        assert(a + b =~= a);
        assert(wanted_devices(b, targets) =~= Seq::empty());
        assert(wanted_devices(a, targets) + wanted_devices(b, targets) =~= wanted_devices(
            a,
            targets,
        ));
    } else {
        assert((a + b).drop_last() =~= a + b.drop_last());
        law_listed_in_order(a, b.drop_last(), device, targets);
        assert(wanted_devices(a + b, targets) =~= wanted_devices(a, targets) + wanted_devices(
            b,
            targets,
        ));
    }
}

/// Law: the types that are asked for are those that are looked for.
pub proof fn law_targets_as_asked(targets: &[Target])
    ensures
        wanted_targets(Some(targets)) == targets@,
        wanted_targets(None) == seq![Target::Rp2040, Target::Rp2350],
{
}

/// Whether a device has the IDs of one of the types.
fn wanted(device: &DeviceInfo, targets: &[Target]) -> (yes: bool)
    ensures
        yes == is_wanted(*device, targets@),
{
    let mut i: usize = 0;
    while i < targets.len()
        invariant
            i <= targets@.len(),
            forall|j: int| 0 <= j < i ==> !has_ids(*device, #[trigger] targets@[j]),
        decreases targets@.len() - i,
    {
        let target = targets[i];
        if device.vendor_id == target.vid() && device.product_id == target.pid() {
            assert(has_ids(*device, targets@[i as int]));
            return true;
        }
        i = i + 1;
    }
    false
}

/// The attached PICOBOOT devices.
///
/// Either all RP2040/RP2350 devices with stock VID/PID, or, if `targets` is
/// provided, only those types.
pub(crate) fn select_devices(
    attached: Result<Vec<DeviceInfo>, UsbError>,
    targets: Option<&[Target]>,
) -> (found: Result<Vec<DeviceInfo>, Error>)
    ensures
        match attached {
            Err(e) => found == Err::<Vec<DeviceInfo>, Error>(Error::UsbEnumerationError(e)),
            Ok(devices) => found is Ok && found->Ok_0@ == wanted_devices(
                devices@,
                wanted_targets(targets),
            ),
        },
{
    let mut devices = match attached {
        Err(e) => return Err(Error::UsbEnumerationError(e)),
        Ok(devices) => devices,
    };
    let stock: [Target; 2] = [Target::Rp2040, Target::Rp2350];
    let targets: &[Target] = match targets {
        Some(targets) => targets,
        None => stock.as_slice(),
    };
    let ghost all = devices@;
    let ghost want = |device: DeviceInfo| is_wanted(device, targets@);
    let mut found: Vec<DeviceInfo> = Vec::new();
    let ghost mut done: int = 0;
    while devices.len() > 0
        invariant
            0 <= done <= all.len(),
            devices@ == all.skip(done),
            found@ == all.take(done).filter(want),
            want == (|device: DeviceInfo| is_wanted(device, targets@)),
        decreases devices@.len(),
    {
        let device = devices.remove(0);
        proof {
            assert(device == all[done]);
            assert(all.take(done + 1).drop_last() =~= all.take(done));
            assert(all.take(done + 1).last() == device);
            reveal(Seq::filter);
        }
        if wanted(&device, targets) {
            found.push(device);
        }
        proof {
            done = done + 1;
            assert(devices@ =~= all.skip(done));
        }
    }
    proof {
        assert(all.take(done) =~= all);
        assert(stock@ =~= seq![Target::Rp2040, Target::Rp2350]);
    }
    Ok(found)
}

// ----- the PICOBOOT interface -----

/// Kind of transfer an endpoint is for.
#[derive(Debug, Clone, Copy, PartialEq, Eq, Structural)]
pub enum TransferType {
    Control,
    Isochronous,
    Bulk,
    Interrupt,
}

/// An endpoint of a device.
#[derive(Debug, Clone, Copy, PartialEq, Eq, Structural)]
pub struct EndpointInfo {
    /// Address, direction bit and all
    pub address: u8,
    /// Kind of transfer
    pub transfer_type: TransferType,
    /// Direction of transfers
    pub direction: Direction,
    /// Bytes of the largest packet
    pub max_packet_size: usize,
}

/// An alternate setting of an interface.
#[derive(Debug)]
pub struct InterfaceSetting {
    /// Number of the interface
    pub interface_number: u8,
    /// USB class
    pub class: u8,
    /// USB subclass
    pub subclass: u8,
    /// Endpoints, in the order the device lists them
    pub endpoints: Vec<EndpointInfo>,
}

/// An interface of a device.
#[derive(Debug)]
pub struct InterfaceInfo {
    /// Alternate settings, in the order the device lists them
    pub alt_settings: Vec<InterfaceSetting>,
}

/// A configuration of a device.
#[derive(Debug)]
pub struct Configuration {
    /// Interfaces, in the order the device lists them
    pub interfaces: Vec<InterfaceInfo>,
}

/// Where PICOBOOT is found on a device.
#[derive(Debug, Clone, Copy, PartialEq, Eq, Structural)]
pub struct PicobootInterface {
    /// Number of the interface
    pub if_num: u8,
    /// Address of the bulk IN endpoint
    pub in_ep: u8,
    /// Bytes of the bulk IN endpoint's largest packet
    pub in_ep_max_packet_size: usize,
    /// Address of the bulk OUT endpoint
    pub out_ep: u8,
}

/// The last bulk endpoint in a direction.
pub open spec fn last_bulk(endpoints: Seq<EndpointInfo>, direction: Direction) -> Option<
    EndpointInfo,
>
    decreases endpoints.len(),
{
    if endpoints.len() == 0 {
        None
    } else if endpoints.last().transfer_type == TransferType::Bulk && endpoints.last().direction
        == direction {
        Some(endpoints.last())
    } else {
        last_bulk(endpoints.drop_last(), direction)
    }
}

/// Where PICOBOOT is found in a setting: it has the class and the subclass, and
/// bulk endpoints in both directions.
pub open spec fn interface_of(setting: InterfaceSetting) -> Option<PicobootInterface> {
    if setting.class == PICOBOOT_USB_CLASS && setting.subclass == PICOBOOT_USB_SUBCLASS {
        match (
            last_bulk(setting.endpoints@, Direction::In),
            last_bulk(setting.endpoints@, Direction::Out),
        ) {
            (Some(found_in), Some(found_out)) => Some(
                PicobootInterface {
                    if_num: setting.interface_number,
                    in_ep: found_in.address,
                    in_ep_max_packet_size: found_in.max_packet_size,
                    out_ep: found_out.address,
                },
            ),
            _ => None,
        }
    } else {
        None
    }
}

/// The settings of some interfaces, in order.
pub open spec fn interface_settings(interfaces: Seq<InterfaceInfo>) -> Seq<InterfaceSetting>
    decreases interfaces.len(),
{
    if interfaces.len() == 0 {
        Seq::empty()
    } else {
        interface_settings(interfaces.drop_last()) + interfaces.last().alt_settings@
    }
}

/// The settings of some configurations, in order.
pub open spec fn device_settings(configurations: Seq<Configuration>) -> Seq<InterfaceSetting>
    decreases configurations.len(),
{
    if configurations.len() == 0 {
        Seq::empty()
    } else {
        device_settings(configurations.drop_last()) + interface_settings(
            configurations.last().interfaces@,
        )
    }
}

/// Where PICOBOOT is found first.
pub open spec fn first_interface(settings: Seq<InterfaceSetting>) -> Option<PicobootInterface>
    decreases settings.len(),
{
    if settings.len() == 0 {
        None
    } else {
        match first_interface(settings.drop_last()) {
            Some(found) => Some(found),
            None => interface_of(settings.last()),
        }
    }
}

/// What is found in `a` is found in `a` followed by `b`; else `b` decides.
proof fn lemma_first_of_two(a: Seq<InterfaceSetting>, b: Seq<InterfaceSetting>)
    ensures
        first_interface(a + b) == (match first_interface(a) {
            Some(found) => Some(found),
            None => first_interface(b),
        }),
    decreases b.len(),
{
    if b.len() == 0 {
        assert(a + b =~= a);
    } else {
        assert((a + b).drop_last() =~= a + b.drop_last());
        lemma_first_of_two(a, b.drop_last());
    }
}

/// Law: the PICOBOOT interface is that of the first setting that has one, and
/// there is none only if no setting has one.
pub proof fn law_first_interface(settings: Seq<InterfaceSetting>)
    ensures
        first_interface(settings) is None ==> forall|i: int|
            0 <= i < settings.len() ==> interface_of(#[trigger] settings[i]) is None,
        first_interface(settings) is Some ==> exists|i: int|
            {
                &&& 0 <= i < settings.len()
                &&& interface_of(#[trigger] settings[i]) == first_interface(settings)
                &&& forall|j: int| 0 <= j < i ==> interface_of(#[trigger] settings[j]) is None
            },
    decreases settings.len(),
{
    if settings.len() > 0 {
        let front = settings.drop_last();
        let last = settings.len() - 1;
        law_first_interface(front);
        assert forall|i: int| 0 <= i < last implies settings[i] == front[i] by {}
        if first_interface(front) is Some {
            let i = choose|i: int|
                {
                    &&& 0 <= i < front.len()
                    &&& interface_of(#[trigger] front[i]) == first_interface(front)
                    &&& forall|j: int| 0 <= j < i ==> interface_of(#[trigger] front[j]) is None
                };
            assert forall|j: int| 0 <= j < i implies interface_of(#[trigger] settings[j]) is None by {
                assert(interface_of(front[j]) is None);
            }
            assert(interface_of(settings[i]) == first_interface(settings));
        } else {
            assert forall|i: int| 0 <= i < last implies interface_of(
                #[trigger] settings[i],
            ) is None by {
                assert(interface_of(front[i]) is None);
            }
            if interface_of(settings[last]) is Some {
                assert(interface_of(settings[last]) == first_interface(settings));
            }
        }
    }
}

/// Law: the endpoint chosen in a direction is a bulk endpoint in that direction,
/// and there is one if any endpoint is.
pub proof fn law_last_bulk(endpoints: Seq<EndpointInfo>, direction: Direction)
    ensures
        match last_bulk(endpoints, direction) {
            Some(endpoint) => {
                &&& endpoints.contains(endpoint)
                &&& endpoint.transfer_type == TransferType::Bulk
                &&& endpoint.direction == direction
            },
            None => forall|i: int|
                0 <= i < endpoints.len() ==> (#[trigger] endpoints[i]).transfer_type
                    != TransferType::Bulk || endpoints[i].direction != direction,
        },
    decreases endpoints.len(),
{
    if endpoints.len() > 0 {
        law_last_bulk(endpoints.drop_last(), direction);
        assert(endpoints.last() == endpoints[endpoints.len() - 1]);
        match last_bulk(endpoints.drop_last(), direction) {
            Some(endpoint) => {
                let i = choose|i: int|
                    0 <= i < endpoints.drop_last().len() && endpoints.drop_last()[i] == endpoint;
                assert(endpoints[i] == endpoint);
            },
            None => {
                assert forall|i: int| 0 <= i < endpoints.len() - 1 implies (
                #[trigger] endpoints[i]).transfer_type != TransferType::Bulk
                    || endpoints[i].direction != direction by {
                    assert(endpoints[i] == endpoints.drop_last()[i]);
                }
            },
        }
    }
}

/// Law: of the bulk endpoints in a direction, the last one is chosen.
pub proof fn law_last_bulk_is_last(endpoints: Seq<EndpointInfo>, direction: Direction, i: int)
    requires
        0 <= i < endpoints.len(),
        endpoints[i].transfer_type == TransferType::Bulk,
        endpoints[i].direction == direction,
        forall|j: int|
            i < j < endpoints.len() ==> !((#[trigger] endpoints[j]).transfer_type
                == TransferType::Bulk && endpoints[j].direction == direction),
    ensures
        last_bulk(endpoints, direction) == Some(endpoints[i]),
    decreases endpoints.len(),
{
    if i < endpoints.len() - 1 {
        let front = endpoints.drop_last();
        assert(endpoints.last() == endpoints[endpoints.len() - 1]);
        assert forall|j: int| i < j < front.len() implies !((#[trigger] front[j]).transfer_type
            == TransferType::Bulk && front[j].direction == direction) by {
            assert(front[j] == endpoints[j]);
        }
        law_last_bulk_is_last(front, direction, i);
    }
}

/// Law: PICOBOOT is found in a setting if and only if it is of class 0xff and
/// subclass 0 and has bulk endpoints in both directions, and then there.
pub proof fn law_interface_of(setting: InterfaceSetting)
    ensures
        interface_of(setting) is Some <==> {
            &&& setting.class == 0xff
            &&& setting.subclass == 0
            &&& exists|i: int|
                0 <= i < setting.endpoints@.len() && (#[trigger] setting.endpoints@[i]).transfer_type
                    == TransferType::Bulk && setting.endpoints@[i].direction == Direction::In
            &&& exists|i: int|
                0 <= i < setting.endpoints@.len() && (#[trigger] setting.endpoints@[i]).transfer_type
                    == TransferType::Bulk && setting.endpoints@[i].direction == Direction::Out
        },
        interface_of(setting) matches Some(found) ==> {
            &&& found.if_num == setting.interface_number
            &&& last_bulk(setting.endpoints@, Direction::In) matches Some(e) && found.in_ep
                == e.address && found.in_ep_max_packet_size == e.max_packet_size
            &&& last_bulk(setting.endpoints@, Direction::Out) matches Some(e) && found.out_ep
                == e.address
        },
{
    law_last_bulk(setting.endpoints@, Direction::In);
    law_last_bulk(setting.endpoints@, Direction::Out);
    if let Some(e) = last_bulk(setting.endpoints@, Direction::In) {
        let i = setting.endpoints@.index_of(e);
        assert(setting.endpoints@[i] == e);
    }
    if let Some(e) = last_bulk(setting.endpoints@, Direction::Out) {
        let i = setting.endpoints@.index_of(e);
        assert(setting.endpoints@[i] == e);
    }
}

/// Law: settings are searched in the order the device lists them: those of its
/// first configurations before those of the others, and in each those of its first
/// interfaces before those of the others.
pub proof fn law_settings_in_order(
    a: Seq<Configuration>,
    b: Seq<Configuration>,
    c: Seq<InterfaceInfo>,
    d: Seq<InterfaceInfo>,
    configuration: Configuration,
    interface: InterfaceInfo,
)
    ensures
        device_settings(a + b) == device_settings(a) + device_settings(b),
        device_settings(seq![configuration]) == interface_settings(configuration.interfaces@),
        interface_settings(c + d) == interface_settings(c) + interface_settings(d),
        interface_settings(seq![interface]) == interface.alt_settings@,
    decreases b.len() + d.len(),
{
    reveal_with_fuel(device_settings, 2);
    reveal_with_fuel(interface_settings, 2);
    let one = seq![configuration];
    assert(one.drop_last() =~= Seq::empty());
    assert(device_settings(one) =~= interface_settings(configuration.interfaces@));
    let other = seq![interface];
    assert(other.drop_last() =~= Seq::empty());
    assert(interface_settings(other) =~= interface.alt_settings@);
    if b.len() > 0 {
        assert((a + b).drop_last() =~= a + b.drop_last());
        law_settings_in_order(a, b.drop_last(), c, Seq::empty(), configuration, interface);
    } else {
        assert(a + b =~= a);
    }
    assert(device_settings(a + b) =~= device_settings(a) + device_settings(b));
    if d.len() > 0 {
        assert((c + d).drop_last() =~= c + d.drop_last());
        law_settings_in_order(Seq::empty(), Seq::empty(), c, d.drop_last(), configuration, interface);
    } else {
        assert(c + d =~= c);
    }
    assert(interface_settings(c + d) =~= interface_settings(c) + interface_settings(d));
}

/// The last bulk endpoint in a direction.
fn find_bulk(endpoints: &Vec<EndpointInfo>, direction: Direction) -> (found: Option<EndpointInfo>)
    ensures
        found == last_bulk(endpoints@, direction),
{
    let mut found: Option<EndpointInfo> = None;
    let mut i: usize = 0;
    assert(endpoints@.take(0) =~= Seq::empty());
    while i < endpoints.len()
        invariant
            i <= endpoints@.len(),
            found == last_bulk(endpoints@.take(i as int), direction),
        decreases endpoints@.len() - i,
    {
        let endpoint = endpoints[i];
        assert(endpoints@.take(i + 1).drop_last() =~= endpoints@.take(i as int));
        if endpoint.transfer_type == TransferType::Bulk && endpoint.direction == direction {
            found = Some(endpoint);
        }
        i = i + 1;
    }
    assert(endpoints@.take(i as int) =~= endpoints@);
    found
}

/// Where PICOBOOT is found in a setting.
fn find_in_setting(setting: &InterfaceSetting) -> (found: Option<PicobootInterface>)
    ensures
        found == interface_of(*setting),
{
    if setting.class != PICOBOOT_USB_CLASS || setting.subclass != PICOBOOT_USB_SUBCLASS {
        return None;
    }
    match (find_bulk(&setting.endpoints, Direction::In), find_bulk(
        &setting.endpoints,
        Direction::Out,
    )) {
        (Some(found_in), Some(found_out)) => Some(
            PicobootInterface {
                if_num: setting.interface_number,
                in_ep: found_in.address,
                in_ep_max_packet_size: found_in.max_packet_size,
                out_ep: found_out.address,
            },
        ),
        _ => None,
    }
}

/// Where PICOBOOT is found first in some settings.
fn find_in_settings(settings: &Vec<InterfaceSetting>) -> (found: Option<PicobootInterface>)
    ensures
        found == first_interface(settings@),
{
    let mut i: usize = 0;
    assert(settings@.take(0) =~= Seq::empty());
    while i < settings.len()
        invariant
            i <= settings@.len(),
            first_interface(settings@.take(i as int)) is None,
        decreases settings@.len() - i,
    {
        let found = find_in_setting(&settings[i]);
        proof {
            assert(settings@.take(i + 1).drop_last() =~= settings@.take(i as int));
            lemma_first_of_two(settings@.take(i + 1), settings@.skip(i + 1));
            assert(settings@ =~= settings@.take(i + 1) + settings@.skip(i + 1));
        }
        if found.is_some() {
            return found;
        }
        i = i + 1;
    }
    assert(settings@.take(i as int) =~= settings@);
    None
}

/// Where PICOBOOT is found first in some interfaces.
fn find_in_interfaces(interfaces: &Vec<InterfaceInfo>) -> (found: Option<PicobootInterface>)
    ensures
        found == first_interface(interface_settings(interfaces@)),
{
    let mut i: usize = 0;
    assert(interfaces@.take(0) =~= Seq::empty());
    while i < interfaces.len()
        invariant
            i <= interfaces@.len(),
            first_interface(interface_settings(interfaces@.take(i as int))) is None,
        decreases interfaces@.len() - i,
    {
        let found = find_in_settings(&interfaces[i].alt_settings);
        proof {
            let before = interface_settings(interfaces@.take(i as int));
            let here = interfaces@[i as int].alt_settings@;
            assert(interfaces@.take(i + 1).drop_last() =~= interfaces@.take(i as int));
            lemma_first_of_two(before, here);
            lemma_interfaces_split(interfaces@, i + 1);
        }
        if found.is_some() {
            return found;
        }
        i = i + 1;
    }
    assert(interfaces@.take(i as int) =~= interfaces@);
    None
}

/// What the first interfaces have is found whatever follows.
proof fn lemma_interfaces_split(interfaces: Seq<InterfaceInfo>, n: int)
    requires
        0 <= n <= interfaces.len(),
    ensures
        first_interface(interface_settings(interfaces.take(n))) is Some ==> first_interface(
            interface_settings(interfaces),
        ) == first_interface(interface_settings(interfaces.take(n))),
    decreases interfaces.len(),
{
    if n == interfaces.len() {
        assert(interfaces.take(n) =~= interfaces);
    } else {
        let front = interfaces.drop_last();
        assert(front.take(n) =~= interfaces.take(n));
        lemma_interfaces_split(front, n);
        lemma_first_of_two(interface_settings(front), interfaces.last().alt_settings@);
    }
}

/// Where PICOBOOT is found first on a device.
///
/// That is an interface that matches the PICOBOOT class/subclass _and_ has bulk
/// IN and OUT endpoints.  That matches an RP2040/RP2350 in BOOTSEL mode, but
/// also custom targets like One ROM.
pub(crate) fn find_interface(configurations: &Vec<Configuration>) -> (found: Option<
    PicobootInterface,
>)
    ensures
        found == first_interface(device_settings(configurations@)),
{
    let mut i: usize = 0;
    assert(configurations@.take(0) =~= Seq::empty());
    while i < configurations.len()
        invariant
            i <= configurations@.len(),
            first_interface(device_settings(configurations@.take(i as int))) is None,
        decreases configurations@.len() - i,
    {
        let found = find_in_interfaces(&configurations[i].interfaces);
        proof {
            let before = device_settings(configurations@.take(i as int));
            let here = interface_settings(configurations@[i as int].interfaces@);
            assert(configurations@.take(i + 1).drop_last() =~= configurations@.take(i as int));
            lemma_first_of_two(before, here);
            lemma_configurations_split(configurations@, i + 1);
        }
        if found.is_some() {
            return found;
        }
        i = i + 1;
    }
    assert(configurations@.take(i as int) =~= configurations@);
    None
}

/// What the first configurations have is found whatever follows.
proof fn lemma_configurations_split(configurations: Seq<Configuration>, n: int)
    requires
        0 <= n <= configurations.len(),
    ensures
        first_interface(device_settings(configurations.take(n))) is Some ==> first_interface(
            device_settings(configurations),
        ) == first_interface(device_settings(configurations.take(n))),
    decreases configurations.len(),
{
    if n == configurations.len() {
        assert(configurations.take(n) =~= configurations);
    } else {
        let front = configurations.drop_last();
        assert(front.take(n) =~= configurations.take(n));
        lemma_configurations_split(front, n);
        lemma_first_of_two(
            device_settings(front),
            interface_settings(configurations.last().interfaces@),
        );
    }
}

} // verus!
