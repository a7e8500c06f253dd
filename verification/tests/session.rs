use std::collections::BTreeMap;

use picoboot::{
    copy_out, Access, BulkError, ClearHaltError, Configuration, Connection, Control, ControlType,
    Detached, DeviceInfo, Direction, Duration, EndpointInfo, Error, Incomplete, InterfaceInfo,
    InterfaceSetting, Picoboot, PicobootCmd, PicobootCmdId, PicobootReader, PicobootStatus,
    PicobootXCmd, ReaderError, RebootType, Received, Recipient, Reply, Request, Step, Target,
    Timeouts, TransferError, TransferType, UsbError, UsbErrorKind, Value,
};

const IN_EP: u8 = 0x84;
const OUT_EP: u8 = 0x03;

fn picoboot(vid: u16, pid: u16) -> Picoboot {
    let info = DeviceInfo {
        slot: 0,
        vendor_id: vid,
        product_id: pid,
        bus_id: String::from("1"),
        device_address: 7,
        serial_number: None,
        device_version: 1,
        manufacturer_string: None,
        product_string: None,
        usb_version: 0x0200,
        speed: None,
    };
    let bulk = |address: u8, direction: Direction| EndpointInfo {
        address,
        transfer_type: TransferType::Bulk,
        direction,
        max_packet_size: 64,
    };
    let setting = InterfaceSetting {
        interface_number: 1,
        class: 0xff,
        subclass: 0,
        endpoints: vec![bulk(OUT_EP, Direction::Out), bulk(IN_EP, Direction::In)],
    };
    let interface = InterfaceInfo { alt_settings: vec![setting] };
    Picoboot::new(info, Ok(vec![Configuration { interfaces: vec![interface] }])).ok().unwrap()
}

fn rp2040() -> Picoboot {
    picoboot(0x2e8a, 0x0003)
}

fn rp2350() -> Picoboot {
    picoboot(0x2e8a, 0x000f)
}

fn custom() -> Picoboot {
    picoboot(0x1209, 0xf540)
}

fn refusal() -> UsbError {
    UsbError { kind: UsbErrorKind::Busy, os_error: Some(16), message: String::from("busy") }
}

/// A device with memory, which may be told to misbehave.
#[derive(Default)]
struct Device {
    memory: BTreeMap<u32, u8>,
    pending: Option<Vec<u8>>,
    log: Vec<String>,
    tokens: Vec<u32>,
    no_driver: bool,
    halted: Vec<u8>,
    /// Actions, by the words they are logged with, that fail
    failing: Vec<&'static str>,
    /// Bytes that a read returns beyond or short of what it was asked for
    surplus: isize,
    /// Resets that succeed, if not all do
    good_resets: Option<usize>,
    status: Vec<u8>,
}

impl Device {
    fn fails(&mut self, what: &str) -> bool {
        let fails = self.failing.contains(&what);
        self.log.push(String::from(what));
        fails
    }

    fn command(data: &[u8]) -> &'static str {
        match data[8] {
            0x01 => "exclusive",
            0x02 => "reboot",
            0x03 => "erase",
            0x05 => "write",
            0x06 => "exit_xip",
            0x07 => "enter_xip",
            0x0a => "reboot2",
            0x84 => "read",
            _ => "extension",
        }
    }

    fn word(data: &[u8], at: usize) -> u32 {
        u32::from_le_bytes([data[at], data[at + 1], data[at + 2], data[at + 3]])
    }

    fn serve(&mut self, request: Request) -> Reply {
        match request {
            Request::Open => Reply::Open(if self.fails("open") { Err(refusal()) } else { Ok(()) }),
            Request::DetachKernelDriver { if_num } => {
                assert_eq!(if_num, 1);
                Reply::DetachKernelDriver(if self.fails("detach") {
                    Detached::Failed(refusal())
                } else if self.no_driver {
                    Detached::NotActive
                } else {
                    Detached::Yes
                })
            }
            Request::ClaimInterface { if_num } => {
                assert_eq!(if_num, 1);
                Reply::ClaimInterface(if self.fails("claim") { Err(refusal()) } else { Ok(()) })
            }
            Request::ControlIn { control, .. } => {
                if control.control_type == ControlType::Vendor {
                    assert_eq!(control.recipient, Recipient::Interface);
                    assert_eq!((control.request, control.value), (0x42, 0));
                    assert_eq!((control.index, control.length), (1, 16));
                    return Reply::ControlIn(if self.fails("status") {
                        Err(TransferError::Stall)
                    } else {
                        Ok(self.status.clone())
                    });
                }
                assert_eq!(control.recipient, Recipient::Endpoint);
                assert_eq!((control.request, control.value, control.length), (0, 0, 2));
                let endpoint = control.index as u8;
                Reply::ControlIn(if self.fails("endpoint") {
                    Err(TransferError::Disconnected)
                } else {
                    Ok(vec![self.halted.contains(&endpoint) as u8, 0])
                })
            }
            Request::ControlOut { control, .. } => {
                assert_eq!(control.control_type, ControlType::Vendor);
                assert_eq!((control.request, control.index, control.length), (0x41, 1, 0));
                self.halted.clear();
                self.pending = None;
                let spent = match &mut self.good_resets {
                    Some(0) => true,
                    Some(left) => {
                        *left -= 1;
                        false
                    }
                    None => false,
                };
                Reply::ControlOut(if self.fails("reset") || spent {
                    Err(TransferError::Fault)
                } else {
                    Ok(())
                })
            }
            Request::ClearHalt { endpoint, direction } => {
                let expected = if direction == Direction::In { IN_EP } else { OUT_EP };
                assert_eq!(endpoint, expected);
                assert!(self.halted.contains(&endpoint), "clears a halt that was not reported");
                Reply::ClearHalt(if self.fails("clear endpoint") {
                    Err(ClearHaltError::Endpoint(refusal()))
                } else if self.fails("clear") {
                    Err(ClearHaltError::Clear(refusal()))
                } else {
                    Ok(())
                })
            }
            Request::BulkOut { endpoint, data, .. } => {
                assert_eq!(endpoint, OUT_EP);
                match self.pending.take() {
                    Some(cmd) => {
                        let what = if cmd[8] == 0x05 { "data" } else { "ack" };
                        if self.fails(what) {
                            return Reply::BulkOut(Err(BulkError::Transfer(TransferError::Stall)));
                        }
                        if cmd[8] == 0x05 {
                            let addr = Self::word(&cmd, 16);
                            let mut stored = data.clone();
                            while (0x1000_0000..0x2000_0000).contains(&addr) && stored.len() % 256 != 0 {
                                stored.push(0);
                            }
                            for (i, byte) in stored.iter().enumerate() {
                                self.memory.insert(addr + i as u32, *byte);
                            }
                        } else {
                            assert_eq!(data, vec![0]);
                        }
                    }
                    None => {
                        assert_eq!(data.len(), 32);
                        self.tokens.push(Self::word(&data, 4));
                        let what = Self::command(&data);
                        if self.fails(what) {
                            return Reply::BulkOut(Err(BulkError::Transfer(TransferError::Stall)));
                        }
                        if self.fails("short") {
                            return Reply::BulkOut(Ok(31));
                        }
                        self.log.pop();
                        self.log.push(format!(
                            "{:x} {:x} {:x}",
                            Self::word(&data, 16),
                            Self::word(&data, 20),
                            Self::word(&data, 12)
                        ));
                        if data[8] == 0x03 {
                            let (addr, size) = (Self::word(&data, 16), Self::word(&data, 20));
                            self.memory.retain(|at, _| *at < addr || *at >= addr + size);
                        }
                        if data[8] == 0x05 || data[8] >= 0x80 {
                            self.pending = Some(data.clone());
                        }
                    }
                }
                Reply::BulkOut(Ok(data.len()))
            }
            Request::BulkIn { endpoint, len, .. } => {
                assert_eq!(endpoint, IN_EP);
                assert_eq!(len % 64, 0);
                match &self.pending {
                    Some(cmd) => {
                        let addr = Self::word(cmd, 16);
                        let size = Self::word(cmd, 12) as isize + self.surplus;
                        let data: Vec<u8> = (0..size as u32)
                            .map(|i| *self.memory.get(&(addr + i)).unwrap_or(&0xff))
                            .collect();
                        if self.fails("in") {
                            return Reply::BulkIn(Err(BulkError::Endpoint(refusal())));
                        }
                        let actual_len = data.len();
                        Reply::BulkIn(Ok(Received { data, actual_len }))
                    }
                    None => {
                        assert_eq!(len, 64);
                        if self.fails("ack") {
                            return Reply::BulkIn(Err(BulkError::Transfer(TransferError::Cancelled)));
                        }
                        Reply::BulkIn(Ok(Received { data: vec![], actual_len: 0 }))
                    }
                }
            }
            Request::Release { reattach } => {
                self.log.push(match reattach {
                    Some(if_num) => format!("release {if_num}"),
                    None => String::from("release"),
                });
                Reply::Release
            }
        }
    }

    fn on_picoboot(&mut self, picoboot: &mut Picoboot, first: Step) -> Result<Value, Error> {
        let mut step = first;
        loop {
            match step {
                Step::Done(result) => return result,
                Step::Ask(request) => step = picoboot.resume(self.serve(request)),
            }
        }
    }

    fn on_connection(&mut self, conn: &mut Connection, first: Step) -> Result<Value, Error> {
        let mut step = first;
        loop {
            match step {
                Step::Done(result) => return result,
                Step::Ask(request) => step = conn.resume(self.serve(request)),
            }
        }
    }

    fn on_reader(&mut self, reader: &mut PicobootReader, first: Step) -> Result<Value, Error> {
        let mut step = first;
        loop {
            match step {
                Step::Done(result) => return result,
                Step::Ask(request) => step = reader.resume(self.serve(request)),
            }
        }
    }

    fn connect(&mut self, picoboot: &mut Picoboot) {
        let first = picoboot.connect();
        assert!(matches!(self.on_picoboot(picoboot, first), Ok(Value::Unit)));
        self.log.clear();
    }

    fn log(&self) -> Vec<&str> {
        self.log.iter().map(|s| s.as_str()).collect()
    }
}

fn device() -> Device {
    Device { status: vec![0; 16], ..Device::default() }
}

fn bytes(result: Result<Value, Error>) -> Vec<u8> {
    match result {
        Ok(Value::Bytes(data)) => data,
        other => panic!("no data: {other:?}"),
    }
}

fn unit(result: Result<Value, Error>) {
    assert!(matches!(result, Ok(Value::Unit)), "not done: {result:?}");
}

fn error(result: Result<Value, Error>) -> Error {
    match result {
        Err(e) => e,
        Ok(value) => panic!("no error: {value:?}"),
    }
}

const RESET: [&str; 4] = ["status", "endpoint", "endpoint", "reset"];

fn joined(parts: &[&[&'static str]]) -> Vec<&'static str> {
    parts.concat()
}

// ----- connecting -----

#[test]
fn connecting_detaches_the_driver_before_claiming() {
    let (mut d, mut p) = (device(), rp2040());
    let first = p.connect();
    unit(d.on_picoboot(&mut p, first));
    assert_eq!(d.log(), ["open", "detach", "claim"]);
    assert!(p.is_connected());
    assert!(p.start().kernel_driver_detached);
    assert_eq!(p.start().cmd_token, 1);

    // Connecting again does nothing.
    assert!(matches!(p.connect(), Step::Done(Ok(Value::Unit))));
    assert_eq!(
        p.disconnect(),
        Some(Request::Release { reattach: Some(1) })
    );
    assert!(!p.is_connected());
    assert_eq!(p.disconnect(), None);
}

#[test]
fn a_driver_that_was_not_active_is_not_reattached() {
    let (mut d, mut p) = (device(), rp2040());
    d.no_driver = true;
    d.connect(&mut p);
    assert!(!p.start().kernel_driver_detached);
    assert_eq!(p.disconnect(), Some(Request::Release { reattach: None }));
}

#[test]
fn connecting_fails_with_the_reason() {
    let cases = [
        ("open", Error::UsbOpenError(Target::Rp2040, refusal())),
        ("detach", Error::UsbDetachKernelDriverFailure(Target::Rp2040, refusal())),
        ("claim", Error::UsbClaimInterfaceFailure(Target::Rp2040, refusal())),
    ];
    for (what, expected) in cases {
        let (mut d, mut p) = (device(), rp2040());
        d.failing.push(what);
        let first = p.connect();
        assert_eq!(error(d.on_picoboot(&mut p, first)), expected);
        assert!(!p.is_connected());
        assert_eq!(d.log.last().unwrap(), what);

        // So does an operation that needs a connection.
        let first = p.read(0x2000_0000, 4);
        assert_eq!(error(d.on_picoboot(&mut p, first)), expected);
    }
}

// ----- resetting -----

#[test]
fn only_reported_halts_are_cleared() {
    for halted in [vec![], vec![IN_EP], vec![OUT_EP], vec![IN_EP, OUT_EP]] {
        let (mut d, mut p) = (device(), rp2040());
        d.connect(&mut p);
        d.halted = halted.clone();
        let conn = p.connection().unwrap();
        let first = conn.reset_interface();
        unit(d.on_connection(conn, first));
        let clears = d.log().iter().filter(|s| **s == "clear").count();
        assert_eq!(clears, halted.len());
        assert_eq!(d.log().last(), Some(&"reset"));
    }
}

#[test]
fn a_device_that_does_not_say_is_not_halted() {
    let (mut d, mut p) = (device(), rp2040());
    d.connect(&mut p);
    d.halted = vec![IN_EP, OUT_EP];
    d.failing = vec!["endpoint", "status"];
    let conn = p.connection().unwrap();
    let first = conn.reset_interface();
    unit(d.on_connection(conn, first));
    assert_eq!(d.log(), RESET);

    // Nor is one that says nothing, or sets other bits.
    for answer in [vec![], vec![0xfe, 0x01]] {
        let conn = p.connection().unwrap();
        assert!(matches!(conn.reset_interface(), Step::Ask(Request::ControlIn { .. })));
        conn.resume(Reply::ControlIn(Ok(vec![])));
        let next = conn.resume(Reply::ControlIn(Ok(answer)));
        assert!(matches!(next, Step::Ask(Request::ControlIn { .. })));
    }
}

#[test]
fn resetting_fails_with_the_reason() {
    let t = Target::Rp2040;
    let cases = [
        ("clear endpoint", IN_EP, Error::UsbInEndpointClaimFailure(t, refusal())),
        ("clear", IN_EP, Error::UsbClearInEndpointHaltFailure(t, refusal())),
        ("clear endpoint", OUT_EP, Error::UsbOutEndpointClaimFailure(t, refusal())),
        ("clear", OUT_EP, Error::UsbClearOutEndpointHaltFailure(t, refusal())),
        ("reset", OUT_EP, Error::PicobootResetInterfaceFailure(t, TransferError::Fault)),
    ];
    for (what, halted, expected) in cases {
        let (mut d, mut p) = (device(), rp2040());
        d.connect(&mut p);
        d.halted = vec![halted];
        d.failing.push(what);
        let conn = p.connection().unwrap();
        let first = conn.reset_interface();
        assert_eq!(error(d.on_connection(conn, first)), expected);
    }
}

// ----- timeouts -----

fn timeout_of(step: Step) -> Duration {
    match step {
        Step::Ask(Request::ControlIn { timeout, .. }) => timeout,
        Step::Ask(Request::ControlOut { timeout, .. }) => timeout,
        Step::Ask(Request::BulkOut { timeout, .. }) => timeout,
        Step::Ask(Request::BulkIn { timeout, .. }) => timeout,
        _ => panic!("no transfer"),
    }
}

#[test]
fn timeouts_are_honoured_on_an_open_connection() {
    let (mut d, mut p) = (device(), rp2040());
    d.connect(&mut p);
    let timeouts = Timeouts {
        endpoint: Duration::from_secs(11),
        command_status: Duration::from_secs(12),
        reset: Duration::from_secs(13),
    };
    p.set_timeouts(timeouts);
    assert_eq!(p.start().timeouts, timeouts);
    let conn = p.connection().unwrap();
    assert_eq!(timeout_of(conn.get_command_status()), timeouts.command_status);
    assert_eq!(timeout_of(conn.reset_interface()), timeouts.command_status);
    let step = conn.resume(Reply::ControlIn(Err(TransferError::Stall)));
    assert_eq!(timeout_of(step), timeouts.reset);
    let step = conn.resume(Reply::ControlIn(Ok(vec![0, 0])));
    assert_eq!(timeout_of(step), timeouts.reset);
    let step = conn.resume(Reply::ControlIn(Ok(vec![0, 0])));
    assert_eq!(timeout_of(step), timeouts.reset);
    assert_eq!(timeout_of(conn.exit_xip()), timeouts.endpoint);
    let step = conn.resume(Reply::BulkOut(Ok(32)));
    assert_eq!(timeout_of(step), timeouts.endpoint);

    // And on the next one.
    p.disconnect();
    d.connect(&mut p);
    assert_eq!(p.start().timeouts, timeouts);
}

// ----- commands -----

#[test]
fn status_of_the_last_command() {
    let (mut d, mut p) = (device(), rp2040());
    d.connect(&mut p);
    d.status[0] = 9;
    d.status[4] = 10;
    let conn = p.connection().unwrap();
    let first = conn.get_command_status();
    match d.on_connection(conn, first) {
        Ok(Value::Status(status)) => {
            assert_eq!(status.get_token(), 9);
            assert_eq!(status.get_status_code(), PicobootStatus::NotPermitted);
        }
        other => panic!("no status: {other:?}"),
    }
    d.status.pop();
    let first = conn.get_command_status();
    assert_eq!(
        error(d.on_connection(conn, first)),
        Error::PicobootCmdDeserializeFailure(Target::Rp2040, Incomplete { bits: 8 })
    );
    d.failing.push("status");
    let first = conn.get_command_status();
    assert_eq!(
        error(d.on_connection(conn, first)),
        Error::PicobootGetCommandStatusFailure(Target::Rp2040, TransferError::Stall)
    );
}

#[test]
fn commands_are_sent_and_acknowledged() {
    let (mut d, mut p) = (device(), rp2040());
    d.connect(&mut p);
    let conn = p.connection().unwrap();
    let first = conn.set_exclusive_access(Access::Exclusive);
    unit(d.on_connection(conn, first));
    let first = conn.enter_xip();
    unit(d.on_connection(conn, first));
    let first = conn.exit_xip();
    unit(d.on_connection(conn, first));
    let first = conn.flash_erase_start(4097);
    unit(d.on_connection(conn, first));
    assert_eq!(
        d.log(),
        [
            "exclusive", "1 0 0", "ack", "enter_xip", "0 0 0", "ack", "exit_xip", "0 0 0", "ack",
            "erase", "10000000 2000 0", "ack",
        ]
    );
    assert_eq!(d.tokens, [1, 2, 3, 4]);
    assert_eq!(*conn.target(), Target::Rp2040);
    assert_eq!(conn.state().cmd_token, 5);
}

#[test]
fn low_level_commands_move_data_both_ways() {
    let (mut d, mut p) = (device(), rp2040());
    d.connect(&mut p);
    let conn = p.connection().unwrap();
    let first = conn.send_cmd(PicobootCmd::flash_write(0x2000_0000, 3), Some(vec![1, 2, 3]));
    assert!(bytes(d.on_connection(conn, first)).is_empty());
    let first = conn.send_cmd(PicobootCmd::flash_read(0x2000_0000, 3), None);
    assert_eq!(bytes(d.on_connection(conn, first)), [1, 2, 3]);
    assert_eq!(
        d.log(),
        ["write", "20000000 3 3", "data", "ack", "read", "20000000 3 3", "in", "ack"]
    );

    let first = conn.send_cmd(PicobootCmd::flash_write(0, 3), None);
    assert_eq!(
        error(d.on_connection(conn, first)),
        Error::PicobootCmdDataMissing(Target::Rp2040, PicobootCmdId::Write)
    );
    // The command itself went out, with its token.
    assert_eq!(d.tokens, [1, 2, 3]);
}

#[test]
fn extension_commands_follow_the_same_course() {
    let (mut d, mut p) = (device(), custom());
    d.connect(&mut p);
    let conn = p.connection().unwrap();
    let first = conn.send_picobootx_cmd(PicobootXCmd::new(7, 0x10, 0, 0, [0; 16]), None);
    assert!(bytes(d.on_connection(conn, first)).is_empty());
    assert_eq!(d.log(), ["extension", "0 0 0", "ack"]);
    let first = conn.send_picobootx_cmd(PicobootXCmd::new(7, 0x11, 0, 5, [0; 16]), None);
    assert_eq!(
        error(d.on_connection(conn, first)),
        Error::PicobootXCmdDataMissing(Target::Custom { vid: 0x1209, pid: 0xf540 }, 0x11)
    );
    d.memory.insert(0, 0x55);
    let first = conn.send_picobootx_cmd(PicobootXCmd::new(7, 0x91, 0, 1, [0; 16]), None);
    assert_eq!(bytes(d.on_connection(conn, first)), [0x55]);
    assert_eq!(d.tokens, [1, 2, 3]);
}

#[test]
fn transfers_fail_with_the_reason() {
    let t = Target::Rp2040;
    let (mut d, mut p) = (device(), rp2040());
    d.connect(&mut p);
    let conn = p.connection().unwrap();

    d.failing = vec!["exit_xip"];
    let first = conn.exit_xip();
    assert_eq!(
        error(d.on_connection(conn, first)),
        Error::UsbWriteBulkFailure(t, TransferError::Stall)
    );
    d.failing = vec!["short"];
    let first = conn.exit_xip();
    assert_eq!(error(d.on_connection(conn, first)), Error::UsbWriteBulkMismatch(t, 32, 31));
    d.failing = vec!["ack"];
    let first = conn.exit_xip();
    assert_eq!(
        error(d.on_connection(conn, first)),
        Error::UsbReadBulkFailure(t, TransferError::Cancelled)
    );
    d.failing = vec!["in"];
    let first = conn.read(0x2000_0000, 4);
    assert_eq!(
        error(d.on_connection(conn, first)),
        Error::UsbInEndpointClaimFailure(t, refusal())
    );
    d.failing.clear();
    d.pending = None;
    d.surplus = 1;
    let first = conn.read(0x2000_0000, 4);
    assert_eq!(error(d.on_connection(conn, first)), Error::UsbReadBulkMismatch(t, 4, 5));
    d.pending = None;
    d.surplus = -1;
    let first = conn.read(0x2000_0000, 4);
    assert_eq!(bytes(d.on_connection(conn, first)).len(), 3);

    assert!(matches!(conn.exit_xip(), Step::Ask(_)));
    match conn.resume(Reply::BulkOut(Err(BulkError::Endpoint(refusal())))) {
        Step::Done(Err(e)) => assert_eq!(e, Error::UsbOutEndpointClaimFailure(t, refusal())),
        _ => panic!("the endpoint could not be used"),
    }
}

/// An acknowledgement is not checked for its length.
#[test]
fn any_acknowledgement_will_do() {
    let (mut d, mut p) = (device(), rp2040());
    d.connect(&mut p);
    let conn = p.connection().unwrap();
    conn.exit_xip();
    conn.resume(Reply::BulkOut(Ok(32)));
    let got = Received { data: vec![1, 2, 3], actual_len: 3 };
    assert!(matches!(conn.resume(Reply::BulkIn(Ok(got))), Step::Done(Ok(Value::Unit))));
}

#[test]
fn reads_ask_for_whole_packets() {
    let (mut d, mut p) = (device(), rp2040());
    d.connect(&mut p);
    let conn = p.connection().unwrap();
    for (size, expected) in [(1u32, 64usize), (64, 64), (65, 128), (256, 256)] {
        conn.read(0x2000_0000, size);
        match conn.resume(Reply::BulkOut(Ok(32))) {
            Step::Ask(Request::BulkIn { len, .. }) => assert_eq!(len, expected),
            _ => panic!("reads nothing"),
        }
    }
    // Nothing to read, nothing to ask for.
    conn.read(0x2000_0000, 0);
    assert!(matches!(
        conn.resume(Reply::BulkOut(Ok(32))),
        Step::Ask(Request::BulkOut { .. })
    ));
}

// ----- reboots -----

#[test]
fn reboots_go_by_the_target() {
    let delay = Duration::from_millis(500);
    let (mut d, mut p) = (device(), rp2040());
    d.connect(&mut p);
    let conn = p.connection().unwrap();
    let first = conn.reboot(delay);
    unit(d.on_connection(conn, first));
    assert_eq!(d.log(), ["reboot", "0 20042000 0", "ack"]);
    let first = conn.reboot_rp2350(0, 0, 0, delay);
    assert_eq!(
        error(d.on_connection(conn, first)),
        Error::PicobootCmdNotAllowedForTarget(Target::Rp2040, PicobootCmdId::Reboot2)
    );

    let (mut d, mut p) = (device(), rp2350());
    d.connect(&mut p);
    let conn = p.connection().unwrap();
    let first = conn.reboot(delay);
    unit(d.on_connection(conn, first));
    assert_eq!(d.log(), ["reboot2", "0 1f4 0", "ack"]);
    let first = conn.reboot_rp2040(0, 0, delay);
    assert_eq!(
        error(d.on_connection(conn, first)),
        Error::PicobootCmdNotAllowedForTarget(Target::Rp2350, PicobootCmdId::Reboot)
    );

    let (mut d, mut p) = (device(), custom());
    d.connect(&mut p);
    let target = *p.target();
    let conn = p.connection().unwrap();
    let first = conn.reboot(delay);
    assert_eq!(
        error(d.on_connection(conn, first)),
        Error::PicobootCmdNotAllowedForTarget(target, PicobootCmdId::Reboot)
    );
    assert!(d.log().is_empty());
    let first = conn.reboot_rp2040(4, 5, delay);
    unit(d.on_connection(conn, first));
    let first = conn.reboot_rp2350(6, 7, 8, delay);
    unit(d.on_connection(conn, first));
    assert_eq!(d.log(), ["reboot", "4 5 0", "ack", "reboot2", "6 1f4 0", "ack"]);
}

#[test]
fn delays_must_fit() {
    let (mut d, mut p) = (device(), rp2350());
    d.connect(&mut p);
    let conn = p.connection().unwrap();
    let longest = Duration::from_millis(u32::MAX as u64);
    let first = conn.reboot(longest);
    unit(d.on_connection(conn, first));
    let longer = Duration::from_millis(u32::MAX as u64 + 1);
    d.log.clear();
    let first = conn.reboot(longer);
    assert_eq!(
        error(d.on_connection(conn, first)),
        Error::PicobootInvalidDuration(Target::Rp2350, longer)
    );
    // The delay is looked at before the target.
    let first = conn.reboot_rp2040(0, 0, longer);
    assert_eq!(
        error(d.on_connection(conn, first)),
        Error::PicobootInvalidDuration(Target::Rp2350, longer)
    );
    assert!(d.log().is_empty());
}

#[test]
fn a_reboot_closes_the_connection() {
    let delay = Duration::from_millis(100);
    for was in [false, true] {
        let (mut d, mut p) = (device(), rp2350());
        if was {
            d.connect(&mut p);
        }
        d.log.clear();
        let bootsel = RebootType::Bootsel { disable_msd: true, disable_picoboot: true };
        let first = p.reboot(bootsel, delay);
        unit(d.on_picoboot(&mut p, first));
        let course = ["reboot2", "2 64 0", "ack", "release 1"];
        assert!(d.log().ends_with(&course));
        assert_eq!(d.log().len(), if was { 4 } else { 7 });
        assert!(!p.is_connected());
    }
    let (mut d, mut p) = (device(), rp2040());
    let first = p.reboot(RebootType::Normal, delay);
    unit(d.on_picoboot(&mut p, first));
    assert!(d.log().contains(&"reboot"));
    let (mut d, mut p) = (device(), custom());
    let first = p.reboot(RebootType::Normal, delay);
    unit(d.on_picoboot(&mut p, first));
    assert!(d.log().contains(&"reboot2"));
}

/// The parameter that leaves interfaces out of BOOTSEL mode.
#[test]
fn bootsel_interfaces_can_be_left_out() {
    for (disable_msd, disable_picoboot, expected) in
        [(false, false, 0u8), (true, false, 1), (false, true, 2), (true, true, 3)]
    {
        let (mut d, mut p) = (device(), rp2350());
        d.connect(&mut p);
        let bootsel = RebootType::Bootsel { disable_msd, disable_picoboot };
        match p.reboot(bootsel, Duration::from_secs(0)) {
            Step::Ask(Request::BulkOut { data, .. }) => {
                assert_eq!(data[16..20], [2, 0, 0, 0]);
                assert_eq!(data[24..32], [expected, 0, 0, 0, 0, 0, 0, 0]);
            }
            _ => panic!("sends no command"),
        }
    }
}

#[test]
fn an_rp2040_does_not_reboot_into_bootsel() {
    for was in [false, true] {
        let (mut d, mut p) = (device(), rp2040());
        if was {
            d.connect(&mut p);
        }
        let bootsel = RebootType::Bootsel { disable_msd: false, disable_picoboot: false };
        let first = p.reboot(bootsel, Duration::from_secs(0));
        assert_eq!(
            error(d.on_picoboot(&mut p, first)),
            Error::PicobootCmdNotAllowedForTarget(Target::Rp2040, PicobootCmdId::Reboot2)
        );
        assert!(d.tokens.is_empty());
        assert_eq!(p.is_connected(), was);
        assert_eq!(d.log().contains(&"release 1"), !was);
        assert!(d.log().contains(&"reset"));
    }
}

// ----- flash -----

#[test]
fn misaligned_requests_send_nothing() {
    let t = Target::Rp2040;
    let (mut d, mut p) = (device(), rp2040());
    d.connect(&mut p);
    let conn = p.connection().unwrap();
    let first = conn.flash_erase(0x1000_0100, 4096);
    assert_eq!(
        error(d.on_connection(conn, first)),
        Error::PicobootEraseInvalidAddr(t, 0x1000_0100)
    );
    let first = conn.flash_erase(0x1000_1000, 4095);
    assert_eq!(error(d.on_connection(conn, first)), Error::PicobootEraseInvalidSize(t, 4095));
    let first = conn.flash_read(0x1000_0001, 256);
    assert_eq!(
        error(d.on_connection(conn, first)),
        Error::PicobootReadInvalidAddr(t, 0x1000_0001)
    );
    let first = conn.flash_read(0x1000_0000, 255);
    assert_eq!(error(d.on_connection(conn, first)), Error::PicobootReadInvalidSize(t, 255));
    let first = conn.flash_read_start(300);
    assert_eq!(error(d.on_connection(conn, first)), Error::PicobootReadInvalidSize(t, 300));
    let first = conn.flash_write(0x1000_0080, vec![1]);
    assert_eq!(
        error(d.on_connection(conn, first)),
        Error::PicobootWriteInvalidAddr(t, 0x1000_0080)
    );
    let first = p.flash_erase_and_write(0x1000_0100, vec![1]);
    assert_eq!(
        error(d.on_picoboot(&mut p, first)),
        Error::PicobootEraseInvalidAddr(t, 0x1000_0100)
    );
    assert!(d.log().is_empty());
    assert_eq!(p.start().cmd_token, 1);
}

#[test]
fn erases_that_are_too_large_are_refused() {
    let (mut d, mut p) = (device(), rp2040());
    d.connect(&mut p);
    let conn = p.connection().unwrap();
    let first = conn.flash_erase_start(0x1_0000_1234);
    assert_eq!(
        error(d.on_connection(conn, first)),
        Error::PicobootEraseInvalidSize(Target::Rp2040, 0x1234)
    );
    let first = conn.flash_erase_start(0);
    unit(d.on_connection(conn, first));
    assert_eq!(d.log(), ["erase", "10000000 0 0", "ack"]);
}

#[test]
fn writes_go_a_page_at_a_time() {
    let (mut d, mut p) = (device(), rp2040());
    d.connect(&mut p);
    let conn = p.connection().unwrap();
    let data: Vec<u8> = (0..600u32).map(|i| (i % 251) as u8).collect();
    let first = conn.flash_write_start(data.clone());
    unit(d.on_connection(conn, first));
    assert_eq!(
        d.log(),
        [
            "write", "10000000 100 100", "data", "ack", "write", "10000100 100 100", "data", "ack",
            "write", "10000200 58 58", "data", "ack",
        ]
    );
    assert_eq!(d.tokens, [1, 2, 3]);
    let stored: Vec<u8> = (0..600u32).map(|i| d.memory[&(0x1000_0000 + i)]).collect();
    assert_eq!(stored, data);
    // The device fills up the last page of flash.
    assert_eq!(d.memory.len(), 768);
    assert!((600..768u32).all(|i| d.memory[&(0x1000_0000 + i)] == 0));

    // What was written is read back.
    let first = conn.flash_read_start(768);
    let back = bytes(d.on_connection(conn, first));
    assert_eq!(back[..600], data[..]);
    assert_eq!(back.len(), 768);

    // An empty write sends nothing, and RAM needs no alignment.
    d.log.clear();
    let first = conn.write(0x2000_0003, vec![]);
    unit(d.on_connection(conn, first));
    assert!(d.log().is_empty());
    let first = conn.write(0x2000_0003, vec![1, 2]);
    unit(d.on_connection(conn, first));
    assert_eq!(d.log(), ["write", "20000003 2 2", "data", "ack"]);
    assert_eq!(d.memory.len(), 770);
}

#[test]
fn flash_is_erased_written_and_read_back() {
    let (mut d, mut p) = (device(), rp2350());
    d.connect(&mut p);
    let conn = p.connection().unwrap();
    let first = conn.flash_erase_start(4096);
    unit(d.on_connection(conn, first));
    let first = conn.flash_write_start(vec![0u8; 4096]);
    unit(d.on_connection(conn, first));
    let first = conn.flash_read_start(4096);
    assert_eq!(bytes(d.on_connection(conn, first)), vec![0u8; 4096]);
    // One erase, a write for every page, and one read.
    assert_eq!(d.tokens, (1..=18).collect::<Vec<u32>>());
}

#[test]
fn a_write_stops_at_the_first_failure() {
    let (mut d, mut p) = (device(), rp2040());
    d.connect(&mut p);
    let conn = p.connection().unwrap();
    conn.write(0x2000_0000, vec![7; 1000]);
    conn.resume(Reply::BulkOut(Ok(32)));
    match conn.resume(Reply::BulkOut(Ok(255))) {
        Step::Done(Err(e)) => {
            assert_eq!(e, Error::UsbWriteBulkMismatch(Target::Rp2040, 256, 255));
        }
        _ => panic!("not all was sent"),
    }
    assert_eq!(conn.state().cmd_token, 2);
}

// ----- operations that connect -----

#[test]
fn reads_and_writes_connect_and_stay_connected() {
    let (mut d, mut p) = (device(), rp2040());
    let first = p.write(0x2000_0001, vec![1, 2, 3]);
    unit(d.on_picoboot(&mut p, first));
    assert!(p.is_connected());
    assert_eq!(
        d.log(),
        joined(&[
            &["open", "detach", "claim"],
            &RESET,
            &["write", "20000001 3 3", "data", "ack"],
        ])
    );
    d.log.clear();
    let first = p.read(0x2000_0001, 3);
    assert_eq!(bytes(d.on_picoboot(&mut p, first)), [1, 2, 3]);
    assert!(p.is_connected());
    assert_eq!(d.log(), joined(&[&RESET, &["read", "20000001 3 3", "in", "ack"]]));
    let first = p.flash_write(0x1000_0000, vec![9; 256]);
    unit(d.on_picoboot(&mut p, first));
    let first = p.flash_read(0x1000_0000, 256);
    assert_eq!(bytes(d.on_picoboot(&mut p, first)), [9; 256]);
    assert_eq!(d.tokens, [1, 2, 3, 4]);
}

/// A request that is refused still resets the interface, before and after.
#[test]
fn a_failed_operation_leaves_the_connection_as_it_was() {
    for was in [false, true] {
        let (mut d, mut p) = (device(), rp2040());
        if was {
            d.connect(&mut p);
        }
        d.log.clear();
        let first = p.flash_read(0x1000_0001, 256);
        assert_eq!(
            error(d.on_picoboot(&mut p, first)),
            Error::PicobootReadInvalidAddr(Target::Rp2040, 0x1000_0001)
        );
        assert_eq!(p.is_connected(), was);
        let course = if was {
            joined(&[&RESET, &RESET])
        } else {
            joined(&[&["open", "detach", "claim"], &RESET, &RESET, &["release 1"]])
        };
        assert_eq!(d.log(), course);

        // The reset is a best effort: why it fails is not reported.
        d.failing = vec!["write", "ack"];
        d.log.clear();
        let first = p.write(0x2000_0000, vec![1]);
        assert_eq!(
            error(d.on_picoboot(&mut p, first)),
            Error::UsbWriteBulkFailure(Target::Rp2040, TransferError::Stall)
        );
        assert_eq!(p.is_connected(), was);

        // If the interface cannot be reset beforehand, that is the error.
        d.failing = vec!["reset"];
        let first = p.flash_erase(0x1000_0000, 4096);
        assert_eq!(
            error(d.on_picoboot(&mut p, first)),
            Error::PicobootResetInterfaceFailure(Target::Rp2040, TransferError::Fault)
        );
        assert_eq!(p.is_connected(), was);
    }
}

/// Why a best effort to reset the interface fails is not reported.
#[test]
fn the_first_failure_is_what_is_reported() {
    for was in [false, true] {
        let (mut d, mut p) = (device(), rp2350());
        if was {
            d.connect(&mut p);
        }
        let stalled = Error::UsbWriteBulkFailure(Target::Rp2350, TransferError::Stall);

        d.failing = vec!["read"];
        d.good_resets = Some(1);
        let first = p.read(0x2000_0000, 4);
        assert_eq!(error(d.on_picoboot(&mut p, first)), stalled);
        assert_eq!(p.is_connected(), was);

        d.failing = vec!["extension"];
        d.good_resets = Some(1);
        let first = p.send_picobootx_cmd(PicobootXCmd::new(7, 0x10, 0, 0, [0; 16]), None);
        assert_eq!(error(d.on_picoboot(&mut p, first)), stalled);
        assert_eq!(p.is_connected(), was);

        d.failing = vec!["reboot2"];
        d.good_resets = Some(0);
        let first = p.reboot(RebootType::Normal, Duration::from_secs(0));
        assert_eq!(error(d.on_picoboot(&mut p, first)), stalled);
        assert_eq!(p.is_connected(), was);

        // A reset that fails beforehand is, and nothing is read.
        d.failing.clear();
        d.good_resets = Some(0);
        d.log.clear();
        let first = p.read(0x2000_0000, 4);
        assert_eq!(
            error(d.on_picoboot(&mut p, first)),
            Error::PicobootResetInterfaceFailure(Target::Rp2350, TransferError::Fault)
        );
        assert!(!d.log().contains(&"read"));
        assert_eq!(p.is_connected(), was);
    }
}

/// The requests of an operation whose every reply is a success.
fn course(conn: &mut Connection, first: Step) -> (Vec<Request>, Result<Value, Error>) {
    let mut requests = Vec::new();
    let mut step = first;
    loop {
        match step {
            Step::Done(result) => return (requests, result),
            Step::Ask(request) => {
                step = match &request {
                    Request::BulkOut { data, .. } => conn.resume(Reply::BulkOut(Ok(data.len()))),
                    Request::BulkIn { .. } => {
                        let got = Received { data: vec![6], actual_len: 1 };
                        conn.resume(Reply::BulkIn(Ok(got)))
                    }
                    other => panic!("unexpected request: {other:?}"),
                };
                requests.push(request);
            }
        }
    }
}

#[test]
fn extension_commands_differ_by_their_magic_alone() {
    let args = [3; 16];
    for (id, len, buf) in [
        (PicobootCmdId::ExitXip, 0, None),
        (PicobootCmdId::Write, 2, Some(vec![1u8, 2])),
        (PicobootCmdId::OtpWrite, 2, None),
        (PicobootCmdId::GetInfo, 0, None),
        (PicobootCmdId::OtpRead, 1, None),
    ] {
        let (mut d, mut p) = (device(), rp2350());
        d.connect(&mut p);
        let mut copy = p.clone();
        let conn = p.connection().unwrap();
        let first = conn.send_cmd(PicobootCmd::new(id, 4, len, args), buf.clone());
        let (mut ordinary, result) = course(conn, first);
        let other = copy.connection().unwrap();
        let first =
            other.send_picobootx_cmd(PicobootXCmd::new(7, id.code(), 4, len, args), buf.clone());
        let (mut extension, same) = course(other, first);
        for requests in [&mut ordinary, &mut extension] {
            match &mut requests[0] {
                Request::BulkOut { data, .. } => data.drain(..4),
                other => panic!("no command: {other:?}"),
            };
        }
        assert_eq!(ordinary, extension);
        assert_eq!(conn.state(), other.state());
        match (result, same) {
            (Ok(Value::Bytes(a)), Ok(Value::Bytes(b))) => assert_eq!(a, b),
            (Err(a), Err(b)) => {
                assert_eq!(a, Error::PicobootCmdDataMissing(Target::Rp2350, id));
                assert_eq!(b, Error::PicobootXCmdDataMissing(Target::Rp2350, id.code()));
                assert!(len > 0 && buf.is_none());
            }
            other => panic!("different outcomes: {other:?}"),
        }
    }
}

/// Tokens go on whatever becomes of a command, and start again with a connection.
#[test]
fn no_token_is_used_twice() {
    let (mut d, mut p) = (device(), rp2040());
    d.connect(&mut p);
    let conn = p.connection().unwrap();
    for failing in [vec![], vec!["exit_xip"], vec!["short"], vec!["ack"], vec![]] {
        d.failing = failing;
        let first = conn.exit_xip();
        let _ = d.on_connection(conn, first);
    }
    let first = conn.send_cmd(PicobootCmd::flash_write(0, 3), None);
    error(d.on_connection(conn, first));
    d.pending = None;
    let first = conn.send_picobootx_cmd(PicobootXCmd::new(7, 1, 0, 0, [0; 16]), None);
    bytes(d.on_connection(conn, first));
    assert_eq!(d.tokens, [1, 2, 3, 4, 5, 6, 7]);

    p.disconnect();
    d.connect(&mut p);
    let conn = p.connection().unwrap();
    let first = conn.exit_xip();
    unit(d.on_connection(conn, first));
    assert_eq!(d.tokens[7..], [1]);
}

#[test]
fn an_erase_leaves_xip_mode_first() {
    let (mut d, mut p) = (device(), rp2350());
    d.connect(&mut p);
    let first = p.flash_erase(0x1000_1000, 8192);
    unit(d.on_picoboot(&mut p, first));
    assert_eq!(
        d.log(),
        joined(&[
            &RESET,
            &["exit_xip", "0 0 0", "ack", "erase", "10001000 2000 0", "ack"],
        ])
    );

    // If XIP mode cannot be left, nothing is erased, nor reset.
    d.failing = vec!["exit_xip"];
    d.log.clear();
    let first = p.flash_erase(0x1000_1000, 8192);
    error(d.on_picoboot(&mut p, first));
    assert_eq!(d.log(), joined(&[&RESET, &["exit_xip"]]));

    // A refused erase has left XIP mode.
    d.failing.clear();
    d.log.clear();
    let first = p.flash_erase(0x1000_1001, 8192);
    assert_eq!(
        error(d.on_picoboot(&mut p, first)),
        Error::PicobootEraseInvalidAddr(Target::Rp2350, 0x1000_1001)
    );
    assert_eq!(d.log(), joined(&[&RESET, &["exit_xip", "0 0 0", "ack"], &RESET]));
}

#[test]
fn erase_and_write_rounds_the_erase_up() {
    let (mut d, mut p) = (device(), rp2040());
    let first = p.flash_erase_and_write(0x1000_2000, vec![5; 300]);
    unit(d.on_picoboot(&mut p, first));
    assert!(p.is_connected());
    assert_eq!(
        d.log(),
        joined(&[
            &["open", "detach", "claim"],
            &RESET,
            &["erase", "10002000 1000 0", "ack"],
            &["write", "10002000 100 100", "data", "ack"],
            &["write", "10002100 2c 2c", "data", "ack"],
        ])
    );
    assert_eq!(d.tokens, [1, 2, 3]);
    assert_eq!(d.memory[&0x1000_212b], 5);
    assert_eq!(d.memory[&0x1000_212c], 0);
    assert!(!d.memory.contains_key(&0x1000_2200));

    d.failing = vec!["erase"];
    d.log.clear();
    let first = p.flash_erase_and_write(0x1000_2000, vec![5; 300]);
    error(d.on_picoboot(&mut p, first));
    assert_eq!(d.log(), joined(&[&RESET, &["erase"], &RESET]));
    d.failing = vec!["data"];
    d.log.clear();
    let first = p.flash_erase_and_write(0x1000_2000, vec![5; 300]);
    error(d.on_picoboot(&mut p, first));
    assert!(d.log().ends_with(&RESET));
    assert!(p.is_connected());
}

#[test]
fn extension_commands_leave_the_connection_as_it_was() {
    for was in [false, true] {
        let (mut d, mut p) = (device(), custom());
        if was {
            d.connect(&mut p);
        }
        d.memory.insert(0, 0x5a);
        let cmd = PicobootXCmd::new(7, 0x91, 0, 1, [0; 16]);
        let first = p.send_picobootx_cmd(cmd, None);
        assert_eq!(bytes(d.on_picoboot(&mut p, first)), [0x5a]);
        assert_eq!(p.is_connected(), was);
        d.failing = vec!["extension"];
        let first = p.send_picobootx_cmd(cmd, None);
        error(d.on_picoboot(&mut p, first));
        assert_eq!(p.is_connected(), was);
    }
}

// ----- limits -----

#[test]
fn limits_can_be_tested_beforehand() {
    let mut state = rp2040().start();
    assert!(state.has_tokens(1));
    assert!(state.may_send(Direction::In, u32::MAX));
    assert!(state.may_send(Direction::Out, 0));
    assert!(state.may_write(0x1000_0000, 4096));
    assert!(state.may_write(u32::MAX, 256));
    assert!(!state.may_write(u32::MAX, 257));
    assert!(state.may_write(0, 0x1_0000_0000));

    state.cmd_token = u32::MAX - 1;
    assert!(state.may_send(Direction::Out, 0));
    assert!(state.may_write(0, 256));
    assert!(!state.may_write(0, 257));
    state.cmd_token = u32::MAX;
    assert!(!state.has_tokens(1));
    assert!(!state.may_send(Direction::Out, 0));
    assert!(state.may_write(0, 0));
    assert!(!state.may_write(0, 1));

    state.cmd_token = 1;
    state.in_ep_max_packet_size = 0;
    assert!(!state.may_send(Direction::Out, 0));
    assert!(!state.may_send(Direction::In, 1));
    assert!(state.may_send(Direction::In, 0));
    assert!(!state.may_write(0, 1));
}

#[test]
fn operations_can_be_tested_beforehand() {
    let delay = Duration::from_secs(0);
    let bootsel = RebootType::Bootsel { disable_msd: false, disable_picoboot: false };
    let (one, pages) = (vec![0u8; 1], vec![0u8; 257]);
    let mut p = rp2040();
    assert!(p.may_read(0x1000_0000, 256, true) && p.may_read(1, 1, false));
    assert!(p.may_write(0x1000_0000, &pages, true) && p.may_write(1, &one, false));
    assert!(p.may_erase(0x1000_0000, 4096));
    assert!(p.may_erase_and_write(0x1000_0000, &pages));
    assert!(p.may_reboot(RebootType::Normal, delay));
    assert!(p.may_send_picobootx_cmd(&PicobootXCmd::new(7, 1, 0, 0, [0; 16])));
    assert!(!p.may_write(u32::MAX, &pages, false));
    // What is refused sends nothing, so there is no limit to it.
    assert!(p.may_write(u32::MAX, &pages, true));
    assert!(p.may_reboot(bootsel, delay));

    assert!(picoboot::connection::may_round_up(0xffff_f000));
    assert!(!picoboot::connection::may_round_up(0xffff_f001));
    assert!(!picoboot::connection::may_round_up(0xffff_ffff));
    assert!(picoboot::connection::may_round_up(0x1_0000_0000));

    // A device without packets cannot answer.
    let mut info = DeviceInfo {
        slot: 0,
        vendor_id: 0x2e8a,
        product_id: 0x0003,
        bus_id: String::new(),
        device_address: 0,
        serial_number: None,
        device_version: 0,
        manufacturer_string: None,
        product_string: None,
        usb_version: 0,
        speed: None,
    };
    info.slot = 1;
    let bulk = |address: u8, direction: Direction| EndpointInfo {
        address,
        transfer_type: TransferType::Bulk,
        direction,
        max_packet_size: 0,
    };
    let setting = InterfaceSetting {
        interface_number: 1,
        class: 0xff,
        subclass: 0,
        endpoints: vec![bulk(1, Direction::Out), bulk(0x81, Direction::In)],
    };
    let interface = InterfaceInfo { alt_settings: vec![setting] };
    let opened = Ok(vec![Configuration { interfaces: vec![interface] }]);
    p = Picoboot::new(info, opened).ok().unwrap();
    assert!(!p.may_read(0, 1, false) && p.may_read(1, 256, true));
    assert!(!p.may_write(0, &one, false) && p.may_write(0, &vec![], false));
    assert!(!p.may_erase(0, 4096) && !p.may_erase(1, 4096));
    assert!(!p.may_erase_and_write(0, &one) && p.may_erase_and_write(1, &one));
    assert!(!p.may_reboot(RebootType::Normal, delay) && p.may_reboot(bootsel, delay));
    assert!(!p.may_send_picobootx_cmd(&PicobootXCmd::new(7, 1, 0, 0, [0; 16])));
    assert!(p.may_send_picobootx_cmd(&PicobootXCmd::new(7, 0x81, 0, 0, [0; 16])));
}

/// What is known of a device while an operation is under way.
#[test]
fn an_operation_that_is_given_up_leaves_its_traces() {
    let (mut d, mut p) = (device(), rp2040());
    p.connect();
    assert!(!p.is_connected());
    p.resume(Reply::Open(Ok(())));
    assert!(!p.is_connected());
    p.resume(Reply::DetachKernelDriver(Detached::Yes));
    assert!(!p.is_connected());
    assert!(matches!(p.resume(Reply::ClaimInterface(Ok(()))), Step::Done(Ok(Value::Unit))));
    assert!(p.is_connected());

    // The token is taken once the command is asked for.
    let conn = p.connection().unwrap();
    conn.exit_xip();
    assert_eq!(conn.state().cmd_token, 2);
    conn.get_command_status();
    assert_eq!(conn.state().cmd_token, 2);
    conn.write(0x2000_0000, vec![0; 257]);
    assert_eq!(conn.state().cmd_token, 3);
    for reply in [Reply::BulkOut(Ok(32)), Reply::BulkOut(Ok(256))] {
        conn.resume(reply);
        assert_eq!(conn.state().cmd_token, 3);
    }
    conn.resume(Reply::BulkIn(Ok(Received { data: vec![], actual_len: 0 })));
    assert_eq!(conn.state().cmd_token, 4);

    // The connection is gone once its end is asked for.
    p.reboot(RebootType::Normal, Duration::from_secs(0));
    p.resume(Reply::BulkOut(Ok(32)));
    assert!(p.is_connected());
    let step = p.resume(Reply::BulkIn(Ok(Received { data: vec![], actual_len: 0 })));
    assert!(!p.is_connected());
    match step {
        Step::Ask(request) => assert_eq!(d.serve(request), Reply::Release),
        _ => panic!("the connection is not closed"),
    }
}

#[test]
fn a_copy_goes_its_own_way() {
    let (mut d, mut p) = (device(), rp2040());
    d.connect(&mut p);
    let mut copy = p.clone();
    let first = copy.write(0x2000_0000, vec![1]);
    unit(d.on_picoboot(&mut copy, first));
    assert_eq!(copy.start().cmd_token, 2);
    assert_eq!(p.start().cmd_token, 1);
    assert!(p == copy);
}

// ----- the reader -----

fn reader(d: &mut Device, p: Picoboot) -> PicobootReader {
    let (mut reader, first) = PicobootReader::new(p);
    unit(d.on_reader(&mut reader, first));
    reader
}

#[test]
fn a_reader_connects_resets_and_asks_for_the_status() {
    let mut d = device();
    d.failing = vec!["status"];
    let mut reader = reader(&mut d, rp2040());
    assert_eq!(d.log(), joined(&[&["open", "detach", "claim"], &RESET, &["status"]]));
    assert_eq!(reader.disconnect(), Some(Request::Release { reattach: Some(1) }));
    assert_eq!(reader.disconnect(), None);
}

#[test]
fn a_reader_that_does_not_come_about_is_not_connected() {
    let (mut d, p) = (device(), rp2040());
    d.failing = vec!["reset"];
    let (mut reader, first) = PicobootReader::new(p);
    assert_eq!(
        error(d.on_reader(&mut reader, first)),
        Error::PicobootResetInterfaceFailure(Target::Rp2040, TransferError::Fault)
    );
    assert_eq!(d.log().last(), Some(&"release 1"));
    assert!(matches!(reader.read(0, 4), Err(ReaderError::NotConnected)));

    let (mut d, p) = (device(), rp2040());
    d.failing = vec!["claim"];
    let (mut reader, first) = PicobootReader::new(p);
    assert_eq!(
        error(d.on_reader(&mut reader, first)),
        Error::UsbClaimInterfaceFailure(Target::Rp2040, refusal())
    );
    assert_eq!(reader.disconnect(), None);
}

#[test]
fn a_reader_reads_any_range() {
    let mut d = device();
    for i in 0..1024u32 {
        d.memory.insert(0x1000_0000 + i, (i % 253) as u8);
        d.memory.insert(0x2000_0000 + i, (i % 241) as u8);
    }
    let mut reader = reader(&mut d, rp2350());
    for (addr, len, asked) in [
        (0x1000_0000u32, 4usize, "10000000 100 100"),
        (0x1000_00fe, 4, "10000000 200 200"),
        (0x1000_0100, 256, "10000100 100 100"),
        (0x1000_0001, 512, "10000000 300 300"),
        (0x2000_0003, 5, "20000003 5 5"),
    ] {
        d.log.clear();
        assert!(reader.may_read(addr, len));
        let first = reader.read(addr, len).unwrap();
        let data = bytes(d.on_reader(&mut reader, first));
        assert_eq!(d.log()[1], asked);
        let mut buf = vec![0u8; len];
        copy_out(addr, &data, &mut buf);
        let expected: Vec<u8> = (0..len as u32).map(|i| d.memory[&(addr + i)]).collect();
        assert_eq!(buf, expected);
        reader.update_base_address(0x1234);
    }
    assert_eq!(d.tokens, [1, 2, 3, 4, 5]);
}

#[test]
fn flash_ends_where_it_ends() {
    let last = picoboot::reader::plan_read(0x1fff_ffff, 1);
    assert_eq!((last.addr, last.size, last.offset), (0x1fff_ff00, 256, 255));
    let beyond = picoboot::reader::plan_read(0x2000_0000, 1);
    assert_eq!((beyond.addr, beyond.size, beyond.offset), (0x2000_0000, 1, 0));
    let before = picoboot::reader::plan_read(0x0fff_ffff, 3);
    assert_eq!((before.addr, before.size, before.offset), (0x0fff_ffff, 3, 0));
    let largest = picoboot::reader::plan_read(0x2000_0000, u32::MAX as usize);
    assert_eq!((largest.size, largest.offset), (u32::MAX, 0));
    let huge = picoboot::reader::plan_read(0x1000_0001, 0x1_0000_0000);
    assert_eq!((huge.addr, huge.size, huge.offset), (0x1000_0000, 0x100, 1));
}

#[test]
fn a_failed_read_resets_the_interface() {
    let mut d = device();
    let mut reader = reader(&mut d, rp2040());
    d.failing = vec!["read"];
    d.log.clear();
    let first = reader.read(0x2000_0000, 4).unwrap();
    assert_eq!(
        error(d.on_reader(&mut reader, first)),
        Error::UsbWriteBulkFailure(Target::Rp2040, TransferError::Stall)
    );
    assert_eq!(d.log(), joined(&[&["read"], &RESET]));

    // If that fails too, it is what is reported.
    d.failing = vec!["read", "reset"];
    let first = reader.read(0x2000_0000, 4).unwrap();
    assert_eq!(
        error(d.on_reader(&mut reader, first)),
        Error::PicobootResetInterfaceFailure(Target::Rp2040, TransferError::Fault)
    );
    assert_eq!(reader.disconnect(), Some(Request::Release { reattach: Some(1) }));
    assert_eq!(reader.disconnect(), None);
}

#[test]
fn requests_say_what_they_are() {
    let control = Control {
        control_type: ControlType::Standard,
        recipient: Recipient::Endpoint,
        request: 0,
        value: 0,
        index: IN_EP as u16,
        length: 2,
    };
    let (mut d, mut p) = (device(), rp2040());
    d.connect(&mut p);
    let conn = p.connection().unwrap();
    conn.reset_interface();
    match conn.resume(Reply::ControlIn(Ok(vec![0; 16]))) {
        Step::Ask(request) => assert_eq!(
            request,
            Request::ControlIn { control, timeout: Timeouts::default().reset }
        ),
        _ => panic!("asks nothing"),
    }
}
