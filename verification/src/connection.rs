//! An open connection to a device, and the operations on it.

use vstd::prelude::*;

use crate::cmd::{
    cmd_bytes, cmd_id_of, status_at, status_lacks, PicobootCmd, PicobootCmdId, PicobootStatusCmd,
    PicobootXCmd, WireCmd, COMMAND_SIZE, REQUEST_GET_COMMAND_STATUS, REQUEST_RESET,
    RESPONSE_GET_COMMAND_STATUS_SIZE,
};
use crate::error::Error;
use crate::script::{
    answers, bind, lemma_bind_after, Action, Answer, BulkError, ClearHaltError, Control,
    ControlType, Output, Recipient, Reply, Request, Script, Step, Value,
};
use crate::target::{
    Access, Direction, Target, FLASH_PAGE_SIZE, FLASH_SECTOR_SIZE, FLASH_START,
    STACK_POINTER_RP2040,
};
use crate::timeouts::{Duration, Timeouts, NANOS_PER_MILLI};

verus! {

// Standard USB GET_STATUS, and the length of an endpoint's answer.  Its lowest
// bit is set when the endpoint is halted.  See USB 2.0 sections 9.4.5 and 9.4.6.
/// Control request for the status of an endpoint
pub const REQUEST_GET_STATUS: u8 = 0x00;

/// Bytes of an endpoint's status
pub const ENDPOINT_STATUS_LEN: u16 = 2;

/// Bit of an endpoint's status that says it is halted
pub const ENDPOINT_STATUS_HALT: u8 = 0x01;

/// REBOOT2 flags for a normal boot
pub const REBOOT_TYPE_NORMAL: u32 = 0x0000;

/// What a connection knows about its device, and the token of its next command.
#[derive(Debug, Clone, Copy, PartialEq, Eq, Structural)]
pub struct ConnectionState {
    /// Type of the device
    pub target: Target,
    /// Number of the PICOBOOT interface
    pub if_num: u8,
    /// Address of the bulk OUT endpoint
    pub out_ep: u8,
    /// Address of the bulk IN endpoint
    pub in_ep: u8,
    /// Bytes of the bulk IN endpoint's largest packet
    pub in_ep_max_packet_size: usize,
    /// Whether the interface was taken from the kernel's driver
    pub kernel_driver_detached: bool,
    /// Timeouts of transfers
    pub timeouts: Timeouts,
    /// Token of the next command
    pub cmd_token: u32,
}

impl ConnectionState {
    /// The state after a command was given its token.
    pub open spec fn next(self) -> Self {
        ConnectionState { cmd_token: (self.cmd_token + 1) as u32, ..self }
    }

    /// Whether the two differ in nothing but the token of the next command.
    pub open spec fn same_link(self, other: Self) -> bool {
        self == ConnectionState { cmd_token: self.cmd_token, ..other }
    }
}

/// How an operation on a connection ended.
pub struct Ended {
    /// The connection's state
    pub conn: ConnectionState,
    /// What the operation gives back
    pub result: Result<Output, Error>,
}

/// A connection's operation that is done.
pub open spec fn done(conn: ConnectionState, result: Result<Output, Error>) -> Script<Ended> {
    Script::Done(Ended { conn, result })
}

/// The least multiple of `unit` that is at least `n`.
pub open spec fn round_up(n: int, unit: int) -> int {
    (n + unit - 1) / unit * unit
}

// ----- bulk transfers -----

/// Sending `data` to the device.
pub open spec fn bulk_out(c: ConnectionState, data: Seq<u8>) -> Action {
    Action::BulkOut { endpoint: c.out_ep, data, timeout: c.timeouts.endpoint }
}

/// Receiving `n` bytes from the device, in whole packets.
pub open spec fn bulk_in(c: ConnectionState, n: int) -> Action {
    Action::BulkIn {
        endpoint: c.in_ep,
        len: round_up(n, c.in_ep_max_packet_size as int) as usize,
        timeout: c.timeouts.endpoint,
    }
}

/// What becomes of sending `n` bytes.
pub open spec fn written(c: ConnectionState, answer: Answer, n: int, check: bool) -> Result<
    (),
    Error,
> {
    match answer->BulkOut_0 {
        Ok(actual) => if check && actual != n {
            Err(Error::UsbWriteBulkMismatch(c.target, n as usize, actual))
        } else {
            Ok(())
        },
        Err(BulkError::Endpoint(e)) => Err(Error::UsbOutEndpointClaimFailure(c.target, e)),
        Err(BulkError::Transfer(e)) => Err(Error::UsbWriteBulkFailure(c.target, e)),
    }
}

/// What becomes of receiving `n` bytes: the device may send fewer, and what it
/// sends beyond them is dropped, or an error if `check` is set.
pub open spec fn received(c: ConnectionState, answer: Answer, n: int, check: bool) -> Result<
    Seq<u8>,
    Error,
> {
    match answer->BulkIn_0 {
        Ok((data, actual)) => if check && n < actual {
            Err(Error::UsbReadBulkMismatch(c.target, n as usize, actual))
        } else if data.len() <= n {
            Ok(data)
        } else {
            Ok(data.subrange(0, n))
        },
        Err(BulkError::Endpoint(e)) => Err(Error::UsbInEndpointClaimFailure(c.target, e)),
        Err(BulkError::Transfer(e)) => Err(Error::UsbReadBulkFailure(c.target, e)),
    }
}

// ----- commands -----

/// A command on the wire: the command, its data if it has any, and an
/// acknowledgement against the direction of the data.  `missing` is the error
/// when the command sends data and there is none.
pub open spec fn exchange(
    c: ConnectionState,
    w: WireCmd,
    missing: Error,
    buf: Option<Seq<u8>>,
) -> Script<Ended> {
    Script::Ask(bulk_out(c, cmd_bytes(w)), command_sent(c, w, missing, buf), Some(c))
}

/// After the command.
pub open spec fn command_sent(
    c: ConnectionState,
    w: WireCmd,
    missing: Error,
    buf: Option<Seq<u8>>,
) -> spec_fn(Answer) -> Script<Ended> {
    |answer: Answer|
        match written(c, answer, COMMAND_SIZE as int, true) {
            Err(e) => done(c, Err(e)),
            Ok(_) => transfer(c, w.direction(), w.transfer_len, missing, buf),
        }
}

/// The data of a command.
pub open spec fn transfer(
    c: ConnectionState,
    direction: Direction,
    len: u32,
    missing: Error,
    buf: Option<Seq<u8>>,
) -> Script<Ended> {
    if len == 0 {
        acknowledge(c, direction, Seq::empty())
    } else {
        match direction {
            Direction::In => Script::Ask(bulk_in(c, len as int), data_received(c, len), Some(c)),
            Direction::Out => match buf {
                None => done(c, Err(missing)),
                Some(data) => Script::Ask(
                    bulk_out(c, data),
                    data_sent(c, data.len() as int),
                    Some(c),
                ),
            },
        }
    }
}

/// After data from the device.
pub open spec fn data_received(c: ConnectionState, len: u32) -> spec_fn(Answer) -> Script<Ended> {
    |answer: Answer|
        match received(c, answer, len as int, true) {
            Err(e) => done(c, Err(e)),
            Ok(data) => acknowledge(c, Direction::In, data),
        }
}

/// After data to the device.
pub open spec fn data_sent(c: ConnectionState, len: int) -> spec_fn(Answer) -> Script<Ended> {
    |answer: Answer|
        match written(c, answer, len, true) {
            Err(e) => done(c, Err(e)),
            Ok(_) => acknowledge(c, Direction::Out, Seq::empty()),
        }
}

/// The acknowledgement of a command that gives `data` back.
pub open spec fn acknowledge(c: ConnectionState, direction: Direction, data: Seq<u8>) -> Script<
    Ended,
> {
    match direction {
        Direction::In => Script::Ask(bulk_out(c, seq![0u8]), ack_sent(c, data), Some(c)),
        Direction::Out => Script::Ask(bulk_in(c, 1), ack_received(c, data), Some(c)),
    }
}

/// After an acknowledgement to the device.
pub open spec fn ack_sent(c: ConnectionState, data: Seq<u8>) -> spec_fn(Answer) -> Script<Ended> {
    |answer: Answer|
        match written(c, answer, 1, false) {
            Err(e) => done(c, Err(e)),
            Ok(_) => done(c, Ok(Output::Bytes(data))),
        }
}

/// After an acknowledgement from the device.
pub open spec fn ack_received(c: ConnectionState, data: Seq<u8>) -> spec_fn(Answer) -> Script<
    Ended,
> {
    |answer: Answer|
        match received(c, answer, 1, false) {
            Err(e) => done(c, Err(e)),
            Ok(_) => done(c, Ok(Output::Bytes(data))),
        }
}

/// [`Connection::send_cmd`]
pub open spec fn send_cmd_script(
    c: ConnectionState,
    w: WireCmd,
    buf: Option<Seq<u8>>,
) -> Script<Ended> {
    exchange(
        c.next(),
        w.with_token(c.cmd_token),
        Error::PicobootCmdDataMissing(c.target, cmd_id_of(w.cmd_id)->0),
        buf,
    )
}

/// [`Connection::send_picobootx_cmd`]
pub open spec fn send_picobootx_cmd_script(
    c: ConnectionState,
    w: WireCmd,
    buf: Option<Seq<u8>>,
) -> Script<Ended> {
    exchange(
        c.next(),
        w.with_token(c.cmd_token),
        Error::PicobootXCmdDataMissing(c.target, w.cmd_id),
        buf,
    )
}

/// Drops the data of a command.
pub open spec fn to_unit() -> spec_fn(Ended) -> Script<Ended> {
    |end: Ended|
        match end.result {
            Err(e) => done(end.conn, Err(e)),
            Ok(_) => done(end.conn, Ok(Output::Unit)),
        }
}

/// A command that gives nothing back, unless it is refused beforehand.
pub open spec fn command_script(c: ConnectionState, w: Result<WireCmd, Error>) -> Script<Ended> {
    match w {
        Err(e) => done(c, Err(e)),
        Ok(w) => bind(send_cmd_script(c, w, None), to_unit()),
    }
}

/// A command that gives data back, unless it is refused beforehand.
pub open spec fn query_script(c: ConnectionState, w: Result<WireCmd, Error>) -> Script<Ended> {
    match w {
        Err(e) => done(c, Err(e)),
        Ok(w) => send_cmd_script(c, w, None),
    }
}

/// Milliseconds of a delay, as a command holds them.
pub open spec fn delay_ms(c: ConnectionState, delay: Duration) -> Result<u32, Error> {
    let ms = delay@ / (NANOS_PER_MILLI as nat);
    if ms <= u32::MAX {
        Ok(ms as u32)
    } else {
        Err(Error::PicobootInvalidDuration(c.target, delay))
    }
}

/// The command of [`Connection::reboot_rp2040`], or why there is none.
pub open spec fn reboot_rp2040_cmd(
    c: ConnectionState,
    pc: u32,
    sp: u32,
    delay: Duration,
) -> Result<WireCmd, Error> {
    match delay_ms(c, delay) {
        Err(e) => Err(e),
        Ok(ms) => if c.target == Target::Rp2350 {
            Err(Error::PicobootCmdNotAllowedForTarget(c.target, PicobootCmdId::Reboot))
        } else {
            Ok(WireCmd::reboot(pc, sp, ms))
        },
    }
}

/// The command of [`Connection::reboot_rp2350`], or why there is none.
pub open spec fn reboot_rp2350_cmd(
    c: ConnectionState,
    flags: u32,
    p0: u32,
    p1: u32,
    delay: Duration,
) -> Result<WireCmd, Error> {
    match delay_ms(c, delay) {
        Err(e) => Err(e),
        Ok(ms) => if c.target == Target::Rp2040 {
            Err(Error::PicobootCmdNotAllowedForTarget(c.target, PicobootCmdId::Reboot2))
        } else {
            Ok(WireCmd::reboot2(flags, p0, p1, ms))
        },
    }
}

/// The command of [`Connection::reboot`], or why there is none.
pub open spec fn reboot_cmd(c: ConnectionState, delay: Duration) -> Result<WireCmd, Error> {
    match c.target {
        Target::Rp2040 => reboot_rp2040_cmd(c, 0, STACK_POINTER_RP2040, delay),
        Target::Rp2350 => reboot_rp2350_cmd(c, REBOOT_TYPE_NORMAL, 0, 0, delay),
        Target::Custom { .. } => Err(
            Error::PicobootCmdNotAllowedForTarget(c.target, PicobootCmdId::Reboot),
        ),
    }
}

/// The command of [`Connection::flash_erase`], or why there is none.
pub open spec fn flash_erase_cmd(c: ConnectionState, addr: u32, size: u32) -> Result<
    WireCmd,
    Error,
> {
    if addr % FLASH_SECTOR_SIZE != 0 {
        Err(Error::PicobootEraseInvalidAddr(c.target, addr))
    } else if size % FLASH_SECTOR_SIZE != 0 {
        Err(Error::PicobootEraseInvalidSize(c.target, size))
    } else {
        Ok(WireCmd::flash_erase(addr, size))
    }
}

/// The bytes to erase for `size` bytes, in whole sectors.  A size that is not a
/// `u32` is refused, and reported by its lower bits.
pub open spec fn erase_size(target: Target, size: usize) -> Result<u32, Error> {
    if size <= u32::MAX {
        Ok(round_up(size as int, FLASH_SECTOR_SIZE as int) as u32)
    } else {
        Err(Error::PicobootEraseInvalidSize(target, (size as int % 0x1_0000_0000) as u32))
    }
}

/// Whether `size` is not a `u32`, or still is one in whole sectors.
pub open spec fn erase_size_fits(size: usize) -> bool {
    size > u32::MAX || size <= u32::MAX - u32::MAX % FLASH_SECTOR_SIZE
}

/// The command of [`Connection::flash_erase_start`], or why there is none.
pub open spec fn flash_erase_start_cmd(c: ConnectionState, size: usize) -> Result<WireCmd, Error> {
    match erase_size(c.target, size) {
        Err(e) => Err(e),
        Ok(size) => flash_erase_cmd(c, FLASH_START, size),
    }
}

/// The command of [`Connection::flash_read`], or why there is none.
pub open spec fn flash_read_cmd(c: ConnectionState, addr: u32, size: u32) -> Result<
    WireCmd,
    Error,
> {
    if addr % FLASH_PAGE_SIZE != 0 {
        Err(Error::PicobootReadInvalidAddr(c.target, addr))
    } else if size % FLASH_PAGE_SIZE != 0 {
        Err(Error::PicobootReadInvalidSize(c.target, size))
    } else {
        Ok(WireCmd::flash_read(addr, size))
    }
}

// ----- writes -----

/// The data of the WRITE command for what stands at `offset`.
pub open spec fn chunk(buf: Seq<u8>, offset: int) -> Seq<u8> {
    if offset + FLASH_PAGE_SIZE <= buf.len() {
        buf.subrange(offset, offset + FLASH_PAGE_SIZE)
    } else {
        buf.subrange(offset, buf.len() as int)
    }
}

/// The address of the WRITE command for what stands at `offset`.
pub open spec fn chunk_addr(addr: u32, offset: int) -> u32 {
    (addr + offset % 0x1_0000_0000) as u32
}

/// Bytes at `offset` and beyond.
pub open spec fn left_of(buf: Seq<u8>, offset: int) -> nat {
    if offset < buf.len() {
        (buf.len() - offset) as nat
    } else {
        0
    }
}

/// WRITE commands for what stands at `offset` and beyond, a page at a time.
#[verifier::opaque]
pub open spec fn write_from(c: ConnectionState, addr: u32, buf: Seq<u8>, offset: int) -> Script<
    Ended,
>
    decreases left_of(buf, offset), 0int,
{
    if offset >= buf.len() {
        done(c, Ok(Output::Unit))
    } else {
        let data = chunk(buf, offset);
        bind(
            send_cmd_script(
                c,
                WireCmd::flash_write(chunk_addr(addr, offset), data.len() as u32),
                Some(data),
            ),
            write_on(addr, buf, offset + FLASH_PAGE_SIZE),
        )
    }
}

/// After a WRITE command.
#[verifier::opaque]
pub open spec fn write_on(addr: u32, buf: Seq<u8>, offset: int) -> spec_fn(Ended) -> Script<Ended>
    decreases left_of(buf, offset), 1int,
{
    |end: Ended|
        match end.result {
            Err(e) => done(end.conn, Err(e)),
            Ok(_) => write_from(end.conn, addr, buf, offset),
        }
}

/// The WRITE command for what stands at `offset`, and those beyond.
pub proof fn lemma_write_from(c: ConnectionState, addr: u32, buf: Seq<u8>, offset: int)
    ensures
        write_from(c, addr, buf, offset) == (if offset >= buf.len() {
            done(c, Ok(Output::Unit))
        } else {
            bind(
                send_cmd_script(
                    c,
                    WireCmd::flash_write(
                        chunk_addr(addr, offset),
                        chunk(buf, offset).len() as u32,
                    ),
                    Some(chunk(buf, offset)),
                ),
                write_on(addr, buf, offset + FLASH_PAGE_SIZE),
            )
        }),
{
    reveal(write_from);
    reveal(write_on);
}

/// What follows a WRITE command.
pub proof fn lemma_write_on(addr: u32, buf: Seq<u8>, offset: int, end: Ended)
    ensures
        write_on(addr, buf, offset)(end) == (match end.result {
            Err(e) => done(end.conn, Err(e)),
            Ok(_) => write_from(end.conn, addr, buf, offset),
        }),
{
    reveal(write_from);
    reveal(write_on);
}

/// [`Connection::write`]
pub open spec fn write_script(c: ConnectionState, addr: u32, buf: Seq<u8>) -> Script<Ended> {
    write_from(c, addr, buf, 0)
}

/// [`Connection::flash_write`]
pub open spec fn flash_write_script(c: ConnectionState, addr: u32, buf: Seq<u8>) -> Script<Ended> {
    if addr % FLASH_PAGE_SIZE != 0 {
        done(c, Err(Error::PicobootWriteInvalidAddr(c.target, addr)))
    } else {
        write_script(c, addr, buf)
    }
}

/// Number of WRITE commands for `len` bytes.
pub open spec fn chunks(len: int) -> int {
    (len + FLASH_PAGE_SIZE - 1) / FLASH_PAGE_SIZE as int
}

/// Whether the address of every WRITE command for `len` bytes is a `u32`.
pub open spec fn write_fits(addr: u32, len: int) -> bool {
    ||| len <= 0
    ||| len <= 0x1_0000_0000 && addr + (len - 1) / FLASH_PAGE_SIZE as int * FLASH_PAGE_SIZE
        <= u32::MAX
    ||| len > 0x1_0000_0000 && addr < FLASH_PAGE_SIZE
}

// ----- status and reset -----

/// Asking for the status of the last command.
pub open spec fn command_status_action(c: ConnectionState) -> Action {
    Action::ControlIn {
        control: Control {
            control_type: ControlType::Vendor,
            recipient: Recipient::Interface,
            request: REQUEST_GET_COMMAND_STATUS,
            value: 0,
            index: c.if_num as u16,
            length: RESPONSE_GET_COMMAND_STATUS_SIZE as u16,
        },
        timeout: c.timeouts.command_status,
    }
}

/// After the status of the last command.
pub open spec fn command_status_answered(c: ConnectionState) -> spec_fn(Answer) -> Script<Ended> {
    |answer: Answer|
        match answer->ControlIn_0 {
            Err(e) => done(c, Err(Error::PicobootGetCommandStatusFailure(c.target, e))),
            Ok(data) => if data.len() < RESPONSE_GET_COMMAND_STATUS_SIZE {
                done(
                    c,
                    Err(Error::PicobootCmdDeserializeFailure(c.target, status_lacks(data.len()))),
                )
            } else {
                done(c, Ok(Output::Status(status_at(data))))
            },
        }
}

/// [`Connection::get_command_status`]
pub open spec fn get_command_status_script(c: ConnectionState) -> Script<Ended> {
    Script::Ask(command_status_action(c), command_status_answered(c), Some(c))
}

/// Asking for the status of an endpoint.
pub open spec fn endpoint_status_action(c: ConnectionState, endpoint: u8) -> Action {
    Action::ControlIn {
        control: Control {
            control_type: ControlType::Standard,
            recipient: Recipient::Endpoint,
            request: REQUEST_GET_STATUS,
            value: 0,
            index: endpoint as u16,
            length: ENDPOINT_STATUS_LEN,
        },
        timeout: c.timeouts.reset,
    }
}

/// Whether the device says that the endpoint is halted.  A device that does not
/// answer, or answers with nothing, does not say so.
pub open spec fn reports_halt(answer: Answer) -> bool {
    match answer->ControlIn_0 {
        Ok(data) => data.len() > 0 && data[0] % 2 == 1,
        Err(_) => false,
    }
}

/// [`Connection::reset_interface`]: whatever the status of the last command,
/// clears the halts the device reports, then resets the interface.
pub open spec fn reset_interface_script(c: ConnectionState) -> Script<Ended> {
    bind(get_command_status_script(c), reset_status_known())
}

/// After the status of the last command.
pub open spec fn reset_status_known() -> spec_fn(Ended) -> Script<Ended> {
    |end: Ended| reset_in(end.conn)
}

/// From the bulk IN endpoint on.
pub open spec fn reset_in(c: ConnectionState) -> Script<Ended> {
    Script::Ask(endpoint_status_action(c, c.in_ep), reset_in_known(c), Some(c))
}

/// After the status of the bulk IN endpoint.
pub open spec fn reset_in_known(c: ConnectionState) -> spec_fn(Answer) -> Script<Ended> {
    |answer: Answer|
        if reports_halt(answer) {
            Script::Ask(
                Action::ClearHalt { endpoint: c.in_ep, direction: Direction::In },
                reset_in_cleared(c),
                Some(c),
            )
        } else {
            reset_out(c)
        }
}

/// After clearing the halt of the bulk IN endpoint.
pub open spec fn reset_in_cleared(c: ConnectionState) -> spec_fn(Answer) -> Script<Ended> {
    |answer: Answer|
        match answer->ClearHalt_0 {
            Err(ClearHaltError::Endpoint(e)) => done(
                c,
                Err(Error::UsbInEndpointClaimFailure(c.target, e)),
            ),
            Err(ClearHaltError::Clear(e)) => done(
                c,
                Err(Error::UsbClearInEndpointHaltFailure(c.target, e)),
            ),
            Ok(_) => reset_out(c),
        }
}

/// From the bulk OUT endpoint on.
pub open spec fn reset_out(c: ConnectionState) -> Script<Ended> {
    Script::Ask(endpoint_status_action(c, c.out_ep), reset_out_known(c), Some(c))
}

/// After the status of the bulk OUT endpoint.
pub open spec fn reset_out_known(c: ConnectionState) -> spec_fn(Answer) -> Script<Ended> {
    |answer: Answer|
        if reports_halt(answer) {
            Script::Ask(
                Action::ClearHalt { endpoint: c.out_ep, direction: Direction::Out },
                reset_out_cleared(c),
                Some(c),
            )
        } else {
            reset_request(c)
        }
}

/// After clearing the halt of the bulk OUT endpoint.
pub open spec fn reset_out_cleared(c: ConnectionState) -> spec_fn(Answer) -> Script<Ended> {
    |answer: Answer|
        match answer->ClearHalt_0 {
            Err(ClearHaltError::Endpoint(e)) => done(
                c,
                Err(Error::UsbOutEndpointClaimFailure(c.target, e)),
            ),
            Err(ClearHaltError::Clear(e)) => done(
                c,
                Err(Error::UsbClearOutEndpointHaltFailure(c.target, e)),
            ),
            Ok(_) => reset_request(c),
        }
}

/// Resetting the interface.
pub open spec fn reset_action(c: ConnectionState) -> Action {
    Action::ControlOut {
        control: Control {
            control_type: ControlType::Vendor,
            recipient: Recipient::Interface,
            request: REQUEST_RESET,
            value: 0,
            index: c.if_num as u16,
            length: 0,
        },
        timeout: c.timeouts.reset,
    }
}

/// The reset itself.
pub open spec fn reset_request(c: ConnectionState) -> Script<Ended> {
    Script::Ask(reset_action(c), reset_requested(c), Some(c))
}

/// After the reset.
pub open spec fn reset_requested(c: ConnectionState) -> spec_fn(Answer) -> Script<Ended> {
    |answer: Answer|
        match answer->ControlOut_0 {
            Err(e) => done(c, Err(Error::PicobootResetInterfaceFailure(c.target, e))),
            Ok(_) => done(c, Ok(Output::Unit)),
        }
}

// ----- limits -----

/// Whether receiving `n` bytes in whole packets is possible at all.
pub open spec fn can_read(c: ConnectionState, n: int) -> bool {
    c.in_ep_max_packet_size > 0 && round_up(n, c.in_ep_max_packet_size as int) <= usize::MAX
}

/// Whether what a command receives can be received.
pub open spec fn can_exchange(c: ConnectionState, direction: Direction, len: u32) -> bool {
    match direction {
        Direction::In => len == 0 || can_read(c, len as int),
        Direction::Out => c.in_ep_max_packet_size > 0,
    }
}

/// Whether a token is left for the command, and what it receives can be
/// received.
pub open spec fn can_send(c: ConnectionState, w: WireCmd) -> bool {
    c.cmd_token < u32::MAX && can_exchange(c, w.direction(), w.transfer_len)
}

/// Whether `len` bytes can be written from `addr` on.
pub open spec fn can_write(c: ConnectionState, addr: u32, len: int) -> bool {
    &&& write_fits(addr, len)
    &&& c.cmd_token + chunks(len) <= u32::MAX
    &&& len > 0 ==> c.in_ep_max_packet_size > 0
}

// ----- the connection -----

/// What follows a command.
enum Next {
    /// Its data is given back.
    Data,
    /// Nothing is given back.
    Unit,
    /// The rest of `buf` is written, from `offset` on.
    Write { addr: u32, buf: Vec<u8>, offset: usize },
}

/// A command whose own bytes are on their way.
struct Exchange {
    wire: Ghost<WireCmd>,
    direction: Direction,
    len: u32,
    missing: Error,
    buf: Option<Vec<u8>>,
}

/// What a connection waits for.
enum Task {
    /// The command is sent.
    Command { exchange: Exchange, next: Next },
    /// `len` bytes of data are received.
    DataIn { len: u32, next: Next },
    /// `sent` bytes of data are sent.
    DataOut { payload: Ghost<Seq<u8>>, sent: usize, next: Next },
    /// The acknowledgement is sent, with `data` to give back.
    AckOut { data: Vec<u8>, next: Next },
    /// The acknowledgement is received.
    AckIn { next: Next },
    /// The status of the last command is known.
    Status,
    /// Resetting: the status of the last command is known.
    ResetStatus,
    /// Resetting: the status of the bulk IN endpoint is known.
    ResetIn,
    /// Resetting: the halt of the bulk IN endpoint is cleared.
    ResetInCleared,
    /// Resetting: the status of the bulk OUT endpoint is known.
    ResetOut,
    /// Resetting: the halt of the bulk OUT endpoint is cleared.
    ResetOutCleared,
    /// Resetting: the interface is reset.
    ResetRequested,
}

impl Exchange {
    /// Whether it is about the command on the wire, and within the limits.
    spec fn ready(self, c: ConnectionState) -> bool {
        &&& self.direction == self.wire@.direction()
        &&& self.len == self.wire@.transfer_len
        &&& can_exchange(c, self.direction, self.len)
    }

    /// The data to send.
    spec fn data(self) -> Option<Seq<u8>> {
        data_of(self.buf)
    }
}

/// `s`, and what follows it.
#[verifier::opaque]
spec fn onward(s: Script<Ended>, next: Next) -> Script<Ended> {
    match next {
        Next::Data => s,
        Next::Unit => bind(s, to_unit()),
        Next::Write { addr, buf, offset } => bind(s, write_on(addr, buf@, offset as int)),
    }
}

/// What a command that gave `result` back gives.
spec fn bytes_result(result: Result<Vec<u8>, Error>) -> Result<Output, Error> {
    match result {
        Ok(data) => Ok(Output::Bytes(data@)),
        Err(e) => Err(e),
    }
}

/// Commands that follow a command, at most.
spec fn next_commands(next: Next) -> int {
    match next {
        Next::Write { addr, buf, offset } => if offset < buf@.len() {
            chunks(buf@.len() - offset)
        } else {
            0
        },
        _ => 0,
    }
}

/// Whether what follows a command is within the limits.
spec fn next_ready(c: ConnectionState, next: Next) -> bool {
    match next {
        Next::Write { addr, buf, offset } => {
            &&& write_fits(addr, buf@.len() as int)
            &&& offset < buf@.len() ==> offset as int % FLASH_PAGE_SIZE as int == 0
            &&& offset < buf@.len() ==> c.cmd_token + chunks(buf@.len() - offset) <= u32::MAX
            &&& offset < buf@.len() ==> c.in_ep_max_packet_size > 0
        },
        _ => true,
    }
}

/// An answer goes to the command before it goes to what follows.
proof fn lemma_onward_after(s: Script<Ended>, next: Next, answer: Answer)
    requires
        s is Ask,
    ensures
        onward(s, next) is Ask,
        onward(s, next)->Ask_0 == s->Ask_0,
        onward(s, next)->Ask_2 == s->Ask_2,
        onward(s, next).after(answer) == onward(s.after(answer), next),
{
    reveal(onward);
    lemma_bind_after(s, to_unit(), answer);
    if let Next::Write { addr, buf, offset } = next {
        lemma_bind_after(s, write_on(addr, buf@, offset as int), answer);
    }
}

/// What follows a command that is done.
proof fn lemma_onward_done(c: ConnectionState, result: Result<Output, Error>, next: Next)
    ensures
        onward(done(c, result), next) == (match result {
            Err(e) => done(c, Err(e)),
            Ok(value) => match next {
                Next::Data => done(c, Ok(value)),
                Next::Unit => done(c, Ok(Output::Unit)),
                Next::Write { addr, buf, offset } => write_from(c, addr, buf@, offset as int),
            },
        }),
{
    reveal(onward);
    if let Next::Write { addr, buf, offset } = next {
        lemma_write_on(addr, buf@, offset as int, Ended { conn: c, result });
    }
}

impl Task {
    /// The course of the operation, from the transfer it waits for on.
    spec fn script(self, c: ConnectionState) -> Script<Ended> {
        match self {
            Task::Command { exchange: x, next } => onward(
                exchange(c, x.wire@, x.missing, x.data()),
                next,
            ),
            Task::DataIn { len, next } => onward(
                Script::Ask(bulk_in(c, len as int), data_received(c, len), Some(c)),
                next,
            ),
            Task::DataOut { payload, sent, next } => onward(
                Script::Ask(bulk_out(c, payload@), data_sent(c, payload@.len() as int), Some(c)),
                next,
            ),
            Task::AckOut { data, next } => onward(
                acknowledge(c, Direction::In, data@),
                next,
            ),
            Task::AckIn { next } => onward(
                acknowledge(c, Direction::Out, Seq::empty()),
                next,
            ),
            Task::Status => get_command_status_script(c),
            Task::ResetStatus => reset_interface_script(c),
            Task::ResetIn => reset_in(c),
            Task::ResetInCleared => Script::Ask(
                Action::ClearHalt { endpoint: c.in_ep, direction: Direction::In },
                reset_in_cleared(c),
                Some(c),
            ),
            Task::ResetOut => reset_out(c),
            Task::ResetOutCleared => Script::Ask(
                Action::ClearHalt { endpoint: c.out_ep, direction: Direction::Out },
                reset_out_cleared(c),
                Some(c),
            ),
            Task::ResetRequested => reset_request(c),
        }
    }

    /// Commands yet to come, at most.
    spec fn commands_left(self) -> int {
        match self {
            Task::Command { exchange, next } => next_commands(next),
            Task::DataIn { len, next } => next_commands(next),
            Task::DataOut { payload, sent, next } => next_commands(next),
            Task::AckOut { data, next } => next_commands(next),
            Task::AckIn { next } => next_commands(next),
            _ => 0,
        }
    }

    /// Whether the operation is within the limits.
    spec fn ready(self, c: ConnectionState) -> bool {
        match self {
            Task::Command { exchange, next } => exchange.ready(c) && next_ready(c, next),
            Task::DataIn { len, next } => next_ready(c, next),
            Task::DataOut { payload, sent, next } => {
                &&& payload@.len() == sent
                &&& c.in_ep_max_packet_size > 0
                &&& next_ready(c, next)
            },
            Task::AckOut { data, next } => next_ready(c, next),
            Task::AckIn { next } => next_ready(c, next),
            _ => true,
        }
    }
}

/// Active connection to a PICOBOOT device
///
/// This object is used to send commands to a connected PICOBOOT capable
/// device.  An operation starts with the method of its name, which says what to
/// transfer first; [`Connection::resume`] takes the outcome and says what comes
/// next, until the operation is done.  An operation that is under way is given up
/// when another one starts.
pub struct Connection {
    state: ConnectionState,
    task: Option<Task>,
}

impl View for Connection {
    type V = ConnectionState;

    closed spec fn view(&self) -> ConnectionState {
        self.state
    }
}

/// A copy of a connection has no operation under way.
impl Clone for Connection {
    fn clone(&self) -> (conn: Self)
        ensures
            conn@ == self@,
            conn.script() is Done,
    {
        Connection { state: self.state, task: None }
    }
}

impl Connection {
    /// The course of the operation under way, from the transfer it waits for on.
    pub closed spec fn script(&self) -> Script<Ended> {
        match self.task {
            None => done(self.state, Ok(Output::Unit)),
            Some(task) => task.script(self.state),
        }
    }

    /// Whether the operation under way is within the limits.
    pub closed spec fn ready(&self) -> bool {
        self.task matches Some(task) ==> task.ready(self.state)
    }

    /// The token of the next command once the operation under way is done, at
    /// most.
    pub closed spec fn token_limit(&self) -> int {
        match self.task {
            None => self.state.cmd_token as int,
            Some(task) => self.state.cmd_token + task.commands_left(),
        }
    }

    /// Whether the connection stands in the course `s`, and `step` says so: it
    /// asks for what `s` asks for, is in the state that `s` says and goes on as `s`
    /// does, or it ended as `s` ended, with nothing under way.
    pub open spec fn runs(&self, s: Script<Ended>, step: Step) -> bool {
        match s {
            Script::Done(end) => {
                &&& step.ends(end.result)
                &&& self@ == end.conn
                &&& self.token_limit() == self@.cmd_token
                &&& self.script() is Done
            },
            Script::Ask(action, _, now) => {
                &&& step.asks(action)
                &&& Some(self@) == now
                &&& self.script() == s
                &&& self.ready()
            },
        }
    }

    /// An operation gives tokens out, takes none back, and does not run out.
    pub proof fn lemma_token_limit(&self)
        ensures
            self.token_limit() >= self@.cmd_token,
            self.ready() ==> self.token_limit() <= u32::MAX,
    {
    }

    /// A connection over an interface that was just claimed.
    pub(crate) fn new(
        target: Target,
        if_num: u8,
        out_ep: u8,
        in_ep: u8,
        in_ep_max_packet_size: usize,
        kernel_driver_detached: bool,
        timeouts: Timeouts,
    ) -> (conn: Self)
        ensures
            conn@ == (ConnectionState {
                target,
                if_num,
                out_ep,
                in_ep,
                in_ep_max_packet_size,
                kernel_driver_detached,
                timeouts,
                cmd_token: 1,
            }),
            conn.script() is Done,
    {
        Connection {
            state: ConnectionState {
                target,
                if_num,
                out_ep,
                in_ep,
                in_ep_max_packet_size,
                kernel_driver_detached,
                timeouts,
                cmd_token: 1,
            },
            task: None,
        }
    }

    /// The token for a command.
    fn cmd_token(&mut self) -> (token: u32)
        requires
            old(self)@.cmd_token < u32::MAX,
        ensures
            token == old(self)@.cmd_token,
            final(self)@ == old(self)@.next(),
            final(self).task == old(self).task,
    {
        let token = self.state.cmd_token;
        self.state.cmd_token = token + 1;
        token
    }

    /// Asks for `data` to be sent.
    fn bulk_write(&self, data: Vec<u8>) -> (request: Request)
        ensures
            request@ == bulk_out(self@, data@),
    {
        Request::BulkOut {
            endpoint: self.state.out_ep,
            data,
            timeout: self.state.timeouts.endpoint,
        }
    }

    /// Asks for `n` bytes to be received.
    fn bulk_read(&self, n: usize) -> (request: Request)
        requires
            can_read(self@, n as int),
        ensures
            request@ == bulk_in(self@, n as int),
    {
        let unit: usize = self.state.in_ep_max_packet_size;
        Request::BulkIn {
            endpoint: self.state.in_ep,
            len: whole_packets(n, unit),
            timeout: self.state.timeouts.endpoint,
        }
    }

    /// What becomes of sending `n` bytes.
    fn bulk_written(&self, reply: Reply, n: usize, check: bool) -> (result: Result<(), Error>)
        requires
            reply is BulkOut,
        ensures
            result == written(self@, reply@, n as int, check),
    {
        match reply {
            Reply::BulkOut(Ok(actual)) => if check && actual != n {
                Err(Error::UsbWriteBulkMismatch(self.state.target, n, actual))
            } else {
                Ok(())
            },
            Reply::BulkOut(Err(BulkError::Endpoint(e))) => Err(
                Error::UsbOutEndpointClaimFailure(self.state.target, e),
            ),
            Reply::BulkOut(Err(BulkError::Transfer(e))) => Err(
                Error::UsbWriteBulkFailure(self.state.target, e),
            ),
            _ => vstd::pervasive::unreached(),
        }
    }

    /// What becomes of receiving `n` bytes.
    fn bulk_received(&self, reply: Reply, n: usize, check: bool) -> (result: Result<
        Vec<u8>,
        Error,
    >)
        requires
            reply is BulkIn,
        ensures
            match received(self@, reply@, n as int, check) {
                Ok(data) => result is Ok && result->Ok_0@ == data,
                Err(e) => result == Err::<Vec<u8>, Error>(e),
            },
    {
        match reply {
            Reply::BulkIn(Ok(got)) => if check && n < got.actual_len {
                Err(Error::UsbReadBulkMismatch(self.state.target, n, got.actual_len))
            } else {
                let mut data = got.data;
                data.truncate(n);
                Ok(data)
            },
            Reply::BulkIn(Err(BulkError::Endpoint(e))) => Err(
                Error::UsbInEndpointClaimFailure(self.state.target, e),
            ),
            Reply::BulkIn(Err(BulkError::Transfer(e))) => Err(
                Error::UsbReadBulkFailure(self.state.target, e),
            ),
            _ => vstd::pervasive::unreached(),
        }
    }
}

impl Connection {
    /// Ends a command with `result`, and goes on with what follows it.
    fn finish(&mut self, result: Result<Vec<u8>, Error>, next: Next) -> (step: Step)
        requires
            next_ready(old(self)@, next),
        ensures
            final(self).token_limit() <= old(self)@.cmd_token + next_commands(next),
            final(self)@.same_link(old(self)@),
            final(self).runs(
                onward(
                    done(old(self)@, bytes_result(result)),
                    next,
                ),
                step,
            ),
    {
        proof {
            lemma_onward_done(self@, bytes_result(result), next);
        }
        self.task = None;
        match result {
            Err(e) => Step::Done(Err(e)),
            Ok(data) => match next {
                Next::Data => Step::Done(Ok(Value::Bytes(data))),
                Next::Unit => Step::Done(Ok(Value::Unit)),
                Next::Write { addr, buf, offset } => self.write_chunk(addr, buf, offset),
            },
        }
    }

    /// Writes what stands at `offset` and beyond.
    fn write_chunk(&mut self, addr: u32, buf: Vec<u8>, offset: usize) -> (step: Step)
        requires
            next_ready(old(self)@, Next::Write { addr, buf, offset }),
        ensures
            final(self).token_limit() <= old(self)@.cmd_token + next_commands(
                Next::Write { addr, buf, offset },
            ),
            final(self)@.same_link(old(self)@),
            final(self).runs(write_from(old(self)@, addr, buf@, offset as int), step),
    {
        let len: usize = buf.len();
        proof {
            lemma_write_from(self@, addr, buf@, offset as int);
        }
        if offset >= len {
            self.task = None;
            return Step::Done(Ok(Value::Unit));
        }
        let (data, rest) = chunk_of(&buf, offset);
        let low: u32 = low_bits(offset);
        proof {
            lemma_write_step(self@, addr, buf, offset, rest);
        }
        let cmd = PicobootCmd::flash_write(addr + low, data.len() as u32);
        self.begin(cmd, Some(data), Next::Write { addr, buf, offset: rest })
    }

    /// Sends a command.
    fn begin(&mut self, cmd: PicobootCmd, buf: Option<Vec<u8>>, next: Next) -> (step: Step)
        requires
            cmd_id_of(cmd@.cmd_id) is Some,
            can_send(old(self)@, cmd@),
            next_ready(old(self)@.next(), next),
        ensures
            final(self).token_limit() <= old(self)@.cmd_token + 1 + next_commands(next),
            final(self)@.same_link(old(self)@),
            final(self).runs(
                onward(
                    send_cmd_script(
                        old(self)@,
                        cmd@,
                        data_of(buf),
                    ),
                    next,
                ),
                step,
            ),
    {
        let cmd = cmd.set_token(self.cmd_token());
        let bytes = cmd.to_bytes();
        let exchange = Exchange {
            wire: Ghost(cmd@),
            direction: cmd.direction(),
            len: cmd.get_transfer_len() as u32,
            missing: Error::PicobootCmdDataMissing(self.state.target, cmd.id()),
            buf,
        };
        proof {
            lemma_onward_after(
                crate::connection::exchange(
                    self.state,
                    exchange.wire@,
                    exchange.missing,
                    exchange.data(),
                ),
                next,
                Answer::Release,
            );
        }
        let request = self.bulk_write(bytes);
        self.task = Some(Task::Command { exchange, next });
        Step::Ask(request)
    }
}

impl Connection {
    /// Moves the data of a command.
    fn move_data(&mut self, x: Exchange, next: Next) -> (step: Step)
        requires
            x.ready(old(self)@),
            next_ready(old(self)@, next),
        ensures
            final(self).token_limit() <= old(self)@.cmd_token + next_commands(next),
            final(self)@.same_link(old(self)@),
            final(self).runs(
                onward(transfer(old(self)@, x.direction, x.len, x.missing, x.data()), next),
                step,
            ),
    {
        if x.len == 0 {
            return self.give_ack(x.direction, Vec::new(), next);
        }
        proof {
            let s = transfer(self@, x.direction, x.len, x.missing, x.data());
            if s is Ask {
                lemma_onward_after(s, next, Answer::Release);
            }
        }
        match x.direction {
            Direction::In => {
                let request = self.bulk_read(x.len as usize);
                self.task = Some(Task::DataIn { len: x.len, next });
                Step::Ask(request)
            },
            Direction::Out => match x.buf {
                None => self.finish(Err(x.missing), next),
                Some(data) => {
                    let sent: usize = data.len();
                    let payload: Ghost<Seq<u8>> = Ghost(data@);
                    let request = self.bulk_write(data);
                    self.task = Some(Task::DataOut { payload, sent, next });
                    Step::Ask(request)
                },
            },
        }
    }

    /// Acknowledges a command that gives `data` back.
    fn give_ack(&mut self, direction: Direction, data: Vec<u8>, next: Next) -> (step: Step)
        requires
            direction == Direction::Out ==> data@.len() == 0,
            direction == Direction::Out ==> old(self)@.in_ep_max_packet_size > 0,
            next_ready(old(self)@, next),
        ensures
            final(self).token_limit() <= old(self)@.cmd_token + next_commands(next),
            final(self)@.same_link(old(self)@),
            final(self).runs(onward(acknowledge(old(self)@, direction, data@), next), step),
    {
        proof {
            lemma_onward_after(acknowledge(self@, direction, data@), next, Answer::Release);
            lemma_one_packet(self@.in_ep_max_packet_size as int);
        }
        match direction {
            Direction::In => {
                let mut ack: Vec<u8> = Vec::new();
                ack.push(0);
                assert(ack@ =~= seq![0u8]);
                let request = self.bulk_write(ack);
                self.task = Some(Task::AckOut { data, next });
                Step::Ask(request)
            },
            Direction::Out => {
                assert(data@ =~= Seq::<u8>::empty());
                let request = self.bulk_read(1);
                self.task = Some(Task::AckIn { next });
                Step::Ask(request)
            },
        }
    }

    /// Whether the device says that the endpoint is halted.
    ///
    /// A device that cannot answer is treated as having nothing halted.
    /// Clearing a halt resets the endpoint's data toggle, so clearing one on a
    /// guess costs a lost transfer, and GET_STATUS goes to the control endpoint,
    /// which only stops answering when the device has gone.
    fn endpoint_halted(reply: &Reply) -> (halted: bool)
        requires
            reply is ControlIn,
        ensures
            halted == reports_halt(reply@),
    {
        match reply {
            Reply::ControlIn(Ok(data)) => if data.len() > 0 {
                let first: u8 = data[0];
                assert((first & ENDPOINT_STATUS_HALT != 0) == (first % 2 == 1)) by (bit_vector);
                first & ENDPOINT_STATUS_HALT != 0
            } else {
                false
            },
            _ => false,
        }
    }

    /// Asks for the status of an endpoint.
    fn endpoint_status(&self, endpoint: u8) -> (request: Request)
        ensures
            request@ == endpoint_status_action(self@, endpoint),
    {
        Request::ControlIn {
            control: Control {
                control_type: ControlType::Standard,
                recipient: Recipient::Endpoint,
                request: REQUEST_GET_STATUS,
                value: 0,
                index: endpoint as u16,
                length: ENDPOINT_STATUS_LEN,
            },
            timeout: self.state.timeouts.reset,
        }
    }

    /// Asks for the status of the last command.
    fn command_status(&self) -> (request: Request)
        ensures
            request@ == command_status_action(self@),
    {
        Request::ControlIn {
            control: Control {
                control_type: ControlType::Vendor,
                recipient: Recipient::Interface,
                request: REQUEST_GET_COMMAND_STATUS,
                value: 0,
                index: self.state.if_num as u16,
                length: RESPONSE_GET_COMMAND_STATUS_SIZE as u16,
            },
            timeout: self.state.timeouts.command_status,
        }
    }

    /// Resets, from the status of the bulk OUT endpoint on.
    fn check_out(&mut self) -> (step: Step)
        ensures
            final(self).token_limit() == old(self)@.cmd_token,
            final(self)@ == old(self)@,
            final(self).runs(reset_out(old(self)@), step),
    {
        self.task = Some(Task::ResetOut);
        Step::Ask(self.endpoint_status(self.state.out_ep))
    }

    /// Resets, from the reset itself on.
    fn request_reset(&mut self) -> (step: Step)
        ensures
            final(self).token_limit() == old(self)@.cmd_token,
            final(self)@ == old(self)@,
            final(self).runs(reset_request(old(self)@), step),
    {
        self.task = Some(Task::ResetRequested);
        Step::Ask(
            Request::ControlOut {
                control: Control {
                    control_type: ControlType::Vendor,
                    recipient: Recipient::Interface,
                    request: REQUEST_RESET,
                    value: 0,
                    index: self.state.if_num as u16,
                    length: 0,
                },
                timeout: self.state.timeouts.reset,
            },
        )
    }

    /// Goes on with a reset after a reply.
    fn resume_reset(&mut self, task: Task, reply: Reply) -> (step: Step)
        requires
            match task {
                Task::ResetStatus => true,
                Task::ResetIn => true,
                Task::ResetInCleared => true,
                Task::ResetOut => true,
                Task::ResetOutCleared => true,
                Task::ResetRequested => true,
                _ => false,
            },
            answers(reply@, task.script(old(self)@)->Ask_0),
        ensures
            final(self).token_limit() == old(self)@.cmd_token,
            final(self)@ == old(self)@,
            final(self).runs(task.script(old(self)@).after(reply@), step),
    {
        let target = self.state.target;
        self.task = None;
        match task {
            Task::ResetStatus => {
                proof {
                    lemma_bind_after(
                        get_command_status_script(self@),
                        reset_status_known(),
                        reply@,
                    );
                }
                self.task = Some(Task::ResetIn);
                Step::Ask(self.endpoint_status(self.state.in_ep))
            },
            Task::ResetIn => if Connection::endpoint_halted(&reply) {
                self.task = Some(Task::ResetInCleared);
                Step::Ask(
                    Request::ClearHalt { endpoint: self.state.in_ep, direction: Direction::In },
                )
            } else {
                self.check_out()
            },
            Task::ResetInCleared => match reply {
                Reply::ClearHalt(Err(ClearHaltError::Endpoint(e))) => Step::Done(
                    Err(Error::UsbInEndpointClaimFailure(target, e)),
                ),
                Reply::ClearHalt(Err(ClearHaltError::Clear(e))) => Step::Done(
                    Err(Error::UsbClearInEndpointHaltFailure(target, e)),
                ),
                _ => self.check_out(),
            },
            Task::ResetOut => if Connection::endpoint_halted(&reply) {
                self.task = Some(Task::ResetOutCleared);
                Step::Ask(
                    Request::ClearHalt { endpoint: self.state.out_ep, direction: Direction::Out },
                )
            } else {
                self.request_reset()
            },
            Task::ResetOutCleared => match reply {
                Reply::ClearHalt(Err(ClearHaltError::Endpoint(e))) => Step::Done(
                    Err(Error::UsbOutEndpointClaimFailure(target, e)),
                ),
                Reply::ClearHalt(Err(ClearHaltError::Clear(e))) => Step::Done(
                    Err(Error::UsbClearOutEndpointHaltFailure(target, e)),
                ),
                _ => self.request_reset(),
            },
            _ => match reply {
                Reply::ControlOut(Err(e)) => Step::Done(
                    Err(Error::PicobootResetInterfaceFailure(target, e)),
                ),
                _ => Step::Done(Ok(Value::Unit)),
            },
        }
    }

    /// What becomes of asking for the status of the last command.
    fn command_status_received(&self, reply: Reply) -> (result: Result<Value, Error>)
        requires
            reply is ControlIn,
        ensures
            command_status_answered(self@)(reply@) == done(
                self@,
                match result {
                    Ok(value) => Ok(value@),
                    Err(e) => Err(e),
                },
            ),
    {
        match reply {
            Reply::ControlIn(Ok(data)) => match PicobootStatusCmd::from_bytes(data.as_slice()) {
                Ok((_, status)) => Ok(Value::Status(status)),
                Err(e) => Err(Error::PicobootCmdDeserializeFailure(self.state.target, e)),
            },
            Reply::ControlIn(Err(e)) => Err(
                Error::PicobootGetCommandStatusFailure(self.state.target, e),
            ),
            _ => vstd::pervasive::unreached(),
        }
    }

    /// Goes on with the operation under way after the outcome of what it asked
    /// for.
    pub fn resume(&mut self, reply: Reply) -> (step: Step)
        requires
            old(self).ready(),
            old(self).script() is Ask,
            answers(reply@, old(self).script()->Ask_0),
        ensures
            final(self).token_limit() <= old(self).token_limit(),
            final(self)@.same_link(old(self)@),
            final(self).runs(old(self).script().after(reply@), step),
    {
        match self.task.take() {
            None => vstd::pervasive::unreached(),
            Some(Task::Command { exchange: x, next }) => {
                proof {
                    lemma_onward_after(
                        exchange(self@, x.wire@, x.missing, x.data()),
                        next,
                        reply@,
                    );
                }
                match self.bulk_written(reply, COMMAND_SIZE, true) {
                    Err(e) => self.finish(Err(e), next),
                    Ok(_) => self.move_data(x, next),
                }
            },
            Some(Task::DataIn { len, next }) => {
                proof {
                    lemma_onward_after(
                        Script::Ask(
                            bulk_in(self@, len as int),
                            data_received(self@, len),
                            Some(self@),
                        ),
                        next,
                        reply@,
                    );
                }
                match self.bulk_received(reply, len as usize, true) {
                    Err(e) => self.finish(Err(e), next),
                    Ok(data) => self.give_ack(Direction::In, data, next),
                }
            },
            Some(Task::DataOut { payload, sent, next }) => {
                proof {
                    lemma_onward_after(
                        Script::Ask(
                            bulk_out(self@, payload@),
                            data_sent(self@, payload@.len() as int),
                            Some(self@),
                        ),
                        next,
                        reply@,
                    );
                }
                match self.bulk_written(reply, sent, true) {
                    Err(e) => self.finish(Err(e), next),
                    Ok(_) => self.give_ack(Direction::Out, Vec::new(), next),
                }
            },
            Some(Task::AckOut { data, next }) => {
                proof {
                    lemma_onward_after(
                        acknowledge(self@, Direction::In, data@),
                        next,
                        reply@,
                    );
                }
                match self.bulk_written(reply, 1, false) {
                    Err(e) => self.finish(Err(e), next),
                    Ok(_) => self.finish(Ok(data), next),
                }
            },
            Some(Task::AckIn { next }) => {
                proof {
                    lemma_onward_after(
                        acknowledge(self@, Direction::Out, Seq::empty()),
                        next,
                        reply@,
                    );
                }
                match self.bulk_received(reply, 1, false) {
                    Err(e) => self.finish(Err(e), next),
                    Ok(_) => {
                        let data: Vec<u8> = Vec::new();
                        assert(data@ =~= Seq::<u8>::empty());
                        self.finish(Ok(data), next)
                    },
                }
            },
            Some(Task::Status) => Step::Done(self.command_status_received(reply)),
            Some(Task::ResetStatus) => self.resume_reset(Task::ResetStatus, reply),
            Some(Task::ResetIn) => self.resume_reset(Task::ResetIn, reply),
            Some(Task::ResetInCleared) => self.resume_reset(Task::ResetInCleared, reply),
            Some(Task::ResetOut) => self.resume_reset(Task::ResetOut, reply),
            Some(Task::ResetOutCleared) => self.resume_reset(Task::ResetOutCleared, reply),
            Some(Task::ResetRequested) => self.resume_reset(Task::ResetRequested, reply),
        }
    }
}

/// The data that goes with a command.
pub open spec fn data_of(buf: Option<Vec<u8>>) -> Option<Seq<u8>> {
    match buf {
        Some(data) => Some(data@),
        None => None,
    }
}

/// Law: data that is given is the data that goes with a command, be it empty.
pub proof fn law_data_of(data: Vec<u8>)
    ensures
        data_of(Some(data)) == Some(data@),
        data_of(None) == None::<Seq<u8>>,
{
}

/// The command on the wire, or why there is none.
pub open spec fn wire_result(cmd: Result<PicobootCmd, Error>) -> Result<WireCmd, Error> {
    match cmd {
        Ok(cmd) => Ok(cmd@),
        Err(e) => Err(e),
    }
}

/// Whether a command is one of PICOBOOT's.
pub open spec fn known(cmd: Result<PicobootCmd, Error>) -> bool {
    cmd matches Ok(cmd) ==> cmd_id_of(cmd@.cmd_id) is Some
}

/// Operations
impl Connection {
    /// Sends a command that gives nothing back, unless it is refused beforehand.
    pub(crate) fn command(&mut self, cmd: Result<PicobootCmd, Error>) -> (step: Step)
        requires
            cmd matches Ok(cmd) ==> cmd_id_of(cmd@.cmd_id) is Some && can_send(old(self)@, cmd@),
        ensures
            final(self).token_limit() <= old(self)@.cmd_token + 1,
            final(self)@.same_link(old(self)@),
            final(self).runs(command_script(old(self)@, wire_result(cmd)), step),
    {
        reveal(onward);
        match cmd {
            Ok(cmd) => self.begin(cmd, None, Next::Unit),
            Err(e) => {
                self.task = None;
                Step::Done(Err(e))
            },
        }
    }

    /// Sends a command that gives data back, unless it is refused beforehand.
    fn query(&mut self, cmd: Result<PicobootCmd, Error>) -> (step: Step)
        requires
            cmd matches Ok(cmd) ==> cmd_id_of(cmd@.cmd_id) is Some && can_send(old(self)@, cmd@),
        ensures
            final(self)@.same_link(old(self)@),
            final(self).runs(query_script(old(self)@, wire_result(cmd)), step),
    {
        reveal(onward);
        match cmd {
            Ok(cmd) => self.begin(cmd, None, Next::Data),
            Err(e) => {
                self.task = None;
                Step::Done(Err(e))
            },
        }
    }

    /// Resets PICOBOOT USB interface.
    ///
    /// This may be called after opening a brand new connection to ensure a
    /// consistent starting state, or to reset a stalled connection.
    ///
    /// Note that this resets any exclusive access, re-enabling the USB mass
    /// storage device if it was ejected due to exclusivity.
    ///
    /// Only a halt the device reports is cleared.  CLEAR_FEATURE(ENDPOINT_HALT)
    /// also resets that endpoint's data toggle, so clearing one that was never
    /// halted puts the two ends out of step and the transfer after it is
    /// discarded as a repeat.  The device answers GET_STATUS on the control
    /// endpoint whatever state the bulk pair is in, so there is no need to guess
    /// from which transfers failed.
    ///
    /// Gives back:
    /// - [`Value::Unit`] - If interface is successfully reset.
    pub fn reset_interface(&mut self) -> (step: Step)
        ensures
            final(self).token_limit() == old(self)@.cmd_token,
            final(self)@ == old(self)@,
            final(self).runs(reset_interface_script(old(self)@), step),
    {
        proof {
            lemma_bind_after(
                get_command_status_script(self@),
                reset_status_known(),
                Answer::Release,
            );
        }
        self.task = Some(Task::ResetStatus);
        Step::Ask(self.command_status())
    }

    /// Sends a low-level command to the PICOBOOT device.
    ///
    /// Depending on the command, the buffer argument may be used to send data
    /// to the device, and data from the device may be given back.
    ///
    /// Gives back:
    /// - [`Value::Bytes`] - Data returned from the device, if any.
    pub fn send_cmd(&mut self, cmd: PicobootCmd, buf: Option<Vec<u8>>) -> (step: Step)
        requires
            cmd_id_of(cmd@.cmd_id) is Some,
            can_send(old(self)@, cmd@),
        ensures
            final(self)@.same_link(old(self)@),
            final(self).runs(
                send_cmd_script(
                    old(self)@,
                    cmd@,
                    data_of(buf),
                ),
                step,
            ),
    {
        reveal(onward);
        self.begin(cmd, buf, Next::Data)
    }

    /// Sends a custom picobootx protocol extension command to the device.
    ///
    /// Follows identical protocol mechanics to send_cmd but accepts an arbitrary
    /// magic value. The caller is responsible for constructing valid args for
    /// their extension protocol using the [`PicobootXCmd`] struct.
    pub fn send_picobootx_cmd(&mut self, cmd: PicobootXCmd, buf: Option<Vec<u8>>) -> (step: Step)
        requires
            can_send(old(self)@, cmd@),
        ensures
            final(self)@.same_link(old(self)@),
            final(self).runs(
                send_picobootx_cmd_script(
                    old(self)@,
                    cmd@,
                    data_of(buf),
                ),
                step,
            ),
    {
        reveal(onward);
        let cmd = cmd.set_token(self.cmd_token());
        let bytes = cmd.to_bytes();
        let exchange = Exchange {
            wire: Ghost(cmd@),
            direction: cmd.direction(),
            len: cmd.get_transfer_len() as u32,
            missing: Error::PicobootXCmdDataMissing(self.state.target, cmd.get_cmd_id()),
            buf,
        };
        let request = self.bulk_write(bytes);
        self.task = Some(Task::Command { exchange, next: Next::Data });
        Step::Ask(request)
    }

    /// Requests an exclusive access mode with the device.
    ///
    /// Gives back:
    /// - [`Value::Unit`] - If the exclusive access mode is successfully set.
    pub fn set_exclusive_access(&mut self, access: Access) -> (step: Step)
        requires
            can_send(old(self)@, WireCmd::exclusive_access(access.code_of())),
        ensures
            final(self)@.same_link(old(self)@),
            final(self).runs(
                command_script(old(self)@, Ok(WireCmd::exclusive_access(access.code_of()))),
                step,
            ),
    {
        self.command(Ok(PicobootCmd::exclusive_access(access.code())))
    }

    /// Performs a simple reboot of the device.
    ///
    /// Args:
    /// - `delay` - Time to start the device after.  Must fit into a u32
    ///   milliseconds.
    ///
    /// For a target [`Target::Custom`] this command is not supported - use
    /// [`Self::reboot_rp2040`] or [`Self::reboot_rp2350`] instead.
    ///
    /// Gives back:
    /// - [`Value::Unit`] - If reboot command is successfully sent.
    pub fn reboot(&mut self, delay: Duration) -> (step: Step)
        requires
            reboot_cmd(old(self)@, delay) matches Ok(w) ==> can_send(old(self)@, w),
        ensures
            final(self)@.same_link(old(self)@),
            final(self).runs(command_script(old(self)@, reboot_cmd(old(self)@, delay)), step),
    {
        self.command(self.state.reboot_command(delay))
    }

    /// Reboots the device with a specified program counter, stack pointer, and
    /// delay.
    ///
    /// Note, reboot is not supported on the RP2350.
    ///
    /// - `program_counter` - Program counter to start the device with. Use `0` for a standard flash boot, or a RAM address to start executing at.
    /// - `stack_pointer` - Stack pointer to start the device with. Unused if `program_counter` is `0`.
    /// - `delay` - Time to start the device after.  Must fit into a u32
    ///   milliseconds.
    ///
    /// Gives back:
    /// - [`Value::Unit`] - If reboot command is successfully sent.
    pub fn reboot_rp2040(
        &mut self,
        program_counter: u32,
        stack_pointer: u32,
        delay: Duration,
    ) -> (step: Step)
        requires
            reboot_rp2040_cmd(old(self)@, program_counter, stack_pointer, delay) matches Ok(w)
                ==> can_send(old(self)@, w),
        ensures
            final(self)@.same_link(old(self)@),
            final(self).runs(
                command_script(
                    old(self)@,
                    reboot_rp2040_cmd(old(self)@, program_counter, stack_pointer, delay),
                ),
                step,
            ),
    {
        self.command(self.state.reboot_rp2040_command(program_counter, stack_pointer, delay))
    }

    /// Reboots the device out of BOOTSEL mode into normal operation
    ///
    /// Note, not supported on the RP2040.
    ///
    /// Args:
    /// - `flags` - Reboot flags to use.
    /// - `p0` - Reboot parameter 0.
    /// - `p1` - Reboot parameter 1.
    /// - `delay` - Time to start the device after.  Must fit into a u32
    ///   milliseconds.
    ///
    /// See the RP2350 datasheet, section 5.4.8.24. reboot for details on the
    /// flags and parameters.  For a standard boot, set them all to 0.
    ///
    /// Gives back:
    /// - [`Value::Unit`] - If reboot command is successfully sent.
    pub fn reboot_rp2350(&mut self, flags: u32, p0: u32, p1: u32, delay: Duration) -> (step: Step)
        requires
            reboot_rp2350_cmd(old(self)@, flags, p0, p1, delay) matches Ok(w) ==> can_send(
                old(self)@,
                w,
            ),
        ensures
            final(self)@.same_link(old(self)@),
            final(self).runs(
                command_script(
                    old(self)@,
                    reboot_rp2350_cmd(old(self)@, flags, p0, p1, delay),
                ),
                step,
            ),
    {
        self.command(self.state.reboot_rp2350_command(flags, p0, p1, delay))
    }

    /// Erases the flash memory of the device from the start
    ///
    /// Args:
    /// - `size` - Number of bytes to erase. Will be rounded up to the nearest
    ///   multiple of [`Target::flash_sector_size`].
    ///
    /// Gives back:
    /// - [`Value::Unit`] - If erase command is successfully sent.
    pub fn flash_erase_start(&mut self, size: usize) -> (step: Step)
        requires
            erase_size_fits(size),
            flash_erase_start_cmd(old(self)@, size) matches Ok(w) ==> can_send(old(self)@, w),
        ensures
            final(self)@.same_link(old(self)@),
            final(self).runs(
                command_script(old(self)@, flash_erase_start_cmd(old(self)@, size)),
                step,
            ),
    {
        self.command(self.state.erase_start_command(size))
    }

    /// Erases the flash memory of the device.
    ///
    /// - `addr` - Address to start the erase. Must be on a multiple of [`Target::flash_sector_size`].
    /// - `size` - Number of bytes to erase. Must be a multiple of [`Target::flash_sector_size`].
    ///
    /// Gives back:
    /// - [`Value::Unit`] - If erase command is successfully sent.
    pub fn flash_erase(&mut self, addr: u32, size: u32) -> (step: Step)
        requires
            flash_erase_cmd(old(self)@, addr, size) matches Ok(w) ==> can_send(old(self)@, w),
        ensures
            final(self).token_limit() <= old(self)@.cmd_token + 1,
            final(self)@.same_link(old(self)@),
            final(self).runs(
                command_script(old(self)@, flash_erase_cmd(old(self)@, addr, size)),
                step,
            ),
    {
        self.command(self.state.erase_command(addr, size))
    }

    /// Writes a buffer to the start of the flash memory of the device.
    ///
    /// Args:
    /// - `buf` - Buffer of data to write to flash. Should be a multiple of
    ///   [`Target::flash_page_size`]. If not, the device zero-fills
    ///   the remainder of the final page.
    ///
    /// Gives back:
    /// - [`Value::Unit`] - If write command is successfully sent.
    pub fn flash_write_start(&mut self, buf: Vec<u8>) -> (step: Step)
        requires
            can_write(old(self)@, FLASH_START, buf@.len() as int),
        ensures
            final(self)@.same_link(old(self)@),
            final(self).runs(flash_write_script(old(self)@, FLASH_START, buf@), step),
    {
        self.flash_write(FLASH_START, buf)
    }

    /// Writes a buffer to the flash memory of the device.
    ///
    /// - `addr` - Address to start the write. Must be on a multiple of
    ///   [`Target::flash_page_size`].
    /// - `buf` - Buffer of data to write to memory. Should be a multiple of
    ///   [`Target::flash_page_size`]. If not, the device zero-fills the
    ///   remainder of the final page.
    ///
    /// Gives back:
    /// - [`Value::Unit`] - If write command is successfully sent.
    pub fn flash_write(&mut self, addr: u32, buf: Vec<u8>) -> (step: Step)
        requires
            addr % FLASH_PAGE_SIZE == 0 ==> can_write(old(self)@, addr, buf@.len() as int),
        ensures
            final(self)@.same_link(old(self)@),
            final(self).runs(flash_write_script(old(self)@, addr, buf@), step),
    {
        let target = self.state.target;
        if addr % target.flash_page_size() != 0 {
            self.task = None;
            return Step::Done(Err(Error::PicobootWriteInvalidAddr(target, addr)));
        }
        self.write(addr, buf)
    }

    /// Writes a buffer to the (RAM) memory of the device.
    ///
    /// For flash, use flash_write() as that polices valid flash write
    /// addresses and sizes.
    ///
    /// - `addr` - Address to start the write.
    /// - `buf` - Buffer of data to write to memory.
    pub fn write(&mut self, addr: u32, buf: Vec<u8>) -> (step: Step)
        requires
            can_write(old(self)@, addr, buf@.len() as int),
        ensures
            final(self)@.same_link(old(self)@),
            final(self).runs(write_script(old(self)@, addr, buf@), step),
    {
        // Sent a page at a time, as it's safest, even for RAM writes.
        self.write_chunk(addr, buf, 0)
    }

    /// Reads from the start of flash memory of the device.
    ///
    /// - `size` - Number of bytes to read.  Should be a multiple of
    ///   [`Target::flash_page_size`]. If not, it will be rejected.
    ///
    /// Gives back:
    /// - [`Value::Bytes`] - Buffer of data read from flash.
    pub fn flash_read_start(&mut self, size: u32) -> (step: Step)
        requires
            flash_read_cmd(old(self)@, FLASH_START, size) matches Ok(w) ==> can_send(
                old(self)@,
                w,
            ),
        ensures
            final(self)@.same_link(old(self)@),
            final(self).runs(
                query_script(old(self)@, flash_read_cmd(old(self)@, FLASH_START, size)),
                step,
            ),
    {
        self.flash_read(FLASH_START, size)
    }

    /// Reads from the flash memory of the device.
    ///
    /// - `addr` - Address to start the write. Must be on a multiple of
    ///   [`Target::flash_page_size`].
    /// - `size` - Amount of read.  Should be a multiple of
    ///   [`Target::flash_page_size`]. If not, it will be rejected.
    pub fn flash_read(&mut self, addr: u32, size: u32) -> (step: Step)
        requires
            flash_read_cmd(old(self)@, addr, size) matches Ok(w) ==> can_send(old(self)@, w),
        ensures
            final(self)@.same_link(old(self)@),
            final(self).runs(
                query_script(old(self)@, flash_read_cmd(old(self)@, addr, size)),
                step,
            ),
    {
        self.query(self.state.flash_read_command(addr, size))
    }

    /// Reads from memory of the device.
    ///
    /// For flash reads, use flash_read() or flash_read_start() as that
    /// polices valid flash read addresses and sizes.
    pub fn read(&mut self, addr: u32, size: u32) -> (step: Step)
        requires
            can_send(old(self)@, WireCmd::flash_read(addr, size)),
        ensures
            final(self)@.same_link(old(self)@),
            final(self).runs(
                query_script(old(self)@, Ok(WireCmd::flash_read(addr, size))),
                step,
            ),
    {
        self.query(Ok(PicobootCmd::flash_read(addr, size)))
    }

    /// Enter Flash XIP (execute-in-place) mode.
    ///
    /// Only functional on RP2040 devices - is a no-op on RP2350.
    ///
    /// Gives back:
    /// - [`Value::Unit`] - If enter XIP command is successfully sent.
    pub fn enter_xip(&mut self) -> (step: Step)
        requires
            can_send(old(self)@, WireCmd::enter_xip()),
        ensures
            final(self)@.same_link(old(self)@),
            final(self).runs(command_script(old(self)@, Ok(WireCmd::enter_xip())), step),
    {
        self.command(Ok(PicobootCmd::enter_xip()))
    }

    /// Exits Flash XIP (execute-in-place) mode.
    ///
    /// Only functional on RP2040 devices - is a no-op on RP2350.
    ///
    /// Gives back:
    /// - [`Value::Unit`] - If exit XIP command is successfully sent.
    pub fn exit_xip(&mut self) -> (step: Step)
        requires
            can_send(old(self)@, WireCmd::exit_xip()),
        ensures
            final(self).token_limit() <= old(self)@.cmd_token + 1,
            final(self)@.same_link(old(self)@),
            final(self).runs(command_script(old(self)@, Ok(WireCmd::exit_xip())), step),
    {
        self.command(Ok(PicobootCmd::exit_xip()))
    }

    /// Returns the target type of the connected PICOBOOT device
    pub fn target(&self) -> (target: &Target)
        ensures
            *target == self@.target,
    {
        &self.state.target
    }

    /// Issues a GET_COMMAND_STATUS control request to the device and gives back
    /// the result.
    ///
    /// Gives back:
    /// - [`Value::Status`] - The status of the last command.
    pub fn get_command_status(&mut self) -> (step: Step)
        ensures
            final(self)@ == old(self)@,
            final(self).runs(get_command_status_script(old(self)@), step),
    {
        self.task = Some(Task::Status);
        Step::Ask(self.command_status())
    }

    /// The state of the connection.
    pub fn state(&self) -> (state: ConnectionState)
        ensures
            state == self@,
    {
        self.state
    }

    /// The interface to give back to the kernel's driver when the connection is
    /// closed, if it was taken from it.
    pub(crate) fn reattach(&self) -> (if_num: Option<u8>)
        ensures
            if_num == (if self@.kernel_driver_detached {
                Some(self@.if_num)
            } else {
                None
            }),
    {
        if self.state.kernel_driver_detached {
            Some(self.state.if_num)
        } else {
            None
        }
    }

    /// Replaces the timeouts.
    pub(crate) fn set_timeouts(&mut self, timeouts: Timeouts)
        ensures
            final(self)@ == (ConnectionState { timeouts, ..old(self)@ }),
            final(self).script() is Done,
    {
        self.state.timeouts = timeouts;
        self.task = None;
    }
}

/// The bytes to erase for `size` bytes, in whole sectors.
pub(crate) fn erase_bytes(target: Target, size: usize) -> (bytes: Result<u32, Error>)
    requires
        erase_size_fits(size),
    ensures
        bytes == erase_size(target, size),
        bytes matches Ok(n) ==> n % FLASH_SECTOR_SIZE == 0 && size <= n < size
            + FLASH_SECTOR_SIZE,
{
    if size <= u32::MAX as usize {
        let sector: u32 = FLASH_SECTOR_SIZE;
        let size: u32 = size as u32;
        let whole: u32 = size / sector;
        if size % sector == 0 {
            Ok(whole * sector)
        } else {
            Ok((whole + 1) * sector)
        }
    } else {
        Err(Error::PicobootEraseInvalidSize(target, low_bits(size)))
    }
}

/// Whether `size` is not a `u32`, or still is one in whole sectors.
pub fn may_round_up(size: usize) -> (yes: bool)
    ensures
        yes == erase_size_fits(size),
{
    let size: u64 = size as u64;
    let largest: u32 = u32::MAX - u32::MAX % FLASH_SECTOR_SIZE;
    size > u32::MAX as u64 || size <= largest as u64
}

/// The commands of operations, or why there are none.
impl ConnectionState {
    /// The command of [`Connection::reboot`].
    pub fn reboot_command(&self, delay: Duration) -> (cmd: Result<PicobootCmd, Error>)
        ensures
            wire_result(cmd) == reboot_cmd(*self, delay),
            known(cmd),
    {
        match self.target {
            Target::Rp2040 => {
                let sp: u32 = match self.target.default_stack_pointer() {
                    Some(sp) => sp,
                    None => 0,
                };
                self.reboot_rp2040_command(0, sp, delay)
            },
            Target::Rp2350 => self.reboot_rp2350_command(REBOOT_TYPE_NORMAL, 0, 0, delay),
            Target::Custom { .. } => Err(
                Error::PicobootCmdNotAllowedForTarget(self.target, PicobootCmdId::Reboot),
            ),
        }
    }

    /// The command of [`Connection::reboot_rp2040`].
    pub fn reboot_rp2040_command(&self, pc: u32, sp: u32, delay: Duration) -> (cmd: Result<
        PicobootCmd,
        Error,
    >)
        ensures
            wire_result(cmd) == reboot_rp2040_cmd(*self, pc, sp, delay),
            known(cmd),
    {
        match self.delay_millis(delay) {
            Err(e) => Err(e),
            Ok(ms) => if self.target == Target::Rp2350 {
                Err(Error::PicobootCmdNotAllowedForTarget(self.target, PicobootCmdId::Reboot))
            } else {
                Ok(PicobootCmd::reboot(pc, sp, ms))
            },
        }
    }

    /// The command of [`Connection::reboot_rp2350`].
    pub fn reboot_rp2350_command(&self, flags: u32, p0: u32, p1: u32, delay: Duration) -> (cmd:
        Result<PicobootCmd, Error>)
        ensures
            wire_result(cmd) == reboot_rp2350_cmd(*self, flags, p0, p1, delay),
            known(cmd),
    {
        match self.delay_millis(delay) {
            Err(e) => Err(e),
            Ok(ms) => if self.target == Target::Rp2040 {
                Err(Error::PicobootCmdNotAllowedForTarget(self.target, PicobootCmdId::Reboot2))
            } else {
                Ok(PicobootCmd::reboot2(flags, p0, p1, ms))
            },
        }
    }

    /// Milliseconds of a delay, as a command holds them.
    fn delay_millis(&self, delay: Duration) -> (ms: Result<u32, Error>)
        ensures
            ms == delay_ms(*self, delay),
    {
        let ms: u128 = delay.as_millis();
        if ms <= u32::MAX as u128 {
            Ok(ms as u32)
        } else {
            Err(Error::PicobootInvalidDuration(self.target, delay))
        }
    }

    /// The command of [`Connection::flash_erase_start`].
    pub fn erase_start_command(&self, size: usize) -> (cmd: Result<PicobootCmd, Error>)
        requires
            erase_size_fits(size),
        ensures
            wire_result(cmd) == flash_erase_start_cmd(*self, size),
            known(cmd),
    {
        match erase_bytes(self.target, size) {
            Err(e) => Err(e),
            Ok(size) => self.erase_command(self.target.flash_start(), size),
        }
    }

    /// The command of [`Connection::flash_erase`].
    pub fn erase_command(&self, addr: u32, size: u32) -> (cmd: Result<PicobootCmd, Error>)
        ensures
            wire_result(cmd) == flash_erase_cmd(*self, addr, size),
            known(cmd),
    {
        if addr % self.target.flash_sector_size() != 0 {
            Err(Error::PicobootEraseInvalidAddr(self.target, addr))
        } else if size % self.target.flash_sector_size() != 0 {
            Err(Error::PicobootEraseInvalidSize(self.target, size))
        } else {
            Ok(PicobootCmd::flash_erase(addr, size))
        }
    }

    /// The command of [`Connection::flash_read`].
    pub fn flash_read_command(&self, addr: u32, size: u32) -> (cmd: Result<PicobootCmd, Error>)
        ensures
            wire_result(cmd) == flash_read_cmd(*self, addr, size),
            known(cmd),
    {
        if addr % self.target.flash_page_size() != 0 {
            Err(Error::PicobootReadInvalidAddr(self.target, addr))
        } else if size % self.target.flash_page_size() != 0 {
            Err(Error::PicobootReadInvalidSize(self.target, size))
        } else {
            Ok(PicobootCmd::flash_read(addr, size))
        }
    }
}

/// The limits of what can be asked for, for callers to test beforehand.
impl ConnectionState {
    /// Whether a command can be sent, if it is not refused beforehand.
    pub fn may_run(&self, cmd: &Result<PicobootCmd, Error>) -> (yes: bool)
        requires
            known(*cmd),
        ensures
            yes == (wire_result(*cmd) matches Ok(w) ==> can_send(*self, w)),
    {
        match cmd {
            Ok(cmd) => self.may_send(cmd.direction(), cmd.get_transfer_len() as u32),
            Err(_) => true,
        }
    }

    /// Whether `commands` commands can still be given a token.
    pub fn has_tokens(&self, commands: u32) -> (enough: bool)
        ensures
            enough == (self.cmd_token + commands <= u32::MAX),
    {
        self.cmd_token <= u32::MAX - commands
    }

    /// Whether a command that moves `len` bytes can be sent.
    pub fn may_send(&self, direction: Direction, len: u32) -> (yes: bool)
        ensures
            yes == (self.cmd_token < u32::MAX && can_exchange(*self, direction, len)),
    {
        if !self.has_tokens(1) {
            return false;
        }
        let unit: usize = self.in_ep_max_packet_size;
        match direction {
            Direction::Out => unit > 0,
            Direction::In => if len == 0 {
                true
            } else if unit == 0 {
                false
            } else {
                let n: usize = len as usize;
                let rest: usize = n % unit;
                proof {
                    lemma_round_up(n as int, unit as int);
                }
                rest == 0 || unit - rest <= usize::MAX - n
            },
        }
    }

    /// Whether `len` bytes can be written to flash from `addr` on, if that is not
    /// refused beforehand.
    pub fn may_flash_write(&self, addr: u32, len: usize) -> (yes: bool)
        ensures
            yes == (addr % FLASH_PAGE_SIZE == 0 ==> can_write(*self, addr, len as int)),
    {
        addr % FLASH_PAGE_SIZE != 0 || self.may_write(addr, len)
    }

    /// Whether `len` bytes can be written from `addr` on.
    pub fn may_write(&self, addr: u32, len: usize) -> (yes: bool)
        ensures
            yes == can_write(*self, addr, len as int),
    {
        if len == 0 {
            return true;
        }
        let len: u128 = len as u128;
        let page: u128 = FLASH_PAGE_SIZE as u128;
        let fits = if len <= 0x1_0000_0000 {
            addr as u128 + (len - 1) / page * page <= u32::MAX as u128
        } else {
            addr < FLASH_PAGE_SIZE
        };
        let commands: u128 = (len + page - 1) / page;
        fits && self.cmd_token as u128 + commands <= u32::MAX as u128
            && self.in_ep_max_packet_size > 0
    }
}

/// What rounding up comes to.
pub proof fn lemma_round_up(n: int, unit: int)
    requires
        n >= 0,
        unit > 0,
    ensures
        0 <= n % unit <= n,
        round_up(n, unit) == (if n % unit == 0 {
            n
        } else {
            n - n % unit + unit
        }),
{
    let whole = n / unit;
    let rest = n % unit;
    assert(n == unit * whole + rest && 0 <= rest < unit) by (nonlinear_arith)
        requires
            unit > 0,
            whole == n / unit,
            rest == n % unit,
    ;
    assert(rest <= n) by (nonlinear_arith)
        requires
            n >= 0,
            unit > 0,
            whole == n / unit,
            n == unit * whole + rest,
    ;
    let up = (n + unit - 1) / unit;
    if rest == 0 {
        assert(up == whole) by (nonlinear_arith)
            requires
                unit > 0,
                n == unit * whole,
                up == (n + unit - 1) / unit,
        ;
    } else {
        assert(up == whole + 1) by (nonlinear_arith)
            requires
                unit > 0,
                n == unit * whole + rest,
                0 < rest < unit,
                up == (n + unit - 1) / unit,
        ;
    }
    assert(up * unit == (if rest == 0 {
        n
    } else {
        n - rest + unit
    })) by (nonlinear_arith)
        requires
            n == unit * whole + rest,
            up == (if rest == 0 {
                whole
            } else {
                whole + 1
            }),
    ;
}

/// One byte takes one packet.
proof fn lemma_one_packet(unit: int)
    ensures
        unit > 0 ==> round_up(1, unit) == unit,
{
    if unit > 0 {
        assert(unit / unit * unit == unit) by (nonlinear_arith)
            requires
                unit > 0,
        ;
    }
}

/// The lower bits of `n`.
pub(crate) fn low_bits(n: usize) -> (low: u32)
    ensures
        low == n as int % 0x1_0000_0000,
{
    let wide: u64 = n as u64;
    (wide % 0x1_0000_0000) as u32
}

/// The data of the WRITE command for what stands at `offset`, and where the next
/// one starts.
fn chunk_of(buf: &Vec<u8>, offset: usize) -> (r: (Vec<u8>, usize))
    requires
        offset < buf@.len(),
    ensures
        r.0@ == chunk(buf@, offset as int),
        r.0@.len() <= FLASH_PAGE_SIZE,
        r.1 == offset + FLASH_PAGE_SIZE || r.1 == buf@.len() <= offset + FLASH_PAGE_SIZE,
{
    let page: usize = FLASH_PAGE_SIZE as usize;
    let left: usize = buf.len() - offset;
    let end: usize = if left < page {
        buf.len()
    } else {
        offset + page
    };
    let data = vstd::slice::slice_to_vec(
        vstd::slice::slice_subrange(buf.as_slice(), offset, end),
    );
    (data, end)
}

/// A WRITE command is within the limits, and so are those after it.
proof fn lemma_write_step(
    c: ConnectionState,
    addr: u32,
    buf: Vec<u8>,
    offset: usize,
    rest: usize,
)
    requires
        offset < buf@.len(),
        rest == offset + FLASH_PAGE_SIZE || rest == buf@.len() <= offset + FLASH_PAGE_SIZE,
        next_ready(c, Next::Write { addr, buf, offset }),
    ensures
        next_ready(c.next(), Next::Write { addr, buf, offset: rest }),
        c.cmd_token < u32::MAX,
        addr + offset as int % 0x1_0000_0000 <= u32::MAX,
        write_from(c, addr, buf@, offset as int) == onward(
            send_cmd_script(
                c,
                WireCmd::flash_write(
                    chunk_addr(addr, offset as int),
                    chunk(buf@, offset as int).len() as u32,
                ),
                Some(chunk(buf@, offset as int)),
            ),
            Next::Write { addr, buf, offset: rest },
        ),
{
    reveal(onward);
    lemma_write_from(c, addr, buf@, offset as int);
    lemma_chunk_addr_fits(addr, buf@.len() as int, offset as int);
    lemma_chunks_left(buf@.len() - offset);
    lemma_write_past_end(addr, buf@, rest as int, offset + FLASH_PAGE_SIZE);
    assert(write_on(addr, buf@, rest as int) == write_on(addr, buf@, offset + FLASH_PAGE_SIZE));
}

/// The address of a WRITE command is a `u32`.
pub proof fn lemma_chunk_addr_fits(addr: u32, len: int, offset: int)
    requires
        write_fits(addr, len),
        0 <= offset < len,
        offset % FLASH_PAGE_SIZE as int == 0,
    ensures
        addr + offset % 0x1_0000_0000 <= u32::MAX,
{
    let page = offset / 0x100;
    assert(offset == 0x100 * page);
    if len <= 0x1_0000_0000 {
        assert(page <= (len - 1) / 0x100);
    } else {
        assert(offset % 0x1_0000_0000 == 0x100 * (page % 0x100_0000));
    }
}

/// A WRITE command is one of those left.
proof fn lemma_chunks_left(left: int)
    requires
        left > 0,
    ensures
        chunks(left) >= 1,
        left > FLASH_PAGE_SIZE ==> chunks(left) == 1 + chunks(left - FLASH_PAGE_SIZE),
{
}

/// Past the end there is nothing more to write.
proof fn lemma_write_past_end(addr: u32, buf: Seq<u8>, a: int, b: int)
    ensures
        buf.len() <= a && buf.len() <= b ==> write_on(addr, buf, a) == write_on(addr, buf, b),
{
    if buf.len() <= a && buf.len() <= b {
        assert forall|end: Ended|
            #![trigger write_on(addr, buf, a)(end)]
            #![trigger write_on(addr, buf, b)(end)]
            write_on(addr, buf, a)(end) == write_on(addr, buf, b)(end) by {
            lemma_write_on(addr, buf, a, end);
            lemma_write_on(addr, buf, b, end);
            lemma_write_from(end.conn, addr, buf, a);
            lemma_write_from(end.conn, addr, buf, b);
        }
        assert(write_on(addr, buf, a) =~= write_on(addr, buf, b));
    }
}

/// The least multiple of `unit` that is at least `n`.
fn whole_packets(n: usize, unit: usize) -> (len: usize)
    requires
        unit > 0,
        round_up(n as int, unit as int) <= usize::MAX,
    ensures
        len == round_up(n as int, unit as int),
{
    proof {
        lemma_round_up(n as int, unit as int);
    }
    let rest: usize = n % unit;
    if rest == 0 {
        n
    } else {
        n - rest + unit
    }
}

} // verus!
