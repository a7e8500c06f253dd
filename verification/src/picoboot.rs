//! An attached PICOBOOT device, and operations that look after the connection
//! themselves.

use vstd::prelude::*;
use vstd::std_specs::cmp::PartialEqSpecImpl;
use vstd::string::*;

use crate::cmd::{PicobootCmd, PicobootCmdId, PicobootXCmd, WireCmd};
use crate::connection::{
    can_send, can_write, command_script, data_of, erase_bytes, erase_size, erase_size_fits,
    flash_erase_cmd, flash_read_cmd, flash_write_script, known, may_round_up, query_script,
    reboot_cmd, reboot_rp2350_cmd, reset_interface_script, send_picobootx_cmd_script, wire_result,
    write_script, Connection, ConnectionState, Ended, REBOOT_TYPE_NORMAL,
};
use crate::device::{
    device_settings, find_interface, first_interface, select_devices, wanted_devices,
    wanted_targets, Configuration, DeviceInfo, InterfaceSetting, PicobootInterface, Speed,
};
use crate::error::{Error, UsbError};
use crate::script::{
    answers, bind, lemma_bind_after, lemma_bind_unchanged, Action, Answer, Detached, Output, Reply,
    Request, Script, Step, Value,
};
use crate::target::{RebootType, Target, FLASH_PAGE_SIZE, FLASH_SECTOR_SIZE};
use crate::timeouts::{Duration, Timeouts};

verus! {

/// REBOOT2 flags for a boot into BOOTSEL mode
pub const REBOOT_TYPE_BOOTSEL: u32 = 0x0002;

/// BOOTSEL parameter that leaves out the mass storage interface
pub const DISABLE_MSD_INTERFACE: u32 = 0x01;

/// BOOTSEL parameter that leaves out the PICOBOOT interface
pub const DISABLE_PICOBOOT_INTERFACE: u32 = 0x02;

/// What is known of an attached device.
pub struct PicobootState {
    /// The USB device
    pub device: DeviceInfo,
    /// The connection, if it is open
    pub connection: Option<ConnectionState>,
    /// Where PICOBOOT is found on the device
    pub interface: PicobootInterface,
    /// Type of the device
    pub target: Target,
    /// Timeouts of transfers
    pub timeouts: Timeouts,
}

impl PicobootState {
    /// A connection to the device that was just opened.
    pub open spec fn fresh(self, detached: bool) -> ConnectionState {
        ConnectionState {
            target: self.target,
            if_num: self.interface.if_num,
            out_ep: self.interface.out_ep,
            in_ep: self.interface.in_ep,
            in_ep_max_packet_size: self.interface.in_ep_max_packet_size,
            kernel_driver_detached: detached,
            timeouts: self.timeouts,
            cmd_token: 1,
        }
    }

    /// The connection's state when an operation starts on it.
    pub open spec fn start(self) -> ConnectionState {
        match self.connection {
            Some(c) => c,
            None => self.fresh(false),
        }
    }

    /// Whether the two differ in nothing but the connection.
    pub open spec fn same_device(self, other: Self) -> bool {
        self == PicobootState { connection: self.connection, ..other }
    }
}

/// How an operation on a device ended.
pub struct Finished {
    /// The connection, if it is open
    pub connection: Option<ConnectionState>,
    /// What the operation gives back
    pub result: Result<Output, Error>,
}

/// A device's operation that is done.
pub open spec fn finished(
    connection: Option<ConnectionState>,
    result: Result<Output, Error>,
) -> Script<Finished> {
    Script::Done(Finished { connection, result })
}

// ----- connecting -----

/// [`Picoboot::connect`]
pub open spec fn connect_script(p: PicobootState) -> Script<Finished> {
    match p.connection {
        Some(c) => finished(Some(c), Ok(Output::Unit)),
        None => Script::Ask(Action::Open, opened(p), None),
    }
}

/// After opening the device.
pub open spec fn opened(p: PicobootState) -> spec_fn(Answer) -> Script<Finished> {
    |answer: Answer|
        match answer->Open_0 {
            Err(e) => finished(None, Err(Error::UsbOpenError(p.target, e))),
            Ok(_) => detach(p),
        }
}

/// Detaching the kernel's driver, before claiming the interface.
pub open spec fn detach(p: PicobootState) -> Script<Finished> {
    Script::Ask(Action::DetachKernelDriver { if_num: p.interface.if_num }, detached(p), None)
}

/// After detaching the kernel's driver.
pub open spec fn detached(p: PicobootState) -> spec_fn(Answer) -> Script<Finished> {
    |answer: Answer|
        match answer->DetachKernelDriver_0 {
            Detached::Failed(e) => finished(
                None,
                Err(Error::UsbDetachKernelDriverFailure(p.target, e)),
            ),
            Detached::Yes => claim(p, true),
            Detached::NotActive => claim(p, false),
        }
}

/// Claiming the interface.
pub open spec fn claim(p: PicobootState, detached: bool) -> Script<Finished> {
    Script::Ask(
        Action::ClaimInterface { if_num: p.interface.if_num },
        claimed(p, detached),
        None,
    )
}

/// After claiming the interface.
pub open spec fn claimed(p: PicobootState, detached: bool) -> spec_fn(Answer) -> Script<Finished> {
    |answer: Answer|
        match answer->ClaimInterface_0 {
            Err(e) => finished(None, Err(Error::UsbClaimInterfaceFailure(p.target, e))),
            Ok(_) => finished(Some(p.fresh(detached)), Ok(Output::Unit)),
        }
}

// ----- disconnecting -----

/// The interface to give back to the kernel's driver, if it was taken from it.
pub open spec fn reattach_of(c: ConnectionState) -> Option<u8> {
    if c.kernel_driver_detached {
        Some(c.if_num)
    } else {
        None
    }
}

/// Closing the connection at the end of an operation.
pub open spec fn disconnect(c: ConnectionState, result: Result<Output, Error>) -> Script<
    Finished,
> {
    Script::Ask(Action::Release { reattach: reattach_of(c) }, disconnected(result), None)
}

/// After closing the connection.
pub open spec fn disconnected(result: Result<Output, Error>) -> spec_fn(Answer) -> Script<
    Finished,
> {
    |answer: Answer| finished(None, result)
}

/// Failing: a connection that was open before (`was`) stays open, one that the
/// operation opened is closed.
pub open spec fn give_up(c: ConnectionState, was: bool, e: Error) -> Script<Finished> {
    if was {
        finished(Some(c), Err(e))
    } else {
        disconnect(c, Err(e))
    }
}

/// Failing, with a best effort to reset the interface first.
pub open spec fn recover(c: ConnectionState, was: bool, e: Error) -> Script<Finished> {
    bind(reset_interface_script(c), recovered(was, e))
}

/// After the best effort to reset the interface.
pub open spec fn recovered(was: bool, e: Error) -> spec_fn(Ended) -> Script<Finished> {
    |end: Ended| give_up(end.conn, was, e)
}

// ----- operations -----

/// An operation on a device.
pub enum Job {
    /// [`Picoboot::connect`]
    Connect,
    /// [`Picoboot::flash_read`], [`Picoboot::read`]
    Read { addr: u32, size: u32, flash: bool },
    /// [`Picoboot::flash_write`], [`Picoboot::write`]
    Write { addr: u32, buf: Seq<u8>, flash: bool },
    /// [`Picoboot::flash_erase`]
    Erase { addr: u32, size: u32 },
    /// [`Picoboot::flash_erase_and_write`]
    EraseWrite { addr: u32, size: u32, buf: Seq<u8> },
    /// [`Picoboot::reboot`]
    Reboot { target: Target, reboot_type: RebootType, delay: Duration },
    /// [`Picoboot::send_picobootx_cmd`]
    Extension { cmd: WireCmd, data: Option<Seq<u8>> },
}

/// The course of an operation on a device.
pub open spec fn job_script(p: PicobootState, job: Job) -> Script<Finished> {
    bind(connect_script(p), connected(p.connection is Some, job))
}

/// After connecting.
pub open spec fn connected(was: bool, job: Job) -> spec_fn(Finished) -> Script<Finished> {
    |f: Finished|
        match f.result {
            Err(e) => finished(f.connection, Err(e)),
            Ok(_) => job_on(f.connection->0, was, job),
        }
}

/// The operation on an open connection.  All but connecting and rebooting reset
/// the interface first.
pub open spec fn job_on(c: ConnectionState, was: bool, job: Job) -> Script<Finished> {
    match job {
        Job::Connect => finished(Some(c), Ok(Output::Unit)),
        Job::Reboot { target, reboot_type, delay } => bind(
            command_script(c, reboot_type_cmd(c, target, reboot_type, delay)),
            rebooted(was),
        ),
        _ => bind(reset_interface_script(c), reset_done(was, job)),
    }
}

/// After resetting the interface.
pub open spec fn reset_done(was: bool, job: Job) -> spec_fn(Ended) -> Script<Finished> {
    |end: Ended|
        match end.result {
            Err(e) => give_up(end.conn, was, e),
            Ok(_) => job_after_reset(end.conn, was, job),
        }
}

/// The command of a read, or why there is none.
pub open spec fn read_cmd(c: ConnectionState, addr: u32, size: u32, flash: bool) -> Result<
    WireCmd,
    Error,
> {
    if flash {
        flash_read_cmd(c, addr, size)
    } else {
        Ok(WireCmd::flash_read(addr, size))
    }
}

/// The operation on a connection that was just reset.
pub open spec fn job_after_reset(c: ConnectionState, was: bool, job: Job) -> Script<Finished> {
    match job {
        Job::Read { addr, size, flash } => bind(
            query_script(c, read_cmd(c, addr, size, flash)),
            kept_open(was),
        ),
        Job::Write { addr, buf, flash } => bind(
            if flash {
                flash_write_script(c, addr, buf)
            } else {
                write_script(c, addr, buf)
            },
            kept_open(was),
        ),
        Job::Erase { addr, size } => bind(
            command_script(c, Ok(WireCmd::exit_xip())),
            xip_exited(was, addr, size),
        ),
        Job::EraseWrite { addr, size, buf } => bind(
            command_script(c, flash_erase_cmd(c, addr, size)),
            erased(was, addr, buf),
        ),
        Job::Extension { cmd, data } => bind(
            send_picobootx_cmd_script(c, cmd, data),
            as_before(was),
        ),
        _ => finished(Some(c), Ok(Output::Unit)),
    }
}

/// After EXIT_XIP, which an erase needs beforehand.
pub open spec fn xip_exited(was: bool, addr: u32, size: u32) -> spec_fn(Ended) -> Script<Finished> {
    |end: Ended|
        match end.result {
            Err(e) => give_up(end.conn, was, e),
            Ok(_) => bind(
                command_script(end.conn, flash_erase_cmd(end.conn, addr, size)),
                kept_open(was),
            ),
        }
}

/// After an erase that makes room for a write.
pub open spec fn erased(was: bool, addr: u32, buf: Seq<u8>) -> spec_fn(Ended) -> Script<Finished> {
    |end: Ended|
        match end.result {
            Err(e) => recover(end.conn, was, e),
            Ok(_) => bind(flash_write_script(end.conn, addr, buf), kept_open(was)),
        }
}

/// At the end of an operation that leaves the connection open if it succeeds.
pub open spec fn kept_open(was: bool) -> spec_fn(Ended) -> Script<Finished> {
    |end: Ended|
        match end.result {
            Err(e) => recover(end.conn, was, e),
            Ok(value) => finished(Some(end.conn), Ok(value)),
        }
}

/// At the end of an operation that leaves the connection as it was.
pub open spec fn as_before(was: bool) -> spec_fn(Ended) -> Script<Finished> {
    |end: Ended|
        match end.result {
            Err(e) => recover(end.conn, was, e),
            Ok(value) => if was {
                finished(Some(end.conn), Ok(value))
            } else {
                disconnect(end.conn, Ok(value))
            },
        }
}

/// After a reboot, which leaves nothing to be connected to.
pub open spec fn rebooted(was: bool) -> spec_fn(Ended) -> Script<Finished> {
    |end: Ended|
        match end.result {
            Err(e) => recover(end.conn, was, e),
            Ok(value) => disconnect(end.conn, Ok(value)),
        }
}

/// BOOTSEL parameter for the interfaces to leave out.
pub open spec fn bootsel_param(disable_msd: bool, disable_picoboot: bool) -> u32 {
    if disable_msd && disable_picoboot {
        3
    } else if disable_msd {
        1
    } else if disable_picoboot {
        2
    } else {
        0
    }
}

/// The command of a reboot of a `target`, or why there is none.
pub open spec fn reboot_type_cmd(
    c: ConnectionState,
    target: Target,
    reboot_type: RebootType,
    delay: Duration,
) -> Result<WireCmd, Error> {
    match (reboot_type, target) {
        (RebootType::Normal, Target::Rp2040) => reboot_cmd(c, delay),
        (RebootType::Normal, _) => reboot_rp2350_cmd(c, REBOOT_TYPE_NORMAL, 0, 0, delay),
        (RebootType::Bootsel { .. }, Target::Rp2040) => Err(
            Error::PicobootCmdNotAllowedForTarget(target, PicobootCmdId::Reboot2),
        ),
        (RebootType::Bootsel { disable_msd, disable_picoboot }, _) => reboot_rp2350_cmd(
            c,
            REBOOT_TYPE_BOOTSEL,
            bootsel_param(disable_msd, disable_picoboot),
            0,
            delay,
        ),
    }
}

/// [`Picoboot::flash_erase_and_write`]: an address that is not on a sector is
/// refused, and so is a length that is not a `u32`, before anything is sent.
pub open spec fn flash_erase_and_write_script(p: PicobootState, addr: u32, buf: Seq<u8>) -> Script<
    Finished,
> {
    if addr % FLASH_SECTOR_SIZE != 0 || addr % FLASH_PAGE_SIZE != 0 {
        finished(p.connection, Err(Error::PicobootEraseInvalidAddr(p.target, addr)))
    } else {
        match erase_size(p.target, buf.len() as usize) {
            Err(e) => finished(p.connection, Err(e)),
            Ok(size) => job_script(p, Job::EraseWrite { addr, size, buf }),
        }
    }
}

// ----- limits -----

/// Whether an operation on a connection in this state is within the limits.
pub open spec fn job_fits(c: ConnectionState, job: Job) -> bool {
    match job {
        Job::Connect => true,
        Job::Read { addr, size, flash } => read_cmd(c, addr, size, flash) matches Ok(w)
            ==> can_send(c, w),
        Job::Write { addr, buf, flash } => (flash && addr % FLASH_PAGE_SIZE != 0) || can_write(
            c,
            addr,
            buf.len() as int,
        ),
        Job::Erase { addr, size } => {
            &&& can_send(c, WireCmd::exit_xip())
            &&& flash_erase_cmd(c, addr, size) matches Ok(w) ==> can_send(c.next(), w)
        },
        Job::EraseWrite { addr, size, buf } => {
            &&& flash_erase_cmd(c, addr, size) matches Ok(w) && can_send(c, w)
            &&& can_write(c.next(), addr, buf.len() as int)
        },
        Job::Reboot { target, reboot_type, delay } => reboot_type_cmd(
            c,
            target,
            reboot_type,
            delay,
        ) matches Ok(w) ==> can_send(c, w),
        Job::Extension { cmd, data } => can_send(c, cmd),
    }
}

// ----- the device -----

/// An operation, and its data.
enum Op {
    Connect,
    Read { addr: u32, size: u32, flash: bool },
    Write { addr: u32, buf: Vec<u8>, flash: bool },
    Erase { addr: u32, size: u32 },
    EraseWrite { addr: u32, size: u32, buf: Vec<u8> },
    Reboot { target: Target, reboot_type: RebootType, delay: Duration },
    Extension { cmd: PicobootXCmd, data: Option<Vec<u8>> },
}

impl View for Op {
    type V = Job;

    closed spec fn view(&self) -> Job {
        match *self {
            Op::Connect => Job::Connect,
            Op::Read { addr, size, flash } => Job::Read { addr, size, flash },
            Op::Write { addr, buf, flash } => Job::Write { addr, buf: buf@, flash },
            Op::Erase { addr, size } => Job::Erase { addr, size },
            Op::EraseWrite { addr, size, buf } => Job::EraseWrite { addr, size, buf: buf@ },
            Op::Reboot { target, reboot_type, delay } => Job::Reboot {
                target,
                reboot_type,
                delay,
            },
            Op::Extension { cmd, data } => Job::Extension {
                cmd: cmd@,
                data: data_of(data),
            },
        }
    }
}

/// What is done once the connection's own operation is done.
enum Then {
    /// The operation, now that the interface is reset.
    Go { was: bool, op: Op },
    /// An erase, now that XIP mode is left.
    Erase { was: bool, addr: u32, size: u32 },
    /// A write, now that there is room.
    Write { was: bool, addr: u32, buf: Vec<u8> },
    /// Nothing more; the connection stays open.
    KeepOpen { was: bool },
    /// Nothing more; the connection is left as it was.
    AsBefore { was: bool },
    /// Nothing more; the device is gone.
    Rebooted { was: bool },
    /// Failing.
    GiveUp { was: bool, error: Error },
}

impl Then {
    /// What follows the connection's own operation.
    spec fn script(self) -> spec_fn(Ended) -> Script<Finished> {
        match self {
            Then::Go { was, op } => reset_done(was, op@),
            Then::Erase { was, addr, size } => xip_exited(was, addr, size),
            Then::Write { was, addr, buf } => erased(was, addr, buf@),
            Then::KeepOpen { was } => kept_open(was),
            Then::AsBefore { was } => as_before(was),
            Then::Rebooted { was } => rebooted(was),
            Then::GiveUp { was, error } => recovered(was, error),
        }
    }

    /// Whether what follows is within the limits on a connection in this state.
    spec fn fits(self, c: ConnectionState) -> bool {
        match self {
            Then::Go { was, op } => job_fits(c, op@) && !(op is Connect) && !(op is Reboot),
            Then::Erase { was, addr, size } => flash_erase_cmd(c, addr, size) matches Ok(w)
                ==> can_send(c, w),
            Then::Write { was, addr, buf } => addr % FLASH_PAGE_SIZE == 0 ==> can_write(
                c,
                addr,
                buf@.len() as int,
            ),
            _ => true,
        }
    }

    /// Operations of the connection yet to come, at most.
    spec fn rank(self) -> nat {
        match self {
            Then::Go { .. } => 3,
            Then::Erase { .. } => 2,
            Then::Write { .. } => 2,
            Then::KeepOpen { .. } => 1,
            Then::AsBefore { .. } => 1,
            Then::Rebooted { .. } => 1,
            Then::GiveUp { .. } => 0,
        }
    }
}

/// What is within the limits stays so while fewer tokens are given out.
proof fn lemma_fits_sooner(next: Then, a: ConnectionState, b: ConnectionState)
    requires
        next.fits(a),
        b.same_link(a),
        b.cmd_token <= a.cmd_token,
    ensures
        next.fits(b),
{
}

/// What a device waits for.
enum Task {
    /// The device is open.
    Open { op: Op },
    /// The kernel's driver is detached.
    Detach { op: Op },
    /// The interface is claimed.
    Claim { detached: bool, op: Op },
    /// The connection's own operation goes on.
    Connection { next: Then },
    /// The connection is closed.
    Release { c: Ghost<ConnectionState>, result: Result<Value, Error> },
}

/// What a result stands for.
pub open spec fn output_of(result: Result<Value, Error>) -> Result<Output, Error> {
    match result {
        Ok(value) => Ok(value@),
        Err(e) => Err(e),
    }
}

/// Represents an attached PICOBOOT capable device
///
/// This object is used to discover and manage connections to PICOBOOT
/// devices over USB.  An operation starts with the method of its name, which
/// says what to do first; [`Picoboot::resume`] takes the outcome and says what
/// comes next, until the operation is done.  An operation that is under way is
/// given up when another one starts, and when the connection is used otherwise.
pub struct Picoboot {
    device_info: DeviceInfo,
    connection: Option<Connection>,
    interface: PicobootInterface,
    target: Target,
    timeouts: Timeouts,
    task: Option<Task>,
}

impl View for Picoboot {
    type V = PicobootState;

    closed spec fn view(&self) -> PicobootState {
        PicobootState {
            device: self.device_info,
            connection: match self.connection {
                Some(conn) => Some(conn@),
                None => None,
            },
            interface: self.interface,
            target: self.target,
            timeouts: self.timeouts,
        }
    }
}

/// A copy has no operation under way.
impl Clone for Picoboot {
    fn clone(&self) -> (picoboot: Self)
        ensures
            picoboot@ == self@,
            picoboot.script() is Done,
    {
        Picoboot {
            device_info: self.device_info.clone(),
            connection: match &self.connection {
                Some(conn) => Some(conn.clone()),
                None => None,
            },
            interface: self.interface,
            target: self.target,
            timeouts: self.timeouts,
            task: None,
        }
    }
}

/// The state of `c`, with another token for the next command.
pub open spec fn with_token(c: ConnectionState, token: int) -> ConnectionState {
    ConnectionState { cmd_token: token as u32, ..c }
}

impl Picoboot {
    /// The connection, with the operation it has under way.
    pub closed spec fn link(&self) -> Option<Connection> {
        self.connection
    }

    /// The connection's state is that of the connection.
    pub proof fn lemma_link(&self)
        ensures
            self@.connection == (match self.link() {
                Some(conn) => Some(conn@),
                None => None,
            }),
    {
    }

    /// The course of the operation under way, from what it waits for on.
    pub closed spec fn script(&self) -> Script<Finished> {
        match self.task {
            None => finished(self@.connection, Ok(Output::Unit)),
            Some(Task::Open { op }) => bind(
                Script::Ask(Action::Open, opened(self@), None),
                connected(false, op@),
            ),
            Some(Task::Detach { op }) => bind(detach(self@), connected(false, op@)),
            Some(Task::Claim { detached, op }) => bind(
                claim(self@, detached),
                connected(false, op@),
            ),
            Some(Task::Connection { next }) => bind(
                self.connection->0.script(),
                next.script(),
            ),
            Some(Task::Release { c, result }) => disconnect(c@, output_of(result)),
        }
    }

    /// Whether the operation under way is within the limits.
    pub closed spec fn ready(&self) -> bool {
        match self.task {
            None => true,
            Some(Task::Open { op }) => {
                &&& self.connection is None
                &&& job_fits(self@.fresh(false), op@)
            },
            Some(Task::Detach { op }) => {
                &&& self.connection is None
                &&& job_fits(self@.fresh(false), op@)
            },
            Some(Task::Claim { detached, op }) => {
                &&& self.connection is None
                &&& job_fits(self@.fresh(false), op@)
            },
            Some(Task::Connection { next }) => {
                &&& self.connection is Some
                &&& self.connection->0.ready()
                &&& self.connection->0.script() is Ask
                &&& self.connection->0.token_limit() <= u32::MAX
                &&& self.connection->0.token_limit() >= self.connection->0@.cmd_token
                &&& next.fits(
                    with_token(self.connection->0@, self.connection->0.token_limit()),
                )
            },
            Some(Task::Release { c, result }) => self.connection is None,
        }
    }

    /// Whether the device stands in the course `s`, and `step` says so: it asks
    /// for what `s` asks for, with the connection that `s` says, and goes on as `s`
    /// does, or it ended as `s` ended, with nothing under way.
    pub open spec fn runs(&self, s: Script<Finished>, step: Step) -> bool {
        match s {
            Script::Done(f) => {
                &&& step.ends(f.result)
                &&& self@.connection == f.connection
                &&& self.script() is Done
            },
            Script::Ask(action, _, now) => {
                &&& step.asks(action)
                &&& self@.connection == now
                &&& self.script() == s
                &&& self.ready()
            },
        }
    }

    /// Waits for the connection's own operation, which stands in the course `s`,
    /// and goes on from there.
    fn wait(&mut self, step: Step, next: Then, Ghost(s): Ghost<Script<Ended>>) -> (out: Step)
        requires
            old(self).connection is Some,
            old(self).connection->0.runs(s, step),
            next.fits(
                with_token(
                    old(self).connection->0@,
                    old(self).connection->0.token_limit(),
                ),
            ),
        ensures
            final(self)@.same_device(old(self)@),
            final(self).runs(bind(s, next.script()), out),
        decreases next.rank(), 1int,
    {
        proof {
            self.connection->0.lemma_token_limit();
        }
        match step {
            Step::Ask(request) => {
                proof {
                    lemma_bind_after(s, next.script(), Answer::Release);
                }
                self.task = Some(Task::Connection { next });
                Step::Ask(request)
            },
            Step::Done(result) => self.go_on(result, next),
        }
    }

    /// Goes on once the connection's own operation is done.
    fn go_on(&mut self, result: Result<Value, Error>, next: Then) -> (out: Step)
        requires
            old(self).connection is Some,
            next.fits(old(self).connection->0@),
        ensures
            final(self)@.same_device(old(self)@),
            final(self).runs(
                next.script()(
                    Ended { conn: old(self)@.connection->0, result: output_of(result) },
                ),
                out,
            ),
        decreases next.rank(), 0int,
    {
        match next {
            Then::Go { was, op } => match result {
                Err(e) => self.give_up(was, e),
                Ok(_) => self.go(was, op),
            },
            Then::Erase { was, addr, size } => match result {
                Err(e) => self.give_up(was, e),
                Ok(_) => self.erase(was, addr, size),
            },
            Then::Write { was, addr, buf } => match result {
                Err(e) => self.recover(was, e),
                Ok(_) => self.write_flash(was, addr, buf),
            },
            Then::KeepOpen { was } => match result {
                Err(e) => self.recover(was, e),
                Ok(value) => {
                    self.task = None;
                    Step::Done(Ok(value))
                },
            },
            Then::AsBefore { was } => match result {
                Err(e) => self.recover(was, e),
                Ok(value) => if was {
                    self.task = None;
                    Step::Done(Ok(value))
                } else {
                    self.close(Ok(value))
                },
            },
            Then::Rebooted { was } => match result {
                Err(e) => self.recover(was, e),
                Ok(value) => self.close(Ok(value)),
            },
            Then::GiveUp { was, error } => self.give_up(was, error),
        }
    }

    /// Closes the connection at the end of an operation.
    fn close(&mut self, result: Result<Value, Error>) -> (out: Step)
        requires
            old(self).connection is Some,
        ensures
            final(self)@.same_device(old(self)@),
            final(self).runs(disconnect(old(self)@.connection->0, output_of(result)), out),
    {
        let c: Ghost<ConnectionState> = Ghost(self@.connection->0);
        let reattach = match self.connection.take() {
            Some(conn) => conn.reattach(),
            None => None,
        };
        self.task = Some(Task::Release { c, result });
        Step::Ask(Request::Release { reattach })
    }

    /// Fails.
    fn give_up(&mut self, was: bool, error: Error) -> (out: Step)
        requires
            old(self).connection is Some,
        ensures
            final(self)@.same_device(old(self)@),
            final(self).runs(give_up(old(self)@.connection->0, was, error), out),
    {
        if was {
            self.task = None;
            Step::Done(Err(error))
        } else {
            self.close(Err(error))
        }
    }

    /// Fails, with a best effort to reset the interface first.
    fn recover(&mut self, was: bool, error: Error) -> (out: Step)
        requires
            old(self).connection is Some,
        ensures
            final(self)@.same_device(old(self)@),
            final(self).runs(recover(old(self)@.connection->0, was, error), out),
        decreases 0nat, 2int,
    {
        let ghost c = self@.connection->0;
        let step = match &mut self.connection {
            Some(conn) => conn.reset_interface(),
            None => vstd::pervasive::unreached(),
        };
        self.wait(step, Then::GiveUp { was, error }, Ghost(reset_interface_script(c)))
    }

    /// Erases, now that nothing else is left to be done before.
    fn erase(&mut self, was: bool, addr: u32, size: u32) -> (out: Step)
        requires
            old(self).connection is Some,
            flash_erase_cmd(old(self)@.connection->0, addr, size) matches Ok(w) ==> can_send(
                old(self)@.connection->0,
                w,
            ),
        ensures
            final(self)@.same_device(old(self)@),
            final(self).runs(
                bind(
                    command_script(
                        old(self)@.connection->0,
                        flash_erase_cmd(old(self)@.connection->0, addr, size),
                    ),
                    kept_open(was),
                ),
                out,
            ),
        decreases 1nat, 3int,
    {
        let ghost c = self@.connection->0;
        let step = match &mut self.connection {
            Some(conn) => conn.flash_erase(addr, size),
            None => vstd::pervasive::unreached(),
        };
        self.wait(
            step,
            Then::KeepOpen { was },
            Ghost(command_script(c, flash_erase_cmd(c, addr, size))),
        )
    }

    /// Writes to flash, now that nothing else is left to be done before.
    fn write_flash(&mut self, was: bool, addr: u32, buf: Vec<u8>) -> (out: Step)
        requires
            old(self).connection is Some,
            addr % FLASH_PAGE_SIZE == 0 ==> can_write(
                old(self)@.connection->0,
                addr,
                buf@.len() as int,
            ),
        ensures
            final(self)@.same_device(old(self)@),
            final(self).runs(
                bind(
                    flash_write_script(old(self)@.connection->0, addr, buf@),
                    kept_open(was),
                ),
                out,
            ),
        decreases 1nat, 3int,
    {
        let ghost c = self@.connection->0;
        let ghost data = buf@;
        let step = match &mut self.connection {
            Some(conn) => conn.flash_write(addr, buf),
            None => vstd::pervasive::unreached(),
        };
        self.wait(step, Then::KeepOpen { was }, Ghost(flash_write_script(c, addr, data)))
    }

    /// Reads, now that the interface is reset.
    fn go_read(&mut self, was: bool, addr: u32, size: u32, flash: bool) -> (out: Step)
        requires
            old(self).connection is Some,
            job_fits(old(self)@.connection->0, Job::Read { addr, size, flash }),
        ensures
            final(self)@.same_device(old(self)@),
            final(self).runs(
                job_after_reset(old(self)@.connection->0, was, Job::Read { addr, size, flash }),
                out,
            ),
        decreases 1nat, 3int,
    {
        let ghost c = self@.connection->0;
        let step = match &mut self.connection {
            Some(conn) => if flash {
                conn.flash_read(addr, size)
            } else {
                conn.read(addr, size)
            },
            None => vstd::pervasive::unreached(),
        };
        self.wait(
            step,
            Then::KeepOpen { was },
            Ghost(query_script(c, read_cmd(c, addr, size, flash))),
        )
    }

    /// Writes, now that the interface is reset.
    fn go_write(&mut self, was: bool, addr: u32, buf: Vec<u8>, flash: bool) -> (out: Step)
        requires
            old(self).connection is Some,
            job_fits(old(self)@.connection->0, Job::Write { addr, buf: buf@, flash }),
        ensures
            final(self)@.same_device(old(self)@),
            final(self).runs(
                job_after_reset(
                    old(self)@.connection->0,
                    was,
                    Job::Write { addr, buf: buf@, flash },
                ),
                out,
            ),
        decreases 1nat, 4int,
    {
        if flash {
            return self.write_flash(was, addr, buf);
        }
        let ghost c = self@.connection->0;
        let ghost data = buf@;
        let step = match &mut self.connection {
            Some(conn) => conn.write(addr, buf),
            None => vstd::pervasive::unreached(),
        };
        self.wait(step, Then::KeepOpen { was }, Ghost(write_script(c, addr, data)))
    }

    /// Leaves XIP mode to erase, now that the interface is reset.
    ///
    /// There appears to be a bug in the RP2350 bootrom stepping where an
    /// EXIT_XIP is required before a flash erase, otherwise the erase fails
    /// silently (returns success, immediately).  See:
    /// <https://github.com/raspberrypi/pico-sdk/issues/2878>
    ///
    /// EXIT_XIP is always required on RP2040 silicon.
    fn go_erase(&mut self, was: bool, addr: u32, size: u32) -> (out: Step)
        requires
            old(self).connection is Some,
            job_fits(old(self)@.connection->0, Job::Erase { addr, size }),
        ensures
            final(self)@.same_device(old(self)@),
            final(self).runs(
                job_after_reset(old(self)@.connection->0, was, Job::Erase { addr, size }),
                out,
            ),
        decreases 2nat, 3int,
    {
        let ghost c = self@.connection->0;
        let step = match &mut self.connection {
            Some(conn) => conn.exit_xip(),
            None => vstd::pervasive::unreached(),
        };
        proof {
            let conn = self.connection->0;
            conn.lemma_token_limit();
            lemma_fits_sooner(
                Then::Erase { was, addr, size },
                c.next(),
                with_token(conn@, conn.token_limit()),
            );
        }
        self.wait(
            step,
            Then::Erase { was, addr, size },
            Ghost(command_script(c, Ok(WireCmd::exit_xip()))),
        )
    }

    /// Erases to write, now that the interface is reset.
    fn go_erase_write(&mut self, was: bool, addr: u32, size: u32, buf: Vec<u8>) -> (out: Step)
        requires
            old(self).connection is Some,
            job_fits(old(self)@.connection->0, Job::EraseWrite { addr, size, buf: buf@ }),
        ensures
            final(self)@.same_device(old(self)@),
            final(self).runs(
                job_after_reset(
                    old(self)@.connection->0,
                    was,
                    Job::EraseWrite { addr, size, buf: buf@ },
                ),
                out,
            ),
        decreases 2nat, 3int,
    {
        let ghost c = self@.connection->0;
        let step = match &mut self.connection {
            Some(conn) => conn.flash_erase(addr, size),
            None => vstd::pervasive::unreached(),
        };
        proof {
            let conn = self.connection->0;
            conn.lemma_token_limit();
            lemma_fits_sooner(
                Then::Write { was, addr, buf },
                c.next(),
                with_token(conn@, conn.token_limit()),
            );
        }
        self.wait(
            step,
            Then::Write { was, addr, buf },
            Ghost(command_script(c, flash_erase_cmd(c, addr, size))),
        )
    }

    /// Sends an extension command, now that the interface is reset.
    fn go_extension(&mut self, was: bool, cmd: PicobootXCmd, data: Option<Vec<u8>>) -> (out: Step)
        requires
            old(self).connection is Some,
            can_send(old(self)@.connection->0, cmd@),
        ensures
            final(self)@.same_device(old(self)@),
            final(self).runs(
                job_after_reset(old(self)@.connection->0, was, Op::Extension { cmd, data }@),
                out,
            ),
        decreases 1nat, 3int,
    {
        let ghost c = self@.connection->0;
        let ghost wire = cmd@;
        let ghost buf = data_of(data);
        let step = match &mut self.connection {
            Some(conn) => conn.send_picobootx_cmd(cmd, data),
            None => vstd::pervasive::unreached(),
        };
        self.wait(
            step,
            Then::AsBefore { was },
            Ghost(send_picobootx_cmd_script(c, wire, buf)),
        )
    }

    /// Performs the operation, now that the interface is reset.
    fn go(&mut self, was: bool, op: Op) -> (out: Step)
        requires
            old(self).connection is Some,
            job_fits(old(self).connection->0@, op@),
            !(op is Connect),
            !(op is Reboot),
        ensures
            final(self)@.same_device(old(self)@),
            final(self).runs(job_after_reset(old(self)@.connection->0, was, op@), out),
        decreases 2nat, 4int,
    {
        match op {
            Op::Read { addr, size, flash } => self.go_read(was, addr, size, flash),
            Op::Write { addr, buf, flash } => self.go_write(was, addr, buf, flash),
            Op::Erase { addr, size } => self.go_erase(was, addr, size),
            Op::EraseWrite { addr, size, buf } => self.go_erase_write(was, addr, size, buf),
            Op::Extension { cmd, data } => self.go_extension(was, cmd, data),
            _ => vstd::pervasive::unreached(),
        }
    }

    /// Reboots.
    fn go_reboot(
        &mut self,
        was: bool,
        target: Target,
        reboot_type: RebootType,
        delay: Duration,
    ) -> (out: Step)
        requires
            old(self).connection is Some,
            job_fits(old(self)@.connection->0, Job::Reboot { target, reboot_type, delay }),
        ensures
            final(self)@.same_device(old(self)@),
            final(self).runs(
                job_on(
                    old(self)@.connection->0,
                    was,
                    Job::Reboot { target, reboot_type, delay },
                ),
                out,
            ),
    {
        let ghost c = self@.connection->0;
        let step = match &mut self.connection {
            Some(conn) => {
                let cmd = reboot_type_command(conn.state(), target, reboot_type, delay);
                conn.command(cmd)
            },
            None => vstd::pervasive::unreached(),
        };
        self.wait(
            step,
            Then::Rebooted { was },
            Ghost(command_script(c, reboot_type_cmd(c, target, reboot_type, delay))),
        )
    }

    /// Performs the operation, now that the connection is open.
    fn go_connected(&mut self, was: bool, op: Op) -> (out: Step)
        requires
            old(self).connection is Some,
            job_fits(old(self)@.connection->0, op@),
        ensures
            final(self)@.same_device(old(self)@),
            final(self).runs(job_on(old(self)@.connection->0, was, op@), out),
    {
        match op {
            Op::Connect => {
                self.task = None;
                Step::Done(Ok(Value::Unit))
            },
            Op::Reboot { target, reboot_type, delay } => self.go_reboot(
                was,
                target,
                reboot_type,
                delay,
            ),
            op => {
                let ghost c = self@.connection->0;
                let step = match &mut self.connection {
                    Some(conn) => conn.reset_interface(),
                    None => vstd::pervasive::unreached(),
                };
                self.wait(step, Then::Go { was, op }, Ghost(reset_interface_script(c)))
            },
        }
    }

    /// Starts an operation.
    fn begin(&mut self, op: Op) -> (out: Step)
        requires
            job_fits(old(self)@.start(), op@),
        ensures
            final(self)@.same_device(old(self)@),
            final(self).runs(job_script(old(self)@, op@), out),
    {
        if self.connection.is_some() {
            self.go_connected(true, op)
        } else {
            proof {
                lemma_bind_after(
                    connect_script(self@),
                    connected(false, op@),
                    Answer::Release,
                );
            }
            self.task = Some(Task::Open { op });
            Step::Ask(Request::Open)
        }
    }
}

/// Whether the kernel's driver was detached does not matter to the limits.
pub proof fn lemma_fits_fresh(p: PicobootState, detached: bool, job: Job)
    requires
        job_fits(p.fresh(false), job),
    ensures
        job_fits(p.fresh(detached), job),
{
}

impl Picoboot {
    /// Goes on after opening the device.
    fn resume_open(&mut self, op: Op, reply: Reply) -> (out: Step)
        requires
            old(self).connection is None,
            job_fits(old(self)@.fresh(false), op@),
            reply is Open,
        ensures
            final(self)@.same_device(old(self)@),
            final(self).runs(bind(opened(old(self)@)(reply@), connected(false, op@)), out),
    {
        match reply {
            Reply::Open(Err(e)) => {
                self.task = None;
                Step::Done(Err(Error::UsbOpenError(self.target, e)))
            },
            _ => {
                proof {
                    lemma_bind_after(
                        detach(self@),
                        connected(false, op@),
                        Answer::Release,
                    );
                }
                // Detach the kernel's driver BEFORE claiming the interface.
                self.task = Some(Task::Detach { op });
                Step::Ask(Request::DetachKernelDriver { if_num: self.interface.if_num })
            },
        }
    }

    /// Goes on after detaching the kernel's driver.
    fn resume_detach(&mut self, op: Op, reply: Reply) -> (out: Step)
        requires
            old(self).connection is None,
            job_fits(old(self)@.fresh(false), op@),
            reply is DetachKernelDriver,
        ensures
            final(self)@.same_device(old(self)@),
            final(self).runs(bind(detached(old(self)@)(reply@), connected(false, op@)), out),
    {
        match reply {
            Reply::DetachKernelDriver(Detached::Failed(e)) => {
                self.task = None;
                Step::Done(Err(Error::UsbDetachKernelDriverFailure(self.target, e)))
            },
            reply => {
                let detached = match reply {
                    Reply::DetachKernelDriver(Detached::Yes) => true,
                    _ => false,
                };
                proof {
                    lemma_bind_after(
                        claim(self@, detached),
                        connected(false, op@),
                        Answer::Release,
                    );
                }
                self.task = Some(Task::Claim { detached, op });
                Step::Ask(Request::ClaimInterface { if_num: self.interface.if_num })
            },
        }
    }

    /// Goes on after claiming the interface.
    fn resume_claim(&mut self, detached: bool, op: Op, reply: Reply) -> (out: Step)
        requires
            old(self).connection is None,
            job_fits(old(self)@.fresh(false), op@),
            reply is ClaimInterface,
        ensures
            final(self)@.same_device(old(self)@),
            final(self).runs(
                bind(claimed(old(self)@, detached)(reply@), connected(false, op@)),
                out,
            ),
    {
        match reply {
            Reply::ClaimInterface(Err(e)) => {
                self.task = None;
                Step::Done(Err(Error::UsbClaimInterfaceFailure(self.target, e)))
            },
            _ => {
                proof {
                    lemma_fits_fresh(self@, detached, op@);
                }
                self.connection = Some(
                    Connection::new(
                        self.target,
                        self.interface.if_num,
                        self.interface.out_ep,
                        self.interface.in_ep,
                        self.interface.in_ep_max_packet_size,
                        detached,
                        self.timeouts,
                    ),
                );
                self.go_connected(false, op)
            },
        }
    }

    /// Goes on with the connection's own operation.
    fn resume_connection(&mut self, next: Then, reply: Reply) -> (out: Step)
        requires
            old(self).connection is Some,
            old(self).connection->0.ready(),
            old(self).connection->0.script() is Ask,
            answers(reply@, old(self).connection->0.script()->Ask_0),
            next.fits(
                with_token(
                    old(self).connection->0@,
                    old(self).connection->0.token_limit(),
                ),
            ),
        ensures
            final(self)@.same_device(old(self)@),
            final(self).runs(
                bind(old(self).connection->0.script().after(reply@), next.script()),
                out,
            ),
    {
        let ghost before = self.connection->0;
        let ghost s = self.connection->0.script().after(reply@);
        let step = match &mut self.connection {
            Some(conn) => conn.resume(reply),
            None => vstd::pervasive::unreached(),
        };
        proof {
            let conn = self.connection->0;
            before.lemma_token_limit();
            conn.lemma_token_limit();
            lemma_fits_sooner(
                next,
                with_token(before@, before.token_limit()),
                with_token(conn@, conn.token_limit()),
            );
        }
        self.wait(step, next, Ghost(s))
    }

    /// Goes on with the operation under way after the outcome of what it asked
    /// for.
    pub fn resume(&mut self, reply: Reply) -> (step: Step)
        requires
            old(self).ready(),
            old(self).script() is Ask,
            answers(reply@, old(self).script()->Ask_0),
        ensures
            final(self)@.same_device(old(self)@),
            final(self).runs(old(self).script().after(reply@), step),
    {
        match self.task.take() {
            None => vstd::pervasive::unreached(),
            Some(Task::Open { op }) => {
                proof {
                    lemma_bind_after(
                        Script::Ask(Action::Open, opened(self@), None),
                        connected(false, op@),
                        reply@,
                    );
                }
                self.resume_open(op, reply)
            },
            Some(Task::Detach { op }) => {
                proof {
                    lemma_bind_after(
                        detach(self@),
                        connected(false, op@),
                        reply@,
                    );
                }
                self.resume_detach(op, reply)
            },
            Some(Task::Claim { detached, op }) => {
                proof {
                    lemma_bind_after(
                        claim(self@, detached),
                        connected(false, op@),
                        reply@,
                    );
                }
                self.resume_claim(detached, op, reply)
            },
            Some(Task::Connection { next }) => {
                proof {
                    lemma_bind_after(
                        self.connection->0.script(),
                        next.script(),
                        reply@,
                    );
                }
                self.resume_connection(next, reply)
            },
            Some(Task::Release { c, result }) => Step::Done(result),
        }
    }
}

/// What is made of a device that was opened, or not.
pub open spec fn new_state(device: DeviceInfo, settings: Seq<InterfaceSetting>) -> Result<
    (Target, PicobootInterface),
    Error,
> {
    let target = Target::of_ids(device.vendor_id, device.product_id);
    match first_interface(settings) {
        None => Err(Error::PicobootInterfaceNotFound(target)),
        Some(interface) => Ok((target, interface)),
    }
}

/// Law: a device that has a PICOBOOT interface is of the type that its IDs say, and
/// is used by the first such interface; one that has none is refused.
pub proof fn law_new_state(device: DeviceInfo, settings: Seq<InterfaceSetting>)
    ensures
        match first_interface(settings) {
            Some(interface) => new_state(device, settings) == Ok::<
                (Target, PicobootInterface),
                Error,
            >((Target::of_ids(device.vendor_id, device.product_id), interface)),
            None => new_state(device, settings) == Err::<(Target, PicobootInterface), Error>(
                Error::PicobootInterfaceNotFound(
                    Target::of_ids(device.vendor_id, device.product_id),
                ),
            ),
        },
{
}

/// Law: an interface goes back to the kernel's driver if and only if it was taken
/// from it.
pub proof fn law_reattach(c: ConnectionState)
    ensures
        c.kernel_driver_detached ==> reattach_of(c) == Some(c.if_num),
        !c.kernel_driver_detached ==> reattach_of(c) is None,
{
}

/// Whether [`Picoboot::flash_erase_and_write`] is within the limits.
pub open spec fn erase_write_fits(p: PicobootState, addr: u32, buf: Seq<u8>) -> bool {
    addr % FLASH_SECTOR_SIZE == 0 ==> {
        &&& erase_size_fits(buf.len() as usize)
        &&& erase_size(p.target, buf.len() as usize) matches Ok(size) ==> job_fits(
            p.start(),
            Job::EraseWrite { addr, size, buf },
        )
    }
}

/// Connecting is all there is to an operation that only connects.
proof fn lemma_connect_job(p: PicobootState)
    ensures
        job_script(p, Job::Connect) == connect_script(p),
{
    let on = connected(p.connection is Some, Job::Connect);
    lemma_bind_unchanged(
        Action::ClaimInterface { if_num: p.interface.if_num },
        claimed(p, true),
        None,
        on,
    );
    lemma_bind_unchanged(
        Action::ClaimInterface { if_num: p.interface.if_num },
        claimed(p, false),
        None,
        on,
    );
    lemma_bind_unchanged(
        Action::DetachKernelDriver { if_num: p.interface.if_num },
        detached(p),
        None,
        on,
    );
    lemma_bind_unchanged(Action::Open, opened(p), None, on);
}

/// Discovery
impl Picoboot {
    /// Creates a new PICOBOOT object for a device.
    ///
    /// See:
    /// - [`Self::from_first`] for automatic device discovery
    /// - [`Self::list_devices`] to list available devices
    ///
    /// Args:
    /// - `device_info` - The PICOBOOT capable device.
    /// - `opened` - What opening the device gave: the configurations it has.
    ///
    /// Returns:
    /// - `Ok(Picoboot)` - A new Picoboot instance if the device is compatible
    ///   and was successfully queried.
    pub fn new(device_info: DeviceInfo, opened: Result<Vec<Configuration>, UsbError>) -> (created:
        Result<Self, Error>)
        ensures
            match opened {
                Err(e) => created == Err::<Self, Error>(
                    Error::UsbOpenError(
                        Target::of_ids(device_info.vendor_id, device_info.product_id),
                        e,
                    ),
                ),
                Ok(configurations) => match new_state(
                    device_info,
                    device_settings(configurations@),
                ) {
                    Err(e) => created == Err::<Self, Error>(e),
                    Ok((target, interface)) => {
                        &&& created matches Ok(picoboot)
                        &&& picoboot@ == (PicobootState {
                            device: device_info,
                            connection: None,
                            interface,
                            target,
                            timeouts: Timeouts::of_default(),
                        })
                        &&& picoboot.script() is Done
                    },
                },
            },
    {
        let target = Target::from(&device_info);
        let configurations = match opened {
            Err(e) => return Err(Error::UsbOpenError(target, e)),
            Ok(configurations) => configurations,
        };
        match find_interface(&configurations) {
            None => Err(Error::PicobootInterfaceNotFound(target)),
            Some(interface) => Ok(
                Picoboot {
                    device_info,
                    connection: None,
                    interface,
                    target,
                    timeouts: Timeouts::default(),
                    task: None,
                },
            ),
        }
    }

    /// The device for a new PICOBOOT object, which [`Self::new`] makes once the
    /// device is open.
    ///
    /// That is the first device found matching any of the provided types, or the
    /// first discovered RP2040/RP2350, if no targets are listed.
    ///
    /// Args:
    /// - `attached` - What listing the attached USB devices gave.
    /// - `targets` - An optional slice of [`Target`] values to specify which
    ///   device types to search for. If `None`, standard RP2040 and RP2350
    ///   types will be searched.
    ///
    /// Returns:
    /// - `Ok(DeviceInfo)` - The device, if a compatible device is found.
    pub fn from_first(
        attached: Result<Vec<DeviceInfo>, UsbError>,
        targets: Option<&[Target]>,
    ) -> (first: Result<DeviceInfo, Error>)
        ensures
            match attached {
                Err(e) => first == Err::<DeviceInfo, Error>(Error::UsbEnumerationError(e)),
                Ok(devices) => {
                    let found = wanted_devices(devices@, wanted_targets(targets));
                    if found.len() == 0 {
                        first == Err::<DeviceInfo, Error>(Error::PicobootNoDevicesFound)
                    } else {
                        first == Ok::<DeviceInfo, Error>(found[0])
                    }
                },
            },
    {
        match Self::list_devices(attached, targets) {
            Err(e) => Err(e),
            Ok(mut devices) => if devices.len() > 0 {
                Ok(devices.remove(0))
            } else {
                Err(Error::PicobootNoDevicesFound)
            },
        }
    }

    /// Returns a list of available PICOBOOT devices.
    ///
    /// Either searches for all connected RP2040/RP2350 devices with stock
    /// VID/PID, or, if `targets` is provided, only those types.
    ///
    /// Args:
    /// - `attached` - What listing the attached USB devices gave.
    /// - `targets` - An optional slice of [`Target`] values to specify which
    ///   device types to search for.
    ///
    /// Returns:
    /// - `Ok(Vec<DeviceInfo>)` - A vector of detected devices.
    pub fn list_devices(
        attached: Result<Vec<DeviceInfo>, UsbError>,
        targets: Option<&[Target]>,
    ) -> (found: Result<Vec<DeviceInfo>, Error>)
        ensures
            match attached {
                Err(e) => found == Err::<Vec<DeviceInfo>, Error>(Error::UsbEnumerationError(e)),
                Ok(devices) => found is Ok && found->Ok_0@ == wanted_devices(
                    devices@,
                    wanted_targets(targets),
                ),
            },
    {
        select_devices(attached, targets)
    }
}

/// The connection
impl Picoboot {
    /// Establish PICOBOOT connection
    ///
    /// Called to open a connection to the PICOBOOT device, enabling PICOBOOT
    /// commands to be sent.  Once it is open, [`Self::connection`] gives it.
    ///
    /// Gives back:
    /// - [`Value::Unit`] - If connection is successfully established.
    pub fn connect(&mut self) -> (step: Step)
        ensures
            final(self)@.same_device(old(self)@),
            final(self).runs(connect_script(old(self)@), step),
    {
        proof {
            lemma_connect_job(self@);
        }
        self.begin(Op::Connect)
    }

    /// Disconnects the PICOBOOT connection, and says what is left to do for it:
    /// an interface that was taken from the kernel's driver is given back.
    pub fn disconnect(&mut self) -> (release: Option<Request>)
        ensures
            final(self)@ == (PicobootState { connection: None, ..old(self)@ }),
            final(self).script() is Done,
            match old(self)@.connection {
                Some(c) => release matches Some(request) && request@ == (Action::Release {
                    reattach: reattach_of(c),
                }),
                None => release is None,
            },
    {
        self.task = None;
        match self.connection.take() {
            Some(conn) => Some(Request::Release { reattach: conn.reattach() }),
            None => None,
        }
    }

    /// Sets timeouts for the PICOBOOT connection, otherwise
    /// [`Timeouts::default`] is used
    pub fn set_timeouts(&mut self, timeouts: Timeouts)
        ensures
            final(self)@ == (PicobootState {
                timeouts,
                connection: match old(self)@.connection {
                    Some(c) => Some(ConnectionState { timeouts, ..c }),
                    None => None,
                },
                ..old(self)@
            }),
            final(self).script() is Done,
    {
        self.task = None;
        self.timeouts = timeouts;
        if let Some(conn) = &mut self.connection {
            conn.set_timeouts(timeouts);
        }
    }

    /// Returns whether the PICOBOOT device is currently connected
    pub fn is_connected(&self) -> (yes: bool)
        ensures
            yes == self@.connection is Some,
    {
        self.connection.is_some()
    }

    /// Returns a mutable reference to the active PICOBOOT connection, if any
    pub fn connection(&mut self) -> (conn: Option<&mut Connection>)
        ensures
            match conn {
                Some(conn) => {
                    &&& old(self).link() == Some(*conn)
                    &&& old(self)@.connection == Some(conn@)
                    &&& final(self).link() == Some(*final(conn))
                    &&& final(self)@ == (PicobootState {
                        connection: Some(final(conn)@),
                        ..old(self)@
                    })
                },
                None => {
                    &&& old(self)@.connection is None
                    &&& final(self)@ == old(self)@
                },
            },
    {
        self.task = None;
        match &mut self.connection {
            Some(conn) => Some(conn),
            None => None,
        }
    }

    /// The state of the connection, or, if there is none, that of one that was
    /// just opened without detaching the kernel's driver.
    pub fn start(&self) -> (c: ConnectionState)
        ensures
            c == self@.start(),
    {
        match &self.connection {
            Some(conn) => conn.state(),
            None => Connection::new(
                self.target,
                self.interface.if_num,
                self.interface.out_ep,
                self.interface.in_ep,
                self.interface.in_ep_max_packet_size,
                false,
                self.timeouts,
            ).state(),
        }
    }
}

/// Operations that connect if needed.
///
/// Unless an operation says otherwise, it leaves the connection open when it
/// succeeds, and when it fails it leaves the connection as it was before.
impl Picoboot {
    /// Convenience function to avoid the need to explicitly connect before
    /// performing a flash read.
    ///
    /// Useful when performing a single operation.
    ///
    /// Args:
    /// - `addr` - Address to start the read. Must be on a multiple of
    ///   [`Target::flash_page_size`].
    /// - `size` - Number of bytes to read. Should be a multiple of
    ///   [`Target::flash_page_size`]. If not, it will be rejected.
    ///
    /// Gives back:
    /// - [`Value::Bytes`] - Buffer of data read from flash.
    pub fn flash_read(&mut self, addr: u32, size: u32) -> (step: Step)
        requires
            job_fits(old(self)@.start(), Job::Read { addr, size, flash: true }),
        ensures
            final(self)@.same_device(old(self)@),
            final(self).runs(
                job_script(old(self)@, Job::Read { addr, size, flash: true }),
                step,
            ),
    {
        self.begin(Op::Read { addr, size, flash: true })
    }

    /// Convenience function to avoid the need to explicitly connect before
    /// performing a read.
    ///
    /// Useful when performing a single operation.
    ///
    /// Args:
    /// - `addr` - Address to start the read.
    /// - `size` - Number of bytes to read.
    ///
    /// Gives back:
    /// - [`Value::Bytes`] - Buffer of data read from memory.
    pub fn read(&mut self, addr: u32, size: u32) -> (step: Step)
        requires
            job_fits(old(self)@.start(), Job::Read { addr, size, flash: false }),
        ensures
            final(self)@.same_device(old(self)@),
            final(self).runs(
                job_script(old(self)@, Job::Read { addr, size, flash: false }),
                step,
            ),
    {
        self.begin(Op::Read { addr, size, flash: false })
    }

    /// Convenience function to avoid the need to explicitly connect before
    /// performing a flash write.
    ///
    /// Useful when performing a single operation.
    ///
    /// Args:
    /// - `addr` - Address to start the write. Must be on a multiple of
    ///   [`Target::flash_page_size`].
    /// - `buf` - Buffer of data to write to memory. Should be a multiple of
    ///   [`Target::flash_page_size`]. If not, the device zero-fills the
    ///   remainder of the final page.
    ///
    /// Gives back:
    /// - [`Value::Unit`] - If write command is successfully sent.
    ///
    /// Note: This does not perform a flash erase, so the caller must ensure that
    /// the flash region being written to is already erased, otherwise the write
    /// may fail.
    pub fn flash_write(&mut self, addr: u32, buf: Vec<u8>) -> (step: Step)
        requires
            job_fits(old(self)@.start(), Job::Write { addr, buf: buf@, flash: true }),
        ensures
            final(self)@.same_device(old(self)@),
            final(self).runs(
                job_script(old(self)@, Job::Write { addr, buf: buf@, flash: true }),
                step,
            ),
    {
        self.begin(Op::Write { addr, buf, flash: true })
    }

    /// Convenience function to avoid the need to explicitly connect before
    /// performing a write.
    ///
    /// Useful when performing a single operation.
    ///
    /// Args:
    /// - `addr` - Address to start the write.
    /// - `buf` - Buffer of data to write to memory.
    ///
    /// Gives back:
    /// - [`Value::Unit`] - If write command is successfully sent.
    pub fn write(&mut self, addr: u32, buf: Vec<u8>) -> (step: Step)
        requires
            job_fits(old(self)@.start(), Job::Write { addr, buf: buf@, flash: false }),
        ensures
            final(self)@.same_device(old(self)@),
            final(self).runs(
                job_script(old(self)@, Job::Write { addr, buf: buf@, flash: false }),
                step,
            ),
    {
        self.begin(Op::Write { addr, buf, flash: false })
    }

    /// Convenience function to avoid the need to explicitly connect before
    /// performing a flash erase.
    ///
    /// Useful when performing a single operation.  The device is left out of XIP
    /// mode.
    ///
    /// Args:
    /// - `addr` - Address to start the erase. Must be on a multiple of
    ///   [`Target::flash_sector_size`].
    /// - `size` - Number of bytes to erase. Must be a multiple of
    ///   [`Target::flash_sector_size`].
    ///
    /// Gives back:
    /// - [`Value::Unit`] - If erase command is successfully sent.
    pub fn flash_erase(&mut self, addr: u32, size: u32) -> (step: Step)
        requires
            job_fits(old(self)@.start(), Job::Erase { addr, size }),
        ensures
            final(self)@.same_device(old(self)@),
            final(self).runs(job_script(old(self)@, Job::Erase { addr, size }), step),
    {
        self.begin(Op::Erase { addr, size })
    }

    /// Convenience function to perform a combined flash erase and write, and to
    /// avoid the need to explicitly connect before performing the operation.
    ///
    /// Useful when performing a single operation.
    ///
    /// Args:
    /// - `addr` - Address to start the erase and write. Must be on a multiple of
    ///   [`Target::flash_sector_size`] and [`Target::flash_page_size`].
    /// - `buf` - Buffer of data to write to flash. Should be a multiple of
    ///   [`Target::flash_page_size`]. If not, the device zero-fills the
    ///   remainder of the final page.
    ///
    /// Gives back:
    /// - [`Value::Unit`] - If erase and write commands are successfully sent.
    pub fn flash_erase_and_write(&mut self, addr: u32, buf: Vec<u8>) -> (step: Step)
        requires
            erase_write_fits(old(self)@, addr, buf@),
        ensures
            final(self)@.same_device(old(self)@),
            final(self).runs(flash_erase_and_write_script(old(self)@, addr, buf@), step),
    {
        let target = self.target;
        if addr % target.flash_sector_size() != 0 || addr % target.flash_page_size() != 0 {
            self.task = None;
            return Step::Done(Err(Error::PicobootEraseInvalidAddr(target, addr)));
        }
        match erase_bytes(target, buf.len()) {
            Err(e) => {
                self.task = None;
                Step::Done(Err(e))
            },
            Ok(size) => self.begin(Op::EraseWrite { addr, size, buf }),
        }
    }

    /// Convenience function to reboot the device without needing to explicitly
    /// connect first.  Once the device reboots the connection is closed.
    ///
    /// Args:
    /// - `reboot_type` - The type of reboot to perform.
    /// - `delay` - Time to start the device after. Must fit into a u32
    ///   milliseconds.
    ///
    /// Note: [`RebootType::Bootsel`] is only supported on RP2350. Fails with
    /// [`Error::PicobootCmdNotAllowedForTarget`] for RP2040.  For custom
    /// targets it is allowed (although care must be taken to ensure the
    /// target actually supports it).
    ///
    /// Gives back:
    /// - [`Value::Unit`] - If reboot command is successfully sent.
    pub fn reboot(&mut self, reboot_type: RebootType, delay: Duration) -> (step: Step)
        requires
            job_fits(
                old(self)@.start(),
                Job::Reboot { target: old(self)@.target, reboot_type, delay },
            ),
        ensures
            final(self)@.same_device(old(self)@),
            final(self).runs(
                job_script(
                    old(self)@,
                    Job::Reboot { target: old(self)@.target, reboot_type, delay },
                ),
                step,
            ),
    {
        let target = self.target;
        self.begin(Op::Reboot { target, reboot_type, delay })
    }

    /// Sends a custom picobootx protocol extension command to the device.
    ///
    /// Handles connection lifecycle automatically - connects if needed and
    /// disconnects afterwards if the connection was established by this call.
    ///
    /// Args:
    /// - `cmd` - The picobootx command to send.
    /// - `buf` - Data buffer for OUT data transfer commands; None for action commands.
    ///
    /// Gives back:
    /// - [`Value::Bytes`] - Data returned from the device for IN transfer commands,
    ///   empty for action commands.
    pub fn send_picobootx_cmd(&mut self, cmd: PicobootXCmd, buf: Option<Vec<u8>>) -> (step: Step)
        requires
            job_fits(
                old(self)@.start(),
                Job::Extension { cmd: cmd@, data: data_of(buf) },
            ),
        ensures
            final(self)@.same_device(old(self)@),
            final(self).runs(
                job_script(old(self)@, Job::Extension { cmd: cmd@, data: data_of(buf) }),
                step,
            ),
    {
        self.begin(Op::Extension { cmd, data: buf })
    }
}

/// The limits of what can be asked for, for callers to test beforehand.
impl Picoboot {
    /// Whether [`Self::flash_read`], or else [`Self::read`], is within the limits.
    pub fn may_read(&self, addr: u32, size: u32, flash: bool) -> (yes: bool)
        ensures
            yes == job_fits(self@.start(), Job::Read { addr, size, flash }),
    {
        let c = self.start();
        if flash {
            c.may_run(&c.flash_read_command(addr, size))
        } else {
            c.may_run(&Ok(PicobootCmd::flash_read(addr, size)))
        }
    }

    /// Whether [`Self::flash_write`], or else [`Self::write`], is within the
    /// limits.
    pub fn may_write(&self, addr: u32, buf: &Vec<u8>, flash: bool) -> (yes: bool)
        ensures
            yes == job_fits(self@.start(), Job::Write { addr, buf: buf@, flash }),
    {
        flash && addr % FLASH_PAGE_SIZE != 0 || self.start().may_write(addr, buf.len())
    }

    /// Whether [`Self::flash_erase`] is within the limits.
    pub fn may_erase(&self, addr: u32, size: u32) -> (yes: bool)
        ensures
            yes == job_fits(self@.start(), Job::Erase { addr, size }),
    {
        let c = self.start();
        c.may_run(&Ok(PicobootCmd::exit_xip())) && next_state(c).may_run(
            &c.erase_command(addr, size),
        )
    }

    /// Whether [`Self::flash_erase_and_write`] is within the limits.
    pub fn may_erase_and_write(&self, addr: u32, buf: &Vec<u8>) -> (yes: bool)
        ensures
            yes == erase_write_fits(self@, addr, buf@),
    {
        if addr % FLASH_SECTOR_SIZE != 0 {
            return true;
        }
        if !may_round_up(buf.len()) {
            return false;
        }
        let c = self.start();
        match erase_bytes(self.target, buf.len()) {
            Err(_) => true,
            Ok(size) => c.may_run(&c.erase_command(addr, size)) && next_state(c).may_write(
                addr,
                buf.len(),
            ),
        }
    }

    /// Whether [`Self::reboot`] is within the limits.
    pub fn may_reboot(&self, reboot_type: RebootType, delay: Duration) -> (yes: bool)
        ensures
            yes == job_fits(
                self@.start(),
                Job::Reboot { target: self@.target, reboot_type, delay },
            ),
    {
        let c = self.start();
        c.may_run(&reboot_type_command(c, self.target, reboot_type, delay))
    }

    /// Whether [`Self::send_picobootx_cmd`] is within the limits.
    pub fn may_send_picobootx_cmd(&self, cmd: &PicobootXCmd) -> (yes: bool)
        ensures
            forall|data: Option<Seq<u8>>|
                yes == #[trigger] job_fits(self@.start(), Job::Extension { cmd: cmd@, data }),
    {
        self.start().may_send(cmd.direction(), cmd.get_transfer_len() as u32)
    }
}

/// The state after a command was given its token, if one is left.
fn next_state(c: ConnectionState) -> (next: ConnectionState)
    ensures
        c.cmd_token < u32::MAX ==> next == c.next(),
{
    let mut next = c;
    if c.cmd_token < u32::MAX {
        next.cmd_token = c.cmd_token + 1;
    }
    next
}

/// What a string holds, if there is one.
pub open spec fn text_of(text: Option<String>) -> Option<Seq<char>> {
    match text {
        Some(text) => Some(text@),
        None => None,
    }
}

/// Law: a string that is there is told as it is, be it empty.
pub proof fn law_text(text: String)
    ensures
        text_of(Some(text)) == Some(text@),
        text_of(None) == None::<Seq<char>>,
{
}

/// What a string slice holds, if there is one.
pub open spec fn str_of(text: Option<&str>) -> Option<Seq<char>> {
    match text {
        Some(text) => Some(text@),
        None => None,
    }
}

/// A string as a slice, if there is one.
fn as_text(text: &Option<String>) -> (slice: Option<&str>)
    ensures
        str_of(slice) == text_of(*text),
{
    match text {
        Some(text) => Some(text.as_str()),
        None => None,
    }
}

/// Whether two optional strings are the same.
fn same_text(a: &Option<String>, b: &Option<String>) -> (same: bool)
    ensures
        same == (text_of(*a) == text_of(*b)),
{
    match (a, b) {
        (Some(a), Some(b)) => *a == *b,
        (None, None) => true,
        _ => false,
    }
}

/// The hexadecimal digits, in upper case.
pub open spec fn hex_digits() -> Seq<char> {
    "0123456789ABCDEF"@
}

/// A number in four hexadecimal digits.
pub open spec fn hex4(n: u16) -> Seq<char> {
    seq![
        hex_digits()[n as int / 4096],
        hex_digits()[n as int / 256 % 16],
        hex_digits()[n as int / 16 % 16],
        hex_digits()[n as int % 16],
    ]
}

/// Appends a number in four hexadecimal digits.
fn push_hex4(text: &mut String, n: u16)
    ensures
        final(text)@ == old(text)@ + hex4(n),
{
    let digits = "0123456789ABCDEF";
    proof {
        reveal_strlit("0123456789ABCDEF");
    }
    let a: usize = (n / 4096) as usize;
    let b: usize = (n / 256 % 16) as usize;
    let c: usize = (n / 16 % 16) as usize;
    let d: usize = (n % 16) as usize;
    text.append(digits.substring_ascii(a, a + 1));
    text.append(digits.substring_ascii(b, b + 1));
    text.append(digits.substring_ascii(c, c + 1));
    text.append(digits.substring_ascii(d, d + 1));
    assert(text@ =~= old(text)@ + hex4(n));
}

/// Whether two devices are the same: they are at the same place on the bus, have
/// the same IDs and serial number, and the same timeouts.  Connections, and what
/// was found out about the interface, do not matter.
pub open spec fn same_picoboot(a: PicobootState, b: PicobootState) -> bool {
    &&& a.target == b.target
    &&& a.device.vendor_id == b.device.vendor_id
    &&& a.device.product_id == b.device.product_id
    &&& a.device.bus_id@ == b.device.bus_id@
    &&& a.device.device_address == b.device.device_address
    &&& text_of(a.device.serial_number) == text_of(b.device.serial_number)
    &&& a.timeouts == b.timeouts
}

/// Law: [`Picoboot`]'s `==` is an equivalence.
pub proof fn law_same_picoboot(a: PicobootState, b: PicobootState, c: PicobootState)
    ensures
        same_picoboot(a, a),
        same_picoboot(a, b) ==> same_picoboot(b, a),
        same_picoboot(a, b) && same_picoboot(b, c) ==> same_picoboot(a, c),
{
}

/// Law: [`Picoboot`]'s `==` tells devices apart by their type, vendor ID, product
/// ID, bus, address, serial number and timeouts, and by nothing else.
pub proof fn law_same_picoboot_sees(a: PicobootState, b: PicobootState)
    ensures
        a.target != b.target ==> !same_picoboot(a, b),
        a.device.vendor_id != b.device.vendor_id ==> !same_picoboot(a, b),
        a.device.product_id != b.device.product_id ==> !same_picoboot(a, b),
        a.device.bus_id@ != b.device.bus_id@ ==> !same_picoboot(a, b),
        a.device.device_address != b.device.device_address ==> !same_picoboot(a, b),
        a.device.serial_number is Some != b.device.serial_number is Some ==> !same_picoboot(a, b),
        (a.device.serial_number matches Some(x) && (b.device.serial_number matches Some(y) && x@
            != y@)) ==> !same_picoboot(a, b),
        a.timeouts != b.timeouts ==> !same_picoboot(a, b),
        !same_picoboot(a, b) ==> {
            ||| a.target != b.target
            ||| a.device.vendor_id != b.device.vendor_id
            ||| a.device.product_id != b.device.product_id
            ||| a.device.bus_id@ != b.device.bus_id@
            ||| a.device.device_address != b.device.device_address
            ||| a.device.serial_number is Some != b.device.serial_number is Some
            ||| (a.device.serial_number matches Some(x) && (b.device.serial_number matches Some(y)
                && x@ != y@))
            ||| a.timeouts != b.timeouts
        },
{
}

/// What a hexadecimal digit in upper case stands for.
pub open spec fn digit_value(digit: char) -> int {
    if '0' <= digit <= '9' {
        digit as int - '0' as int
    } else if 'A' <= digit <= 'F' {
        digit as int - 'A' as int + 10
    } else {
        -1
    }
}

/// Law: [`Picoboot::info`] shows an ID in four digits that stand for just that
/// number.
pub proof fn law_hex4(n: u16)
    ensures
        hex4(n).len() == 4,
        n == 4096 * digit_value(hex4(n)[0]) + 256 * digit_value(hex4(n)[1]) + 16 * digit_value(
            hex4(n)[2],
        ) + digit_value(hex4(n)[3]),
        forall|i: int| 0 <= i < 4 ==> 0 <= digit_value(#[trigger] hex4(n)[i]) < 16,
{
    reveal_strlit("0123456789ABCDEF");
    assert forall|d: int| 0 <= d < 16 implies digit_value(#[trigger] hex_digits()[d]) == d by {}
    let (a, b, c, d) = (n as int / 4096, n as int / 256 % 16, n as int / 16 % 16, n as int % 16);
    assert(n == 4096 * a + 256 * b + 16 * c + d);
    assert(digit_value(hex_digits()[a]) == a);
    assert(digit_value(hex_digits()[b]) == b);
    assert(digit_value(hex_digits()[c]) == c);
    assert(digit_value(hex_digits()[d]) == d);
}

/// Law: [`Picoboot`]'s `==` does not see connections.
pub proof fn law_same_picoboot_ignores_connection(
    a: PicobootState,
    connection: Option<ConnectionState>,
    interface: PicobootInterface,
)
    ensures
        same_picoboot(a, PicobootState { connection, interface, ..a }),
{
}

impl PartialEqSpecImpl for Picoboot {
    open spec fn obeys_eq_spec() -> bool {
        true
    }

    open spec fn eq_spec(&self, other: &Picoboot) -> bool {
        same_picoboot(self@, other@)
    }
}

/// Two `Picoboot` instances are equal if they refer to the same USB device
/// connection with the same VID/PID, same serial number and same timeout
/// configuration.
///
/// This ignores:
/// - Connection state (open/closed)
/// - Derived configuration (endpoints, packet sizes)
impl PartialEq for Picoboot {
    fn eq(&self, other: &Picoboot) -> (same: bool) {
        self.target == other.target && self.device_info.vendor_id == other.device_info.vendor_id
            && self.device_info.product_id == other.device_info.product_id
            && self.device_info.bus_id == other.device_info.bus_id
            && self.device_info.device_address == other.device_info.device_address && same_text(
            &self.device_info.serial_number,
            &other.device_info.serial_number,
        ) && self.timeouts == other.timeouts
    }
}

impl Eq for Picoboot {

}

/// What is known of the device
impl Picoboot {
    /// Returns the target type of the connected PICOBOOT device
    pub fn target(&self) -> (target: &Target)
        ensures
            *target == self@.target,
    {
        &self.target
    }

    /// Returns VID/PID of the connected PICOBOOT device
    pub fn info(&self) -> (text: String)
        ensures
            text@ == hex4(self@.device.vendor_id) + seq![':'] + hex4(self@.device.product_id),
    {
        let mut text = String::new();
        push_hex4(&mut text, self.device_info.vendor_id);
        text.append(":");
        push_hex4(&mut text, self.device_info.product_id);
        proof {
            reveal_strlit(":");
            assert(text@ =~= hex4(self@.device.vendor_id) + seq![':'] + hex4(
                self@.device.product_id,
            ));
        }
        text
    }

    /// Returns the serial number of the device, if available.
    pub fn serial_number(&self) -> (text: Option<&str>)
        ensures
            str_of(text) == text_of(self@.device.serial_number),
    {
        as_text(&self.device_info.serial_number)
    }

    /// Returns the vendor ID of the device.
    pub fn vid(&self) -> (vid: u16)
        ensures
            vid == self@.device.vendor_id,
    {
        self.device_info.vendor_id
    }

    /// Returns the product ID of the device.
    pub fn pid(&self) -> (pid: u16)
        ensures
            pid == self@.device.product_id,
    {
        self.device_info.product_id
    }

    /// Returns the version of the device.
    pub fn device_version(&self) -> (version: u16)
        ensures
            version == self@.device.device_version,
    {
        self.device_info.device_version
    }

    /// Returns the device's manufacturer string, if available.
    pub fn manufacturer_string(&self) -> (text: Option<&str>)
        ensures
            str_of(text) == text_of(self@.device.manufacturer_string),
    {
        as_text(&self.device_info.manufacturer_string)
    }

    /// Returns the device's product string, if available.
    pub fn product_string(&self) -> (text: Option<&str>)
        ensures
            str_of(text) == text_of(self@.device.product_string),
    {
        as_text(&self.device_info.product_string)
    }

    /// Returns the USB version supported by the device.
    pub fn usb_version(&self) -> (version: u16)
        ensures
            version == self@.device.usb_version,
    {
        self.device_info.usb_version
    }

    /// Returns the device's speed, if available.
    pub fn speed(&self) -> (speed: Option<Speed>)
        ensures
            speed == self@.device.speed,
    {
        self.device_info.speed
    }
}

/// The command of a reboot of a `target`, or why there is none.
fn reboot_type_command(
    c: ConnectionState,
    target: Target,
    reboot_type: RebootType,
    delay: Duration,
) -> (cmd: Result<PicobootCmd, Error>)
    ensures
        wire_result(cmd) == reboot_type_cmd(c, target, reboot_type, delay),
        known(cmd),
{
    match reboot_type {
        RebootType::Normal => match target {
            Target::Rp2040 => c.reboot_command(delay),
            _ => c.reboot_rp2350_command(REBOOT_TYPE_NORMAL, 0, 0, delay),
        },
        RebootType::Bootsel { disable_msd, disable_picoboot } => match target {
            Target::Rp2040 => Err(
                Error::PicobootCmdNotAllowedForTarget(target, PicobootCmdId::Reboot2),
            ),
            // The datasheet has p0 and p1 transposed.
            _ => c.reboot_rp2350_command(
                REBOOT_TYPE_BOOTSEL,
                bootsel_parameter(disable_msd, disable_picoboot),
                0,
                delay,
            ),
        },
    }
}

/// BOOTSEL parameter for the interfaces to leave out.
fn bootsel_parameter(disable_msd: bool, disable_picoboot: bool) -> (param: u32)
    ensures
        param == bootsel_param(disable_msd, disable_picoboot),
{
    assert(0u32 | 1u32 == 1u32 && 0u32 | 2u32 == 2u32 && 1u32 | 2u32 == 3u32) by (bit_vector);
    let mut param: u32 = 0;
    if disable_msd {
        param = param | DISABLE_MSD_INTERFACE;
    }
    if disable_picoboot {
        param = param | DISABLE_PICOBOOT_INTERFACE;
    }
    param
}

} // verus!
