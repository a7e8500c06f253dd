//! Reads of any memory of a live device, whatever its alignment.

use vstd::prelude::*;

use crate::cmd::WireCmd;
use crate::connection::{
    can_send, get_command_status_script, low_bits, query_script, reset_interface_script, round_up,
    ConnectionState, Ended,
};
use crate::error::Error;
use crate::picoboot::{
    connect_script, disconnect, finished, output_of, reattach_of, Finished, Picoboot, PicobootState,
};
use crate::script::{
    answers, bind, ends_in, lemma_bind_after, Action, Answer, Output, Reply, Request, Script, Step,
    Value,
};
use crate::target::{FLASH_PAGE_SIZE, FLASH_START};

verus! {

/// Last address of flash
pub const FLASH_LAST: u32 = 0x1FFF_FFFF;

/// A read of a device, and where in it the bytes asked for are found.
#[derive(Debug, Clone, Copy, PartialEq, Eq, Structural)]
pub struct ReadPlan {
    /// Address to read from
    pub addr: u32,
    /// Bytes to read
    pub size: u32,
    /// Where the bytes asked for start in what is read
    pub offset: usize,
}

/// Why a reader cannot read.
#[derive(Debug, PartialEq, Eq)]
pub enum ReaderError {
    /// The device is not connected.
    NotConnected,
}

/// Whether an address is one of flash.
pub open spec fn in_flash(addr: u32) -> bool {
    FLASH_START <= addr <= FLASH_LAST
}

/// The read for `len` bytes from `addr` on: whole pages of flash, or just the
/// bytes.  A size that is not a `u32` is cut to its lower bits.
pub open spec fn read_plan(addr: u32, len: int) -> ReadPlan {
    if in_flash(addr) {
        let offset = addr as int % FLASH_PAGE_SIZE as int;
        ReadPlan {
            addr: (addr - offset) as u32,
            size: ((offset + len + FLASH_PAGE_SIZE - 1) / FLASH_PAGE_SIZE as int * FLASH_PAGE_SIZE
                % 0x1_0000_0000) as u32,
            offset: offset as usize,
        }
    } else {
        ReadPlan { addr, size: (len % 0x1_0000_0000) as u32, offset: 0 }
    }
}

/// Whether the size of the read for `len` bytes is a `u32`.
pub open spec fn plan_is_whole(addr: u32, len: int) -> bool {
    if in_flash(addr) {
        round_up(addr as int % FLASH_PAGE_SIZE as int + len, FLASH_PAGE_SIZE as int) <= u32::MAX
    } else {
        len <= u32::MAX
    }
}

/// The bytes asked for, in what was read.
pub open spec fn window(plan: ReadPlan, len: int, data: Seq<u8>) -> Seq<u8> {
    data.subrange(plan.offset as int, plan.offset + len)
}

// ----- getting ready -----

/// [`PicobootReader::new`]: connects, resets the interface, and asks for the
/// status of the last command, whatever it is.
pub open spec fn open_script(p: PicobootState) -> Script<Finished> {
    bind(connect_script(p), reader_connected())
}

/// After connecting.
pub open spec fn reader_connected() -> spec_fn(Finished) -> Script<Finished> {
    |f: Finished|
        match f.result {
            Err(e) => finished(f.connection, Err(e)),
            Ok(_) => bind(reset_interface_script(f.connection->0), reader_reset()),
        }
}

/// After resetting the interface.  A reader that does not come about has no
/// connection.
pub open spec fn reader_reset() -> spec_fn(Ended) -> Script<Finished> {
    |end: Ended|
        match end.result {
            Err(e) => disconnect(end.conn, Err(e)),
            Ok(_) => bind(get_command_status_script(end.conn), reader_opened()),
        }
}

/// After the status of the last command, whatever it is.
pub open spec fn reader_opened() -> spec_fn(Ended) -> Script<Finished> {
    |end: Ended| finished(Some(end.conn), Ok(Output::Unit))
}

// ----- reading -----

/// The command of a read.
pub open spec fn reader_cmd(addr: u32, len: int) -> WireCmd {
    WireCmd::flash_read(read_plan(addr, len).addr, read_plan(addr, len).size)
}

/// [`PicobootReader::read`]
pub open spec fn reader_read_script(c: ConnectionState, addr: u32, len: int) -> Script<Finished> {
    bind(query_script(c, Ok(reader_cmd(addr, len))), reader_read())
}

/// After reading.
pub open spec fn reader_read() -> spec_fn(Ended) -> Script<Finished> {
    |end: Ended|
        match end.result {
            Ok(value) => finished(Some(end.conn), Ok(value)),
            Err(e) => bind(reset_interface_script(end.conn), reader_recovered(e)),
        }
}

/// After resetting the interface because a read failed.
pub open spec fn reader_recovered(e: Error) -> spec_fn(Ended) -> Script<Finished> {
    |end: Ended|
        match end.result {
            Err(reset) => finished(Some(end.conn), Err(reset)),
            Ok(_) => finished(Some(end.conn), Err(e)),
        }
}

/// Whether the device is connected, if that was successful.
pub open spec fn connects() -> spec_fn(Finished) -> bool {
    |f: Finished| f.result is Ok ==> f.connection is Some
}

/// A device that was connected successfully is connected.
proof fn lemma_connects(p: PicobootState)
    ensures
        ends_in(connect_script(p), connects()),
{
    reveal_with_fuel(ends_in, 5);
}

// ----- the reader -----

/// What is done once the connection's own operation is done.
enum Stage {
    /// Asking for the status of the last command.
    Reset,
    /// Nothing more.
    Opened,
    /// Giving the data back, or resetting the interface.
    Read,
    /// Failing.
    Recover { error: Error },
}

impl Stage {
    /// What follows the connection's own operation.
    spec fn script(self) -> spec_fn(Ended) -> Script<Finished> {
        match self {
            Stage::Reset => reader_reset(),
            Stage::Opened => reader_opened(),
            Stage::Read => reader_read(),
            Stage::Recover { error } => reader_recovered(error),
        }
    }

    /// Operations of the connection yet to come, at most.
    spec fn rank(self) -> nat {
        match self {
            Stage::Reset => 1,
            Stage::Read => 1,
            Stage::Opened => 0,
            Stage::Recover { .. } => 0,
        }
    }
}

/// What a reader waits for.
enum Task {
    /// The device is connected.
    Connect,
    /// The connection's own operation goes on.
    Connection { next: Stage },
    /// The connection is closed.
    Release { c: Ghost<ConnectionState>, error: Error },
}

/// A reader that reads from a live device via the PICOBOOT protocol.
///
/// Passes absolute addresses directly to PICOBOOT, so no base address
/// offset arithmetic is required.
pub struct PicobootReader {
    picoboot: Picoboot,
    task: Option<Task>,
}

impl View for PicobootReader {
    type V = PicobootState;

    closed spec fn view(&self) -> PicobootState {
        self.picoboot@
    }
}

impl PicobootReader {
    /// The course of the operation under way, from what it waits for on.
    pub closed spec fn script(&self) -> Script<Finished> {
        match self.task {
            None => finished(self@.connection, Ok(Output::Unit)),
            Some(Task::Connect) => bind(self.picoboot.script(), reader_connected()),
            Some(Task::Connection { next }) => bind(
                self.picoboot.link()->0.script(),
                next.script(),
            ),
            Some(Task::Release { c, error }) => disconnect(c@, Err(error)),
        }
    }

    /// Whether the operation under way is within the limits.
    pub closed spec fn ready(&self) -> bool {
        match self.task {
            None => true,
            Some(Task::Connect) => {
                &&& self.picoboot.ready()
                &&& self.picoboot.script() is Ask
                &&& ends_in(self.picoboot.script(), connects())
            },
            Some(Task::Connection { next }) => {
                &&& self.picoboot.link() is Some
                &&& self.picoboot.link()->0.ready()
                &&& self.picoboot.link()->0.script() is Ask
            },
            Some(Task::Release { c, error }) => self@.connection is None,
        }
    }

    /// Whether the reader stands in the course `s`, and `step` says so: it asks
    /// for what `s` asks for, with the connection that `s` says, and goes on as `s`
    /// does, or it ended as `s` ended, with nothing under way.
    pub open spec fn runs(&self, s: Script<Finished>, step: Step) -> bool {
        match s {
            Script::Done(f) => {
                &&& step.ends(f.result)
                &&& self@.connection == f.connection
                &&& self.script() is Done
            },
            Script::Ask(action, _, now) => {
                &&& step.asks(action)
                &&& self@.connection == now
                &&& self.script() == s
                &&& self.ready()
            },
        }
    }

    /// Waits for the connection's own operation, which stands in the course `s`,
    /// and goes on from there.
    fn wait(&mut self, step: Step, next: Stage, Ghost(s): Ghost<Script<Ended>>) -> (out: Step)
        requires
            old(self).picoboot.link() is Some,
            old(self).picoboot.link()->0.runs(s, step),
        ensures
            final(self)@.same_device(old(self)@),
            final(self).runs(bind(s, next.script()), out),
        decreases next.rank(), 1int,
    {
        proof {
            self.picoboot.lemma_link();
        }
        match step {
            Step::Ask(request) => {
                proof {
                    lemma_bind_after(s, next.script(), Answer::Release);
                }
                self.task = Some(Task::Connection { next });
                Step::Ask(request)
            },
            Step::Done(result) => self.go_on(result, next),
        }
    }

    /// Goes on once the connection's own operation is done.
    fn go_on(&mut self, result: Result<Value, Error>, next: Stage) -> (out: Step)
        requires
            old(self)@.connection is Some,
        ensures
            final(self)@.same_device(old(self)@),
            final(self).runs(
                next.script()(
                    Ended { conn: old(self)@.connection->0, result: output_of(result) },
                ),
                out,
            ),
        decreases next.rank(), 0int,
    {
        self.task = None;
        match next {
            Stage::Reset => match result {
                Err(e) => self.close(e),
                Ok(_) => self.ask_status(),
            },
            Stage::Opened => Step::Done(Ok(Value::Unit)),
            Stage::Read => match result {
                Ok(value) => Step::Done(Ok(value)),
                Err(e) => self.recover(e),
            },
            Stage::Recover { error } => match result {
                Err(e) => Step::Done(Err(e)),
                Ok(_) => Step::Done(Err(error)),
            },
        }
    }

    /// Closes the connection of a reader that does not come about.
    fn close(&mut self, error: Error) -> (out: Step)
        requires
            old(self)@.connection is Some,
        ensures
            final(self)@.same_device(old(self)@),
            final(self).runs(disconnect(old(self)@.connection->0, Err(error)), out),
    {
        let c: Ghost<ConnectionState> = Ghost(self@.connection->0);
        match self.picoboot.disconnect() {
            Some(request) => {
                self.task = Some(Task::Release { c, error });
                Step::Ask(request)
            },
            None => vstd::pervasive::unreached(),
        }
    }

    /// Asks for the status of the last command.
    fn ask_status(&mut self) -> (out: Step)
        requires
            old(self)@.connection is Some,
        ensures
            final(self)@.same_device(old(self)@),
            final(self).runs(
                bind(get_command_status_script(old(self)@.connection->0), reader_opened()),
                out,
            ),
        decreases 0nat, 2int,
    {
        let ghost c = self@.connection->0;
        let step = match self.picoboot.connection() {
            Some(conn) => conn.get_command_status(),
            None => vstd::pervasive::unreached(),
        };
        self.wait(step, Stage::Opened, Ghost(get_command_status_script(c)))
    }

    /// Resets the interface because a read failed.
    fn recover(&mut self, error: Error) -> (out: Step)
        requires
            old(self)@.connection is Some,
        ensures
            final(self)@.same_device(old(self)@),
            final(self).runs(
                bind(
                    reset_interface_script(old(self)@.connection->0),
                    reader_recovered(error),
                ),
                out,
            ),
        decreases 0nat, 2int,
    {
        let ghost c = self@.connection->0;
        let step = match self.picoboot.connection() {
            Some(conn) => conn.reset_interface(),
            None => vstd::pervasive::unreached(),
        };
        self.wait(step, Stage::Recover { error }, Ghost(reset_interface_script(c)))
    }

    /// Waits for the device to be connected, which stands in the course `s`, and
    /// goes on from there.
    fn wait_connected(&mut self, step: Step, Ghost(s): Ghost<Script<Finished>>) -> (out: Step)
        requires
            old(self).picoboot.runs(s, step),
            ends_in(s, connects()),
        ensures
            final(self)@.same_device(old(self)@),
            final(self).runs(bind(s, reader_connected()), out),
    {
        match step {
            Step::Ask(request) => {
                proof {
                    lemma_bind_after(s, reader_connected(), Answer::Release);
                }
                self.task = Some(Task::Connect);
                Step::Ask(request)
            },
            Step::Done(Err(e)) => {
                self.task = None;
                Step::Done(Err(e))
            },
            Step::Done(Ok(_)) => {
                let ghost c = self@.connection->0;
                let step = match self.picoboot.connection() {
                    Some(conn) => conn.reset_interface(),
                    None => vstd::pervasive::unreached(),
                };
                self.wait(step, Stage::Reset, Ghost(reset_interface_script(c)))
            },
        }
    }

    /// Create a new PicobootReader, connecting to the device and resetting
    /// the interface ready for use.
    ///
    /// The reader can read once the operation gave [`Value::Unit`] back.
    pub fn new(picoboot: Picoboot) -> (r: (Self, Step))
        ensures
            r.0@.same_device(picoboot@),
            r.0.runs(open_script(picoboot@), r.1),
    {
        let ghost p = picoboot@;
        let mut reader = PicobootReader { picoboot, task: None };
        let step = reader.picoboot.connect();
        proof {
            lemma_connects(p);
        }
        let step = reader.wait_connected(step, Ghost(connect_script(p)));
        (reader, step)
    }

    /// Whether [`Self::read`] is within the limits.
    pub fn may_read(&self, addr: u32, len: usize) -> (yes: bool)
        ensures
            yes == (plan_fits(addr, len as int) && (self@.connection matches Some(c) ==> can_send(
                c,
                reader_cmd(addr, len as int),
            ))),
    {
        let page: usize = FLASH_PAGE_SIZE as usize;
        let offset: usize = (addr % FLASH_PAGE_SIZE) as usize;
        if FLASH_START <= addr && addr <= FLASH_LAST && len > usize::MAX - (page - 1) - offset {
            return false;
        }
        let plan = plan_read(addr, len);
        !self.picoboot.is_connected() || self.picoboot.may_read(plan.addr, plan.size, false)
    }

    /// Starts to read `len` bytes from `addr` on.
    ///
    /// [`copy_out`] finds them in the data that is given back.
    pub fn read(&mut self, addr: u32, len: usize) -> (r: Result<Step, ReaderError>)
        requires
            plan_fits(addr, len as int),
            old(self)@.connection matches Some(c) ==> can_send(c, reader_cmd(addr, len as int)),
        ensures
            final(self)@.same_device(old(self)@),
            match old(self)@.connection {
                None => r == Err::<Step, ReaderError>(ReaderError::NotConnected)
                    && final(self)@ == old(self)@,
                Some(c) => r matches Ok(step) && final(self).runs(
                    reader_read_script(c, addr, len as int),
                    step,
                ),
            },
    {
        let ghost c = self@.connection->0;
        let plan = plan_read(addr, len);
        let step = match self.picoboot.connection() {
            Some(conn) => conn.read(plan.addr, plan.size),
            None => return Err(ReaderError::NotConnected),
        };
        Ok(
            self.wait(
                step,
                Stage::Read,
                Ghost(query_script(c, Ok(reader_cmd(addr, len as int)))),
            ),
        )
    }

    /// Goes on with the operation under way after the outcome of what it asked
    /// for.
    pub fn resume(&mut self, reply: Reply) -> (step: Step)
        requires
            old(self).ready(),
            old(self).script() is Ask,
            answers(reply@, old(self).script()->Ask_0),
        ensures
            final(self)@.same_device(old(self)@),
            final(self).runs(old(self).script().after(reply@), step),
    {
        match self.task.take() {
            None => vstd::pervasive::unreached(),
            Some(Task::Connect) => {
                let ghost s = self.picoboot.script().after(reply@);
                proof {
                    lemma_bind_after(self.picoboot.script(), reader_connected(), reply@);
                    let k = self.picoboot.script()->Ask_1;
                    assert(ends_in(k(reply@), connects()));
                }
                let step = self.picoboot.resume(reply);
                self.wait_connected(step, Ghost(s))
            },
            Some(Task::Connection { next }) => {
                let ghost s = self.picoboot.link()->0.script().after(reply@);
                proof {
                    self.picoboot.lemma_link();
                    lemma_bind_after(self.picoboot.link()->0.script(), next.script(), reply@);
                }
                let step = match self.picoboot.connection() {
                    Some(conn) => conn.resume(reply),
                    None => vstd::pervasive::unreached(),
                };
                self.wait(step, next, Ghost(s))
            },
            Some(Task::Release { c, error }) => Step::Done(Err(error)),
        }
    }

    /// Nothing to do: reads go to absolute addresses directly.
    pub fn update_base_address(&mut self, new_base: u32)
        ensures
            *final(self) == *old(self),
    {
    }

    /// Disconnects from the device, and says what is left to do for it.
    pub fn disconnect(&mut self) -> (release: Option<Request>)
        ensures
            final(self)@ == (PicobootState { connection: None, ..old(self)@ }),
            final(self).script() is Done,
            match old(self)@.connection {
                Some(c) => release matches Some(request) && request@ == (Action::Release {
                    reattach: reattach_of(c),
                }),
                None => release is None,
            },
    {
        self.task = None;
        self.picoboot.disconnect()
    }
}

/// Whether the bytes asked for, in whole pages, can be counted.
pub open spec fn plan_fits(addr: u32, len: int) -> bool {
    in_flash(addr) ==> addr as int % FLASH_PAGE_SIZE as int + len + FLASH_PAGE_SIZE - 1
        <= usize::MAX
}

/// The read for `len` bytes from `addr` on.
pub fn plan_read(addr: u32, len: usize) -> (plan: ReadPlan)
    requires
        plan_fits(addr, len as int),
    ensures
        plan == read_plan(addr, len as int),
{
    if FLASH_START <= addr && addr <= FLASH_LAST {
        let page: usize = FLASH_PAGE_SIZE as usize;
        let offset: usize = (addr % FLASH_PAGE_SIZE) as usize;
        let pages: usize = (offset + len + (page - 1)) / page;
        ReadPlan { addr: addr - offset as u32, size: low_bits(pages * page), offset }
    } else {
        ReadPlan { addr, size: low_bits(len), offset: 0 }
    }
}

/// Copies the bytes asked for out of the data that was read.
pub fn copy_out(addr: u32, data: &[u8], buf: &mut [u8])
    requires
        plan_fits(addr, old(buf)@.len() as int),
        read_plan(addr, old(buf)@.len() as int).offset + old(buf)@.len() <= data@.len(),
    ensures
        final(buf)@ == window(
            read_plan(addr, old(buf)@.len() as int),
            old(buf)@.len() as int,
            data@,
        ),
{
    let len: usize = buf.len();
    let plan = plan_read(addr, len);
    let read: usize = data.len();
    let mut i: usize = 0;
    while i < len
        invariant
            i <= len,
            len == buf@.len(),
            plan.offset + len <= read == data@.len(),
            buf@.take(i as int) == data@.subrange(plan.offset as int, plan.offset + i),
        decreases len - i,
    {
        buf[i] = data[plan.offset + i];
        i = i + 1;
        assert(buf@.take(i as int) =~= data@.subrange(plan.offset as int, plan.offset + i));
    }
    assert(buf@ =~= buf@.take(len as int));
}

} // verus!
