//! PICOBOOT as a device sees it: which request may follow which, and what the
//! operations tell the device.

use vstd::prelude::*;

use crate::bytes::{le32, le32_at};
use crate::cmd::{
    cmd_at, cmd_bytes, cmd_id_of, law_cmd_round_trip, zeros, PicobootCmdId, StatusView, WireCmd,
};
use crate::connection::{
    acknowledge, bulk_in, can_read, can_send, can_write, chunk, chunk_addr, command_script, done,
    erase_size, erase_size_fits, exchange, flash_erase_cmd, flash_erase_start_cmd, flash_read_cmd,
    flash_write_script, get_command_status_script, left_of, lemma_chunk_addr_fits, lemma_round_up,
    lemma_write_from, lemma_write_on, query_script, reboot_cmd, reboot_rp2040_cmd,
    reboot_rp2350_cmd, reset_in, reset_interface_script, reset_out, reset_request,
    reset_status_known, round_up, send_cmd_script, send_picobootx_cmd_script, to_unit, transfer,
    write_fits, write_from, write_on, write_script, ConnectionState, Ended,
};
use crate::error::{Error, Incomplete};
use crate::picoboot::{
    as_before, bootsel_param, connect_script, connected, erased, finished,
    flash_erase_and_write_script, give_up, job_after_reset, job_fits, job_on, job_script, kept_open,
    read_cmd, reboot_type_cmd, rebooted, recover, recovered, reset_done, xip_exited, Finished, Job,
    PicobootState,
};
use crate::reader::{
    open_script, read_plan, reader_cmd, reader_connected, reader_opened, reader_read,
    reader_read_script, reader_recovered, reader_reset, ReadPlan,
};
use crate::script::{
    answers, bind, keeps, lemma_bind_keeps, lemma_keeps_weaker, Action, Answer, BulkError,
    ClearHaltError, Control, ControlType, Detached, Output, Recipient, Rule, Script,
};
use crate::target::{Access, Direction, RebootType, Target};
use crate::timeouts::{Duration, Timeouts};

verus! {

/// What the requests to a device depend on.
pub struct Port {
    pub target: Target,
    pub if_num: u8,
    pub out_ep: u8,
    pub in_ep: u8,
    /// Bytes of the bulk IN endpoint's largest packet
    pub packet: usize,
    pub timeouts: Timeouts,
}

/// What has been done of connecting.
pub enum Link {
    Closed,
    Opened,
    Detached { taken: bool },
    Claimed { taken: bool },
}

/// What comes next on an interface that is claimed.
pub enum Stage {
    /// A command, or a reset
    Idle,
    /// What follows the bytes of a command
    Sent(WireCmd),
    /// The acknowledgement, now that the data was moved
    Moved(WireCmd),
    /// Resetting: the status of the bulk IN endpoint
    AskIn,
    /// Resetting: clearing the halt of the bulk IN endpoint
    ClearIn,
    /// Resetting: the status of the bulk OUT endpoint
    AskOut,
    /// Resetting: clearing the halt of the bulk OUT endpoint
    ClearOut,
    /// Resetting: the reset itself
    Reset,
}

/// The first thing that went wrong.
pub struct Failure {
    /// The error it stands for
    pub error: Error,
    /// Resets that were begun by then
    pub resets: nat,
    /// Whether it was a transfer of a command
    pub in_command: bool,
}

/// A command that a device was told and that was acknowledged, without its token,
/// and the data it was sent.
pub struct Told {
    pub cmd: WireCmd,
    pub data: Seq<u8>,
}

/// What a device saw so far.
pub struct Seen {
    pub link: Link,
    pub stage: Stage,
    /// Commands that were acknowledged
    pub told: Seq<Told>,
    /// Data of the command under way, to the device
    pub sent: Seq<u8>,
    /// Data of the last command, from the device
    pub got: Seq<u8>,
    /// Resets that were begun
    pub resets: nat,
    pub failure: Option<Failure>,
}

/// Whether a command's data goes to the device.
pub open spec fn sends(w: WireCmd) -> bool {
    w.transfer_len != 0 && w.cmd_id < 0x80
}

/// Whether a command's data comes from the device.
pub open spec fn receives(w: WireCmd) -> bool {
    w.transfer_len != 0 && w.cmd_id >= 0x80
}

/// Whether a command is to be acknowledged next.
pub open spec fn ack_due(stage: Stage) -> Option<WireCmd> {
    match stage {
        Stage::Sent(w) => if w.transfer_len == 0 {
            Some(w)
        } else {
            None
        },
        Stage::Moved(w) => Some(w),
        _ => None,
    }
}

/// The request for the status of the last command.
pub open spec fn ask_status(port: Port) -> Action {
    Action::ControlIn {
        control: Control {
            control_type: ControlType::Vendor,
            recipient: Recipient::Interface,
            request: 0x42,
            value: 0,
            index: port.if_num as u16,
            length: 16,
        },
        timeout: port.timeouts.command_status,
    }
}

/// The request for the status of an endpoint.
pub open spec fn ask_endpoint(port: Port, endpoint: u8) -> Action {
    Action::ControlIn {
        control: Control {
            control_type: ControlType::Standard,
            recipient: Recipient::Endpoint,
            request: 0,
            value: 0,
            index: endpoint as u16,
            length: 2,
        },
        timeout: port.timeouts.reset,
    }
}

/// The request to reset the interface.
pub open spec fn ask_reset(port: Port) -> Action {
    Action::ControlOut {
        control: Control {
            control_type: ControlType::Vendor,
            recipient: Recipient::Interface,
            request: 0x41,
            value: 0,
            index: port.if_num as u16,
            length: 0,
        },
        timeout: port.timeouts.reset,
    }
}

/// Whether an endpoint's status says that it is halted.
pub open spec fn says_halted(answer: Answer) -> bool {
    answer matches Answer::ControlIn(Ok(data)) && data.len() > 0 && data[0] as int % 2 == 1
}

/// The requests that may come now.
#[verifier::opaque]
pub open spec fn in_turn(port: Port) -> spec_fn(Seen, Action) -> bool {
    |n: Seen, action: Action|
        match action {
            Action::Open => n.link is Closed,
            Action::DetachKernelDriver { if_num } => n.link is Opened && if_num == port.if_num,
            Action::ClaimInterface { if_num } => n.link is Detached && if_num == port.if_num,
            Action::ControlIn { control, timeout } => n.link is Claimed && match n.stage {
                Stage::Idle => action == ask_status(port),
                Stage::Sent(w) => sends(w) && action == ask_status(port),
                Stage::AskIn => action == ask_endpoint(port, port.in_ep),
                Stage::AskOut => action == ask_endpoint(port, port.out_ep),
                _ => false,
            },
            Action::ClearHalt { endpoint, direction } => n.link is Claimed && match n.stage {
                Stage::ClearIn => endpoint == port.in_ep && direction == Direction::In,
                Stage::ClearOut => endpoint == port.out_ep && direction == Direction::Out,
                _ => false,
            },
            Action::ControlOut { control, timeout } => n.link is Claimed && n.stage is Reset
                && action == ask_reset(port),
            Action::BulkOut { endpoint, data, timeout } => {
                &&& n.link is Claimed
                &&& n.failure is None
                &&& endpoint == port.out_ep
                &&& timeout == port.timeouts.endpoint
                &&& match n.stage {
                    Stage::Idle => data.len() == 32,
                    Stage::Sent(w) => sends(w) || w.transfer_len == 0 && w.cmd_id >= 0x80 && data
                        == seq![0u8],
                    Stage::Moved(w) => w.cmd_id >= 0x80 && data == seq![0u8],
                    _ => false,
                }
            },
            Action::BulkIn { endpoint, len, timeout } => {
                &&& n.link is Claimed
                &&& n.failure is None
                &&& endpoint == port.in_ep
                &&& timeout == port.timeouts.endpoint
                &&& len as int % port.packet as int == 0
                &&& match n.stage {
                    Stage::Sent(w) => receives(w) && w.transfer_len <= len < w.transfer_len
                        + port.packet || w.transfer_len == 0 && w.cmd_id < 0x80 && len
                        == port.packet,
                    Stage::Moved(w) => w.cmd_id < 0x80 && len == port.packet,
                    _ => false,
                }
            },
            Action::Release { reattach } => n.stage is Idle && match n.link {
                Link::Claimed { taken } => reattach == (if taken {
                    Some(port.if_num)
                } else {
                    None
                }),
                _ => false,
            },
        }
}

/// The error that an answer stands for, if it is not what was asked for.
pub open spec fn gone_wrong(port: Port, stage: Stage, action: Action, answer: Answer) -> Option<
    Error,
> {
    let t = port.target;
    match (action, answer) {
        (Action::Open, Answer::Open(Err(e))) => Some(Error::UsbOpenError(t, e)),
        (
            Action::DetachKernelDriver { .. },
            Answer::DetachKernelDriver(Detached::Failed(e)),
        ) => Some(Error::UsbDetachKernelDriverFailure(t, e)),
        (Action::ClaimInterface { .. }, Answer::ClaimInterface(Err(e))) => Some(
            Error::UsbClaimInterfaceFailure(t, e),
        ),
        (Action::ControlOut { .. }, Answer::ControlOut(Err(e))) => Some(
            Error::PicobootResetInterfaceFailure(t, e),
        ),
        (
            Action::ClearHalt { endpoint, direction },
            Answer::ClearHalt(Err(ClearHaltError::Endpoint(e))),
        ) => Some(
            if direction == Direction::In {
                Error::UsbInEndpointClaimFailure(t, e)
            } else {
                Error::UsbOutEndpointClaimFailure(t, e)
            },
        ),
        (
            Action::ClearHalt { endpoint, direction },
            Answer::ClearHalt(Err(ClearHaltError::Clear(e))),
        ) => Some(
            if direction == Direction::In {
                Error::UsbClearInEndpointHaltFailure(t, e)
            } else {
                Error::UsbClearOutEndpointHaltFailure(t, e)
            },
        ),
        (Action::BulkOut { .. }, Answer::BulkOut(Err(BulkError::Endpoint(e)))) => Some(
            Error::UsbOutEndpointClaimFailure(t, e),
        ),
        (Action::BulkOut { .. }, Answer::BulkOut(Err(BulkError::Transfer(e)))) => Some(
            Error::UsbWriteBulkFailure(t, e),
        ),
        (Action::BulkOut { endpoint, data, timeout }, Answer::BulkOut(Ok(actual))) => if ack_due(
            stage,
        ) is None && actual != data.len() {
            Some(Error::UsbWriteBulkMismatch(t, data.len() as usize, actual))
        } else {
            None
        },
        (Action::BulkIn { .. }, Answer::BulkIn(Err(BulkError::Endpoint(e)))) => Some(
            Error::UsbInEndpointClaimFailure(t, e),
        ),
        (Action::BulkIn { .. }, Answer::BulkIn(Err(BulkError::Transfer(e)))) => Some(
            Error::UsbReadBulkFailure(t, e),
        ),
        (Action::BulkIn { .. }, Answer::BulkIn(Ok((data, actual)))) => match stage {
            Stage::Sent(w) => if receives(w) && actual > w.transfer_len {
                Some(Error::UsbReadBulkMismatch(t, w.transfer_len as usize, actual))
            } else {
                None
            },
            _ => None,
        },
        _ => None,
    }
}

/// At most `n` bytes of `data`.
pub open spec fn at_most(data: Seq<u8>, n: int) -> Seq<u8> {
    if data.len() <= n {
        data
    } else {
        data.subrange(0, n)
    }
}

/// What a device saw, after a request that was not granted.
pub open spec fn seen_failing(n: Seen, action: Action, error: Error) -> Seen {
    Seen {
        link: match action {
            Action::Open => Link::Closed,
            Action::DetachKernelDriver { .. } => Link::Closed,
            Action::ClaimInterface { .. } => Link::Closed,
            _ => n.link,
        },
        stage: Stage::Idle,
        sent: Seq::empty(),
        failure: match n.failure {
            Some(first) => Some(first),
            None => Some(
                Failure {
                    error,
                    resets: n.resets,
                    in_command: action is BulkOut || action is BulkIn,
                },
            ),
        },
        ..n
    }
}

/// What a device saw, after a bulk transfer that was granted.
pub open spec fn seen_bulk(n: Seen, action: Action, answer: Answer) -> Seen {
    match (ack_due(n.stage), n.stage) {
        (Some(w), _) => Seen {
            stage: Stage::Idle,
            told: n.told.push(Told { cmd: w.with_token(0), data: n.sent }),
            sent: Seq::empty(),
            ..n
        },
        (None, Stage::Sent(w)) => match (action, answer) {
            (Action::BulkOut { endpoint, data, timeout }, _) => Seen {
                stage: Stage::Moved(w),
                sent: data,
                ..n
            },
            (_, Answer::BulkIn(Ok((data, actual)))) => Seen {
                stage: Stage::Moved(w),
                got: at_most(data, w.transfer_len as int),
                ..n
            },
            _ => n,
        },
        _ => match action {
            Action::BulkOut { endpoint, data, timeout } => Seen {
                stage: Stage::Sent(cmd_at(data)),
                sent: Seq::empty(),
                got: Seq::empty(),
                ..n
            },
            _ => n,
        },
    }
}

/// What a device saw, after one more request and its answer.
#[verifier::opaque]
pub open spec fn seeing(port: Port) -> spec_fn(Seen, Action, Answer) -> Seen {
    |n: Seen, action: Action, answer: Answer|
        match gone_wrong(port, n.stage, action, answer) {
            Some(error) => seen_failing(n, action, error),
            None => match action {
                Action::Open => Seen { link: Link::Opened, ..n },
                Action::DetachKernelDriver { .. } => Seen {
                    link: Link::Detached { taken: answer->DetachKernelDriver_0 is Yes },
                    ..n
                },
                Action::ClaimInterface { .. } => Seen {
                    link: Link::Claimed { taken: n.link->Detached_taken },
                    stage: Stage::Idle,
                    ..n
                },
                Action::ControlIn { .. } => match n.stage {
                    Stage::AskIn => Seen {
                        stage: if says_halted(answer) {
                            Stage::ClearIn
                        } else {
                            Stage::AskOut
                        },
                        ..n
                    },
                    Stage::AskOut => Seen {
                        stage: if says_halted(answer) {
                            Stage::ClearOut
                        } else {
                            Stage::Reset
                        },
                        ..n
                    },
                    _ => Seen {
                        stage: Stage::AskIn,
                        sent: Seq::empty(),
                        resets: n.resets + 1,
                        ..n
                    },
                },
                Action::ClearHalt { .. } => Seen {
                    stage: if n.stage is ClearIn {
                        Stage::AskOut
                    } else {
                        Stage::Reset
                    },
                    ..n
                },
                Action::ControlOut { .. } => Seen { stage: Stage::Idle, ..n },
                Action::BulkOut { .. } => seen_bulk(n, action, answer),
                Action::BulkIn { .. } => seen_bulk(n, action, answer),
                Action::Release { .. } => Seen { link: Link::Closed, ..n },
            },
        }
}

/// The rule of the protocol, with what holds at the end of an operation.
pub open spec fn protocol<R>(port: Port, ends: spec_fn(Seen, R) -> bool) -> Rule<Seen, R> {
    Rule { allows: in_turn(port), note: seeing(port), ends }
}

/// A command of PICOBOOT's, by its numbers.
pub open spec fn order(id: u8, size: u8, len: u32, a: u32, b: u32, c: u32, d: u32) -> WireCmd {
    WireCmd {
        magic: 0x431f_d10b,
        token: 0,
        cmd_id: id,
        cmd_size: size,
        unused: 0,
        transfer_len: len,
        args: le32(a) + le32(b) + le32(c) + le32(d),
    }
}

/// The port of a connection.
pub open spec fn port_of(c: ConnectionState) -> Port {
    Port {
        target: c.target,
        if_num: c.if_num,
        out_ep: c.out_ep,
        in_ep: c.in_ep,
        packet: c.in_ep_max_packet_size,
        timeouts: c.timeouts,
    }
}

/// What a device saw so far, when an operation of a connection starts.
pub open spec fn at_rest(c: ConnectionState, n: Seen) -> bool {
    &&& n.link == (Link::Claimed { taken: c.kernel_driver_detached })
    &&& n.stage is Idle
    &&& n.sent.len() == 0
    &&& n.failure is None
}

/// A command went through with `data`, was broken off by a failure, or lacked its
/// data.
pub open spec fn transacted(
    c: ConnectionState,
    n: Seen,
    w: WireCmd,
    buf: Option<Seq<u8>>,
    missing: Error,
) -> spec_fn(Seen, Ended) -> bool {
    |m: Seen, end: Ended|
        {
            &&& end.conn == c
            &&& m.link == n.link
            &&& m.resets == n.resets
            &&& m.sent.len() == 0
            &&& match m.failure {
                Some(x) => {
                    &&& end.result == Err::<Output, Error>(x.error)
                    &&& x.in_command && x.resets == n.resets
                    &&& m.told == n.told
                    &&& m.stage is Idle
                },
                None => if sends(w) && buf is None {
                    &&& end.result == Err::<Output, Error>(missing)
                    &&& m.told == n.told
                    &&& m.stage matches Stage::Sent(x) && sends(x)
                } else {
                    &&& end.result == Ok::<Output, Error>(Output::Bytes(m.got))
                    &&& !receives(w) ==> m.got == Seq::<u8>::empty()
                    &&& m.told == n.told.push(
                        Told {
                            cmd: w.with_token(0),
                            data: if sends(w) {
                                buf->0
                            } else {
                                Seq::empty()
                            },
                        },
                    )
                    &&& m.stage is Idle
                },
            }
        }
}

/// Whole packets are the fewest that hold `n` bytes.
proof fn lemma_packets(c: ConnectionState, n: int)
    requires
        n > 0,
        can_read(c, n),
    ensures
        n <= bulk_in(c, n)->BulkIn_len < n + c.in_ep_max_packet_size,
        bulk_in(c, n)->BulkIn_len as int % c.in_ep_max_packet_size as int == 0,
{
    let unit = c.in_ep_max_packet_size as int;
    lemma_round_up(n, unit);
    vstd::arithmetic::div_mod::lemma_mod_multiples_basic((n + unit - 1) / unit, unit);
    assert(0 <= n % unit < unit) by (nonlinear_arith)
        requires
            unit > 0,
    ;
}

/// One packet holds an acknowledgement.
proof fn lemma_ack_packet(c: ConnectionState)
    requires
        c.in_ep_max_packet_size > 0,
    ensures
        can_read(c, 1),
        bulk_in(c, 1)->BulkIn_len == c.in_ep_max_packet_size,
        c.in_ep_max_packet_size as int % c.in_ep_max_packet_size as int == 0,
{
    let unit = c.in_ep_max_packet_size as int;
    assert((1 + unit - 1) / unit * unit == unit) by (nonlinear_arith)
        requires
            unit > 0,
    ;
    assert(unit % unit == 0) by (nonlinear_arith)
        requires
            unit > 0,
    ;
}

/// Whether the data of a command can be received, and its acknowledgement.
pub open spec fn receivable(c: ConnectionState, w: WireCmd) -> bool {
    &&& w.cmd_id < 0x80 ==> c.in_ep_max_packet_size > 0
    &&& receives(w) ==> can_read(c, w.transfer_len as int)
}

proof fn lemma_ack_wire(
    c: ConnectionState,
    data: Seq<u8>,
    n: Seen,
    m: Seen,
    w: WireCmd,
    buf: Option<Seq<u8>>,
    missing: Error,
)
    requires
        receivable(c, w),
        m.link is Claimed,
        m.link == n.link,
        m.resets == n.resets,
        m.told == n.told,
        m.failure is None,
        ack_due(m.stage) matches Some(x) && x.with_token(0) == w.with_token(0),
        m.got == data,
        !receives(w) ==> data == Seq::<u8>::empty(),
        m.sent == (if sends(w) {
            buf->0
        } else {
            Seq::empty()
        }),
        !(sends(w) && buf is None),
    ensures
        keeps(
            acknowledge(c, w.direction(), data),
            m,
            protocol(port_of(c), transacted(c, n, w, buf, missing)),
        ),
{
    if w.cmd_id < 0x80 {
        lemma_ack_packet(c);
    }
    reveal(in_turn);
    reveal(seeing);
    reveal_with_fuel(keeps, 2);
}

proof fn lemma_transfer_wire(
    c: ConnectionState,
    n: Seen,
    m: Seen,
    w: WireCmd,
    buf: Option<Seq<u8>>,
    missing: Error,
)
    requires
        receivable(c, w),
        m.link is Claimed,
        m.link == n.link,
        m.resets == n.resets,
        m.told == n.told,
        m.failure is None,
        m.stage matches Stage::Sent(x) && x.with_token(0) == w.with_token(0),
        m.got == Seq::<u8>::empty(),
        m.sent == Seq::<u8>::empty(),
    ensures
        keeps(
            transfer(c, w.direction(), w.transfer_len, missing, buf),
            m,
            protocol(port_of(c), transacted(c, n, w, buf, missing)),
        ),
{
    reveal(in_turn);
    reveal(seeing);
    let rule = protocol(port_of(c), transacted(c, n, w, buf, missing));
    let s = transfer(c, w.direction(), w.transfer_len, missing, buf);
    let sent = m.stage->Sent_0;
    assert(sent.transfer_len == w.transfer_len && sent.cmd_id == w.cmd_id);
    if w.transfer_len == 0 {
        lemma_ack_wire(c, Seq::empty(), n, m, w, buf, missing);
    } else if s is Ask {
        if receives(w) {
            lemma_packets(c, w.transfer_len as int);
        }
        assert forall|answer: Answer| answers(answer, s->Ask_0) implies keeps(
            #[trigger] (s->Ask_1)(answer),
            (rule.note)(m, s->Ask_0, answer),
            rule,
        ) by {
            let k = (rule.note)(m, s->Ask_0, answer);
            if gone_wrong(port_of(c), m.stage, s->Ask_0, answer) is None {
                lemma_ack_wire(c, k.got, n, k, w, buf, missing);
            }
        }
    }
}

/// A command on the wire keeps to the protocol.
proof fn lemma_exchange_wire(
    c: ConnectionState,
    n: Seen,
    w: WireCmd,
    buf: Option<Seq<u8>>,
    missing: Error,
)
    requires
        receivable(c, w),
        at_rest(c, n),
        w.args.len() == 16,
    ensures
        keeps(
            exchange(c, w, missing, buf),
            n,
            protocol(port_of(c), transacted(c, n, w, buf, missing)),
        ),
{
    reveal(in_turn);
    reveal(seeing);
    let rule = protocol(port_of(c), transacted(c, n, w, buf, missing));
    let s = exchange(c, w, missing, buf);
    law_cmd_round_trip(w, Seq::empty());
    assert(cmd_bytes(w) + Seq::<u8>::empty() =~= cmd_bytes(w));
    assert forall|answer: Answer| answers(answer, s->Ask_0) implies keeps(
        #[trigger] (s->Ask_1)(answer),
        (rule.note)(n, s->Ask_0, answer),
        rule,
    ) by {
        let k = (rule.note)(n, s->Ask_0, answer);
        if gone_wrong(port_of(c), n.stage, s->Ask_0, answer) is None {
            lemma_transfer_wire(c, n, k, w, buf, missing);
        }
    }
}

/// Law: a command that is sent goes through as the protocol says, with exactly
/// its own fields and exactly the data that was given with it.  It fails only for
/// a transfer that failed, with that transfer's error, or because it sends data
/// and none was given.
pub proof fn law_send_cmd_wire(c: ConnectionState, n: Seen, w: WireCmd, buf: Option<Seq<u8>>)
    requires
        receivable(c, w),
        at_rest(c, n),
        w.args.len() == 16,
    ensures
        keeps(
            send_cmd_script(c, w, buf),
            n,
            protocol(
                port_of(c),
                transacted(
                    c.next(),
                    n,
                    w,
                    buf,
                    Error::PicobootCmdDataMissing(c.target, cmd_id_of(w.cmd_id)->0),
                ),
            ),
        ),
{
    let missing = Error::PicobootCmdDataMissing(c.target, cmd_id_of(w.cmd_id)->0);
    let sent = w.with_token(c.cmd_token);
    lemma_exchange_wire(c.next(), n, sent, buf, missing);
    lemma_keeps_weaker(
        send_cmd_script(c, w, buf),
        n,
        protocol(port_of(c), transacted(c.next(), n, sent, buf, missing)),
        protocol(port_of(c), transacted(c.next(), n, w, buf, missing)),
    );
}

/// Law: an extension command goes through in the same way.
pub proof fn law_send_picobootx_cmd_wire(
    c: ConnectionState,
    n: Seen,
    w: WireCmd,
    buf: Option<Seq<u8>>,
)
    requires
        receivable(c, w),
        at_rest(c, n),
        w.args.len() == 16,
    ensures
        keeps(
            send_picobootx_cmd_script(c, w, buf),
            n,
            protocol(
                port_of(c),
                transacted(
                    c.next(),
                    n,
                    w,
                    buf,
                    Error::PicobootXCmdDataMissing(c.target, w.cmd_id),
                ),
            ),
        ),
{
    let missing = Error::PicobootXCmdDataMissing(c.target, w.cmd_id);
    let sent = w.with_token(c.cmd_token);
    lemma_exchange_wire(c.next(), n, sent, buf, missing);
    lemma_keeps_weaker(
        send_picobootx_cmd_script(c, w, buf),
        n,
        protocol(port_of(c), transacted(c.next(), n, sent, buf, missing)),
        protocol(port_of(c), transacted(c.next(), n, w, buf, missing)),
    );
}

// ----- operations of a connection -----

/// What an operation gives back.
pub enum Gives {
    /// Nothing
    Unit,
    /// What the device sent for the last command
    Data,
}

/// What is given back.
pub open spec fn given(gives: Gives, m: Seen) -> Output {
    match gives {
        Gives::Unit => Output::Unit,
        Gives::Data => Output::Bytes(m.got),
    }
}

/// The device was told the first of `orders`, but not all of them.
pub open spec fn told_of(n: Seen, m: Seen, orders: Seq<Told>) -> bool {
    let k = m.told.len() - n.told.len();
    &&& 0 <= k < orders.len()
    &&& m.told == n.told + orders.take(k)
}

/// An operation of a connection told the device `orders`, in this order, and gave
/// back what it should, unless a transfer failed: with that transfer's error, and
/// with nothing sent after it.  What is refused tells the device nothing.
pub open spec fn performed(
    c: ConnectionState,
    n: Seen,
    orders: Result<Seq<Told>, Error>,
    gives: Gives,
) -> spec_fn(Seen, Ended) -> bool {
    |m: Seen, end: Ended|
        {
            &&& end.conn.same_link(c)
            &&& m.link == n.link
            &&& m.resets == n.resets
            &&& m.sent.len() == 0
            &&& m.stage is Idle
            &&& match (orders, m.failure) {
                (Err(e), _) => m == n && end.result == Err::<Output, Error>(e),
                (Ok(orders), Some(x)) => {
                    &&& end.result == Err::<Output, Error>(x.error)
                    &&& x.in_command && x.resets == n.resets
                    &&& told_of(n, m, orders)
                },
                (Ok(orders), None) => {
                    &&& end.result == Ok::<Output, Error>(given(gives, m))
                    &&& m.told == n.told + orders
                },
            }
        }
}

/// One command, without data.
pub open spec fn one(w: WireCmd) -> Seq<Told> {
    seq![Told { cmd: w, data: Seq::empty() }]
}

/// The commands of an operation of one command, or why there are none.
pub open spec fn one_of(w: Result<WireCmd, Error>) -> Result<Seq<Told>, Error> {
    match w {
        Ok(w) => Ok(one(w.with_token(0))),
        Err(e) => Err(e),
    }
}

/// A command without data to the device is one order.
proof fn lemma_one(c: ConnectionState, n: Seen, w: WireCmd, missing: Error)
    requires
        !sends(w),
        at_rest(c, n),
        c.same_link(c),
    ensures
        forall|m: Seen, end: Ended| #[trigger]
            transacted(c.next(), n, w, None, missing)(m, end) ==> performed(
                c,
                n,
                Ok(one(w.with_token(0))),
                Gives::Data,
            )(m, end),
{
    let orders = one(w.with_token(0));
    assert forall|m: Seen, end: Ended| #[trigger]
        transacted(c.next(), n, w, None, missing)(m, end) implies performed(
        c,
        n,
        Ok(orders),
        Gives::Data,
    )(m, end) by {
        if m.failure is Some {
            assert(n.told + orders.take(0) =~= n.told);
        } else {
            assert(n.told + orders =~= n.told.push(orders[0]));
        }
    }
}

/// Law: an operation of one command that gives data back tells the device that
/// command, and gives back what the device sent.
pub proof fn law_query_wire(c: ConnectionState, n: Seen, w: Result<WireCmd, Error>)
    requires
        at_rest(c, n),
        w matches Ok(w) ==> receivable(c, w) && w.args.len() == 16 && !sends(w),
    ensures
        keeps(
            query_script(c, w),
            n,
            protocol(port_of(c), performed(c, n, one_of(w), Gives::Data)),
        ),
{
    if let Ok(cmd) = w {
        let missing = Error::PicobootCmdDataMissing(c.target, cmd_id_of(cmd.cmd_id)->0);
        law_send_cmd_wire(c, n, cmd, None);
        lemma_one(c, n, cmd, missing);
        lemma_keeps_weaker(
            send_cmd_script(c, cmd, None),
            n,
            protocol(port_of(c), transacted(c.next(), n, cmd, None, missing)),
            protocol(port_of(c), performed(c, n, one_of(w), Gives::Data)),
        );
    }
}

/// Law: an operation of one command that gives nothing back tells the device that
/// command.
pub proof fn law_command_wire(c: ConnectionState, n: Seen, w: Result<WireCmd, Error>)
    requires
        at_rest(c, n),
        w matches Ok(w) ==> receivable(c, w) && w.args.len() == 16 && !sends(w),
    ensures
        keeps(
            command_script(c, w),
            n,
            protocol(port_of(c), performed(c, n, one_of(w), Gives::Unit)),
        ),
{
    if let Ok(cmd) = w {
        let first = protocol(port_of(c), performed(c, n, one_of(w), Gives::Data));
        let rule = protocol(port_of(c), performed(c, n, one_of(w), Gives::Unit));
        law_query_wire(c, n, w);
        assert forall|m: Seen, end: Ended| #[trigger] (first.ends)(m, end) implies keeps(
            to_unit()(end),
            m,
            rule,
        ) by {}
        lemma_bind_keeps(send_cmd_script(c, cmd, None), to_unit(), n, first, rule);
    }
}

/// A command's arguments, in words.
proof fn lemma_words()
    ensures
        forall|a: u32, b: u32, c: u32|
            #![trigger le32(a) + le32(b) + le32(c) + zeros(4)]
            le32(a) + le32(b) + le32(c) + zeros(4) == le32(a) + le32(b) + le32(c) + le32(0),
        forall|a: u32, b: u32|
            #![trigger le32(a) + le32(b) + zeros(8)]
            le32(a) + le32(b) + zeros(8) == le32(a) + le32(b) + le32(0) + le32(0),
        zeros(16) == le32(0) + le32(0) + le32(0) + le32(0),
{
    assert forall|a: u32, b: u32, c: u32|
        #![trigger le32(a) + le32(b) + le32(c) + zeros(4)]
        le32(a) + le32(b) + le32(c) + zeros(4) == le32(a) + le32(b) + le32(c) + le32(0) by {
        assert(le32(a) + le32(b) + le32(c) + zeros(4) =~= le32(a) + le32(b) + le32(c) + le32(0));
    }
    assert forall|a: u32, b: u32|
        #![trigger le32(a) + le32(b) + zeros(8)]
        le32(a) + le32(b) + zeros(8) == le32(a) + le32(b) + le32(0) + le32(0) by {
        assert(le32(a) + le32(b) + zeros(8) =~= le32(a) + le32(b) + le32(0) + le32(0));
    }
    assert(zeros(16) =~= le32(0) + le32(0) + le32(0) + le32(0));
}

/// Law: entering and leaving XIP mode tell the device just that.
pub proof fn law_xip_orders(c: ConnectionState, n: Seen)
    requires
        at_rest(c, n),
        c.in_ep_max_packet_size > 0,
    ensures
        keeps(
            command_script(c, Ok(WireCmd::enter_xip())),
            n,
            protocol(
                port_of(c),
                performed(c, n, Ok(one(order(0x07, 0, 0, 0, 0, 0, 0))), Gives::Unit),
            ),
        ),
        keeps(
            command_script(c, Ok(WireCmd::exit_xip())),
            n,
            protocol(
                port_of(c),
                performed(c, n, Ok(one(order(0x06, 0, 0, 0, 0, 0, 0))), Gives::Unit),
            ),
        ),
{
    lemma_words();
    assert(WireCmd::enter_xip().with_token(0) == order(0x07, 0, 0, 0, 0, 0, 0));
    assert(WireCmd::exit_xip().with_token(0) == order(0x06, 0, 0, 0, 0, 0, 0));
    law_command_wire(c, n, Ok(WireCmd::enter_xip()));
    law_command_wire(c, n, Ok(WireCmd::exit_xip()));
}

/// Law: asking for exclusive access tells the device the mode: 0 for none, 1 for
/// exclusive, 2 for exclusive and ejected.
pub proof fn law_exclusive_access_orders(c: ConnectionState, n: Seen, access: Access)
    requires
        at_rest(c, n),
        c.in_ep_max_packet_size > 0,
    ensures
        keeps(
            command_script(c, Ok(WireCmd::exclusive_access(access.code_of()))),
            n,
            protocol(
                port_of(c),
                performed(
                    c,
                    n,
                    Ok(
                        one(
                            order(
                                0x01,
                                1,
                                0,
                                match access {
                                    Access::NotExclusive => 0,
                                    Access::Exclusive => 1,
                                    Access::ExclusiveAndEject => 2,
                                },
                                0,
                                0,
                                0,
                            ),
                        ),
                    ),
                    Gives::Unit,
                ),
            ),
        ),
{
    let w = WireCmd::exclusive_access(access.code_of());
    let mode: u32 = match access {
        Access::NotExclusive => 0,
        Access::Exclusive => 1,
        Access::ExclusiveAndEject => 2,
    };
    assert(w.args =~= le32(mode) + le32(0) + le32(0) + le32(0));
    assert(w.with_token(0) == order(0x01, 1, 0, mode, 0, 0, 0));
    law_command_wire(c, n, Ok(w));
}

/// What an erase tells the device, or why it tells nothing.
pub open spec fn erase_orders(t: Target, addr: u32, size: u32) -> Result<Seq<Told>, Error> {
    if addr as int % 4096 != 0 {
        Err(Error::PicobootEraseInvalidAddr(t, addr))
    } else if size as int % 4096 != 0 {
        Err(Error::PicobootEraseInvalidSize(t, size))
    } else {
        Ok(one(order(0x03, 8, 0, addr, size, 0, 0)))
    }
}

/// Law: an erase of whole sectors tells the device to erase just those; any other
/// is refused.
pub proof fn law_erase_orders(c: ConnectionState, n: Seen, addr: u32, size: u32)
    requires
        at_rest(c, n),
        c.in_ep_max_packet_size > 0,
    ensures
        keeps(
            command_script(c, flash_erase_cmd(c, addr, size)),
            n,
            protocol(
                port_of(c),
                performed(c, n, erase_orders(c.target, addr, size), Gives::Unit),
            ),
        ),
{
    lemma_words();
    let w = flash_erase_cmd(c, addr, size);
    law_command_wire(c, n, w);
    if w is Ok {
        assert(w->Ok_0.with_token(0) == order(0x03, 8, 0, addr, size, 0, 0));
    }
    assert(one_of(w) == erase_orders(c.target, addr, size));
}

/// Law: an erase from the start of flash tells the device to erase the fewest
/// whole sectors that hold `size` bytes.  A size that is no `u32` is refused.
pub proof fn law_erase_start_orders(c: ConnectionState, n: Seen, size: usize, whole: int)
    requires
        at_rest(c, n),
        c.in_ep_max_packet_size > 0,
        whole % 4096 == 0,
        size <= whole < size + 4096,
        size > u32::MAX || whole <= u32::MAX,
    ensures
        keeps(
            command_script(c, flash_erase_start_cmd(c, size)),
            n,
            protocol(
                port_of(c),
                performed(
                    c,
                    n,
                    if size > u32::MAX {
                        Err(
                            Error::PicobootEraseInvalidSize(
                                c.target,
                                (size as int % 0x1_0000_0000) as u32,
                            ),
                        )
                    } else {
                        Ok(one(order(0x03, 8, 0, 0x1000_0000, whole as u32, 0, 0)))
                    },
                    Gives::Unit,
                ),
            ),
        ),
{
    lemma_words();
    let w = flash_erase_start_cmd(c, size);
    if size <= u32::MAX {
        assert(round_up(size as int, 4096) == whole);
        assert(w == Ok::<WireCmd, Error>(WireCmd::flash_erase(0x1000_0000, whole as u32)));
        assert(w->Ok_0.with_token(0) == order(0x03, 8, 0, 0x1000_0000, whole as u32, 0, 0));
    }
    law_command_wire(c, n, w);
}

/// What a read tells the device, or why it tells nothing.
pub open spec fn read_orders(t: Target, addr: u32, size: u32, flash: bool) -> Result<
    Seq<Told>,
    Error,
> {
    if flash && addr as int % 256 != 0 {
        Err(Error::PicobootReadInvalidAddr(t, addr))
    } else if flash && size as int % 256 != 0 {
        Err(Error::PicobootReadInvalidSize(t, size))
    } else {
        Ok(one(order(0x84, 8, size, addr, size, 0, 0)))
    }
}

/// Law: a read tells the device to send just the bytes asked for, and gives back
/// what it sends; a read of flash that is not of whole pages is refused.
pub proof fn law_read_orders(c: ConnectionState, n: Seen, addr: u32, size: u32, flash: bool)
    requires
        at_rest(c, n),
        size != 0 ==> can_read(c, size as int),
    ensures
        keeps(
            query_script(c, read_cmd(c, addr, size, flash)),
            n,
            protocol(
                port_of(c),
                performed(c, n, read_orders(c.target, addr, size, flash), Gives::Data),
            ),
        ),
        read_cmd(c, addr, size, false) == Ok::<WireCmd, Error>(WireCmd::flash_read(addr, size)),
        read_cmd(c, addr, size, true) == flash_read_cmd(c, addr, size),
{
    lemma_words();
    let w = read_cmd(c, addr, size, flash);
    law_query_wire(c, n, w);
    if w is Ok {
        assert(w->Ok_0.with_token(0) == order(0x84, 8, size, addr, size, 0, 0));
    }
    assert(one_of(w) == read_orders(c.target, addr, size, flash));
}

// ----- reboots -----

/// What REBOOT tells the device, or why it tells nothing.
pub open spec fn reboot_orders(t: Target, pc: u32, sp: u32, delay: Duration) -> Result<
    Seq<Told>,
    Error,
> {
    let ms = delay@ as int / 1_000_000;
    if ms > 0xffff_ffff {
        Err(Error::PicobootInvalidDuration(t, delay))
    } else if t is Rp2350 {
        Err(Error::PicobootCmdNotAllowedForTarget(t, PicobootCmdId::Reboot))
    } else {
        Ok(one(order(0x02, 12, 0, pc, sp, ms as u32, 0)))
    }
}

/// What REBOOT2 tells the device, or why it tells nothing.
pub open spec fn reboot2_orders(t: Target, flags: u32, p0: u32, p1: u32, delay: Duration) -> Result<
    Seq<Told>,
    Error,
> {
    let ms = delay@ as int / 1_000_000;
    if ms > 0xffff_ffff {
        Err(Error::PicobootInvalidDuration(t, delay))
    } else if t is Rp2040 {
        Err(Error::PicobootCmdNotAllowedForTarget(t, PicobootCmdId::Reboot2))
    } else {
        Ok(one(order(0x0a, 16, 0, flags, ms as u32, p0, p1)))
    }
}

/// What a reboot of a device tells it, or why it tells nothing: an RP2040 boots
/// from flash, and has no other reboot; all others are told whether to come back
/// in BOOTSEL mode, and which interfaces to leave out.
pub open spec fn reboot_type_orders(t: Target, reboot_type: RebootType, delay: Duration) -> Result<
    Seq<Told>,
    Error,
> {
    match reboot_type {
        RebootType::Normal => if t is Rp2040 {
            reboot_orders(t, 0, 0x2004_2000, delay)
        } else {
            reboot2_orders(t, 0, 0, 0, delay)
        },
        RebootType::Bootsel { disable_msd, disable_picoboot } => if t is Rp2040 {
            Err(Error::PicobootCmdNotAllowedForTarget(t, PicobootCmdId::Reboot2))
        } else {
            let msd: int = if disable_msd {
                1
            } else {
                0
            };
            let picoboot: int = if disable_picoboot {
                2
            } else {
                0
            };
            reboot2_orders(t, 2, (msd + picoboot) as u32, 0, delay)
        },
    }
}

/// Law: reboots tell the device how to come up, with the delay in milliseconds.
pub proof fn law_reboot_orders(
    c: ConnectionState,
    n: Seen,
    a: u32,
    b: u32,
    d: u32,
    delay: Duration,
)
    requires
        at_rest(c, n),
        c.in_ep_max_packet_size > 0,
    ensures
        keeps(
            command_script(c, reboot_rp2040_cmd(c, a, b, delay)),
            n,
            protocol(
                port_of(c),
                performed(c, n, reboot_orders(c.target, a, b, delay), Gives::Unit),
            ),
        ),
        keeps(
            command_script(c, reboot_rp2350_cmd(c, a, b, d, delay)),
            n,
            protocol(
                port_of(c),
                performed(c, n, reboot2_orders(c.target, a, b, d, delay), Gives::Unit),
            ),
        ),
        keeps(
            command_script(c, reboot_cmd(c, delay)),
            n,
            protocol(
                port_of(c),
                performed(
                    c,
                    n,
                    if c.target is Custom {
                        Err(
                            Error::PicobootCmdNotAllowedForTarget(
                                c.target,
                                PicobootCmdId::Reboot,
                            ),
                        )
                    } else {
                        reboot_type_orders(c.target, RebootType::Normal, delay)
                    },
                    Gives::Unit,
                ),
            ),
        ),
{
    lemma_words();
    let ms = (delay@ as int / 1_000_000) as u32;
    let w = reboot_rp2040_cmd(c, a, b, delay);
    law_command_wire(c, n, w);
    if w is Ok {
        assert(w->Ok_0.with_token(0) == order(0x02, 12, 0, a, b, ms, 0));
    }
    let w = reboot_rp2350_cmd(c, a, b, d, delay);
    law_command_wire(c, n, w);
    if w is Ok {
        assert(w->Ok_0.with_token(0) == order(0x0a, 16, 0, a, ms, b, d));
    }
    let w = reboot_cmd(c, delay);
    law_command_wire(c, n, w);
    if w is Ok {
        if c.target is Rp2040 {
            assert(w->Ok_0.with_token(0) == order(0x02, 12, 0, 0, 0x2004_2000, ms, 0));
        } else {
            assert(w->Ok_0.with_token(0) == order(0x0a, 16, 0, 0, ms, 0, 0));
        }
    }
}

/// Law: a device is told what its kind and the type of the reboot ask for.
pub proof fn law_reboot_type_orders(
    c: ConnectionState,
    n: Seen,
    reboot_type: RebootType,
    delay: Duration,
)
    requires
        at_rest(c, n),
        c.in_ep_max_packet_size > 0,
    ensures
        keeps(
            command_script(c, reboot_type_cmd(c, c.target, reboot_type, delay)),
            n,
            protocol(
                port_of(c),
                performed(
                    c,
                    n,
                    reboot_type_orders(c.target, reboot_type, delay),
                    Gives::Unit,
                ),
            ),
        ),
{
    lemma_words();
    let ms = (delay@ as int / 1_000_000) as u32;
    let w = reboot_type_cmd(c, c.target, reboot_type, delay);
    law_command_wire(c, n, w);
    if w is Ok {
        match reboot_type {
            RebootType::Normal => if c.target is Rp2040 {
                assert(w->Ok_0.with_token(0) == order(0x02, 12, 0, 0, 0x2004_2000, ms, 0));
            } else {
                assert(w->Ok_0.with_token(0) == order(0x0a, 16, 0, 0, ms, 0, 0));
            },
            RebootType::Bootsel { disable_msd, disable_picoboot } => {
                let p0 = bootsel_param(disable_msd, disable_picoboot);
                assert(w->Ok_0.with_token(0) == order(0x0a, 16, 0, 2, ms, p0, 0));
            },
        }
    }
    assert(one_of(w) == reboot_type_orders(c.target, reboot_type, delay));
}

// ----- writes -----

/// What a write tells the device: a WRITE command for every page, from the address
/// on, with the data of that page.
pub open spec fn write_orders(addr: int, buf: Seq<u8>) -> Seq<Told>
    decreases buf.len(),
{
    if buf.len() == 0 {
        Seq::empty()
    } else if buf.len() <= 256 {
        seq![page_order(addr, buf)]
    } else {
        seq![page_order(addr, buf.take(256))] + write_orders(addr + 256, buf.skip(256))
    }
}

/// What a write of at most a page tells the device.
pub open spec fn page_order(addr: int, data: Seq<u8>) -> Told {
    Told {
        cmd: order(0x05, 8, data.len() as u32, addr as u32, data.len() as u32, 0, 0),
        data,
    }
}

/// The bytes at `offset` and beyond.
spec fn beyond(buf: Seq<u8>, offset: int) -> Seq<u8> {
    if offset < buf.len() {
        buf.skip(offset)
    } else {
        Seq::empty()
    }
}

/// One page was written, or was broken off by a failure.
spec fn page_written(c: ConnectionState, n: Seen, page: Told) -> spec_fn(Seen, Ended) -> bool {
    |m: Seen, end: Ended|
        {
            &&& end.conn == c.next()
            &&& m.link == n.link
            &&& m.resets == n.resets
            &&& m.sent.len() == 0
            &&& m.stage is Idle
            &&& match m.failure {
                Some(x) => {
                    &&& end.result == Err::<Output, Error>(x.error)
                    &&& x.in_command && x.resets == n.resets
                    &&& m.told == n.told
                },
                None => end.result is Ok && m.told == n.told.push(page),
            }
        }
}

/// A WRITE command tells the device to store a page.
proof fn lemma_page_wire(c: ConnectionState, n: Seen, at: u32, data: Seq<u8>)
    requires
        at_rest(c, n),
        c.in_ep_max_packet_size > 0,
        0 < data.len() <= 256,
    ensures
        keeps(
            send_cmd_script(c, WireCmd::flash_write(at, data.len() as u32), Some(data)),
            n,
            protocol(port_of(c), page_written(c, n, page_order(at as int, data))),
        ),
{
    let w = WireCmd::flash_write(at, data.len() as u32);
    let missing = Error::PicobootCmdDataMissing(c.target, cmd_id_of(w.cmd_id)->0);
    lemma_words();
    assert(w.with_token(0) == page_order(at as int, data).cmd);
    law_send_cmd_wire(c, n, w, Some(data));
    lemma_keeps_weaker(
        send_cmd_script(c, w, Some(data)),
        n,
        protocol(port_of(c), transacted(c.next(), n, w, Some(data), missing)),
        protocol(port_of(c), page_written(c, n, page_order(at as int, data))),
    );
}

/// The first page is one order, and what is beyond the others.
proof fn lemma_first_page(addr: int, buf: Seq<u8>, offset: int)
    requires
        0 <= offset < buf.len(),
    ensures
        0 < chunk(buf, offset).len() <= 256,
        write_orders(addr + offset, beyond(buf, offset)) == seq![
            page_order(addr + offset, chunk(buf, offset)),
        ] + write_orders(addr + offset + 256, beyond(buf, offset + 256)),
{
    let here = beyond(buf, offset);
    let rest = beyond(buf, offset + 256);
    if here.len() <= 256 {
        assert(here =~= chunk(buf, offset));
        assert(rest =~= Seq::empty());
    } else {
        assert(here.take(256) =~= chunk(buf, offset));
        assert(here.skip(256) =~= rest);
    }
    assert(write_orders(addr + offset, here) =~= seq![
        page_order(addr + offset, chunk(buf, offset)),
    ] + write_orders(addr + offset + 256, rest));
}

#[verifier::spinoff_prover]
#[verifier::rlimit(40)]
proof fn lemma_write_wire(c: ConnectionState, n: Seen, addr: u32, buf: Seq<u8>, offset: int)
    requires
        at_rest(c, n),
        c.in_ep_max_packet_size > 0,
        0 <= offset,
        offset % 256 == 0,
        write_fits(addr, buf.len() as int),
        buf.len() <= 0x1_0000_0000,
    ensures
        keeps(
            write_from(c, addr, buf, offset),
            n,
            protocol(
                port_of(c),
                performed(
                    c,
                    n,
                    Ok(write_orders(addr + offset, beyond(buf, offset))),
                    Gives::Unit,
                ),
            ),
        ),
    decreases left_of(buf, offset),
{
    let orders = write_orders(addr + offset, beyond(buf, offset));
    let rule = protocol(port_of(c), performed(c, n, Ok(orders), Gives::Unit));
    lemma_write_from(c, addr, buf, offset);
    if offset < buf.len() {
        let data = chunk(buf, offset);
        let next = offset + 256;
        let at = chunk_addr(addr, offset);
        let page = page_order(addr + offset, data);
        let rest = write_orders(addr + next, beyond(buf, next));
        let first = protocol(port_of(c), page_written(c, n, page));
        lemma_chunk_addr_fits(addr, buf.len() as int, offset);
        lemma_first_page(addr as int, buf, offset);
        lemma_page_wire(c, n, at, data);
        assert forall|m: Seen, end: Ended| #[trigger] (first.ends)(m, end) implies keeps(
            write_on(addr, buf, next)(end),
            m,
            rule,
        ) by {
            lemma_write_on(addr, buf, next, end);
            if end.result is Ok {
                lemma_write_wire(c.next(), m, addr, buf, next);
                lemma_rest_told(c, n, m, page, rest, orders);
                lemma_keeps_weaker(
                    write_from(c.next(), addr, buf, next),
                    m,
                    protocol(port_of(c), performed(c.next(), m, Ok(rest), Gives::Unit)),
                    rule,
                );
            } else {
                assert(n.told + orders.take(0) =~= n.told);
            }
        }
        lemma_bind_keeps(
            send_cmd_script(c, WireCmd::flash_write(at, data.len() as u32), Some(data)),
            write_on(addr, buf, next),
            n,
            first,
            rule,
        );
    } else {
        assert(n.told + orders =~= n.told);
    }
}

/// One order, and the rest.
proof fn lemma_rest_told(
    c: ConnectionState,
    n: Seen,
    m: Seen,
    page: Told,
    rest: Seq<Told>,
    orders: Seq<Told>,
)
    requires
        orders == seq![page] + rest,
        m.told == n.told.push(page),
        m.link == n.link,
        m.resets == n.resets,
    ensures
        forall|k: Seen, end: Ended| #[trigger]
            performed(c.next(), m, Ok(rest), Gives::Unit)(k, end) ==> performed(
                c,
                n,
                Ok(orders),
                Gives::Unit,
            )(k, end),
{
    assert forall|k: Seen, end: Ended| #[trigger]
        performed(c.next(), m, Ok(rest), Gives::Unit)(k, end) implies performed(
        c,
        n,
        Ok(orders),
        Gives::Unit,
    )(k, end) by {
        if k.failure is Some {
            let i = k.told.len() - m.told.len();
            assert(n.told + orders.take(i + 1) =~= m.told + rest.take(i));
        } else {
            assert(n.told + orders =~= m.told + rest);
        }
    }
}

/// Law: a write tells the device to store the buffer, a page at a time.
pub proof fn law_write_orders(c: ConnectionState, n: Seen, addr: u32, buf: Seq<u8>)
    requires
        at_rest(c, n),
        c.in_ep_max_packet_size > 0,
        write_fits(addr, buf.len() as int),
        buf.len() <= 0x1_0000_0000,
    ensures
        keeps(
            write_script(c, addr, buf),
            n,
            protocol(
                port_of(c),
                performed(c, n, Ok(write_orders(addr as int, buf)), Gives::Unit),
            ),
        ),
{
    assert(beyond(buf, 0) =~= buf);
    lemma_write_wire(c, n, addr, buf, 0);
}

/// Law: a write to flash from the start of any page tells the device to store the
/// buffer, a page at a time; only an address that is not on a page is refused.
pub proof fn law_flash_write_orders(c: ConnectionState, n: Seen, addr: u32, buf: Seq<u8>)
    requires
        at_rest(c, n),
        c.in_ep_max_packet_size > 0,
        write_fits(addr, buf.len() as int),
        buf.len() <= 0x1_0000_0000,
    ensures
        keeps(
            flash_write_script(c, addr, buf),
            n,
            protocol(
                port_of(c),
                performed(
                    c,
                    n,
                    if addr as int % 256 == 0 {
                        Ok(write_orders(addr as int, buf))
                    } else {
                        Err(Error::PicobootWriteInvalidAddr(c.target, addr))
                    },
                    Gives::Unit,
                ),
            ),
        ),
        addr as int % 256 == 0 ==> flash_write_script(c, addr, buf) == write_script(c, addr, buf),
{
    law_write_orders(c, n, addr, buf);
}

// ----- resets -----

/// A reset was begun, and came to its end or to its first failure.  What went
/// wrong before stays what went wrong first.
pub open spec fn upkept(c: ConnectionState, n: Seen) -> spec_fn(Seen, Ended) -> bool {
    |m: Seen, end: Ended|
        {
            &&& end.conn == c
            &&& m.link == n.link
            &&& m.stage is Idle
            &&& m.sent.len() == 0
            &&& m.told == n.told
            &&& m.resets == n.resets + 1
            &&& n.failure is Some ==> m.failure == n.failure
            &&& n.failure is None ==> match m.failure {
                None => end.result == Ok::<Output, Error>(Output::Unit),
                Some(x) => {
                    &&& end.result == Err::<Output, Error>(x.error)
                    &&& !x.in_command && x.resets == n.resets + 1
                },
            }
        }
}

/// Whether a reset may begin.
pub open spec fn may_reset(c: ConnectionState, n: Seen) -> bool {
    &&& n.link == (Link::Claimed { taken: c.kernel_driver_detached })
    &&& n.stage is Idle || (n.stage matches Stage::Sent(w) && sends(w))
    &&& n.sent.len() == 0
}

proof fn lemma_reset_end(c: ConnectionState, n: Seen, m: Seen)
    requires
        m.link == (Link::Claimed { taken: c.kernel_driver_detached }),
        m.link == n.link,
        m.sent.len() == 0,
        m.told == n.told,
        m.resets == n.resets + 1,
        m.failure == n.failure,
        m.stage is Reset,
    ensures
        keeps(reset_request(c), m, protocol(port_of(c), upkept(c, n))),
{
    reveal(in_turn);
    reveal(seeing);
    reveal_with_fuel(keeps, 2);
}

proof fn lemma_reset_out_wire(c: ConnectionState, n: Seen, m: Seen)
    requires
        m.link == (Link::Claimed { taken: c.kernel_driver_detached }),
        m.link == n.link,
        m.sent.len() == 0,
        m.told == n.told,
        m.resets == n.resets + 1,
        m.failure == n.failure,
        m.stage is AskOut,
    ensures
        keeps(reset_out(c), m, protocol(port_of(c), upkept(c, n))),
{
    reveal(in_turn);
    reveal(seeing);
    let rule = protocol(port_of(c), upkept(c, n));
    let s = reset_out(c);
    assert forall|answer: Answer| answers(answer, s->Ask_0) implies keeps(
        #[trigger] (s->Ask_1)(answer),
        (rule.note)(m, s->Ask_0, answer),
        rule,
    ) by {
        let k = (rule.note)(m, s->Ask_0, answer);
        let t = (s->Ask_1)(answer);
        if says_halted(answer) {
            assert forall|cleared: Answer| answers(cleared, t->Ask_0) implies keeps(
                #[trigger] (t->Ask_1)(cleared),
                (rule.note)(k, t->Ask_0, cleared),
                rule,
            ) by {
                if cleared->ClearHalt_0 is Ok {
                    lemma_reset_end(c, n, (rule.note)(k, t->Ask_0, cleared));
                }
            }
        } else {
            lemma_reset_end(c, n, k);
        }
    }
}

proof fn lemma_reset_in_wire(c: ConnectionState, n: Seen, m: Seen)
    requires
        m.link == (Link::Claimed { taken: c.kernel_driver_detached }),
        m.link == n.link,
        m.sent.len() == 0,
        m.told == n.told,
        m.resets == n.resets + 1,
        m.failure == n.failure,
        m.stage is AskIn,
    ensures
        keeps(reset_in(c), m, protocol(port_of(c), upkept(c, n))),
{
    reveal(in_turn);
    reveal(seeing);
    let rule = protocol(port_of(c), upkept(c, n));
    let s = reset_in(c);
    assert forall|answer: Answer| answers(answer, s->Ask_0) implies keeps(
        #[trigger] (s->Ask_1)(answer),
        (rule.note)(m, s->Ask_0, answer),
        rule,
    ) by {
        let k = (rule.note)(m, s->Ask_0, answer);
        let t = (s->Ask_1)(answer);
        if says_halted(answer) {
            assert forall|cleared: Answer| answers(cleared, t->Ask_0) implies keeps(
                #[trigger] (t->Ask_1)(cleared),
                (rule.note)(k, t->Ask_0, cleared),
                rule,
            ) by {
                if cleared->ClearHalt_0 is Ok {
                    lemma_reset_out_wire(c, n, (rule.note)(k, t->Ask_0, cleared));
                }
            }
        } else {
            lemma_reset_out_wire(c, n, k);
        }
    }
}

/// What a device saw when it was asked for the status of its last command.
pub open spec fn status_asked(n: Seen) -> Seen {
    Seen { stage: Stage::AskIn, sent: Seq::empty(), resets: n.resets + 1, ..n }
}

/// The status of the last command was asked for.
pub open spec fn status_known(c: ConnectionState, n: Seen) -> spec_fn(Seen, Ended) -> bool {
    |m: Seen, end: Ended| end.conn == c && m == status_asked(n)
}

proof fn lemma_status_wire(c: ConnectionState, n: Seen)
    requires
        may_reset(c, n),
    ensures
        keeps(get_command_status_script(c), n, protocol(port_of(c), status_known(c, n))),
{
    reveal(in_turn);
    reveal(seeing);
    reveal_with_fuel(keeps, 2);
}

/// Law: a reset asks for the status of the last command, clears the halts of the
/// endpoints that say they are halted, and no others, and resets the interface.
pub proof fn law_reset_wire(c: ConnectionState, n: Seen)
    requires
        may_reset(c, n),
    ensures
        keeps(reset_interface_script(c), n, protocol(port_of(c), upkept(c, n))),
{
    let first = protocol(port_of(c), status_known(c, n));
    let rule = protocol(port_of(c), upkept(c, n));
    lemma_status_wire(c, n);
    assert forall|m: Seen, end: Ended| #[trigger] (first.ends)(m, end) implies keeps(
        reset_status_known()(end),
        m,
        rule,
    ) by {
        lemma_reset_in_wire(c, n, m);
    }
    lemma_bind_keeps(get_command_status_script(c), reset_status_known(), n, first, rule);
}

/// Law: the status of the last command is asked for, and what the device answers
/// is given back as it stands in its bytes; an answer that is too short is an
/// error, and says how many bits the field has that it cuts short.
pub proof fn law_status_orders(c: ConnectionState, answer: Answer)
    requires
        answers(answer, ask_status(port_of(c))),
    ensures
        get_command_status_script(c) is Ask,
        get_command_status_script(c)->Ask_0 == ask_status(port_of(c)),
        get_command_status_script(c).after(answer) == done(
            c,
            match answer->ControlIn_0 {
                Err(e) => Err(Error::PicobootGetCommandStatusFailure(c.target, e)),
                Ok(data) => if data.len() < 8 {
                    Err(Error::PicobootCmdDeserializeFailure(c.target, Incomplete { bits: 32 }))
                } else if data.len() < 16 {
                    Err(Error::PicobootCmdDeserializeFailure(c.target, Incomplete { bits: 8 }))
                } else {
                    Ok(
                        Output::Status(
                            StatusView {
                                token: le32_at(data, 0),
                                status_code: le32_at(data, 4),
                                cmd_id: data[8],
                                in_progress: data[9],
                                unused: data.subrange(10, 16),
                            },
                        ),
                    )
                },
            },
        ),
{
}

// ----- limits -----

/// Law: a command can be sent if and only if a token is left, and what it receives
/// can be received in whole packets, `whole` bytes of them; an acknowledgement takes
/// one packet.
pub proof fn law_sending_limits(c: ConnectionState, w: WireCmd, whole: int)
    requires
        c.in_ep_max_packet_size > 0 ==> {
            &&& whole % c.in_ep_max_packet_size as int == 0
            &&& w.transfer_len <= whole < w.transfer_len + c.in_ep_max_packet_size
        },
    ensures
        w.cmd_id < 0x80 ==> (can_send(c, w) <==> c.cmd_token < u32::MAX && c.in_ep_max_packet_size
            > 0),
        w.cmd_id >= 0x80 && w.transfer_len == 0 ==> (can_send(c, w) <==> c.cmd_token < u32::MAX),
        w.cmd_id >= 0x80 && w.transfer_len != 0 ==> (can_send(c, w) <==> {
            &&& c.cmd_token < u32::MAX
            &&& c.in_ep_max_packet_size > 0
            &&& whole <= usize::MAX
        }),
{
    if c.in_ep_max_packet_size > 0 {
        let unit = c.in_ep_max_packet_size as int;
        let len = w.transfer_len as int;
        lemma_round_up(len, unit);
        let up = round_up(len, unit);
        let k = (len + unit - 1) / unit;
        vstd::arithmetic::div_mod::lemma_mod_multiples_basic(k, unit);
        assert(0 <= len % unit < unit) by (nonlinear_arith)
            requires
                unit > 0,
        ;
        let q = whole / unit;
        assert(whole == q * unit) by (nonlinear_arith)
            requires
                unit > 0,
                whole % unit == 0,
                q == whole / unit,
        ;
        assert(k == q) by (nonlinear_arith)
            requires
                unit > 0,
                len <= k * unit < len + unit,
                len <= q * unit < len + unit,
        ;
    }
}

/// Law: bytes can be written if and only if the address of every page is a `u32`,
/// a token is left for every page, and acknowledgements can be received.  `pages`
/// is how many pages there are.
pub proof fn law_writing_limits(c: ConnectionState, addr: u32, len: int, pages: int)
    requires
        0 < len <= 0x1_0000_0000,
        (pages - 1) * 256 < len <= pages * 256,
    ensures
        can_write(c, addr, len) <==> {
            &&& addr + (pages - 1) * 256 <= u32::MAX
            &&& c.cmd_token + pages <= u32::MAX
            &&& c.in_ep_max_packet_size > 0
        },
        can_write(c, addr, 0) <==> c.cmd_token <= u32::MAX,
{
}

// ----- operations of a device -----

/// The port of a device.
pub open spec fn port_for(p: PicobootState) -> Port {
    match p.connection {
        Some(c) => port_of(c),
        None => Port {
            target: p.target,
            if_num: p.interface.if_num,
            out_ep: p.interface.out_ep,
            in_ep: p.interface.in_ep,
            packet: p.interface.in_ep_max_packet_size,
            timeouts: p.timeouts,
        },
    }
}

/// What a device saw when an operation starts.
pub open spec fn begun(p: PicobootState) -> Seen {
    Seen {
        link: match p.connection {
            Some(c) => Link::Claimed { taken: c.kernel_driver_detached },
            None => Link::Closed,
        },
        stage: Stage::Idle,
        told: Seq::empty(),
        sent: Seq::empty(),
        got: Seq::empty(),
        resets: 0,
        failure: None,
    }
}

/// Whether a connection is one to the device: the one that was open, or else a new
/// one.
pub open spec fn belongs(p: PicobootState, c: ConnectionState) -> bool {
    match p.connection {
        Some(was) => c.same_link(was),
        None => port_of(c) == port_for(p),
    }
}

/// The device is connected, or what went wrong first is what is reported.
pub open spec fn connect_seen(p: PicobootState) -> spec_fn(Seen, Finished) -> bool {
    |m: Seen, f: Finished|
        match m.failure {
            Some(x) => {
                &&& p.connection is None
                &&& f.connection is None
                &&& f.result == Err::<Output, Error>(x.error)
                &&& m == (Seen { failure: Some(x), ..begun(p) })
                &&& !x.in_command && x.resets == 0
            },
            None => {
                &&& f.result == Ok::<Output, Error>(Output::Unit)
                &&& f.connection matches Some(c)
                &&& p.connection is Some ==> p.connection == Some(c)
                &&& p.connection is None ==> c.cmd_token == 1 && port_of(c) == port_for(p)
                &&& m == (Seen {
                    link: Link::Claimed { taken: c.kernel_driver_detached },
                    ..begun(p)
                })
            },
        }
}

/// Law: connecting opens the device, takes the interface from the kernel's driver
/// and claims it, in this order, and does nothing if the device is connected.
#[verifier::spinoff_prover]
#[verifier::rlimit(40)]
pub proof fn law_connect_wire(p: PicobootState)
    ensures
        keeps(connect_script(p), begun(p), protocol(port_for(p), connect_seen(p))),
{
    reveal(in_turn);
    reveal(seeing);
    reveal_with_fuel(keeps, 4);
}

/// What an operation tells a device, if nothing goes wrong, and why it goes no
/// further, if it is refused.
pub struct Plan {
    pub orders: Seq<Told>,
    pub refusal: Option<Error>,
    pub gives: Gives,
}

/// A plan of an operation that tells all or nothing.
pub open spec fn plan_of(orders: Result<Seq<Told>, Error>, gives: Gives) -> Plan {
    match orders {
        Ok(orders) => Plan { orders, refusal: None, gives },
        Err(e) => Plan { orders: Seq::empty(), refusal: Some(e), gives },
    }
}

/// What an operation tells a device of type `t`.
pub open spec fn plan(t: Target, job: Job) -> Plan {
    match job {
        Job::Connect => plan_of(Ok(Seq::empty()), Gives::Unit),
        Job::Read { addr, size, flash } => plan_of(read_orders(t, addr, size, flash), Gives::Data),
        Job::Write { addr, buf, flash } => plan_of(
            if flash && addr as int % 256 != 0 {
                Err(Error::PicobootWriteInvalidAddr(t, addr))
            } else {
                Ok(write_orders(addr as int, buf))
            },
            Gives::Unit,
        ),
        Job::Erase { addr, size } => {
            let exit = one(order(0x06, 0, 0, 0, 0, 0, 0));
            match erase_orders(t, addr, size) {
                Ok(orders) => Plan { orders: exit + orders, refusal: None, gives: Gives::Unit },
                Err(e) => Plan { orders: exit, refusal: Some(e), gives: Gives::Unit },
            }
        },
        Job::EraseWrite { addr, size, buf } => match erase_orders(t, addr, size) {
            Ok(orders) => plan_of(Ok(orders + write_orders(addr as int, buf)), Gives::Unit),
            Err(e) => plan_of(Err(e), Gives::Unit),
        },
        Job::Reboot { target, reboot_type, delay } => plan_of(
            reboot_type_orders(t, reboot_type, delay),
            Gives::Unit,
        ),
        Job::Extension { cmd, data } => plan_of(
            if sends(cmd) && data is None {
                Err(Error::PicobootXCmdDataMissing(t, cmd.cmd_id))
            } else {
                Ok(
                    seq![
                        Told {
                            cmd: cmd.with_token(0),
                            data: if sends(cmd) {
                                data->0
                            } else {
                                Seq::empty()
                            },
                        },
                    ],
                )
            },
            Gives::Data,
        ),
    }
}

/// Resets that an operation begins with.
pub open spec fn resets_first(job: Job) -> nat {
    if job is Connect || job is Reboot {
        0
    } else {
        1
    }
}

/// Whether `told` is how `orders` begin.
pub open spec fn begins(told: Seq<Told>, orders: Seq<Told>) -> bool {
    told.len() <= orders.len() && told == orders.take(told.len() as int)
}

/// How an operation of a device ends.
pub open spec fn job_seen(p: PicobootState, job: Job) -> spec_fn(Seen, Finished) -> bool {
    |m: Seen, f: Finished|
        {
            let was = p.connection is Some;
            let todo = plan(port_for(p).target, job);
            let first = resets_first(job);
            &&& m.stage is Idle
            &&& f.connection is Some == (match (f.result, job) {
                (Err(_), _) => was,
                (Ok(_), Job::Reboot { .. }) => false,
                (Ok(_), Job::Extension { .. }) => was,
                _ => true,
            })
            &&& match f.connection {
                Some(c) => belongs(p, c) && m.link == (Link::Claimed {
                    taken: c.kernel_driver_detached,
                }),
                None => m.link is Closed,
            }
            &&& match m.failure {
                // What went wrong, but for a reset to recover, is what is reported.
                Some(x) if x.resets <= first => {
                    &&& f.result == Err::<Output, Error>(x.error)
                    &&& begins(m.told, todo.orders)
                    &&& m.resets == (if !x.in_command {
                        x.resets
                    } else if job is Erase && m.told.len() == 0 {
                        first
                    } else {
                        first + 1
                    })
                },
                // If nothing did, the operation is done, or refused.
                _ => {
                    &&& m.told == todo.orders
                    &&& match todo.refusal {
                        Some(e) => f.result == Err::<Output, Error>(e) && m.resets == first + 1,
                        None => f.result == Ok::<Output, Error>(given(todo.gives, m)) && m.resets
                            == first,
                    }
                },
            }
            &&& (job matches Job::Extension { cmd, data } && !receives(cmd) && f.result is Ok)
                ==> m.got == Seq::<u8>::empty()
        }
}

/// What came of the commands of an operation on the connection `c`.
spec fn came_to(
    p: PicobootState,
    job: Job,
    m: Seen,
    c: ConnectionState,
    result: Result<Output, Error>,
) -> bool {
    let todo = plan(port_for(p).target, job);
    let first = resets_first(job);
    &&& port_of(c) == port_for(p)
    &&& belongs(p, c)
    &&& m.link == (Link::Claimed { taken: c.kernel_driver_detached })
    &&& m.sent.len() == 0
    &&& m.resets == first
    &&& m.stage is Idle || (result is Err && (m.stage matches Stage::Sent(w) && sends(w)))
    &&& match m.failure {
        Some(x) => {
            &&& result == Err::<Output, Error>(x.error)
            &&& x.in_command && x.resets <= first
            &&& begins(m.told, todo.orders)
        },
        None => {
            &&& m.told == todo.orders
            &&& match todo.refusal {
                Some(e) => result == Err::<Output, Error>(e),
                None => result == Ok::<Output, Error>(given(todo.gives, m)),
            }
        },
    }
    &&& (job matches Job::Extension { cmd, data } && !receives(cmd) && result is Ok) ==> m.got
        == Seq::<u8>::empty()
}

#[verifier::spinoff_prover]
#[verifier::rlimit(40)]
proof fn lemma_recover_wire(
    p: PicobootState,
    job: Job,
    m: Seen,
    c: ConnectionState,
    was: bool,
    e: Error,
)
    requires
        was == p.connection is Some,
        came_to(p, job, m, c, Err(e)),
        !(job is Erase && m.failure is Some && m.told.len() == 0),
    ensures
        keeps(recover(c, was, e), m, protocol(port_for(p), job_seen(p, job))),
{
    let first = protocol(port_for(p), upkept(c, m));
    let rule = protocol(port_for(p), job_seen(p, job));
    law_reset_wire(c, m);
    assert forall|k: Seen, end: Ended| #[trigger] (first.ends)(k, end) implies keeps(
        recovered(was, e)(end),
        k,
        rule,
    ) by {
        reveal(in_turn);
        reveal(seeing);
        reveal_with_fuel(keeps, 2);
    }
    lemma_bind_keeps(reset_interface_script(c), recovered(was, e), m, first, rule);
}

#[verifier::spinoff_prover]
#[verifier::rlimit(40)]
proof fn lemma_end_wire(p: PicobootState, job: Job, m: Seen, was: bool, end: Ended)
    requires
        was == p.connection is Some,
        came_to(p, job, m, end.conn, end.result),
        !(job is Erase && m.failure is Some && m.told.len() == 0),
    ensures
        !(job is Reboot) && !(job is Extension) ==> keeps(
            kept_open(was)(end),
            m,
            protocol(port_for(p), job_seen(p, job)),
        ),
        job is Extension ==> keeps(
            as_before(was)(end),
            m,
            protocol(port_for(p), job_seen(p, job)),
        ),
        job is Reboot ==> keeps(
            rebooted(was)(end),
            m,
            protocol(port_for(p), job_seen(p, job)),
        ),
{
    match end.result {
        Err(e) => lemma_recover_wire(p, job, m, end.conn, was, e),
        Ok(_) => {
            reveal(in_turn);
            reveal(seeing);
            reveal_with_fuel(keeps, 2);
        },
    }
}

/// Whether a device can be told what an operation tells it, and can answer.
pub open spec fn tellable(c: ConnectionState, job: Job) -> bool {
    &&& c.in_ep_max_packet_size > 0
    &&& match job {
        Job::Read { addr, size, flash } => size != 0 ==> can_read(c, size as int),
        Job::Write { addr, buf, flash } => write_fits(addr, buf.len() as int) && buf.len()
            <= 0x1_0000_0000,
        Job::EraseWrite { addr, size, buf } => write_fits(addr, buf.len() as int) && buf.len()
            <= 0x1_0000_0000,
        Job::Extension { cmd, data } => receivable(c, cmd) && cmd.args.len() == 16,
        _ => true,
    }
}

/// The commands of an operation, all in one.
proof fn lemma_came_to(
    p: PicobootState,
    job: Job,
    c: ConnectionState,
    n: Seen,
    orders: Result<Seq<Told>, Error>,
    gives: Gives,
    m: Seen,
    end: Ended,
)
    requires
        performed(c, n, orders, gives)(m, end),
        at_rest(c, n),
        port_of(c) == port_for(p),
        belongs(p, c),
        n.resets == resets_first(job),
        !(job is Extension),
        ({
            let todo = plan(port_for(p).target, job);
            match orders {
                Ok(orders) => {
                    &&& todo.orders == n.told + orders
                    &&& todo.refusal is None
                    &&& todo.gives == gives
                },
                Err(e) => todo.orders == n.told && todo.refusal == Some(e),
            }
        }),
    ensures
        came_to(p, job, m, end.conn, end.result),
{
    if let Ok(orders) = orders {
        if m.failure is Some {
            let k = m.told.len() - n.told.len();
            assert((n.told + orders).take(m.told.len() as int) =~= n.told + orders.take(k));
        }
    }
}

/// An operation that is one operation of the connection, and stays connected.
proof fn lemma_single_wire(
    p: PicobootState,
    job: Job,
    c: ConnectionState,
    n: Seen,
    s: Script<Ended>,
    orders: Result<Seq<Told>, Error>,
    gives: Gives,
    was: bool,
)
    requires
        was == p.connection is Some,
        keeps(s, n, protocol(port_of(c), performed(c, n, orders, gives))),
        at_rest(c, n),
        port_of(c) == port_for(p),
        belongs(p, c),
        n.resets == resets_first(job),
        n.told.len() > 0 || !(job is Erase),
        !(job is Extension),
        !(job is Reboot),
        ({
            let todo = plan(port_for(p).target, job);
            match orders {
                Ok(orders) => {
                    &&& todo.orders == n.told + orders
                    &&& todo.refusal is None
                    &&& todo.gives == gives
                },
                Err(e) => todo.orders == n.told && todo.refusal == Some(e),
            }
        }),
    ensures
        keeps(bind(s, kept_open(was)), n, protocol(port_for(p), job_seen(p, job))),
{
    let first = protocol(port_of(c), performed(c, n, orders, gives));
    let rule = protocol(port_for(p), job_seen(p, job));
    assert forall|m: Seen, end: Ended| #[trigger] (first.ends)(m, end) implies keeps(
        kept_open(was)(end),
        m,
        rule,
    ) by {
        assert(performed(c, n, orders, gives)(m, end));
        lemma_came_to(p, job, c, n, orders, gives, m, end);
        lemma_end_wire(p, job, m, was, end);
    }
    lemma_bind_keeps(s, kept_open(was), n, first, rule);
}

/// What a device saw when the interface was reset at the start of an operation.
spec fn readied(p: PicobootState, c: ConnectionState, job: Job, n: Seen) -> bool {
    &&& at_rest(c, n)
    &&& port_of(c) == port_for(p)
    &&& belongs(p, c)
    &&& n.told == Seq::<Told>::empty()
    &&& n.resets == resets_first(job)
}

proof fn lemma_read_job_wire(
    p: PicobootState,
    c: ConnectionState,
    n: Seen,
    addr: u32,
    size: u32,
    flash: bool,
)
    requires
        readied(p, c, Job::Read { addr, size, flash }, n),
        tellable(c, Job::Read { addr, size, flash }),
    ensures
        keeps(
            job_after_reset(c, p.connection is Some, Job::Read { addr, size, flash }),
            n,
            protocol(port_for(p), job_seen(p, Job::Read { addr, size, flash })),
        ),
{
    let orders = read_orders(c.target, addr, size, flash);
    law_read_orders(c, n, addr, size, flash);
    if orders is Ok {
        assert(n.told + orders->Ok_0 =~= orders->Ok_0);
    }
    lemma_single_wire(
        p,
        Job::Read { addr, size, flash },
        c,
        n,
        query_script(c, read_cmd(c, addr, size, flash)),
        orders,
        Gives::Data,
        p.connection is Some,
    );
}

proof fn lemma_write_job_wire(
    p: PicobootState,
    c: ConnectionState,
    n: Seen,
    addr: u32,
    buf: Seq<u8>,
    flash: bool,
)
    requires
        readied(p, c, Job::Write { addr, buf, flash }, n),
        tellable(c, Job::Write { addr, buf, flash }),
    ensures
        keeps(
            job_after_reset(c, p.connection is Some, Job::Write { addr, buf, flash }),
            n,
            protocol(port_for(p), job_seen(p, Job::Write { addr, buf, flash })),
        ),
{
    let all = write_orders(addr as int, buf);
    let orders: Result<Seq<Told>, Error> = if flash && addr as int % 256 != 0 {
        Err(Error::PicobootWriteInvalidAddr(c.target, addr))
    } else {
        Ok(all)
    };
    law_write_orders(c, n, addr, buf);
    law_flash_write_orders(c, n, addr, buf);
    assert(n.told + all =~= all);
    lemma_single_wire(
        p,
        Job::Write { addr, buf, flash },
        c,
        n,
        if flash {
            flash_write_script(c, addr, buf)
        } else {
            write_script(c, addr, buf)
        },
        orders,
        Gives::Unit,
        p.connection is Some,
    );
}

proof fn lemma_erase_job_wire(p: PicobootState, c: ConnectionState, n: Seen, addr: u32, size: u32)
    requires
        readied(p, c, Job::Erase { addr, size }, n),
        tellable(c, Job::Erase { addr, size }),
    ensures
        keeps(
            job_after_reset(c, p.connection is Some, Job::Erase { addr, size }),
            n,
            protocol(port_for(p), job_seen(p, Job::Erase { addr, size })),
        ),
{
    let job = Job::Erase { addr, size };
    let was = p.connection is Some;
    let exit = one(order(0x06, 0, 0, 0, 0, 0, 0));
    let first = protocol(port_of(c), performed(c, n, Ok(exit), Gives::Unit));
    let rule = protocol(port_for(p), job_seen(p, job));
    law_xip_orders(c, n);
    assert forall|m: Seen, end: Ended| #[trigger] (first.ends)(m, end) implies keeps(
        xip_exited(was, addr, size)(end),
        m,
        rule,
    ) by {
        let d = end.conn;
        if end.result is Ok {
            let orders = erase_orders(d.target, addr, size);
            assert(m.told =~= exit);
            law_erase_orders(d, m, addr, size);
            lemma_single_wire(
                p,
                job,
                d,
                m,
                command_script(d, flash_erase_cmd(d, addr, size)),
                orders,
                Gives::Unit,
                was,
            );
        } else {
            assert(m.told.len() == 0);
            lemma_exit_failed(p, job, c, n, m, end, exit);
        }
    }
    lemma_bind_keeps(
        command_script(c, Ok(WireCmd::exit_xip())),
        xip_exited(was, addr, size),
        n,
        first,
        rule,
    );
}

/// EXIT_XIP was not acknowledged, so it is as if it was never told.
#[verifier::spinoff_prover]
#[verifier::rlimit(40)]
proof fn lemma_exit_failed(
    p: PicobootState,
    job: Job,
    c: ConnectionState,
    n: Seen,
    m: Seen,
    end: Ended,
    exit: Seq<Told>,
)
    requires
        job is Erase,
        readied(p, c, job, n),
        exit == one(order(0x06, 0, 0, 0, 0, 0, 0)),
        performed(c, n, Ok(exit), Gives::Unit)(m, end),
        end.result is Err,
        m.told.len() == 0,
    ensures
        keeps(
            give_up(end.conn, p.connection is Some, end.result->Err_0),
            m,
            protocol(port_for(p), job_seen(p, job)),
        ),
{
    let orders = plan(port_for(p).target, job).orders;
    assert(m.told =~= orders.take(0));
    reveal(in_turn);
    reveal(seeing);
    reveal_with_fuel(keeps, 2);
}

#[verifier::spinoff_prover]
#[verifier::rlimit(40)]
proof fn lemma_erase_write_job_wire(
    p: PicobootState,
    c: ConnectionState,
    n: Seen,
    addr: u32,
    size: u32,
    buf: Seq<u8>,
)
    requires
        readied(p, c, Job::EraseWrite { addr, size, buf }, n),
        tellable(c, Job::EraseWrite { addr, size, buf }),
    ensures
        keeps(
            job_after_reset(c, p.connection is Some, Job::EraseWrite { addr, size, buf }),
            n,
            protocol(port_for(p), job_seen(p, Job::EraseWrite { addr, size, buf })),
        ),
{
    let job = Job::EraseWrite { addr, size, buf };
    let was = p.connection is Some;
    let erase = erase_orders(c.target, addr, size);
    let first = protocol(port_of(c), performed(c, n, erase, Gives::Unit));
    let rule = protocol(port_for(p), job_seen(p, job));
    let todo = plan(port_for(p).target, job);
    law_erase_orders(c, n, addr, size);
    assert forall|m: Seen, end: Ended| #[trigger] (first.ends)(m, end) implies keeps(
        erased(was, addr, buf)(end),
        m,
        rule,
    ) by {
        let d = end.conn;
        if end.result is Ok {
            let all = write_orders(addr as int, buf);
            assert(m.told =~= erase->Ok_0);
            law_flash_write_orders(d, m, addr, buf);
            lemma_single_wire(
                p,
                job,
                d,
                m,
                flash_write_script(d, addr, buf),
                Ok(all),
                Gives::Unit,
                was,
            );
        } else {
            assert(m.failure is Some ==> begins(m.told, todo.orders)) by {
                if m.failure is Some {
                    let k = m.told.len() as int;
                    assert(m.told =~= erase->Ok_0.take(k));
                    assert(erase->Ok_0.take(k) =~= todo.orders.take(k));
                }
            }
            lemma_recover_wire(p, job, m, d, was, end.result->Err_0);
        }
    }
    lemma_bind_keeps(
        command_script(c, flash_erase_cmd(c, addr, size)),
        erased(was, addr, buf),
        n,
        first,
        rule,
    );
}

#[verifier::spinoff_prover]
#[verifier::rlimit(40)]
proof fn lemma_extension_job_wire(
    p: PicobootState,
    c: ConnectionState,
    n: Seen,
    cmd: WireCmd,
    data: Option<Seq<u8>>,
)
    requires
        readied(p, c, Job::Extension { cmd, data }, n),
        tellable(c, Job::Extension { cmd, data }),
    ensures
        keeps(
            job_after_reset(c, p.connection is Some, Job::Extension { cmd, data }),
            n,
            protocol(port_for(p), job_seen(p, Job::Extension { cmd, data })),
        ),
{
    let job = Job::Extension { cmd, data };
    let was = p.connection is Some;
    let missing = Error::PicobootXCmdDataMissing(c.target, cmd.cmd_id);
    let first = protocol(port_of(c), transacted(c.next(), n, cmd, data, missing));
    let rule = protocol(port_for(p), job_seen(p, job));
    let orders = plan(port_for(p).target, job).orders;
    law_send_picobootx_cmd_wire(c, n, cmd, data);
    assert forall|m: Seen, end: Ended| #[trigger] (first.ends)(m, end) implies keeps(
        as_before(was)(end),
        m,
        rule,
    ) by {
        if m.told.len() == 0 {
            assert(m.told =~= orders.take(0));
        } else {
            assert(m.told =~= orders);
        }
        lemma_end_wire(p, job, m, was, end);
    }
    lemma_bind_keeps(
        send_picobootx_cmd_script(c, cmd, data),
        as_before(was),
        n,
        first,
        rule,
    );
}

proof fn lemma_reboot_job_wire(
    p: PicobootState,
    c: ConnectionState,
    n: Seen,
    reboot_type: RebootType,
    delay: Duration,
)
    requires
        readied(p, c, Job::Reboot { target: c.target, reboot_type, delay }, n),
        c.in_ep_max_packet_size > 0,
    ensures
        keeps(
            job_on(c, p.connection is Some, Job::Reboot { target: c.target, reboot_type, delay }),
            n,
            protocol(
                port_for(p),
                job_seen(p, Job::Reboot { target: c.target, reboot_type, delay }),
            ),
        ),
{
    let job = Job::Reboot { target: c.target, reboot_type, delay };
    let was = p.connection is Some;
    let orders = reboot_type_orders(c.target, reboot_type, delay);
    let first = protocol(port_of(c), performed(c, n, orders, Gives::Unit));
    let rule = protocol(port_for(p), job_seen(p, job));
    law_reboot_type_orders(c, n, reboot_type, delay);
    if orders is Ok {
        assert(n.told + orders->Ok_0 =~= orders->Ok_0);
    }
    assert forall|m: Seen, end: Ended| #[trigger] (first.ends)(m, end) implies keeps(
        rebooted(was)(end),
        m,
        rule,
    ) by {
        assert(performed(c, n, orders, Gives::Unit)(m, end));
        lemma_came_to(p, job, c, n, orders, Gives::Unit, m, end);
        lemma_end_wire(p, job, m, was, end);
    }
    lemma_bind_keeps(
        command_script(c, reboot_type_cmd(c, c.target, reboot_type, delay)),
        rebooted(was),
        n,
        first,
        rule,
    );
}

proof fn lemma_job_after_reset_wire(p: PicobootState, c: ConnectionState, n: Seen, job: Job)
    requires
        readied(p, c, job, n),
        tellable(c, job),
        !(job is Connect),
        !(job is Reboot),
    ensures
        keeps(
            job_after_reset(c, p.connection is Some, job),
            n,
            protocol(port_for(p), job_seen(p, job)),
        ),
{
    match job {
        Job::Read { addr, size, flash } => lemma_read_job_wire(p, c, n, addr, size, flash),
        Job::Write { addr, buf, flash } => lemma_write_job_wire(p, c, n, addr, buf, flash),
        Job::Erase { addr, size } => lemma_erase_job_wire(p, c, n, addr, size),
        Job::EraseWrite { addr, size, buf } => lemma_erase_write_job_wire(
            p,
            c,
            n,
            addr,
            size,
            buf,
        ),
        Job::Extension { cmd, data } => lemma_extension_job_wire(p, c, n, cmd, data),
        _ => {},
    }
}

#[verifier::spinoff_prover]
#[verifier::rlimit(40)]
proof fn lemma_job_on_wire(p: PicobootState, c: ConnectionState, n: Seen, job: Job)
    requires
        at_rest(c, n),
        port_of(c) == port_for(p),
        belongs(p, c),
        n.told == Seq::<Told>::empty(),
        n.resets == 0,
        tellable(c, job),
        job matches Job::Reboot { target, reboot_type, delay } ==> target == c.target,
    ensures
        keeps(
            job_on(c, p.connection is Some, job),
            n,
            protocol(port_for(p), job_seen(p, job)),
        ),
{
    let was = p.connection is Some;
    let rule = protocol(port_for(p), job_seen(p, job));
    match job {
        Job::Connect => {},
        Job::Reboot { target, reboot_type, delay } => lemma_reboot_job_wire(
            p,
            c,
            n,
            reboot_type,
            delay,
        ),
        _ => {
            let first = protocol(port_of(c), upkept(c, n));
            law_reset_wire(c, n);
            assert forall|m: Seen, end: Ended| #[trigger] (first.ends)(m, end) implies keeps(
                reset_done(was, job)(end),
                m,
                rule,
            ) by {
                if end.result is Ok {
                    lemma_job_after_reset_wire(p, c, m, job);
                } else {
                    let orders = plan(port_for(p).target, job).orders;
                    assert(m.told =~= orders.take(0));
                    reveal(in_turn);
                    reveal(seeing);
                    reveal_with_fuel(keeps, 2);
                }
            }
            lemma_bind_keeps(reset_interface_script(c), reset_done(was, job), n, first, rule);
        },
    }
}

/// Whether an operation can be told on the device's connection, or on a new one.
pub open spec fn device_tellable(p: PicobootState, job: Job) -> bool {
    &&& tellable(p.start(), job)
    &&& job matches Job::Reboot { target, reboot_type, delay } ==> target == port_for(p).target
}

/// Law: every operation of a device connects if it has to, resets the interface
/// first if it is not a reboot, and then tells the device what its plan says: just
/// the commands, in this order, with just their data.  It succeeds if nothing goes
/// wrong and it is not refused.  It fails with the error of what went wrong first,
/// tells the device nothing after that, and tries to reset the interface.  The
/// connection stays as it was if it fails, and as the operation says if it
/// succeeds.
#[verifier::spinoff_prover]
#[verifier::rlimit(40)]
pub proof fn law_job_wire(p: PicobootState, job: Job)
    requires
        device_tellable(p, job),
    ensures
        keeps(job_script(p, job), begun(p), protocol(port_for(p), job_seen(p, job))),
{
    let was = p.connection is Some;
    let first = protocol(port_for(p), connect_seen(p));
    let rule = protocol(port_for(p), job_seen(p, job));
    law_connect_wire(p);
    assert forall|m: Seen, f: Finished| #[trigger] (first.ends)(m, f) implies keeps(
        connected(was, job)(f),
        m,
        rule,
    ) by {
        if f.result is Ok {
            let c = f.connection->0;
            assert(tellable(c, job));
            lemma_job_on_wire(p, c, m, job);
        } else {
            let orders = plan(port_for(p).target, job).orders;
            assert(m.told =~= orders.take(0));
        }
    }
    lemma_bind_keeps(connect_script(p), connected(was, job), begun(p), first, rule);
}

/// The least whole number of sectors.
proof fn lemma_sectors(len: int, whole: int)
    requires
        0 <= len,
        whole % 4096 == 0,
        len <= whole < len + 4096,
    ensures
        round_up(len, 4096) == whole,
{
}

/// Law: how an operation of a device ends, with whatever follows from it.
#[verifier::spinoff_prover]
#[verifier::rlimit(40)]
pub proof fn law_job_ends(p: PicobootState, job: Job, good: spec_fn(Seen, Finished) -> bool)
    requires
        device_tellable(p, job),
        forall|m: Seen, f: Finished|
            ({
                let was = p.connection is Some;
                let todo = plan(port_for(p).target, job);
                let first: nat = if job is Connect || job is Reboot {
                    0
                } else {
                    1
                };
                &&& f.result is Err ==> f.connection is Some == was
                &&& f.result is Ok ==> f.connection is Some == (match job {
                    Job::Reboot { .. } => false,
                    Job::Extension { .. } => was,
                    _ => true,
                })
                &&& m.link is Claimed <==> f.connection is Some
                &&& m.failure is None && todo.refusal is None ==> {
                    &&& f.result == Ok::<Output, Error>(
                        match todo.gives {
                            Gives::Unit => Output::Unit,
                            Gives::Data => Output::Bytes(m.got),
                        },
                    )
                    &&& m.told == todo.orders
                    &&& m.resets == first
                }
                &&& m.failure is None && todo.refusal is Some ==> {
                    &&& f.result == Err::<Output, Error>(todo.refusal->0)
                    &&& m.told == todo.orders
                    &&& m.resets == first + 1
                }
                &&& (m.failure is Some && m.failure->0.resets <= first) ==> {
                    &&& f.result == Err::<Output, Error>(m.failure->0.error)
                    &&& m.told.len() <= todo.orders.len()
                    &&& m.told == todo.orders.take(m.told.len() as int)
                }
                &&& (m.failure is Some && m.failure->0.resets <= first && m.failure->0.in_command
                    && !(job is Erase && m.told.len() == 0)) ==> m.resets == first + 1
            }) ==> #[trigger] good(m, f),
    ensures
        keeps(job_script(p, job), begun(p), protocol(port_for(p), good)),
{
    law_job_wire(p, job);
    lemma_keeps_weaker(
        job_script(p, job),
        begun(p),
        protocol(port_for(p), job_seen(p, job)),
        protocol(port_for(p), good),
    );
}

/// Law: a read tells the device one READ command, unless it is of flash and not of
/// whole pages, and gives back the data.
pub proof fn law_read_plans(t: Target, addr: u32, size: u32)
    ensures
        plan(t, Job::Read { addr, size, flash: false }) == (Plan {
            orders: seq![
                Told { cmd: order(0x84, 8, size, addr, size, 0, 0), data: Seq::empty() },
            ],
            refusal: None,
            gives: Gives::Data,
        }),
        addr as int % 256 == 0 && size as int % 256 == 0 ==> plan(
            t,
            Job::Read { addr, size, flash: true },
        ) == plan(t, Job::Read { addr, size, flash: false }),
        addr as int % 256 != 0 ==> plan(t, Job::Read { addr, size, flash: true }) == (Plan {
            orders: Seq::empty(),
            refusal: Some(Error::PicobootReadInvalidAddr(t, addr)),
            gives: Gives::Data,
        }),
        addr as int % 256 == 0 && size as int % 256 != 0 ==> plan(
            t,
            Job::Read { addr, size, flash: true },
        ) == (Plan {
            orders: Seq::empty(),
            refusal: Some(Error::PicobootReadInvalidSize(t, size)),
            gives: Gives::Data,
        }),
{
}

/// Law: a write tells the device the WRITE commands of its pages, unless it is to
/// flash and not from the start of a page.
pub proof fn law_write_plans(t: Target, addr: u32, buf: Seq<u8>)
    ensures
        plan(t, Job::Write { addr, buf, flash: false }) == (Plan {
            orders: write_orders(addr as int, buf),
            refusal: None,
            gives: Gives::Unit,
        }),
        addr as int % 256 == 0 ==> plan(t, Job::Write { addr, buf, flash: true }) == plan(
            t,
            Job::Write { addr, buf, flash: false },
        ),
        addr as int % 256 != 0 ==> plan(t, Job::Write { addr, buf, flash: true }) == (Plan {
            orders: Seq::empty(),
            refusal: Some(Error::PicobootWriteInvalidAddr(t, addr)),
            gives: Gives::Unit,
        }),
{
}

/// Law: page `i` of a write goes to the address 256 * `i` bytes on, with the bytes
/// of that page; there is one for every page that the buffer begins, and all pages
/// together are the buffer.
pub proof fn law_write_pages(addr: int, buf: Seq<u8>, i: int)
    ensures
        (write_orders(addr, buf).len() - 1) * 256 < buf.len() <= write_orders(addr, buf).len()
            * 256,
        0 <= i < write_orders(addr, buf).len() ==> {
            let data = buf.subrange(
                256 * i,
                if 256 * i + 256 <= buf.len() {
                    256 * i + 256
                } else {
                    buf.len() as int
                },
            );
            let len = data.len() as u32;
            write_orders(addr, buf)[i] == (Told {
                cmd: order(0x05, 8, len, (addr + 256 * i) as u32, len, 0, 0),
                data,
            })
        },
    decreases buf.len(),
{
    if buf.len() == 0 {
    } else if buf.len() <= 256 {
        assert(buf.subrange(0, buf.len() as int) =~= buf);
    } else {
        law_write_pages(addr + 256, buf.skip(256), i - 1);
        if i == 0 {
            assert(buf.take(256) =~= buf.subrange(0, 256));
        } else if 0 < i < write_orders(addr, buf).len() {
            let rest = buf.skip(256);
            let end = if 256 * i + 256 <= buf.len() {
                256 * i + 256
            } else {
                buf.len() as int
            };
            assert(rest.subrange(256 * (i - 1), end - 256) =~= buf.subrange(256 * i, end));
            assert(write_orders(addr, buf)[i] == write_orders(addr + 256, rest)[i - 1]);
        }
    }
}

/// Law: an erase tells the device to leave XIP mode, and then, if it is of whole
/// sectors, to erase them.
pub proof fn law_erase_plans(t: Target, addr: u32, size: u32)
    ensures
        addr as int % 4096 == 0 && size as int % 4096 == 0 ==> plan(t, Job::Erase { addr, size })
            == (Plan {
            orders: seq![
                Told { cmd: order(0x06, 0, 0, 0, 0, 0, 0), data: Seq::empty() },
                Told { cmd: order(0x03, 8, 0, addr, size, 0, 0), data: Seq::empty() },
            ],
            refusal: None,
            gives: Gives::Unit,
        }),
        addr as int % 4096 != 0 ==> plan(t, Job::Erase { addr, size }) == (Plan {
            orders: seq![Told { cmd: order(0x06, 0, 0, 0, 0, 0, 0), data: Seq::empty() }],
            refusal: Some(Error::PicobootEraseInvalidAddr(t, addr)),
            gives: Gives::Unit,
        }),
        addr as int % 4096 == 0 && size as int % 4096 != 0 ==> plan(t, Job::Erase { addr, size })
            == (Plan {
            orders: seq![Told { cmd: order(0x06, 0, 0, 0, 0, 0, 0), data: Seq::empty() }],
            refusal: Some(Error::PicobootEraseInvalidSize(t, size)),
            gives: Gives::Unit,
        }),
{
    let todo = plan(t, Job::Erase { addr, size });
    if addr as int % 4096 == 0 && size as int % 4096 == 0 {
        assert(todo.orders =~= seq![
            Told { cmd: order(0x06, 0, 0, 0, 0, 0, 0), data: Seq::empty() },
            Told { cmd: order(0x03, 8, 0, addr, size, 0, 0), data: Seq::empty() },
        ]);
    }
}

/// Law: a reboot tells an RP2040 to boot from flash after `ms` milliseconds, with
/// the stack at the end of its RAM, and all others to boot normally, or to come
/// back in BOOTSEL mode with an interface left out for each bit.
pub proof fn law_reboot_plans(
    t: Target,
    delay: Duration,
    ms: int,
    disable_msd: bool,
    disable_picoboot: bool,
)
    requires
        ms * 1_000_000 <= delay@ < (ms + 1) * 1_000_000,
    ensures
        ({
            let normal = plan(
                t,
                Job::Reboot { target: t, reboot_type: RebootType::Normal, delay },
            );
            let bootsel = plan(
                t,
                Job::Reboot {
                    target: t,
                    reboot_type: RebootType::Bootsel { disable_msd, disable_picoboot },
                    delay,
                },
            );
            let late = Plan {
                orders: Seq::empty(),
                refusal: Some(Error::PicobootInvalidDuration(t, delay)),
                gives: Gives::Unit,
            };
            &&& t is Rp2040 && ms <= u32::MAX ==> normal == (Plan {
                orders: seq![
                    Told {
                        cmd: order(0x02, 12, 0, 0, 0x2004_2000, ms as u32, 0),
                        data: Seq::empty(),
                    },
                ],
                refusal: None,
                gives: Gives::Unit,
            })
            &&& !(t is Rp2040) && ms <= u32::MAX ==> normal == (Plan {
                orders: seq![
                    Told { cmd: order(0x0a, 16, 0, 0, ms as u32, 0, 0), data: Seq::empty() },
                ],
                refusal: None,
                gives: Gives::Unit,
            })
            &&& ms > u32::MAX ==> normal == late
            &&& t is Rp2040 ==> bootsel == (Plan {
                orders: Seq::empty(),
                refusal: Some(
                    Error::PicobootCmdNotAllowedForTarget(t, PicobootCmdId::Reboot2),
                ),
                gives: Gives::Unit,
            })
            &&& !(t is Rp2040) && ms > u32::MAX ==> bootsel == late
            &&& !(t is Rp2040) && ms <= u32::MAX ==> bootsel == (Plan {
                orders: seq![
                    Told {
                        cmd: order(
                            0x0a,
                            16,
                            0,
                            2,
                            ms as u32,
                            if disable_msd && disable_picoboot {
                                3
                            } else if disable_msd {
                                1
                            } else if disable_picoboot {
                                2
                            } else {
                                0
                            },
                            0,
                        ),
                        data: Seq::empty(),
                    },
                ],
                refusal: None,
                gives: Gives::Unit,
            })
        }),
{
    assert(delay@ as int / 1_000_000 == ms);
}

/// Law: an extension command is told as it is, with the data that was given if it
/// sends any, and gives back what the device sends; it is refused if it sends data
/// and none was given.
pub proof fn law_extension_plans(t: Target, cmd: WireCmd, data: Seq<u8>)
    ensures
        cmd.transfer_len != 0 && cmd.cmd_id < 0x80 ==> plan(
            t,
            Job::Extension { cmd, data: Some(data) },
        ) == (Plan {
            orders: seq![Told { cmd: WireCmd { token: 0, ..cmd }, data }],
            refusal: None,
            gives: Gives::Data,
        }),
        cmd.transfer_len != 0 && cmd.cmd_id < 0x80 ==> plan(t, Job::Extension { cmd, data: None })
            == (Plan {
            orders: Seq::empty(),
            refusal: Some(Error::PicobootXCmdDataMissing(t, cmd.cmd_id)),
            gives: Gives::Data,
        }),
        cmd.transfer_len == 0 || cmd.cmd_id >= 0x80 ==> plan(
            t,
            Job::Extension { cmd, data: None },
        ) == (Plan {
            orders: seq![Told { cmd: WireCmd { token: 0, ..cmd }, data: Seq::empty() }],
            refusal: None,
            gives: Gives::Data,
        }),
        cmd.transfer_len == 0 || cmd.cmd_id >= 0x80 ==> plan(
            t,
            Job::Extension { cmd, data: Some(data) },
        ) == plan(t, Job::Extension { cmd, data: None }),
{
}

/// Law: what the commands of PICOBOOT hold.
pub proof fn law_commands(a: u32, b: u32, c: u32, d: u32, mode: u8)
    ensures
        WireCmd::exclusive_access(mode) == order(0x01, 1, 0, mode as u32, 0, 0, 0),
        WireCmd::reboot(a, b, c) == order(0x02, 12, 0, a, b, c, 0),
        WireCmd::reboot2(a, b, c, d) == order(0x0a, 16, 0, a, d, b, c),
        WireCmd::flash_erase(a, b) == order(0x03, 8, 0, a, b, 0, 0),
        WireCmd::flash_write(a, b) == order(0x05, 8, b, a, b, 0, 0),
        WireCmd::flash_read(a, b) == order(0x84, 8, b, a, b, 0, 0),
        WireCmd::enter_xip() == order(0x07, 0, 0, 0, 0, 0, 0),
        WireCmd::exit_xip() == order(0x06, 0, 0, 0, 0, 0, 0),
        order(mode, mode, a, b, c, d, a) == (WireCmd {
            magic: 0x431f_d10b,
            token: 0,
            cmd_id: mode,
            cmd_size: mode,
            unused: 0,
            transfer_len: a,
            args: le32(b) + le32(c) + le32(d) + le32(a),
        }),
{
    lemma_words();
    assert(WireCmd::exclusive_access(mode).args =~= le32(mode as u32) + le32(0) + le32(0) + le32(
        0,
    ));
}

/// Law: a new command holds just what it is given, and no token.
pub proof fn law_new_command(
    id: PicobootCmdId,
    cmd_size: u8,
    transfer_len: u32,
    args: Seq<u8>,
    token: u32,
)
    ensures
        WireCmd::of(id, cmd_size, transfer_len, args) == (WireCmd {
            magic: 0x431f_d10b,
            token: 0,
            cmd_id: id.code_of(),
            cmd_size,
            unused: 0,
            transfer_len,
            args,
        }),
        WireCmd::of(id, cmd_size, transfer_len, args).with_token(token) == (WireCmd {
            magic: 0x431f_d10b,
            token,
            cmd_id: id.code_of(),
            cmd_size,
            unused: 0,
            transfer_len,
            args,
        }),
{
}

/// Law: a device is reached through its interface, with its timeouts, unless it is
/// connected already, and then through its connection.
pub proof fn law_ports(p: PicobootState)
    ensures
        p.connection is None ==> port_for(p) == (Port {
            target: p.target,
            if_num: p.interface.if_num,
            out_ep: p.interface.out_ep,
            in_ep: p.interface.in_ep,
            packet: p.interface.in_ep_max_packet_size,
            timeouts: p.timeouts,
        }),
        p.connection matches Some(c) ==> port_for(p) == (Port {
            target: c.target,
            if_num: c.if_num,
            out_ep: c.out_ep,
            in_ep: c.in_ep,
            packet: c.in_ep_max_packet_size,
            timeouts: c.timeouts,
        }),
{
}

/// Law: an operation is within the limits if it can be told, and tokens are left
/// for its commands: one for every page of a write, and two more.
pub proof fn law_job_limits(c: ConnectionState, job: Job, pages: int)
    requires
        tellable(c, job),
        job matches Job::Write { addr, buf, flash } ==> (pages - 1) * 256 < buf.len() <= pages * 256,
        job matches Job::EraseWrite { addr, size, buf } ==> {
            &&& (pages - 1) * 256 < buf.len() <= pages * 256
            &&& addr as int % 4096 == 0 && size as int % 4096 == 0
        },
        0 <= pages,
        c.cmd_token + pages + 2 <= u32::MAX,
    ensures
        job_fits(c, job),
{
}

/// Law: the sectors for a size can be counted if and only if the size is no `u32`,
/// or at most the largest `u32` that is whole sectors.
pub proof fn law_sector_limits(size: usize)
    ensures
        erase_size_fits(size) <==> size > 0xffff_ffff || size <= 0xffff_f000,
{
}

/// Law: an erase and write from the start of a sector is refused only if its length
/// is no `u32`, and erases the fewest whole sectors that hold the buffer, `whole`
/// bytes of them.
pub proof fn law_erase_and_write_covers(p: PicobootState, addr: u32, buf: Seq<u8>, whole: int)
    requires
        buf.len() <= u32::MAX,
        whole % 4096 == 0,
        buf.len() <= whole < buf.len() + 4096,
        whole <= u32::MAX,
        addr as int % 4096 == 0,
    ensures
        flash_erase_and_write_script(p, addr, buf) == job_script(
            p,
            Job::EraseWrite { addr, size: whole as u32, buf },
        ),
{
    lemma_sectors(buf.len() as int, whole);
    assert(erase_size(p.target, buf.len() as usize) == Ok::<u32, Error>(whole as u32));
}

/// Law: an erase and write from the start of a sector has the device erase the
/// fewest whole sectors that hold the buffer, `whole` bytes of them, and then store
/// the buffer from the same address on, a page at a time.
#[verifier::spinoff_prover]
#[verifier::rlimit(40)]
pub proof fn law_erase_and_write_orders(p: PicobootState, addr: u32, buf: Seq<u8>, whole: int)
    requires
        buf.len() <= u32::MAX,
        whole % 4096 == 0,
        buf.len() <= whole < buf.len() + 4096,
        whole <= u32::MAX,
        addr as int % 4096 == 0,
        write_fits(addr, buf.len() as int),
        p.start().in_ep_max_packet_size > 0,
    ensures
        keeps(
            flash_erase_and_write_script(p, addr, buf),
            begun(p),
            protocol(
                port_for(p),
                job_seen(p, Job::EraseWrite { addr, size: whole as u32, buf }),
            ),
        ),
        plan(port_for(p).target, Job::EraseWrite { addr, size: whole as u32, buf }) == (Plan {
            orders: seq![
                Told { cmd: order(0x03, 8, 0, addr, whole as u32, 0, 0), data: Seq::empty() },
            ] + write_orders(addr as int, buf),
            refusal: None,
            gives: Gives::Unit,
        }),
{
    law_erase_and_write_covers(p, addr, buf, whole);
    law_job_wire(p, Job::EraseWrite { addr, size: whole as u32, buf });
}

/// Law: an erase and write is refused for an address that is not on a sector, and
/// for a length that is no `u32`, with nothing sent, not even to connect.
#[verifier::spinoff_prover]
#[verifier::rlimit(40)]
pub proof fn law_erase_and_write_refusals(p: PicobootState, addr: u32, buf: Seq<u8>)
    requires
        buf.len() <= usize::MAX,
    ensures
        addr as int % 4096 != 0 ==> flash_erase_and_write_script(p, addr, buf) == finished(
            p.connection,
            Err(Error::PicobootEraseInvalidAddr(p.target, addr)),
        ),
        addr as int % 4096 == 0 && buf.len() > u32::MAX ==> flash_erase_and_write_script(
            p,
            addr,
            buf,
        ) == finished(
            p.connection,
            Err(
                Error::PicobootEraseInvalidSize(
                    p.target,
                    (buf.len() as int % 0x1_0000_0000) as u32,
                ),
            ),
        ),
{
}

// ----- the reader -----

/// A reader is ready, or what went wrong is what is reported and the connection is
/// closed.
pub open spec fn reader_ready(p: PicobootState) -> spec_fn(Seen, Finished) -> bool {
    |m: Seen, f: Finished|
        {
            &&& m.told == Seq::<Told>::empty()
            &&& match m.failure {
                Some(x) => {
                    &&& f.result == Err::<Output, Error>(x.error)
                    &&& f.connection is None
                    &&& m.link is Closed
                    &&& m.resets == x.resets
                },
                None => {
                    &&& f.result == Ok::<Output, Error>(Output::Unit)
                    &&& f.connection matches Some(c) && belongs(p, c)
                    &&& m.resets == 2 && m.stage is AskIn
                },
            }
        }
}

/// Law: a reader connects, resets the interface and asks for the status of the
/// last command.  It tells the device nothing else.
#[verifier::spinoff_prover]
#[verifier::rlimit(40)]
pub proof fn law_reader_open_wire(p: PicobootState)
    ensures
        keeps(open_script(p), begun(p), protocol(port_for(p), reader_ready(p))),
{
    let first = protocol(port_for(p), connect_seen(p));
    let rule = protocol(port_for(p), reader_ready(p));
    law_connect_wire(p);
    assert forall|m: Seen, f: Finished| #[trigger] (first.ends)(m, f) implies keeps(
        reader_connected()(f),
        m,
        rule,
    ) by {
        if f.result is Ok {
            let c = f.connection->0;
            let reset = protocol(port_for(p), upkept(c, m));
            law_reset_wire(c, m);
            assert forall|k: Seen, end: Ended| #[trigger] (reset.ends)(k, end) implies keeps(
                reader_reset()(end),
                k,
                rule,
            ) by {
                if end.result is Ok {
                    lemma_status_wire(c, k);
                    lemma_bind_keeps(
                        get_command_status_script(c),
                        reader_opened(),
                        k,
                        protocol(port_for(p), status_known(c, k)),
                        rule,
                    );
                } else {
                    reveal(in_turn);
                    reveal(seeing);
                    reveal_with_fuel(keeps, 2);
                }
            }
            lemma_bind_keeps(reset_interface_script(c), reader_reset(), m, reset, rule);
        }
    }
    lemma_bind_keeps(connect_script(p), reader_connected(), begun(p), first, rule);
}

/// Law: a reader whose read failed reports why, unless the reset that follows
/// fails too, whose error it reports then; it stays connected.
pub proof fn law_reader_reports(e: Error, end: Ended)
    ensures
        end.result is Ok ==> reader_recovered(e)(end) == finished(Some(end.conn), Err(e)),
        end.result matches Err(reset) ==> reader_recovered(e)(end) == finished(
            Some(end.conn),
            Err(reset),
        ),
{
}

/// A read of a reader ended: with the data, or with what went wrong, which is the
/// reset if that went wrong too.
pub open spec fn reader_read_seen(c: ConnectionState, n: Seen, w: WireCmd) -> spec_fn(
    Seen,
    Finished,
) -> bool {
    |m: Seen, f: Finished|
        {
            &&& f.connection matches Some(d) && d.same_link(c)
            &&& m.link == n.link
            &&& m.stage is Idle
            &&& match m.failure {
                None => {
                    &&& f.result == Ok::<Output, Error>(Output::Bytes(m.got))
                    &&& m.told == n.told + one(w)
                    &&& m.resets == n.resets
                },
                Some(x) => f.result is Err && m.told == n.told && m.resets == n.resets + 1,
            }
        }
}

/// Whether `size` bytes from `start` on are those to read for `len` bytes from
/// `addr` on: of flash the fewest whole pages that hold them, of other memory just
/// those bytes.
pub open spec fn to_read(addr: u32, len: int, start: int, size: int) -> bool {
    if 0x1000_0000 <= addr <= 0x1fff_ffff {
        &&& start % 256 == 0 && start <= addr < start + 256
        &&& size % 256 == 0 && addr + len <= start + size < addr + len + 256
    } else {
        start == addr && size == len
    }
}

/// Law: a reader reads the bytes that are to be read, and finds those asked for
/// where they start in them.
#[verifier::spinoff_prover]
#[verifier::rlimit(40)]
pub proof fn law_read_plan(addr: u32, len: int, start: int, size: int)
    requires
        0 <= len,
        0 <= size <= u32::MAX,
        to_read(addr, len, start, size),
    ensures
        read_plan(addr, len) == (ReadPlan {
            addr: start as u32,
            size: size as u32,
            offset: (addr - start) as usize,
        }),
{
    if 0x1000_0000 <= addr <= 0x1fff_ffff {
        let offset = addr as int % 256;
        assert(start == addr - offset);
        assert((offset + len + 255) / 256 * 256 == size);
    }
}

/// Law: a read of a reader tells the device one READ command, for the bytes that
/// are to be read.
#[verifier::spinoff_prover]
#[verifier::rlimit(40)]
pub proof fn law_reader_read_orders(
    c: ConnectionState,
    n: Seen,
    addr: u32,
    len: int,
    start: int,
    size: int,
)
    requires
        at_rest(c, n),
        0 <= len,
        0 <= size <= u32::MAX,
        size != 0 ==> can_read(c, size),
        to_read(addr, len, start, size),
    ensures
        keeps(
            reader_read_script(c, addr, len),
            n,
            protocol(
                port_of(c),
                reader_read_seen(
                    c,
                    n,
                    order(0x84, 8, size as u32, start as u32, size as u32, 0, 0),
                ),
            ),
        ),
{
    law_read_plan(addr, len, start, size);
    lemma_words();
    let cmd = WireCmd::flash_read(start as u32, size as u32);
    assert(cmd.with_token(0) == order(0x84, 8, size as u32, start as u32, size as u32, 0, 0));
    assert(reader_cmd(addr, len) == cmd);
    lemma_reader_read_wire(c, n, cmd);
}

#[verifier::spinoff_prover]
#[verifier::rlimit(40)]
proof fn lemma_reader_read_wire(c: ConnectionState, n: Seen, cmd: WireCmd)
    requires
        at_rest(c, n),
        receivable(c, cmd),
        cmd.args.len() == 16,
        !sends(cmd),
    ensures
        keeps(
            bind(query_script(c, Ok(cmd)), reader_read()),
            n,
            protocol(port_of(c), reader_read_seen(c, n, cmd.with_token(0))),
        ),
{
    let w = cmd.with_token(0);
    let rule = protocol(port_of(c), reader_read_seen(c, n, w));
    let first = protocol(port_of(c), performed(c, n, Ok(one(w)), Gives::Data));
    law_query_wire(c, n, Ok(cmd));
    assert forall|m: Seen, end: Ended| #[trigger] (first.ends)(m, end) implies keeps(
        reader_read()(end),
        m,
        rule,
    ) by {
        if let Err(e) = end.result {
            let reset = protocol(port_of(c), upkept(end.conn, m));
            assert(m.told =~= n.told);
            law_reset_wire(end.conn, m);
            lemma_bind_keeps(
                reset_interface_script(end.conn),
                reader_recovered(e),
                m,
                reset,
                rule,
            );
        }
    }
    lemma_bind_keeps(query_script(c, Ok(cmd)), reader_read(), n, first, rule);
}

} // verus!
