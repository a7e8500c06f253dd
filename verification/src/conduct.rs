//! What holds of every operation, however the device answers.

use vstd::prelude::*;

use crate::cmd::{
    cmd_at, cmd_bytes, cmd_id_of, law_cmd_round_trip, WireCmd, ARGS_SIZE, COMMAND_SIZE,
};
use crate::connection::{
    acknowledge, bulk_in, can_exchange, can_read, can_send, can_write, chunk, chunk_addr, chunks,
    command_script, command_status_action, endpoint_status_action, erase_size, exchange,
    flash_erase_cmd, flash_write_script, get_command_status_script, left_of, lemma_round_up,
    lemma_write_from, lemma_write_on, query_script, received, reports_halt, reset_action, reset_in,
    reset_interface_script, reset_out, reset_request, reset_status_known, send_cmd_script,
    send_picobootx_cmd_script, to_unit, transfer, write_from, write_on, write_script,
    ConnectionState, Ended,
};
use crate::error::Error;
use crate::picoboot::{
    as_before, connect_script, connected, disconnect, erase_write_fits, erased,
    flash_erase_and_write_script, give_up, job_after_reset, job_fits, job_on, job_script, kept_open,
    lemma_fits_fresh, read_cmd, reboot_type_cmd, rebooted, recover, recovered, reset_done,
    xip_exited, Finished, Job, PicobootState,
};
use crate::reader::{
    open_script, reader_cmd, reader_connected, reader_opened, reader_read, reader_read_script,
    reader_recovered, reader_reset,
};
use crate::script::{
    answers, bind, keeps, lemma_bind_keeps, lemma_keeps_weaker, Action, Answer, Output, Rule,
    Script,
};
use crate::target::{Direction, FLASH_PAGE_SIZE, FLASH_SECTOR_SIZE};

verus! {

/// What happened so far in an operation.
pub struct Note {
    /// The endpoint the device just said is halted
    pub halted: Option<u8>,
    /// Whether the interface was taken from the kernel's driver
    pub taken: bool,
    /// Whether the interface is claimed
    pub open: bool,
    /// The token of the next command
    pub token: int,
    /// Whether a command was sent whose data is to follow
    pub data_due: bool,
}

/// What all states of one connection have in common.
pub open spec fn link_of(c: ConnectionState) -> ConnectionState {
    ConnectionState { cmd_token: 0, kernel_driver_detached: false, ..c }
}

/// What an operation may ask for: transfers on a claimed interface only, to the
/// right endpoints, with the timeouts that were set, and in whole packets when
/// receiving.  Every command carries the next token, counted from 1 when the
/// interface is claimed.  A halt is cleared only if the device just reported it.
/// The interface goes back to the kernel's driver if and only if it was taken
/// from it.
pub open spec fn proper(link: ConnectionState) -> spec_fn(Note, Action) -> bool {
    |m: Note, action: Action|
        match action {
            Action::Open => !m.open,
            Action::DetachKernelDriver { if_num } => !m.open && if_num == link.if_num,
            Action::ClaimInterface { if_num } => !m.open && if_num == link.if_num,
            Action::ControlIn { control, timeout } => m.open && (action == command_status_action(
                link,
            ) || action == endpoint_status_action(link, link.in_ep) || action
                == endpoint_status_action(link, link.out_ep)),
            Action::ControlOut { control, timeout } => m.open && action == reset_action(link),
            Action::ClearHalt { endpoint, direction } => {
                &&& m.open
                &&& m.halted == Some(endpoint)
                &&& direction == Direction::In ==> endpoint == link.in_ep
                &&& direction == Direction::Out ==> endpoint == link.out_ep
            },
            Action::BulkOut { endpoint, data, timeout } => {
                &&& m.open
                &&& endpoint == link.out_ep
                &&& timeout == link.timeouts.endpoint
                &&& !m.data_due && data.len() == COMMAND_SIZE ==> cmd_at(data).token == m.token
            },
            Action::BulkIn { endpoint, len, timeout } => {
                &&& m.open
                &&& endpoint == link.in_ep
                &&& timeout == link.timeouts.endpoint
                &&& len > 0
                &&& len as int % link.in_ep_max_packet_size as int == 0
            },
            Action::Release { reattach } => {
                &&& m.open
                &&& reattach == (if m.taken {
                    Some(link.if_num)
                } else {
                    None
                })
            },
        }
}

/// What happened, after one more action and its answer.
pub open spec fn noted(link: ConnectionState) -> spec_fn(Note, Action, Answer) -> Note {
    |m: Note, action: Action, answer: Answer|
        Note {
            halted: if action == endpoint_status_action(link, link.in_ep) && reports_halt(answer) {
                Some(link.in_ep)
            } else if action == endpoint_status_action(link, link.out_ep) && reports_halt(answer) {
                Some(link.out_ep)
            } else {
                None
            },
            taken: match action {
                Action::DetachKernelDriver { .. } => answer->DetachKernelDriver_0 is Yes,
                _ => m.taken,
            },
            open: match action {
                Action::ClaimInterface { .. } => answer->ClaimInterface_0 is Ok,
                Action::Release { .. } => false,
                _ => m.open,
            },
            token: match action {
                Action::ClaimInterface { .. } => 1,
                Action::BulkOut { endpoint, data, timeout } => if !m.data_due && data.len()
                    == COMMAND_SIZE {
                    m.token + 1
                } else {
                    m.token
                },
                _ => m.token,
            },
            data_due: match action {
                Action::BulkOut { endpoint, data, timeout } => {
                    &&& !m.data_due
                    &&& data.len() == COMMAND_SIZE
                    &&& answer == Answer::BulkOut(Ok(COMMAND_SIZE))
                    &&& sends_data(cmd_at(data))
                },
                _ => false,
            },
        }
}

/// Whether data goes to the device with a command.
pub open spec fn sends_data(w: WireCmd) -> bool {
    w.transfer_len != 0 && w.direction() == Direction::Out
}

/// Whether a command sends data, and there is none.
pub open spec fn lacks_data(w: WireCmd, buf: Option<Seq<u8>>) -> bool {
    sends_data(w) && buf is None
}

/// The rule that every operation keeps to, with what holds at its end.
pub open spec fn conduct<R>(link: ConnectionState, ends: spec_fn(Note, R) -> bool) -> Rule<Note, R> {
    Rule { allows: proper(link), note: noted(link), ends }
}

/// What happened so far, on a connection in the state `c`.
pub open spec fn on_connection(c: ConnectionState, m: Note) -> bool {
    m.open && m.taken == c.kernel_driver_detached && m.token == c.cmd_token
}

/// What happened so far, when an operation of a connection starts.
pub open spec fn idle(c: ConnectionState, m: Note) -> bool {
    on_connection(c, m) && !m.data_due
}

/// An operation leaves the connection open, in the state `c`, and with data to
/// follow only if it is `lacking`, for which it fails.
pub open spec fn left_at(c: ConnectionState, lacking: bool) -> spec_fn(Note, Ended) -> bool {
    |m: Note, end: Ended|
        end.conn == c && on_connection(c, m) && (m.data_due ==> lacking && end.result is Err)
}

/// The rule for an operation that leaves the connection open, in the state `c`,
/// when its data may be `lacking`.
pub open spec fn leaving_if(c: ConnectionState, lacking: bool) -> Rule<Note, Ended> {
    conduct(link_of(c), left_at(c, lacking))
}

/// The rule for an operation that leaves the connection open, in the state `c`.
pub open spec fn leaving(c: ConnectionState) -> Rule<Note, Ended> {
    leaving_if(c, false)
}

/// Whole packets are a multiple of a packet.
proof fn lemma_whole_packets(c: ConnectionState, n: int)
    requires
        n > 0,
        can_read(c, n),
    ensures
        bulk_in(c, n)->BulkIn_len > 0,
        bulk_in(c, n)->BulkIn_len as int % c.in_ep_max_packet_size as int == 0,
{
    let unit = c.in_ep_max_packet_size as int;
    lemma_round_up(n, unit);
    let up = (n + unit - 1) / unit;
    vstd::arithmetic::div_mod::lemma_mod_multiples_basic(up, unit);
}

proof fn lemma_acknowledge(
    c: ConnectionState,
    direction: Direction,
    data: Seq<u8>,
    lacking: bool,
    m: Note,
)
    requires
        idle(c, m),
        direction == Direction::Out ==> can_read(c, 1),
    ensures
        keeps(acknowledge(c, direction, data), m, leaving_if(c, lacking)),
{
    reveal_with_fuel(keeps, 2);
    if direction == Direction::Out {
        lemma_whole_packets(c, 1);
    }
}

proof fn lemma_transfer(c: ConnectionState, w: WireCmd, missing: Error, buf: Option<Seq<u8>>, m: Note)
    requires
        on_connection(c, m),
        m.data_due == sends_data(w),
        can_exchange(c, w.direction(), w.transfer_len),
    ensures
        keeps(
            transfer(c, w.direction(), w.transfer_len, missing, buf),
            m,
            leaving_if(c, lacks_data(w, buf)),
        ),
{
    let direction = w.direction();
    let len = w.transfer_len;
    let lacking = lacks_data(w, buf);
    let rule = leaving_if(c, lacking);
    let s = transfer(c, direction, len, missing, buf);
    if direction == Direction::Out {
        lemma_round_up(1, c.in_ep_max_packet_size as int);
    }
    if len == 0 {
        lemma_acknowledge(c, direction, Seq::empty(), lacking, m);
    } else if s is Ask {
        if direction == Direction::In {
            lemma_whole_packets(c, len as int);
        }
        assert forall|answer: Answer| answers(answer, s->Ask_0) implies keeps(
            #[trigger] (s->Ask_1)(answer),
            (rule.note)(m, s->Ask_0, answer),
            rule,
        ) by {
            let n = (rule.note)(m, s->Ask_0, answer);
            if direction == Direction::In {
                let data = received(c, answer, len as int, true)->Ok_0;
                lemma_acknowledge(c, direction, data, lacking, n);
            } else {
                lemma_acknowledge(c, direction, Seq::empty(), lacking, n);
            }
        }
    }
}

/// A command is known by its bytes.
proof fn lemma_cmd_bytes(w: WireCmd)
    requires
        w.args.len() == ARGS_SIZE,
    ensures
        cmd_bytes(w).len() == COMMAND_SIZE,
        cmd_at(cmd_bytes(w)) == w,
{
    law_cmd_round_trip(w, Seq::empty());
    assert(cmd_bytes(w) + Seq::<u8>::empty() =~= cmd_bytes(w));
}

proof fn lemma_exchange(
    c: ConnectionState,
    w: WireCmd,
    missing: Error,
    buf: Option<Seq<u8>>,
    m: Note,
)
    requires
        idle(c, m),
        c.cmd_token < u32::MAX,
        w.args.len() == ARGS_SIZE,
        can_exchange(c, w.direction(), w.transfer_len),
    ensures
        keeps(
            exchange(c.next(), w.with_token(c.cmd_token), missing, buf),
            m,
            leaving_if(c.next(), lacks_data(w, buf)),
        ),
{
    let rule = leaving_if(c.next(), lacks_data(w, buf));
    let sent = w.with_token(c.cmd_token);
    let s = exchange(c.next(), sent, missing, buf);
    lemma_cmd_bytes(sent);
    assert forall|answer: Answer| answers(answer, s->Ask_0) implies keeps(
        #[trigger] (s->Ask_1)(answer),
        (rule.note)(m, s->Ask_0, answer),
        rule,
    ) by {
        let n = (rule.note)(m, s->Ask_0, answer);
        if answer == Answer::BulkOut(Ok(COMMAND_SIZE)) {
            lemma_transfer(c.next(), w, missing, buf, n);
        }
    }
}

/// Law: sending a command keeps to the rule, and takes one token, whatever
/// becomes of it.
pub proof fn law_send_cmd(c: ConnectionState, w: WireCmd, buf: Option<Seq<u8>>, m: Note)
    requires
        idle(c, m),
        can_send(c, w),
        w.args.len() == ARGS_SIZE,
    ensures
        keeps(send_cmd_script(c, w, buf), m, leaving_if(c.next(), lacks_data(w, buf))),
{
    let missing = Error::PicobootCmdDataMissing(c.target, cmd_id_of(w.cmd_id)->0);
    lemma_exchange(c, w, missing, buf, m);
}

/// Law: sending an extension command keeps to the rule, and takes one token,
/// whatever becomes of it.
pub proof fn law_send_picobootx_cmd(
    c: ConnectionState,
    w: WireCmd,
    buf: Option<Seq<u8>>,
    m: Note,
)
    requires
        idle(c, m),
        can_send(c, w),
        w.args.len() == ARGS_SIZE,
    ensures
        keeps(
            send_picobootx_cmd_script(c, w, buf),
            m,
            leaving_if(c.next(), lacks_data(w, buf)),
        ),
{
    let missing = Error::PicobootXCmdDataMissing(c.target, w.cmd_id);
    lemma_exchange(c, w, missing, buf, m);
}

/// The state after a command, or after it was refused beforehand.
pub open spec fn after_command(c: ConnectionState, w: Result<WireCmd, Error>) -> ConnectionState {
    if w is Ok {
        c.next()
    } else {
        c
    }
}

/// Whether a command without data lacks it.
pub open spec fn lacks_it(w: Result<WireCmd, Error>) -> bool {
    w matches Ok(w) && lacks_data(w, None)
}

/// Law: a command that gives nothing back keeps to the rule, and takes one token
/// unless it is refused beforehand.
pub proof fn law_command(c: ConnectionState, w: Result<WireCmd, Error>, m: Note)
    requires
        idle(c, m),
        w matches Ok(w) ==> can_send(c, w) && w.args.len() == ARGS_SIZE,
    ensures
        keeps(command_script(c, w), m, leaving_if(after_command(c, w), lacks_it(w))),
{
    if let Ok(cmd) = w {
        let rule = leaving_if(c.next(), lacks_it(w));
        law_send_cmd(c, cmd, None, m);
        lemma_bind_keeps(send_cmd_script(c, cmd, None), to_unit(), m, rule, rule);
    }
}

/// Law: a command that gives data back keeps to the rule, and takes one token
/// unless it is refused beforehand.
pub proof fn law_query(c: ConnectionState, w: Result<WireCmd, Error>, m: Note)
    requires
        idle(c, m),
        w matches Ok(w) ==> can_send(c, w) && w.args.len() == ARGS_SIZE,
    ensures
        keeps(query_script(c, w), m, leaving_if(after_command(c, w), lacks_it(w))),
{
    if let Ok(w) = w {
        law_send_cmd(c, w, None, m);
    }
}

proof fn lemma_reset_request(c: ConnectionState, m: Note)
    requires
        on_connection(c, m),
    ensures
        keeps(reset_request(c), m, leaving(c)),
{
    reveal_with_fuel(keeps, 2);
}

proof fn lemma_reset_out(c: ConnectionState, m: Note)
    requires
        on_connection(c, m),
    ensures
        keeps(reset_out(c), m, leaving(c)),
{
    let rule = leaving(c);
    let s = reset_out(c);
    assert forall|answer: Answer| answers(answer, s->Ask_0) implies keeps(
        #[trigger] (s->Ask_1)(answer),
        (rule.note)(m, s->Ask_0, answer),
        rule,
    ) by {
        let n = (rule.note)(m, s->Ask_0, answer);
        let t = (s->Ask_1)(answer);
        if reports_halt(answer) {
            assert forall|cleared: Answer| answers(cleared, t->Ask_0) implies keeps(
                #[trigger] (t->Ask_1)(cleared),
                (rule.note)(n, t->Ask_0, cleared),
                rule,
            ) by {
                lemma_reset_request(c, (rule.note)(n, t->Ask_0, cleared));
            }
        } else {
            lemma_reset_request(c, n);
        }
    }
}

proof fn lemma_reset_in(c: ConnectionState, m: Note)
    requires
        on_connection(c, m),
    ensures
        keeps(reset_in(c), m, leaving(c)),
{
    let rule = leaving(c);
    let s = reset_in(c);
    assert forall|answer: Answer| answers(answer, s->Ask_0) implies keeps(
        #[trigger] (s->Ask_1)(answer),
        (rule.note)(m, s->Ask_0, answer),
        rule,
    ) by {
        let n = (rule.note)(m, s->Ask_0, answer);
        let t = (s->Ask_1)(answer);
        if reports_halt(answer) {
            assert forall|cleared: Answer| answers(cleared, t->Ask_0) implies keeps(
                #[trigger] (t->Ask_1)(cleared),
                (rule.note)(n, t->Ask_0, cleared),
                rule,
            ) by {
                lemma_reset_out(c, (rule.note)(n, t->Ask_0, cleared));
            }
        } else {
            lemma_reset_out(c, n);
        }
    }
}

/// Law: asking for the status of the last command keeps to the rule, and takes
/// no token.
pub proof fn law_get_command_status(c: ConnectionState, m: Note)
    requires
        on_connection(c, m),
    ensures
        keeps(get_command_status_script(c), m, leaving(c)),
{
    reveal_with_fuel(keeps, 2);
}

/// Law: resetting the interface keeps to the rule, and takes no token.
pub proof fn law_reset_interface(c: ConnectionState, m: Note)
    requires
        on_connection(c, m),
    ensures
        keeps(reset_interface_script(c), m, leaving(c)),
{
    let rule = leaving(c);
    law_get_command_status(c, m);
    assert forall|n: Note, end: Ended| #[trigger] (rule.ends)(n, end) implies keeps(
        reset_status_known()(end),
        n,
        rule,
    ) by {
        lemma_reset_in(c, n);
    }
    lemma_bind_keeps(get_command_status_script(c), reset_status_known(), m, rule, rule);
}

/// Whether an action is one of those that resetting the interface takes.
pub open spec fn is_control(action: Action) -> bool {
    action is ControlIn || action is ControlOut || action is ClearHalt
}

/// Resetting the interface keeps to any rule that control requests do not matter
/// to.
pub proof fn lemma_reset_unnoticed<M>(c: ConnectionState, m: M, rule: Rule<M, Ended>)
    requires
        forall|action: Action| is_control(action) ==> #[trigger] (rule.allows)(m, action),
        forall|action: Action, answer: Answer|
            is_control(action) && answers(answer, action) ==> #[trigger] (rule.note)(
                m,
                action,
                answer,
            ) == m,
        forall|end: Ended| #[trigger] (rule.ends)(m, end),
    ensures
        keeps(reset_interface_script(c), m, rule),
{
    let first = Rule { allows: rule.allows, note: rule.note, ends: |n: M, end: Ended| n == m };
    assert(keeps(get_command_status_script(c), m, first)) by {
        reveal_with_fuel(keeps, 2);
    }
    assert forall|n: M, end: Ended| #[trigger] (first.ends)(n, end) implies keeps(
        reset_status_known()(end),
        n,
        rule,
    ) by {
        reveal_with_fuel(keeps, 6);
    }
    lemma_bind_keeps(get_command_status_script(c), reset_status_known(), m, first, rule);
}

/// A write leaves the connection open, and takes at most `commands` tokens, all
/// of them if it succeeds.
pub open spec fn left_after(c: ConnectionState, commands: int) -> spec_fn(Note, Ended) -> bool {
    |m: Note, end: Ended|
        {
            &&& end.conn.same_link(c)
            &&& idle(end.conn, m)
            &&& c.cmd_token <= end.conn.cmd_token <= c.cmd_token + commands
            &&& end.result is Ok ==> end.conn.cmd_token == c.cmd_token + commands
        }
}

/// The rule for a write.
pub open spec fn writing(c: ConnectionState, commands: int) -> Rule<Note, Ended> {
    conduct(link_of(c), left_after(c, commands))
}

/// Number of WRITE commands for what stands at `offset` and beyond.
pub open spec fn chunks_from(buf: Seq<u8>, offset: int) -> int {
    if offset < buf.len() {
        chunks(buf.len() - offset)
    } else {
        0
    }
}

proof fn lemma_write_keeps(c: ConnectionState, addr: u32, buf: Seq<u8>, offset: int, m: Note)
    requires
        0 <= offset,
        idle(c, m),
        c.cmd_token + chunks_from(buf, offset) <= u32::MAX,
        c.in_ep_max_packet_size > 0,
    ensures
        keeps(write_from(c, addr, buf, offset), m, writing(c, chunks_from(buf, offset))),
    decreases left_of(buf, offset),
{
    lemma_write_from(c, addr, buf, offset);
    if offset < buf.len() {
        let data = chunk(buf, offset);
        let w = WireCmd::flash_write(chunk_addr(addr, offset), data.len() as u32);
        let next = offset + FLASH_PAGE_SIZE;
        let first = leaving(c.next());
        let rule = writing(c, chunks_from(buf, offset));
        law_send_cmd(c, w, Some(data), m);
        assert forall|n: Note, end: Ended| #[trigger] (first.ends)(n, end) implies keeps(
            write_on(addr, buf, next)(end),
            n,
            rule,
        ) by {
            lemma_write_on(addr, buf, next, end);
            if end.result is Ok {
                lemma_write_keeps(c.next(), addr, buf, next, n);
                lemma_keeps_weaker(
                    write_from(c.next(), addr, buf, next),
                    n,
                    writing(c.next(), chunks_from(buf, next)),
                    rule,
                );
            }
        }
        lemma_bind_keeps(
            send_cmd_script(c, w, Some(data)),
            write_on(addr, buf, next),
            m,
            first,
            rule,
        );
    }
}

/// Law: a write keeps to the rule, and takes a token for every page it gets to.
pub proof fn law_write(c: ConnectionState, addr: u32, buf: Seq<u8>, m: Note)
    requires
        idle(c, m),
        can_write(c, addr, buf.len() as int),
    ensures
        keeps(write_script(c, addr, buf), m, writing(c, chunks(buf.len() as int))),
{
    if buf.len() > 0 {
        lemma_write_keeps(c, addr, buf, 0, m);
    } else {
        lemma_write_from(c, addr, buf, 0);
    }
}

/// Law: a write to flash keeps to the rule, and takes a token for every page it
/// gets to.
pub proof fn law_flash_write(c: ConnectionState, addr: u32, buf: Seq<u8>, m: Note)
    requires
        idle(c, m),
        addr % FLASH_PAGE_SIZE == 0 ==> can_write(c, addr, buf.len() as int),
    ensures
        keeps(flash_write_script(c, addr, buf), m, writing(c, chunks(buf.len() as int))),
{
    if addr % FLASH_PAGE_SIZE == 0 {
        law_write(c, addr, buf, m);
    }
}

// ----- operations of a device -----

/// What the states of one connection have in common, the kernel's driver
/// included.
pub open spec fn base_of(c: ConnectionState) -> ConnectionState {
    ConnectionState { cmd_token: 0, ..c }
}

/// How an operation of a device leaves a connection of `base`: it stays open
/// after a failure if and only if `was` says so, and after a success if and only
/// if `keep` says so.
pub open spec fn left_open(base: ConnectionState, was: bool, keep: bool) -> spec_fn(
    Note,
    Finished,
) -> bool {
    |m: Note, f: Finished|
        {
            &&& m.open == f.connection is Some
            &&& f.connection matches Some(c) ==> base_of(c) == base && idle(c, m)
            &&& f.result is Err ==> f.connection is Some == was
            &&& f.result is Ok ==> f.connection is Some == keep
        }
}

/// The rule for an operation on an open connection of `base`.
pub open spec fn on_open(base: ConnectionState, was: bool, keep: bool) -> Rule<Note, Finished> {
    conduct(link_of(base), left_open(base, was, keep))
}

proof fn lemma_disconnect(
    c: ConnectionState,
    result: Result<Output, Error>,
    was: bool,
    keep: bool,
    m: Note,
)
    requires
        on_connection(c, m),
        result is Err ==> !was,
        result is Ok ==> !keep,
    ensures
        keeps(disconnect(c, result), m, on_open(base_of(c), was, keep)),
{
    reveal_with_fuel(keeps, 2);
}

proof fn lemma_give_up(c: ConnectionState, was: bool, e: Error, keep: bool, m: Note)
    requires
        idle(c, m),
    ensures
        keeps(give_up(c, was, e), m, on_open(base_of(c), was, keep)),
{
    if !was {
        lemma_disconnect(c, Err(e), was, keep, m);
    }
}

proof fn lemma_recover(c: ConnectionState, was: bool, e: Error, keep: bool, m: Note)
    requires
        on_connection(c, m),
    ensures
        keeps(recover(c, was, e), m, on_open(base_of(c), was, keep)),
{
    let first = leaving(c);
    let rule = on_open(base_of(c), was, keep);
    law_reset_interface(c, m);
    assert forall|n: Note, end: Ended| #[trigger] (first.ends)(n, end) implies keeps(
        recovered(was, e)(end),
        n,
        rule,
    ) by {
        lemma_give_up(c, was, e, keep, n);
    }
    lemma_bind_keeps(reset_interface_script(c), recovered(was, e), m, first, rule);
}

proof fn lemma_kept_open(was: bool, end: Ended, m: Note)
    requires
        on_connection(end.conn, m),
        m.data_due ==> end.result is Err,
    ensures
        keeps(kept_open(was)(end), m, on_open(base_of(end.conn), was, true)),
{
    if let Err(e) = end.result {
        lemma_recover(end.conn, was, e, true, m);
    }
}

proof fn lemma_as_before(was: bool, end: Ended, m: Note)
    requires
        on_connection(end.conn, m),
        m.data_due ==> end.result is Err,
    ensures
        keeps(as_before(was)(end), m, on_open(base_of(end.conn), was, was)),
{
    match end.result {
        Err(e) => lemma_recover(end.conn, was, e, was, m),
        Ok(value) => if !was {
            lemma_disconnect(end.conn, Ok(value), was, was, m);
        },
    }
}

proof fn lemma_rebooted(was: bool, end: Ended, m: Note)
    requires
        on_connection(end.conn, m),
        m.data_due ==> end.result is Err,
    ensures
        keeps(rebooted(was)(end), m, on_open(base_of(end.conn), was, false)),
{
    match end.result {
        Err(e) => lemma_recover(end.conn, was, e, false, m),
        Ok(value) => lemma_disconnect(end.conn, Ok(value), was, false, m),
    }
}

/// An operation of a connection that is followed by nothing more.
proof fn lemma_then_kept_open(
    s: Script<Ended>,
    base: ConnectionState,
    was: bool,
    first: Rule<Note, Ended>,
    m: Note,
)
    requires
        keeps(s, m, first),
        first.allows == proper(link_of(base)),
        first.note == noted(link_of(base)),
        forall|n: Note, end: Ended| #[trigger] (first.ends)(n, end) ==> base_of(end.conn) == base
            && on_connection(end.conn, n) && (n.data_due ==> end.result is Err),
    ensures
        keeps(bind(s, kept_open(was)), m, on_open(base, was, true)),
{
    let rule = on_open(base, was, true);
    assert forall|n: Note, end: Ended| #[trigger] (first.ends)(n, end) implies keeps(
        kept_open(was)(end),
        n,
        rule,
    ) by {
        lemma_kept_open(was, end, n);
    }
    lemma_bind_keeps(s, kept_open(was), m, first, rule);
}

proof fn lemma_erase_job(c: ConnectionState, was: bool, addr: u32, size: u32, m: Note)
    requires
        idle(c, m),
        job_fits(c, Job::Erase { addr, size }),
    ensures
        keeps(
            job_after_reset(c, was, Job::Erase { addr, size }),
            m,
            on_open(base_of(c), was, true),
        ),
{
    let first = leaving(c.next());
    let rule = on_open(base_of(c), was, true);
    let exit: Result<WireCmd, Error> = Ok(WireCmd::exit_xip());
    law_command(c, exit, m);
    assert forall|n: Note, end: Ended| #[trigger] (first.ends)(n, end) implies keeps(
        xip_exited(was, addr, size)(end),
        n,
        rule,
    ) by {
        match end.result {
            Err(e) => lemma_give_up(end.conn, was, e, true, n),
            Ok(_) => {
                let w = flash_erase_cmd(end.conn, addr, size);
                law_command(end.conn, w, n);
                lemma_then_kept_open(
                    command_script(end.conn, w),
                    base_of(c),
                    was,
                    leaving_if(after_command(end.conn, w), lacks_it(w)),
                    n,
                );
            },
        }
    }
    lemma_bind_keeps(command_script(c, exit), xip_exited(was, addr, size), m, first, rule);
}

proof fn lemma_erase_write_job(
    c: ConnectionState,
    was: bool,
    addr: u32,
    size: u32,
    buf: Seq<u8>,
    m: Note,
)
    requires
        idle(c, m),
        job_fits(c, Job::EraseWrite { addr, size, buf }),
    ensures
        keeps(
            job_after_reset(c, was, Job::EraseWrite { addr, size, buf }),
            m,
            on_open(base_of(c), was, true),
        ),
{
    let w = flash_erase_cmd(c, addr, size);
    let first = leaving(c.next());
    let rule = on_open(base_of(c), was, true);
    law_command(c, w, m);
    assert forall|n: Note, end: Ended| #[trigger] (first.ends)(n, end) implies keeps(
        erased(was, addr, buf)(end),
        n,
        rule,
    ) by {
        match end.result {
            Err(e) => lemma_recover(end.conn, was, e, true, n),
            Ok(_) => {
                law_flash_write(end.conn, addr, buf, n);
                lemma_then_kept_open(
                    flash_write_script(end.conn, addr, buf),
                    base_of(c),
                    was,
                    writing(end.conn, chunks(buf.len() as int)),
                    n,
                );
            },
        }
    }
    lemma_bind_keeps(command_script(c, w), erased(was, addr, buf), m, first, rule);
}

/// Whether the command of an operation has all its arguments, as all commands do.
pub open spec fn job_valid(job: Job) -> bool {
    job matches Job::Extension { cmd, data } ==> cmd.args.len() == ARGS_SIZE
}

/// Whether an operation that succeeds leaves the connection open, given whether
/// it was open before.
pub open spec fn keeps_open(job: Job, was: bool) -> bool {
    match job {
        Job::Reboot { .. } => false,
        Job::Extension { .. } => was,
        _ => true,
    }
}

proof fn lemma_job_after_reset(c: ConnectionState, was: bool, job: Job, m: Note)
    requires
        idle(c, m),
        job_fits(c, job),
        job_valid(job),
        !(job is Reboot),
    ensures
        keeps(job_after_reset(c, was, job), m, on_open(base_of(c), was, keeps_open(job, was))),
{
    match job {
        Job::Connect => {},
        Job::Read { addr, size, flash } => {
            let w = read_cmd(c, addr, size, flash);
            law_query(c, w, m);
            lemma_then_kept_open(
                query_script(c, w),
                base_of(c),
                was,
                leaving_if(after_command(c, w), lacks_it(w)),
                m,
            );
        },
        Job::Write { addr, buf, flash } => {
            let s = if flash {
                flash_write_script(c, addr, buf)
            } else {
                write_script(c, addr, buf)
            };
            if flash {
                law_flash_write(c, addr, buf, m);
            } else {
                law_write(c, addr, buf, m);
            }
            lemma_then_kept_open(s, base_of(c), was, writing(c, chunks(buf.len() as int)), m);
        },
        Job::Erase { addr, size } => lemma_erase_job(c, was, addr, size, m),
        Job::EraseWrite { addr, size, buf } => lemma_erase_write_job(c, was, addr, size, buf, m),
        Job::Reboot { .. } => {},
        Job::Extension { cmd, data } => {
            let first = leaving_if(c.next(), lacks_data(cmd, data));
            let rule = on_open(base_of(c), was, was);
            law_send_picobootx_cmd(c, cmd, data, m);
            assert forall|n: Note, end: Ended| #[trigger] (first.ends)(n, end) implies keeps(
                as_before(was)(end),
                n,
                rule,
            ) by {
                lemma_as_before(was, end, n);
            }
            lemma_bind_keeps(
                send_picobootx_cmd_script(c, cmd, data),
                as_before(was),
                m,
                first,
                rule,
            );
        },
    }
}

proof fn lemma_job_on(c: ConnectionState, was: bool, job: Job, m: Note)
    requires
        idle(c, m),
        job_fits(c, job),
        job_valid(job),
    ensures
        keeps(job_on(c, was, job), m, on_open(base_of(c), was, keeps_open(job, was))),
{
    let rule = on_open(base_of(c), was, keeps_open(job, was));
    match job {
        Job::Connect => {},
        Job::Reboot { target, reboot_type, delay } => {
            let w = reboot_type_cmd(c, target, reboot_type, delay);
            let first = leaving_if(after_command(c, w), lacks_it(w));
            law_command(c, w, m);
            assert forall|n: Note, end: Ended| #[trigger] (first.ends)(n, end) implies keeps(
                rebooted(was)(end),
                n,
                rule,
            ) by {
                lemma_rebooted(was, end, n);
            }
            lemma_bind_keeps(command_script(c, w), rebooted(was), m, first, rule);
        },
        _ => {
            let first = leaving(c);
            law_reset_interface(c, m);
            assert forall|n: Note, end: Ended| #[trigger] (first.ends)(n, end) implies keeps(
                reset_done(was, job)(end),
                n,
                rule,
            ) by {
                match end.result {
                    Err(e) => lemma_give_up(c, was, e, keeps_open(job, was), n),
                    Ok(_) => lemma_job_after_reset(c, was, job, n),
                }
            }
            lemma_bind_keeps(reset_interface_script(c), reset_done(was, job), m, first, rule);
        },
    }
}

/// What happened so far, when an operation of a device starts.
pub open spec fn on_device(p: PicobootState, m: Note) -> bool {
    &&& m.open == p.connection is Some
    &&& p.connection matches Some(c) ==> idle(c, m)
}

/// Connecting ends with an open connection if and only if it succeeds; one that
/// was open is left as it is, and a new one knows whether the interface was taken
/// from the kernel's driver.
pub open spec fn connect_ends(p: PicobootState) -> spec_fn(Note, Finished) -> bool {
    |m: Note, f: Finished|
        {
            &&& m.open == f.connection is Some
            &&& f.result is Ok == f.connection is Some
            &&& p.connection is Some ==> f.connection == p.connection
            &&& p.connection is None ==> (f.connection matches Some(c) ==> c == p.fresh(m.taken))
            &&& f.connection matches Some(c) ==> idle(c, m)
        }
}

/// Law: connecting keeps to the rule.
pub proof fn law_connect(p: PicobootState, m: Note)
    requires
        on_device(p, m),
    ensures
        keeps(connect_script(p), m, conduct(link_of(p.start()), connect_ends(p))),
{
    reveal_with_fuel(keeps, 4);
}

/// How an operation of a device ends.  If it fails the connection is open if and
/// only if it was open before, and if it succeeds if and only if `keep` says so.
/// A connection that was open before is the same one.
pub open spec fn job_ends(p: PicobootState, keep: bool) -> spec_fn(Note, Finished) -> bool {
    |m: Note, f: Finished|
        {
            &&& m.open == f.connection is Some
            &&& f.connection matches Some(c) ==> idle(c, m)
            &&& f.connection matches Some(c) ==> link_of(c) == link_of(p.start())
            &&& f.connection matches Some(c) ==> (p.connection matches Some(was) ==> c.same_link(
                was,
            ))
            &&& f.result is Err ==> f.connection is Some == p.connection is Some
            &&& f.result is Ok ==> f.connection is Some == keep
        }
}

/// Law: every operation of a device keeps to the rule.  One that fails leaves the
/// connection open if and only if it was open before.  One that succeeds leaves
/// it open, but for reboots, which close it, and extension commands, which leave
/// it as it was.
pub proof fn law_job(p: PicobootState, job: Job, m: Note)
    requires
        on_device(p, m),
        job_fits(p.start(), job),
        job_valid(job),
    ensures
        keeps(
            job_script(p, job),
            m,
            conduct(link_of(p.start()), job_ends(p, keeps_open(job, p.connection is Some))),
        ),
{
    let was = p.connection is Some;
    let first = conduct(link_of(p.start()), connect_ends(p));
    let rule = conduct(link_of(p.start()), job_ends(p, keeps_open(job, was)));
    law_connect(p, m);
    assert forall|n: Note, f: Finished| #[trigger] (first.ends)(n, f) implies keeps(
        connected(was, job)(f),
        n,
        rule,
    ) by {
        if f.result is Ok {
            let c = f.connection->0;
            if !was {
                lemma_fits_fresh(p, n.taken, job);
            }
            lemma_job_on(c, was, job, n);
            lemma_keeps_weaker(
                job_on(c, was, job),
                n,
                on_open(base_of(c), was, keeps_open(job, was)),
                rule,
            );
        }
    }
    lemma_bind_keeps(connect_script(p), connected(was, job), m, first, rule);
}

/// Law: an erase and write, too, keeps to the rule, leaves the connection open if
/// it succeeds, and as it was if it fails.
pub proof fn law_flash_erase_and_write(p: PicobootState, addr: u32, buf: Seq<u8>, m: Note)
    requires
        on_device(p, m),
        erase_write_fits(p, addr, buf),
    ensures
        keeps(
            flash_erase_and_write_script(p, addr, buf),
            m,
            conduct(link_of(p.start()), job_ends(p, true)),
        ),
{
    if addr % FLASH_SECTOR_SIZE == 0 {
        if let Ok(size) = erase_size(p.target, buf.len() as usize) {
            law_job(p, Job::EraseWrite { addr, size, buf }, m);
        }
    }
}

// ----- the reader -----

/// Law: a reader that gets ready keeps to the rule, and is connected if and only
/// if it succeeds.
pub proof fn law_reader_open(p: PicobootState, m: Note)
    requires
        on_device(p, m),
    ensures
        keeps(open_script(p), m, conduct(link_of(p.start()), reader_ends(p))),
{
    let first = conduct(link_of(p.start()), connect_ends(p));
    let rule = conduct(link_of(p.start()), reader_ends(p));
    law_connect(p, m);
    assert forall|n: Note, f: Finished| #[trigger] (first.ends)(n, f) implies keeps(
        reader_connected()(f),
        n,
        rule,
    ) by {
        if f.result is Ok {
            let c = f.connection->0;
            let on = leaving(c);
            law_reset_interface(c, n);
            assert forall|k: Note, end: Ended| #[trigger] (on.ends)(k, end) implies keeps(
                reader_reset()(end),
                k,
                rule,
            ) by {
                if end.result is Ok {
                    law_get_command_status(c, k);
                    lemma_bind_keeps(get_command_status_script(c), reader_opened(), k, on, rule);
                } else {
                    reveal_with_fuel(keeps, 2);
                }
            }
            lemma_bind_keeps(reset_interface_script(c), reader_reset(), n, on, rule);
        }
    }
    lemma_bind_keeps(connect_script(p), reader_connected(), m, first, rule);
}

/// How a reader gets ready: it is connected if and only if it succeeds.
pub open spec fn reader_ends(p: PicobootState) -> spec_fn(Note, Finished) -> bool {
    |m: Note, f: Finished|
        {
            &&& m.open == f.connection is Some
            &&& f.result is Ok == f.connection is Some
            &&& f.connection matches Some(c) ==> idle(c, m)
            &&& f.connection matches Some(c) ==> link_of(c) == link_of(p.start())
        }
}

/// Law: a read keeps to the rule, and leaves the connection open.
pub proof fn law_reader_read(c: ConnectionState, addr: u32, len: int, m: Note)
    requires
        idle(c, m),
        can_send(c, reader_cmd(addr, len)),
    ensures
        keeps(reader_read_script(c, addr, len), m, on_open(base_of(c), true, true)),
{
    let w: Result<WireCmd, Error> = Ok(reader_cmd(addr, len));
    let first = leaving(c.next());
    let rule = on_open(base_of(c), true, true);
    law_query(c, w, m);
    assert forall|n: Note, end: Ended| #[trigger] (first.ends)(n, end) implies keeps(
        reader_read()(end),
        n,
        rule,
    ) by {
        if let Err(e) = end.result {
            let reset = leaving(end.conn);
            law_reset_interface(end.conn, n);
            lemma_bind_keeps(
                reset_interface_script(end.conn),
                reader_recovered(e),
                n,
                reset,
                rule,
            );
        }
    }
    lemma_bind_keeps(query_script(c, w), reader_read(), m, first, rule);
}

} // verus!
