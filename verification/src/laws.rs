//! What the operations promise beyond how they go about it.

use vstd::prelude::*;

use crate::cmd::{
    cmd_at, cmd_bytes, cmd_id_of, law_cmd_round_trip, PicobootCmdId, WireCmd, ARGS_SIZE,
    COMMAND_SIZE,
};
use crate::conduct::{keeps_open, lacks_data, lemma_reset_unnoticed};
use crate::connection::{
    bulk_out, command_script, delay_ms, done, erase_size, erase_size_fits, flash_erase_cmd,
    flash_erase_start_cmd, flash_read_cmd, flash_write_script, get_command_status_script,
    query_script, reboot_cmd, reboot_rp2040_cmd, reboot_rp2350_cmd, reset_interface_script,
    reset_status_known, send_cmd_script, send_picobootx_cmd_script, to_unit, write_script, written,
    ConnectionState, Ended,
};
use crate::error::Error;
use crate::picoboot::{
    as_before, connect_script, connected, disconnect, erased, finished,
    flash_erase_and_write_script, give_up, job_after_reset, job_on, job_script, kept_open, read_cmd,
    reboot_type_cmd, rebooted, recover, recovered, reset_done, xip_exited, Finished, Job,
    PicobootState,
};
use crate::reader::{in_flash, plan_is_whole, read_plan, window};
use crate::script::{
    answers, bind, ends_in, keeps, lemma_bind_assoc, lemma_bind_ends, lemma_bind_keeps,
    lemma_ends_weaker, Action, Answer, Output, Rule, Script,
};
use crate::target::{
    RebootType, Target, FLASH_PAGE_SIZE, FLASH_SECTOR_SIZE, FLASH_START, PICOBOOT_MAGIC,
};
use crate::timeouts::Duration;

verus! {

// ----- errors -----

/// Whether an operation fails with `e`.
pub open spec fn fails_with(e: Error) -> spec_fn(Finished) -> bool {
    |f: Finished| f.result == Err::<Output, Error>(e)
}

/// However an operation ends.
pub open spec fn any_end<R>() -> spec_fn(R) -> bool {
    |r: R| true
}

proof fn lemma_any_end<R>(s: Script<R>)
    ensures
        ends_in(s, any_end()),
    decreases s,
{
    if let Script::Ask(action, k, now) = s {
        assert forall|answer: Answer| answers(answer, action) implies ends_in(
            #[trigger] k(answer),
            any_end(),
        ) by {
            lemma_any_end(k(answer));
        }
    }
}

/// Law: an operation that failed reports why it failed, whatever becomes of the
/// reset that follows.
pub proof fn law_recover_keeps_error(c: ConnectionState, was: bool, e: Error)
    ensures
        ends_in(recover(c, was, e), fails_with(e)),
{
    reveal_with_fuel(ends_in, 2);
    lemma_any_end(reset_interface_script(c));
    lemma_bind_ends(reset_interface_script(c), recovered(was, e), any_end(), fails_with(e));
}

// ----- refusals -----

/// Law: an erase that is not of whole sectors is refused, and nothing is sent.
pub proof fn law_misaligned_erase_is_refused(c: ConnectionState, addr: u32, size: u32)
    requires
        addr % FLASH_SECTOR_SIZE != 0 || size % FLASH_SECTOR_SIZE != 0,
    ensures
        command_script(c, flash_erase_cmd(c, addr, size)) == done(
            c,
            Err(
                if addr % FLASH_SECTOR_SIZE != 0 {
                    Error::PicobootEraseInvalidAddr(c.target, addr)
                } else {
                    Error::PicobootEraseInvalidSize(c.target, size)
                },
            ),
        ),
{
}

/// Law: a flash read that is not of whole pages is refused, and nothing is sent.
pub proof fn law_misaligned_flash_read_is_refused(c: ConnectionState, addr: u32, size: u32)
    requires
        addr % FLASH_PAGE_SIZE != 0 || size % FLASH_PAGE_SIZE != 0,
    ensures
        query_script(c, flash_read_cmd(c, addr, size)) == done(
            c,
            Err(
                if addr % FLASH_PAGE_SIZE != 0 {
                    Error::PicobootReadInvalidAddr(c.target, addr)
                } else {
                    Error::PicobootReadInvalidSize(c.target, size)
                },
            ),
        ),
{
}

/// Law: a flash write that does not start on a page is refused, and nothing is
/// sent.
pub proof fn law_misaligned_flash_write_is_refused(c: ConnectionState, addr: u32, buf: Seq<u8>)
    requires
        addr % FLASH_PAGE_SIZE != 0,
    ensures
        flash_write_script(c, addr, buf) == done(
            c,
            Err(Error::PicobootWriteInvalidAddr(c.target, addr)),
        ),
{
}

/// Law: an erase and write that does not start on a sector is refused, and
/// nothing is sent, not even to connect.
pub proof fn law_misaligned_erase_and_write_is_refused(
    p: PicobootState,
    addr: u32,
    buf: Seq<u8>,
)
    requires
        addr % FLASH_SECTOR_SIZE != 0,
    ensures
        flash_erase_and_write_script(p, addr, buf) == Script::Done(
            Finished {
                connection: p.connection,
                result: Err(Error::PicobootEraseInvalidAddr(p.target, addr)),
            },
        ),
{
}

/// Law: a sector starts on a page, so an address that can be erased from can be
/// written to.
pub proof fn law_sectors_start_on_pages(addr: u32)
    requires
        addr % FLASH_SECTOR_SIZE == 0,
    ensures
        addr % FLASH_PAGE_SIZE == 0,
{
}

/// Law: the erase for `size` bytes is of whole sectors, covers the bytes, and
/// goes less than a sector beyond.
pub proof fn law_erase_size(target: Target, size: usize)
    requires
        size <= u32::MAX,
        erase_size_fits(size),
    ensures
        erase_size(target, size) matches Ok(n) && n % FLASH_SECTOR_SIZE == 0 && size <= n < size
            + FLASH_SECTOR_SIZE,
{
}

/// Law: an erase from the start of flash is never refused for its alignment.
pub proof fn law_flash_erase_start(c: ConnectionState, size: usize)
    requires
        size <= u32::MAX,
        erase_size_fits(size),
    ensures
        flash_erase_start_cmd(c, size) == Ok::<WireCmd, Error>(
            WireCmd::flash_erase(FLASH_START, erase_size(c.target, size)->Ok_0),
        ),
{
    law_erase_size(c.target, size);
}

// ----- reboots -----

/// Law: a reboot with more milliseconds of delay than a `u32` is refused, and so
/// is a REBOOT of an RP2350, and a REBOOT2 of an RP2040; all others are sent.
pub proof fn law_reboot_commands(c: ConnectionState, a: u32, b: u32, d: u32, delay: Duration)
    ensures
        reboot_rp2040_cmd(c, a, b, delay) is Ok <==> delay_ms(c, delay) is Ok && c.target
            != Target::Rp2350,
        reboot_rp2350_cmd(c, a, b, d, delay) is Ok <==> delay_ms(c, delay) is Ok && c.target
            != Target::Rp2040,
        delay_ms(c, delay) is Err ==> {
            &&& reboot_rp2040_cmd(c, a, b, delay) == Err::<WireCmd, Error>(
                Error::PicobootInvalidDuration(c.target, delay),
            )
            &&& reboot_rp2350_cmd(c, a, b, d, delay) == Err::<WireCmd, Error>(
                Error::PicobootInvalidDuration(c.target, delay),
            )
        },
{
}

/// Law: a device is only ever sent the reboot command of its kind: an RP2040
/// REBOOT, all others REBOOT2.
pub proof fn law_reboot_matches_target(
    c: ConnectionState,
    reboot_type: RebootType,
    delay: Duration,
)
    ensures
        reboot_type_cmd(c, c.target, reboot_type, delay) matches Ok(w) ==> {
            if c.target == Target::Rp2040 {
                w.cmd_id == PicobootCmdId::Reboot.code_of()
            } else {
                w.cmd_id == PicobootCmdId::Reboot2.code_of()
            }
        },
        reboot_cmd(c, delay) matches Ok(w) ==> {
            if c.target == Target::Rp2040 {
                w.cmd_id == PicobootCmdId::Reboot.code_of()
            } else {
                w.cmd_id == PicobootCmdId::Reboot2.code_of()
            }
        },
{
}

/// Law: only an RP2040 is refused a reboot into BOOTSEL mode, and only a delay
/// can be refused otherwise.
pub proof fn law_reboot_type(c: ConnectionState, reboot_type: RebootType, delay: Duration)
    requires
        delay_ms(c, delay) is Ok,
    ensures
        reboot_type_cmd(c, c.target, reboot_type, delay) is Err <==> c.target == Target::Rp2040
            && reboot_type is Bootsel,
        c.target == Target::Rp2040 && reboot_type is Bootsel ==> reboot_type_cmd(
            c,
            c.target,
            reboot_type,
            delay,
        ) == Err::<WireCmd, Error>(
            Error::PicobootCmdNotAllowedForTarget(c.target, PicobootCmdId::Reboot2),
        ),
{
}

/// No command and no data is sent.
pub open spec fn no_commands() -> spec_fn(bool, Action) -> bool {
    |open: bool, action: Action| !(action is BulkOut)
}

/// Whether the interface is claimed.
pub open spec fn claim_noted() -> spec_fn(bool, Action, Answer) -> bool {
    |open: bool, action: Action, answer: Answer|
        open || answer matches Answer::ClaimInterface(Ok(_))
}

/// The operation fails, and with `e` if the interface was claimed.
pub open spec fn fails_once_claimed(e: Error) -> spec_fn(bool, Finished) -> bool {
    |open: bool, f: Finished| f.result is Err && (open ==> f.result == Err::<Output, Error>(e))
}

/// The rule that no command is sent.
pub open spec fn silent<R>(ends: spec_fn(bool, R) -> bool) -> Rule<bool, R> {
    Rule { allows: no_commands(), note: claim_noted(), ends }
}

/// However an operation ends.
pub open spec fn anyhow<R>() -> spec_fn(bool, R) -> bool {
    |open: bool, r: R| true
}

/// Law: an RP2040 that is asked to reboot into BOOTSEL mode is sent no command,
/// and the operation fails with the reason.
pub proof fn law_rp2040_has_no_bootsel_reboot(
    p: PicobootState,
    disable_msd: bool,
    disable_picoboot: bool,
    delay: Duration,
)
    requires
        p.target == Target::Rp2040,
    ensures
        keeps(
            job_script(
                p,
                Job::Reboot {
                    target: p.target,
                    reboot_type: RebootType::Bootsel { disable_msd, disable_picoboot },
                    delay,
                },
            ),
            p.connection is Some,
            silent(
                fails_once_claimed(
                    Error::PicobootCmdNotAllowedForTarget(p.target, PicobootCmdId::Reboot2),
                ),
            ),
        ),
{
    let was = p.connection is Some;
    let reboot_type = RebootType::Bootsel { disable_msd, disable_picoboot };
    let job = Job::Reboot { target: p.target, reboot_type, delay };
    let e = Error::PicobootCmdNotAllowedForTarget(p.target, PicobootCmdId::Reboot2);
    let first = silent(connect_known());
    let rule = silent(fails_once_claimed(e));
    assert(keeps(connect_script(p), was, first)) by {
        reveal_with_fuel(keeps, 4);
    }
    assert forall|n: bool, f: Finished| #[trigger] (first.ends)(n, f) implies keeps(
        connected(was, job)(f),
        n,
        rule,
    ) by {
        if f.result is Ok {
            let c = f.connection->0;
            let reset = silent(anyhow::<Ended>());
            lemma_reset_unnoticed(c, n, reset);
            assert forall|k: bool, end: Ended| #[trigger] (reset.ends)(k, end) implies keeps(
                recovered(was, e)(end),
                k,
                rule,
            ) by {
                reveal_with_fuel(keeps, 2);
            }
            lemma_bind_keeps(reset_interface_script(c), recovered(was, e), n, reset, rule);
            assert(job_on(c, was, job) == recover(c, was, e));
        }
    }
    lemma_bind_keeps(connect_script(p), connected(was, job), was, first, rule);
}

/// Connecting claims the interface if and only if it succeeds.
spec fn connect_known() -> spec_fn(bool, Finished) -> bool {
    |open: bool, f: Finished| f.result is Ok == open
}

// ----- erases -----

/// Whether data sent to the device is a command.
pub open spec fn is_command(data: Seq<u8>, id: PicobootCmdId) -> bool {
    &&& data.len() == COMMAND_SIZE
    &&& cmd_at(data).magic == PICOBOOT_MAGIC
    &&& cmd_at(data).cmd_id == id.code_of()
}

/// FLASH_ERASE may be sent once the device was told to leave XIP mode.
pub open spec fn erases_out_of_xip() -> spec_fn(bool, Action) -> bool {
    |exited: bool, action: Action|
        action matches Action::BulkOut { endpoint, data, timeout } && is_command(
            data,
            PicobootCmdId::FlashErase,
        ) ==> exited
}

/// Whether the device was told to leave XIP mode.
pub open spec fn xip_noted() -> spec_fn(bool, Action, Answer) -> bool {
    |exited: bool, action: Action, answer: Answer|
        exited || (action matches Action::BulkOut { endpoint, data, timeout } && is_command(
            data,
            PicobootCmdId::ExitXip,
        ) && answer == Answer::BulkOut(Ok(COMMAND_SIZE)))
}

/// The rule that XIP mode is left before an erase.
pub open spec fn xip_rule<R>(ends: spec_fn(bool, R) -> bool) -> Rule<bool, R> {
    Rule { allows: erases_out_of_xip(), note: xip_noted(), ends }
}

/// XIP mode was left, or not, and an operation of a connection ended.
spec fn xip_and<R>(exited: bool) -> spec_fn(bool, R) -> bool {
    |n: bool, r: R| exited ==> n
}

/// An operation of a connection that succeeds only if XIP mode was left.
spec fn xip_if_ok() -> spec_fn(bool, Ended) -> bool {
    |n: bool, end: Ended| end.result is Ok ==> n
}

/// An operation of a device that succeeds only if XIP mode was left.
pub open spec fn succeeds_out_of_xip() -> spec_fn(bool, Finished) -> bool {
    |n: bool, f: Finished| f.result is Ok ==> n
}

/// A command without data is told from others by its ID.
proof fn lemma_command_bytes(w: WireCmd, id: PicobootCmdId)
    requires
        w.args.len() == 16,
        w.magic == PICOBOOT_MAGIC,
    ensures
        is_command(cmd_bytes(w), id) <==> w.cmd_id == id.code_of(),
{
    law_cmd_round_trip(w, Seq::empty());
    assert(cmd_bytes(w) + Seq::<u8>::empty() =~= cmd_bytes(w));
}

proof fn lemma_recover_xip(c: ConnectionState, was: bool, e: Error, exited: bool)
    ensures
        keeps(recover(c, was, e), exited, xip_rule(succeeds_out_of_xip())),
{
    let first = xip_rule(xip_and::<Ended>(exited));
    let rule = xip_rule(succeeds_out_of_xip());
    lemma_reset_unnoticed(c, exited, first);
    assert forall|n: bool, end: Ended| #[trigger] (first.ends)(n, end) implies keeps(
        recovered(was, e)(end),
        n,
        rule,
    ) by {
        reveal_with_fuel(keeps, 2);
    }
    lemma_bind_keeps(reset_interface_script(c), recovered(was, e), exited, first, rule);
}

/// A command without data, that is not an erase, or comes once XIP mode was left.
proof fn lemma_command_xip(c: ConnectionState, w: WireCmd, exited: bool)
    requires
        w.args.len() == 16,
        w.magic == PICOBOOT_MAGIC,
        w.transfer_len == 0,
        w.cmd_id == PicobootCmdId::FlashErase.code_of() && exited || w.cmd_id
            == PicobootCmdId::ExitXip.code_of(),
    ensures
        keeps(command_script(c, Ok(w)), exited, xip_rule(xip_if_ok())),
{
    let rule = xip_rule(xip_if_ok());
    let sent = w.with_token(c.cmd_token);
    lemma_command_bytes(sent, PicobootCmdId::FlashErase);
    lemma_command_bytes(sent, PicobootCmdId::ExitXip);
    assert(keeps(send_cmd_script(c, w, None), exited, rule)) by {
        reveal_with_fuel(keeps, 3);
    }
    assert forall|n: bool, end: Ended| #[trigger] (rule.ends)(n, end) implies keeps(
        to_unit()(end),
        n,
        rule,
    ) by {}
    lemma_bind_keeps(send_cmd_script(c, w, None), to_unit(), exited, rule, rule);
}

/// The erase itself, now that XIP mode was left.
proof fn lemma_erase_xip(c: ConnectionState, was: bool, addr: u32, size: u32)
    ensures
        keeps(
            bind(command_script(c, flash_erase_cmd(c, addr, size)), kept_open(was)),
            true,
            xip_rule(succeeds_out_of_xip()),
        ),
{
    let first = xip_rule(xip_and::<Ended>(true));
    let rule = xip_rule(succeeds_out_of_xip());
    let w = flash_erase_cmd(c, addr, size);
    let s = command_script(c, w);
    if let Ok(w) = w {
        lemma_xip_stays_left(c, w);
    }
    assert forall|n: bool, end: Ended| #[trigger] (first.ends)(n, end) implies keeps(
        kept_open(was)(end),
        n,
        rule,
    ) by {
        if let Err(e) = end.result {
            lemma_recover_xip(end.conn, was, e, n);
        }
    }
    lemma_bind_keeps(s, kept_open(was), true, first, rule);
}

/// XIP mode stays left during a command.
proof fn lemma_xip_stays_left(c: ConnectionState, w: WireCmd)
    requires
        w.transfer_len == 0,
    ensures
        keeps(command_script(c, Ok(w)), true, xip_rule(xip_and::<Ended>(true))),
{
    let rule = xip_rule(xip_and::<Ended>(true));
    assert(keeps(send_cmd_script(c, w, None), true, rule)) by {
        reveal_with_fuel(keeps, 3);
    }
    assert forall|n: bool, end: Ended| #[trigger] (rule.ends)(n, end) implies keeps(
        to_unit()(end),
        n,
        rule,
    ) by {}
    lemma_bind_keeps(send_cmd_script(c, w, None), to_unit(), true, rule, rule);
}

/// Leaving XIP mode, then the erase.
proof fn lemma_erase_job_xip(c: ConnectionState, was: bool, addr: u32, size: u32, exited: bool)
    ensures
        keeps(
            job_after_reset(c, was, Job::Erase { addr, size }),
            exited,
            xip_rule(succeeds_out_of_xip()),
        ),
{
    let first = xip_rule(xip_if_ok());
    let rule = xip_rule(succeeds_out_of_xip());
    lemma_command_xip(c, WireCmd::exit_xip(), exited);
    assert forall|n: bool, end: Ended| #[trigger] (first.ends)(n, end) implies keeps(
        xip_exited(was, addr, size)(end),
        n,
        rule,
    ) by {
        if end.result is Ok {
            lemma_erase_xip(end.conn, was, addr, size);
        } else {
            reveal_with_fuel(keeps, 2);
        }
    }
    lemma_bind_keeps(
        command_script(c, Ok(WireCmd::exit_xip())),
        xip_exited(was, addr, size),
        exited,
        first,
        rule,
    );
}

/// Law: an erase is only sent to a device that was told to leave XIP mode
/// beforehand.
pub proof fn law_erase_leaves_xip_first(p: PicobootState, addr: u32, size: u32)
    ensures
        keeps(
            job_script(p, Job::Erase { addr, size }),
            false,
            xip_rule(succeeds_out_of_xip()),
        ),
{
    let was = p.connection is Some;
    let job = Job::Erase { addr, size };
    let first = xip_rule(xip_and::<Finished>(false));
    let rule = xip_rule(succeeds_out_of_xip());
    assert(keeps(connect_script(p), false, first)) by {
        reveal_with_fuel(keeps, 4);
    }
    assert forall|n: bool, f: Finished| #[trigger] (first.ends)(n, f) implies keeps(
        connected(was, job)(f),
        n,
        rule,
    ) by {
        if f.result is Ok {
            let c = f.connection->0;
            let reset = xip_rule(xip_and::<Ended>(n));
            lemma_reset_unnoticed(c, n, reset);
            assert forall|k: bool, end: Ended| #[trigger] (reset.ends)(k, end) implies keeps(
                reset_done(was, job)(end),
                k,
                rule,
            ) by {
                if end.result is Ok {
                    lemma_erase_job_xip(end.conn, was, addr, size, k);
                } else {
                    reveal_with_fuel(keeps, 2);
                }
            }
            lemma_bind_keeps(reset_interface_script(c), reset_done(was, job), n, reset, rule);
        }
    }
    lemma_bind_keeps(connect_script(p), connected(was, job), false, first, rule);
}

// ----- the reader -----

/// Law: the reader reads whole pages of flash, which no alignment rule refuses.
#[verifier::spinoff_prover]
#[verifier::rlimit(40)]
pub proof fn law_reader_reads_whole_pages(c: ConnectionState, addr: u32, len: int)
    requires
        in_flash(addr),
        0 <= len,
    ensures
        ({
            let plan = read_plan(addr, len);
            flash_read_cmd(c, plan.addr, plan.size) == Ok::<WireCmd, Error>(
                WireCmd::flash_read(plan.addr, plan.size),
            )
        }),
{
    let n = (addr as int % 256 + len + 255) / 256;
    assert(n * 256 % 0x1_0000_0000 == 256 * (n % 0x100_0000));
    assert(n * 256 % 0x1_0000_0000 % 256 == 0);
}

/// Law: what the reader reads holds the bytes asked for, from `addr` on, where
/// it looks for them.
pub proof fn law_reader_finds_the_bytes(addr: u32, len: int, memory: spec_fn(int) -> u8)
    requires
        0 <= len,
        plan_is_whole(addr, len),
    ensures
        ({
            let plan = read_plan(addr, len);
            let data = Seq::new(plan.size as nat, |i: int| memory(plan.addr + i));
            &&& plan.addr + plan.offset == addr
            &&& plan.offset + len <= plan.size
            &&& window(plan, len, data) == Seq::new(len as nat, |i: int| memory(addr + i))
        }),
{
    let plan = read_plan(addr, len);
    let data = Seq::new(plan.size as nat, |i: int| memory(plan.addr + i));
    assert(window(plan, len, data) =~= Seq::new(len as nat, |i: int| memory(addr + i)));
}

// ----- tokens -----

/// A command to send, by either protocol.
pub struct Sending {
    pub cmd: WireCmd,
    pub data: Option<Seq<u8>>,
    pub extension: bool,
}

/// Sending a command.
pub open spec fn sending_script(c: ConnectionState, x: Sending) -> Script<Ended> {
    if x.extension {
        send_picobootx_cmd_script(c, x.cmd, x.data)
    } else {
        send_cmd_script(c, x.cmd, x.data)
    }
}

/// Sending one command after another, whatever becomes of each.
pub open spec fn series(c: ConnectionState, xs: Seq<Sending>) -> Script<Ended>
    decreases xs.len(),
{
    if xs.len() == 0 {
        done(c, Ok(Output::Unit))
    } else {
        bind(series(c, xs.drop_last()), and_send(xs.last()))
    }
}

/// Sending a command after another.
pub open spec fn and_send(x: Sending) -> spec_fn(Ended) -> Script<Ended> {
    |end: Ended| sending_script(end.conn, x)
}

/// The state after `n` commands.
pub open spec fn after_commands(c: ConnectionState, n: int) -> ConnectionState {
    ConnectionState { cmd_token: (c.cmd_token + n) as u32, ..c }
}

/// Whether an operation ends in the state `c`.
pub open spec fn ends_at(c: ConnectionState) -> spec_fn(Ended) -> bool {
    |end: Ended| end.conn == c
}

/// Law: whatever becomes of a series of commands, each takes one token.
pub proof fn law_series_takes_tokens(c: ConnectionState, xs: Seq<Sending>)
    requires
        c.cmd_token + xs.len() <= u32::MAX,
    ensures
        ends_in(series(c, xs), ends_at(after_commands(c, xs.len() as int))),
    decreases xs.len(),
{
    if xs.len() > 0 {
        let front = xs.drop_last();
        let before = after_commands(c, front.len() as int);
        let good = ends_at(after_commands(c, xs.len() as int));
        law_series_takes_tokens(c, front);
        assert forall|end: Ended| ends_at(before)(end) implies ends_in(
            #[trigger] and_send(xs.last())(end),
            good,
        ) by {
            reveal_with_fuel(ends_in, 4);
        }
        lemma_bind_ends(series(c, front), and_send(xs.last()), ends_at(before), good);
    }
}

/// The bytes that a command starts with on a connection in the state `c`.
pub open spec fn sent_bytes(c: ConnectionState, x: Sending) -> Seq<u8> {
    sending_script(c, x)->Ask_0->BulkOut_data
}

/// Law: whatever becomes of the commands before it, each command in a series
/// carries the token of its own state, so no two carry the same.  On a new
/// connection they count from 1.
pub proof fn law_tokens_are_distinct(c: ConnectionState, xs: Seq<Sending>, i: int, j: int)
    requires
        c.cmd_token + xs.len() <= u32::MAX,
        forall|k: int| 0 <= k < xs.len() ==> (#[trigger] xs[k]).cmd.args.len() == ARGS_SIZE,
        0 <= i < j < xs.len(),
    ensures
        ends_in(series(c, xs.take(i)), ends_at(after_commands(c, i))),
        ends_in(series(c, xs.take(j)), ends_at(after_commands(c, j))),
        series(c, xs.take(i + 1)) == bind(series(c, xs.take(i)), and_send(xs[i])),
        series(c, xs.take(j + 1)) == bind(series(c, xs.take(j)), and_send(xs[j])),
        sending_script(after_commands(c, i), xs[i]) is Ask,
        sending_script(after_commands(c, j), xs[j]) is Ask,
        sending_script(after_commands(c, i), xs[i])->Ask_0 is BulkOut,
        sending_script(after_commands(c, j), xs[j])->Ask_0 is BulkOut,
        cmd_at(sent_bytes(after_commands(c, i), xs[i])).token == c.cmd_token + i,
        cmd_at(sent_bytes(after_commands(c, j), xs[j])).token == c.cmd_token + j,
        cmd_at(sent_bytes(after_commands(c, i), xs[i])).token != cmd_at(
            sent_bytes(after_commands(c, j), xs[j]),
        ).token,
{
    law_series_takes_tokens(c, xs.take(i));
    law_series_takes_tokens(c, xs.take(j));
    assert(xs.take(i + 1).drop_last() =~= xs.take(i));
    assert(xs.take(j + 1).drop_last() =~= xs.take(j));
    lemma_token_sent(after_commands(c, i), xs[i]);
    lemma_token_sent(after_commands(c, j), xs[j]);
}

proof fn lemma_token_sent(c: ConnectionState, x: Sending)
    requires
        x.cmd.args.len() == ARGS_SIZE,
    ensures
        sending_script(c, x) is Ask,
        sending_script(c, x)->Ask_0 is BulkOut,
        cmd_at(sent_bytes(c, x)).token == c.cmd_token,
{
    let w = x.cmd.with_token(c.cmd_token);
    law_cmd_round_trip(w, Seq::empty());
    assert(cmd_bytes(w) + Seq::<u8>::empty() =~= cmd_bytes(w));
}

/// Law: the first command of a new connection carries the token 1.
pub proof fn law_first_token(p: PicobootState, detached: bool, x: Sending)
    requires
        x.cmd.args.len() == ARGS_SIZE,
    ensures
        cmd_at(sent_bytes(p.fresh(detached), x)).token == 1,
{
    lemma_token_sent(p.fresh(detached), x);
}

// ----- extension commands -----

/// Law: an extension command follows the course of an ordinary one with the same
/// fields: the same bytes but for the magic, and after them the same transfers
/// with the same outcome, the state included.  Only the error differs when a
/// command sends data and there is none.
pub proof fn law_extension_commands_follow_the_same_course(
    c: ConnectionState,
    w: WireCmd,
    magic: u32,
    buf: Option<Seq<u8>>,
    answer: Answer,
)
    ensures
        ({
            let x = WireCmd { magic, ..w };
            let ordinary = send_cmd_script(c, w, buf);
            let extension = send_picobootx_cmd_script(c, x, buf);
            let missing = Error::PicobootCmdDataMissing(c.target, cmd_id_of(w.cmd_id)->0);
            &&& ordinary is Ask && extension is Ask
            &&& ordinary->Ask_0 == bulk_out(c, cmd_bytes(w.with_token(c.cmd_token)))
            &&& extension->Ask_0 == bulk_out(c, cmd_bytes(x.with_token(c.cmd_token)))
            &&& cmd_bytes(w.with_token(c.cmd_token)).skip(4) == cmd_bytes(
                x.with_token(c.cmd_token),
            ).skip(4)
            &&& !lacks_data(w, buf) ==> ordinary.after(answer) == extension.after(answer)
            &&& lacks_data(w, buf) ==> match written(c, answer, COMMAND_SIZE as int, true) {
                Err(e) => {
                    &&& ordinary.after(answer) == done(c.next(), Err(e))
                    &&& extension.after(answer) == done(c.next(), Err(e))
                },
                Ok(_) => {
                    &&& ordinary.after(answer) == done(c.next(), Err(missing))
                    &&& extension.after(answer) == done(
                        c.next(),
                        Err(Error::PicobootXCmdDataMissing(c.target, x.cmd_id)),
                    )
                },
            }
        }),
{
    let x = WireCmd { magic, ..w };
    assert(cmd_bytes(w.with_token(c.cmd_token)).skip(4) =~= cmd_bytes(
        x.with_token(c.cmd_token),
    ).skip(4));
}

// ----- how operations of a device end -----

/// How far an operation of a device got.
pub enum Reached {
    /// It did not connect.
    Nothing,
    /// It connected, and failed before there was anything to recover from.
    Connection,
    /// It came to the command that it is about.
    Command,
}

/// What came of an operation of a device, before anything is put in order.
pub struct Attempt {
    /// The connection, if it is open
    pub connection: Option<ConnectionState>,
    /// The result of the step that failed, or of the last one
    pub result: Result<Output, Error>,
    /// How far it got
    pub reached: Reached,
}

/// What an operation of a device sets out to do, up to the first step that
/// fails: connecting, resetting the interface, and its commands.
pub open spec fn attempt(p: PicobootState, job: Job) -> Script<Attempt> {
    bind(connect_script(p), attempt_connected(job))
}

/// After connecting.
pub open spec fn attempt_connected(job: Job) -> spec_fn(Finished) -> Script<Attempt> {
    |f: Finished|
        match f.result {
            Err(e) => Script::Done(
                Attempt {
                    connection: f.connection,
                    result: Err(e),
                    reached: Reached::Nothing,
                },
            ),
            Ok(_) => attempt_on(f.connection->0, job),
        }
}

/// On an open connection.
pub open spec fn attempt_on(c: ConnectionState, job: Job) -> Script<Attempt> {
    match job {
        Job::Connect => attempted()(Ended { conn: c, result: Ok(Output::Unit) }),
        Job::Reboot { target, reboot_type, delay } => bind(
            command_script(c, reboot_type_cmd(c, target, reboot_type, delay)),
            attempted(),
        ),
        _ => bind(reset_interface_script(c), attempt_reset(job)),
    }
}

/// After resetting the interface.
pub open spec fn attempt_reset(job: Job) -> spec_fn(Ended) -> Script<Attempt> {
    |end: Ended|
        match end.result {
            Err(e) => stopped(end.conn, e),
            Ok(_) => attempt_commands(end.conn, job),
        }
}

/// The commands of an operation.
pub open spec fn attempt_commands(c: ConnectionState, job: Job) -> Script<Attempt> {
    match job {
        Job::Read { addr, size, flash } => bind(
            query_script(c, read_cmd(c, addr, size, flash)),
            attempted(),
        ),
        Job::Write { addr, buf, flash } => bind(
            if flash {
                flash_write_script(c, addr, buf)
            } else {
                write_script(c, addr, buf)
            },
            attempted(),
        ),
        Job::Erase { addr, size } => bind(
            command_script(c, Ok(WireCmd::exit_xip())),
            attempt_erase(addr, size),
        ),
        Job::EraseWrite { addr, size, buf } => bind(
            command_script(c, flash_erase_cmd(c, addr, size)),
            attempt_write(addr, buf),
        ),
        Job::Extension { cmd, data } => bind(send_picobootx_cmd_script(c, cmd, data), attempted()),
        _ => attempted()(Ended { conn: c, result: Ok(Output::Unit) }),
    }
}

/// After EXIT_XIP.
pub open spec fn attempt_erase(addr: u32, size: u32) -> spec_fn(Ended) -> Script<Attempt> {
    |end: Ended|
        match end.result {
            Err(e) => stopped(end.conn, e),
            Ok(_) => bind(
                command_script(end.conn, flash_erase_cmd(end.conn, addr, size)),
                attempted(),
            ),
        }
}

/// After an erase that makes room for a write.
pub open spec fn attempt_write(addr: u32, buf: Seq<u8>) -> spec_fn(Ended) -> Script<Attempt> {
    |end: Ended|
        match end.result {
            Err(e) => attempted()(end),
            Ok(_) => bind(flash_write_script(end.conn, addr, buf), attempted()),
        }
}

/// The end of an operation that came to its command.
pub open spec fn attempted() -> spec_fn(Ended) -> Script<Attempt> {
    |end: Ended|
        Script::Done(
            Attempt {
                connection: Some(end.conn),
                result: end.result,
                reached: Reached::Command,
            },
        )
}

/// The end of an operation that did not come to its command.
pub open spec fn stopped(c: ConnectionState, e: Error) -> Script<Attempt> {
    Script::Done(
        Attempt { connection: Some(c), result: Err(e), reached: Reached::Connection },
    )
}

/// Putting things in order after an attempt: a best effort to reset the interface
/// after a command that failed, and closing the connection if it is not to stay.
pub open spec fn settle(was: bool, job: Job) -> spec_fn(Attempt) -> Script<Finished> {
    |a: Attempt|
        match (a.reached, a.result) {
            (Reached::Nothing, result) => finished(a.connection, result),
            (_, Ok(value)) => if keeps_open(job, was) {
                finished(a.connection, Ok(value))
            } else {
                disconnect(a.connection->0, Ok(value))
            },
            (Reached::Connection, Err(e)) => give_up(a.connection->0, was, e),
            (Reached::Command, Err(e)) => recover(a.connection->0, was, e),
        }
}

/// Law: every operation of a device is an attempt, and putting things in order
/// after it.
pub proof fn law_job_is_attempted_and_settled(p: PicobootState, job: Job)
    ensures
        job_script(p, job) == bind(attempt(p, job), settle(p.connection is Some, job)),
{
    let was = p.connection is Some;
    assert forall|f: Finished| #[trigger]
        connected(was, job)(f) == bind(attempt_connected(job)(f), settle(was, job)) by {
        if f.result is Ok {
            lemma_settle_on(f.connection->0, was, job);
        }
    }
    lemma_bind_assoc(
        connect_script(p),
        attempt_connected(job),
        settle(was, job),
        connected(was, job),
    );
}

proof fn lemma_settle_on(c: ConnectionState, was: bool, job: Job)
    ensures
        job_on(c, was, job) == bind(attempt_on(c, job), settle(was, job)),
{
    match job {
        Job::Connect => {},
        Job::Reboot { target, reboot_type, delay } => {
            lemma_bind_assoc(
                command_script(c, reboot_type_cmd(c, target, reboot_type, delay)),
                attempted(),
                settle(was, job),
                rebooted(was),
            );
        },
        _ => {
            assert forall|end: Ended| #[trigger]
                reset_done(was, job)(end) == bind(attempt_reset(job)(end), settle(was, job)) by {
                if end.result is Ok {
                    lemma_settle_commands(end.conn, was, job);
                }
            }
            lemma_bind_assoc(
                reset_interface_script(c),
                attempt_reset(job),
                settle(was, job),
                reset_done(was, job),
            );
        },
    }
}

proof fn lemma_settle_commands(c: ConnectionState, was: bool, job: Job)
    requires
        !(job is Reboot),
    ensures
        job_after_reset(c, was, job) == bind(attempt_commands(c, job), settle(was, job)),
{
    let last = settle(was, job);
    match job {
        Job::Read { addr, size, flash } => lemma_bind_assoc(
            query_script(c, read_cmd(c, addr, size, flash)),
            attempted(),
            last,
            kept_open(was),
        ),
        Job::Write { addr, buf, flash } => lemma_bind_assoc(
            if flash {
                flash_write_script(c, addr, buf)
            } else {
                write_script(c, addr, buf)
            },
            attempted(),
            last,
            kept_open(was),
        ),
        Job::Erase { addr, size } => {
            assert forall|end: Ended| #[trigger]
                xip_exited(was, addr, size)(end) == bind(attempt_erase(addr, size)(end), last) by {
                lemma_bind_assoc(
                    command_script(end.conn, flash_erase_cmd(end.conn, addr, size)),
                    attempted(),
                    last,
                    kept_open(was),
                );
            }
            lemma_bind_assoc(
                command_script(c, Ok(WireCmd::exit_xip())),
                attempt_erase(addr, size),
                last,
                xip_exited(was, addr, size),
            );
        },
        Job::EraseWrite { addr, size, buf } => {
            assert forall|end: Ended| #[trigger]
                erased(was, addr, buf)(end) == bind(attempt_write(addr, buf)(end), last) by {
                lemma_bind_assoc(
                    flash_write_script(end.conn, addr, buf),
                    attempted(),
                    last,
                    kept_open(was),
                );
            }
            lemma_bind_assoc(
                command_script(c, flash_erase_cmd(c, addr, size)),
                attempt_write(addr, buf),
                last,
                erased(was, addr, buf),
            );
        },
        Job::Extension { cmd, data } => lemma_bind_assoc(
            send_picobootx_cmd_script(c, cmd, data),
            attempted(),
            last,
            as_before(was),
        ),
        _ => {},
    }
}

/// An operation ends with the result of its attempt, and with the connection open
/// if and only if that is to stay.
pub open spec fn settled(was: bool, job: Job, a: Attempt) -> spec_fn(Finished) -> bool {
    |f: Finished|
        {
            &&& f.result == a.result
            &&& a.reached is Nothing ==> f.connection == a.connection
            &&& !(a.reached is Nothing) ==> f.connection == (if a.result is Ok && keeps_open(
                job,
                was,
            ) || a.result is Err && was {
                a.connection
            } else {
                None
            })
        }
}

/// Law: putting things in order changes nothing of the result.  In particular,
/// why a best effort to reset the interface fails is never reported.
pub proof fn law_settling_keeps_the_result(was: bool, job: Job, a: Attempt)
    requires
        !(a.reached is Nothing) ==> a.connection is Some,
    ensures
        ends_in(settle(was, job)(a), settled(was, job, a)),
{
    let good = settled(was, job, a);
    reveal_with_fuel(ends_in, 2);
    if a.reached is Command && a.result is Err {
        let c = a.connection->0;
        let e = a.result->Err_0;
        law_reset_keeps_state(c);
        assert forall|end: Ended| ends_at(c)(end) implies ends_in(
            #[trigger] recovered(was, e)(end),
            good,
        ) by {}
        lemma_bind_ends(reset_interface_script(c), recovered(was, e), ends_at(c), good);
    }
}

/// Law: putting things in order sends no command.
pub proof fn law_settling_sends_no_command(was: bool, job: Job, a: Attempt, open: bool)
    ensures
        keeps(settle(was, job)(a), open, silent(anyhow::<Finished>())),
{
    let rule = silent(anyhow::<Finished>());
    reveal_with_fuel(keeps, 2);
    if a.reached is Command && a.result is Err {
        let c = a.connection->0;
        let e = a.result->Err_0;
        let reset = silent(anyhow::<Ended>());
        lemma_reset_unnoticed(c, open, reset);
        lemma_bind_keeps(reset_interface_script(c), recovered(was, e), open, reset, rule);
    }
}

/// Law: resetting the interface leaves the connection's state as it is.
pub proof fn law_reset_keeps_state(c: ConnectionState)
    ensures
        ends_in(reset_interface_script(c), ends_at(c)),
{
    assert(ends_in(get_command_status_script(c), ends_at(c))) by {
        reveal_with_fuel(ends_in, 2);
    }
    assert forall|end: Ended| ends_at(c)(end) implies ends_in(
        #[trigger] reset_status_known()(end),
        ends_at(c),
    ) by {
        reveal_with_fuel(ends_in, 6);
    }
    lemma_bind_ends(get_command_status_script(c), reset_status_known(), ends_at(c), ends_at(c));
}

/// How an operation of a device leaves the connection.
pub open spec fn connection_left(p: PicobootState, job: Job) -> spec_fn(Finished) -> bool {
    |f: Finished|
        {
            &&& f.result is Err ==> f.connection is Some == p.connection is Some
            &&& f.result is Ok ==> f.connection is Some == keeps_open(job, p.connection is Some)
        }
}

/// Law: after a failure the connection is open if and only if it was open before.
/// After a success it is open, but for reboots, which close it even if it was open
/// before, and extension commands, which leave it as it was.
pub proof fn law_connection_after_job(p: PicobootState, job: Job)
    ensures
        ends_in(job_script(p, job), connection_left(p, job)),
{
    let was = p.connection is Some;
    let between = connection_attempted(p);
    let good = connection_left(p, job);
    law_job_is_attempted_and_settled(p, job);
    lemma_attempt_connection(p, job);
    assert forall|a: Attempt| between(a) implies ends_in(
        #[trigger] settle(was, job)(a),
        good,
    ) by {
        law_settling_keeps_the_result(was, job, a);
        lemma_ends_weaker(settle(was, job)(a), settled(was, job, a), good);
    }
    lemma_bind_ends(attempt(p, job), settle(was, job), between, good);
}

/// An attempt that did not connect failed, and there was no connection before;
/// any other has one.
spec fn connection_attempted(p: PicobootState) -> spec_fn(Attempt) -> bool {
    |a: Attempt|
        {
            &&& a.reached is Nothing ==> a.result is Err && a.connection is None
                && p.connection is None
            &&& !(a.reached is Nothing) ==> a.connection is Some
        }
}

/// Whether there is a connection after connecting, and only then.
spec fn connect_attempted(p: PicobootState) -> spec_fn(Finished) -> bool {
    |f: Finished| f.result is Err ==> f.connection is None && p.connection is None
}

proof fn lemma_attempt_connection(p: PicobootState, job: Job)
    ensures
        ends_in(attempt(p, job), connection_attempted(p)),
{
    let good = connection_attempted(p);
    let between = connect_attempted(p);
    assert(ends_in(connect_script(p), between)) by {
        reveal_with_fuel(ends_in, 4);
    }
    assert forall|f: Finished| between(f) implies ends_in(
        #[trigger] attempt_connected(job)(f),
        good,
    ) by {
        if f.result is Ok {
            lemma_attempt_on(p, f.connection->0, job);
        }
    }
    lemma_bind_ends(connect_script(p), attempt_connected(job), between, good);
}

proof fn lemma_attempt_on(p: PicobootState, c: ConnectionState, job: Job)
    ensures
        ends_in(attempt_on(c, job), connection_attempted(p)),
{
    let good = connection_attempted(p);
    match job {
        Job::Connect => {},
        Job::Reboot { target, reboot_type, delay } => lemma_attempted(
            p,
            command_script(c, reboot_type_cmd(c, target, reboot_type, delay)),
        ),
        _ => {
            lemma_any_end(reset_interface_script(c));
            assert forall|end: Ended| any_end()(end) implies ends_in(
                #[trigger] attempt_reset(job)(end),
                good,
            ) by {
                if end.result is Ok {
                    lemma_attempt_commands(p, end.conn, job);
                }
            }
            lemma_bind_ends(reset_interface_script(c), attempt_reset(job), any_end(), good);
        },
    }
}

proof fn lemma_attempt_commands(p: PicobootState, c: ConnectionState, job: Job)
    ensures
        ends_in(attempt_commands(c, job), connection_attempted(p)),
{
    let good = connection_attempted(p);
    match job {
        Job::Read { addr, size, flash } => lemma_attempted(
            p,
            query_script(c, read_cmd(c, addr, size, flash)),
        ),
        Job::Write { addr, buf, flash } => lemma_attempted(
            p,
            if flash {
                flash_write_script(c, addr, buf)
            } else {
                write_script(c, addr, buf)
            },
        ),
        Job::Erase { addr, size } => {
            let s = command_script(c, Ok(WireCmd::exit_xip()));
            lemma_any_end(s);
            assert forall|end: Ended| any_end()(end) implies ends_in(
                #[trigger] attempt_erase(addr, size)(end),
                good,
            ) by {
                lemma_attempted(
                    p,
                    command_script(end.conn, flash_erase_cmd(end.conn, addr, size)),
                );
            }
            lemma_bind_ends(s, attempt_erase(addr, size), any_end(), good);
        },
        Job::EraseWrite { addr, size, buf } => {
            let s = command_script(c, flash_erase_cmd(c, addr, size));
            lemma_any_end(s);
            assert forall|end: Ended| any_end()(end) implies ends_in(
                #[trigger] attempt_write(addr, buf)(end),
                good,
            ) by {
                lemma_attempted(p, flash_write_script(end.conn, addr, buf));
            }
            lemma_bind_ends(s, attempt_write(addr, buf), any_end(), good);
        },
        Job::Extension { cmd, data } => lemma_attempted(
            p,
            send_picobootx_cmd_script(c, cmd, data),
        ),
        _ => {},
    }
}

proof fn lemma_attempted(p: PicobootState, s: Script<Ended>)
    ensures
        ends_in(bind(s, attempted()), connection_attempted(p)),
{
    lemma_any_end(s);
    lemma_bind_ends(s, attempted(), any_end(), connection_attempted(p));
}

} // verus!
