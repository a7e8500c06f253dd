//! A device's memory, as reads and writes see it.

use vstd::prelude::*;

use crate::bytes::{law_le32_round_trip, le32, le32_at};
use crate::cmd::{
    cmd_at, cmd_bytes, law_cmd_round_trip, zeros, PicobootCmdId, WireCmd, ARGS_SIZE, COMMAND_SIZE,
};
use crate::conduct::lemma_reset_unnoticed;
use crate::connection::{
    chunk, chunk_addr, command_script, done, flash_erase_cmd, flash_write_script, left_of,
    lemma_chunk_addr_fits, lemma_write_from, lemma_write_on, query_script, reset_interface_script,
    send_cmd_script, to_unit, write_fits, write_from, write_on, write_script, ConnectionState,
    Ended,
};
use crate::error::Error;
use crate::picoboot::{
    connect_script, connected, erased, flash_erase_and_write_script, give_up, job_after_reset,
    job_script, kept_open, read_cmd, recover, recovered, reset_done, xip_exited, Finished, Job,
    PicobootState,
};
use crate::protocol::law_erase_and_write_covers;
use crate::reader::{
    plan_is_whole, read_plan, reader_cmd, reader_read, reader_read_script, reader_recovered, window,
    FLASH_LAST,
};
use crate::script::{
    bind, keeps, lemma_bind_keeps, lemma_keeps_weaker, Action, Answer, Output, Rule, Script,
};
use crate::target::{Direction, FLASH_PAGE_SIZE, FLASH_START, PICOBOOT_MAGIC};

verus! {

/// A device that stores what WRITE commands send it, fills up the last page of
/// flash with zeros, and sets all bits of what FLASH_ERASE commands erase.
pub struct Memory {
    /// What is stored where
    pub bytes: Map<int, u8>,
    /// The command whose data is still to come
    pub pending: Option<WireCmd>,
    /// Whether all READ commands were answered with what is stored
    pub honest: bool,
    /// Whether the device is in XIP mode
    pub xip: bool,
    /// Whether erases in XIP mode have no effect, as on an RP2040, and on an
    /// RP2350 with a bug in its bootrom
    pub loses_erases: bool,
}

/// `bytes`, with `data` stored from `addr` on.
pub open spec fn store(bytes: Map<int, u8>, addr: int, data: Seq<u8>) -> Map<int, u8> {
    bytes.union_prefer_right(
        Map::new(|at: int| addr <= at < addr + data.len(), |at: int| data[at - addr]),
    )
}

/// What is stored from `addr` on.
pub open spec fn load(bytes: Map<int, u8>, addr: int, len: int) -> Seq<u8> {
    Seq::new(len as nat, |i: int| bytes[addr + i])
}

/// The address a command is about.
pub open spec fn addr_of(w: WireCmd) -> int {
    le32_at(w.args, 0) as int
}

/// The size a command is about.
pub open spec fn size_of(w: WireCmd) -> int {
    le32_at(w.args, 4) as int
}

/// `len` bytes of erased flash.
pub open spec fn blank(len: int) -> Seq<u8> {
    Seq::new(len as nat, |i: int| 0xffu8)
}

/// Zeros that fill up the last page, if `len` bytes from `addr` on end within a
/// page of flash.
pub open spec fn filling(addr: int, len: int) -> Seq<u8> {
    let page = FLASH_PAGE_SIZE as int;
    let last = addr + len / page * page;
    if len % page != 0 && FLASH_START <= last <= FLASH_LAST {
        zeros((page - len % page) as nat)
    } else {
        Seq::empty()
    }
}

/// What is stored of `data` that is written from `addr` on.
pub open spec fn landed(addr: int, data: Seq<u8>) -> Seq<u8> {
    data + filling(addr, data.len() as int)
}

/// Whether `len` bytes from `addr` on are written to flash, if at all, from the
/// start of a page.  A device accepts no other writes to flash.
pub open spec fn on_pages(addr: u32, len: int) -> bool {
    addr <= FLASH_LAST && FLASH_START < addr + len ==> addr % FLASH_PAGE_SIZE == 0
}

/// Whether an erase takes effect.
pub open spec fn erases(m: Memory) -> bool {
    !(m.xip && m.loses_erases)
}

/// Whether a command is one of PICOBOOT's.
pub open spec fn is_for(w: WireCmd, id: PicobootCmdId) -> bool {
    w.magic == PICOBOOT_MAGIC && w.cmd_id == id.code_of()
}

/// What a device makes of data sent to it: a command, its data, or neither.
pub open spec fn served_out(m: Memory, data: Seq<u8>) -> Memory {
    match m.pending {
        None => if data.len() == COMMAND_SIZE {
            let w = cmd_at(data);
            Memory {
                pending: Some(w),
                bytes: if is_for(w, PicobootCmdId::FlashErase) && erases(m) {
                    store(m.bytes, addr_of(w), blank(size_of(w)))
                } else {
                    m.bytes
                },
                xip: if is_for(w, PicobootCmdId::ExitXip) {
                    false
                } else if is_for(w, PicobootCmdId::EnterXip) {
                    true
                } else {
                    m.xip
                },
                ..m
            }
        } else {
            m
        },
        Some(w) => if is_for(w, PicobootCmdId::Write) {
            Memory {
                bytes: store(m.bytes, addr_of(w), landed(addr_of(w), data)),
                pending: None,
                ..m
            }
        } else {
            Memory { pending: None, ..m }
        },
    }
}

/// What is known of a device that sent data: whether that was what is stored.
pub open spec fn served_in(m: Memory, answer: Answer) -> Memory {
    match (m.pending, answer) {
        (Some(w), Answer::BulkIn(Ok((data, actual)))) => if is_for(
            w,
            PicobootCmdId::Read,
        ) {
            Memory {
                pending: None,
                honest: m.honest && data == load(m.bytes, addr_of(w), w.transfer_len as int)
                    && actual == data.len(),
                ..m
            }
        } else {
            Memory { pending: None, ..m }
        },
        _ => m,
    }
}

/// What a device makes of a transfer.
pub open spec fn served() -> spec_fn(Memory, Action, Answer) -> Memory {
    |m: Memory, action: Action, answer: Answer|
        match action {
            Action::BulkOut { endpoint, data, timeout } => served_out(m, data),
            Action::BulkIn { .. } => served_in(m, answer),
            _ => m,
        }
}

/// Anything may be asked for.
pub open spec fn anything() -> spec_fn(Memory, Action) -> bool {
    |m: Memory, action: Action| true
}

/// The rule for what is in memory at the end of an operation.
pub open spec fn remembering<R>(ends: spec_fn(Memory, R) -> bool) -> Rule<Memory, R> {
    Rule { allows: anything(), note: served(), ends }
}

/// If the operation succeeds, `data` is stored from `addr` on, and nothing else
/// changed.
pub open spec fn stores(before: Memory, addr: int, data: Seq<u8>) -> spec_fn(Memory, Ended) -> bool {
    |m: Memory, end: Ended|
        end.result is Ok ==> m == (Memory { bytes: store(before.bytes, addr, data), ..before })
}

/// If the operation succeeds, the state is `c`, and `data` is stored.
spec fn stores_at(
    c: ConnectionState,
    before: Memory,
    addr: int,
    data: Seq<u8>,
) -> spec_fn(Memory, Ended) -> bool {
    |m: Memory, end: Ended| end.conn == c && stores(before, addr, data)(m, end)
}

/// If the operation succeeds on a device that answers with what is stored, then
/// that is what it gives back; and nothing changed.
pub open spec fn loads(before: Memory, addr: int, len: int) -> spec_fn(Memory, Ended) -> bool {
    |m: Memory, end: Ended|
        end.result matches Ok(value) ==> {
            &&& m.bytes == before.bytes
            &&& m.honest ==> value == Output::Bytes(load(before.bytes, addr, len))
        }
}

/// A command about a range of memory holds its address.
proof fn lemma_range_cmd(w: WireCmd, addr: u32, size: u32)
    requires
        w.args == le32(addr) + le32(size) + zeros(8),
    ensures
        addr_of(w) == addr,
        size_of(w) == size,
        cmd_bytes(w).len() == COMMAND_SIZE,
        cmd_at(cmd_bytes(w)) == w,
{
    assert(w.args.len() == 16);
    assert(w.args.subrange(0, 4) =~= le32(addr));
    assert(w.args.subrange(4, 8) =~= le32(size));
    law_le32_round_trip(addr, w.args, 0);
    law_le32_round_trip(size, w.args, 4);
    law_cmd_round_trip(w, Seq::empty());
    assert(cmd_bytes(w) + Seq::<u8>::empty() =~= cmd_bytes(w));
}

proof fn lemma_write_command(c: ConnectionState, addr: u32, data: Seq<u8>, m: Memory)
    requires
        m.pending is None,
        0 < data.len() <= u32::MAX,
    ensures
        keeps(
            send_cmd_script(
                c,
                WireCmd::flash_write(addr, data.len() as u32),
                Some(data),
            ),
            m,
            remembering(stores_at(c.next(), m, addr as int, landed(addr as int, data))),
        ),
{
    let w = WireCmd::flash_write(addr, data.len() as u32).with_token(c.cmd_token);
    lemma_range_cmd(w, addr, data.len() as u32);
    reveal_with_fuel(keeps, 4);
}

/// What is stored in two parts is stored as one.
proof fn lemma_store_twice(bytes: Map<int, u8>, addr: int, a: Seq<u8>, b: Seq<u8>)
    ensures
        store(store(bytes, addr, a), addr + a.len(), b) == store(bytes, addr, a + b),
{
    assert(store(store(bytes, addr, a), addr + a.len(), b) =~= store(bytes, addr, a + b));
}

/// Storing nothing changes nothing.
proof fn lemma_store_nothing(bytes: Map<int, u8>, addr: int)
    ensures
        store(bytes, addr, Seq::empty()) == bytes,
{
    assert(store(bytes, addr, Seq::empty()) =~= bytes);
}

/// The bytes at `offset` and beyond.
spec fn rest_of(buf: Seq<u8>, offset: int) -> Seq<u8> {
    if offset < buf.len() {
        buf.subrange(offset, buf.len() as int)
    } else {
        Seq::empty()
    }
}

#[verifier::spinoff_prover]
#[verifier::rlimit(40)]
proof fn lemma_write_stores(
    c: ConnectionState,
    addr: u32,
    buf: Seq<u8>,
    offset: int,
    m: Memory,
)
    requires
        m.pending is None,
        0 <= offset,
        write_fits(addr, buf.len() as int),
        buf.len() <= 0x1_0000_0000,
        offset % FLASH_PAGE_SIZE as int == 0,
    ensures
        keeps(
            write_from(c, addr, buf, offset),
            m,
            remembering(stores(m, addr + offset, landed(addr + offset, rest_of(buf, offset)))),
        ),
    decreases left_of(buf, offset),
{
    let rest = rest_of(buf, offset);
    let rule = remembering(stores(m, addr + offset, landed(addr + offset, rest)));
    lemma_write_from(c, addr, buf, offset);
    if offset < buf.len() {
        let data = chunk(buf, offset);
        let next = offset + FLASH_PAGE_SIZE;
        let at = chunk_addr(addr, offset);
        let left = rest_of(buf, next);
        let first = remembering(stores_at(c.next(), m, at as int, landed(at as int, data)));
        lemma_chunk_addr_fits(addr, buf.len() as int, offset);
        lemma_write_command(c, at, data, m);
        assert forall|n: Memory, end: Ended| #[trigger] (first.ends)(n, end) implies keeps(
            write_on(addr, buf, next)(end),
            n,
            rule,
        ) by {
            lemma_write_on(addr, buf, next, end);
            if end.result is Ok {
                lemma_write_stores(c.next(), addr, buf, next, n);
                lemma_filling(addr + offset, rest.len() as int);
                if left.len() > 0 {
                    assert(landed(at as int, data) =~= data);
                    assert(landed(addr + offset, rest) =~= data + landed(addr + next, left));
                    lemma_store_twice(m.bytes, addr + offset, data, landed(addr + next, left));
                } else {
                    assert(data =~= rest);
                    assert(landed(addr + next, left) =~= Seq::empty());
                    lemma_store_nothing(n.bytes, addr + next);
                }
                lemma_keeps_weaker(
                    write_from(c.next(), addr, buf, next),
                    n,
                    remembering(stores(n, addr + next, landed(addr + next, left))),
                    rule,
                );
            }
        }
        lemma_bind_keeps(
            send_cmd_script(c, WireCmd::flash_write(at, data.len() as u32), Some(data)),
            write_on(addr, buf, next),
            m,
            first,
            rule,
        );
    } else {
        assert(landed(addr + offset, rest) =~= Seq::empty());
        lemma_store_nothing(m.bytes, addr + offset);
    }
}

/// What fills up the last page is the same after a whole page.
proof fn lemma_filling(addr: int, len: int)
    requires
        len >= 0,
    ensures
        len > FLASH_PAGE_SIZE ==> filling(addr, len) == filling(
            addr + FLASH_PAGE_SIZE,
            len - FLASH_PAGE_SIZE,
        ),
{
}

/// Law: a write that succeeds has the device store the buffer, byte for byte,
/// from the address on, with the last page of flash filled up with zeros, and
/// nothing else.
pub proof fn law_write_stores(c: ConnectionState, addr: u32, buf: Seq<u8>, m: Memory)
    requires
        m.pending is None,
        write_fits(addr, buf.len() as int),
        buf.len() <= 0x1_0000_0000,
        on_pages(addr, buf.len() as int),
    ensures
        keeps(
            write_script(c, addr, buf),
            m,
            remembering(stores(m, addr as int, landed(addr as int, buf))),
        ),
{
    assert(rest_of(buf, 0) =~= buf);
    lemma_write_stores(c, addr, buf, 0, m);
}

/// Law: a read that succeeds gives back what the device has stored from the
/// address on, if the device answers with that, and changes nothing.
pub proof fn law_read_loads(c: ConnectionState, addr: u32, size: u32, m: Memory)
    requires
        m.pending is None,
    ensures
        keeps(
            query_script(c, Ok(WireCmd::flash_read(addr, size))),
            m,
            remembering(loads(m, addr as int, size as int)),
        ),
{
    let w = WireCmd::flash_read(addr, size).with_token(c.cmd_token);
    lemma_range_cmd(w, addr, size);
    assert(load(m.bytes, addr as int, 0) =~= Seq::empty());
    reveal_with_fuel(keeps, 4);
}

/// A read, after an operation that succeeded.
pub open spec fn and_read(addr: u32, size: u32) -> spec_fn(Ended) -> Script<Ended> {
    |end: Ended|
        match end.result {
            Err(e) => done(end.conn, Err(e)),
            Ok(_) => query_script(end.conn, Ok(WireCmd::flash_read(addr, size))),
        }
}

/// The operation gives `data` back if it succeeds on a device that answers with
/// what is stored.
pub open spec fn gives(data: Seq<u8>) -> spec_fn(Memory, Ended) -> bool {
    |m: Memory, end: Ended|
        end.result matches Ok(value) ==> m.honest ==> value == Output::Bytes(data)
}

/// Law: a read gives back what was just written.
pub proof fn law_read_after_write(c: ConnectionState, addr: u32, buf: Seq<u8>, m: Memory)
    requires
        m.pending is None,
        write_fits(addr, buf.len() as int),
        buf.len() <= u32::MAX,
        on_pages(addr, buf.len() as int),
    ensures
        keeps(
            bind(write_script(c, addr, buf), and_read(addr, buf.len() as u32)),
            m,
            remembering(gives(buf)),
        ),
{
    let size = buf.len() as u32;
    let first = remembering(stores(m, addr as int, landed(addr as int, buf)));
    let rule = remembering(gives(buf));
    law_write_stores(c, addr, buf, m);
    assert forall|n: Memory, end: Ended| #[trigger] (first.ends)(n, end) implies keeps(
        and_read(addr, size)(end),
        n,
        rule,
    ) by {
        if end.result is Ok {
            law_read_loads(end.conn, addr, size, n);
            assert(load(
                store(m.bytes, addr as int, landed(addr as int, buf)),
                addr as int,
                size as int,
            ) =~= buf);
            lemma_keeps_weaker(
                query_script(end.conn, Ok(WireCmd::flash_read(addr, size))),
                n,
                remembering(loads(n, addr as int, size as int)),
                rule,
            );
        }
    }
    lemma_bind_keeps(write_script(c, addr, buf), and_read(addr, size), m, first, rule);
}

// ----- erases -----

/// If the operation succeeds, the device is as `after` says.
spec fn becomes(after: Memory) -> spec_fn(Memory, Ended) -> bool {
    |m: Memory, end: Ended| end.result is Ok ==> m == after
}

/// A command that gives nothing back leaves nothing pending.
proof fn lemma_command_serves(c: ConnectionState, w: WireCmd, m: Memory)
    requires
        m.pending is None,
        w.transfer_len == 0,
        w.direction() == Direction::Out,
        w.args.len() == ARGS_SIZE,
    ensures
        keeps(
            command_script(c, Ok(w)),
            m,
            remembering(
                becomes(
                    Memory {
                        pending: None,
                        ..served_out(m, cmd_bytes(w.with_token(c.cmd_token)))
                    },
                ),
            ),
        ),
{
    let sent = w.with_token(c.cmd_token);
    law_cmd_round_trip(sent, Seq::empty());
    assert(cmd_bytes(sent) + Seq::<u8>::empty() =~= cmd_bytes(sent));
    let s = send_cmd_script(c, w, None);
    let rule = remembering(becomes(Memory { pending: None, ..served_out(m, cmd_bytes(sent)) }));
    assert(keeps(s, m, rule)) by {
        reveal_with_fuel(keeps, 3);
    }
    lemma_bind_keeps(s, to_unit(), m, rule, rule);
}

/// Law: an erase that succeeds, and takes effect, has the device erase the range,
/// and nothing else.
pub proof fn law_erase_blanks(c: ConnectionState, addr: u32, size: u32, m: Memory)
    requires
        m.pending is None,
        erases(m),
    ensures
        keeps(
            command_script(c, flash_erase_cmd(c, addr, size)),
            m,
            remembering(stores(m, addr as int, blank(size as int))),
        ),
{
    if let Ok(w) = flash_erase_cmd(c, addr, size) {
        let sent = w.with_token(c.cmd_token);
        let after = Memory { pending: None, ..served_out(m, cmd_bytes(sent)) };
        lemma_range_cmd(sent, addr, size);
        lemma_command_serves(c, w, m);
        lemma_keeps_weaker(
            command_script(c, Ok(w)),
            m,
            remembering(becomes(after)),
            remembering(stores(m, addr as int, blank(size as int))),
        );
    }
}

// ----- operations of a device -----

/// However the operation goes, nothing changed.
spec fn same<R>(before: Memory) -> spec_fn(Memory, R) -> bool {
    |m: Memory, r: R| m == before
}

/// Nothing is promised of an operation that fails.
spec fn success_only(good: spec_fn(Memory, Finished) -> bool) -> bool {
    forall|n: Memory, f: Finished| f.result is Err ==> #[trigger] good(n, f)
}

proof fn lemma_recover_fails(
    c: ConnectionState,
    was: bool,
    e: Error,
    m: Memory,
    good: spec_fn(Memory, Finished) -> bool,
)
    requires
        success_only(good),
    ensures
        keeps(give_up(c, was, e), m, remembering(good)),
        keeps(recover(c, was, e), m, remembering(good)),
{
    let first = remembering(same::<Ended>(m));
    let rule = remembering(good);
    lemma_reset_unnoticed(c, m, first);
    assert forall|d: ConnectionState| keeps(#[trigger] give_up(d, was, e), m, rule) by {
        reveal_with_fuel(keeps, 2);
    }
    assert forall|n: Memory, end: Ended| #[trigger] (first.ends)(n, end) implies keeps(
        recovered(was, e)(end),
        n,
        rule,
    ) by {
        assert(keeps(give_up(end.conn, was, e), m, rule));
    }
    lemma_bind_keeps(reset_interface_script(c), recovered(was, e), m, first, rule);
}

/// An operation of a connection is followed by nothing that changes memory.
proof fn lemma_kept_open_same(
    s: Script<Ended>,
    was: bool,
    m: Memory,
    first: spec_fn(Memory, Ended) -> bool,
    good: spec_fn(Memory, Finished) -> bool,
)
    requires
        keeps(s, m, remembering(first)),
        success_only(good),
        forall|n: Memory, end: Ended| #[trigger]
            first(n, end) && end.result is Ok ==> good(
                n,
                Finished { connection: Some(end.conn), result: end.result },
            ),
    ensures
        keeps(bind(s, kept_open(was)), m, remembering(good)),
{
    let rule = remembering(good);
    assert forall|n: Memory, end: Ended| #[trigger]
        (remembering(first).ends)(n, end) implies keeps(kept_open(was)(end), n, rule) by {
        assert(first(n, end));
        if let Err(e) = end.result {
            lemma_recover_fails(end.conn, was, e, n, good);
        }
    }
    lemma_bind_keeps(s, kept_open(was), m, remembering(first), rule);
}

/// Connecting and resetting the interface change nothing.
proof fn lemma_job_memory(
    p: PicobootState,
    job: Job,
    m: Memory,
    good: spec_fn(Memory, Finished) -> bool,
)
    requires
        !(job is Connect),
        !(job is Reboot),
        success_only(good),
        forall|c: ConnectionState, was: bool|
            keeps(#[trigger] job_after_reset(c, was, job), m, remembering(good)),
    ensures
        keeps(job_script(p, job), m, remembering(good)),
{
    let was = p.connection is Some;
    let first = remembering(same::<Finished>(m));
    let rule = remembering(good);
    assert(keeps(connect_script(p), m, first)) by {
        reveal_with_fuel(keeps, 4);
    }
    assert forall|n: Memory, f: Finished| #[trigger] (first.ends)(n, f) implies keeps(
        connected(was, job)(f),
        n,
        rule,
    ) by {
        if f.result is Ok {
            let c = f.connection->0;
            let reset = remembering(same::<Ended>(m));
            lemma_reset_unnoticed(c, m, reset);
            assert forall|k: Memory, end: Ended| #[trigger] (reset.ends)(k, end) implies keeps(
                reset_done(was, job)(end),
                k,
                rule,
            ) by {
                match end.result {
                    Err(e) => lemma_recover_fails(end.conn, was, e, m, good),
                    Ok(_) => assert(keeps(job_after_reset(end.conn, was, job), m, rule)),
                }
            }
            lemma_bind_keeps(reset_interface_script(c), reset_done(was, job), m, reset, rule);
        } else {
            assert(good(n, Finished { connection: f.connection, result: f.result }));
        }
    }
    lemma_bind_keeps(connect_script(p), connected(was, job), m, first, rule);
}

/// If the operation succeeds, `data` is stored from `addr` on, and nothing else
/// changed.
pub open spec fn device_stores(before: Memory, addr: int, data: Seq<u8>) -> spec_fn(
    Memory,
    Finished,
) -> bool {
    |m: Memory, f: Finished|
        f.result is Ok ==> m == (Memory { bytes: store(before.bytes, addr, data), ..before })
}

/// If the operation succeeds on a device that answers with what is stored, then
/// that is what it gives back; and nothing changed.
pub open spec fn device_loads(before: Memory, addr: int, len: int) -> spec_fn(
    Memory,
    Finished,
) -> bool {
    |m: Memory, f: Finished|
        f.result matches Ok(value) ==> {
            &&& m.bytes == before.bytes
            &&& m.honest ==> value == Output::Bytes(load(before.bytes, addr, len))
        }
}

/// Law: a read of a device that succeeds gives back what the device has stored
/// from the address on, if the device answers with that, and changes nothing.
pub proof fn law_device_read(p: PicobootState, addr: u32, size: u32, flash: bool, m: Memory)
    requires
        m.pending is None,
    ensures
        keeps(
            job_script(p, Job::Read { addr, size, flash }),
            m,
            remembering(device_loads(m, addr as int, size as int)),
        ),
{
    let job = Job::Read { addr, size, flash };
    let good = device_loads(m, addr as int, size as int);
    assert forall|c: ConnectionState, was: bool|
        keeps(#[trigger] job_after_reset(c, was, job), m, remembering(good)) by {
        let first = loads(m, addr as int, size as int);
        law_read_loads(c, addr, size, m);
        lemma_kept_open_same(query_script(c, read_cmd(c, addr, size, flash)), was, m, first, good);
    }
    lemma_job_memory(p, job, m, good);
}

/// Law: a write to a device that succeeds has the device store the buffer, byte
/// for byte, from the address on, with the last page of flash filled up with
/// zeros, and nothing else.
#[verifier::spinoff_prover]
#[verifier::rlimit(40)]
pub proof fn law_device_write(p: PicobootState, addr: u32, buf: Seq<u8>, flash: bool, m: Memory)
    requires
        m.pending is None,
        write_fits(addr, buf.len() as int),
        buf.len() <= 0x1_0000_0000,
        !flash ==> on_pages(addr, buf.len() as int),
    ensures
        keeps(
            job_script(p, Job::Write { addr, buf, flash }),
            m,
            remembering(device_stores(m, addr as int, landed(addr as int, buf))),
        ),
{
    let job = Job::Write { addr, buf, flash };
    let good = device_stores(m, addr as int, landed(addr as int, buf));
    assert forall|c: ConnectionState, was: bool|
        keeps(#[trigger] job_after_reset(c, was, job), m, remembering(good)) by {
        let first = stores(m, addr as int, landed(addr as int, buf));
        let s = if flash {
            flash_write_script(c, addr, buf)
        } else {
            write_script(c, addr, buf)
        };
        if !flash || addr % FLASH_PAGE_SIZE == 0 {
            law_write_stores(c, addr, buf, m);
        }
        lemma_kept_open_same(s, was, m, first, good);
    }
    lemma_job_memory(p, job, m, good);
}

/// If the operation succeeds, the range is erased, the device is out of XIP mode,
/// and nothing else changed.
pub open spec fn device_erases(before: Memory, addr: int, size: int) -> spec_fn(
    Memory,
    Finished,
) -> bool {
    |m: Memory, f: Finished|
        f.result is Ok ==> m == (Memory {
            bytes: store(before.bytes, addr, blank(size)),
            xip: false,
            ..before
        })
}

/// Law: an erase of a device that succeeds has the device erase the range, and
/// nothing else, even if the device would lose an erase in XIP mode.
#[verifier::spinoff_prover]
#[verifier::rlimit(40)]
pub proof fn law_device_erase(p: PicobootState, addr: u32, size: u32, m: Memory)
    requires
        m.pending is None,
    ensures
        keeps(
            job_script(p, Job::Erase { addr, size }),
            m,
            remembering(device_erases(m, addr as int, size as int)),
        ),
{
    let job = Job::Erase { addr, size };
    let good = device_erases(m, addr as int, size as int);
    let out = Memory { xip: false, ..m };
    assert forall|c: ConnectionState, was: bool|
        keeps(#[trigger] job_after_reset(c, was, job), m, remembering(good)) by {
        let exit = WireCmd::exit_xip();
        let sent = exit.with_token(c.cmd_token);
        let first = remembering(
            becomes(Memory { pending: None, ..served_out(m, cmd_bytes(sent)) }),
        );
        assert(exit.args =~= le32(0) + le32(0) + zeros(8));
        lemma_range_cmd(sent, 0, 0);
        assert(Memory { pending: None, ..served_out(m, cmd_bytes(sent)) } == out);
        lemma_command_serves(c, exit, m);
        assert forall|n: Memory, end: Ended| #[trigger] (first.ends)(n, end) implies keeps(
            xip_exited(was, addr, size)(end),
            n,
            remembering(good),
        ) by {
            match end.result {
                Err(e) => lemma_recover_fails(end.conn, was, e, n, good),
                Ok(_) => {
                    law_erase_blanks(end.conn, addr, size, out);
                    lemma_kept_open_same(
                        command_script(end.conn, flash_erase_cmd(end.conn, addr, size)),
                        was,
                        out,
                        stores(out, addr as int, blank(size as int)),
                        good,
                    );
                },
            }
        }
        lemma_bind_keeps(
            command_script(c, Ok(exit)),
            xip_exited(was, addr, size),
            m,
            first,
            remembering(good),
        );
    }
    lemma_job_memory(p, job, m, good);
}

/// If the operation succeeds, the sectors of `data` are erased, with `data`
/// stored at their start and its last page filled up with zeros, and nothing else
/// changed.
pub open spec fn device_replaces(before: Memory, addr: int, size: int, data: Seq<u8>) -> spec_fn(
    Memory,
    Finished,
) -> bool {
    |m: Memory, f: Finished|
        f.result is Ok ==> m == (Memory {
            bytes: store(store(before.bytes, addr, blank(size)), addr, landed(addr, data)),
            ..before
        })
}

/// Law: an erase and write that succeeds, on a device where the erase takes
/// effect, has the device erase the sectors, and store the buffer, byte for byte,
/// from the address on, with the last page filled up with zeros, and nothing else.
#[verifier::spinoff_prover]
#[verifier::rlimit(40)]
pub proof fn law_device_erase_and_write(
    p: PicobootState,
    addr: u32,
    size: u32,
    buf: Seq<u8>,
    m: Memory,
)
    requires
        m.pending is None,
        erases(m),
        write_fits(addr, buf.len() as int),
        buf.len() <= 0x1_0000_0000,
    ensures
        keeps(
            job_script(p, Job::EraseWrite { addr, size, buf }),
            m,
            remembering(device_replaces(m, addr as int, size as int, buf)),
        ),
{
    let job = Job::EraseWrite { addr, size, buf };
    let good = device_replaces(m, addr as int, size as int, buf);
    assert forall|c: ConnectionState, was: bool|
        keeps(#[trigger] job_after_reset(c, was, job), m, remembering(good)) by {
        let w = flash_erase_cmd(c, addr, size);
        let first = remembering(stores(m, addr as int, blank(size as int)));
        law_erase_blanks(c, addr, size, m);
        assert forall|n: Memory, end: Ended| #[trigger] (first.ends)(n, end) implies keeps(
            erased(was, addr, buf)(end),
            n,
            remembering(good),
        ) by {
            match end.result {
                Err(e) => lemma_recover_fails(end.conn, was, e, n, good),
                Ok(_) => {
                    if addr % FLASH_PAGE_SIZE == 0 {
                        law_write_stores(end.conn, addr, buf, n);
                    }
                    lemma_kept_open_same(
                        flash_write_script(end.conn, addr, buf),
                        was,
                        n,
                        stores(n, addr as int, landed(addr as int, buf)),
                        good,
                    );
                },
            }
        }
        lemma_bind_keeps(
            command_script(c, w),
            erased(was, addr, buf),
            m,
            first,
            remembering(good),
        );
    }
    lemma_job_memory(p, job, m, good);
}

/// Law: an erase and write of a device, from the start of a sector, that succeeds
/// on a device where the erase takes effect leaves the fewest whole sectors that
/// hold the buffer, `whole` bytes of them, erased, but for the buffer at their
/// start, with its last page filled up with zeros.  Nothing else changes.
pub proof fn law_erase_and_write_replaces(
    p: PicobootState,
    addr: u32,
    buf: Seq<u8>,
    whole: int,
    m: Memory,
)
    requires
        m.pending is None,
        erases(m),
        addr as int % 4096 == 0,
        buf.len() <= u32::MAX,
        whole % 4096 == 0,
        buf.len() <= whole < buf.len() + 4096,
        whole <= u32::MAX,
        write_fits(addr, buf.len() as int),
    ensures
        keeps(
            flash_erase_and_write_script(p, addr, buf),
            m,
            remembering(device_replaces(m, addr as int, whole, buf)),
        ),
{
    law_erase_and_write_covers(p, addr, buf, whole);
    law_device_erase_and_write(p, addr, whole as u32, buf, m);
}

/// If the read succeeds on a device that answers with what is stored, then the
/// bytes asked for are found in what it gives back; and nothing changed.
pub open spec fn reader_loads(before: Memory, addr: u32, len: int) -> spec_fn(
    Memory,
    Finished,
) -> bool {
    |m: Memory, f: Finished|
        f.result matches Ok(value) ==> {
            &&& m.bytes == before.bytes
            &&& m.honest ==> {
                &&& value matches Output::Bytes(data)
                &&& read_plan(addr, len).offset + len <= data.len()
                &&& window(read_plan(addr, len), len, data) == load(
                    before.bytes,
                    addr as int,
                    len,
                )
            }
        }
}

/// Law: a reader finds the bytes that the device has stored from the address on,
/// whatever their alignment, if the device answers with what is stored.
#[verifier::spinoff_prover]
#[verifier::rlimit(40)]
pub proof fn law_reader_loads(c: ConnectionState, addr: u32, len: int, m: Memory)
    requires
        m.pending is None,
        0 <= len,
        plan_is_whole(addr, len),
    ensures
        keeps(reader_read_script(c, addr, len), m, remembering(reader_loads(m, addr, len))),
{
    let plan = read_plan(addr, len);
    let first = remembering(loads(m, plan.addr as int, plan.size as int));
    let rule = remembering(reader_loads(m, addr, len));
    let s = query_script(c, Ok(reader_cmd(addr, len)));
    law_read_loads(c, plan.addr, plan.size, m);
    assert forall|n: Memory, end: Ended| #[trigger] (first.ends)(n, end) implies keeps(
        reader_read()(end),
        n,
        rule,
    ) by {
        match end.result {
            Ok(_) => {
                let data = load(m.bytes, plan.addr as int, plan.size as int);
                assert(window(plan, len, data) =~= load(m.bytes, addr as int, len));
            },
            Err(e) => {
                let reset = remembering(same::<Ended>(n));
                lemma_reset_unnoticed(end.conn, n, reset);
                lemma_bind_keeps(
                    reset_interface_script(end.conn),
                    reader_recovered(e),
                    n,
                    reset,
                    rule,
                );
            },
        }
    }
    lemma_bind_keeps(s, reader_read(), m, first, rule);
}

} // verus!
