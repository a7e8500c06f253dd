//! PICOBOOT commands and statuses, and their bytes on the wire.
//!
//! See <https://datasheets.raspberrypi.com/rp2040/rp2040-datasheet.pdf>
//! section 2.8.5 for details on the PICOBOOT interface.

use vstd::prelude::*;
use vstd::std_specs::convert::TryFromSpecImpl;

use crate::bytes::{le16, le16_at, le32, le32_at, push_le16, push_le32, read_le16, read_le32};
use crate::error::Incomplete;
use crate::target::{Direction, PICOBOOT_MAGIC};

verus! {

/// Control request that resets the PICOBOOT interface
pub const REQUEST_RESET: u8 = 0x41;

/// Control request for the status of the last command
pub const REQUEST_GET_COMMAND_STATUS: u8 = 0x42;

/// Bytes of a command status
pub const RESPONSE_GET_COMMAND_STATUS_SIZE: usize = 16;

/// Bytes of a command
pub const COMMAND_SIZE: usize = 32;

/// Bytes of a command's arguments
pub const ARGS_SIZE: usize = 16;

/// Command ID of commands for PICOBOOT interface.
#[derive(Debug, Clone, Copy, PartialEq, Eq, Structural)]
pub enum PicobootCmdId {
    /// Request exclusive access to the device, ejecting mass storage if
    /// desired.
    ExclusiveAccess,
    /// Reboot an RP2040
    Reboot,
    /// Reboot an RP2350
    Reboot2,
    /// Erase a region of FLASH.  Must be aligned to sector boundaries and
    /// be a multiple of sector size.
    FlashErase,
    /// Write to RAM or FLASH.  Does not erase first, and FLASH writes must be
    /// aligned to page boundaries.  Writes of less than a page multiple will
    /// be padded with zeros.
    Write,
    /// Exit XIP mode - supported but a no-op on RP2350
    ExitXip,
    /// Enter XIP mode - supported but a no-op on RP2350
    EnterXip,
    /// Execute code in RAM or FLASH - only supported on RP2040
    Exec,
    /// Requests that the vector table of flash access functions used
    /// internally by the Mass Storage and PICOBOOT interfaces be copied into
    /// RAM - only supported on RP2040
    VectorizeFlash,
    /// Write to OTP - only supported on RP2350
    OtpWrite,
    /// Get device information - only supported on RP2350
    GetInfo,
    /// Read from OTP - only supported on RP2350
    OtpRead,
    /// Read from RAM or FLASH
    Read,
}

/// The command with this number, if there is one.
pub open spec fn cmd_id_of(code: u8) -> Option<PicobootCmdId> {
    if code == 0x01 {
        Some(PicobootCmdId::ExclusiveAccess)
    } else if code == 0x02 {
        Some(PicobootCmdId::Reboot)
    } else if code == 0x03 {
        Some(PicobootCmdId::FlashErase)
    } else if code == 0x05 {
        Some(PicobootCmdId::Write)
    } else if code == 0x06 {
        Some(PicobootCmdId::ExitXip)
    } else if code == 0x07 {
        Some(PicobootCmdId::EnterXip)
    } else if code == 0x08 {
        Some(PicobootCmdId::Exec)
    } else if code == 0x09 {
        Some(PicobootCmdId::VectorizeFlash)
    } else if code == 0x0a {
        Some(PicobootCmdId::Reboot2)
    } else if code == 0x0d {
        Some(PicobootCmdId::OtpWrite)
    } else if code == 0x84 {
        Some(PicobootCmdId::Read)
    } else if code == 0x8b {
        Some(PicobootCmdId::GetInfo)
    } else if code == 0x8c {
        Some(PicobootCmdId::OtpRead)
    } else {
        None
    }
}

/// Direction of the data of a command: the top bit of its number.
pub open spec fn direction_of(code: u8) -> Direction {
    if code >= 0x80 {
        Direction::In
    } else {
        Direction::Out
    }
}

impl TryFromSpecImpl<u8> for PicobootCmdId {
    open spec fn obeys_try_from_spec() -> bool {
        true
    }

    open spec fn try_from_spec(x: u8) -> Result<Self, ()> {
        match cmd_id_of(x) {
            Some(id) => Ok(id),
            None => Err(()),
        }
    }
}

impl TryFrom<u8> for PicobootCmdId {
    type Error = ();

    fn try_from(x: u8) -> (id: Result<Self, ()>) {
        match x {
            0x01 => Ok(Self::ExclusiveAccess),
            0x02 => Ok(Self::Reboot),
            0x03 => Ok(Self::FlashErase),
            0x84 => Ok(Self::Read),
            0x05 => Ok(Self::Write),
            0x06 => Ok(Self::ExitXip),
            0x07 => Ok(Self::EnterXip),
            0x08 => Ok(Self::Exec),
            0x09 => Ok(Self::VectorizeFlash),
            0x0a => Ok(Self::Reboot2),
            0x8b => Ok(Self::GetInfo),
            0x8c => Ok(Self::OtpRead),
            0x0d => Ok(Self::OtpWrite),
            _ => Err(()),
        }
    }
}

impl PicobootCmdId {
    /// The command's number.
    pub open spec fn code_of(self) -> u8 {
        match self {
            PicobootCmdId::ExclusiveAccess => 0x01,
            PicobootCmdId::Reboot => 0x02,
            PicobootCmdId::Reboot2 => 0x0a,
            PicobootCmdId::FlashErase => 0x03,
            PicobootCmdId::Write => 0x05,
            PicobootCmdId::ExitXip => 0x06,
            PicobootCmdId::EnterXip => 0x07,
            PicobootCmdId::Exec => 0x08,
            PicobootCmdId::VectorizeFlash => 0x09,
            PicobootCmdId::OtpWrite => 0x0d,
            PicobootCmdId::GetInfo => 0x8b,
            PicobootCmdId::OtpRead => 0x8c,
            PicobootCmdId::Read => 0x84,
        }
    }

    /// The command's name.
    pub open spec fn name_of(self) -> Seq<char> {
        match self {
            PicobootCmdId::ExclusiveAccess => "EXCLUSIVE_ACCESS"@,
            PicobootCmdId::Reboot => "REBOOT"@,
            PicobootCmdId::Reboot2 => "REBOOT2"@,
            PicobootCmdId::FlashErase => "FLASH_ERASE"@,
            PicobootCmdId::Write => "WRITE"@,
            PicobootCmdId::ExitXip => "EXIT_XIP"@,
            PicobootCmdId::EnterXip => "ENTER_XIP"@,
            PicobootCmdId::Exec => "EXEC"@,
            PicobootCmdId::VectorizeFlash => "VECTORIZE_FLASH"@,
            PicobootCmdId::GetInfo => "GET_INFO"@,
            PicobootCmdId::OtpRead => "OTP_READ"@,
            PicobootCmdId::OtpWrite => "OTP_WRITE"@,
            PicobootCmdId::Read => "READ"@,
        }
    }

    /// The command's number.
    pub fn code(&self) -> (code: u8)
        ensures
            code == self.code_of(),
    {
        match self {
            PicobootCmdId::ExclusiveAccess => 0x01,
            PicobootCmdId::Reboot => 0x02,
            PicobootCmdId::Reboot2 => 0x0a,
            PicobootCmdId::FlashErase => 0x03,
            PicobootCmdId::Write => 0x05,
            PicobootCmdId::ExitXip => 0x06,
            PicobootCmdId::EnterXip => 0x07,
            PicobootCmdId::Exec => 0x08,
            PicobootCmdId::VectorizeFlash => 0x09,
            PicobootCmdId::OtpWrite => 0x0d,
            PicobootCmdId::GetInfo => 0x8b,
            PicobootCmdId::OtpRead => 0x8c,
            PicobootCmdId::Read => 0x84,
        }
    }

    /// The command's name.
    pub fn to_string(&self) -> (name: String)
        ensures
            name@ == self.name_of(),
    {
        match self {
            PicobootCmdId::ExclusiveAccess => "EXCLUSIVE_ACCESS".to_owned(),
            PicobootCmdId::Reboot => "REBOOT".to_owned(),
            PicobootCmdId::Reboot2 => "REBOOT2".to_owned(),
            PicobootCmdId::FlashErase => "FLASH_ERASE".to_owned(),
            PicobootCmdId::Write => "WRITE".to_owned(),
            PicobootCmdId::ExitXip => "EXIT_XIP".to_owned(),
            PicobootCmdId::EnterXip => "ENTER_XIP".to_owned(),
            PicobootCmdId::Exec => "EXEC".to_owned(),
            PicobootCmdId::VectorizeFlash => "VECTORIZE_FLASH".to_owned(),
            PicobootCmdId::GetInfo => "GET_INFO".to_owned(),
            PicobootCmdId::OtpRead => "OTP_READ".to_owned(),
            PicobootCmdId::OtpWrite => "OTP_WRITE".to_owned(),
            PicobootCmdId::Read => "READ".to_owned(),
        }
    }

    /// Direction of the command's data.
    pub fn direction(&self) -> (direction: Direction)
        ensures
            direction == direction_of(self.code_of()),
    {
        code_direction(self.code())
    }
}

/// Direction of the data of the command with this number.
fn code_direction(code: u8) -> (direction: Direction)
    ensures
        direction == direction_of(code),
{
    assert((code & 0x80 != 0) == (code >= 0x80)) by (bit_vector);
    if code & 0x80 != 0 {
        Direction::In
    } else {
        Direction::Out
    }
}

/// Law: the numbers of the commands.
pub proof fn law_cmd_codes(id: PicobootCmdId)
    ensures
        id.code_of() == (match id {
            PicobootCmdId::ExclusiveAccess => 1u8,
            PicobootCmdId::Reboot => 2,
            PicobootCmdId::FlashErase => 3,
            PicobootCmdId::Write => 5,
            PicobootCmdId::ExitXip => 6,
            PicobootCmdId::EnterXip => 7,
            PicobootCmdId::Exec => 8,
            PicobootCmdId::VectorizeFlash => 9,
            PicobootCmdId::Reboot2 => 10,
            PicobootCmdId::OtpWrite => 13,
            PicobootCmdId::Read => 0x84,
            PicobootCmdId::GetInfo => 0x8b,
            PicobootCmdId::OtpRead => 0x8c,
        }),
{
}

/// Law: a command's number names that command, and no other number does.
pub proof fn law_cmd_id_round_trip(id: PicobootCmdId, code: u8)
    ensures
        cmd_id_of(id.code_of()) == Some(id),
        cmd_id_of(code) == Some(id) ==> code == id.code_of(),
{
}

/// Status of a command.
#[derive(Debug, Clone, Copy, PartialEq, Eq, Structural)]
pub enum PicobootStatus {
    /// Success
    Okay,
    UnknownCmd,
    InvalidCmdLength,
    InvalidTransferLength,
    InvalidAddress,
    BadAlignment,
    InterleavedWrite,
    Rebooting,
    UnknownError,
    InvalidState,
    NotPermitted,
    InvalidArg,
    BufferTooSmall,
    PreconditionNotMet,
    ModifiedData,
    InvalidData,
    NotFound,
    UnsupportedModification,
}

/// The status with this number, if there is one.
pub open spec fn status_of(code: u32) -> Option<PicobootStatus> {
    if code == 0 {
        Some(PicobootStatus::Okay)
    } else if code == 1 {
        Some(PicobootStatus::UnknownCmd)
    } else if code == 2 {
        Some(PicobootStatus::InvalidCmdLength)
    } else if code == 3 {
        Some(PicobootStatus::InvalidTransferLength)
    } else if code == 4 {
        Some(PicobootStatus::InvalidAddress)
    } else if code == 5 {
        Some(PicobootStatus::BadAlignment)
    } else if code == 6 {
        Some(PicobootStatus::InterleavedWrite)
    } else if code == 7 {
        Some(PicobootStatus::Rebooting)
    } else if code == 8 {
        Some(PicobootStatus::UnknownError)
    } else if code == 9 {
        Some(PicobootStatus::InvalidState)
    } else if code == 10 {
        Some(PicobootStatus::NotPermitted)
    } else if code == 11 {
        Some(PicobootStatus::InvalidArg)
    } else if code == 12 {
        Some(PicobootStatus::BufferTooSmall)
    } else if code == 13 {
        Some(PicobootStatus::PreconditionNotMet)
    } else if code == 14 {
        Some(PicobootStatus::ModifiedData)
    } else if code == 15 {
        Some(PicobootStatus::InvalidData)
    } else if code == 16 {
        Some(PicobootStatus::NotFound)
    } else if code == 17 {
        Some(PicobootStatus::UnsupportedModification)
    } else {
        None
    }
}

impl TryFromSpecImpl<u32> for PicobootStatus {
    open spec fn obeys_try_from_spec() -> bool {
        true
    }

    open spec fn try_from_spec(x: u32) -> Result<Self, ()> {
        match status_of(x) {
            Some(status) => Ok(status),
            None => Err(()),
        }
    }
}

impl TryFrom<u32> for PicobootStatus {
    type Error = ();

    fn try_from(x: u32) -> (status: Result<Self, ()>) {
        match x {
            0 => Ok(Self::Okay),
            1 => Ok(Self::UnknownCmd),
            2 => Ok(Self::InvalidCmdLength),
            3 => Ok(Self::InvalidTransferLength),
            4 => Ok(Self::InvalidAddress),
            5 => Ok(Self::BadAlignment),
            6 => Ok(Self::InterleavedWrite),
            7 => Ok(Self::Rebooting),
            8 => Ok(Self::UnknownError),
            9 => Ok(Self::InvalidState),
            10 => Ok(Self::NotPermitted),
            11 => Ok(Self::InvalidArg),
            12 => Ok(Self::BufferTooSmall),
            13 => Ok(Self::PreconditionNotMet),
            14 => Ok(Self::ModifiedData),
            15 => Ok(Self::InvalidData),
            16 => Ok(Self::NotFound),
            17 => Ok(Self::UnsupportedModification),
            _ => Err(()),
        }
    }
}

impl PicobootStatus {
    /// The status's number.
    pub open spec fn code_of(self) -> u32 {
        match self {
            PicobootStatus::Okay => 0,
            PicobootStatus::UnknownCmd => 1,
            PicobootStatus::InvalidCmdLength => 2,
            PicobootStatus::InvalidTransferLength => 3,
            PicobootStatus::InvalidAddress => 4,
            PicobootStatus::BadAlignment => 5,
            PicobootStatus::InterleavedWrite => 6,
            PicobootStatus::Rebooting => 7,
            PicobootStatus::UnknownError => 8,
            PicobootStatus::InvalidState => 9,
            PicobootStatus::NotPermitted => 10,
            PicobootStatus::InvalidArg => 11,
            PicobootStatus::BufferTooSmall => 12,
            PicobootStatus::PreconditionNotMet => 13,
            PicobootStatus::ModifiedData => 14,
            PicobootStatus::InvalidData => 15,
            PicobootStatus::NotFound => 16,
            PicobootStatus::UnsupportedModification => 17,
        }
    }

    /// The status's number.
    pub fn code(&self) -> (code: u32)
        ensures
            code == self.code_of(),
    {
        match self {
            PicobootStatus::Okay => 0,
            PicobootStatus::UnknownCmd => 1,
            PicobootStatus::InvalidCmdLength => 2,
            PicobootStatus::InvalidTransferLength => 3,
            PicobootStatus::InvalidAddress => 4,
            PicobootStatus::BadAlignment => 5,
            PicobootStatus::InterleavedWrite => 6,
            PicobootStatus::Rebooting => 7,
            PicobootStatus::UnknownError => 8,
            PicobootStatus::InvalidState => 9,
            PicobootStatus::NotPermitted => 10,
            PicobootStatus::InvalidArg => 11,
            PicobootStatus::BufferTooSmall => 12,
            PicobootStatus::PreconditionNotMet => 13,
            PicobootStatus::ModifiedData => 14,
            PicobootStatus::InvalidData => 15,
            PicobootStatus::NotFound => 16,
            PicobootStatus::UnsupportedModification => 17,
        }
    }

    /// Whether the status is success.
    pub fn is_ok(&self) -> (ok: bool)
        ensures
            ok == (*self == PicobootStatus::Okay),
    {
        matches!(self, PicobootStatus::Okay)
    }
}

/// Law: a status's number names that status, and no other number does.
pub proof fn law_status_round_trip(status: PicobootStatus, code: u32)
    ensures
        status_of(status.code_of()) == Some(status),
        status_of(code) == Some(status) ==> code == status.code_of(),
{
}

/// Law: the numbers of the statuses; no status has a higher one.
pub proof fn law_status_codes(status: PicobootStatus, code: u32)
    ensures
        status.code_of() == (match status {
            PicobootStatus::Okay => 0u32,
            PicobootStatus::UnknownCmd => 1,
            PicobootStatus::InvalidCmdLength => 2,
            PicobootStatus::InvalidTransferLength => 3,
            PicobootStatus::InvalidAddress => 4,
            PicobootStatus::BadAlignment => 5,
            PicobootStatus::InterleavedWrite => 6,
            PicobootStatus::Rebooting => 7,
            PicobootStatus::UnknownError => 8,
            PicobootStatus::InvalidState => 9,
            PicobootStatus::NotPermitted => 10,
            PicobootStatus::InvalidArg => 11,
            PicobootStatus::BufferTooSmall => 12,
            PicobootStatus::PreconditionNotMet => 13,
            PicobootStatus::ModifiedData => 14,
            PicobootStatus::InvalidData => 15,
            PicobootStatus::NotFound => 16,
            PicobootStatus::UnsupportedModification => 17,
        }),
        status_of(code) is Some <==> code <= 17,
{
}

/// A sequence of `n` zero bytes.
pub open spec fn zeros(n: nat) -> Seq<u8> {
    Seq::new(n, |i: int| 0u8)
}

/// Arguments of the commands that work on a range of addresses.
pub struct PicobootRangeCmd {}

impl PicobootRangeCmd {
    /// The bytes of the arguments.
    pub fn ser(addr: u32, size: u32) -> (args: [u8; 16])
        ensures
            args@ == le32(addr) + le32(size) + zeros(8),
    {
        args_of(addr, size, 0, 0)
    }
}

/// Arguments of a REBOOT command.
pub struct PicobootRebootCmd {}

impl PicobootRebootCmd {
    /// The bytes of the arguments.
    pub fn ser(pc: u32, sp: u32, delay: u32) -> (args: [u8; 16])
        ensures
            args@ == le32(pc) + le32(sp) + le32(delay) + zeros(4),
    {
        args_of(pc, sp, delay, 0)
    }
}

/// Arguments of a REBOOT2 command.
pub struct PicobootReboot2Cmd {}

impl PicobootReboot2Cmd {
    /// The bytes of the arguments.
    pub fn ser(flags: u32, delay: u32, p0: u32, p1: u32) -> (args: [u8; 16])
        ensures
            args@ == le32(flags) + le32(delay) + le32(p0) + le32(p1),
    {
        args_of(flags, delay, p0, p1)
    }
}

/// Four integers as the bytes of a command's arguments.
fn args_of(a: u32, b: u32, c: u32, d: u32) -> (args: [u8; 16])
    ensures
        args@ == le32(a) + le32(b) + le32(c) + le32(d),
        c == 0 && d == 0 ==> args@ == le32(a) + le32(b) + zeros(8),
        d == 0 ==> args@ == le32(a) + le32(b) + le32(c) + zeros(4),
{
    let args: [u8; 16] = [
        (a % 256) as u8,
        (a / 0x100 % 256) as u8,
        (a / 0x1_0000 % 256) as u8,
        (a / 0x100_0000) as u8,
        (b % 256) as u8,
        (b / 0x100 % 256) as u8,
        (b / 0x1_0000 % 256) as u8,
        (b / 0x100_0000) as u8,
        (c % 256) as u8,
        (c / 0x100 % 256) as u8,
        (c / 0x1_0000 % 256) as u8,
        (c / 0x100_0000) as u8,
        (d % 256) as u8,
        (d / 0x100 % 256) as u8,
        (d / 0x1_0000 % 256) as u8,
        (d / 0x100_0000) as u8,
    ];
    assert(args@ =~= le32(a) + le32(b) + le32(c) + le32(d));
    assert(c == 0 && d == 0 ==> args@ =~= le32(a) + le32(b) + zeros(8));
    assert(d == 0 ==> args@ =~= le32(a) + le32(b) + le32(c) + zeros(4));
    args
}

/// A command status, as the device sends it.
pub struct StatusView {
    pub token: u32,
    pub status_code: u32,
    pub cmd_id: u8,
    pub in_progress: u8,
    pub unused: Seq<u8>,
}

/// The bytes of a command status.
pub open spec fn status_bytes(s: StatusView) -> Seq<u8> {
    le32(s.token) + le32(s.status_code) + seq![s.cmd_id, s.in_progress] + s.unused
}

/// The command status that `bytes` starts with.
pub open spec fn status_at(bytes: Seq<u8>) -> StatusView {
    StatusView {
        token: le32_at(bytes, 0),
        status_code: le32_at(bytes, 4),
        cmd_id: bytes[8],
        in_progress: bytes[9],
        unused: bytes.subrange(10, 16),
    }
}

/// What is missing of a command status of `len` bytes, the first field that is
/// cut short: two integers of four bytes, then single bytes.
pub open spec fn status_lacks(len: nat) -> Incomplete {
    Incomplete {
        bits: if len < 8 {
            32
        } else {
            8
        },
    }
}

/// Status of the last command, as the device reports it.
#[derive(Debug, Clone, Copy)]
pub struct PicobootStatusCmd {
    token: u32,
    status_code: u32,
    cmd_id: u8,
    in_progress: u8,
    _unused: [u8; 6],
}

impl View for PicobootStatusCmd {
    type V = StatusView;

    closed spec fn view(&self) -> StatusView {
        StatusView {
            token: self.token,
            status_code: self.status_code,
            cmd_id: self.cmd_id,
            in_progress: self.in_progress,
            unused: self._unused@,
        }
    }
}

impl PicobootStatusCmd {
    /// Reads the status that `input` starts with, and says what follows it.
    pub fn from_bytes(input: &[u8]) -> (status: Result<(&[u8], Self), Incomplete>)
        ensures
            if input@.len() < RESPONSE_GET_COMMAND_STATUS_SIZE {
                status == Err::<(&[u8], Self), Incomplete>(status_lacks(input@.len()))
            } else {
                &&& status matches Ok((rest, read))
                &&& rest@ == input@.skip(RESPONSE_GET_COMMAND_STATUS_SIZE as int)
                &&& read@ == status_at(input@)
            },
    {
        let len: usize = input.len();
        if len < RESPONSE_GET_COMMAND_STATUS_SIZE {
            return Err(
                Incomplete {
                    bits: if len < 8 {
                        32
                    } else {
                        8
                    },
                },
            );
        }
        let rest = vstd::slice::slice_subrange(input, RESPONSE_GET_COMMAND_STATUS_SIZE, len);
        assert(rest@ =~= input@.skip(RESPONSE_GET_COMMAND_STATUS_SIZE as int));
        let unused: [u8; 6] = [input[10], input[11], input[12], input[13], input[14], input[15]];
        assert(unused@ =~= input@.subrange(10, 16));
        let status = PicobootStatusCmd {
            token: read_le32(input, 0),
            status_code: read_le32(input, 4),
            cmd_id: input[8],
            in_progress: input[9],
            _unused: unused,
        };
        Ok((rest, status))
    }

    /// The bytes of the status.
    pub fn to_bytes(&self) -> (bytes: Vec<u8>)
        ensures
            bytes@ == status_bytes(self@),
    {
        let mut bytes: Vec<u8> = Vec::new();
        push_le32(&mut bytes, self.token);
        push_le32(&mut bytes, self.status_code);
        bytes.push(self.cmd_id);
        bytes.push(self.in_progress);
        bytes.push(self._unused[0]);
        bytes.push(self._unused[1]);
        bytes.push(self._unused[2]);
        bytes.push(self._unused[3]);
        bytes.push(self._unused[4]);
        bytes.push(self._unused[5]);
        assert(bytes@ =~= status_bytes(self@));
        bytes
    }

    /// The token of the command the status is about.
    pub fn get_token(&self) -> (token: u32)
        ensures
            token == self@.token,
    {
        self.token
    }

    /// The status the device reported, as a known [`PicobootStatus`].
    ///
    /// A code this crate does not know is reported as
    /// [`PicobootStatus::UnknownError`] rather than panicking: the value comes
    /// off the wire from a device, so it is not something a host can assume is
    /// well formed. Use [`Self::raw_status_code`] for the exact value, or
    /// [`Self::try_status_code`] to tell a genuine `UnknownError` apart from a
    /// code this crate has no name for.
    pub fn get_status_code(&self) -> (status: PicobootStatus)
        ensures
            status == (match status_of(self@.status_code) {
                Some(known) => known,
                None => PicobootStatus::UnknownError,
            }),
    {
        match self.try_status_code() {
            Some(known) => known,
            None => PicobootStatus::UnknownError,
        }
    }

    /// The status the device reported, or `None` if this crate has no name for
    /// the code.
    pub fn try_status_code(&self) -> (status: Option<PicobootStatus>)
        ensures
            status == status_of(self@.status_code),
    {
        match PicobootStatus::try_from(self.status_code) {
            Ok(known) => Some(known),
            Err(_) => None,
        }
    }

    /// The status exactly as the device sent it, known to this crate or not.
    pub fn raw_status_code(&self) -> (code: u32)
        ensures
            code == self@.status_code,
    {
        self.status_code
    }

    /// The number of the command the status is about.
    pub fn get_cmd_id(&self) -> (cmd_id: u8)
        ensures
            cmd_id == self@.cmd_id,
    {
        self.cmd_id
    }

    /// Whether the command is still in progress.
    pub fn get_in_progress(&self) -> (in_progress: u8)
        ensures
            in_progress == self@.in_progress,
    {
        self.in_progress
    }

    /// Whether the device reported success.
    ///
    /// Compares the raw code, so an unrecognised status is correctly *not*
    /// success rather than being mapped through a name first.
    pub fn is_ok(&self) -> (ok: bool)
        ensures
            ok == (self@.status_code == 0),
    {
        self.status_code == PicobootStatus::Okay.code()
    }
}

/// Law: where the fields of a command status stand in its bytes.
pub proof fn law_status_layout(s: StatusView)
    requires
        s.unused.len() == 6,
    ensures
        status_bytes(s).len() == 16,
        status_bytes(s).subrange(0, 4) == le32(s.token),
        status_bytes(s).subrange(4, 8) == le32(s.status_code),
        status_bytes(s)[8] == s.cmd_id,
        status_bytes(s)[9] == s.in_progress,
        status_bytes(s).subrange(10, 16) == s.unused,
{
    let bytes = status_bytes(s);
    assert(bytes.subrange(0, 4) =~= le32(s.token));
    assert(bytes.subrange(4, 8) =~= le32(s.status_code));
    assert(bytes.subrange(10, 16) =~= s.unused);
}

/// Law: a command status is read back from its bytes, whatever follows them.
pub proof fn law_status_cmd_round_trip(s: StatusView, rest: Seq<u8>)
    requires
        s.unused.len() == 6,
    ensures
        status_bytes(s).len() == RESPONSE_GET_COMMAND_STATUS_SIZE,
        status_at(status_bytes(s) + rest) == s,
{
    let bytes = status_bytes(s) + rest;
    assert(bytes.subrange(0, 4) =~= le32(s.token));
    assert(bytes.subrange(4, 8) =~= le32(s.status_code));
    crate::bytes::law_le32_round_trip(s.token, bytes, 0);
    crate::bytes::law_le32_round_trip(s.status_code, bytes, 4);
    assert(bytes.subrange(10, 16) =~= s.unused);
}

/// Law: the bytes of a command status that was read are those it was read from.
pub proof fn law_status_cmd_bytes_of_read(bytes: Seq<u8>)
    requires
        bytes.len() >= RESPONSE_GET_COMMAND_STATUS_SIZE,
    ensures
        status_bytes(status_at(bytes)) == bytes.subrange(0, 16),
{
    crate::bytes::law_le32_bytes_of_read(bytes, 0);
    crate::bytes::law_le32_bytes_of_read(bytes, 4);
    let s = status_at(bytes);
    assert(status_bytes(s) =~= bytes.subrange(0, 4) + bytes.subrange(4, 8) + seq![bytes[8], bytes[9]]
        + bytes.subrange(10, 16));
    assert(status_bytes(s) =~= bytes.subrange(0, 16));
}

/// Law: the status that only means "unknown" stands for every code without a
/// name, and no such code is success.
pub proof fn law_unknown_status_is_not_success(s: StatusView)
    requires
        status_of(s.status_code) is None,
    ensures
        s.status_code != PicobootStatus::Okay.code_of(),
        s.status_code > PicobootStatus::UnsupportedModification.code_of(),
{
}

/// A command, field by field as it goes over the wire.
pub struct WireCmd {
    pub magic: u32,
    pub token: u32,
    pub cmd_id: u8,
    pub cmd_size: u8,
    pub unused: u16,
    pub transfer_len: u32,
    pub args: Seq<u8>,
}

impl WireCmd {
    /// The PICOBOOT command with these fields and no token yet.
    pub open spec fn of(id: PicobootCmdId, cmd_size: u8, transfer_len: u32, args: Seq<u8>) -> Self {
        WireCmd {
            magic: PICOBOOT_MAGIC,
            token: 0,
            cmd_id: id.code_of(),
            cmd_size,
            unused: 0,
            transfer_len,
            args,
        }
    }

    /// The command with another token.
    pub open spec fn with_token(self, token: u32) -> Self {
        WireCmd { token, ..self }
    }

    /// EXCLUSIVE_ACCESS
    pub open spec fn exclusive_access(exclusive: u8) -> Self {
        WireCmd::of(PicobootCmdId::ExclusiveAccess, 1, 0, seq![exclusive] + zeros(15))
    }

    /// REBOOT
    pub open spec fn reboot(pc: u32, sp: u32, delay: u32) -> Self {
        WireCmd::of(
            PicobootCmdId::Reboot,
            12,
            0,
            le32(pc) + le32(sp) + le32(delay) + zeros(4),
        )
    }

    /// REBOOT2
    pub open spec fn reboot2(flags: u32, p0: u32, p1: u32, delay: u32) -> Self {
        WireCmd::of(
            PicobootCmdId::Reboot2,
            16,
            0,
            le32(flags) + le32(delay) + le32(p0) + le32(p1),
        )
    }

    /// FLASH_ERASE
    pub open spec fn flash_erase(addr: u32, size: u32) -> Self {
        WireCmd::of(PicobootCmdId::FlashErase, 8, 0, le32(addr) + le32(size) + zeros(8))
    }

    /// WRITE
    pub open spec fn flash_write(addr: u32, size: u32) -> Self {
        WireCmd::of(PicobootCmdId::Write, 8, size, le32(addr) + le32(size) + zeros(8))
    }

    /// READ
    pub open spec fn flash_read(addr: u32, size: u32) -> Self {
        WireCmd::of(PicobootCmdId::Read, 8, size, le32(addr) + le32(size) + zeros(8))
    }

    /// ENTER_XIP
    pub open spec fn enter_xip() -> Self {
        WireCmd::of(PicobootCmdId::EnterXip, 0, 0, zeros(16))
    }

    /// EXIT_XIP
    pub open spec fn exit_xip() -> Self {
        WireCmd::of(PicobootCmdId::ExitXip, 0, 0, zeros(16))
    }

    /// Direction of the command's data.
    pub open spec fn direction(self) -> Direction {
        direction_of(self.cmd_id)
    }
}

/// The bytes of a command.
pub open spec fn cmd_bytes(c: WireCmd) -> Seq<u8> {
    le32(c.magic) + le32(c.token) + seq![c.cmd_id, c.cmd_size] + le16(c.unused) + le32(
        c.transfer_len,
    ) + c.args
}

/// The command that `bytes` starts with.
pub open spec fn cmd_at(bytes: Seq<u8>) -> WireCmd {
    WireCmd {
        magic: le32_at(bytes, 0),
        token: le32_at(bytes, 4),
        cmd_id: bytes[8],
        cmd_size: bytes[9],
        unused: le16_at(bytes, 10),
        transfer_len: le32_at(bytes, 12),
        args: bytes.subrange(16, 32),
    }
}

/// Law: where the fields of a command stand in its bytes.
pub proof fn law_cmd_layout(c: WireCmd)
    requires
        c.args.len() == ARGS_SIZE,
    ensures
        cmd_bytes(c).len() == 32,
        cmd_bytes(c).subrange(0, 4) == le32(c.magic),
        cmd_bytes(c).subrange(4, 8) == le32(c.token),
        cmd_bytes(c)[8] == c.cmd_id,
        cmd_bytes(c)[9] == c.cmd_size,
        cmd_bytes(c).subrange(10, 12) == le16(c.unused),
        cmd_bytes(c).subrange(12, 16) == le32(c.transfer_len),
        cmd_bytes(c).subrange(16, 32) == c.args,
{
    let bytes = cmd_bytes(c);
    assert(bytes.subrange(0, 4) =~= le32(c.magic));
    assert(bytes.subrange(4, 8) =~= le32(c.token));
    assert(bytes.subrange(10, 12) =~= le16(c.unused));
    assert(bytes.subrange(12, 16) =~= le32(c.transfer_len));
    assert(bytes.subrange(16, 32) =~= c.args);
}

/// Law: data comes from the device if and only if the top bit of the command's
/// number is set.
pub proof fn law_direction(w: WireCmd)
    ensures
        w.direction() == Direction::In <==> w.cmd_id >= 128,
        w.direction() == Direction::Out <==> w.cmd_id < 128,
{
}

/// Law: a command is read back from its bytes, whatever follows them.
pub proof fn law_cmd_round_trip(c: WireCmd, rest: Seq<u8>)
    requires
        c.args.len() == ARGS_SIZE,
    ensures
        cmd_bytes(c).len() == COMMAND_SIZE,
        cmd_at(cmd_bytes(c) + rest) == c,
{
    let bytes = cmd_bytes(c) + rest;
    assert(bytes.subrange(0, 4) =~= le32(c.magic));
    assert(bytes.subrange(4, 8) =~= le32(c.token));
    assert(bytes.subrange(10, 12) =~= le16(c.unused));
    assert(bytes.subrange(12, 16) =~= le32(c.transfer_len));
    crate::bytes::law_le32_round_trip(c.magic, bytes, 0);
    crate::bytes::law_le32_round_trip(c.token, bytes, 4);
    crate::bytes::law_le16_round_trip(c.unused, bytes, 10);
    crate::bytes::law_le32_round_trip(c.transfer_len, bytes, 12);
    assert(bytes.subrange(16, 32) =~= c.args);
}

/// Law: the bytes of a command that was read are those it was read from.
pub proof fn law_cmd_bytes_of_read(bytes: Seq<u8>)
    requires
        bytes.len() >= COMMAND_SIZE,
    ensures
        cmd_bytes(cmd_at(bytes)) == bytes.subrange(0, 32),
{
    crate::bytes::law_le32_bytes_of_read(bytes, 0);
    crate::bytes::law_le32_bytes_of_read(bytes, 4);
    crate::bytes::law_le16_bytes_of_read(bytes, 10);
    crate::bytes::law_le32_bytes_of_read(bytes, 12);
    let c = cmd_at(bytes);
    assert(cmd_bytes(c) =~= bytes.subrange(0, 4) + bytes.subrange(4, 8) + seq![bytes[8], bytes[9]]
        + bytes.subrange(10, 12) + bytes.subrange(12, 16) + bytes.subrange(16, 32));
    assert(cmd_bytes(c) =~= bytes.subrange(0, 32));
}

/// What is missing of a command of `len` bytes, the first field that is cut
/// short: two integers of four bytes, two bytes, one of two, one of four, and
/// single bytes.
pub open spec fn cmd_lacks(len: nat) -> Incomplete {
    Incomplete {
        bits: if len < 8 {
            32
        } else if len < 10 {
            8
        } else if len < 12 {
            16
        } else if len < 16 {
            32
        } else {
            8
        },
    }
}

/// Fields of a command, shared by both protocols.
#[derive(Debug, Clone, Copy)]
struct Fields {
    magic: u32,
    token: u32,
    cmd_id: u8,
    cmd_size: u8,
    unused: u16,
    transfer_len: u32,
    args: [u8; 16],
}

impl View for Fields {
    type V = WireCmd;

    closed spec fn view(&self) -> WireCmd {
        WireCmd {
            magic: self.magic,
            token: self.token,
            cmd_id: self.cmd_id,
            cmd_size: self.cmd_size,
            unused: self.unused,
            transfer_len: self.transfer_len,
            args: self.args@,
        }
    }
}

impl Fields {
    /// The bytes of the command.
    fn to_bytes(&self) -> (bytes: Vec<u8>)
        ensures
            bytes@ == cmd_bytes(self@),
    {
        let mut bytes: Vec<u8> = Vec::new();
        push_le32(&mut bytes, self.magic);
        push_le32(&mut bytes, self.token);
        bytes.push(self.cmd_id);
        bytes.push(self.cmd_size);
        push_le16(&mut bytes, self.unused);
        push_le32(&mut bytes, self.transfer_len);
        let ghost head = bytes@;
        let mut i: usize = 0;
        while i < 16
            invariant
                i <= 16,
                bytes@ == head + self.args@.subrange(0, i as int),
            decreases 16 - i,
        {
            bytes.push(self.args[i]);
            i = i + 1;
            assert(bytes@ =~= head + self.args@.subrange(0, i as int));
        }
        assert(bytes@ =~= cmd_bytes(self@));
        bytes
    }

    /// Reads the command that `input` starts with, and says what follows it.
    fn from_bytes(input: &[u8]) -> (fields: Result<(&[u8], Self), Incomplete>)
        ensures
            if input@.len() < COMMAND_SIZE {
                fields == Err::<(&[u8], Self), Incomplete>(cmd_lacks(input@.len()))
            } else {
                &&& fields matches Ok((rest, read))
                &&& rest@ == input@.skip(COMMAND_SIZE as int)
                &&& read@ == cmd_at(input@)
            },
    {
        let len: usize = input.len();
        if len < COMMAND_SIZE {
            let bits: usize = if len < 8 {
                32
            } else if len < 10 {
                8
            } else if len < 12 {
                16
            } else if len < 16 {
                32
            } else {
                8
            };
            return Err(Incomplete { bits });
        }
        let rest = vstd::slice::slice_subrange(input, COMMAND_SIZE, len);
        assert(rest@ =~= input@.skip(COMMAND_SIZE as int));
        let mut args: [u8; 16] = [0; 16];
        let mut i: usize = 0;
        while i < 16
            invariant
                i <= 16,
                input@.len() >= 32,
                forall|j: int| 0 <= j < i ==> args@[j] == input@[16 + j],
            decreases 16 - i,
        {
            args[i] = input[16 + i];
            i = i + 1;
        }
        assert(args@ =~= input@.subrange(16, 32));
        let fields = Fields {
            magic: read_le32(input, 0),
            token: read_le32(input, 4),
            cmd_id: input[8],
            cmd_size: input[9],
            unused: read_le16(input, 10),
            transfer_len: read_le32(input, 12),
            args,
        };
        Ok((rest, fields))
    }
}

/// Command structure for PICOBOOT interface.
///
/// This structure contains shorthands for creating commands but does not do any
/// sort of runtime checks to ensure safe use of these commands.
#[derive(Debug, Clone, Copy)]
pub struct PicobootCmd {
    fields: Fields,
}

impl View for PicobootCmd {
    type V = WireCmd;

    closed spec fn view(&self) -> WireCmd {
        self.fields@
    }
}

impl PicobootCmd {
    /// Creates a new PicobootCmd
    pub fn new(cmd_id: PicobootCmdId, cmd_size: u8, transfer_len: u32, args: [u8; 16]) -> (cmd:
        Self)
        ensures
            cmd@ == WireCmd::of(cmd_id, cmd_size, transfer_len, args@),
    {
        PicobootCmd {
            fields: Fields {
                magic: PICOBOOT_MAGIC,
                token: 0,
                cmd_id: cmd_id.code(),
                cmd_size,
                unused: 0,
                transfer_len,
                args,
            },
        }
    }

    /// Reads the command that `input` starts with, and says what follows it.
    pub fn from_bytes(input: &[u8]) -> (cmd: Result<(&[u8], Self), Incomplete>)
        ensures
            if input@.len() < COMMAND_SIZE {
                cmd == Err::<(&[u8], Self), Incomplete>(cmd_lacks(input@.len()))
            } else {
                &&& cmd matches Ok((rest, read))
                &&& rest@ == input@.skip(COMMAND_SIZE as int)
                &&& read@ == cmd_at(input@)
            },
    {
        match Fields::from_bytes(input) {
            Ok((rest, fields)) => Ok((rest, PicobootCmd { fields })),
            Err(e) => Err(e),
        }
    }

    /// A command has all its arguments.
    pub proof fn lemma_args(&self)
        ensures
            self@.args.len() == ARGS_SIZE,
    {
    }

    /// The bytes of the command.
    pub fn to_bytes(&self) -> (bytes: Vec<u8>)
        ensures
            bytes@ == cmd_bytes(self@),
    {
        self.fields.to_bytes()
    }

    /// The command with another token.
    pub fn set_token(self, token: u32) -> (cmd: Self)
        ensures
            cmd@ == self@.with_token(token),
    {
        PicobootCmd { fields: Fields { token, ..self.fields } }
    }

    /// Bytes of data that go with the command.
    pub fn get_transfer_len(&self) -> (len: usize)
        ensures
            len == self@.transfer_len,
    {
        self.fields.transfer_len as usize
    }

    /// The command's ID.
    pub fn id(&self) -> (id: PicobootCmdId)
        requires
            cmd_id_of(self@.cmd_id) is Some,
        ensures
            id == cmd_id_of(self@.cmd_id)->0,
    {
        match PicobootCmdId::try_from(self.fields.cmd_id) {
            Ok(id) => id,
            Err(_) => PicobootCmdId::Read,
        }
    }

    /// Whether the command's number is one this crate has a name for.
    pub fn is_known(&self) -> (known: bool)
        ensures
            known == (cmd_id_of(self@.cmd_id) is Some),
    {
        PicobootCmdId::try_from(self.fields.cmd_id).is_ok()
    }

    /// Direction of the command's data.
    pub fn direction(&self) -> (direction: Direction)
        requires
            cmd_id_of(self@.cmd_id) is Some,
        ensures
            direction == self@.direction(),
    {
        self.id().direction()
    }

    /// Whether data goes with the command.
    pub fn is_data_transfer(&self) -> (data: bool)
        ensures
            data == (self@.transfer_len != 0),
    {
        self.fields.transfer_len != 0
    }

    /// Creates an EXCLUSIVE_ACCESS command
    pub fn exclusive_access(exclusive: u8) -> (cmd: Self)
        ensures
            cmd@ == WireCmd::exclusive_access(exclusive),
    {
        let mut args: [u8; 16] = [0; 16];
        args[0] = exclusive;
        assert(args@ =~= seq![exclusive] + zeros(15));
        PicobootCmd::new(PicobootCmdId::ExclusiveAccess, 1, 0, args)
    }

    /// Creates a REBOOT command
    pub fn reboot(pc: u32, sp: u32, delay: u32) -> (cmd: Self)
        ensures
            cmd@ == WireCmd::reboot(pc, sp, delay),
    {
        let args = PicobootRebootCmd::ser(pc, sp, delay);
        PicobootCmd::new(PicobootCmdId::Reboot, 12, 0, args)
    }

    /// Creates a REBOOT2 command (normal boot)
    pub fn reboot2(flags: u32, p0: u32, p1: u32, delay: u32) -> (cmd: Self)
        ensures
            cmd@ == WireCmd::reboot2(flags, p0, p1, delay),
    {
        let args = PicobootReboot2Cmd::ser(flags, delay, p0, p1);
        PicobootCmd::new(PicobootCmdId::Reboot2, 0x10, 0, args)
    }

    /// Creates a FLASH_ERASE command
    pub fn flash_erase(addr: u32, size: u32) -> (cmd: Self)
        ensures
            cmd@ == WireCmd::flash_erase(addr, size),
    {
        let args = PicobootRangeCmd::ser(addr, size);
        PicobootCmd::new(PicobootCmdId::FlashErase, 8, 0, args)
    }

    /// Creates a WRITE command
    pub fn flash_write(addr: u32, size: u32) -> (cmd: Self)
        ensures
            cmd@ == WireCmd::flash_write(addr, size),
    {
        let args = PicobootRangeCmd::ser(addr, size);
        PicobootCmd::new(PicobootCmdId::Write, 8, size, args)
    }

    /// Creates a READ command
    pub fn flash_read(addr: u32, size: u32) -> (cmd: Self)
        ensures
            cmd@ == WireCmd::flash_read(addr, size),
    {
        let args = PicobootRangeCmd::ser(addr, size);
        PicobootCmd::new(PicobootCmdId::Read, 8, size, args)
    }

    /// Creates an ENTER_XIP command
    pub fn enter_xip() -> (cmd: Self)
        ensures
            cmd@ == WireCmd::enter_xip(),
    {
        let args: [u8; 16] = [0; 16];
        assert(args@ =~= zeros(16));
        PicobootCmd::new(PicobootCmdId::EnterXip, 0, 0, args)
    }

    /// Creates an EXIT_XIP command
    pub fn exit_xip() -> (cmd: Self)
        ensures
            cmd@ == WireCmd::exit_xip(),
    {
        let args: [u8; 16] = [0; 16];
        assert(args@ =~= zeros(16));
        PicobootCmd::new(PicobootCmdId::ExitXip, 0, 0, args)
    }
}

/// Command structure for picobootx extended protocol.
///
/// Identical wire format to PicobootCmd but accepts an arbitrary magic value,
/// enabling extension protocols over the same bulk endpoints.
///
/// For commands that require Data IN (that is data to be transferred from the
/// device to the host), the cmd_id should have the MSB (0x80) set, and for
/// Data OUT commands it should be clear.
///
/// The caller is responsible for constructing valid args for their extension
/// protocol using the [`PicobootXCmd`] struct.
#[derive(Debug, Clone, Copy)]
pub struct PicobootXCmd {
    fields: Fields,
}

impl View for PicobootXCmd {
    type V = WireCmd;

    closed spec fn view(&self) -> WireCmd {
        self.fields@
    }
}

impl PicobootXCmd {
    /// Create a new PicobootXCmd with the given magic, cmd_id, cmd_size,
    /// transfer_len and args.
    ///
    /// These fields should be set according to the definition of the
    /// extension.  For more guidance on these fields, see the RP2040/RP2350
    /// datasheets which define the underlying picoboot protocol.
    ///
    /// Any magic can be used so long as it's not [`PICOBOOT_MAGIC`].
    pub fn new(magic: u32, cmd_id: u8, cmd_size: u8, transfer_len: u32, args: [u8; 16]) -> (cmd:
        Self)
        requires
            magic != PICOBOOT_MAGIC,
        ensures
            cmd@ == (WireCmd {
                magic,
                token: 0,
                cmd_id,
                cmd_size,
                unused: 0,
                transfer_len,
                args: args@,
            }),
    {
        PicobootXCmd {
            fields: Fields { magic, token: 0, cmd_id, cmd_size, unused: 0, transfer_len, args },
        }
    }

    /// Reads the command that `input` starts with, and says what follows it.
    pub fn from_bytes(input: &[u8]) -> (cmd: Result<(&[u8], Self), Incomplete>)
        ensures
            if input@.len() < COMMAND_SIZE {
                cmd == Err::<(&[u8], Self), Incomplete>(cmd_lacks(input@.len()))
            } else {
                &&& cmd matches Ok((rest, read))
                &&& rest@ == input@.skip(COMMAND_SIZE as int)
                &&& read@ == cmd_at(input@)
            },
    {
        match Fields::from_bytes(input) {
            Ok((rest, fields)) => Ok((rest, PicobootXCmd { fields })),
            Err(e) => Err(e),
        }
    }

    /// A command has all its arguments.
    pub proof fn lemma_args(&self)
        ensures
            self@.args.len() == ARGS_SIZE,
    {
    }

    /// The bytes of the command.
    pub fn to_bytes(&self) -> (bytes: Vec<u8>)
        ensures
            bytes@ == cmd_bytes(self@),
    {
        self.fields.to_bytes()
    }

    /// The command with another token.
    pub(crate) fn set_token(self, token: u32) -> (cmd: Self)
        ensures
            cmd@ == self@.with_token(token),
    {
        PicobootXCmd { fields: Fields { token, ..self.fields } }
    }

    /// Returns the magic value of this command.
    pub fn get_magic(&self) -> (magic: u32)
        ensures
            magic == self@.magic,
    {
        self.fields.magic
    }

    /// Returns the command ID of this command.
    pub fn get_cmd_id(&self) -> (cmd_id: u8)
        ensures
            cmd_id == self@.cmd_id,
    {
        self.fields.cmd_id
    }

    /// Returns the command size of this command.
    pub fn get_cmd_size(&self) -> (cmd_size: u8)
        ensures
            cmd_size == self@.cmd_size,
    {
        self.fields.cmd_size
    }

    /// Returns the transfer length of this command.
    pub fn get_transfer_len(&self) -> (len: usize)
        ensures
            len == self@.transfer_len,
    {
        self.fields.transfer_len as usize
    }

    /// Returns the args of this command.
    pub fn get_args(&self) -> (args: &[u8])
        requires
            self@.cmd_size <= ARGS_SIZE,
        ensures
            args@ == self@.args.subrange(0, self@.cmd_size as int),
    {
        vstd::slice::slice_subrange(self.fields.args.as_slice(), 0, self.fields.cmd_size as usize)
    }

    /// Returns the direction of this command.
    pub fn direction(&self) -> (direction: Direction)
        ensures
            direction == self@.direction(),
    {
        code_direction(self.fields.cmd_id)
    }

    /// Returns true if this command is a data transfer command (that is, it
    /// expects data to be transferred over the bulk endpoints), false
    /// otherwise.
    pub fn is_data_transfer(&self) -> (data: bool)
        ensures
            data == (self@.transfer_len != 0),
    {
        self.fields.transfer_len != 0
    }
}

} // verus!
