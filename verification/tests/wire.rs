use deku::ctx::Endian;
use deku::no_std_io::Cursor;
use deku::reader::Reader;
use deku::{DekuError, DekuReader};
use picoboot::cmd::{PicobootRangeCmd, PicobootReboot2Cmd, PicobootRebootCmd};
use picoboot::{
    Access, Direction, Incomplete, PicobootCmd, PicobootCmdId, PicobootStatus, PicobootStatusCmd,
    PicobootXCmd, PICOBOOT_MAGIC,
};

const IDS: [(u8, PicobootCmdId, &str); 13] = [
    (0x01, PicobootCmdId::ExclusiveAccess, "EXCLUSIVE_ACCESS"),
    (0x02, PicobootCmdId::Reboot, "REBOOT"),
    (0x0a, PicobootCmdId::Reboot2, "REBOOT2"),
    (0x03, PicobootCmdId::FlashErase, "FLASH_ERASE"),
    (0x05, PicobootCmdId::Write, "WRITE"),
    (0x06, PicobootCmdId::ExitXip, "EXIT_XIP"),
    (0x07, PicobootCmdId::EnterXip, "ENTER_XIP"),
    (0x08, PicobootCmdId::Exec, "EXEC"),
    (0x09, PicobootCmdId::VectorizeFlash, "VECTORIZE_FLASH"),
    (0x0d, PicobootCmdId::OtpWrite, "OTP_WRITE"),
    (0x8b, PicobootCmdId::GetInfo, "GET_INFO"),
    (0x8c, PicobootCmdId::OtpRead, "OTP_READ"),
    (0x84, PicobootCmdId::Read, "READ"),
];

const STATUSES: [PicobootStatus; 18] = [
    PicobootStatus::Okay,
    PicobootStatus::UnknownCmd,
    PicobootStatus::InvalidCmdLength,
    PicobootStatus::InvalidTransferLength,
    PicobootStatus::InvalidAddress,
    PicobootStatus::BadAlignment,
    PicobootStatus::InterleavedWrite,
    PicobootStatus::Rebooting,
    PicobootStatus::UnknownError,
    PicobootStatus::InvalidState,
    PicobootStatus::NotPermitted,
    PicobootStatus::InvalidArg,
    PicobootStatus::BufferTooSmall,
    PicobootStatus::PreconditionNotMet,
    PicobootStatus::ModifiedData,
    PicobootStatus::InvalidData,
    PicobootStatus::NotFound,
    PicobootStatus::UnsupportedModification,
];

/// Build a status packet carrying `code`, as the device would send it.
fn status_with(code: u32) -> PicobootStatusCmd {
    let mut bytes = [0u8; 16];
    bytes[4..8].copy_from_slice(&code.to_le_bytes());
    PicobootStatusCmd::from_bytes(&bytes).unwrap().1
}

/// A status code this crate has no name for must not panic. It arrives from
/// a device over the wire, so it cannot be assumed well formed.
#[test]
fn unknown_status_code_does_not_panic() {
    for code in [18u32, 99, 0xFFFF_FFFF] {
        let status = status_with(code);
        assert_eq!(status.get_status_code(), PicobootStatus::UnknownError);
        assert_eq!(status.try_status_code(), None);
        assert_eq!(status.raw_status_code(), code);
        assert!(!status.is_ok());
    }
}

#[test]
fn known_status_codes_round_trip() {
    let ok = status_with(PicobootStatus::Okay.code());
    assert!(ok.is_ok());
    assert_eq!(ok.try_status_code(), Some(PicobootStatus::Okay));

    let refused = status_with(PicobootStatus::NotPermitted.code());
    assert!(!refused.is_ok());
    assert_eq!(refused.get_status_code(), PicobootStatus::NotPermitted);
    assert_eq!(refused.raw_status_code(), 10);
}

#[test]
fn every_status_has_its_number() {
    for (code, status) in STATUSES.iter().enumerate() {
        assert_eq!(status.code(), code as u32);
        assert_eq!(PicobootStatus::try_from(code as u32), Ok(*status));
        assert_eq!(status_with(code as u32).try_status_code(), Some(*status));
        assert_eq!(status_with(code as u32).get_status_code(), *status);
        assert_eq!(status.is_ok(), code == 0);
    }
    assert_eq!(PicobootStatus::try_from(18), Err(()));
}

#[test]
fn status_fields_stand_where_the_device_puts_them() {
    let bytes = [
        0x78, 0x56, 0x34, 0x12, 0x05, 0, 0, 0, 0x84, 1, 0xa1, 0xa2, 0xa3, 0xa4, 0xa5, 0xa6, 0xff,
    ];
    let (rest, status) = PicobootStatusCmd::from_bytes(&bytes).unwrap();
    assert_eq!(rest, [0xff]);
    assert_eq!(status.get_token(), 0x1234_5678);
    assert_eq!(status.raw_status_code(), 5);
    assert_eq!(status.get_status_code(), PicobootStatus::BadAlignment);
    assert_eq!(status.get_cmd_id(), 0x84);
    assert_eq!(status.get_in_progress(), 1);
    assert_eq!(status.to_bytes(), bytes[..16].to_vec());
}

/// Reads fields of these sizes, and says how many bits the first one that is
/// missing has.
fn missing_bits(input: &[u8], sizes: &[usize]) -> Option<usize> {
    let mut reader = Reader::new(Cursor::new(input));
    let endian = Endian::Little;
    for size in sizes {
        let failed = match size {
            1 => u8::from_reader_with_ctx(&mut reader, endian).err(),
            2 => u16::from_reader_with_ctx(&mut reader, endian).err(),
            _ => u32::from_reader_with_ctx(&mut reader, endian).err(),
        };
        match failed {
            None => {}
            Some(DekuError::Incomplete(need)) => return Some(need.bit_size()),
            Some(e) => panic!("not incomplete: {e}"),
        }
    }
    None
}

#[test]
fn short_status_is_no_status() {
    let mut sizes = vec![4, 4, 1, 1];
    sizes.extend([1; 6]);
    for len in 0..=16 {
        let input = vec![0u8; len];
        let bits = PicobootStatusCmd::from_bytes(&input).err().map(|e| e.bits);
        assert_eq!(bits, missing_bits(&input, &sizes));
        assert_eq!(bits.is_none(), len == 16);
    }
    assert_eq!(PicobootStatusCmd::from_bytes(&[0; 7]).err(), Some(Incomplete { bits: 32 }));
    assert_eq!(PicobootStatusCmd::from_bytes(&[0; 15]).err(), Some(Incomplete { bits: 8 }));
}

#[test]
fn short_command_is_no_command() {
    let mut sizes = vec![4, 4, 1, 1, 2, 4];
    sizes.extend([1; 16]);
    for len in 0..=32 {
        let input = vec![0u8; len];
        let bits = PicobootCmd::from_bytes(&input).err().map(|e| e.bits);
        assert_eq!(bits, missing_bits(&input, &sizes));
        assert_eq!(PicobootXCmd::from_bytes(&input).err().map(|e| e.bits), bits);
        assert_eq!(bits.is_none(), len == 32);
    }
    assert_eq!(PicobootCmd::from_bytes(&[0; 11]).err(), Some(Incomplete { bits: 16 }));
}

#[test]
fn every_command_id_has_its_number_name_and_direction() {
    for (code, id, name) in IDS {
        assert_eq!(id.code(), code);
        assert_eq!(PicobootCmdId::try_from(code), Ok(id));
        assert_eq!(id.to_string(), name);
        let expected = if code >= 0x80 { Direction::In } else { Direction::Out };
        assert_eq!(id.direction(), expected);
    }
    for code in 0..=255u8 {
        let known = IDS.iter().any(|(c, _, _)| *c == code);
        assert_eq!(PicobootCmdId::try_from(code).is_ok(), known);
    }
}

#[test]
fn arguments_are_little_endian() {
    assert_eq!(
        PicobootRangeCmd::ser(0x1000_0100, 0x0002_0304),
        [0, 1, 0, 0x10, 4, 3, 2, 0, 0, 0, 0, 0, 0, 0, 0, 0]
    );
    assert_eq!(
        PicobootRebootCmd::ser(1, 0x2004_2000, 500),
        [1, 0, 0, 0, 0, 0x20, 4, 0x20, 0xf4, 1, 0, 0, 0, 0, 0, 0]
    );
    assert_eq!(
        PicobootReboot2Cmd::ser(2, 500, 3, 4),
        [2, 0, 0, 0, 0xf4, 1, 0, 0, 3, 0, 0, 0, 4, 0, 0, 0]
    );
}

/// The bytes of a command with token 0.
fn wire(id: u8, size: u8, len: [u8; 4], args: [u8; 16]) -> Vec<u8> {
    let mut bytes = vec![0x0b, 0xd1, 0x1f, 0x43, 0, 0, 0, 0, id, size, 0, 0];
    bytes.extend_from_slice(&len);
    bytes.extend_from_slice(&args);
    bytes
}

#[test]
fn commands_have_the_bytes_of_the_protocol() {
    let none = [0u8; 4];
    let mut exclusive = [0u8; 16];
    exclusive[0] = 2;
    assert_eq!(
        PicobootCmd::exclusive_access(Access::ExclusiveAndEject.code()).to_bytes(),
        wire(0x01, 1, none, exclusive)
    );
    assert_eq!(
        PicobootCmd::reboot(0, 0x2004_2000, 500).to_bytes(),
        wire(0x02, 12, none, PicobootRebootCmd::ser(0, 0x2004_2000, 500))
    );
    assert_eq!(
        PicobootCmd::reboot2(2, 1, 0, 500).to_bytes(),
        wire(0x0a, 16, none, PicobootReboot2Cmd::ser(2, 500, 1, 0))
    );
    assert_eq!(
        PicobootCmd::flash_erase(0x1000_0000, 4096).to_bytes(),
        wire(0x03, 8, none, PicobootRangeCmd::ser(0x1000_0000, 4096))
    );
    assert_eq!(
        PicobootCmd::flash_write(0x1000_0000, 256).to_bytes(),
        wire(0x05, 8, [0, 1, 0, 0], PicobootRangeCmd::ser(0x1000_0000, 256))
    );
    assert_eq!(
        PicobootCmd::flash_read(0x1000_0000, 256).to_bytes(),
        wire(0x84, 8, [0, 1, 0, 0], PicobootRangeCmd::ser(0x1000_0000, 256))
    );
    assert_eq!(PicobootCmd::enter_xip().to_bytes(), wire(0x07, 0, none, [0; 16]));
    assert_eq!(PicobootCmd::exit_xip().to_bytes(), wire(0x06, 0, none, [0; 16]));
}

#[test]
fn commands_know_their_transfer() {
    let read = PicobootCmd::flash_read(0, 300);
    assert_eq!(read.id(), PicobootCmdId::Read);
    assert_eq!(read.direction(), Direction::In);
    assert_eq!(read.get_transfer_len(), 300);
    assert!(read.is_data_transfer());

    let erase = PicobootCmd::flash_erase(0, 4096);
    assert_eq!(erase.direction(), Direction::Out);
    assert!(!erase.is_data_transfer());
}

#[test]
fn commands_round_trip() {
    let cmd = PicobootCmd::new(PicobootCmdId::OtpRead, 5, 64, [7; 16]).set_token(0xdead_beef);
    let mut bytes = cmd.to_bytes();
    assert_eq!(bytes[4..8], [0xef, 0xbe, 0xad, 0xde]);
    bytes.push(0xff);
    let (rest, again) = PicobootCmd::from_bytes(&bytes).unwrap();
    assert_eq!(rest, [0xff]);
    assert_eq!(again.id(), PicobootCmdId::OtpRead);
    assert_eq!(again.to_bytes(), bytes[..32].to_vec());
}

/// Field by field, the bytes are those that another reader of the format takes.
#[test]
fn commands_are_read_field_by_field() {
    let cmd = PicobootCmd::flash_read(0x1234_5678, 0x9abc_def0).set_token(0x0102_0304);
    let bytes = cmd.to_bytes();
    let mut reader = Reader::new(Cursor::new(bytes.as_slice()));
    let endian = Endian::Little;
    assert_eq!(u32::from_reader_with_ctx(&mut reader, endian).unwrap(), PICOBOOT_MAGIC);
    assert_eq!(u32::from_reader_with_ctx(&mut reader, endian).unwrap(), 0x0102_0304);
    assert_eq!(u8::from_reader_with_ctx(&mut reader, endian).unwrap(), 0x84);
    assert_eq!(u8::from_reader_with_ctx(&mut reader, endian).unwrap(), 8);
    assert_eq!(u16::from_reader_with_ctx(&mut reader, endian).unwrap(), 0);
    assert_eq!(u32::from_reader_with_ctx(&mut reader, endian).unwrap(), 0x9abc_def0);
    assert_eq!(u32::from_reader_with_ctx(&mut reader, endian).unwrap(), 0x1234_5678);
    assert_eq!(u32::from_reader_with_ctx(&mut reader, endian).unwrap(), 0x9abc_def0);
    assert_eq!(u64::from_reader_with_ctx(&mut reader, endian).unwrap(), 0);
    assert!(u8::from_reader_with_ctx(&mut reader, endian).is_err());
}

#[test]
fn command_of_an_unknown_id_says_so() {
    let mut bytes = PicobootCmd::exit_xip().to_bytes();
    assert!(PicobootCmd::from_bytes(&bytes).unwrap().1.is_known());
    bytes[8] = 0x0b;
    assert!(!PicobootCmd::from_bytes(&bytes).unwrap().1.is_known());
}

#[test]
fn extension_commands_carry_any_other_magic() {
    let magic = PICOBOOT_MAGIC ^ 1;
    let cmd = PicobootXCmd::new(magic, 0x81, 3, 64, [9; 16]);
    assert_eq!(cmd.get_magic(), magic);
    assert_eq!(cmd.get_cmd_id(), 0x81);
    assert_eq!(cmd.get_cmd_size(), 3);
    assert_eq!(cmd.get_transfer_len(), 64);
    assert_eq!(cmd.get_args(), &[9, 9, 9]);
    assert_eq!(cmd.direction(), Direction::In);
    assert!(cmd.is_data_transfer());
    let bytes = cmd.to_bytes();
    assert_eq!(bytes[..4], magic.to_le_bytes());
    assert_eq!(bytes[4..16], [0, 0, 0, 0, 0x81, 3, 0, 0, 64, 0, 0, 0]);
    assert_eq!(bytes[16..], [9; 16]);
    assert_eq!(PicobootXCmd::from_bytes(&bytes).unwrap().1.to_bytes(), bytes);

    let action = PicobootXCmd::new(0, 0x01, 0, 0, [0; 16]);
    assert_eq!(action.direction(), Direction::Out);
    assert!(!action.is_data_transfer());
    assert!(action.get_args().is_empty());
}
