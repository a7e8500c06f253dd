//! The devices that speak PICOBOOT, and the vocabulary of the protocol.

use vstd::prelude::*;

verus! {

/// Number every PICOBOOT command starts with
pub const PICOBOOT_MAGIC: u32 = 0x431f_d10b;

/// USB vendor ID of an RP2040 or RP2350 in BOOTSEL mode
pub const PICOBOOT_VID: u16 = 0x2e8a;

/// USB product ID of an RP2040 in BOOTSEL mode
pub const PICOBOOT_PID_RP2040: u16 = 0x0003;

/// USB product ID of an RP2350 in BOOTSEL mode
pub const PICOBOOT_PID_RP2350: u16 = 0x000f;

/// Address flash starts at
pub const FLASH_START: u32 = 0x1000_0000;

/// Unit of flash erases, in bytes
pub const FLASH_SECTOR_SIZE: u32 = 4096;

/// Unit of flash writes, in bytes
pub const FLASH_PAGE_SIZE: u32 = 256;

/// End of the RP2040's RAM
pub const STACK_POINTER_RP2040: u32 = 0x2004_2000;

/// End of the RP2350's RAM
pub const STACK_POINTER_RP2350: u32 = 0x2008_2000;

/// Direction of a data transfer, as the host sees it.
#[derive(Debug, Clone, Copy, PartialEq, Eq, Structural)]
pub enum Direction {
    /// Device to host
    In,
    /// Host to device
    Out,
}

/// Type of a PICOBOOT device.
#[derive(Debug, Clone, Copy, PartialEq, Eq, Structural)]
pub enum Target {
    /// RP2040 in BOOTSEL mode
    Rp2040,
    /// RP2350 in BOOTSEL mode
    Rp2350,
    /// Any other device, known by its USB vendor and product IDs
    Custom { vid: u16, pid: u16 },
}

impl Target {
    /// The type of the device with these IDs.
    pub open spec fn of_ids(vid: u16, pid: u16) -> Target {
        if vid == PICOBOOT_VID && pid == PICOBOOT_PID_RP2040 {
            Target::Rp2040
        } else if vid == PICOBOOT_VID && pid == PICOBOOT_PID_RP2350 {
            Target::Rp2350
        } else {
            Target::Custom { vid, pid }
        }
    }

    /// USB vendor ID of the type.
    pub open spec fn vid_of(self) -> u16 {
        match self {
            Target::Custom { vid, pid } => vid,
            _ => PICOBOOT_VID,
        }
    }

    /// USB product ID of the type.
    pub open spec fn pid_of(self) -> u16 {
        match self {
            Target::Rp2040 => PICOBOOT_PID_RP2040,
            Target::Rp2350 => PICOBOOT_PID_RP2350,
            Target::Custom { vid, pid } => pid,
        }
    }

    /// The type of the device with these USB vendor and product IDs.
    pub fn from_ids(vid: u16, pid: u16) -> (target: Target)
        ensures
            target == Target::of_ids(vid, pid),
    {
        if vid == PICOBOOT_VID && pid == PICOBOOT_PID_RP2040 {
            Target::Rp2040
        } else if vid == PICOBOOT_VID && pid == PICOBOOT_PID_RP2350 {
            Target::Rp2350
        } else {
            Target::Custom { vid, pid }
        }
    }

    /// USB vendor ID
    pub fn vid(&self) -> (vid: u16)
        ensures
            vid == self.vid_of(),
    {
        match self {
            Target::Custom { vid, .. } => *vid,
            _ => PICOBOOT_VID,
        }
    }

    /// USB product ID
    pub fn pid(&self) -> (pid: u16)
        ensures
            pid == self.pid_of(),
    {
        match self {
            Target::Rp2040 => PICOBOOT_PID_RP2040,
            Target::Rp2350 => PICOBOOT_PID_RP2350,
            Target::Custom { pid, .. } => *pid,
        }
    }

    /// Address flash starts at
    pub fn flash_start(&self) -> (addr: u32)
        ensures
            addr == FLASH_START,
    {
        FLASH_START
    }

    /// Unit of flash erases, in bytes
    pub fn flash_sector_size(&self) -> (size: u32)
        ensures
            size == FLASH_SECTOR_SIZE,
    {
        FLASH_SECTOR_SIZE
    }

    /// Unit of flash writes, in bytes
    pub fn flash_page_size(&self) -> (size: u32)
        ensures
            size == FLASH_PAGE_SIZE,
    {
        FLASH_PAGE_SIZE
    }

    /// Stack pointer for a standard reboot, if the type has one
    pub fn default_stack_pointer(&self) -> (sp: Option<u32>)
        ensures
            sp == (match self {
                Target::Rp2040 => Some(STACK_POINTER_RP2040),
                Target::Rp2350 => Some(STACK_POINTER_RP2350),
                Target::Custom { .. } => None,
            }),
    {
        match self {
            Target::Rp2040 => Some(STACK_POINTER_RP2040),
            Target::Rp2350 => Some(STACK_POINTER_RP2350),
            Target::Custom { .. } => None,
        }
    }
}

/// Law: the type of a device has that device's IDs, so a device is found again
/// under its own type.
pub proof fn law_target_keeps_ids(vid: u16, pid: u16)
    ensures
        Target::of_ids(vid, pid).vid_of() == vid,
        Target::of_ids(vid, pid).pid_of() == pid,
{
}

/// Law: 2e8a:0003 is an RP2040 and 2e8a:000f an RP2350; all others are known by
/// their IDs alone.
pub proof fn law_target_of_ids(vid: u16, pid: u16)
    ensures
        Target::of_ids(vid, pid) is Rp2040 <==> vid == 0x2e8a && pid == 0x0003,
        Target::of_ids(vid, pid) is Rp2350 <==> vid == 0x2e8a && pid == 0x000f,
        Target::of_ids(vid, pid) matches Target::Custom { vid: v, pid: p } ==> v == vid && p == pid,
{
}

/// Exclusive access modes of a device.
#[derive(Debug, Clone, Copy, PartialEq, Eq, Structural)]
pub enum Access {
    /// Mass storage stays usable
    NotExclusive,
    /// Mass storage refuses writes
    Exclusive,
    /// Mass storage refuses writes and is ejected
    ExclusiveAndEject,
}

impl Access {
    /// The mode's number in a command.
    pub open spec fn code_of(self) -> u8 {
        match self {
            Access::NotExclusive => 0,
            Access::Exclusive => 1,
            Access::ExclusiveAndEject => 2,
        }
    }

    /// The mode's number in a command.
    pub fn code(&self) -> (code: u8)
        ensures
            code == self.code_of(),
    {
        match self {
            Access::NotExclusive => 0,
            Access::Exclusive => 1,
            Access::ExclusiveAndEject => 2,
        }
    }
}

/// How a device comes up after a reboot.
#[derive(Debug, Clone, Copy, PartialEq, Eq, Structural)]
pub enum RebootType {
    /// Runs the application in flash
    Normal,
    /// Comes back in BOOTSEL mode
    Bootsel {
        /// Without the mass storage interface
        disable_msd: bool,
        /// Without the PICOBOOT interface
        disable_picoboot: bool,
    },
}

} // verus!
