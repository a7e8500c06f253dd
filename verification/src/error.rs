//! Everything that can go wrong, with the device it went wrong on.

use vstd::prelude::*;

use crate::cmd::PicobootCmdId;
use crate::target::Target;
use crate::timeouts::Duration;

verus! {

/// Category of a failed USB operation other than a transfer.
#[derive(Debug, Clone, Copy, PartialEq, Eq, Structural)]
pub enum UsbErrorKind {
    /// The device is gone.
    Disconnected,
    /// The device, interface or endpoint is in use elsewhere.
    Busy,
    /// The user may not perform the operation.
    PermissionDenied,
    /// The configuration, interface or endpoint does not exist.
    NotFound,
    /// The platform or its driver does not support the operation.
    Unsupported,
    /// Anything else.
    Other,
}

/// A failed USB operation other than a transfer.
#[derive(Debug, PartialEq, Eq)]
pub struct UsbError {
    /// Category of the failure
    pub kind: UsbErrorKind,
    /// Error code of the operating system, if there is one
    pub os_error: Option<u32>,
    /// Message for people to read
    pub message: String,
}

/// A failed USB transfer.
#[derive(Debug, Clone, Copy, PartialEq, Eq, Structural)]
pub enum TransferError {
    /// Cancelled or timed out.
    Cancelled,
    /// The endpoint is stalled, which is how a device refuses.
    Stall,
    /// The device is gone.
    Disconnected,
    /// Hardware issue or protocol violation.
    Fault,
    /// The request has an invalid argument or is not supported.
    InvalidArgument,
    /// Error specific to the operating system.
    Unknown(u32),
}

/// Input that ends before one of its fields does.
#[derive(Debug, Clone, Copy, PartialEq, Eq, Structural)]
pub struct Incomplete {
    /// Bits of the first field that the input does not hold
    pub bits: usize,
}

/// Errors of PICOBOOT operations.
#[derive(Debug, PartialEq, Eq)]
pub enum Error {
    /// The attached USB devices could not be listed.
    UsbEnumerationError(UsbError),
    /// The device could not be opened.
    UsbOpenError(Target, UsbError),
    /// The kernel's driver could not be detached from the interface.
    UsbDetachKernelDriverFailure(Target, UsbError),
    /// The kernel's driver could not be given the interface back.
    UsbReattachKernelDriverFailure(Target, UsbError),
    /// The PICOBOOT interface could not be claimed.
    UsbClaimInterfaceFailure(Target, UsbError),
    /// The bulk IN endpoint could not be used.
    UsbInEndpointClaimFailure(Target, UsbError),
    /// The bulk OUT endpoint could not be used.
    UsbOutEndpointClaimFailure(Target, UsbError),
    /// The halt of the bulk IN endpoint could not be cleared.
    UsbClearInEndpointHaltFailure(Target, UsbError),
    /// The halt of the bulk OUT endpoint could not be cleared.
    UsbClearOutEndpointHaltFailure(Target, UsbError),
    /// A bulk read failed.
    UsbReadBulkFailure(Target, TransferError),
    /// A bulk write failed.
    UsbWriteBulkFailure(Target, TransferError),
    /// A bulk read returned more than expected: expected, received.
    UsbReadBulkMismatch(Target, usize, usize),
    /// A bulk write did not send everything: expected, sent.
    UsbWriteBulkMismatch(Target, usize, usize),
    /// The reset request failed.
    PicobootResetInterfaceFailure(Target, TransferError),
    /// The command status could not be read.
    PicobootGetCommandStatusFailure(Target, TransferError),
    /// The command status the device sent is too short.
    PicobootCmdDeserializeFailure(Target, Incomplete),
    /// A command that sends data was given none.
    PicobootCmdDataMissing(Target, PicobootCmdId),
    /// An extension command that sends data was given none.
    PicobootXCmdDataMissing(Target, u8),
    /// The target does not support the command.
    PicobootCmdNotAllowedForTarget(Target, PicobootCmdId),
    /// A delay has more milliseconds than a command can hold.
    PicobootInvalidDuration(Target, Duration),
    /// An erase does not start on a sector.
    PicobootEraseInvalidAddr(Target, u32),
    /// An erase is not a whole number of sectors, or too large.
    PicobootEraseInvalidSize(Target, u32),
    /// A flash write does not start on a page.
    PicobootWriteInvalidAddr(Target, u32),
    /// A flash read does not start on a page.
    PicobootReadInvalidAddr(Target, u32),
    /// A flash read is not a whole number of pages.
    PicobootReadInvalidSize(Target, u32),
    /// The device has no PICOBOOT interface with bulk endpoints.
    PicobootInterfaceNotFound(Target),
    /// No PICOBOOT device is attached.
    PicobootNoDevicesFound,
}

} // verus!
