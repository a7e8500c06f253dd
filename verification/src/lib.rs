//! Host side of the PICOBOOT USB protocol, as a verified core.
//!
//! The crate decides; it performs no I/O of its own.  An operation on a
//! [`Connection`] or a [`Picoboot`] hands out the USB transfer it needs next as
//! a [`Request`], and goes on once the matching [`Reply`] is handed back.  What
//! an operation does for every possible sequence of replies is stated as a
//! [`script::Script`].

pub mod bytes;
pub mod cmd;
pub mod conduct;
pub mod connection;
pub mod device;
pub mod error;
pub mod kernel;
pub mod laws;
pub mod memory;
pub mod picoboot;
pub mod protocol;
pub mod reader;
pub mod script;
pub mod target;
pub mod timeouts;

pub use cmd::{PicobootCmd, PicobootCmdId, PicobootStatus, PicobootStatusCmd, PicobootXCmd};
pub use connection::{Connection, ConnectionState};
pub use device::{
    Configuration, DeviceInfo, EndpointInfo, InterfaceInfo, InterfaceSetting, PicobootInterface,
    Speed, TransferType,
};
pub use error::{Error, Incomplete, TransferError, UsbError, UsbErrorKind};
pub use kernel::{detach_kernel_driver, reattach_kernel_driver};
pub use picoboot::Picoboot;
pub use reader::{copy_out, PicobootReader, ReaderError};
pub use script::{
    BulkError, ClearHaltError, Control, ControlType, Detached, Received, Recipient, Reply, Request,
    Step, Value,
};
pub use target::{Access, Direction, RebootType, Target, PICOBOOT_MAGIC};
pub use timeouts::{Duration, Timeouts};
