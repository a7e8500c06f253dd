//! The kernel's own driver for an interface, which has to let go of it first.

use vstd::prelude::*;

use crate::error::{Error, UsbError, UsbErrorKind};
use crate::script::Detached;
use crate::target::Target;

verus! {

/// Whether a code is one of those that systems have for "no data available".
pub open spec fn is_nodata(code: u32) -> bool {
    code == 61 || code == 96 || code == 111
}

/// The operating system's code for "no data available".
///
/// Trusted: the number of `rustix::io::Errno::NODATA`, as
/// `rustix::io::Errno::raw_os_error` gives it: 61 on Linux and Android, but for
/// 111 on SPARC machines, and 96 on macOS.  Which of them is left unsaid.
#[verifier::external_body]
fn errno_nodata() -> (code: u32)
    ensures
        is_nodata(code),
{
    rustix::io::Errno::NODATA.raw_os_error() as u32
}

/// Whether the kernel's driver was in the way, given the outcome of detaching it
/// and the code for "no data available", which says that there was no driver.
/// Where no drivers can be detached there is no outcome, and no driver.
pub open spec fn detach_outcome(
    attempt: Option<Result<(), UsbError>>,
    nodata: u32,
) -> Detached {
    match attempt {
        None => Detached::NotActive,
        Some(Ok(_)) => Detached::Yes,
        Some(Err(e)) => if e.kind == UsbErrorKind::Other && e.os_error == Some(nodata) {
            Detached::NotActive
        } else {
            Detached::Failed(e)
        },
    }
}

/// Law: a driver was in the way if and only if it was detached; there was none if
/// and only if there was no attempt, or if it failed with just the code for that,
/// and with no other kind of error; any other failure is reported as it is.
pub proof fn law_detach_outcome(e: UsbError, nodata: u32)
    ensures
        detach_outcome(None, nodata) == Detached::NotActive,
        detach_outcome(Some(Ok(())), nodata) == Detached::Yes,
        e.kind is Other && e.os_error == Some(nodata) ==> detach_outcome(Some(Err(e)), nodata)
            == Detached::NotActive,
        !(e.kind is Other) || e.os_error != Some(nodata) ==> detach_outcome(Some(Err(e)), nodata)
            == Detached::Failed(e),
{
}

/// Whether the kernel's driver was in the way.
pub fn judge_detach(attempt: Option<Result<(), UsbError>>, nodata: u32) -> (detached: Detached)
    ensures
        detached == detach_outcome(attempt, nodata),
{
    match attempt {
        None => Detached::NotActive,
        Some(Ok(_)) => Detached::Yes,
        Some(Err(e)) => {
            let none_active = match e.os_error {
                Some(code) => e.kind == UsbErrorKind::Other && code == nodata,
                None => false,
            };
            if none_active {
                Detached::NotActive
            } else {
                Detached::Failed(e)
            }
        },
    }
}

/// Whether the kernel's driver was in the way, given the outcome of detaching it
/// on this machine.
pub fn detach_kernel_driver(attempt: Option<Result<(), UsbError>>) -> (detached: Detached)
    ensures
        exists|nodata: u32|
            is_nodata(nodata) && detached == #[trigger] detach_outcome(attempt, nodata),
{
    let nodata: u32 = errno_nodata();
    let detached = judge_detach(attempt, nodata);
    assert(detached == detach_outcome(attempt, nodata));
    detached
}

/// What becomes of giving an interface back to the kernel's driver.
pub fn reattach_kernel_driver(target: Target, attempt: Result<(), UsbError>) -> (result: Result<
    (),
    Error,
>)
    ensures
        result == (match attempt {
            Ok(_) => Ok(()),
            Err(e) => Err(Error::UsbReattachKernelDriverFailure(target, e)),
        }),
{
    match attempt {
        Ok(_) => Ok(()),
        Err(e) => Err(Error::UsbReattachKernelDriverFailure(target, e)),
    }
}

} // verus!
