use picoboot::kernel::judge_detach;
use picoboot::{
    detach_kernel_driver, reattach_kernel_driver, Access, Detached, Duration, Error, Target,
    Timeouts, UsbError, UsbErrorKind,
};

fn failure(kind: UsbErrorKind, os_error: Option<u32>) -> UsbError {
    UsbError { kind, os_error, message: String::from("no") }
}

#[test]
fn durations_count_milliseconds() {
    assert_eq!(Duration::from_secs(5).as_millis(), 5000);
    assert_eq!(Duration::from_millis(1234).as_millis(), 1234);
    assert_eq!(Duration::from_millis(1234).as_secs(), 1);
    assert_eq!(Duration::from_millis(1234).subsec_nanos(), 234_000_000);
    assert_eq!(Duration::new(2, 999_999_999).as_millis(), 2999);
    assert_eq!(Duration::from_secs(u64::MAX).as_millis(), u64::MAX as u128 * 1000);
    assert_eq!(Duration::from_secs(2), Duration::from_millis(2000));
}

#[test]
fn default_timeouts() {
    let timeouts = Timeouts::default();
    assert_eq!(timeouts.endpoint, Duration::from_secs(5));
    assert_eq!(timeouts.command_status, Duration::from_secs(1));
    assert_eq!(timeouts.reset, Duration::from_secs(1));
}

#[test]
fn targets_are_known_by_their_ids() {
    assert_eq!(Target::from_ids(0x2e8a, 0x0003), Target::Rp2040);
    assert_eq!(Target::from_ids(0x2e8a, 0x000f), Target::Rp2350);
    let custom = Target::Custom { vid: 0x1209, pid: 0xf540 };
    assert_eq!(Target::from_ids(0x1209, 0xf540), custom);
    for target in [Target::Rp2040, Target::Rp2350, custom] {
        assert_eq!(Target::from_ids(target.vid(), target.pid()), target);
        assert_eq!(target.flash_start(), 0x1000_0000);
        assert_eq!(target.flash_sector_size(), 4096);
        assert_eq!(target.flash_page_size(), 256);
    }
    assert_eq!(Target::Rp2040.default_stack_pointer(), Some(0x2004_2000));
    assert_eq!(custom.default_stack_pointer(), None);
}

#[test]
fn access_modes_have_numbers() {
    assert_eq!(Access::NotExclusive.code(), 0);
    assert_eq!(Access::Exclusive.code(), 1);
    assert_eq!(Access::ExclusiveAndEject.code(), 2);
}

#[test]
fn detaching_is_judged_by_its_outcome() {
    assert_eq!(judge_detach(None, 61), Detached::NotActive);
    assert_eq!(judge_detach(Some(Ok(())), 61), Detached::Yes);
    let none = failure(UsbErrorKind::Other, Some(61));
    assert_eq!(judge_detach(Some(Err(none)), 61), Detached::NotActive);
    let other = failure(UsbErrorKind::Other, Some(61));
    assert_eq!(
        judge_detach(Some(Err(other)), 96),
        Detached::Failed(failure(UsbErrorKind::Other, Some(61)))
    );
    let busy = failure(UsbErrorKind::Busy, Some(61));
    assert_eq!(
        judge_detach(Some(Err(busy)), 61),
        Detached::Failed(failure(UsbErrorKind::Busy, Some(61)))
    );
    let unknown = failure(UsbErrorKind::Other, None);
    assert_eq!(
        judge_detach(Some(Err(unknown)), 61),
        Detached::Failed(failure(UsbErrorKind::Other, None))
    );
}

/// Exactly one code means that no driver was active.
#[test]
fn one_code_means_no_driver() {
    let mut none_active: Vec<u32> = Vec::new();
    for code in 0..=5000u32 {
        match detach_kernel_driver(Some(Err(failure(UsbErrorKind::Other, Some(code))))) {
            Detached::NotActive => none_active.push(code),
            Detached::Failed(e) => assert_eq!(e.os_error, Some(code)),
            Detached::Yes => panic!("nothing was detached"),
        }
    }
    assert!(matches!(none_active[..], [61 | 96 | 111]));
    assert_eq!(none_active, vec![rustix::io::Errno::NODATA.raw_os_error() as u32]);
    assert_eq!(detach_kernel_driver(Some(Ok(()))), Detached::Yes);
    assert_eq!(detach_kernel_driver(None), Detached::NotActive);
}

#[test]
fn reattaching_reports_its_failure() {
    assert_eq!(reattach_kernel_driver(Target::Rp2040, Ok(())), Ok(()));
    assert_eq!(
        reattach_kernel_driver(Target::Rp2040, Err(failure(UsbErrorKind::NotFound, Some(2)))),
        Err(Error::UsbReattachKernelDriverFailure(
            Target::Rp2040,
            failure(UsbErrorKind::NotFound, Some(2))
        ))
    );
}
