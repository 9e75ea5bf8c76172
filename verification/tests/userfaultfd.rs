use uffd_pager::reply::{CallReply, MessageRead, ReadFailed, Verdict};
use uffd_pager::userfaultfd::{
    call_succeeded, CreateStep, UffdMsg, UffdioApi, UffdioCopy, UffdioRange, UffdioRegister,
    UffdioWriteprotect, UFFDIO_REGISTER_MODE_MISSING, UFFDIO_REGISTER_MODE_WP,
    UFFD_EVENT_PAGEFAULT, UFFD_FEATURE_PAGEFAULT_FLAG_WP, UFFD_PAGEFAULT_FLAG_WP,
};

#[test]
fn requests_carry_their_arguments() {
    assert_eq!(
        UffdioApi::new(UFFD_FEATURE_PAGEFAULT_FLAG_WP),
        UffdioApi { api: 0xAA, features: 1, ioctls: 0 }
    );
    assert_eq!(
        UffdioRegister::new(
            0x1000,
            0x2000,
            UFFDIO_REGISTER_MODE_MISSING | UFFDIO_REGISTER_MODE_WP
        ),
        UffdioRegister { range_start: 0x1000, range_len: 0x2000, mode: 3, ioctls: 0 }
    );
    assert_eq!(
        UffdioCopy::new(0x1000, 0x9000, 0x2000),
        UffdioCopy { dst: 0x1000, src: 0x9000, len: 0x2000, mode: 0, copy: 0 }
    );
    assert_eq!(UffdioRange::new(0x1000, 0x2000), UffdioRange { start: 0x1000, len: 0x2000 });
}

#[test]
fn a_copy_tells_how_far_it_got() {
    for (copy, copied) in [(0, 0), (4096, 4096), (-11, 0), (i64::MIN, 0)] {
        let request = UffdioCopy { copy, ..UffdioCopy::new(0x1000, 0x9000, 0x2000) };
        assert_eq!(request.copied(), copied);
    }
}

#[test]
fn write_protect_mode_has_both_flags() {
    for (protect, dont_wake, mode) in
        [(false, false, 0), (true, false, 1), (false, true, 2), (true, true, 3)]
    {
        let request = UffdioWriteprotect::new(0x4000, 0x1000, protect, dont_wake);
        assert_eq!(request.range, UffdioRange { start: 0x4000, len: 0x1000 });
        assert_eq!(request.mode, mode);
    }
}

#[test]
fn negative_returns_are_failures() {
    assert!(call_succeeded(0));
    assert!(call_succeeded(7));
    assert!(!call_succeeded(-1));
}

fn create(opened: bool, made: bool, called: bool, shaken: bool) -> (CreateStep, bool) {
    let mut step = CreateStep::first();
    let mut used_syscall = false;
    loop {
        step = match step {
            CreateStep::OpenDevice => step.next(opened),
            CreateStep::NewFromDevice => step.next(made),
            CreateStep::Syscall => {
                used_syscall = true;
                step.next(called)
            }
            CreateStep::Handshake => step.next(shaken),
            CreateStep::Ready | CreateStep::Failed => return (step, used_syscall),
        };
    }
}

#[test]
fn creation_prefers_the_device_and_falls_back() {
    assert_eq!(create(true, true, false, true), (CreateStep::Ready, false));
    assert_eq!(create(false, true, true, true), (CreateStep::Ready, true));
    assert_eq!(create(true, false, true, true), (CreateStep::Ready, true));
    assert_eq!(create(false, false, false, true), (CreateStep::Failed, true));
    assert_eq!(create(true, true, true, false), (CreateStep::Failed, false));
    assert_eq!(CreateStep::Ready.next(false), CreateStep::Ready);
    assert_eq!(CreateStep::Failed.next(true), CreateStep::Failed);
}

#[test]
fn error_numbers_have_their_verdicts() {
    assert_eq!(CallReply::Done.verdict(), Verdict::Done);
    let failed = |errno| CallReply::Failed { errno, copied: 0 };
    assert_eq!(failed(Some(libc::EEXIST)).verdict(), Verdict::Present);
    assert_eq!(failed(Some(17)).verdict(), Verdict::Present);
    assert_eq!(failed(Some(libc::EAGAIN)).verdict(), Verdict::Busy);
    assert_eq!(failed(Some(11)).verdict(), Verdict::Busy);
    assert_eq!(failed(Some(libc::ENOENT)).verdict(), Verdict::Failed);
    assert_eq!(failed(None).verdict(), Verdict::Failed);
}

fn message(event: u8) -> UffdMsg {
    UffdMsg { event, pf_flags: UFFD_PAGEFAULT_FLAG_WP, pf_address: 0x7f00_1234 }
}

#[test]
fn a_whole_page_fault_message_is_a_fault() {
    let read = MessageRead::Read { len: 32, msg: message(UFFD_EVENT_PAGEFAULT) };
    assert_eq!(read.fault(), Ok(Some(0x7f00_1234)));
}

#[test]
fn short_and_other_messages_are_no_write_protect_fault() {
    let short = MessageRead::Read { len: 31, msg: message(UFFD_EVENT_PAGEFAULT) };
    assert_eq!(short.fault(), Ok(None));
    let missing = UffdMsg { pf_flags: 0, ..message(UFFD_EVENT_PAGEFAULT) };
    assert_eq!(MessageRead::Read { len: 32, msg: missing }.fault(), Ok(None));
    let write = UffdMsg { pf_flags: 1, ..message(UFFD_EVENT_PAGEFAULT) };
    assert_eq!(MessageRead::Read { len: 32, msg: write }.fault(), Ok(None));
    let fork = MessageRead::Read { len: 32, msg: message(0x13) };
    assert_eq!(fork.fault(), Ok(None));
}

#[test]
fn a_drained_queue_is_no_fault_and_other_errors_are_errors() {
    assert_eq!(MessageRead::Failed { errno: Some(libc::EAGAIN) }.fault(), Ok(None));
    assert_eq!(MessageRead::Failed { errno: Some(libc::EBADF) }.fault(), Err(ReadFailed));
    assert_eq!(MessageRead::Failed { errno: None }.fault(), Err(ReadFailed));
}
