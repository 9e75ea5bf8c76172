use uffd_pager::memory_source::{
    page_fits, run_fetchable, single_run_pages, FileUffdMemorySource, PageRun,
    SocketUffdMemorySource,
};
use uffd_pager::range::UffdRange;
use uffd_pager::reply::CallReply;
use uffd_pager::source::{
    accept_reply, FaultResolution, PageFetch, PageStep, PeerError, PeerReply, RunFetch, RunStep,
    SourceEvent, SourceFailure,
};

const DONE: CallReply = CallReply::Done;
const EXISTS: CallReply = CallReply::Failed { errno: Some(libc::EEXIST), copied: 0 };
const AGAIN: CallReply = CallReply::Failed { errno: Some(libc::EAGAIN), copied: 0 };
const BROKEN: CallReply = CallReply::Failed { errno: Some(libc::EINVAL), copied: 0 };

const RANGE: UffdRange =
    UffdRange { host_addr: 0x10000, length: 5 * 4096, source_offset: 0x8000, page_size: 4096 };

fn accepted(length: u64) -> SourceEvent {
    SourceEvent::Answered(PeerReply::Accepted { length })
}

fn returned(reply: CallReply) -> SourceEvent {
    SourceEvent::Returned(reply)
}

fn file_fetch() -> PageFetch {
    FileUffdMemorySource::new("snapshot").resolve(&RANGE, 2)
}

fn socket_fetch(shared_backing: bool) -> PageFetch {
    SocketUffdMemorySource::new("stream", shared_backing).resolve(&RANGE, 2)
}

fn resolution(fetch: &PageFetch) -> FaultResolution {
    match fetch.step {
        PageStep::Resolved(resolution) => resolution,
        _ => panic!("not resolved: {:?}", fetch.step),
    }
}

fn peer_message(failure: &SourceFailure) -> String {
    match failure {
        SourceFailure::Peer(error) => error.message(),
        SourceFailure::Call => panic!("no message of the peer"),
    }
}

fn page_failure(fetch: PageFetch) -> SourceFailure {
    match fetch.step {
        PageStep::Failed(failure) => failure,
        step => panic!("not failed: {:?}", step),
    }
}

#[test]
fn sources_start_with_an_empty_buffer() {
    let file = FileUffdMemorySource::new(7);
    assert_eq!(file.file, 7);
    assert!(file.buf.is_empty());
    let socket = SocketUffdMemorySource::new("s", true);
    assert_eq!(socket.stream, "s");
    assert!(socket.shared_backing);
    assert!(socket.buf.is_empty());
}

#[test]
fn buffers_grow_and_do_not_shrink() {
    let mut source = SocketUffdMemorySource::new((), false);
    source.make_room(3);
    assert_eq!(source.buf, vec![0, 0, 0]);
    source.buf[1] = 9;
    source.make_room(5);
    assert_eq!(source.buf, vec![0, 9, 0, 0, 0]);
    source.make_room(2);
    assert_eq!(source.buf, vec![0, 9, 0, 0, 0]);
    let mut file = FileUffdMemorySource::new(());
    file.make_room(2);
    assert_eq!(file.buf, vec![0, 0]);
}

#[test]
fn a_file_page_is_read_and_installed() {
    let mut fetch = file_fetch();
    assert!(matches!(fetch.step, PageStep::ReadFile { pos: 0xa000, len: 4096 }));
    fetch.report(returned(DONE));
    assert!(matches!(fetch.step, PageStep::Copy { dst: 0x12000, len: 4096 }));
    fetch.report(returned(DONE));
    assert_eq!(resolution(&fetch), FaultResolution::Served);
}

#[test]
fn a_file_page_that_is_there_is_woken_and_served() {
    for wake in [DONE, AGAIN, BROKEN] {
        let mut fetch = file_fetch();
        fetch.report(returned(DONE));
        fetch.report(returned(EXISTS));
        assert!(matches!(fetch.step, PageStep::WakePresent { addr: 0x12000, len: 4096 }));
        fetch.report(returned(wake));
        assert_eq!(resolution(&fetch), FaultResolution::Served);
    }
}

#[test]
fn a_busy_file_page_is_retried_and_errors_are_errors() {
    let mut fetch = file_fetch();
    fetch.report(returned(DONE));
    fetch.report(returned(AGAIN));
    assert_eq!(resolution(&fetch), FaultResolution::Retry);

    let mut fetch = file_fetch();
    fetch.report(returned(DONE));
    fetch.report(returned(BROKEN));
    assert!(matches!(page_failure(fetch), SourceFailure::Call));

    // What a failed read says of its error does not matter.
    for reply in [BROKEN, AGAIN, EXISTS] {
        let mut fetch = file_fetch();
        fetch.report(returned(reply));
        assert!(matches!(page_failure(fetch), SourceFailure::Call));
    }
}

#[test]
fn an_inline_page_is_requested_read_and_installed() {
    let mut fetch = socket_fetch(false);
    assert!(matches!(fetch.step, PageStep::Request { gpa: 0xa000, len: 4096 }));
    fetch.report(accepted(4096));
    assert!(matches!(fetch.step, PageStep::ReadPayload { len: 4096 }));
    fetch.report(returned(DONE));
    assert!(matches!(fetch.step, PageStep::Copy { dst: 0x12000, len: 4096 }));
    fetch.report(returned(EXISTS));
    fetch.report(returned(DONE));
    assert_eq!(resolution(&fetch), FaultResolution::Served);
}

#[test]
fn a_shared_page_is_woken() {
    for (wake, expected) in [(DONE, FaultResolution::Served), (AGAIN, FaultResolution::Retry)] {
        let mut fetch = socket_fetch(true);
        fetch.report(accepted(0));
        assert!(matches!(fetch.step, PageStep::WakeShared { addr: 0x12000, len: 4096 }));
        fetch.report(returned(wake));
        assert_eq!(resolution(&fetch), expected);
    }
    for wake in [EXISTS, BROKEN] {
        let mut fetch = socket_fetch(true);
        fetch.report(accepted(0));
        fetch.report(returned(wake));
        assert!(matches!(page_failure(fetch), SourceFailure::Call));
    }
}

#[test]
fn answers_that_do_not_fit_are_errors() {
    let mut fetch = socket_fetch(true);
    fetch.report(accepted(12));
    assert_eq!(
        peer_message(&page_failure(fetch)),
        "shared-backing PageFault response carried 12 unexpected bytes"
    );

    let mut fetch = socket_fetch(false);
    fetch.report(accepted(0));
    assert_eq!(
        peer_message(&page_failure(fetch)),
        "inline PageFault response length 0 != page size 4096"
    );

    let mut fetch = socket_fetch(false);
    let status = String::from("Error");
    fetch.report(SourceEvent::Answered(PeerReply::Refused { status }));
    assert_eq!(
        peer_message(&page_failure(fetch)),
        "peer returned Error for PageFault at gpa=0xa000 len=4096"
    );

    let mut fetch = socket_fetch(false);
    fetch.report(returned(BROKEN));
    assert!(matches!(page_failure(fetch), SourceFailure::Call));
}

#[test]
fn accepted_replies_give_their_length() {
    let reply = PeerReply::Accepted { length: 77 };
    assert!(matches!(accept_reply(reply, 1, 2), Ok(77)));
    let reply = PeerReply::Refused { status: String::from("Invalid") };
    match accept_reply(reply, 255, 10) {
        Err(error) => assert_eq!(
            error.message(),
            "peer returned Invalid for PageFault at gpa=0xff len=10"
        ),
        Ok(_) => panic!("accepted"),
    }
}

#[test]
fn messages_render_numbers_as_format_does() {
    for n in [0, 9, 10, 15, 16, 99, 100, 0xdead_beef, 1_234_567_890_123, u64::MAX] {
        let error = PeerError::Status { status: String::from("Error"), gpa: n, len: n };
        assert_eq!(
            error.message(),
            format!("peer returned {} for PageFault at gpa={:#x} len={}", "Error", n, n)
        );
        let error = PeerError::RunLength { resp_len: n, bytes: 8192 };
        assert_eq!(
            error.message(),
            format!("inline PageFault response length {} != requested run {}", n, 8192)
        );
    }
}

#[test]
fn a_resolution_counts_its_pages() {
    assert_eq!(FaultResolution::Served.installed(), 1);
    assert_eq!(FaultResolution::Retry.installed(), 0);
}

fn run_fetch(start_page: u64, num_pages: u64) -> RunFetch {
    match SocketUffdMemorySource::new((), false).resolve_run(&RANGE, start_page, num_pages) {
        PageRun::Run(fetch) => fetch,
        PageRun::Page(_) => panic!("a page alone"),
    }
}

#[test]
fn shared_backing_and_single_pages_are_not_batched() {
    let shared = SocketUffdMemorySource::new((), true);
    match shared.resolve_run(&RANGE, 1, 4) {
        PageRun::Page(fetch) => {
            assert_eq!(fetch.page_addr, 0x11000);
            assert!(fetch.shared_backing);
        }
        PageRun::Run(_) => panic!("batched"),
    }
    let inline = SocketUffdMemorySource::new((), false);
    assert!(matches!(inline.resolve_run(&RANGE, 1, 1), PageRun::Page(_)));
}

#[test]
fn a_run_of_no_pages_is_finished_at_once() {
    for shared_backing in [false, true] {
        let source = SocketUffdMemorySource::new((), shared_backing);
        match source.resolve_run(&RANGE, 1, 0) {
            PageRun::Run(fetch) => {
                assert_eq!(fetch.pages, 0);
                assert_eq!(run_result(fetch), 0);
            }
            PageRun::Page(_) => panic!("a page that nobody asked for"),
        }
    }
    assert_eq!(single_run_pages(0), 0);
    assert_eq!(single_run_pages(1), 1);
    assert_eq!(single_run_pages(u64::MAX), 1);
}

#[test]
fn pages_fit_while_their_addresses_do() {
    assert!(page_fits(&RANGE, 0));
    assert!(page_fits(&RANGE, 1 << 40));
    assert!(!page_fits(&RANGE, u64::MAX));
    let last = u64::MAX - 4095;
    for range in
        [UffdRange { host_addr: last, ..RANGE }, UffdRange { source_offset: last, ..RANGE }]
    {
        assert!(page_fits(&range, 0));
        assert!(!page_fits(&range, 1));
    }
    let edge = UffdRange { host_addr: u64::MAX - 8192, source_offset: u64::MAX - 8192, ..RANGE };
    assert!(page_fits(&edge, 2));
    assert!(!page_fits(&edge, 3));
    assert!(page_fits(&UffdRange { page_size: 0, ..RANGE }, u64::MAX));
}

#[test]
fn runs_fit_while_their_length_and_addresses_do() {
    assert!(run_fetchable(&RANGE, 1, 2));
    assert!(run_fetchable(&RANGE, 5, 100));
    assert!(!run_fetchable(&RANGE, 6, 0));
    assert!(!run_fetchable(&UffdRange { page_size: 0, ..RANGE }, 0, 0));
    let high = UffdRange { host_addr: u64::MAX - 8192, ..RANGE };
    assert!(run_fetchable(&high, 0, 3));
    assert!(!run_fetchable(&high, 0, 4));
    assert!(run_fetchable(&high, 3, 0));
    assert!(!run_fetchable(&high, 3, 1));
    let large = UffdRange { host_addr: 0, length: u64::MAX, source_offset: 0, page_size: 1 << 63 };
    assert!(run_fetchable(&large, 0, 1));
    assert!(!run_fetchable(&large, 0, 2));
}

#[test]
fn a_run_stays_in_the_range() {
    let fetch = run_fetch(1, 2);
    assert_eq!((fetch.pages, fetch.start_addr, fetch.start_gpa), (2, 0x11000, 0x9000));
    assert!(matches!(fetch.step, RunStep::Request { gpa: 0x9000, len: 8192 }));
    assert_eq!(run_fetch(3, 100).pages, 2);
    assert_eq!(run_fetch(5, 100).pages, 0);
}

/// A run whose payload is at hand.
fn fetched_run(num_pages: u64) -> RunFetch {
    let mut fetch = run_fetch(1, num_pages);
    let bytes = num_pages * 4096;
    fetch.report(accepted(bytes));
    assert!(matches!(fetch.step, RunStep::ReadPayload { len } if len == bytes));
    fetch.report(returned(DONE));
    assert!(matches!(fetch.step, RunStep::CopyRun { dst: 0x11000, len } if len == bytes));
    fetch
}

fn run_result(fetch: RunFetch) -> u64 {
    match fetch.step {
        RunStep::Finished { pages } => pages,
        step => panic!("not finished: {:?}", step),
    }
}

#[test]
fn a_run_is_installed_at_once() {
    let mut fetch = fetched_run(3);
    fetch.report(returned(DONE));
    assert_eq!(run_result(fetch), 3);
    let mut fetch = fetched_run(3);
    fetch.report(returned(AGAIN));
    assert_eq!(run_result(fetch), 0);
    let mut fetch = fetched_run(3);
    fetch.report(returned(BROKEN));
    assert!(matches!(fetch.step, RunStep::Failed(SourceFailure::Call)));
}

#[test]
fn a_run_that_stops_part_way_counts_its_leading_pages() {
    for (copied, pages) in [(0, 0), (4096, 1), (8192, 2), (8191, 1), (3 * 4096, 3)] {
        let mut fetch = fetched_run(3);
        fetch.report(returned(CallReply::Failed { errno: Some(libc::EAGAIN), copied }));
        assert_eq!(run_result(fetch), pages);
    }
}

#[test]
fn a_run_with_a_page_there_goes_page_by_page() {
    let mut fetch = fetched_run(3);
    fetch.report(returned(EXISTS));
    assert!(matches!(
        fetch.step,
        RunStep::CopyPage { installed: 0, dst: 0x11000, offset: 0, len: 4096 }
    ));
    fetch.report(returned(DONE));
    assert!(matches!(
        fetch.step,
        RunStep::CopyPage { installed: 1, dst: 0x12000, offset: 4096, len: 4096 }
    ));
    fetch.report(returned(EXISTS));
    assert!(matches!(
        fetch.step,
        RunStep::WakePage { installed: 1, addr: 0x12000, len: 4096 }
    ));
    fetch.report(returned(BROKEN));
    assert!(matches!(
        fetch.step,
        RunStep::CopyPage { installed: 2, dst: 0x13000, offset: 8192, len: 4096 }
    ));
    fetch.report(returned(DONE));
    assert_eq!(run_result(fetch), 3);
}

#[test]
fn a_run_stops_at_the_first_busy_page_and_fails_at_a_broken_one() {
    let mut fetch = fetched_run(3);
    fetch.report(returned(EXISTS));
    fetch.report(returned(DONE));
    fetch.report(returned(AGAIN));
    assert_eq!(run_result(fetch), 1);

    let mut fetch = fetched_run(3);
    fetch.report(returned(EXISTS));
    fetch.report(returned(DONE));
    fetch.report(returned(BROKEN));
    assert!(matches!(fetch.step, RunStep::Failed(SourceFailure::Call)));
}

#[test]
fn a_run_with_the_wrong_payload_fails() {
    let mut fetch = run_fetch(1, 2);
    fetch.report(accepted(4096));
    match &fetch.step {
        RunStep::Failed(failure) => assert_eq!(
            peer_message(failure),
            "inline PageFault response length 4096 != requested run 8192"
        ),
        step => panic!("not failed: {:?}", step),
    }

    let mut fetch = run_fetch(1, 2);
    let status = String::from("Error");
    fetch.report(SourceEvent::Answered(PeerReply::Refused { status }));
    match &fetch.step {
        RunStep::Failed(failure) => assert_eq!(
            peer_message(failure),
            "peer returned Error for PageFault at gpa=0x9000 len=8192"
        ),
        step => panic!("not failed: {:?}", step),
    }

    let mut fetch = run_fetch(1, 2);
    fetch.report(accepted(8192));
    fetch.report(returned(EXISTS));
    assert!(matches!(fetch.step, RunStep::Failed(SourceFailure::Call)));
}

#[test]
fn a_run_at_the_end_of_its_range_has_no_pages() {
    let mut fetch = run_fetch(5, 3);
    fetch.report(accepted(0));
    fetch.report(returned(DONE));
    fetch.report(returned(EXISTS));
    assert_eq!(run_result(fetch), 0);
}
