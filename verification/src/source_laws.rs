//! What holds of the fetch of pages as a whole.

use crate::memory_source::{planned_run, run_fits, PageRun};
use crate::range::UffdRange;
use crate::reply::{law_reply_goes_by_its_error_number, CallReply, Verdict};
use crate::source::{
    lemma_page_fits, lemma_run_stays_valid, payload_length, FaultResolution, PageFetch, PageStep,
    PeerError, PeerReply, RunFetch, RunStep, SourceEvent, SourceFailure,
};
use crate::text::{decimal, hex};
use vstd::prelude::*;

verus! {

// One page.

/// What every call of a page's fetch comes back with, should it be made.
pub struct PageAnswers {
    /// The peer's answer, or how asking it failed.
    pub request: Result<PeerReply, Option<i32>>,
    /// Reading the page from the file or the stream.
    pub read: CallReply,
    /// Installing the page.
    pub copy: CallReply,
    /// Waking the threads that wait on the page.
    pub wake: CallReply,
}

impl PageAnswers {
    /// What step `step` comes back with.
    pub open spec fn to(self, step: PageStep) -> SourceEvent {
        match step {
            PageStep::Request { .. } => match self.request {
                Ok(reply) => SourceEvent::Answered(reply),
                Err(errno) => SourceEvent::Returned(
                    CallReply::Failed { errno, copied: 0 },
                ),
            },
            PageStep::Copy { .. } => SourceEvent::Returned(self.copy),
            PageStep::WakePresent { .. } => SourceEvent::Returned(self.wake),
            PageStep::WakeShared { .. } => SourceEvent::Returned(self.wake),
            _ => SourceEvent::Returned(self.read),
        }
    }

    /// Where up to `n` steps of `fetch` lead.
    pub open spec fn play(self, fetch: PageFetch, n: nat) -> PageFetch
        decreases n,
    {
        if n == 0 || !fetch.awaits(self.to(fetch.step)) {
            fetch
        } else {
            self.play(fetch.after(self.to(fetch.step)), (n - 1) as nat)
        }
    }

    /// A page whose bytes are at hand is served when it is installed, by this fetch or another,
    /// and worth retrying when the kernel is busy with it.
    pub open spec fn install_outcome(self) -> PageStep {
        match self.copy.means() {
            Verdict::Done => PageStep::Resolved(FaultResolution::Served),
            Verdict::Present => PageStep::Resolved(FaultResolution::Served),
            Verdict::Busy => PageStep::Resolved(FaultResolution::Retry),
            Verdict::Failed => PageStep::Failed(SourceFailure::Call),
        }
    }

    /// A page in shared memory is served when the threads that wait on it are woken.
    pub open spec fn wake_outcome(self) -> PageStep {
        match self.wake.means() {
            Verdict::Done => PageStep::Resolved(FaultResolution::Served),
            Verdict::Busy => PageStep::Resolved(FaultResolution::Retry),
            _ => PageStep::Failed(SourceFailure::Call),
        }
    }
}

/// A page of a snapshot file is resolved: it fails when the file cannot be read, and otherwise
/// comes out as its installation does. Waking after an installation that found the page there
/// does not change that.
pub proof fn law_file_page_outcome(range: UffdRange, page_idx: int, answers: PageAnswers)
    ensures
        answers.play(PageFetch::of_page(range, page_idx, false, false), 3).step == (
        if answers.read is Done {
            answers.install_outcome()
        } else {
            PageStep::Failed(SourceFailure::Call)
        }),
{
    reveal_with_fuel(PageAnswers::play, 4);
}

/// A page of a peer is resolved: it fails when the peer cannot be asked, when it refuses or when
/// it announces a payload that does not fit. A page in shared memory then comes out as waking
/// its threads does; another fails when its payload cannot be read and otherwise comes out as
/// its installation does.
pub proof fn law_peer_page_outcome(
    range: UffdRange,
    page_idx: int,
    shared_backing: bool,
    answers: PageAnswers,
)
    ensures
        answers.play(PageFetch::of_page(range, page_idx, true, shared_backing), 4).step == (
        match answers.request {
            Err(_) => PageStep::Failed(SourceFailure::Call),
            Ok(reply) => match payload_length(
                reply,
                range.source_of_page(page_idx) as u64,
                range.page_size,
            ) {
                Err(error) => PageStep::Failed(SourceFailure::Peer(error)),
                Ok(resp_len) => if shared_backing {
                    if resp_len == 0 {
                        answers.wake_outcome()
                    } else {
                        PageStep::Failed(
                            SourceFailure::Peer(PeerError::UnexpectedBytes { resp_len }),
                        )
                    }
                } else if resp_len != range.page_size {
                    PageStep::Failed(
                        SourceFailure::Peer(
                            PeerError::PageLength { resp_len, page_size: range.page_size },
                        ),
                    )
                } else if answers.read is Done {
                    answers.install_outcome()
                } else {
                    PageStep::Failed(SourceFailure::Call)
                },
            },
        }),
{
    reveal_with_fuel(PageAnswers::play, 5);
}

/// A page that turns out to be there already has the threads that wait on it woken, alone and in
/// a run.
pub proof fn law_present_page_is_woken(page: PageFetch, run: RunFetch, reply: CallReply)
    requires
        reply.means() is Present,
    ensures
        page.step is Copy ==> page.after(SourceEvent::Returned(reply)).step
            == (PageStep::WakePresent { addr: page.page_addr, len: page.page_size }),
        run.valid() ==> (run.step matches RunStep::CopyPage { installed, dst, len, .. }
            ==> run.after(SourceEvent::Returned(reply)).step == (RunStep::WakePage {
            installed,
            addr: dst,
            len,
        })),
{
}

/// The fetch of a page after `events`.
pub open spec fn page_after(fetch: PageFetch, events: Seq<SourceEvent>) -> PageFetch
    decreases events.len(),
{
    if events.len() == 0 {
        fetch
    } else {
        page_after(fetch, events.drop_last()).after(events.last())
    }
}

/// The fetch of a page waits for each of `events` at its point.
pub open spec fn is_page_fetch(fetch: PageFetch, events: Seq<SourceEvent>) -> bool
    decreases events.len(),
{
    events.len() > 0 ==> is_page_fetch(fetch, events.drop_last()) && page_after(
        fetch,
        events.drop_last(),
    ).awaits(events.last())
}

/// Step `step` of a page's fetch is on the page at `addr`, which the data source has at `pos`,
/// and on nothing but its `page_size` bytes. Only a peer is asked, and its payload read where it
/// shares no memory; threads are woken without an installation only where it does.
pub open spec fn is_on_page(
    step: PageStep,
    addr: int,
    pos: int,
    page_size: int,
    from_peer: bool,
    shared_backing: bool,
) -> bool {
    match step {
        PageStep::ReadFile { pos: p, len } => !from_peer && p == pos && len == page_size,
        PageStep::Request { gpa, len } => from_peer && gpa == pos && len == page_size,
        PageStep::ReadPayload { len } => from_peer && !shared_backing && len == page_size,
        PageStep::Copy { dst, len } => !(from_peer && shared_backing) && dst == addr && len
            == page_size,
        PageStep::WakePresent { addr: a, len } => !(from_peer && shared_backing) && a == addr && len
            == page_size,
        PageStep::WakeShared { addr: a, len } => from_peer && shared_backing && a == addr && len
            == page_size,
        PageStep::Resolved(_) => true,
        PageStep::Failed(SourceFailure::Call) => true,
        PageStep::Failed(SourceFailure::Peer(error)) => from_peer && match error {
            PeerError::Status { gpa, len, .. } => gpa == pos && len == page_size,
            PeerError::UnexpectedBytes { resp_len } => shared_backing && resp_len != 0,
            PeerError::PageLength { resp_len, page_size: named } => !shared_backing && named
                == page_size && resp_len != page_size,
            PeerError::RunLength { .. } => false,
        },
    }
}

/// Whatever its calls come back with, every step of the fetch of page `page_idx` is on that page:
/// it is read at `page_idx` pages behind the start of the source, and installed and woken at
/// `page_idx` pages behind the start of the range, for the length of a page. It begins with a
/// read of the file, or with a request to the peer.
pub proof fn law_page_steps_are_on_the_page(
    range: UffdRange,
    page_idx: int,
    from_peer: bool,
    shared_backing: bool,
    events: Seq<SourceEvent>,
)
    requires
        0 <= page_idx,
        range.host_addr + page_idx * range.page_size <= u64::MAX,
        range.source_offset + page_idx * range.page_size <= u64::MAX,
        is_page_fetch(PageFetch::of_page(range, page_idx, from_peer, shared_backing), events),
    ensures
        is_on_page(
            page_after(
                PageFetch::of_page(range, page_idx, from_peer, shared_backing),
                events,
            ).step,
            range.host_addr + page_idx * range.page_size,
            range.source_offset + page_idx * range.page_size,
            range.page_size as int,
            from_peer,
            shared_backing,
        ),
        events.len() == 0 ==> if from_peer {
            page_after(
                PageFetch::of_page(range, page_idx, from_peer, shared_backing),
                events,
            ).step is Request
        } else {
            page_after(
                PageFetch::of_page(range, page_idx, from_peer, shared_backing),
                events,
            ).step is ReadFile
        },
{
    assert(page_idx * range.page_size >= 0) by (nonlinear_arith)
        requires
            page_idx >= 0,
    ;
    lemma_steps_stay_on_page(
        PageFetch::of_page(range, page_idx, from_peer, shared_backing),
        from_peer,
        events,
    );
}

proof fn lemma_steps_stay_on_page(fetch: PageFetch, from_peer: bool, events: Seq<SourceEvent>)
    requires
        is_on_page(
            fetch.step,
            fetch.page_addr as int,
            fetch.source_pos as int,
            fetch.page_size as int,
            from_peer,
            fetch.shared_backing,
        ),
        is_page_fetch(fetch, events),
    ensures
        is_on_page(
            page_after(fetch, events).step,
            fetch.page_addr as int,
            fetch.source_pos as int,
            fetch.page_size as int,
            from_peer,
            fetch.shared_backing,
        ),
        (PageFetch { step: fetch.step, ..page_after(fetch, events) }) == fetch,
    decreases events.len(),
{
    if events.len() > 0 {
        lemma_steps_stay_on_page(fetch, from_peer, events.drop_last());
    }
}

/// Two pages of a range are read as far apart as they lie in it: from the file and from the peer,
/// page `j` is `j - i` pages behind page `i`, and so is where it is installed.
pub proof fn law_pages_are_read_as_far_apart_as_they_lie(
    range: UffdRange,
    i: int,
    j: int,
    shared_backing: bool,
)
    requires
        0 <= i <= j,
        range.host_addr + j * range.page_size <= u64::MAX,
        range.source_offset + j * range.page_size <= u64::MAX,
    ensures
        match (
            PageFetch::of_page(range, i, false, false).step,
            PageFetch::of_page(range, j, false, false).step,
        ) {
            (PageStep::ReadFile { pos: p, .. }, PageStep::ReadFile { pos: q, .. }) => q - p == (j
                - i) * range.page_size,
            _ => false,
        },
        match (
            PageFetch::of_page(range, i, true, shared_backing).step,
            PageFetch::of_page(range, j, true, shared_backing).step,
        ) {
            (PageStep::Request { gpa: p, .. }, PageStep::Request { gpa: q, .. }) => q - p == (j - i)
                * range.page_size,
            _ => false,
        },
        PageFetch::of_page(range, j, true, shared_backing).page_addr - PageFetch::of_page(
            range,
            i,
            true,
            shared_backing,
        ).page_addr == (j - i) * range.page_size,
{
    let ps = range.page_size as int;
    assert((j - i) * ps == j * ps - i * ps) by (nonlinear_arith);
    assert(0 <= i * ps <= j * ps) by (nonlinear_arith)
        requires
            0 <= i <= j,
            ps >= 0,
    ;
}

/// What a page's fetch does after a read, an installation and a wake-up, by the error number that
/// the call came back with: what was read is installed as a whole, a page that is there (17) has
/// its threads woken and counts as served however that goes, and a busy kernel (11) is worth
/// another try.
pub proof fn law_page_goes_on_by_the_reply(fetch: PageFetch, reply: CallReply)
    ensures
        ({
            let next = fetch.after(SourceEvent::Returned(reply)).step;
            match fetch.step {
                PageStep::ReadFile { .. } => next == if reply is Done {
                    PageStep::Copy { dst: fetch.page_addr, len: fetch.page_size }
                } else {
                    PageStep::Failed(SourceFailure::Call)
                },
                PageStep::ReadPayload { .. } => next == if reply is Done {
                    PageStep::Copy { dst: fetch.page_addr, len: fetch.page_size }
                } else {
                    PageStep::Failed(SourceFailure::Call)
                },
                PageStep::Copy { .. } => next == match reply {
                    CallReply::Done => PageStep::Resolved(FaultResolution::Served),
                    CallReply::Failed { errno, .. } => if errno == Some(17i32) {
                        PageStep::WakePresent { addr: fetch.page_addr, len: fetch.page_size }
                    } else if errno == Some(11i32) {
                        PageStep::Resolved(FaultResolution::Retry)
                    } else {
                        PageStep::Failed(SourceFailure::Call)
                    },
                },
                PageStep::WakePresent { .. } => next == PageStep::Resolved(FaultResolution::Served),
                PageStep::WakeShared { .. } => next == match reply {
                    CallReply::Done => PageStep::Resolved(FaultResolution::Served),
                    CallReply::Failed { errno, .. } => if errno == Some(11i32) {
                        PageStep::Resolved(FaultResolution::Retry)
                    } else {
                        PageStep::Failed(SourceFailure::Call)
                    },
                },
                _ => next == PageStep::Failed(SourceFailure::Call),
            }
        }),
{
    law_reply_goes_by_its_error_number(reply);
}

/// What a page's fetch does after the peer answered. With shared backing an answer without
/// payload has the page's threads woken; without it, payload of the page's length is read. Any
/// other length is an error that names it, and a refusal one that names the request.
pub proof fn law_page_goes_on_by_the_answer(fetch: PageFetch, length: u64, status: String)
    ensures
        ({
            let next = fetch.after(SourceEvent::Answered(PeerReply::Accepted { length })).step;
            if fetch.shared_backing {
                if length == 0 {
                    next == (PageStep::WakeShared { addr: fetch.page_addr, len: fetch.page_size })
                } else {
                    next == PageStep::Failed(
                        SourceFailure::Peer(PeerError::UnexpectedBytes { resp_len: length }),
                    )
                }
            } else if length == fetch.page_size {
                next == (PageStep::ReadPayload { len: length })
            } else {
                next == PageStep::Failed(
                    SourceFailure::Peer(
                        PeerError::PageLength { resp_len: length, page_size: fetch.page_size },
                    ),
                )
            }
        }),
        fetch.after(SourceEvent::Answered(PeerReply::Refused { status })).step == PageStep::Failed(
            SourceFailure::Peer(
                PeerError::Status { status, gpa: fetch.source_pos, len: fetch.page_size },
            ),
        ),
{
}

/// A peer that accepts is taken at its word on the length, and one that refuses is an error with
/// its status and the request.
pub proof fn law_answer_is_taken_at_its_word(length: u64, status: String, gpa: u64, len: u64)
    ensures
        payload_length(PeerReply::Accepted { length }, gpa, len) == Ok::<u64, PeerError>(length),
        payload_length(PeerReply::Refused { status }, gpa, len) == Err::<u64, PeerError>(
            PeerError::Status { status, gpa, len },
        ),
{
}

/// A fetch takes whatever its call can come back with: a request an answer or an error, and any
/// other call success or an error. One that ended takes nothing.
pub proof fn law_fetches_take_every_outcome(
    page: PageFetch,
    run: RunFetch,
    reply: CallReply,
    answer: PeerReply,
)
    ensures
        match page.step {
            PageStep::Request { .. } => page.awaits(SourceEvent::Answered(answer)) && (reply
                is Failed ==> page.awaits(SourceEvent::Returned(reply))),
            PageStep::Resolved(_) => !page.awaits(SourceEvent::Returned(reply)) && !page.awaits(
                SourceEvent::Answered(answer),
            ),
            PageStep::Failed(_) => !page.awaits(SourceEvent::Returned(reply)) && !page.awaits(
                SourceEvent::Answered(answer),
            ),
            _ => page.awaits(SourceEvent::Returned(reply)),
        },
        match run.step {
            RunStep::Request { .. } => run.awaits(SourceEvent::Answered(answer)) && (reply
                is Failed ==> run.awaits(SourceEvent::Returned(reply))),
            RunStep::CopyRun { .. } => match reply {
                CallReply::Done => run.awaits(SourceEvent::Returned(reply)),
                CallReply::Failed { copied, .. } => copied <= run.pages * run.page_size
                    ==> run.awaits(SourceEvent::Returned(reply)),
            },
            RunStep::Finished { .. } => !run.awaits(SourceEvent::Returned(reply)) && !run.awaits(
                SourceEvent::Answered(answer),
            ),
            RunStep::Failed(_) => !run.awaits(SourceEvent::Returned(reply)) && !run.awaits(
                SourceEvent::Answered(answer),
            ),
            _ => run.awaits(SourceEvent::Returned(reply)),
        },
{
}

/// An error of a peer is told in its own words, with its lengths in decimal and its address in
/// hexadecimal.
pub proof fn law_peer_errors_name_their_numbers(status: String, gpa: u64, len: u64, bytes: u64)
    ensures
        (PeerError::Status { status, gpa, len }).text() == "peer returned "@ + status@
            + " for PageFault at gpa="@ + hex(gpa as int) + " len="@ + decimal(len as int),
        (PeerError::UnexpectedBytes { resp_len: len }).text()
            == "shared-backing PageFault response carried "@ + decimal(len as int)
            + " unexpected bytes"@,
        (PeerError::PageLength { resp_len: len, page_size: bytes }).text()
            == "inline PageFault response length "@ + decimal(len as int) + " != page size "@
            + decimal(bytes as int),
        (PeerError::RunLength { resp_len: len, bytes }).text()
            == "inline PageFault response length "@ + decimal(len as int) + " != requested run "@
            + decimal(bytes as int),
{
}

// A run of pages.

/// The fetch of a run after `events`.
pub open spec fn run_after(fetch: RunFetch, events: Seq<SourceEvent>) -> RunFetch
    decreases events.len(),
{
    if events.len() == 0 {
        fetch
    } else {
        run_after(fetch, events.drop_last()).after(events.last())
    }
}

/// The fetch waits for each of `events` at its point.
pub open spec fn is_fetch(fetch: RunFetch, events: Seq<SourceEvent>) -> bool
    decreases events.len(),
{
    events.len() > 0 ==> is_fetch(fetch, events.drop_last()) && run_after(
        fetch,
        events.drop_last(),
    ).awaits(events.last())
}

/// The call that the current step of `fetch` made and that came back as `event` showed page `p`
/// of the run to be installed: it installed the whole run, it stopped part-way behind that page,
/// or it installed that page alone or found it there.
pub open spec fn shows_installed(fetch: RunFetch, event: SourceEvent, p: int) -> bool {
    match event {
        SourceEvent::Returned(reply) => match fetch.step {
            RunStep::CopyRun { .. } => match reply.means() {
                Verdict::Done => 0 <= p < fetch.pages,
                Verdict::Busy => 0 <= p && fetch.page_offset(p + 1) <= fetch.copied(reply),
                _ => false,
            },
            RunStep::CopyPage { installed, .. } => p == installed && (reply.means() is Done
                || reply.means() is Present),
            _ => false,
        },
        SourceEvent::Answered(_) => false,
    }
}

/// Some call of `events` showed page `p` to be installed.
pub open spec fn known_installed(fetch: RunFetch, events: Seq<SourceEvent>, p: int) -> bool
    decreases events.len(),
{
    events.len() > 0 && (known_installed(fetch, events.drop_last(), p) || shows_installed(
        run_after(fetch, events.drop_last()),
        events.last(),
        p,
    ))
}

/// Every state of a run's fetch is valid and on the same run: each page that is installed alone
/// comes from its own place in the payload and goes to its own address.
pub proof fn law_run_states_are_valid(fetch: RunFetch, events: Seq<SourceEvent>)
    requires
        fetch.valid(),
        is_fetch(fetch, events),
    ensures
        run_after(fetch, events).valid(),
        (RunFetch { step: fetch.step, ..run_after(fetch, events) }) == fetch,
    decreases events.len(),
{
    if events.len() > 0 {
        law_run_states_are_valid(fetch, events.drop_last());
        lemma_run_stays_valid(run_after(fetch, events.drop_last()), events.last());
    }
}

/// The number of pages that a run returns is that of the leading pages that are installed: every
/// page before it was shown to be, and the page at it and those behind were not.
pub proof fn law_run_returns_leading_pages(fetch: RunFetch, events: Seq<SourceEvent>, p: int)
    requires
        fetch.valid(),
        fetch.step is Request,
        is_fetch(fetch, events),
        run_after(fetch, events).step is Finished,
        0 <= p,
    ensures
        run_after(fetch, events).step->pages <= fetch.pages,
        p < run_after(fetch, events).step->pages <==> known_installed(fetch, events, p),
{
    law_run_states_are_valid(fetch, events);
    lemma_counted_pages_are_the_installed(fetch, events);
}

/// Number of leading pages that step `step` counts on.
spec fn counted(step: RunStep) -> int {
    match step {
        RunStep::CopyPage { installed, .. } => installed as int,
        RunStep::WakePage { installed, .. } => installed + 1,
        RunStep::Finished { pages } => pages as int,
        _ => 0,
    }
}

proof fn lemma_counted_pages_are_the_installed(fetch: RunFetch, events: Seq<SourceEvent>)
    requires
        fetch.valid(),
        fetch.step is Request,
        is_fetch(fetch, events),
    ensures
        !(run_after(fetch, events).step is Failed) ==> forall|p: int|
            0 <= p ==> (#[trigger] known_installed(fetch, events, p) <==> p < counted(
                run_after(fetch, events).step,
            )),
    decreases events.len(),
{
    if events.len() > 0 {
        let front = events.drop_last();
        let before = run_after(fetch, front);
        let after = run_after(fetch, events);
        lemma_counted_pages_are_the_installed(fetch, front);
        law_run_states_are_valid(fetch, front);
        if !(after.step is Failed) {
            assert forall|p: int| 0 <= p implies (#[trigger] known_installed(fetch, events, p)
                <==> p < counted(after.step)) by {
                assert(known_installed(fetch, front, p) <==> p < counted(before.step));
                if let SourceEvent::Returned(reply) = events.last() {
                    if before.step is CopyRun && reply.means() is Busy {
                        lemma_whole_pages(before.copied(reply), before.page_size as int, p);
                    }
                }
            }
        }
    }
}

/// `copied` bytes are `copied / page_size` whole pages and no more.
proof fn lemma_whole_pages(copied: int, page_size: int, p: int)
    requires
        copied >= 0,
        page_size > 0,
    ensures
        (p + 1) * page_size <= copied <==> p < copied / page_size,
{
    let q = copied / page_size;
    vstd::arithmetic::div_mod::lemma_fundamental_div_mod(copied, page_size);
    assert(q * page_size <= copied < (q + 1) * page_size) by (nonlinear_arith)
        requires
            copied == page_size * q + copied % page_size,
            0 <= copied % page_size < page_size,
    ;
    if p < q {
        assert((p + 1) * page_size <= q * page_size) by (nonlinear_arith)
            requires
                p + 1 <= q,
                page_size > 0,
        ;
    } else {
        assert((p + 1) * page_size >= (q + 1) * page_size) by (nonlinear_arith)
            requires
                p >= q,
                page_size > 0,
        ;
    }
}

/// A run never returns more pages than were asked for: one that is fetched as a run returns at
/// most that many, and a page alone, which counts at most one, is fetched only for a run of at
/// least one.
pub proof fn law_run_returns_no_more_than_asked(
    range: UffdRange,
    shared_backing: bool,
    start_page: u64,
    num_pages: u64,
    events: Seq<SourceEvent>,
)
    requires
        range.addr_of_page(start_page as int) <= u64::MAX,
        shared_backing || num_pages <= 1 || run_fits(range, start_page as int, num_pages as int),
    ensures
        match planned_run(range, shared_backing, start_page as int, num_pages as int) {
            PageRun::Page(_) => num_pages >= 1,
            PageRun::Run(fetch) => is_fetch(fetch, events) ==> (run_after(fetch, events).step matches
                RunStep::Finished { pages } ==> pages <= num_pages),
        },
{
    match planned_run(range, shared_backing, start_page as int, num_pages as int) {
        PageRun::Page(_) => {},
        PageRun::Run(fetch) => {
            let pages = fetch.pages as int;
            let ps = range.page_size as int;
            assert((start_page + pages - 1) * ps == start_page * ps + (pages - 1) * ps)
                by (nonlinear_arith);
            assert(start_page * ps >= 0) by (nonlinear_arith)
                requires
                    ps >= 0,
            ;
            if is_fetch(fetch, events) {
                law_run_states_are_valid(fetch, events);
            }
        },
    }
}

/// How many more calls a run's fetch makes at most.
pub open spec fn calls_left(fetch: RunFetch) -> int {
    match fetch.step {
        RunStep::Request { .. } => 3 + 2 * fetch.pages,
        RunStep::ReadPayload { .. } => 2 + 2 * fetch.pages,
        RunStep::CopyRun { .. } => 1 + 2 * fetch.pages,
        RunStep::CopyPage { installed, .. } => 2 * (fetch.pages - installed),
        RunStep::WakePage { installed, .. } => 2 * (fetch.pages - installed) - 1,
        RunStep::Finished { .. } => 0,
        RunStep::Failed(_) => 0,
    }
}

/// A run's fetch ends: each report leaves fewer calls to make.
pub proof fn law_run_ends(fetch: RunFetch, event: SourceEvent)
    requires
        fetch.valid(),
        fetch.awaits(event),
    ensures
        0 <= calls_left(fetch.after(event)) < calls_left(fetch),
{
    lemma_run_stays_valid(fetch, event);
}

/// What every call of a run's fetch comes back with, should it be made.
pub struct RunAnswers {
    /// The peer's answer, or how asking it failed.
    pub request: Result<PeerReply, Option<i32>>,
    /// Reading the payload from the stream.
    pub read: CallReply,
    /// Installing the whole run.
    pub copy_run: CallReply,
    /// Installing one page alone.
    pub copy_page: spec_fn(int) -> CallReply,
    /// Waking the threads that wait on one page.
    pub wake: spec_fn(int) -> CallReply,
}

impl RunAnswers {
    /// What step `step` comes back with.
    pub open spec fn to(self, step: RunStep) -> SourceEvent {
        match step {
            RunStep::Request { .. } => match self.request {
                Ok(reply) => SourceEvent::Answered(reply),
                Err(errno) => SourceEvent::Returned(
                    CallReply::Failed { errno, copied: 0 },
                ),
            },
            RunStep::CopyRun { .. } => SourceEvent::Returned(self.copy_run),
            RunStep::CopyPage { installed, .. } => SourceEvent::Returned(
                (self.copy_page)(installed as int),
            ),
            RunStep::WakePage { installed, .. } => SourceEvent::Returned(
                (self.wake)(installed as int),
            ),
            _ => SourceEvent::Returned(self.read),
        }
    }

    /// Where up to `n` steps of `fetch` lead.
    pub open spec fn play(self, fetch: RunFetch, n: nat) -> RunFetch
        decreases n,
    {
        if n == 0 || !fetch.awaits(self.to(fetch.step)) {
            fetch
        } else {
            self.play(fetch.after(self.to(fetch.step)), (n - 1) as nat)
        }
    }

    /// How installing a run of `pages` pages page by page comes out from page `i` on: it goes on
    /// past every page that is installed or there already, stops at the first that the kernel is
    /// busy with and fails at the first that cannot be installed.
    pub open spec fn pages_outcome(self, pages: int, i: int) -> RunStep
        decreases pages - i,
    {
        if i >= pages {
            RunStep::Finished { pages: pages as u64 }
        } else {
            match (self.copy_page)(i).means() {
                Verdict::Done => self.pages_outcome(pages, i + 1),
                Verdict::Present => self.pages_outcome(pages, i + 1),
                Verdict::Busy => RunStep::Finished { pages: i as u64 },
                Verdict::Failed => RunStep::Failed(SourceFailure::Call),
            }
        }
    }

    /// How the run of `fetch` comes out whose payload is at hand: all at once, as far as it got
    /// when it stopped part-way, or page by page when its first page is there already.
    pub open spec fn install_outcome(self, fetch: RunFetch) -> RunStep {
        match self.copy_run.means() {
            Verdict::Done => RunStep::Finished { pages: fetch.pages },
            Verdict::Busy => RunStep::Finished {
                pages: (fetch.copied(self.copy_run) / (fetch.page_size as int)) as u64,
            },
            Verdict::Present => self.pages_outcome(fetch.pages as int, 0),
            Verdict::Failed => RunStep::Failed(SourceFailure::Call),
        }
    }
}

/// A run of pages of a peer is resolved: it fails when the peer cannot be asked, when it refuses,
/// when it announces a payload of another length than the run and when the payload cannot be
/// read, and otherwise comes out as its installation does. Waking the threads of a page that was
/// there already does not change that.
pub proof fn law_run_outcome(fetch: RunFetch, answers: RunAnswers)
    requires
        fetch.valid(),
        fetch.step is Request,
        fetch.copied(answers.copy_run) <= fetch.bytes(),
    ensures
        answers.play(fetch, calls_left(fetch) as nat).step == (match answers.request {
            Err(_) => RunStep::Failed(SourceFailure::Call),
            Ok(reply) => match payload_length(reply, fetch.start_gpa, fetch.bytes() as u64) {
                Err(error) => RunStep::Failed(SourceFailure::Peer(error)),
                Ok(resp_len) => if resp_len != fetch.bytes() {
                    RunStep::Failed(
                        SourceFailure::Peer(
                            PeerError::RunLength { resp_len, bytes: fetch.bytes() as u64 },
                        ),
                    )
                } else if answers.read is Done {
                    answers.install_outcome(fetch)
                } else {
                    RunStep::Failed(SourceFailure::Call)
                },
            },
        }),
{
    assert(fetch.bytes() >= 0) by (nonlinear_arith)
        requires
            fetch.bytes() == fetch.pages * fetch.page_size,
    ;
    lemma_play_ends(answers, fetch);
    let e1 = answers.to(fetch.step);
    let f1 = fetch.after(e1);
    lemma_run_stays_valid(fetch, e1);
    if f1.step is ReadPayload {
        lemma_play_ends(answers, f1);
        let e2 = answers.to(f1.step);
        let f2 = f1.after(e2);
        lemma_run_stays_valid(f1, e2);
        if f2.step is CopyRun {
            lemma_play_ends(answers, f2);
            let e3 = answers.to(f2.step);
            let f3 = f2.after(e3);
            lemma_run_stays_valid(f2, e3);
            lemma_pages_play(answers, f3);
        } else {
            lemma_pages_play(answers, f2);
        }
    } else {
        lemma_pages_play(answers, f1);
    }
}

/// Playing a fetch to its end goes through its first step.
proof fn lemma_play_ends(answers: RunAnswers, fetch: RunFetch)
    requires
        fetch.valid(),
        fetch.awaits(answers.to(fetch.step)),
    ensures
        answers.play(fetch, calls_left(fetch) as nat) == answers.play(
            fetch.after(answers.to(fetch.step)),
            calls_left(fetch.after(answers.to(fetch.step))) as nat,
        ),
{
    let next = fetch.after(answers.to(fetch.step));
    law_run_ends(fetch, answers.to(fetch.step));
    lemma_run_stays_valid(fetch, answers.to(fetch.step));
    lemma_play_settles(
        answers,
        next,
        (calls_left(fetch) - 1) as nat,
        calls_left(next) as nat,
    );
}

/// A fetch that has no more than `m` calls left ends the same with `n` as with `m`.
proof fn lemma_play_settles(answers: RunAnswers, fetch: RunFetch, n: nat, m: nat)
    requires
        fetch.valid(),
        calls_left(fetch) <= m <= n,
    ensures
        answers.play(fetch, n) == answers.play(fetch, m),
    decreases n,
{
    let event = answers.to(fetch.step);
    if fetch.awaits(event) {
        law_run_ends(fetch, event);
        lemma_run_stays_valid(fetch, event);
        lemma_play_settles(answers, fetch.after(event), (n - 1) as nat, (m - 1) as nat);
    }
}

/// What step `step` of a run of `pages` pages comes to once the payload is at hand.
spec fn late_outcome(answers: RunAnswers, step: RunStep, pages: int) -> RunStep {
    match step {
        RunStep::CopyPage { installed, .. } => answers.pages_outcome(pages, installed as int),
        RunStep::WakePage { installed, .. } => answers.pages_outcome(pages, installed + 1),
        _ => step,
    }
}

proof fn lemma_pages_play(answers: RunAnswers, fetch: RunFetch)
    requires
        fetch.valid(),
        fetch.step is CopyPage || fetch.step is WakePage || fetch.step is Finished
            || fetch.step is Failed,
    ensures
        answers.play(fetch, calls_left(fetch) as nat).step == late_outcome(
            answers,
            fetch.step,
            fetch.pages as int,
        ),
    decreases calls_left(fetch),
{
    reveal_with_fuel(RunAnswers::pages_outcome, 2);
    let event = answers.to(fetch.step);
    if fetch.awaits(event) {
        lemma_play_ends(answers, fetch);
        lemma_run_stays_valid(fetch, event);
        law_run_ends(fetch, event);
        lemma_pages_play(answers, fetch.after(event));
    }
}

/// A page of a run is installed at the address of that page of the range, with the bytes that
/// the peer has for that page.
pub proof fn law_run_pages_match_the_range(range: UffdRange, start_page: int, pages: int, i: int)
    requires
        0 <= start_page,
        0 <= i < pages <= u64::MAX,
        range.addr_of_page(start_page + pages - 1) <= u64::MAX,
        range.source_of_page(start_page) <= u64::MAX,
    ensures
        ({
            let fetch = RunFetch::of_run(range, start_page, pages);
            &&& fetch.start_addr + fetch.page_offset(i) == range.addr_of_page(start_page + i)
            &&& fetch.start_gpa + fetch.page_offset(i) == range.source_of_page(start_page + i)
        }),
{
    let ps = range.page_size as int;
    assert((start_page + i) * ps == start_page * ps + i * ps) by (nonlinear_arith);
    assert(start_page * ps <= (start_page + pages - 1) * ps) by (nonlinear_arith)
        requires
            pages >= 1,
            ps >= 0,
    ;
    assert(start_page * ps >= 0) by (nonlinear_arith)
        requires
            start_page >= 0,
            ps >= 0,
    ;
}

/// Step `step` of a run's fetch is on the `pages` pages at `addr`, which the peer has at `pos`:
/// the run is asked for, read and installed as a whole, and a page that is installed or woken
/// alone is one of its pages, from its own place in the payload and at its own address.
pub open spec fn is_on_run(
    step: RunStep,
    addr: int,
    pos: int,
    page_size: int,
    pages: int,
) -> bool {
    match step {
        RunStep::Request { gpa, len } => gpa == pos && len == pages * page_size,
        RunStep::ReadPayload { len } => len == pages * page_size,
        RunStep::CopyRun { dst, len } => dst == addr && len == pages * page_size,
        RunStep::CopyPage { installed, dst, offset, len } => installed < pages && dst == addr
            + installed * page_size && offset == installed * page_size && len == page_size,
        RunStep::WakePage { installed, addr: a, len } => installed < pages && a == addr + installed
            * page_size && len == page_size,
        RunStep::Finished { pages: n } => n <= pages,
        RunStep::Failed(SourceFailure::Call) => true,
        RunStep::Failed(SourceFailure::Peer(error)) => match error {
            PeerError::Status { gpa, len, .. } => gpa == pos && len == pages * page_size,
            PeerError::RunLength { resp_len, bytes } => bytes == pages * page_size && resp_len
                != bytes,
            _ => false,
        },
    }
}

/// Whatever its calls come back with, every step of a run's fetch is on that run: its first page
/// is `start_page` pages behind the start of the range and of the source, and its pages are those
/// asked for as far as the range has them.
pub proof fn law_run_steps_are_on_the_run(
    range: UffdRange,
    start_page: int,
    num_pages: int,
    pages: int,
    events: Seq<SourceEvent>,
)
    requires
        0 <= start_page,
        2 <= num_pages <= u64::MAX,
        run_fits(range, start_page, num_pages),
        range.host_addr + start_page * range.page_size <= u64::MAX,
        range.source_offset + start_page * range.page_size <= u64::MAX,
        pages <= num_pages,
        start_page + pages <= range.page_count(),
        pages == num_pages || start_page + pages == range.page_count(),
        planned_run(range, false, start_page, num_pages) matches PageRun::Run(fetch) && is_fetch(
            fetch,
            events,
        ),
    ensures
        planned_run(range, false, start_page, num_pages) matches PageRun::Run(fetch) && is_on_run(
            run_after(fetch, events).step,
            range.host_addr + start_page * range.page_size,
            range.source_offset + start_page * range.page_size,
            range.page_size as int,
            pages,
        ) && (events.len() == 0 ==> run_after(fetch, events).step is Request),
{
    let ps = range.page_size as int;
    assert(start_page * ps >= 0) by (nonlinear_arith)
        requires
            start_page >= 0,
            ps >= 0,
    ;
    assert((start_page + pages - 1) * ps == start_page * ps + (pages - 1) * ps)
        by (nonlinear_arith);
    let fetch = planned_run(range, false, start_page, num_pages)->Run_0;
    assert(fetch.pages == pages);
    assert(pages * ps >= 0) by (nonlinear_arith)
        requires
            pages >= 0,
            ps >= 0,
    ;
    lemma_steps_stay_on_run(fetch, events);
}

proof fn lemma_steps_stay_on_run(fetch: RunFetch, events: Seq<SourceEvent>)
    requires
        fetch.valid(),
        is_fetch(fetch, events),
        is_on_run(
            fetch.step,
            fetch.start_addr as int,
            fetch.start_gpa as int,
            fetch.page_size as int,
            fetch.pages as int,
        ),
    ensures
        is_on_run(
            run_after(fetch, events).step,
            fetch.start_addr as int,
            fetch.start_gpa as int,
            fetch.page_size as int,
            fetch.pages as int,
        ),
    decreases events.len(),
{
    if events.len() > 0 {
        let front = events.drop_last();
        lemma_steps_stay_on_run(fetch, front);
        law_run_states_are_valid(fetch, front);
        law_run_states_are_valid(fetch, events);
        assert(fetch.bytes() >= 0) by (nonlinear_arith)
            requires
                fetch.bytes() == fetch.pages * fetch.page_size,
        ;
    }
}

/// What a run's fetch does next, by the error number that the call came back with. The payload
/// that was read is installed as a whole. An installation that stopped part-way (11) counts the
/// whole pages among the bytes that it put in place, one that found its first page there (17)
/// goes on page by page, and there a page that is installed or there already is followed by the
/// next, or by the end once every page was.
pub proof fn law_run_goes_on_by_the_reply(fetch: RunFetch, reply: CallReply)
    requires
        fetch.valid(),
        fetch.awaits(SourceEvent::Returned(reply)),
    ensures
        ({
            let next = fetch.after(SourceEvent::Returned(reply)).step;
            match fetch.step {
                RunStep::ReadPayload { .. } => if reply is Done {
                    next matches RunStep::CopyRun { dst, len } && dst == fetch.start_addr && len
                        == fetch.pages * fetch.page_size
                } else {
                    next == RunStep::Failed(SourceFailure::Call)
                },
                RunStep::CopyRun { .. } => match reply {
                    CallReply::Done => next == (RunStep::Finished { pages: fetch.pages }),
                    CallReply::Failed { errno, copied } => if errno == Some(11i32) {
                        next matches RunStep::Finished { pages } && pages * fetch.page_size
                            <= copied < (pages + 1) * fetch.page_size
                    } else if errno == Some(17i32) {
                        goes_to_page(fetch, next, 0)
                    } else {
                        next == RunStep::Failed(SourceFailure::Call)
                    },
                },
                RunStep::CopyPage { installed, dst, len, .. } => match reply {
                    CallReply::Done => goes_to_page(fetch, next, installed + 1),
                    CallReply::Failed { errno, .. } => if errno == Some(17i32) {
                        next == (RunStep::WakePage { installed, addr: dst, len })
                    } else if errno == Some(11i32) {
                        next == (RunStep::Finished { pages: installed })
                    } else {
                        next == RunStep::Failed(SourceFailure::Call)
                    },
                },
                RunStep::WakePage { installed, .. } => goes_to_page(fetch, next, installed + 1),
                _ => next == RunStep::Failed(SourceFailure::Call),
            }
        }),
{
    law_reply_goes_by_its_error_number(reply);
    assert(fetch.bytes() >= 0) by (nonlinear_arith)
        requires
            fetch.bytes() == fetch.pages * fetch.page_size,
    ;
    lemma_run_stays_valid(fetch, SourceEvent::Returned(reply));
    if let RunStep::CopyRun { .. } = fetch.step {
        if let CallReply::Failed { copied, .. } = reply {
            let ps = fetch.page_size as int;
            let q = copied as int / ps;
            lemma_whole_pages(copied as int, ps, q - 1);
            lemma_whole_pages(copied as int, ps, q);
            vstd::arithmetic::div_mod::lemma_div_pos_is_pos(copied as int, ps);
            assert(q <= copied) by (nonlinear_arith)
                requires
                    q * ps <= copied,
                    ps >= 1,
                    q >= 0,
            ;
        }
    }
}

/// `next` installs page `i` of the run alone, from its place in the payload and at its address,
/// or ends the run with all its pages where it has no such page.
pub open spec fn goes_to_page(fetch: RunFetch, next: RunStep, i: int) -> bool {
    if i < fetch.pages {
        next matches RunStep::CopyPage { installed, dst, offset, len } && installed == i && dst
            == fetch.start_addr + i * fetch.page_size && offset == i * fetch.page_size && len
            == fetch.page_size
    } else {
        next == (RunStep::Finished { pages: fetch.pages })
    }
}

/// What a run's fetch does after the peer answered: payload of the run's length is read, any
/// other length is an error that names it, and a refusal one that names the request.
pub proof fn law_run_goes_on_by_the_answer(fetch: RunFetch, length: u64, status: String)
    requires
        fetch.valid(),
    ensures
        ({
            let next = fetch.after(SourceEvent::Answered(PeerReply::Accepted { length })).step;
            if length == fetch.pages * fetch.page_size {
                next == (RunStep::ReadPayload { len: length })
            } else {
                next matches RunStep::Failed(SourceFailure::Peer(error)) && error matches
                    PeerError::RunLength { resp_len, bytes } && resp_len == length && bytes
                    == fetch.pages * fetch.page_size
            }
        }),
        fetch.after(SourceEvent::Answered(PeerReply::Refused { status })).step matches
            RunStep::Failed(SourceFailure::Peer(error)) && error matches PeerError::Status {
            status: named,
            gpa,
            len,
        } && named == status && gpa == fetch.start_gpa && len == fetch.pages * fetch.page_size,
{
    assert(fetch.bytes() >= 0) by (nonlinear_arith)
        requires
            fetch.bytes() == fetch.pages * fetch.page_size,
    ;
}

/// The call that step `step` made and that came back as `event` put the byte at address `a` in
/// place, or found it there: an installation that was done put all its bytes there, one of a run
/// that stopped part-way (11) as many as it says, and a page of its own that was there already
/// (17) has all its bytes there.
pub open spec fn puts_in_place(step: RunStep, event: SourceEvent, a: int) -> bool {
    match event {
        SourceEvent::Returned(CallReply::Done) => match step {
            RunStep::CopyRun { dst, len } => dst <= a < dst + len,
            RunStep::CopyPage { dst, len, .. } => dst <= a < dst + len,
            _ => false,
        },
        SourceEvent::Returned(CallReply::Failed { errno, copied }) => match step {
            RunStep::CopyRun { dst, .. } => errno == Some(11i32) && dst <= a < dst + copied,
            RunStep::CopyPage { dst, len, .. } => errno == Some(17i32) && dst <= a < dst + len,
            _ => false,
        },
        SourceEvent::Answered(_) => false,
    }
}

/// Some call of `events` put the byte at address `a` in place.
pub open spec fn in_place(fetch: RunFetch, events: Seq<SourceEvent>, a: int) -> bool
    decreases events.len(),
{
    events.len() > 0 && (in_place(fetch, events.drop_last(), a) || puts_in_place(
        run_after(fetch, events.drop_last()).step,
        events.last(),
        a,
    ))
}

/// The count that a run returns is that of its leading pages whose bytes are in place: every byte
/// of the counted pages is, of the page behind them at least the last byte is not, and nothing
/// outside the run was touched.
pub proof fn law_counted_pages_are_in_place(fetch: RunFetch, events: Seq<SourceEvent>, a: int)
    requires
        fetch.valid(),
        fetch.step is Request,
        is_fetch(fetch, events),
        run_after(fetch, events).step is Finished,
    ensures
        ({
            let pages = run_after(fetch, events).step->pages;
            &&& fetch.start_addr <= a < fetch.start_addr + pages * fetch.page_size ==> in_place(
                fetch,
                events,
                a,
            )
            &&& in_place(fetch, events, a) ==> fetch.start_addr <= a < fetch.start_addr
                + fetch.pages * fetch.page_size && a < fetch.start_addr + (pages + 1)
                * fetch.page_size - 1
        }),
{
    law_run_states_are_valid(fetch, events);
    lemma_counted_bytes_are_in_place(fetch, events, a);
}

proof fn lemma_counted_bytes_are_in_place(fetch: RunFetch, events: Seq<SourceEvent>, a: int)
    requires
        fetch.valid(),
        fetch.step is Request,
        is_fetch(fetch, events),
    ensures
        ({
            let n = counted(run_after(fetch, events).step);
            !(run_after(fetch, events).step is Failed) ==> {
                &&& fetch.start_addr <= a < fetch.start_addr + n * fetch.page_size ==> in_place(
                    fetch,
                    events,
                    a,
                )
                &&& in_place(fetch, events, a) ==> fetch.start_addr <= a < fetch.start_addr
                    + fetch.pages * fetch.page_size && a < fetch.start_addr + (n + 1)
                    * fetch.page_size - 1
                &&& in_place(fetch, events, a) && !(run_after(fetch, events).step is Finished)
                    ==> a < fetch.start_addr + n * fetch.page_size
            }
        }),
    decreases events.len(),
{
    let ps = fetch.page_size as int;
    let n = counted(run_after(fetch, events).step);
    assert((n + 1) * ps == n * ps + ps) by (nonlinear_arith);
    if events.len() == 0 {
        assert(0 * ps == 0);
    } else {
        let front = events.drop_last();
        let before = run_after(fetch, front);
        let after = run_after(fetch, events);
        lemma_counted_bytes_are_in_place(fetch, front, a);
        law_run_states_are_valid(fetch, front);
        law_run_states_are_valid(fetch, events);
        lemma_steps_of_run_are_whole(fetch, front);
        let m = counted(before.step);
        assert((m + 1) * ps == m * ps + ps) by (nonlinear_arith);
        if !(after.step is Failed) {
            if let SourceEvent::Returned(reply) = events.last() {
                law_reply_goes_by_its_error_number(reply);
                law_run_goes_on_by_the_reply(before, reply);
                if let RunStep::CopyPage { installed, .. } = before.step {
                    lemma_page_fits(before, installed as int);
                }
            }
        }
    }
}

/// Before anything was installed, the run is asked for, read and installed as a whole.
proof fn lemma_steps_of_run_are_whole(fetch: RunFetch, events: Seq<SourceEvent>)
    requires
        fetch.valid(),
        fetch.step is Request,
        is_fetch(fetch, events),
    ensures
        run_after(fetch, events).step matches RunStep::CopyRun { dst, len } ==> dst
            == fetch.start_addr && len == fetch.pages * fetch.page_size,
    decreases events.len(),
{
    if events.len() > 0 {
        let front = events.drop_last();
        law_run_states_are_valid(fetch, front);
        assert(fetch.bytes() >= 0) by (nonlinear_arith)
            requires
                fetch.bytes() == fetch.pages * fetch.page_size,
        ;
    }
}

} // verus!
