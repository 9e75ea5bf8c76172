//! Resolving guest-memory faults from a data source.
//!
//! A page is fetched from a snapshot file or from a peer and installed in the guest. A fetch
//! decides what is done next; its driver makes the call and reports how it came back.

use crate::range::UffdRange;
use crate::reply::{CallReply, Verdict};
use crate::text::{decimal, hex, push_decimal, push_hex};
use vstd::prelude::*;

verus! {

/// Result of a page fault being resolved.
#[derive(Debug, Clone, Copy, PartialEq, Eq, Structural)]
pub enum FaultResolution {
    /// Page installed.
    Served,
    /// Indicates the page couldn't be installed and it's worth retrying.
    Retry,
}

impl FaultResolution {
    /// Number of pages that resolving one page installed.
    pub fn installed(self) -> (pages: u64)
        ensures
            pages == (if self is Served {
                1int
            } else {
                0
            }),
    {
        match self {
            FaultResolution::Served => 1,
            FaultResolution::Retry => 0,
        }
    }
}

/// What a peer answers to a request for pages.
#[derive(Debug)]
pub enum PeerReply {
    /// It agrees, and `length` bytes of payload follow.
    Accepted { length: u64 },
    /// It answers with another status, named by `status`.
    Refused { status: String },
}

/// A peer's answer that does not fit the request.
#[derive(Debug)]
pub enum PeerError {
    /// A status other than success.
    Status { status: String, gpa: u64, len: u64 },
    /// Payload although the peer writes pages straight into shared memory.
    UnexpectedBytes { resp_len: u64 },
    /// Payload of another length than the page.
    PageLength { resp_len: u64, page_size: u64 },
    /// Payload of another length than the run of pages.
    RunLength { resp_len: u64, bytes: u64 },
}

impl PeerError {
    /// The error in words.
    pub open spec fn text(self) -> Seq<char> {
        match self {
            PeerError::Status { status, gpa, len } => "peer returned "@ + status@
                + " for PageFault at gpa="@ + hex(gpa as int) + " len="@ + decimal(len as int),
            PeerError::UnexpectedBytes { resp_len } =>
                "shared-backing PageFault response carried "@ + decimal(resp_len as int)
                + " unexpected bytes"@,
            PeerError::PageLength { resp_len, page_size } => "inline PageFault response length "@
                + decimal(resp_len as int) + " != page size "@ + decimal(page_size as int),
            PeerError::RunLength { resp_len, bytes } => "inline PageFault response length "@
                + decimal(resp_len as int) + " != requested run "@ + decimal(bytes as int),
        }
    }

    /// The error in words.
    pub fn message(&self) -> (message: String)
        ensures
            message@ == self.text(),
    {
        let mut out = String::new();
        match self {
            PeerError::Status { status, gpa, len } => {
                out.append("peer returned ");
                out.append(status.as_str());
                out.append(" for PageFault at gpa=");
                push_hex(&mut out, *gpa);
                out.append(" len=");
                push_decimal(&mut out, *len);
            },
            PeerError::UnexpectedBytes { resp_len } => {
                out.append("shared-backing PageFault response carried ");
                push_decimal(&mut out, *resp_len);
                out.append(" unexpected bytes");
            },
            PeerError::PageLength { resp_len, page_size } => {
                out.append("inline PageFault response length ");
                push_decimal(&mut out, *resp_len);
                out.append(" != page size ");
                push_decimal(&mut out, *page_size);
            },
            PeerError::RunLength { resp_len, bytes } => {
                out.append("inline PageFault response length ");
                push_decimal(&mut out, *resp_len);
                out.append(" != requested run ");
                push_decimal(&mut out, *bytes);
            },
        }
        assert(out@ =~= self.text());
        out
    }
}

/// The length of the payload that follows `reply` to a request for `len` bytes at `gpa`.
pub open spec fn payload_length(reply: PeerReply, gpa: u64, len: u64) -> Result<u64, PeerError> {
    match reply {
        PeerReply::Accepted { length } => Ok(length),
        PeerReply::Refused { status } => Err(PeerError::Status { status, gpa, len }),
    }
}

/// Returns the length of the inline page payload the peer is about to send (0 when the page was
/// written directly into shared memory).
pub fn accept_reply(reply: PeerReply, gpa: u64, len: u64) -> (length: Result<u64, PeerError>)
    ensures
        length == payload_length(reply, gpa, len),
{
    match reply {
        PeerReply::Accepted { length } => Ok(length),
        PeerReply::Refused { status } => Err(PeerError::Status { status, gpa, len }),
    }
}

/// What the driver of a fetch reports.
#[derive(Debug)]
pub enum SourceEvent {
    /// The call came back.
    Returned(CallReply),
    /// The request was sent and the peer answered.
    Answered(PeerReply),
}

/// Why a fetch failed.
#[derive(Debug)]
pub enum SourceFailure {
    /// The last call failed; its error is the fetch's.
    Call,
    /// The peer's answer does not fit the request.
    Peer(PeerError),
}

// One page.

/// What the fetch of one page does next.
#[derive(Debug)]
pub enum PageStep {
    /// Read `len` bytes at `pos` of the file to the start of the buffer.
    ReadFile { pos: u64, len: u64 },
    /// Ask the peer for `len` bytes at `gpa`, and read its answer.
    Request { gpa: u64, len: u64 },
    /// Read `len` bytes of payload to the start of the buffer.
    ReadPayload { len: u64 },
    /// Install `len` bytes from the start of the buffer at `dst`.
    Copy { dst: u64, len: u64 },
    /// The page was there already: wake the threads that wait on it. A failure is of no
    /// consequence.
    WakePresent { addr: u64, len: u64 },
    /// The peer wrote the page into shared memory: wake the threads that wait on it.
    WakeShared { addr: u64, len: u64 },
    /// Return this.
    Resolved(FaultResolution),
    /// Return an error.
    Failed(SourceFailure),
}

/// The fetch of one page.
#[derive(Debug)]
pub struct PageFetch {
    /// Where the page is installed.
    pub page_addr: u64,
    /// Where the data source has the page.
    pub source_pos: u64,
    /// Length of the page.
    pub page_size: u64,
    /// The peer writes pages straight into memory that it shares with the guest.
    pub shared_backing: bool,
    /// What is done next.
    pub step: PageStep,
}

impl PageFetch {
    /// The fetch waits for `event`.
    pub open spec fn awaits(self, event: SourceEvent) -> bool {
        match self.step {
            PageStep::Request { .. } => match event {
                SourceEvent::Answered(_) => true,
                SourceEvent::Returned(reply) => reply is Failed,
            },
            PageStep::Resolved(_) => false,
            PageStep::Failed(_) => false,
            _ => event is Returned,
        }
    }

    /// What is done after the call of the current step came back with `reply`.
    pub open spec fn step_after_call(self, reply: CallReply) -> PageStep {
        match self.step {
            PageStep::ReadFile { .. } | PageStep::ReadPayload { .. } => if reply is Done {
                PageStep::Copy { dst: self.page_addr, len: self.page_size }
            } else {
                PageStep::Failed(SourceFailure::Call)
            },
            PageStep::Copy { .. } => match reply.means() {
                Verdict::Done => PageStep::Resolved(FaultResolution::Served),
                Verdict::Present => PageStep::WakePresent {
                    addr: self.page_addr,
                    len: self.page_size,
                },
                Verdict::Busy => PageStep::Resolved(FaultResolution::Retry),
                Verdict::Failed => PageStep::Failed(SourceFailure::Call),
            },
            PageStep::WakePresent { .. } => PageStep::Resolved(FaultResolution::Served),
            PageStep::WakeShared { .. } => match reply.means() {
                Verdict::Done => PageStep::Resolved(FaultResolution::Served),
                Verdict::Busy => PageStep::Resolved(FaultResolution::Retry),
                _ => PageStep::Failed(SourceFailure::Call),
            },
            _ => PageStep::Failed(SourceFailure::Call),
        }
    }

    /// What is done after the peer answered with `reply`: shared memory needs no payload, and
    /// any other page comes as payload of its own length.
    pub open spec fn step_after_answer(self, reply: PeerReply) -> PageStep {
        match payload_length(reply, self.source_pos, self.page_size) {
            Err(error) => PageStep::Failed(SourceFailure::Peer(error)),
            Ok(resp_len) => if self.shared_backing && resp_len != 0 {
                PageStep::Failed(SourceFailure::Peer(PeerError::UnexpectedBytes { resp_len }))
            } else if self.shared_backing {
                PageStep::WakeShared { addr: self.page_addr, len: self.page_size }
            } else if resp_len != self.page_size {
                PageStep::Failed(
                    SourceFailure::Peer(
                        PeerError::PageLength { resp_len, page_size: self.page_size },
                    ),
                )
            } else {
                PageStep::ReadPayload { len: self.page_size }
            },
        }
    }

    /// The fetch after `event`.
    pub open spec fn after(self, event: SourceEvent) -> PageFetch {
        PageFetch {
            step: match event {
                SourceEvent::Returned(reply) => self.step_after_call(reply),
                SourceEvent::Answered(reply) => self.step_after_answer(reply),
            },
            ..self
        }
    }

    /// The fetch of page `page_idx` of `range`, from a file or from a peer.
    pub open spec fn of_page(
        range: UffdRange,
        page_idx: int,
        from_peer: bool,
        shared_backing: bool,
    ) -> PageFetch {
        let pos = range.source_of_page(page_idx) as u64;
        PageFetch {
            page_addr: range.addr_of_page(page_idx) as u64,
            source_pos: pos,
            page_size: range.page_size,
            shared_backing,
            step: if from_peer {
                PageStep::Request { gpa: pos, len: range.page_size }
            } else {
                PageStep::ReadFile { pos, len: range.page_size }
            },
        }
    }

    /// Reports how the current step came out.
    pub fn report(&mut self, event: SourceEvent)
        requires
            old(self).awaits(event),
        ensures
            *final(self) == old(self).after(event),
    {
        let step = match event {
            SourceEvent::Returned(reply) => self.on_call(reply),
            SourceEvent::Answered(reply) => self.on_answer(reply),
        };
        self.step = step;
    }

    fn on_call(&self, reply: CallReply) -> (step: PageStep)
        ensures
            step == self.step_after_call(reply),
    {
        let dst = self.page_addr;
        let len = self.page_size;
        match &self.step {
            PageStep::ReadFile { .. } | PageStep::ReadPayload { .. } => match reply {
                CallReply::Done => PageStep::Copy { dst, len },
                CallReply::Failed { .. } => PageStep::Failed(SourceFailure::Call),
            },
            PageStep::Copy { .. } => match reply.verdict() {
                Verdict::Done => PageStep::Resolved(FaultResolution::Served),
                Verdict::Present => PageStep::WakePresent { addr: dst, len },
                Verdict::Busy => PageStep::Resolved(FaultResolution::Retry),
                Verdict::Failed => PageStep::Failed(SourceFailure::Call),
            },
            PageStep::WakePresent { .. } => PageStep::Resolved(FaultResolution::Served),
            PageStep::WakeShared { .. } => match reply.verdict() {
                Verdict::Done => PageStep::Resolved(FaultResolution::Served),
                Verdict::Busy => PageStep::Resolved(FaultResolution::Retry),
                _ => PageStep::Failed(SourceFailure::Call),
            },
            _ => PageStep::Failed(SourceFailure::Call),
        }
    }

    fn on_answer(&self, reply: PeerReply) -> (step: PageStep)
        ensures
            step == self.step_after_answer(reply),
    {
        let page_size = self.page_size;
        match accept_reply(reply, self.source_pos, page_size) {
            Err(error) => PageStep::Failed(SourceFailure::Peer(error)),
            Ok(resp_len) => {
                if self.shared_backing {
                    if resp_len != 0 {
                        return PageStep::Failed(
                            SourceFailure::Peer(PeerError::UnexpectedBytes { resp_len }),
                        );
                    }
                    PageStep::WakeShared { addr: self.page_addr, len: page_size }
                } else {
                    if resp_len != page_size {
                        return PageStep::Failed(
                            SourceFailure::Peer(PeerError::PageLength { resp_len, page_size }),
                        );
                    }
                    PageStep::ReadPayload { len: page_size }
                }
            },
        }
    }
}

// A run of pages.

/// What the fetch of a run of pages does next.
#[derive(Debug)]
pub enum RunStep {
    /// Ask the peer for `len` bytes at `gpa`, and read its answer.
    Request { gpa: u64, len: u64 },
    /// Read `len` bytes of payload to the start of the buffer.
    ReadPayload { len: u64 },
    /// Install the whole run, `len` bytes from the start of the buffer, at `dst`.
    CopyRun { dst: u64, len: u64 },
    /// Install the page after the first `installed`: `len` bytes from offset `offset` of the
    /// buffer, at `dst`.
    CopyPage { installed: u64, dst: u64, offset: u64, len: u64 },
    /// That page was there already: wake the threads that wait on it. A failure is of no
    /// consequence.
    WakePage { installed: u64, addr: u64, len: u64 },
    /// Return the number of leading pages that are installed.
    Finished { pages: u64 },
    /// Return an error.
    Failed(SourceFailure),
}

/// The fetch of a run of pages in one request.
#[derive(Debug)]
pub struct RunFetch {
    /// Where the first page is installed.
    pub start_addr: u64,
    /// Where the peer has the first page.
    pub start_gpa: u64,
    /// Length of a page.
    pub page_size: u64,
    /// Number of pages.
    pub pages: u64,
    /// What is done next.
    pub step: RunStep,
}

impl RunFetch {
    /// Length of the run.
    pub open spec fn bytes(self) -> int {
        self.pages * self.page_size
    }

    /// Offset of page `i` in the run.
    pub open spec fn page_offset(self, i: int) -> int {
        i * self.page_size
    }

    /// The run's length and the addresses of its pages are machine words, its pages have a size
    /// while anything is left to do, and a step on one page is on a page of the run.
    pub open spec fn valid(self) -> bool {
        &&& self.bytes() <= u64::MAX
        &&& self.page_size > 0 || self.step is Finished
        &&& self.pages > 0 ==> self.start_addr + self.page_offset(self.pages - 1) <= u64::MAX
        &&& match self.step {
            RunStep::CopyPage { installed, dst, offset, len } => {
                &&& installed < self.pages
                &&& dst == self.start_addr + self.page_offset(installed as int)
                &&& offset == self.page_offset(installed as int)
                &&& len == self.page_size
                &&& offset + len <= self.bytes()
            },
            RunStep::WakePage { installed, addr, len } => {
                &&& installed < self.pages
                &&& addr == self.start_addr + self.page_offset(installed as int)
                &&& len == self.page_size
            },
            RunStep::Finished { pages } => pages <= self.pages,
            _ => true,
        }
    }

    /// Number of bytes of the run that installing it at once put in place.
    pub open spec fn copied(self, reply: CallReply) -> int {
        match reply {
            CallReply::Done => self.bytes(),
            CallReply::Failed { copied, .. } => copied as int,
        }
    }

    /// The fetch waits for `event`. Installing the run puts no more in place than the run.
    pub open spec fn awaits(self, event: SourceEvent) -> bool {
        match self.step {
            RunStep::Request { .. } => match event {
                SourceEvent::Answered(_) => true,
                SourceEvent::Returned(reply) => reply is Failed,
            },
            RunStep::CopyRun { .. } => match event {
                SourceEvent::Answered(_) => false,
                SourceEvent::Returned(reply) => self.copied(reply) <= self.bytes(),
            },
            RunStep::Finished { .. } => false,
            RunStep::Failed(_) => false,
            _ => event is Returned,
        }
    }

    /// What is done when the first `installed` pages are installed, page by page.
    pub open spec fn page_step(self, installed: int) -> RunStep {
        if installed < self.pages {
            RunStep::CopyPage {
                installed: installed as u64,
                dst: (self.start_addr + self.page_offset(installed)) as u64,
                offset: self.page_offset(installed) as u64,
                len: self.page_size,
            }
        } else {
            RunStep::Finished { pages: installed as u64 }
        }
    }

    /// What is done after the call of the current step came back with `reply`. Installing the
    /// run at once may stop part-way; the pages in place by then are the ones that count.
    pub open spec fn step_after_call(self, reply: CallReply) -> RunStep {
        match self.step {
            RunStep::ReadPayload { .. } => if reply is Done {
                RunStep::CopyRun { dst: self.start_addr, len: self.bytes() as u64 }
            } else {
                RunStep::Failed(SourceFailure::Call)
            },
            RunStep::CopyRun { .. } => match reply.means() {
                Verdict::Done => RunStep::Finished { pages: self.pages },
                Verdict::Busy => RunStep::Finished {
                    pages: (self.copied(reply) / (self.page_size as int)) as u64,
                },
                Verdict::Present => self.page_step(0),
                Verdict::Failed => RunStep::Failed(SourceFailure::Call),
            },
            RunStep::CopyPage { installed, dst, len, .. } => match reply.means() {
                Verdict::Done => self.page_step(installed + 1),
                Verdict::Present => RunStep::WakePage { installed, addr: dst, len },
                Verdict::Busy => RunStep::Finished { pages: installed },
                Verdict::Failed => RunStep::Failed(SourceFailure::Call),
            },
            RunStep::WakePage { installed, .. } => self.page_step(installed + 1),
            _ => RunStep::Failed(SourceFailure::Call),
        }
    }

    /// What is done after the peer answered with `reply`: the payload has the run's length.
    pub open spec fn step_after_answer(self, reply: PeerReply) -> RunStep {
        let bytes = self.bytes() as u64;
        match payload_length(reply, self.start_gpa, bytes) {
            Err(error) => RunStep::Failed(SourceFailure::Peer(error)),
            Ok(resp_len) => if resp_len != bytes {
                RunStep::Failed(SourceFailure::Peer(PeerError::RunLength { resp_len, bytes }))
            } else {
                RunStep::ReadPayload { len: bytes }
            },
        }
    }

    /// The fetch after `event`.
    pub open spec fn after(self, event: SourceEvent) -> RunFetch {
        RunFetch {
            step: match event {
                SourceEvent::Returned(reply) => self.step_after_call(reply),
                SourceEvent::Answered(reply) => self.step_after_answer(reply),
            },
            ..self
        }
    }

    /// The fetch of `pages` pages of `range` from page `start_page` on.
    pub open spec fn of_run(range: UffdRange, start_page: int, pages: int) -> RunFetch {
        let gpa = range.source_of_page(start_page) as u64;
        RunFetch {
            start_addr: range.addr_of_page(start_page) as u64,
            start_gpa: gpa,
            page_size: range.page_size,
            pages: pages as u64,
            step: RunStep::Request { gpa, len: (pages * range.page_size) as u64 },
        }
    }

    /// Reports how the current step came out.
    pub fn report(&mut self, event: SourceEvent)
        requires
            old(self).valid(),
            old(self).awaits(event),
        ensures
            final(self).valid(),
            *final(self) == old(self).after(event),
    {
        let step = match event {
            SourceEvent::Returned(reply) => self.on_call(reply),
            SourceEvent::Answered(reply) => self.on_answer(reply),
        };
        self.step = step;
        proof {
            lemma_run_stays_valid(*old(self), event);
        }
    }

    /// Length of the run.
    fn run_bytes(&self) -> (bytes: u64)
        requires
            self.valid(),
        ensures
            bytes == self.bytes(),
    {
        self.pages * self.page_size
    }

    /// Number of pages that installing the run at once put in place.
    fn pages_copied(&self, reply: &CallReply) -> (pages: u64)
        requires
            self.valid(),
            self.page_size > 0,
            self.copied(*reply) <= self.bytes(),
        ensures
            pages == self.copied(*reply) / (self.page_size as int),
    {
        let copied: u64 = match reply {
            CallReply::Done => self.run_bytes(),
            CallReply::Failed { copied, .. } => *copied,
        };
        copied / self.page_size
    }

    fn next_page(&self, installed: u64) -> (step: RunStep)
        requires
            self.valid(),
            installed <= self.pages,
        ensures
            step == self.page_step(installed as int),
    {
        if installed < self.pages {
            proof {
                lemma_page_fits(*self, installed as int);
            }
            let offset: u64 = installed * self.page_size;
            RunStep::CopyPage {
                installed,
                dst: self.start_addr + offset,
                offset,
                len: self.page_size,
            }
        } else {
            RunStep::Finished { pages: installed }
        }
    }

    fn on_call(&self, reply: CallReply) -> (step: RunStep)
        requires
            self.valid(),
            self.step is CopyRun ==> self.copied(reply) <= self.bytes(),
        ensures
            step == self.step_after_call(reply),
    {
        match &self.step {
            RunStep::ReadPayload { .. } => match reply {
                CallReply::Done => RunStep::CopyRun {
                    dst: self.start_addr,
                    len: self.run_bytes(),
                },
                CallReply::Failed { .. } => RunStep::Failed(SourceFailure::Call),
            },
            RunStep::CopyRun { .. } => match reply.verdict() {
                Verdict::Done => RunStep::Finished { pages: self.pages },
                Verdict::Busy => RunStep::Finished { pages: self.pages_copied(&reply) },
                Verdict::Present => self.next_page(0),
                Verdict::Failed => RunStep::Failed(SourceFailure::Call),
            },
            RunStep::CopyPage { installed, dst, len, .. } => match reply.verdict() {
                Verdict::Done => self.next_page(*installed + 1),
                Verdict::Present => RunStep::WakePage {
                    installed: *installed,
                    addr: *dst,
                    len: *len,
                },
                Verdict::Busy => RunStep::Finished { pages: *installed },
                Verdict::Failed => RunStep::Failed(SourceFailure::Call),
            },
            RunStep::WakePage { installed, .. } => self.next_page(*installed + 1),
            _ => RunStep::Failed(SourceFailure::Call),
        }
    }

    fn on_answer(&self, reply: PeerReply) -> (step: RunStep)
        requires
            self.valid(),
        ensures
            step == self.step_after_answer(reply),
    {
        let bytes = self.run_bytes();
        match accept_reply(reply, self.start_gpa, bytes) {
            Err(error) => RunStep::Failed(SourceFailure::Peer(error)),
            Ok(resp_len) => {
                if resp_len != bytes {
                    return RunStep::Failed(
                        SourceFailure::Peer(PeerError::RunLength { resp_len, bytes }),
                    );
                }
                RunStep::ReadPayload { len: bytes }
            },
        }
    }
}

/// Every page of a valid run has an address and lies in the run's payload.
pub(crate) proof fn lemma_page_fits(fetch: RunFetch, i: int)
    requires
        fetch.valid(),
        0 <= i < fetch.pages,
    ensures
        0 <= fetch.page_offset(i),
        fetch.start_addr + fetch.page_offset(i) <= u64::MAX,
        fetch.page_offset(i) + fetch.page_size <= fetch.bytes(),
{
    let ps = fetch.page_size as int;
    assert(i * ps >= 0) by (nonlinear_arith)
        requires
            i >= 0,
            ps >= 0,
    ;
    assert(i * ps <= (fetch.pages - 1) * ps) by (nonlinear_arith)
        requires
            i <= fetch.pages - 1,
            ps >= 0,
    ;
    assert((fetch.pages - 1) * ps == fetch.pages * ps - ps) by (nonlinear_arith);
}

proof fn lemma_copied_pages(fetch: RunFetch, reply: CallReply)
    requires
        fetch.page_size > 0,
        0 <= fetch.copied(reply) <= fetch.bytes(),
    ensures
        0 <= fetch.copied(reply) / (fetch.page_size as int) <= fetch.pages,
{
    let ps = fetch.page_size as int;
    let copied = fetch.copied(reply);
    vstd::arithmetic::div_mod::lemma_div_is_ordered(copied, fetch.pages * ps, ps);
    vstd::arithmetic::div_mod::lemma_div_multiples_vanish(fetch.pages as int, ps);
    vstd::arithmetic::div_mod::lemma_div_pos_is_pos(copied, ps);
    assert(fetch.pages * ps == ps * fetch.pages) by (nonlinear_arith);
}

pub(crate) proof fn lemma_run_stays_valid(fetch: RunFetch, event: SourceEvent)
    requires
        fetch.valid(),
        fetch.awaits(event),
    ensures
        fetch.after(event).valid(),
{
    if fetch.pages > 0 {
        lemma_page_fits(fetch, 0);
    }
    match fetch.step {
        RunStep::CopyRun { .. } => {
            if let SourceEvent::Returned(reply) = event {
                lemma_copied_pages(fetch, reply);
            }
        },
        RunStep::CopyPage { installed, .. } => {
            if installed + 1 < fetch.pages {
                lemma_page_fits(fetch, installed + 1);
            }
        },
        RunStep::WakePage { installed, .. } => {
            if installed + 1 < fetch.pages {
                lemma_page_fits(fetch, installed + 1);
            }
        },
        _ => {},
    }
}

} // verus!
