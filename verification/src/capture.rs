//! Point-in-time capture of write-protected guest memory.
//!
//! The ranges of a capture are armed with write protection before it starts. Every page is then
//! copied out once and, once its bytes are in the output, its protection released. A background
//! pass takes the pages in order; a guest write to a page that is still protected faults, and
//! that page is taken ahead of the pass. [`WriteProtectCapture`] decides which page is copied and
//! which released when; its driver reads the pending faults, copies the pages and releases them.

use crate::range::{div_ceil, law_offset_lies_in_a_page, law_pages_cover_exactly, pages_covering};
use crate::userfaultfd::{
    write_protect_mode, UffdioRange, UffdioWriteprotect, UFFDIO_WRITEPROTECT_MODE_DONTWAKE,
    UFFDIO_WRITEPROTECT_MODE_WP,
};
use vstd::prelude::*;

verus! {

/// One guest-memory range to capture, and where its pages land in the output.
#[derive(Debug, Clone, Copy, PartialEq, Eq)]
pub struct CaptureRange {
    /// Start of the range in this process's address space.
    pub host_addr: u64,
    /// Length of the range in bytes.
    pub length: u64,
    /// Byte offset the range's first page maps to in the capture output.
    pub out_offset: u64,
    /// Page size the range is captured and protected at.
    pub page_size: u64,
}

/// One page to capture: its bytes go to the output, then its protection is released.
#[derive(Debug, Clone, Copy, PartialEq, Eq)]
pub struct PageCapture {
    /// Address of the page in this process.
    pub page_addr: u64,
    /// Number of bytes of the page that belong to its range.
    pub len: u64,
    /// Byte offset of the page in the capture output.
    pub out_offset: u64,
    /// Number of bytes whose protection is released.
    pub page_size: u64,
}

impl PageCapture {
    /// The request that releases the page's protection and wakes the writers that wait on it.
    pub fn release(&self) -> (request: UffdioWriteprotect)
        ensures
            request.range == (UffdioRange { start: self.page_addr, len: self.page_size }),
            request.mode == write_protect_mode(false, false),
            request.mode & UFFDIO_WRITEPROTECT_MODE_WP == 0,
            request.mode & UFFDIO_WRITEPROTECT_MODE_DONTWAKE == 0,
    {
        UffdioWriteprotect::new(self.page_addr, self.page_size, false, false)
    }
}

impl CaptureRange {
    /// Number of pages of the range.
    pub open spec fn page_count(self) -> int {
        pages_covering(self.length as int, self.page_size as int)
    }

    /// `addr` lies in the range.
    pub open spec fn contains(self, addr: u64) -> bool {
        self.host_addr <= addr < self.host_addr + self.length
    }

    /// Offset of page `page_idx` from the start of the range.
    pub open spec fn page_offset(self, page_idx: int) -> int {
        page_idx * self.page_size
    }

    /// The range has a page size, and the addresses and output offsets of its pages are
    /// machine words.
    pub open spec fn addressable(self) -> bool {
        &&& self.page_size > 0
        &&& self.length > 0 ==> {
            &&& self.host_addr + self.page_offset(self.page_count() - 1) <= u64::MAX
            &&& self.out_offset + self.page_offset(self.page_count() - 1) <= u64::MAX
        }
    }

    /// What capturing page `page_idx` takes: the part of the page that lies in the range is
    /// copied, and the whole page is released.
    pub open spec fn page_at(self, page_idx: int) -> PageCapture {
        let offset = self.page_offset(page_idx);
        PageCapture {
            page_addr: (self.host_addr + offset) as u64,
            len: if self.length - offset < self.page_size {
                (self.length - offset) as u64
            } else {
                self.page_size
            },
            out_offset: (self.out_offset + offset) as u64,
            page_size: self.page_size,
        }
    }

    /// Number of pages of the range, counting a partial last page.
    pub fn num_pages(&self) -> (pages: u64)
        requires
            self.page_size > 0,
        ensures
            pages == self.page_count(),
    {
        div_ceil(self.length, self.page_size)
    }

    /// What capturing one page of the range takes.
    pub fn page(&self, page_idx: u64) -> (page: PageCapture)
        requires
            self.page_offset(page_idx as int) <= self.length,
            self.host_addr + self.page_offset(page_idx as int) <= u64::MAX,
            self.out_offset + self.page_offset(page_idx as int) <= u64::MAX,
        ensures
            page == self.page_at(page_idx as int),
    {
        proof {
            assert(page_idx * self.page_size >= 0) by (nonlinear_arith);
        }
        let offset: u64 = page_idx * self.page_size;
        let rest: u64 = self.length - offset;
        PageCapture {
            page_addr: self.host_addr + offset,
            len: if rest < self.page_size {
                rest
            } else {
                self.page_size
            },
            out_offset: self.out_offset + offset,
            page_size: self.page_size,
        }
    }
}

/// Every page of an addressable range can be captured.
pub(crate) proof fn lemma_page_in_bounds(range: CaptureRange, page_idx: int)
    requires
        range.addressable(),
        0 <= page_idx < range.page_count(),
    ensures
        0 <= range.page_offset(page_idx) < range.length,
        range.host_addr + range.page_offset(page_idx) <= u64::MAX,
        range.out_offset + range.page_offset(page_idx) <= u64::MAX,
{
    law_pages_cover_exactly(range.length as int, range.page_size as int);
    assert(page_idx * range.page_size <= (range.page_count() - 1) * range.page_size)
        by (nonlinear_arith)
        requires
            page_idx <= range.page_count() - 1,
            range.page_size > 0,
    ;
    assert(page_idx * range.page_size >= 0) by (nonlinear_arith)
        requires
            page_idx >= 0,
    ;
}

// The pages of all ranges in one index space.

/// Flat index of the first page of range `i`: the number of pages of the ranges before it.
pub open spec fn first_page(ranges: Seq<CaptureRange>, i: int) -> int
    decreases i,
{
    if i <= 0 {
        0
    } else {
        first_page(ranges, i - 1) + ranges[i - 1].page_count()
    }
}

/// Number of pages of all ranges.
pub open spec fn total_pages(ranges: Seq<CaptureRange>) -> int {
    first_page(ranges, ranges.len() as int)
}

/// Range `i` holds the page with flat index `flat`.
pub open spec fn holds_page(ranges: Seq<CaptureRange>, i: int, flat: int) -> bool {
    0 <= i < ranges.len() && first_page(ranges, i) <= flat < first_page(ranges, i + 1)
}

/// The range that holds the page with flat index `flat`.
pub open spec fn range_of(ranges: Seq<CaptureRange>, flat: int) -> int {
    choose|i: int| holds_page(ranges, i, flat)
}

/// What capturing the page with flat index `flat` takes.
pub open spec fn flat_page(ranges: Seq<CaptureRange>, flat: int) -> PageCapture {
    let i = range_of(ranges, flat);
    ranges[i].page_at(flat - first_page(ranges, i))
}

/// Flat index of the page of `addr` in the first range from `i` on that contains `addr`.
pub open spec fn faulted_page_from(ranges: Seq<CaptureRange>, addr: u64, i: int) -> Option<int>
    decreases ranges.len() - i,
{
    if i >= ranges.len() {
        None
    } else if ranges[i].contains(addr) {
        Some(
            first_page(ranges, i) + (addr - ranges[i].host_addr) / (ranges[i].page_size as int),
        )
    } else {
        faulted_page_from(ranges, addr, i + 1)
    }
}

/// Flat index of the page of `addr` in the first range that contains `addr`.
pub open spec fn faulted_page(ranges: Seq<CaptureRange>, addr: u64) -> Option<int> {
    faulted_page_from(ranges, addr, 0)
}

/// The ranges can be captured: each is addressable, and a flag for each of their pages fits in
/// one allocation.
pub open spec fn capturable(ranges: Seq<CaptureRange>) -> bool {
    &&& forall|i: int| 0 <= i < ranges.len() ==> (#[trigger] ranges[i]).addressable()
    &&& total_pages(ranges) <= isize::MAX
}

pub(crate) proof fn lemma_first_page_monotonic(ranges: Seq<CaptureRange>, i: int, j: int)
    requires
        forall|k: int| 0 <= k < ranges.len() ==> (#[trigger] ranges[k]).addressable(),
        i <= j <= ranges.len(),
    ensures
        0 <= first_page(ranges, i) <= first_page(ranges, j),
    decreases j,
{
    if i < j {
        if j > 0 {
            lemma_first_page_monotonic(ranges, i, j - 1);
            let r = ranges[j - 1];
            law_pages_cover_exactly(r.length as int, r.page_size as int);
        }
    } else if i > 0 {
        lemma_first_page_monotonic(ranges, i - 1, i - 1);
        let r = ranges[i - 1];
        law_pages_cover_exactly(r.length as int, r.page_size as int);
    }
}

/// The ranges have no negative number of pages.
pub(crate) proof fn lemma_total_pages_not_negative(ranges: Seq<CaptureRange>)
    requires
        capturable(ranges),
    ensures
        total_pages(ranges) >= 0,
{
    lemma_first_page_monotonic(ranges, 0, ranges.len() as int);
}

/// Every page is held by one range, and by no other.
pub proof fn law_page_has_one_range(ranges: Seq<CaptureRange>, flat: int, i: int)
    requires
        capturable(ranges),
        0 <= flat < total_pages(ranges),
    ensures
        holds_page(ranges, range_of(ranges, flat), flat),
        holds_page(ranges, i, flat) ==> i == range_of(ranges, flat),
{
    lemma_some_range_holds_page(ranges, flat, ranges.len() as int);
    let r = range_of(ranges, flat);
    if holds_page(ranges, i, flat) {
        if i < r {
            lemma_first_page_monotonic(ranges, i + 1, r);
        } else if r < i {
            lemma_first_page_monotonic(ranges, r + 1, i);
        }
    }
}

proof fn lemma_some_range_holds_page(ranges: Seq<CaptureRange>, flat: int, n: int)
    requires
        0 <= n <= ranges.len(),
        0 <= flat < first_page(ranges, n),
    ensures
        exists|i: int| holds_page(ranges, i, flat),
    decreases n,
{
    if first_page(ranges, n - 1) <= flat {
        assert(holds_page(ranges, n - 1, flat));
    } else {
        lemma_some_range_holds_page(ranges, flat, n - 1);
    }
}

/// A fault in one of the ranges is on one of their pages, and the fault address lies in it.
pub proof fn law_fault_is_on_its_page(ranges: Seq<CaptureRange>, addr: u64, flat: int)
    requires
        capturable(ranges),
        faulted_page(ranges, addr) == Some(flat),
    ensures
        0 <= flat < total_pages(ranges),
        flat_page(ranges, flat).page_addr <= addr < flat_page(ranges, flat).page_addr + flat_page(
            ranges,
            flat,
        ).len,
{
    lemma_fault_on_page_from(ranges, addr, flat, 0);
}

proof fn lemma_fault_on_page_from(ranges: Seq<CaptureRange>, addr: u64, flat: int, i: int)
    requires
        capturable(ranges),
        0 <= i,
        faulted_page_from(ranges, addr, i) == Some(flat),
    ensures
        0 <= flat < total_pages(ranges),
        flat_page(ranges, flat).page_addr <= addr < flat_page(ranges, flat).page_addr + flat_page(
            ranges,
            flat,
        ).len,
    decreases ranges.len() - i,
{
    if ranges[i].contains(addr) {
        let r = ranges[i];
        let k = (addr - r.host_addr) / (r.page_size as int);
        law_offset_lies_in_a_page(r.length as int, r.page_size as int, addr - r.host_addr);
        assert((k + 1) * r.page_size == k * r.page_size + r.page_size) by (nonlinear_arith);
        lemma_first_page_monotonic(ranges, i, i);
        lemma_first_page_monotonic(ranges, i + 1, ranges.len() as int);
        law_page_has_one_range(ranges, flat, i);
        lemma_page_in_bounds(r, k);
    } else {
        lemma_fault_on_page_from(ranges, addr, flat, i + 1);
    }
}

// Which pages were taken.

/// Every page was taken.
pub open spec fn all_captured(captured: Seq<bool>) -> bool {
    forall|i: int| 0 <= i < captured.len() ==> captured[i]
}

/// `i` is the first page that was not taken.
pub open spec fn is_first_uncaptured(captured: Seq<bool>, i: int) -> bool {
    &&& 0 <= i < captured.len()
    &&& !captured[i]
    &&& forall|j: int| 0 <= j < i ==> captured[j]
}

/// The first page that was not taken.
pub open spec fn first_uncaptured(captured: Seq<bool>) -> int {
    choose|i: int| is_first_uncaptured(captured, i)
}

/// Number of pages that were taken.
pub open spec fn captured_count(captured: Seq<bool>) -> int
    decreases captured.len(),
{
    if captured.len() == 0 {
        0
    } else {
        captured_count(captured.drop_last()) + if captured.last() {
            1int
        } else {
            0
        }
    }
}

pub(crate) proof fn lemma_captured_count_bounds(captured: Seq<bool>)
    ensures
        0 <= captured_count(captured) <= captured.len(),
        captured_count(captured) == captured.len() <==> all_captured(captured),
    decreases captured.len(),
{
    if captured.len() > 0 {
        let rest = captured.drop_last();
        lemma_captured_count_bounds(rest);
        if all_captured(captured) {
            assert forall|i: int| 0 <= i < rest.len() implies rest[i] by {
                assert(captured[i]);
            }
            assert(captured[captured.len() - 1]);
        }
        if all_captured(rest) && captured.last() {
            assert forall|i: int| 0 <= i < captured.len() implies captured[i] by {
                if i < rest.len() {
                    assert(rest[i]);
                }
            }
        }
    }
}

pub(crate) proof fn lemma_captured_count_take(captured: Seq<bool>, i: int)
    requires
        0 <= i < captured.len(),
        !captured[i],
    ensures
        captured_count(captured.update(i, true)) == captured_count(captured) + 1,
    decreases captured.len(),
{
    let taken = captured.update(i, true);
    if i == captured.len() - 1 {
        assert(taken.drop_last() =~= captured.drop_last());
    } else {
        assert(taken.drop_last() =~= captured.drop_last().update(i, true));
        lemma_captured_count_take(captured.drop_last(), i);
    }
}

proof fn lemma_first_uncaptured_is(captured: Seq<bool>, i: int)
    requires
        is_first_uncaptured(captured, i),
    ensures
        first_uncaptured(captured) == i,
{
    let f = first_uncaptured(captured);
    assert(is_first_uncaptured(captured, f));
    assert(!(f < i));
    assert(!(i < f));
}

/// While some page was not taken there is a first such page.
pub proof fn law_first_uncaptured_exists(captured: Seq<bool>)
    requires
        !all_captured(captured),
    ensures
        is_first_uncaptured(captured, first_uncaptured(captured)),
{
    let i = choose|i: int| 0 <= i < captured.len() && !captured[i];
    lemma_first_uncaptured_up_to(captured, i);
}

proof fn lemma_first_uncaptured_up_to(captured: Seq<bool>, i: int)
    requires
        0 <= i < captured.len(),
        !captured[i],
    ensures
        exists|j: int| is_first_uncaptured(captured, j),
    decreases i,
{
    if exists|j: int| 0 <= j < i && !captured[j] {
        let j = choose|j: int| 0 <= j < i && !captured[j];
        lemma_first_uncaptured_up_to(captured, j);
    } else {
        assert(is_first_uncaptured(captured, i));
    }
}

// The capture as a state machine.

/// What a capture waits for.
#[derive(Debug, Clone, Copy, PartialEq, Eq)]
pub enum CapturePhase {
    /// The next pending write-protect fault.
    ReadFault,
    /// The page with flat index `flat` to be copied; `faulted` tells whether a guest write asked
    /// for it or the background pass reached it.
    CopyPage { flat: usize, faulted: bool },
    /// That page, whose bytes were copied, to be released.
    ReleasePage { flat: usize, faulted: bool },
    /// Nothing: every page was captured.
    Finished,
    /// Nothing: a call failed.
    Failed,
}

/// What the driver of a capture does next.
#[derive(Debug, Clone, Copy, PartialEq, Eq)]
pub enum CaptureAction {
    /// Read one pending write-protect fault without blocking.
    ReadFault,
    /// Hand the page's bytes to the output.
    CopyPage(PageCapture),
    /// Release the page's protection with [`PageCapture::release`]: its bytes are in the output.
    ReleasePage(PageCapture),
    /// Return: every page was captured.
    Finished,
    /// Return the error of the call that failed.
    Failed,
}

/// The state of a capture.
pub struct CaptureView {
    /// The ranges being captured.
    pub ranges: Seq<CaptureRange>,
    /// Which pages, by flat index, were taken, the one in hand included.
    pub captured: Seq<bool>,
    /// What the capture waits for.
    pub phase: CapturePhase,
}

impl CaptureView {
    /// A capture that has not begun: no page is taken.
    pub open spec fn armed(ranges: Seq<CaptureRange>) -> CaptureView {
        CaptureView {
            ranges,
            captured: Seq::new(total_pages(ranges) as nat, |i: int| false),
            phase: if total_pages(ranges) == 0 {
                CapturePhase::Finished
            } else {
                CapturePhase::ReadFault
            },
        }
    }

    /// Page `flat` is taken in hand, to be copied.
    pub open spec fn take(self, flat: int, faulted: bool) -> CaptureView {
        CaptureView {
            captured: self.captured.update(flat, true),
            phase: CapturePhase::CopyPage { flat: flat as usize, faulted },
            ..self
        }
    }

    /// The page in hand, by flat index.
    pub open spec fn page_in_hand(self) -> Option<int> {
        match self.phase {
            CapturePhase::CopyPage { flat, .. } => Some(flat as int),
            CapturePhase::ReleasePage { flat, .. } => Some(flat as int),
            _ => None,
        }
    }

    /// A call is under way whose outcome the capture waits for.
    pub open spec fn awaits_call(self) -> bool {
        !(self.phase is Finished) && !(self.phase is Failed)
    }

    /// Reading a fault gave `fault`. A fault on a page that was not taken takes that page, any
    /// other fault is passed over, and when none is pending the background pass takes the first
    /// page that was not taken, or ends the capture when there is none.
    pub open spec fn after_fault(self, fault: Option<u64>) -> CaptureView {
        match fault {
            Some(addr) => match faulted_page(self.ranges, addr) {
                Some(flat) => if self.captured[flat] {
                    self
                } else {
                    self.take(flat, true)
                },
                None => self,
            },
            None => if all_captured(self.captured) {
                CaptureView { phase: CapturePhase::Finished, ..self }
            } else {
                self.take(first_uncaptured(self.captured), false)
            },
        }
    }

    /// The bytes of the page in hand were handed to the output. The page is released next.
    pub open spec fn after_copy(self) -> CaptureView {
        CaptureView {
            phase: CapturePhase::ReleasePage {
                flat: self.phase->CopyPage_flat,
                faulted: self.phase->CopyPage_faulted,
            },
            ..self
        }
    }

    /// The page in hand was released. Pending faults come next; only after a page of the
    /// background pass may the capture end.
    pub open spec fn after_release(self) -> CaptureView {
        CaptureView {
            phase: if !self.phase->ReleasePage_faulted && all_captured(self.captured) {
                CapturePhase::Finished
            } else {
                CapturePhase::ReadFault
            },
            ..self
        }
    }

    /// The call under way failed. Nothing comes after that: a page whose copy failed is never
    /// released.
    pub open spec fn after_failure(self) -> CaptureView {
        CaptureView { phase: CapturePhase::Failed, ..self }
    }

    /// What the driver does next.
    pub open spec fn action(self) -> CaptureAction {
        match self.phase {
            CapturePhase::ReadFault => CaptureAction::ReadFault,
            CapturePhase::CopyPage { flat, .. } => CaptureAction::CopyPage(
                flat_page(self.ranges, flat as int),
            ),
            CapturePhase::ReleasePage { flat, .. } => CaptureAction::ReleasePage(
                flat_page(self.ranges, flat as int),
            ),
            CapturePhase::Finished => CaptureAction::Finished,
            CapturePhase::Failed => CaptureAction::Failed,
        }
    }

    /// What holds of every state of a capture.
    pub open spec fn valid(self) -> bool {
        &&& capturable(self.ranges)
        &&& self.captured.len() == total_pages(self.ranges)
        &&& match self.phase {
            CapturePhase::ReadFault => self.captured.len() > 0,
            CapturePhase::CopyPage { flat, .. } => flat < self.captured.len()
                && self.captured[flat as int],
            CapturePhase::ReleasePage { flat, .. } => flat < self.captured.len()
                && self.captured[flat as int],
            CapturePhase::Finished => all_captured(self.captured),
            CapturePhase::Failed => self.captured.len() > 0,
        }
    }
}

/// The ranges can be captured.
pub fn ranges_capturable(ranges: &[CaptureRange]) -> (ok: bool)
    ensures
        ok == capturable(ranges@),
{
    let limit: usize = isize::MAX as usize;
    let mut total: usize = 0;
    let mut i: usize = 0;
    while i < ranges.len()
        invariant
            i <= ranges.len(),
            limit == isize::MAX,
            forall|k: int| 0 <= k < i ==> (#[trigger] ranges@[k]).addressable(),
            total == first_page(ranges@, i as int),
            total <= limit,
        decreases ranges.len() - i,
    {
        let r: CaptureRange = ranges[i];
        if r.page_size == 0 {
            assert(!ranges@[i as int].addressable());
            return false;
        }
        let pages: u64 = r.num_pages();
        proof {
            law_pages_cover_exactly(r.length as int, r.page_size as int);
        }
        if pages > 0 {
            proof {
                assert((pages - 1) * r.page_size >= 0) by (nonlinear_arith)
                    requires
                        pages >= 1,
                ;
            }
            let last: u64 = (pages - 1) * r.page_size;
            if r.host_addr > u64::MAX - last || r.out_offset > u64::MAX - last {
                assert(!ranges@[i as int].addressable());
                return false;
            }
        }
        assert(ranges@[i as int].addressable());
        if pages > (limit - total) as u64 {
            proof {
                if capturable(ranges@) {
                    lemma_first_page_monotonic(ranges@, i + 1, ranges@.len() as int);
                }
            }
            return false;
        }
        total = total + pages as usize;
        i = i + 1;
    }
    true
}

/// A capture of write-protected ranges.
///
/// Perform what [`action`](Self::action) asks for and report back with
/// [`fault_read`](Self::fault_read), [`page_copied`](Self::page_copied) or
/// [`page_released`](Self::page_released), or with [`call_failed`](Self::call_failed) where it
/// could not be done, until the action is [`CaptureAction::Finished`] or
/// [`CaptureAction::Failed`].
pub struct WriteProtectCapture {
    ranges: Vec<CaptureRange>,
    starts: Vec<u64>,
    captured: Vec<bool>,
    done: usize,
    next: usize,
    phase: CapturePhase,
}

impl View for WriteProtectCapture {
    type V = CaptureView;

    closed spec fn view(&self) -> CaptureView {
        CaptureView { ranges: self.ranges@, captured: self.captured@, phase: self.phase }
    }
}

impl WriteProtectCapture {
    /// The capture's tables agree with its state.
    pub closed spec fn wf(&self) -> bool {
        &&& self@.valid()
        &&& self.starts@.len() == self.ranges@.len()
        &&& forall|i: int|
            0 <= i < self.starts@.len() ==> #[trigger] self.starts@[i] == first_page(self.ranges@, i)
        &&& !(self.phase is Failed) ==> self.done + (if self@.page_in_hand() is Some {
            1int
        } else {
            0
        }) == captured_count(self.captured@)
        &&& self.next <= self.captured@.len()
        &&& forall|j: int| 0 <= j < self.next ==> self.captured@[j]
    }

    /// Starts a capture of `ranges`, whose protection is armed.
    pub fn new(ranges: Vec<CaptureRange>) -> (capture: WriteProtectCapture)
        requires
            capturable(ranges@),
        ensures
            capture.wf(),
            capture@ == CaptureView::armed(ranges@),
    {
        let mut starts: Vec<u64> = Vec::with_capacity(ranges.len());
        let mut acc: u64 = 0;
        let mut i: usize = 0;
        while i < ranges.len()
            invariant
                i <= ranges.len(),
                capturable(ranges@),
                starts@.len() == i,
                forall|k: int| 0 <= k < i ==> #[trigger] starts@[k] == first_page(ranges@, k),
                acc == first_page(ranges@, i as int),
            decreases ranges.len() - i,
        {
            proof {
                lemma_first_page_monotonic(ranges@, i + 1, ranges@.len() as int);
                assert(ranges@[i as int].addressable());
            }
            starts.push(acc);
            acc = acc + ranges[i].num_pages();
            i = i + 1;
        }
        let total: usize = acc as usize;
        let captured: Vec<bool> = vec![false; total];
        let phase = if total == 0 {
            CapturePhase::Finished
        } else {
            CapturePhase::ReadFault
        };
        proof {
            assert(captured@ =~= Seq::new(total as nat, |i: int| false));
            lemma_captured_count_none(captured@);
        }
        WriteProtectCapture { ranges, starts, captured, done: 0, next: 0, phase }
    }

    /// What the driver does next.
    pub fn action(&self) -> (action: CaptureAction)
        requires
            self.wf(),
        ensures
            action == self@.action(),
    {
        match self.phase {
            CapturePhase::ReadFault => CaptureAction::ReadFault,
            CapturePhase::CopyPage { flat, .. } => CaptureAction::CopyPage(self.page(flat)),
            CapturePhase::ReleasePage { flat, .. } => CaptureAction::ReleasePage(self.page(flat)),
            CapturePhase::Finished => CaptureAction::Finished,
            CapturePhase::Failed => CaptureAction::Failed,
        }
    }

    /// Reports what reading a fault gave: the address of a pending write-protect fault, or
    /// `None` when none was pending.
    pub fn fault_read(&mut self, fault: Option<u64>)
        requires
            old(self).wf(),
            old(self)@.phase is ReadFault,
        ensures
            final(self).wf(),
            final(self)@ == old(self)@.after_fault(fault),
    {
        match fault {
            Some(addr) => {
                match self.faulted(addr) {
                    Some(flat) => {
                        proof {
                            law_fault_is_on_its_page(self.ranges@, addr, flat as int);
                        }
                        if !self.captured[flat] {
                            self.take(flat, true);
                        }
                    },
                    None => {},
                }
            },
            None => {
                proof {
                    lemma_captured_count_bounds(self.captured@);
                }
                if self.done >= self.captured.len() {
                    self.phase = CapturePhase::Finished;
                } else {
                    self.advance();
                    let flat = self.next;
                    proof {
                        lemma_first_uncaptured_is(self.captured@, flat as int);
                    }
                    self.take(flat, false);
                    self.next = flat + 1;
                }
            },
        }
    }

    /// Reports that the bytes of the page in hand were handed to the output.
    pub fn page_copied(&mut self)
        requires
            old(self).wf(),
            old(self)@.phase is CopyPage,
        ensures
            final(self).wf(),
            final(self)@ == old(self)@.after_copy(),
    {
        if let CapturePhase::CopyPage { flat, faulted } = self.phase {
            self.phase = CapturePhase::ReleasePage { flat, faulted };
        }
    }

    /// Reports that the protection of the page in hand was released.
    pub fn page_released(&mut self)
        requires
            old(self).wf(),
            old(self)@.phase is ReleasePage,
        ensures
            final(self).wf(),
            final(self)@ == old(self)@.after_release(),
    {
        proof {
            lemma_captured_count_bounds(self.captured@);
        }
        if let CapturePhase::ReleasePage { faulted, .. } = self.phase {
            self.done = self.done + 1;
            self.phase = if !faulted && self.done >= self.captured.len() {
                CapturePhase::Finished
            } else {
                CapturePhase::ReadFault
            };
        }
    }

    /// Reports that the call under way failed: reading a fault, copying the page in hand or
    /// releasing it.
    pub fn call_failed(&mut self)
        requires
            old(self).wf(),
            old(self)@.awaits_call(),
        ensures
            final(self).wf(),
            final(self)@ == old(self)@.after_failure(),
    {
        self.phase = CapturePhase::Failed;
    }

    /// The page with flat index `flat`.
    fn page(&self, flat: usize) -> (page: PageCapture)
        requires
            self.wf(),
            flat < self.captured@.len(),
        ensures
            page == flat_page(self.ranges@, flat as int),
    {
        let (range_idx, page_idx) = self.locate(flat);
        proof {
            lemma_page_in_bounds(self.ranges@[range_idx as int], page_idx as int);
            law_page_has_one_range(self.ranges@, flat as int, range_idx as int);
        }
        self.ranges[range_idx].page(page_idx)
    }

    /// The range and the page in it with flat index `flat`.
    fn locate(&self, flat: usize) -> (loc: (usize, u64))
        requires
            self.wf(),
            flat < self.captured@.len(),
        ensures
            holds_page(self.ranges@, loc.0 as int, flat as int),
            loc.1 == flat - first_page(self.ranges@, loc.0 as int),
    {
        let target: u64 = flat as u64;
        let mut lo: usize = 0;
        let mut hi: usize = self.starts.len();
        while hi - lo > 1
            invariant
                self.wf(),
                target == flat,
                flat < self.captured@.len(),
                lo < hi <= self.starts@.len(),
                first_page(self.ranges@, lo as int) <= flat < first_page(self.ranges@, hi as int),
            decreases hi - lo,
        {
            let mid: usize = lo + (hi - lo) / 2;
            if self.starts[mid] <= target {
                lo = mid;
            } else {
                hi = mid;
            }
        }
        (lo, target - self.starts[lo])
    }

    /// The page that a fault at `addr` is on.
    fn faulted(&self, addr: u64) -> (flat: Option<usize>)
        requires
            self.wf(),
        ensures
            match flat {
                Some(flat) => faulted_page(self.ranges@, addr) == Some(flat as int),
                None => faulted_page(self.ranges@, addr) is None,
            },
    {
        let mut i: usize = 0;
        while i < self.ranges.len()
            invariant
                self.wf(),
                i <= self.ranges@.len(),
                faulted_page(self.ranges@, addr) == faulted_page_from(self.ranges@, addr, i as int),
            decreases self.ranges.len() - i,
        {
            let r: CaptureRange = self.ranges[i];
            if addr >= r.host_addr && addr - r.host_addr < r.length {
                proof {
                    assert(self.ranges@[i as int].addressable());
                    let flat = faulted_page(self.ranges@, addr).unwrap();
                    law_fault_is_on_its_page(self.ranges@, addr, flat);
                    lemma_first_page_monotonic(self.ranges@, i as int, i as int);
                }
                let page_idx: u64 = (addr - r.host_addr) / r.page_size;
                return Some((self.starts[i] + page_idx) as usize);
            }
            i = i + 1;
        }
        None
    }

    /// Moves the background pass on to the next page that was not taken.
    fn advance(&mut self)
        requires
            old(self).wf(),
            !all_captured(old(self).captured@),
        ensures
            final(self).wf(),
            final(self)@ == old(self)@,
            final(self).done == old(self).done,
            is_first_uncaptured(final(self).captured@, final(self).next as int),
    {
        while self.next < self.captured.len() && self.captured[self.next]
            invariant
                self.wf(),
                self@ == old(self)@,
                self.done == old(self).done,
            decreases self.captured.len() - self.next,
        {
            self.next = self.next + 1;
        }
    }

    /// Takes page `flat` in hand.
    fn take(&mut self, flat: usize, faulted: bool)
        requires
            old(self).wf(),
            old(self).phase is ReadFault,
            flat < old(self).captured@.len(),
            !old(self).captured@[flat as int],
        ensures
            final(self).wf(),
            final(self)@ == old(self)@.take(flat as int, faulted),
            final(self).next == old(self).next,
    {
        proof {
            lemma_captured_count_take(self.captured@, flat as int);
        }
        self.captured.set(flat, true);
        self.phase = CapturePhase::CopyPage { flat, faulted };
    }
}

pub(crate) proof fn lemma_captured_count_none(captured: Seq<bool>)
    requires
        forall|i: int| 0 <= i < captured.len() ==> !captured[i],
    ensures
        captured_count(captured) == 0,
    decreases captured.len(),
{
    if captured.len() > 0 {
        lemma_captured_count_none(captured.drop_last());
    }
}

} // verus!
