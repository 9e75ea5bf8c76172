//! What holds of a capture as a whole.

use crate::capture::{
    all_captured, capturable, captured_count, faulted_page, faulted_page_from, first_page,
    first_uncaptured, flat_page, is_first_uncaptured, law_fault_is_on_its_page,
    law_first_uncaptured_exists, law_page_has_one_range, lemma_captured_count_bounds,
    lemma_captured_count_none, lemma_captured_count_take, lemma_first_page_monotonic,
    lemma_page_in_bounds, lemma_total_pages_not_negative, total_pages, CaptureAction, CapturePhase,
    CaptureRange, CaptureView, PageCapture,
};
use crate::range::{law_offset_lies_in_a_page, law_pages_cover_exactly};
use vstd::prelude::*;

verus! {

/// What a driver reports to a capture.
pub enum CaptureEvent {
    /// Reading a fault gave this.
    FaultRead(Option<u64>),
    /// The bytes of the page in hand were handed to the output.
    PageCopied,
    /// The page in hand was released.
    PageReleased,
    /// The call under way failed.
    CallFailed,
}

/// A capture takes a report that it waits for.
pub open spec fn awaited(view: CaptureView, event: CaptureEvent) -> bool {
    match event {
        CaptureEvent::FaultRead(_) => view.phase is ReadFault,
        CaptureEvent::PageCopied => view.phase is CopyPage,
        CaptureEvent::PageReleased => view.phase is ReleasePage,
        CaptureEvent::CallFailed => view.awaits_call(),
    }
}

/// The state after a report that the capture waits for.
pub open spec fn step(view: CaptureView, event: CaptureEvent) -> CaptureView {
    match event {
        CaptureEvent::FaultRead(fault) => view.after_fault(fault),
        CaptureEvent::PageCopied => view.after_copy(),
        CaptureEvent::PageReleased => view.after_release(),
        CaptureEvent::CallFailed => view.after_failure(),
    }
}

/// Each of `events` is one that the capture of `ranges` waits for at that point.
pub open spec fn is_run(ranges: Seq<CaptureRange>, events: Seq<CaptureEvent>) -> bool
    decreases events.len(),
{
    events.len() > 0 ==> is_run(ranges, events.drop_last()) && awaited(
        state_after(ranges, events.drop_last()),
        events.last(),
    )
}

/// The state of the capture of `ranges` after `events`.
pub open spec fn state_after(ranges: Seq<CaptureRange>, events: Seq<CaptureEvent>) -> CaptureView
    decreases events.len(),
{
    if events.len() == 0 {
        CaptureView::armed(ranges)
    } else {
        step(state_after(ranges, events.drop_last()), events.last())
    }
}

/// The pages, by flat index, whose bytes were handed to the output in the course of `events`, in
/// order.
pub open spec fn pages_copied(ranges: Seq<CaptureRange>, events: Seq<CaptureEvent>) -> Seq<int>
    decreases events.len(),
{
    if events.len() == 0 {
        Seq::empty()
    } else {
        let before = pages_copied(ranges, events.drop_last());
        match events.last() {
            CaptureEvent::PageCopied => before.push(
                state_after(ranges, events.drop_last()).page_in_hand().unwrap(),
            ),
            _ => before,
        }
    }
}

/// The pages, by flat index, that were released in the course of `events`, in order.
pub open spec fn pages_released(ranges: Seq<CaptureRange>, events: Seq<CaptureEvent>) -> Seq<int>
    decreases events.len(),
{
    if events.len() == 0 {
        Seq::empty()
    } else {
        let before = pages_released(ranges, events.drop_last());
        match events.last() {
            CaptureEvent::PageReleased => before.push(
                state_after(ranges, events.drop_last()).page_in_hand().unwrap(),
            ),
            _ => before,
        }
    }
}

/// How often no fault was pending in the course of `events`.
pub open spec fn quiet_reads(events: Seq<CaptureEvent>) -> int
    decreases events.len(),
{
    if events.len() == 0 {
        0
    } else {
        quiet_reads(events.drop_last()) + if events.last() == CaptureEvent::FaultRead(None) {
            1int
        } else {
            0
        }
    }
}

/// Page `flat` is in hand and its bytes were not handed to the output.
pub open spec fn to_be_copied(view: CaptureView, flat: int) -> bool {
    view.phase is CopyPage && view.page_in_hand() == Some(flat)
}

/// Every state that a capture reaches is valid, and it captures the ranges it was started with.
pub proof fn law_capture_states_are_valid(ranges: Seq<CaptureRange>, events: Seq<CaptureEvent>)
    requires
        capturable(ranges),
        is_run(ranges, events),
    ensures
        state_after(ranges, events).valid(),
        state_after(ranges, events).ranges == ranges,
    decreases events.len(),
{
    if events.len() > 0 {
        law_capture_states_are_valid(ranges, events.drop_last());
        lemma_step_keeps_valid(state_after(ranges, events.drop_last()), events.last());
    } else {
        lemma_total_pages_not_negative(ranges);
    }
}

/// A report that the capture waits for keeps its state valid.
pub(crate) proof fn lemma_step_keeps_valid(view: CaptureView, event: CaptureEvent)
    requires
        view.valid(),
        awaited(view, event),
    ensures
        step(view, event).valid(),
        step(view, event).ranges == view.ranges,
{
    match event {
        CaptureEvent::FaultRead(Some(addr)) => {
            if let Some(flat) = faulted_page(view.ranges, addr) {
                law_fault_is_on_its_page(view.ranges, addr, flat);
            }
        },
        CaptureEvent::FaultRead(None) => {
            if !all_captured(view.captured) {
                law_first_uncaptured_exists(view.captured);
            }
        },
        _ => {},
    }
}

/// Each page is handed to the output at most once, and a capture that finished has handed out
/// every page of every range: each page exactly once.
pub proof fn law_pages_captured_exactly_once(ranges: Seq<CaptureRange>, events: Seq<CaptureEvent>)
    requires
        capturable(ranges),
        is_run(ranges, events),
    ensures
        pages_copied(ranges, events).no_duplicates(),
        forall|k: int|
            0 <= k < pages_copied(ranges, events).len() ==> 0 <= #[trigger] pages_copied(
                ranges,
                events,
            )[k] < total_pages(ranges),
        state_after(ranges, events).phase is Finished ==> forall|flat: int|
            0 <= flat < total_pages(ranges) ==> pages_copied(ranges, events).contains(flat),
{
    lemma_copied_are_the_taken(ranges, events);
    law_capture_states_are_valid(ranges, events);
    let view = state_after(ranges, events);
    let copied = pages_copied(ranges, events);
    if view.phase is Finished {
        assert forall|flat: int| 0 <= flat < total_pages(ranges) implies copied.contains(flat) by {
            assert(view.captured[flat]);
        }
    }
}

/// A page is released after its bytes were handed to the output, and before those of any other
/// page are: the released pages are the copied ones, in the same order, but for the last one
/// while its release is outstanding. Only a release that failed leaves it outstanding for good.
pub proof fn law_release_follows_copy(ranges: Seq<CaptureRange>, events: Seq<CaptureEvent>)
    requires
        capturable(ranges),
        is_run(ranges, events),
    ensures
        ({
            let copied = pages_copied(ranges, events);
            let released = pages_released(ranges, events);
            match state_after(ranges, events).phase {
                CapturePhase::ReleasePage { flat, .. } => copied == released.push(flat as int),
                CapturePhase::Failed => copied == released || copied.len() > 0 && released
                    == copied.drop_last(),
                _ => copied == released,
            }
        }),
    decreases events.len(),
{
    if events.len() > 0 {
        let front = events.drop_last();
        law_release_follows_copy(ranges, front);
        law_capture_states_are_valid(ranges, front);
        let before = state_after(ranges, front);
        let released = pages_released(ranges, front);
        if let CapturePhase::ReleasePage { flat, .. } = before.phase {
            assert(released.push(flat as int).drop_last() =~= released);
        }
    }
}

/// A page whose copy failed is not released, and neither is any page after it: once a call has
/// failed, or every page was captured, the capture waits for no report, and asks for nothing but
/// to return.
pub proof fn law_ended_capture_asks_for_nothing(view: CaptureView, event: CaptureEvent)
    requires
        view.phase is Finished || view.phase is Failed,
    ensures
        !awaited(view, event),
        view.action() == (if view.phase is Finished {
            CaptureAction::Finished
        } else {
            CaptureAction::Failed
        }),
{
}

/// The copied pages are the taken ones but for the one that is to be copied.
proof fn lemma_copied_are_the_taken(ranges: Seq<CaptureRange>, events: Seq<CaptureEvent>)
    requires
        capturable(ranges),
        is_run(ranges, events),
    ensures
        pages_copied(ranges, events).no_duplicates(),
        forall|k: int|
            0 <= k < pages_copied(ranges, events).len() ==> {
                let flat = #[trigger] pages_copied(ranges, events)[k];
                &&& 0 <= flat < total_pages(ranges)
                &&& state_after(ranges, events).captured[flat]
                &&& !to_be_copied(state_after(ranges, events), flat)
            },
        !(state_after(ranges, events).phase is Failed) ==> forall|flat: int|
            0 <= flat < total_pages(ranges) && #[trigger] state_after(
                ranges,
                events,
            ).captured[flat] && !to_be_copied(state_after(ranges, events), flat) ==> pages_copied(
                ranges,
                events,
            ).contains(flat),
    decreases events.len(),
{
    if events.len() > 0 {
        let front = events.drop_last();
        lemma_copied_are_the_taken(ranges, front);
        law_capture_states_are_valid(ranges, front);
        law_capture_states_are_valid(ranges, events);
        let before = state_after(ranges, front);
        let after = state_after(ranges, events);
        let copied_before = pages_copied(ranges, front);
        let copied = pages_copied(ranges, events);
        match events.last() {
            CaptureEvent::FaultRead(fault) => {
                if !all_captured(before.captured) {
                    law_first_uncaptured_exists(before.captured);
                }
                if let Some(addr) = fault {
                    if let Some(flat) = faulted_page(ranges, addr) {
                        law_fault_is_on_its_page(ranges, addr, flat);
                    }
                }
            },
            CaptureEvent::PageCopied => {
                assert(!copied_before.contains(before.page_in_hand().unwrap()));
            },
            _ => {},
        }
        assert forall|k: int| 0 <= k < copied.len() implies {
            let flat = #[trigger] copied[k];
            &&& 0 <= flat < total_pages(ranges)
            &&& after.captured[flat]
            &&& !to_be_copied(after, flat)
        } by {
            if k < copied_before.len() {
                assert(before.captured[copied_before[k]]);
            }
        }
        if !(after.phase is Failed) {
            assert forall|flat: int|
                0 <= flat < total_pages(ranges) && #[trigger] after.captured[flat]
                    && !to_be_copied(after, flat) implies copied.contains(flat) by {
                assert(before.captured[flat]);
                if to_be_copied(before, flat) {
                    assert(copied[copied.len() - 1] == flat);
                } else {
                    assert(copied_before.contains(flat));
                    let k = choose|k: int|
                        0 <= k < copied_before.len() && copied_before[k] == flat;
                    assert(copied[k] == flat);
                }
            }
        }
    }
}

/// A fault on a page that was not taken has that page captured next, ahead of the background
/// pass.
pub proof fn law_faulted_page_is_captured_next(view: CaptureView, addr: u64, flat: int)
    requires
        view.valid(),
        view.phase is ReadFault,
        faulted_page(view.ranges, addr) == Some(flat),
        !view.captured[flat],
    ensures
        view.after_fault(Some(addr)).action() == CaptureAction::CopyPage(
            flat_page(view.ranges, flat),
        ),
{
    law_fault_is_on_its_page(view.ranges, addr, flat);
}

/// With no fault pending, an unfinished capture captures the first page that was not taken.
pub proof fn law_background_pass_goes_in_order(view: CaptureView)
    requires
        view.valid(),
        view.phase is ReadFault,
        !all_captured(view.captured),
    ensures
        is_first_uncaptured(view.captured, first_uncaptured(view.captured)),
        view.after_fault(None).action() == CaptureAction::CopyPage(
            flat_page(view.ranges, first_uncaptured(view.captured)),
        ),
{
    law_first_uncaptured_exists(view.captured);
}

/// A capture ends: as long as it has not finished, faults were found pending each time but for at
/// most as many times as there are taken pages, which are at most all the pages.
pub proof fn law_capture_makes_progress(ranges: Seq<CaptureRange>, events: Seq<CaptureEvent>)
    requires
        capturable(ranges),
        is_run(ranges, events),
    ensures
        !(state_after(ranges, events).phase is Finished) ==> quiet_reads(events) <= captured_count(
            state_after(ranges, events).captured,
        ) <= total_pages(ranges),
    decreases events.len(),
{
    law_capture_states_are_valid(ranges, events);
    lemma_captured_count_bounds(state_after(ranges, events).captured);
    if events.len() > 0 {
        let front = events.drop_last();
        law_capture_makes_progress(ranges, front);
        law_capture_states_are_valid(ranges, front);
        let before = state_after(ranges, front);
        match events.last() {
            CaptureEvent::FaultRead(Some(addr)) => {
                if let Some(flat) = faulted_page(ranges, addr) {
                    law_fault_is_on_its_page(ranges, addr, flat);
                    if !before.captured[flat] {
                        lemma_captured_count_take(before.captured, flat);
                    }
                }
            },
            CaptureEvent::FaultRead(None) => {
                if !all_captured(before.captured) {
                    law_first_uncaptured_exists(before.captured);
                    lemma_captured_count_take(before.captured, first_uncaptured(before.captured));
                }
            },
            _ => {},
        }
    } else {
        lemma_captured_count_none(CaptureView::armed(ranges).captured);
    }
}

// The pages of the ranges, one by one.

/// Range `i` has a page `k`: the page begins before the range ends.
pub open spec fn has_page(ranges: Seq<CaptureRange>, i: int, k: int) -> bool {
    0 <= i < ranges.len() && 0 <= k && k * ranges[i].page_size < ranges[i].length
}

/// `page` is page `k` of `r`: it begins `k` pages behind the range in memory and in the output,
/// its bytes are those of the page as far as the range goes, and it is released whole.
pub open spec fn is_page_of(page: PageCapture, r: CaptureRange, k: int) -> bool {
    &&& page.page_addr == r.host_addr + k * r.page_size
    &&& page.out_offset == r.out_offset + k * r.page_size
    &&& page.page_size == r.page_size
    &&& page.len <= r.page_size
    &&& k * r.page_size + page.len <= r.length
    &&& page.len == r.page_size || k * r.page_size + page.len == r.length
}

/// A range has as many pages as cover it: together they reach its end, and without the last they
/// do not.
pub proof fn law_captured_range_is_covered_by_its_pages(r: CaptureRange)
    requires
        r.page_size > 0,
    ensures
        r.page_count() >= 0,
        r.page_count() * r.page_size >= r.length,
        r.page_count() > 0 ==> (r.page_count() - 1) * r.page_size < r.length,
{
    law_pages_cover_exactly(r.length as int, r.page_size as int);
}

/// The flat index names the pages of the ranges: page `k` of range `i` is the `k`-th behind the
/// first page of that range.
pub proof fn law_flat_index_names_the_page(ranges: Seq<CaptureRange>, i: int, k: int)
    requires
        capturable(ranges),
        has_page(ranges, i, k),
    ensures
        0 <= first_page(ranges, i) + k < total_pages(ranges),
        is_page_of(flat_page(ranges, first_page(ranges, i) + k), ranges[i], k),
{
    let r = ranges[i];
    let ps = r.page_size as int;
    law_pages_cover_exactly(r.length as int, ps);
    assert(k < r.page_count()) by (nonlinear_arith)
        requires
            k * ps < r.length,
            r.length <= r.page_count() * ps,
            ps > 0,
    ;
    lemma_first_page_monotonic(ranges, i, i);
    lemma_first_page_monotonic(ranges, i + 1, ranges.len() as int);
    law_page_has_one_range(ranges, first_page(ranges, i) + k, i);
    lemma_page_in_bounds(r, k);
}

/// Flat indices go through the ranges in order, and through the pages of each in order: an earlier
/// page has the smaller index.
pub proof fn law_flat_index_keeps_the_order(
    ranges: Seq<CaptureRange>,
    i: int,
    k: int,
    j: int,
    l: int,
)
    requires
        capturable(ranges),
        has_page(ranges, i, k),
        has_page(ranges, j, l),
        i < j || i == j && k < l,
    ensures
        first_page(ranges, i) + k < first_page(ranges, j) + l,
{
    let r = ranges[i];
    let ps = r.page_size as int;
    law_pages_cover_exactly(r.length as int, ps);
    assert(k < r.page_count()) by (nonlinear_arith)
        requires
            k * ps < r.length,
            r.length <= r.page_count() * ps,
            ps > 0,
    ;
    if i < j {
        lemma_first_page_monotonic(ranges, i + 1, j);
    }
}

/// Every flat index below the total is that of a page, which is returned as its range and its
/// index in that range.
pub proof fn law_every_flat_index_is_of_a_page(ranges: Seq<CaptureRange>, flat: int) -> (at: (
    int,
    int,
))
    requires
        capturable(ranges),
        0 <= flat < total_pages(ranges),
    ensures
        has_page(ranges, at.0, at.1),
        flat == first_page(ranges, at.0) + at.1,
        is_page_of(flat_page(ranges, flat), ranges[at.0], at.1),
{
    let i = crate::capture::range_of(ranges, flat);
    law_page_has_one_range(ranges, flat, i);
    let k = flat - first_page(ranges, i);
    lemma_page_in_bounds(ranges[i], k);
    law_flat_index_names_the_page(ranges, i, k);
    (i, k)
}

/// Ranges can be captured exactly when each has a page size, every page of each begins at a
/// machine word in memory and in the output, and there are no more pages than one allocation can
/// flag.
pub proof fn law_ranges_are_capturable_while_their_pages_fit(ranges: Seq<CaptureRange>)
    ensures
        capturable(ranges) <==> {
            &&& forall|i: int| 0 <= i < ranges.len() ==> (#[trigger] ranges[i]).page_size > 0
            &&& forall|i: int, k: int| #[trigger]
                has_page(ranges, i, k) ==> ranges[i].host_addr + k * ranges[i].page_size
                    <= u64::MAX && ranges[i].out_offset + k * ranges[i].page_size <= u64::MAX
            &&& total_pages(ranges) <= isize::MAX
        },
{
    if capturable(ranges) {
        assert forall|i: int| 0 <= i < ranges.len() implies (#[trigger] ranges[i]).page_size
            > 0 by {
            assert(ranges[i].addressable());
        }
        assert forall|i: int, k: int| #[trigger] has_page(ranges, i, k) implies ranges[i].host_addr
            + k * ranges[i].page_size <= u64::MAX && ranges[i].out_offset + k
            * ranges[i].page_size <= u64::MAX by {
            law_flat_index_names_the_page(ranges, i, k);
        }
    }
    if (forall|i: int| 0 <= i < ranges.len() ==> (#[trigger] ranges[i]).page_size > 0) && (forall|
        i: int,
        k: int,
    | #[trigger]
        has_page(ranges, i, k) ==> ranges[i].host_addr + k * ranges[i].page_size <= u64::MAX
            && ranges[i].out_offset + k * ranges[i].page_size <= u64::MAX) {
        assert forall|i: int| 0 <= i < ranges.len() implies (
        #[trigger] ranges[i]).addressable() by {
            let r = ranges[i];
            law_pages_cover_exactly(r.length as int, r.page_size as int);
            if r.length > 0 {
                assert(has_page(ranges, i, r.page_count() - 1));
            }
        }
    }
}

/// The first range that contains a faulting address has the fault, on the page that the address
/// is in: page `k` when `k` whole pages lie between the start of the range and the address.
pub proof fn law_first_containing_range_has_the_fault(
    ranges: Seq<CaptureRange>,
    addr: u64,
    i: int,
    k: int,
)
    requires
        capturable(ranges),
        0 <= i < ranges.len(),
        ranges[i].host_addr <= addr < ranges[i].host_addr + ranges[i].length,
        forall|j: int|
            0 <= j < i ==> !((#[trigger] ranges[j]).host_addr <= addr < ranges[j].host_addr
                + ranges[j].length),
        k * ranges[i].page_size <= addr - ranges[i].host_addr < (k + 1) * ranges[i].page_size,
    ensures
        faulted_page(ranges, addr) == Some(first_page(ranges, i) + k),
        has_page(ranges, i, k),
{
    let r = ranges[i];
    let ps = r.page_size as int;
    assert(r.addressable());
    let off = addr - r.host_addr;
    let q = off / ps;
    law_offset_lies_in_a_page(r.length as int, ps, off);
    assert(q == k) by (nonlinear_arith)
        requires
            q * ps <= off < (q + 1) * ps,
            k * ps <= off < (k + 1) * ps,
            ps > 0,
    ;
    lemma_faults_before(ranges, addr, i);
}

proof fn lemma_faults_before(ranges: Seq<CaptureRange>, addr: u64, i: int)
    requires
        0 <= i <= ranges.len(),
        forall|j: int|
            0 <= j < i ==> !((#[trigger] ranges[j]).host_addr <= addr < ranges[j].host_addr
                + ranges[j].length),
    ensures
        faulted_page(ranges, addr) == faulted_page_from(ranges, addr, i),
    decreases i,
{
    if i > 0 {
        lemma_faults_before(ranges, addr, i - 1);
        assert(!(ranges[i - 1].host_addr <= addr < ranges[i - 1].host_addr + ranges[i - 1].length));
    }
}

/// An address that no range contains is on none of their pages.
pub proof fn law_fault_outside_the_ranges_is_on_no_page(ranges: Seq<CaptureRange>, addr: u64)
    requires
        forall|j: int|
            0 <= j < ranges.len() ==> !((#[trigger] ranges[j]).host_addr <= addr
                < ranges[j].host_addr + ranges[j].length),
    ensures
        faulted_page(ranges, addr) is None,
{
    lemma_faults_before(ranges, addr, ranges.len() as int);
}

// What a capture asks for.

/// A capture begins with no page taken and by reading faults, or ends at once when its ranges have
/// no bytes.
pub proof fn law_capture_begins_with_nothing_taken(ranges: Seq<CaptureRange>)
    requires
        capturable(ranges),
    ensures
        CaptureView::armed(ranges).ranges == ranges,
        CaptureView::armed(ranges).captured.len() == total_pages(ranges),
        forall|flat: int|
            0 <= flat < total_pages(ranges) ==> !(
            #[trigger] CaptureView::armed(ranges).captured[flat]),
        CaptureView::armed(ranges).action() == (if forall|i: int|
            0 <= i < ranges.len() ==> (#[trigger] ranges[i]).length == 0 {
            CaptureAction::Finished
        } else {
            CaptureAction::ReadFault
        }),
{
    lemma_total_pages_not_negative(ranges);
    if total_pages(ranges) > 0 {
        let at = law_every_flat_index_is_of_a_page(ranges, 0);
        let r = ranges[at.0];
        let k = at.1;
        assert(k * r.page_size >= 0) by (nonlinear_arith)
            requires
                k >= 0,
        ;
        assert(r.length != 0);
    } else if exists|i: int| 0 <= i < ranges.len() && (#[trigger] ranges[i]).length != 0 {
        let i = choose|i: int| 0 <= i < ranges.len() && (#[trigger] ranges[i]).length != 0;
        assert(0 * ranges[i].page_size == 0);
        assert(has_page(ranges, i, 0));
        law_flat_index_names_the_page(ranges, i, 0);
    }
}

/// A fault on page `k` of range `i`, the first that contains the address, has just that page taken
/// and copied next when it was not taken before; on a page that was taken it changes nothing.
pub proof fn law_fault_takes_its_page(view: CaptureView, addr: u64, i: int, k: int)
    requires
        view.valid(),
        view.phase is ReadFault,
        0 <= i < view.ranges.len(),
        view.ranges[i].host_addr <= addr < view.ranges[i].host_addr + view.ranges[i].length,
        forall|j: int|
            0 <= j < i ==> !((#[trigger] view.ranges[j]).host_addr <= addr
                < view.ranges[j].host_addr + view.ranges[j].length),
        k * view.ranges[i].page_size <= addr - view.ranges[i].host_addr < (k + 1)
            * view.ranges[i].page_size,
    ensures
        ({
            let flat = first_page(view.ranges, i) + k;
            let after = view.after_fault(Some(addr));
            &&& 0 <= flat < view.captured.len()
            &&& after.ranges == view.ranges
            &&& if view.captured[flat] {
                after.captured == view.captured && after.action() == CaptureAction::ReadFault
            } else {
                &&& after.captured == view.captured.update(flat, true)
                &&& after.action() matches CaptureAction::CopyPage(page) && is_page_of(
                    page,
                    view.ranges[i],
                    k,
                )
            }
        }),
{
    law_first_containing_range_has_the_fault(view.ranges, addr, i, k);
    law_flat_index_names_the_page(view.ranges, i, k);
}

/// A fault that no range contains changes nothing: the next fault is read.
pub proof fn law_fault_outside_the_ranges_changes_nothing(view: CaptureView, addr: u64)
    requires
        view.phase is ReadFault,
        forall|j: int|
            0 <= j < view.ranges.len() ==> !((#[trigger] view.ranges[j]).host_addr <= addr
                < view.ranges[j].host_addr + view.ranges[j].length),
    ensures
        view.after_fault(Some(addr)) == view,
        view.action() == CaptureAction::ReadFault,
{
    law_fault_outside_the_ranges_is_on_no_page(view.ranges, addr);
}

/// With no fault pending, the page copied next is page `k` of range `i` when that is the first
/// one that was not taken, and only that page is taken.
pub proof fn law_background_pass_takes_the_first_page_left(view: CaptureView, i: int, k: int)
    requires
        view.valid(),
        view.phase is ReadFault,
        has_page(view.ranges, i, k),
        !view.captured[first_page(view.ranges, i) + k],
        forall|flat: int|
            0 <= flat < first_page(view.ranges, i) + k ==> #[trigger] view.captured[flat],
    ensures
        ({
            let after = view.after_fault(None);
            &&& after.ranges == view.ranges
            &&& after.captured == view.captured.update(first_page(view.ranges, i) + k, true)
            &&& after.action() matches CaptureAction::CopyPage(page) && is_page_of(
                page,
                view.ranges[i],
                k,
            )
        }),
{
    let flat = first_page(view.ranges, i) + k;
    law_flat_index_names_the_page(view.ranges, i, k);
    assert(!all_captured(view.captured)) by {
        assert(!view.captured[flat]);
    }
    law_first_uncaptured_exists(view.captured);
    let f = first_uncaptured(view.captured);
    assert(!(f < flat));
    assert(!(flat < f));
}

/// With no fault pending and every page taken, the capture ends.
pub proof fn law_capture_ends_when_every_page_is_taken(view: CaptureView)
    requires
        view.phase is ReadFault,
        forall|flat: int| 0 <= flat < view.captured.len() ==> #[trigger] view.captured[flat],
    ensures
        view.after_fault(None).action() == CaptureAction::Finished,
{
    assert(all_captured(view.captured));
}

/// Releasing a page takes no other. Faults are read next; only after a page of the background pass
/// does the capture end, and only when every page was taken.
pub proof fn law_faults_are_read_before_the_end(view: CaptureView)
    requires
        view.phase is ReleasePage,
    ensures
        view.after_release().ranges == view.ranges,
        view.after_release().captured == view.captured,
        view.after_release().action() == (if !view.phase->ReleasePage_faulted && (forall|flat: int|
            0 <= flat < view.captured.len() ==> #[trigger] view.captured[flat]) {
            CaptureAction::Finished
        } else {
            CaptureAction::ReadFault
        }),
{
}

/// Only a page that the background pass reached may end a capture, and one that a fault asked for
/// is followed by more faults: which of the two a page is stays with it from when it is taken
/// until it is released.
pub proof fn law_page_remembers_how_it_was_taken(view: CaptureView, fault: Option<u64>)
    requires
        view.phase is ReadFault,
        view.after_fault(fault).phase is CopyPage,
    ensures
        view.after_fault(fault).phase->CopyPage_faulted == fault is Some,
        view.after_fault(fault).after_copy().phase is ReleasePage,
        view.after_fault(fault).after_copy().phase->ReleasePage_faulted == fault is Some,
        view.after_fault(fault).after_copy().captured == view.after_fault(fault).captured,
        view.after_fault(fault).after_copy().ranges == view.ranges,
{
}

/// The page to release is the page that was copied: a release is asked for only when the last
/// report was that a page was copied, the step before that asked for the copy of that very page,
/// and it is a page of one of the ranges.
pub proof fn law_released_page_is_the_copied_one(
    ranges: Seq<CaptureRange>,
    events: Seq<CaptureEvent>,
) -> (at: (int, int))
    requires
        capturable(ranges),
        is_run(ranges, events),
        state_after(ranges, events).action() is ReleasePage,
    ensures
        events.len() > 0,
        events.last() == CaptureEvent::PageCopied,
        state_after(ranges, events.drop_last()).action() matches CaptureAction::CopyPage(page)
            && state_after(ranges, events).action() == CaptureAction::ReleasePage(page) && has_page(
            ranges,
            at.0,
            at.1,
        ) && is_page_of(page, ranges[at.0], at.1),
{
    law_capture_states_are_valid(ranges, events);
    let before = state_after(ranges, events.drop_last());
    law_capture_states_are_valid(ranges, events.drop_last());
    law_every_flat_index_is_of_a_page(ranges, before.page_in_hand().unwrap())
}

/// The page to copy is a page of one of the ranges, and it was not taken before the fault was
/// read that it is copied for.
pub proof fn law_copied_page_is_of_a_range(
    ranges: Seq<CaptureRange>,
    events: Seq<CaptureEvent>,
) -> (at: (int, int))
    requires
        capturable(ranges),
        is_run(ranges, events),
        state_after(ranges, events).action() is CopyPage,
    ensures
        events.len() > 0,
        events.last() is FaultRead,
        has_page(ranges, at.0, at.1),
        !state_after(ranges, events.drop_last()).captured[first_page(ranges, at.0) + at.1],
        state_after(ranges, events).captured[first_page(ranges, at.0) + at.1],
        state_after(ranges, events).action() matches CaptureAction::CopyPage(page) && is_page_of(
            page,
            ranges[at.0],
            at.1,
        ),
{
    law_capture_states_are_valid(ranges, events);
    law_capture_states_are_valid(ranges, events.drop_last());
    let before = state_after(ranges, events.drop_last());
    if let CaptureEvent::FaultRead(fault) = events.last() {
        if let Some(addr) = fault {
            if let Some(flat) = faulted_page(ranges, addr) {
                law_fault_is_on_its_page(ranges, addr, flat);
            }
        } else if !all_captured(before.captured) {
            law_first_uncaptured_exists(before.captured);
        }
    }
    law_every_flat_index_is_of_a_page(ranges, state_after(ranges, events).page_in_hand().unwrap())
}

/// A capture waits for a call exactly while it asks for one, and after a call that failed it asks
/// for nothing but to return.
pub proof fn law_failed_call_ends_the_capture(view: CaptureView)
    ensures
        view.awaits_call() <==> view.action() != CaptureAction::Finished && view.action()
            != CaptureAction::Failed,
        view.after_failure().action() == CaptureAction::Failed,
        view.after_failure().captured == view.captured,
        view.after_failure().ranges == view.ranges,
{
}

} // verus!
