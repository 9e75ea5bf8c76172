//! A capture hands out the memory of the moment that protection was armed.
//!
//! The guest runs while its memory is captured. Write protection is what keeps the two apart: a
//! write to a protected page does not complete until the page is released, and every other write
//! may happen at any time. A history interleaves such writes with the steps of a capture.

use crate::capture::{
    all_captured, capturable, faulted_page, first_page, flat_page, holds_page,
    law_fault_is_on_its_page, law_first_uncaptured_exists, law_page_has_one_range,
    lemma_page_in_bounds, range_of, total_pages, CaptureAction, CaptureRange, CaptureView,
    PageCapture,
};
use crate::capture_laws::{
    awaited, has_page, law_every_flat_index_is_of_a_page, law_flat_index_names_the_page,
    lemma_step_keeps_valid, step, to_be_copied, CaptureEvent,
};
use crate::range::law_offset_lies_in_a_page;
use vstd::prelude::*;

verus! {

/// What the output was handed for one page.
pub struct Handed {
    /// The page, by flat index.
    pub flat: int,
    /// Where the bytes go in the output.
    pub out_offset: int,
    /// The bytes.
    pub bytes: Seq<u8>,
}

/// A capture, the memory that it captures and the output that it fills.
pub struct World {
    /// The capture.
    pub capture: CaptureView,
    /// The guest's memory, by address.
    pub memory: spec_fn(int) -> u8,
    /// The addresses that a write does not complete on.
    pub protected: spec_fn(int) -> bool,
    /// What the output was handed, in order.
    pub handed: Seq<Handed>,
    /// The output, by offset.
    pub output: spec_fn(int) -> Option<u8>,
}

/// What can happen while a capture runs.
pub enum WorldEvent {
    /// The guest writes a byte.
    GuestWrite { addr: int, value: u8 },
    /// What the capture asks for is done, or fails, and the capture is told so.
    Reported(CaptureEvent),
}

/// The bytes that `page` has in `memory`.
pub open spec fn page_bytes(memory: spec_fn(int) -> u8, page: PageCapture) -> Seq<u8> {
    Seq::new(page.len as nat, |k: int| memory(page.page_addr + k))
}

impl World {
    /// The moment that protection was armed.
    pub open spec fn armed(
        ranges: Seq<CaptureRange>,
        memory: spec_fn(int) -> u8,
        protected: spec_fn(int) -> bool,
    ) -> World {
        World {
            capture: CaptureView::armed(ranges),
            memory,
            protected,
            handed: Seq::empty(),
            output: |offset: int| None,
        }
    }

    /// The page in hand, by flat index.
    pub open spec fn taken(self) -> int {
        self.capture.page_in_hand().unwrap()
    }

    /// The page that the capture asks to copy or to release.
    pub open spec fn page(self) -> PageCapture {
        match self.capture.action() {
            CaptureAction::CopyPage(page) => page,
            CaptureAction::ReleasePage(page) => page,
            _ => flat_page(self.capture.ranges, self.taken()),
        }
    }

    /// `event` can happen now: a write only where nothing protects it, and of the capture only
    /// what it waits for.
    pub open spec fn possible(self, event: WorldEvent) -> bool {
        match event {
            WorldEvent::GuestWrite { addr, .. } => !(self.protected)(addr),
            WorldEvent::Reported(report) => awaited(self.capture, report),
        }
    }

    /// The world after `event`. Copying hands the output the bytes that the page which the capture
    /// asks for has at that moment, and releasing lifts the protection of the page which it asks
    /// for.
    pub open spec fn after(self, event: WorldEvent) -> World {
        let page = self.page();
        match event {
            WorldEvent::GuestWrite { addr, value } => World {
                memory: |a: int|
                    if a == addr {
                        value
                    } else {
                        (self.memory)(a)
                    },
                ..self
            },
            WorldEvent::Reported(CaptureEvent::PageCopied) => World {
                capture: self.capture.after_copy(),
                handed: self.handed.push(
                    Handed {
                        flat: self.taken(),
                        out_offset: page.out_offset as int,
                        bytes: page_bytes(self.memory, page),
                    },
                ),
                output: |offset: int|
                    if page.out_offset <= offset < page.out_offset + page.len {
                        Some((self.memory)(page.page_addr + (offset - page.out_offset)))
                    } else {
                        (self.output)(offset)
                    },
                ..self
            },
            WorldEvent::Reported(CaptureEvent::PageReleased) => World {
                capture: self.capture.after_release(),
                protected: |a: int|
                    (self.protected)(a) && !(page.page_addr <= a < page.page_addr + page.page_size),
                ..self
            },
            WorldEvent::Reported(report) => World {
                capture: step(self.capture, report),
                ..self
            },
        }
    }

    /// Each of `events` can happen at its point.
    pub open spec fn is_history(self, events: Seq<WorldEvent>) -> bool
        decreases events.len(),
    {
        events.len() > 0 ==> self.is_history(events.drop_last()) && self.at_end(
            events.drop_last(),
        ).possible(events.last())
    }

    /// The world after `events`.
    pub open spec fn at_end(self, events: Seq<WorldEvent>) -> World
        decreases events.len(),
    {
        if events.len() == 0 {
            self
        } else {
            self.at_end(events.drop_last()).after(events.last())
        }
    }

    /// The output was handed page `flat`.
    pub open spec fn was_handed(self, flat: int) -> bool {
        exists|k: int| 0 <= k < self.handed.len() && (#[trigger] self.handed[k]).flat == flat
    }

    /// Page `flat` is protected and has the bytes that it has in `memory`.
    pub open spec fn untouched(self, memory: spec_fn(int) -> u8, flat: int) -> bool {
        let page = flat_page(self.capture.ranges, flat);
        &&& forall|a: int|
            page.page_addr <= a < page.page_addr + page.len ==> #[trigger] (self.protected)(a)
        &&& forall|a: int|
            page.page_addr <= a < page.page_addr + page.len ==> #[trigger] (self.memory)(a)
                == memory(a)
    }
}

/// The pages of no range reach into another range. A range without bytes has no pages.
pub open spec fn memory_separate(ranges: Seq<CaptureRange>) -> bool {
    forall|i: int, j: int|
        0 <= i < ranges.len() && 0 <= j < ranges.len() && i != j && ranges[i].length > 0
            && ranges[j].length > 0 ==> memory_apart(#[trigger] ranges[i], #[trigger] ranges[j])
}

/// The pages of `r` end before `s` begins or begin after `s` ends.
pub open spec fn memory_apart(r: CaptureRange, s: CaptureRange) -> bool {
    r.host_addr + r.page_offset(r.page_count()) <= s.host_addr || s.host_addr + s.length
        <= r.host_addr
}

/// No two ranges share output. A range without bytes has no output.
pub open spec fn outputs_separate(ranges: Seq<CaptureRange>) -> bool {
    forall|i: int, j: int|
        0 <= i < ranges.len() && 0 <= j < ranges.len() && i != j && ranges[i].length > 0
            && ranges[j].length > 0 ==> outputs_apart(#[trigger] ranges[i], #[trigger] ranges[j])
}

/// The output of `r` ends before that of `s` begins or begins after it ends.
pub open spec fn outputs_apart(r: CaptureRange, s: CaptureRange) -> bool {
    r.out_offset + r.length <= s.out_offset || s.out_offset + s.length <= r.out_offset
}

/// Every byte of the ranges is protected.
pub open spec fn covers(protected: spec_fn(int) -> bool, ranges: Seq<CaptureRange>) -> bool {
    forall|i: int, a: int|
        0 <= i < ranges.len() && (#[trigger] ranges[i]).host_addr <= a < ranges[i].host_addr
            + ranges[i].length ==> #[trigger] protected(a)
}

/// Whatever the guest writes while a capture runs, the output is handed each page at most once,
/// at the page's place and with the bytes that it had at the moment protection was armed; and a
/// capture that finished has handed out every page of every range.
pub proof fn law_output_is_handed_the_armed_bytes(
    ranges: Seq<CaptureRange>,
    memory: spec_fn(int) -> u8,
    protected: spec_fn(int) -> bool,
    events: Seq<WorldEvent>,
)
    requires
        capturable(ranges),
        memory_separate(ranges),
        covers(protected, ranges),
        World::armed(ranges, memory, protected).is_history(events),
    ensures
        ({
            let world = World::armed(ranges, memory, protected).at_end(events);
            &&& forall|k: int|
                0 <= k < world.handed.len() ==> {
                    let handed = #[trigger] world.handed[k];
                    let page = flat_page(ranges, handed.flat);
                    &&& 0 <= handed.flat < total_pages(ranges)
                    &&& handed.out_offset == page.out_offset
                    &&& handed.bytes == page_bytes(memory, page)
                }
            &&& forall|k: int, l: int|
                0 <= k < l < world.handed.len() ==> (#[trigger] world.handed[k]).flat != (
                #[trigger] world.handed[l]).flat
            &&& world.capture.phase is Finished ==> forall|flat: int|
                0 <= flat < total_pages(ranges) ==> #[trigger] world.was_handed(flat)
        }),
{
    lemma_history_keeps_consistent(ranges, memory, protected, events);
    let world = World::armed(ranges, memory, protected).at_end(events);
    if world.capture.phase is Finished {
        assert forall|flat: int| 0 <= flat < total_pages(ranges) implies #[trigger] world.was_handed(
            flat,
        ) by {
            assert(world.capture.captured[flat]);
        }
    }
}

/// What is captured rests on the moment alone: whatever the guest writes and in whichever order
/// the pages are taken, two captures of one moment hand out the same bytes for a page, at the
/// same place.
pub proof fn law_captures_of_one_moment_agree(
    ranges: Seq<CaptureRange>,
    memory: spec_fn(int) -> u8,
    protected: spec_fn(int) -> bool,
    one: Seq<WorldEvent>,
    other: Seq<WorldEvent>,
    k: int,
    l: int,
)
    requires
        capturable(ranges),
        memory_separate(ranges),
        covers(protected, ranges),
        World::armed(ranges, memory, protected).is_history(one),
        World::armed(ranges, memory, protected).is_history(other),
        0 <= k < World::armed(ranges, memory, protected).at_end(one).handed.len(),
        0 <= l < World::armed(ranges, memory, protected).at_end(other).handed.len(),
        World::armed(ranges, memory, protected).at_end(one).handed[k].flat == World::armed(
            ranges,
            memory,
            protected,
        ).at_end(other).handed[l].flat,
    ensures
        World::armed(ranges, memory, protected).at_end(one).handed[k] == World::armed(
            ranges,
            memory,
            protected,
        ).at_end(other).handed[l],
{
    law_output_is_handed_the_armed_bytes(ranges, memory, protected, one);
    law_output_is_handed_the_armed_bytes(ranges, memory, protected, other);
}

/// No page is let go before its bytes are out: at every point of a capture, after a failed call
/// too, a page that the output was not handed is still protected and still has the bytes that it
/// had at the moment protection was armed.
pub proof fn law_pages_stay_protected_until_handed(
    ranges: Seq<CaptureRange>,
    memory: spec_fn(int) -> u8,
    protected: spec_fn(int) -> bool,
    events: Seq<WorldEvent>,
    flat: int,
)
    requires
        capturable(ranges),
        memory_separate(ranges),
        covers(protected, ranges),
        World::armed(ranges, memory, protected).is_history(events),
        0 <= flat < total_pages(ranges),
    ensures
        ({
            let world = World::armed(ranges, memory, protected).at_end(events);
            world.was_handed(flat) || world.untouched(memory, flat)
        }),
{
    lemma_history_keeps_consistent(ranges, memory, protected, events);
}

/// The captured image is the memory at the moment protection was armed: whatever the guest
/// writes while the capture runs, a finished capture has each byte of each range at its place in
/// the output as it was then.
pub proof fn law_capture_is_point_in_time(
    ranges: Seq<CaptureRange>,
    memory: spec_fn(int) -> u8,
    protected: spec_fn(int) -> bool,
    events: Seq<WorldEvent>,
    i: int,
    k: int,
)
    requires
        capturable(ranges),
        memory_separate(ranges),
        outputs_separate(ranges),
        covers(protected, ranges),
        World::armed(ranges, memory, protected).is_history(events),
        World::armed(ranges, memory, protected).at_end(events).capture.phase is Finished,
        0 <= i < ranges.len(),
        0 <= k < ranges[i].length,
    ensures
        (World::armed(ranges, memory, protected).at_end(events).output)(ranges[i].out_offset + k)
            == Some(memory(ranges[i].host_addr + k)),
{
    let start = World::armed(ranges, memory, protected);
    lemma_history_keeps_consistent(ranges, memory, protected, events);
    lemma_history_keeps_saved(ranges, memory, protected, events);
    let world = start.at_end(events);
    let r = ranges[i];
    law_offset_lies_in_a_page(r.length as int, r.page_size as int, k);
    let page_idx = k / (r.page_size as int);
    let flat = first_page(ranges, i) + page_idx;
    crate::capture::lemma_first_page_monotonic(ranges, 0, i);
    crate::capture::lemma_first_page_monotonic(ranges, i + 1, ranges.len() as int);
    assert(holds_page(ranges, i, flat));
    law_page_has_one_range(ranges, flat, i);
    lemma_page_in_bounds(r, page_idx);
    let page = flat_page(ranges, flat);
    assert((page_idx + 1) * r.page_size == page_idx * r.page_size + r.page_size)
        by (nonlinear_arith);
    assert(world.capture.captured[flat]);
    assert(world.was_handed(flat));
    let h = choose|h: int| 0 <= h < world.handed.len() && (#[trigger] world.handed[h]).flat == flat;
    assert(saved(world, memory, world.handed[h].flat));
    let o = r.out_offset + k;
    assert((world.output)(o) == Some(memory(page.page_addr + (o - page.out_offset))));
}

/// The output holds the bytes that page `flat` has in `memory`.
spec fn saved(world: World, memory: spec_fn(int) -> u8, flat: int) -> bool {
    let page = flat_page(world.capture.ranges, flat);
    forall|o: int|
        page.out_offset <= o < page.out_offset + page.len ==> #[trigger] (world.output)(o) == Some(
            memory(page.page_addr + (o - page.out_offset)),
        )
}

/// What was handed is one page of the capture with the bytes of `memory`.
spec fn faithful(world: World, memory: spec_fn(int) -> u8, handed: Handed) -> bool {
    let page = flat_page(world.capture.ranges, handed.flat);
    &&& 0 <= handed.flat < total_pages(world.capture.ranges)
    &&& world.capture.captured[handed.flat]
    &&& !to_be_copied(world.capture, handed.flat)
    &&& handed.out_offset == page.out_offset
    &&& handed.bytes == page_bytes(memory, page)
}

/// What was handed is faithful and handed once, the taken pages but for the one that is to be
/// copied were handed, and every page that was not is untouched.
spec fn consistent(world: World, memory: spec_fn(int) -> u8) -> bool {
    &&& world.capture.valid()
    &&& forall|k: int|
        0 <= k < world.handed.len() ==> faithful(world, memory, #[trigger] world.handed[k])
    &&& forall|k: int, l: int|
        0 <= k < l < world.handed.len() ==> (#[trigger] world.handed[k]).flat != (
        #[trigger] world.handed[l]).flat
    &&& !(world.capture.phase is Failed) ==> forall|flat: int|
        0 <= flat < total_pages(world.capture.ranges) && #[trigger] world.capture.captured[flat]
            && !to_be_copied(world.capture, flat) ==> world.was_handed(flat)
    &&& forall|flat: int|
        0 <= flat < total_pages(world.capture.ranges) ==> #[trigger] world.was_handed(flat)
            || world.untouched(memory, flat)
}

proof fn lemma_history_keeps_consistent(
    ranges: Seq<CaptureRange>,
    memory: spec_fn(int) -> u8,
    protected: spec_fn(int) -> bool,
    events: Seq<WorldEvent>,
)
    requires
        capturable(ranges),
        memory_separate(ranges),
        covers(protected, ranges),
        World::armed(ranges, memory, protected).is_history(events),
    ensures
        consistent(World::armed(ranges, memory, protected).at_end(events), memory),
        World::armed(ranges, memory, protected).at_end(events).capture.ranges == ranges,
    decreases events.len(),
{
    let start = World::armed(ranges, memory, protected);
    if events.len() == 0 {
        crate::capture::lemma_total_pages_not_negative(ranges);
        assert forall|flat: int| 0 <= flat < total_pages(ranges) implies #[trigger] start.was_handed(
            flat,
        ) || start.untouched(memory, flat) by {
            let i = range_of(ranges, flat);
            law_page_has_one_range(ranges, flat, i);
            let r = ranges[i];
            let page_idx = flat - first_page(ranges, i);
            lemma_page_in_bounds(r, page_idx);
            let page = flat_page(ranges, flat);
            assert forall|a: int|
                page.page_addr <= a < page.page_addr + page.len implies #[trigger] (
            start.protected)(a) by {
                assert(ranges[i].host_addr <= a < ranges[i].host_addr + ranges[i].length);
                assert(protected(a));
            }
        }
    } else {
        let front = events.drop_last();
        lemma_history_keeps_consistent(ranges, memory, protected, front);
        lemma_event_keeps_consistent(start.at_end(front), memory, events.last());
    }
}

proof fn lemma_event_keeps_consistent(
    world: World,
    memory: spec_fn(int) -> u8,
    event: WorldEvent,
)
    requires
        consistent(world, memory),
        memory_separate(world.capture.ranges),
        world.possible(event),
    ensures
        consistent(world.after(event), memory),
        world.after(event).capture.ranges == world.capture.ranges,
{
    match event {
        WorldEvent::GuestWrite { addr, value } => {
            lemma_write_keeps_consistent(world, memory, addr, value);
        },
        WorldEvent::Reported(CaptureEvent::PageCopied) => {
            lemma_copy_keeps_consistent(world, memory);
        },
        WorldEvent::Reported(CaptureEvent::PageReleased) => {
            lemma_release_keeps_consistent(world, memory);
        },
        WorldEvent::Reported(report) => {
            lemma_report_keeps_consistent(world, memory, report);
        },
    }
}

proof fn lemma_write_keeps_consistent(
    world: World,
    memory: spec_fn(int) -> u8,
    addr: int,
    value: u8,
)
    requires
        consistent(world, memory),
        !(world.protected)(addr),
    ensures
        consistent(world.after(WorldEvent::GuestWrite { addr, value }), memory),
{
    let after = world.after(WorldEvent::GuestWrite { addr, value });
    let ranges = world.capture.ranges;
    assert(after.handed == world.handed);
    assert forall|k: int| 0 <= k < after.handed.len() implies faithful(
        after,
        memory,
        #[trigger] after.handed[k],
    ) by {
        assert(faithful(world, memory, world.handed[k]));
    }
    assert forall|flat: int|
        0 <= flat < total_pages(ranges) && #[trigger] after.capture.captured[flat]
            && !to_be_copied(after.capture, flat) && !(after.capture.phase is Failed) implies
    after.was_handed(flat) by {
        assert(world.capture.captured[flat]);
        assert(world.was_handed(flat));
    }
    assert forall|flat: int| 0 <= flat < total_pages(ranges) implies #[trigger] after.was_handed(
        flat,
    ) || after.untouched(memory, flat) by {
        if !world.was_handed(flat) {
            assert(world.untouched(memory, flat));
            let page = flat_page(ranges, flat);
            assert forall|a: int|
                page.page_addr <= a < page.page_addr + page.len implies #[trigger] (after.memory)(a)
                == memory(a) by {
                assert((world.protected)(a));
                assert((world.memory)(a) == memory(a));
            }
        }
    }
}

proof fn lemma_copy_keeps_consistent(world: World, memory: spec_fn(int) -> u8)
    requires
        consistent(world, memory),
        world.capture.phase is CopyPage,
    ensures
        consistent(world.after(WorldEvent::Reported(CaptureEvent::PageCopied)), memory),
{
    let after = world.after(WorldEvent::Reported(CaptureEvent::PageCopied));
    let ranges = world.capture.ranges;
    let taken = world.taken();
    let page = world.page();
    let n = world.handed.len() as int;
    lemma_step_keeps_valid(world.capture, CaptureEvent::PageCopied);
    assert(to_be_copied(world.capture, taken));
    assert(!world.was_handed(taken)) by {
        assert forall|k: int| 0 <= k < n implies (#[trigger] world.handed[k]).flat != taken by {
            assert(faithful(world, memory, world.handed[k]));
        }
    }
    assert(world.untouched(memory, taken));
    assert(page_bytes(world.memory, page) =~= page_bytes(memory, page)) by {
        assert forall|k: int| 0 <= k < page.len implies #[trigger] page_bytes(world.memory, page)[k]
            == page_bytes(memory, page)[k] by {
            let a = page.page_addr + k;
            assert((world.memory)(a) == memory(a));
        }
    }
    assert forall|k: int| 0 <= k < after.handed.len() implies faithful(
        after,
        memory,
        #[trigger] after.handed[k],
    ) by {
        if k < n {
            assert(faithful(world, memory, world.handed[k]));
        }
    }
    assert forall|k: int, l: int| 0 <= k < l < after.handed.len() implies (
    #[trigger] after.handed[k]).flat != (#[trigger] after.handed[l]).flat by {
        assert(world.handed[k] == after.handed[k]);
        if l < n {
            assert(world.handed[l] == after.handed[l]);
        }
    }
    assert forall|flat: int| #[trigger] world.was_handed(flat) implies after.was_handed(flat) by {
        let k = choose|k: int| 0 <= k < n && (#[trigger] world.handed[k]).flat == flat;
        assert(after.handed[k].flat == flat);
    }
    assert(after.handed[n].flat == taken);
    assert(after.was_handed(taken));
    assert forall|flat: int|
        0 <= flat < total_pages(ranges) && #[trigger] after.capture.captured[flat]
            && !to_be_copied(after.capture, flat) implies after.was_handed(flat) by {
        assert(world.capture.captured[flat]);
        if flat != taken {
            assert(world.was_handed(flat));
        }
    }
    assert forall|flat: int| 0 <= flat < total_pages(ranges) implies #[trigger] after.was_handed(
        flat,
    ) || after.untouched(memory, flat) by {
        if !world.was_handed(flat) {
            assert(world.untouched(memory, flat));
            assert(after.untouched(memory, flat));
        }
    }
}

proof fn lemma_release_keeps_consistent(world: World, memory: spec_fn(int) -> u8)
    requires
        consistent(world, memory),
        memory_separate(world.capture.ranges),
        world.capture.phase is ReleasePage,
    ensures
        consistent(world.after(WorldEvent::Reported(CaptureEvent::PageReleased)), memory),
{
    let after = world.after(WorldEvent::Reported(CaptureEvent::PageReleased));
    let ranges = world.capture.ranges;
    let taken = world.taken();
    lemma_step_keeps_valid(world.capture, CaptureEvent::PageReleased);
    assert(world.capture.captured[taken]);
    assert(world.was_handed(taken));
    assert(after.handed == world.handed);
    assert forall|k: int| 0 <= k < after.handed.len() implies faithful(
        after,
        memory,
        #[trigger] after.handed[k],
    ) by {
        assert(faithful(world, memory, world.handed[k]));
    }
    assert forall|flat: int|
        0 <= flat < total_pages(ranges) && #[trigger] after.capture.captured[flat]
            && !to_be_copied(after.capture, flat) implies after.was_handed(flat) by {
        assert(world.capture.captured[flat]);
        assert(world.was_handed(flat));
    }
    assert forall|flat: int| 0 <= flat < total_pages(ranges) implies #[trigger] after.was_handed(
        flat,
    ) || after.untouched(memory, flat) by {
        if !world.was_handed(flat) {
            assert(world.untouched(memory, flat));
            lemma_memory_pages_apart(ranges, taken, flat);
            let page = flat_page(ranges, flat);
            assert forall|a: int|
                page.page_addr <= a < page.page_addr + page.len implies #[trigger] (
            after.protected)(a) by {
                assert((world.protected)(a));
            }
            assert forall|a: int|
                page.page_addr <= a < page.page_addr + page.len implies #[trigger] (after.memory)(a)
                == memory(a) by {
                assert((world.memory)(a) == memory(a));
            }
        }
    }
}

/// A fault that was read and a call that failed leave memory and output alone.
proof fn lemma_report_keeps_consistent(
    world: World,
    memory: spec_fn(int) -> u8,
    report: CaptureEvent,
)
    requires
        consistent(world, memory),
        awaited(world.capture, report),
        report is FaultRead || report is CallFailed,
    ensures
        consistent(world.after(WorldEvent::Reported(report)), memory),
        world.after(WorldEvent::Reported(report)).capture.ranges == world.capture.ranges,
{
    let after = world.after(WorldEvent::Reported(report));
    let ranges = world.capture.ranges;
    lemma_step_keeps_valid(world.capture, report);
    if let CaptureEvent::FaultRead(fault) = report {
        if let Some(addr) = fault {
            if let Some(flat) = faulted_page(ranges, addr) {
                law_fault_is_on_its_page(ranges, addr, flat);
            }
        } else if !all_captured(world.capture.captured) {
            law_first_uncaptured_exists(world.capture.captured);
        }
    }
    assert(after.handed == world.handed);
    assert forall|k: int| 0 <= k < after.handed.len() implies faithful(
        after,
        memory,
        #[trigger] after.handed[k],
    ) by {
        assert(faithful(world, memory, world.handed[k]));
    }
    assert forall|flat: int|
        0 <= flat < total_pages(ranges) && #[trigger] after.capture.captured[flat]
            && !to_be_copied(after.capture, flat) && !(after.capture.phase is Failed) implies
    after.was_handed(flat) by {
        assert(world.capture.captured[flat]);
        assert(world.was_handed(flat));
    }
    assert forall|flat: int| 0 <= flat < total_pages(ranges) implies #[trigger] after.was_handed(
        flat,
    ) || after.untouched(memory, flat) by {
        if !world.was_handed(flat) {
            assert(world.untouched(memory, flat));
            assert(after.untouched(memory, flat));
        }
    }
}

/// Where no two ranges share output, what was handed stays in the output.
proof fn lemma_history_keeps_saved(
    ranges: Seq<CaptureRange>,
    memory: spec_fn(int) -> u8,
    protected: spec_fn(int) -> bool,
    events: Seq<WorldEvent>,
)
    requires
        capturable(ranges),
        memory_separate(ranges),
        outputs_separate(ranges),
        covers(protected, ranges),
        World::armed(ranges, memory, protected).is_history(events),
    ensures
        ({
            let world = World::armed(ranges, memory, protected).at_end(events);
            forall|k: int|
                0 <= k < world.handed.len() ==> saved(
                    world,
                    memory,
                    (#[trigger] world.handed[k]).flat,
                )
        }),
    decreases events.len(),
{
    let start = World::armed(ranges, memory, protected);
    if events.len() > 0 {
        let front = events.drop_last();
        let world = start.at_end(front);
        let after = start.at_end(events);
        lemma_history_keeps_saved(ranges, memory, protected, front);
        lemma_history_keeps_consistent(ranges, memory, protected, front);
        lemma_history_keeps_consistent(ranges, memory, protected, events);
        assert forall|k: int| 0 <= k < after.handed.len() implies saved(
            after,
            memory,
            (#[trigger] after.handed[k]).flat,
        ) by {
            let flat = after.handed[k].flat;
            assert(faithful(after, memory, after.handed[k]));
            if k < world.handed.len() {
                assert(after.handed[k] == world.handed[k]);
                assert(saved(world, memory, flat));
                if events.last() == WorldEvent::Reported(CaptureEvent::PageCopied) {
                    lemma_later_copy_keeps_saved(world, memory, flat);
                }
            } else {
                let page = world.page();
                assert(flat == world.taken());
                assert forall|o: int|
                    page.out_offset <= o < page.out_offset + page.len implies #[trigger] (
                after.output)(o) == Some(memory(page.page_addr + (o - page.out_offset))) by {
                    let b = o - page.out_offset;
                    assert(after.handed[k].bytes[b] == (world.memory)(page.page_addr + b));
                    assert(page_bytes(memory, page)[b] == memory(page.page_addr + b));
                }
            }
        }
    }
}

proof fn lemma_later_copy_keeps_saved(world: World, memory: spec_fn(int) -> u8, flat: int)
    requires
        world.capture.valid(),
        outputs_separate(world.capture.ranges),
        world.capture.phase is CopyPage,
        0 <= flat < total_pages(world.capture.ranges),
        flat != world.taken(),
        saved(world, memory, flat),
    ensures
        saved(world.after(WorldEvent::Reported(CaptureEvent::PageCopied)), memory, flat),
{
    let after = world.after(WorldEvent::Reported(CaptureEvent::PageCopied));
    let page = flat_page(world.capture.ranges, flat);
    lemma_output_pages_apart(world.capture.ranges, world.taken(), flat);
    assert forall|o: int|
        page.out_offset <= o < page.out_offset + page.len implies #[trigger] (after.output)(o)
        == Some(memory(page.page_addr + (o - page.out_offset))) by {
        assert((world.output)(o) == Some(memory(page.page_addr + (o - page.out_offset))));
    }
}

/// Releasing one page releases nothing of another.
proof fn lemma_memory_pages_apart(ranges: Seq<CaptureRange>, f: int, g: int)
    requires
        capturable(ranges),
        memory_separate(ranges),
        0 <= f < total_pages(ranges),
        0 <= g < total_pages(ranges),
        f != g,
    ensures
        ({
            let p = flat_page(ranges, f);
            let q = flat_page(ranges, g);
            p.page_addr + p.page_size <= q.page_addr || q.page_addr + q.len <= p.page_addr
        }),
{
    let i = range_of(ranges, f);
    let j = range_of(ranges, g);
    law_page_has_one_range(ranges, f, i);
    law_page_has_one_range(ranges, g, j);
    let r = ranges[i];
    let a = f - first_page(ranges, i);
    let b = g - first_page(ranges, j);
    lemma_page_in_bounds(r, a);
    lemma_page_in_bounds(ranges[j], b);
    if i == j {
        lemma_offsets_apart(r.page_size as int, a, b);
    } else {
        assert(memory_apart(ranges[i], ranges[j]));
        let ps = r.page_size as int;
        assert(a * ps + ps <= r.page_count() * ps) by (nonlinear_arith)
            requires
                a + 1 <= r.page_count(),
                ps > 0,
        ;
    }
}

/// The outputs of two pages do not meet.
proof fn lemma_output_pages_apart(ranges: Seq<CaptureRange>, f: int, g: int)
    requires
        capturable(ranges),
        outputs_separate(ranges),
        0 <= f < total_pages(ranges),
        0 <= g < total_pages(ranges),
        f != g,
    ensures
        ({
            let p = flat_page(ranges, f);
            let q = flat_page(ranges, g);
            p.out_offset + p.len <= q.out_offset || q.out_offset + q.len <= p.out_offset
        }),
{
    let i = range_of(ranges, f);
    let j = range_of(ranges, g);
    law_page_has_one_range(ranges, f, i);
    law_page_has_one_range(ranges, g, j);
    let r = ranges[i];
    let a = f - first_page(ranges, i);
    let b = g - first_page(ranges, j);
    lemma_page_in_bounds(r, a);
    lemma_page_in_bounds(ranges[j], b);
    if i == j {
        lemma_offsets_apart(r.page_size as int, a, b);
    } else {
        assert(outputs_apart(ranges[i], ranges[j]));
    }
}

/// Two pages of one range begin at least a page apart.
proof fn lemma_offsets_apart(page_size: int, a: int, b: int)
    requires
        page_size > 0,
        a != b,
    ensures
        a * page_size + page_size <= b * page_size || b * page_size + page_size <= a * page_size,
{
    if a < b {
        assert(a * page_size + page_size <= b * page_size) by (nonlinear_arith)
            requires
                a + 1 <= b,
                page_size > 0,
        ;
    } else {
        assert(b * page_size + page_size <= a * page_size) by (nonlinear_arith)
            requires
                b + 1 <= a,
                page_size > 0,
        ;
    }
}

// What stays protected.

/// Address `a` lies in a page of one of the ranges.
pub open spec fn in_a_page(ranges: Seq<CaptureRange>, a: int) -> bool {
    exists|i: int, k: int| #[trigger]
        has_page(ranges, i, k) && ranges[i].host_addr + k * ranges[i].page_size <= a
            < ranges[i].host_addr + k * ranges[i].page_size + ranges[i].page_size
}

/// A finished capture leaves no page protected, so that no writer stays parked on one: not a byte
/// of any page of the ranges is, to the end of a partial last page.
pub proof fn law_finished_capture_releases_every_page(
    ranges: Seq<CaptureRange>,
    memory: spec_fn(int) -> u8,
    protected: spec_fn(int) -> bool,
    events: Seq<WorldEvent>,
    a: int,
)
    requires
        capturable(ranges),
        World::armed(ranges, memory, protected).is_history(events),
        World::armed(ranges, memory, protected).at_end(events).capture.phase is Finished,
        in_a_page(ranges, a),
    ensures
        !(World::armed(ranges, memory, protected).at_end(events).protected)(a),
{
    let (i, k) = choose|i: int, k: int| #[trigger]
        has_page(ranges, i, k) && ranges[i].host_addr + k * ranges[i].page_size <= a
            < ranges[i].host_addr + k * ranges[i].page_size + ranges[i].page_size;
    let flat = first_page(ranges, i) + k;
    law_flat_index_names_the_page(ranges, i, k);
    lemma_history_lifts_what_is_released(ranges, memory, protected, events, flat, a);
    lemma_history_keeps_valid(ranges, memory, protected, events);
    let world = World::armed(ranges, memory, protected).at_end(events);
    assert(world.capture.captured[flat]);
}

/// A capture lifts no protection but that of the pages of its ranges, and arms none.
pub proof fn law_capture_releases_nothing_else(
    ranges: Seq<CaptureRange>,
    memory: spec_fn(int) -> u8,
    protected: spec_fn(int) -> bool,
    events: Seq<WorldEvent>,
    a: int,
)
    requires
        capturable(ranges),
        World::armed(ranges, memory, protected).is_history(events),
    ensures
        (World::armed(ranges, memory, protected).at_end(events).protected)(a) ==> protected(a),
        !in_a_page(ranges, a) ==> (World::armed(ranges, memory, protected).at_end(
            events,
        ).protected)(a) == protected(a),
    decreases events.len(),
{
    if events.len() > 0 {
        let front = events.drop_last();
        law_capture_releases_nothing_else(ranges, memory, protected, front, a);
        lemma_history_keeps_valid(ranges, memory, protected, front);
        let world = World::armed(ranges, memory, protected).at_end(front);
        if events.last() == WorldEvent::Reported(CaptureEvent::PageReleased) {
            let at = law_every_flat_index_is_of_a_page(ranges, world.taken());
            assert(has_page(ranges, at.0, at.1));
        }
    }
}

proof fn lemma_history_keeps_valid(
    ranges: Seq<CaptureRange>,
    memory: spec_fn(int) -> u8,
    protected: spec_fn(int) -> bool,
    events: Seq<WorldEvent>,
)
    requires
        capturable(ranges),
        World::armed(ranges, memory, protected).is_history(events),
    ensures
        World::armed(ranges, memory, protected).at_end(events).capture.valid(),
        World::armed(ranges, memory, protected).at_end(events).capture.ranges == ranges,
    decreases events.len(),
{
    if events.len() == 0 {
        crate::capture::lemma_total_pages_not_negative(ranges);
    } else {
        let front = events.drop_last();
        lemma_history_keeps_valid(ranges, memory, protected, front);
        if let WorldEvent::Reported(report) = events.last() {
            lemma_step_keeps_valid(
                World::armed(ranges, memory, protected).at_end(front).capture,
                report,
            );
        }
    }
}

/// A page that was taken and is no longer in hand is released, unless a call failed.
proof fn lemma_history_lifts_what_is_released(
    ranges: Seq<CaptureRange>,
    memory: spec_fn(int) -> u8,
    protected: spec_fn(int) -> bool,
    events: Seq<WorldEvent>,
    flat: int,
    a: int,
)
    requires
        capturable(ranges),
        World::armed(ranges, memory, protected).is_history(events),
        0 <= flat < total_pages(ranges),
        flat_page(ranges, flat).page_addr <= a < flat_page(ranges, flat).page_addr + flat_page(
            ranges,
            flat,
        ).page_size,
    ensures
        ({
            let world = World::armed(ranges, memory, protected).at_end(events);
            world.capture.captured[flat] && world.capture.page_in_hand() != Some(flat)
                && !(world.capture.phase is Failed) ==> !(world.protected)(a)
        }),
    decreases events.len(),
{
    if events.len() > 0 {
        let front = events.drop_last();
        let world = World::armed(ranges, memory, protected).at_end(front);
        lemma_history_lifts_what_is_released(ranges, memory, protected, front, flat, a);
        lemma_history_keeps_valid(ranges, memory, protected, front);
        if let WorldEvent::Reported(CaptureEvent::FaultRead(fault)) = events.last() {
            if let Some(addr) = fault {
                if let Some(f) = faulted_page(ranges, addr) {
                    law_fault_is_on_its_page(ranges, addr, f);
                }
            } else if !all_captured(world.capture.captured) {
                law_first_uncaptured_exists(world.capture.captured);
            }
        }
    }
}

} // verus!
