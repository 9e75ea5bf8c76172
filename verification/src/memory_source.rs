//! Providers of guest-memory page contents.

use crate::range::UffdRange;
use crate::source::{PageFetch, PageStep, RunFetch, RunStep};
use vstd::prelude::*;

verus! {

/// `buf` extended with zeros to `len` bytes, or as it is when it has as many.
pub open spec fn with_room(buf: Seq<u8>, len: int) -> Seq<u8> {
    if buf.len() < len {
        buf + Seq::new((len - buf.len()) as nat, |i: int| 0u8)
    } else {
        buf
    }
}

fn make_room_in(buf: &mut Vec<u8>, len: usize)
    requires
        len <= isize::MAX,
    ensures
        final(buf)@ == with_room(old(buf)@, len as int),
{
    if buf.len() < len {
        buf.resize(len, 0);
        assert(buf@ =~= with_room(old(buf)@, len as int));
    }
}

/// Source that reads pages from a local snapshot file `file`.
pub struct FileUffdMemorySource<F> {
    /// The snapshot.
    pub file: F,
    /// Where a page passes through.
    pub buf: Vec<u8>,
}

impl<F> FileUffdMemorySource<F> {
    /// A source on `file`.
    pub fn new(file: F) -> (source: Self)
        ensures
            source.file == file,
            source.buf@ == Seq::<u8>::empty(),
    {
        Self { file, buf: Vec::new() }
    }

    /// Begins to resolve a fault on a page of `range`.
    pub fn resolve(&self, range: &UffdRange, page_idx: u64) -> (fetch: PageFetch)
        requires
            range.addr_of_page(page_idx as int) <= u64::MAX,
            range.source_of_page(page_idx as int) <= u64::MAX,
        ensures
            fetch == PageFetch::of_page(*range, page_idx as int, false, false),
    {
        let page_size = range.page_size;
        let page_addr = range.page_addr(page_idx);
        let file_pos = range.page_source_offset(page_idx);
        PageFetch {
            page_addr,
            source_pos: file_pos,
            page_size,
            shared_backing: false,
            step: PageStep::ReadFile { pos: file_pos, len: page_size },
        }
    }

    /// Makes the buffer hold at least `len` bytes.
    pub fn make_room(&mut self, len: usize)
        requires
            len <= isize::MAX,
        ensures
            final(self).buf@ == with_room(old(self).buf@, len as int),
            final(self).file == old(self).file,
    {
        make_room_in(&mut self.buf, len);
    }
}

/// Memory source that provides pages content over a socket `stream`.
pub struct SocketUffdMemorySource<S> {
    /// The connection to the peer.
    pub stream: S,
    /// The peer writes pages straight into memory that it shares with the guest.
    pub shared_backing: bool,
    /// Where pages pass through.
    pub buf: Vec<u8>,
}

/// How a run of pages is fetched.
#[derive(Debug)]
pub enum PageRun {
    /// Its first page alone.
    Page(PageFetch),
    /// In one request.
    Run(RunFetch),
}

/// Number of pages of a run: those asked for, as far as the range has them.
pub open spec fn run_pages(range: UffdRange, start_page: int, num_pages: int) -> int {
    if num_pages < range.page_count() - start_page {
        num_pages
    } else {
        range.page_count() - start_page
    }
}

/// A run that begins in `range` or at its end can be fetched in one request: its length and the
/// addresses of its pages are machine words.
pub open spec fn run_fits(range: UffdRange, start_page: int, num_pages: int) -> bool {
    let pages = run_pages(range, start_page, num_pages);
    &&& range.page_size > 0
    &&& start_page <= range.page_count()
    &&& pages * range.page_size <= u64::MAX
    &&& pages > 0 ==> range.addr_of_page(start_page + pages - 1) <= u64::MAX
}

/// A page can be fetched: its address and its position for the data source are machine words.
pub fn page_fits(range: &UffdRange, page_idx: u64) -> (ok: bool)
    ensures
        ok == (range.addr_of_page(page_idx as int) <= u64::MAX && range.source_of_page(
            page_idx as int,
        ) <= u64::MAX),
{
    match page_idx.checked_mul(range.page_size) {
        Some(offset) => offset <= u64::MAX - range.host_addr && offset <= u64::MAX
            - range.source_offset,
        None => false,
    }
}

/// A run that begins in `range` or at its end can be fetched in one request.
pub fn run_fetchable(range: &UffdRange, start_page: u64, num_pages: u64) -> (ok: bool)
    ensures
        ok == run_fits(*range, start_page as int, num_pages as int),
{
    if range.page_size == 0 {
        return false;
    }
    let count = range.num_pages();
    if start_page > count {
        return false;
    }
    let left = count - start_page;
    let pages = if num_pages < left {
        num_pages
    } else {
        left
    };
    if pages.checked_mul(range.page_size).is_none() {
        return false;
    }
    if pages == 0 {
        return true;
    }
    match (start_page + (pages - 1)).checked_mul(range.page_size) {
        Some(offset) => offset <= u64::MAX - range.host_addr,
        None => false,
    }
}

/// The fetch of no pages, which is finished before it begins.
pub open spec fn empty_run(range: UffdRange, start_page: int) -> RunFetch {
    RunFetch {
        step: RunStep::Finished { pages: 0 },
        ..RunFetch::of_run(range, start_page, 0)
    }
}

/// How a run of up to `num_pages` pages is fetched: one of no pages is finished, shared backing
/// and one of a single page take its first page alone, and any other takes one request.
pub open spec fn planned_run(
    range: UffdRange,
    shared_backing: bool,
    start_page: int,
    num_pages: int,
) -> PageRun {
    if num_pages == 0 {
        PageRun::Run(empty_run(range, start_page))
    } else if shared_backing || num_pages == 1 {
        PageRun::Page(PageFetch::of_page(range, start_page, true, shared_backing))
    } else {
        PageRun::Run(
            RunFetch::of_run(range, start_page, run_pages(range, start_page, num_pages)),
        )
    }
}

/// Number of pages that a source resolves which installs one page at a time, of a run of up to
/// `num_pages` pages.
pub fn single_run_pages(num_pages: u64) -> (pages: u64)
    ensures
        pages == (if num_pages == 0 {
            0int
        } else {
            1
        }),
{
    if num_pages == 0 {
        0
    } else {
        1
    }
}

impl<S> SocketUffdMemorySource<S> {
    /// A source on `stream`.
    pub fn new(stream: S, shared_backing: bool) -> (source: Self)
        ensures
            source.stream == stream,
            source.shared_backing == shared_backing,
            source.buf@ == Seq::<u8>::empty(),
    {
        Self { stream, shared_backing, buf: Vec::new() }
    }

    /// Begins to resolve a fault on a page of `range`.
    pub fn resolve(&self, range: &UffdRange, page_idx: u64) -> (fetch: PageFetch)
        requires
            range.addr_of_page(page_idx as int) <= u64::MAX,
            range.source_of_page(page_idx as int) <= u64::MAX,
        ensures
            fetch == PageFetch::of_page(*range, page_idx as int, true, self.shared_backing),
    {
        let page_size = range.page_size;
        let page_addr = range.page_addr(page_idx);
        let page_gpa = range.page_source_offset(page_idx);
        PageFetch {
            page_addr,
            source_pos: page_gpa,
            page_size,
            shared_backing: self.shared_backing,
            step: PageStep::Request { gpa: page_gpa, len: page_size },
        }
    }

    /// Begins to resolve a contiguous run of up to `num_pages` pages starting at `start_page`.
    /// A run of no pages is finished at once.
    ///
    /// Shared backing installs each page by waking its faulting thread, so there is nothing to
    /// batch; the inline path transfers the whole run in one request and installs it at once.
    pub fn resolve_run(&self, range: &UffdRange, start_page: u64, num_pages: u64) -> (run: PageRun)
        requires
            range.addr_of_page(start_page as int) <= u64::MAX,
            range.source_of_page(start_page as int) <= u64::MAX,
            self.shared_backing || num_pages <= 1 || run_fits(
                *range,
                start_page as int,
                num_pages as int,
            ),
        ensures
            run == planned_run(
                *range,
                self.shared_backing,
                start_page as int,
                num_pages as int,
            ),
            run matches PageRun::Run(fetch) ==> fetch.valid() && fetch.pages <= num_pages && (
            fetch.pages > 0 ==> start_page + fetch.pages <= range.page_count()),
    {
        let page_size = range.page_size;
        if num_pages == 0 {
            return PageRun::Run(
                RunFetch {
                    start_addr: range.page_addr(start_page),
                    start_gpa: range.page_source_offset(start_page),
                    page_size,
                    pages: 0,
                    step: RunStep::Finished { pages: 0 },
                },
            );
        }
        if self.shared_backing || num_pages == 1 {
            return PageRun::Page(self.resolve(range, start_page));
        }
        let left = range.num_pages() - start_page;
        let pages = if num_pages < left {
            num_pages
        } else {
            left
        };
        let start_addr = range.page_addr(start_page);
        let start_gpa = range.page_source_offset(start_page);
        let bytes = pages * page_size;
        proof {
            if pages > 0 {
                assert((start_page + pages - 1) * page_size == start_page * page_size + (pages - 1)
                    * page_size) by (nonlinear_arith);
            }
        }
        PageRun::Run(
            RunFetch {
                start_addr,
                start_gpa,
                page_size,
                pages,
                step: RunStep::Request { gpa: start_gpa, len: bytes },
            },
        )
    }

    /// Makes the buffer hold at least `len` bytes.
    pub fn make_room(&mut self, len: usize)
        requires
            len <= isize::MAX,
        ensures
            final(self).buf@ == with_room(old(self).buf@, len as int),
            final(self).stream == old(self).stream,
            final(self).shared_backing == old(self).shared_backing,
    {
        make_room_in(&mut self.buf, len);
    }
}

/// Making room loses nothing and never shrinks: the buffer is as long as it has to be and no
/// longer, begins with what it held, and holds zeros behind that.
pub proof fn law_room_keeps_what_is_there(buf: Seq<u8>, len: int)
    ensures
        with_room(buf, len).len() == (if len > buf.len() {
            len
        } else {
            buf.len() as int
        }),
        forall|k: int| 0 <= k < buf.len() ==> #[trigger] with_room(buf, len)[k] == buf[k],
        forall|k: int| buf.len() <= k < len ==> #[trigger] with_room(buf, len)[k] == 0,
{
}

/// A run has the pages that were asked for as far as the range has them: never more than either,
/// and not fewer than both.
pub proof fn law_run_is_cut_to_its_range(range: UffdRange, start_page: int, num_pages: int)
    ensures
        run_pages(range, start_page, num_pages) <= num_pages,
        start_page + run_pages(range, start_page, num_pages) <= range.page_count(),
        run_pages(range, start_page, num_pages) == num_pages || start_page + run_pages(
            range,
            start_page,
            num_pages,
        ) == range.page_count(),
{
}

/// A run fits exactly when its range has a page size, the run begins at one of its pages or at
/// their end, and each of the asked-for pages that the range has begins at a machine word and
/// ends at one in the run's payload.
pub proof fn law_run_fits_while_its_pages_do(range: UffdRange, start_page: int, num_pages: int)
    requires
        0 <= start_page,
        0 <= num_pages,
    ensures
        run_fits(range, start_page, num_pages) <==> {
            &&& range.page_size > 0
            &&& start_page <= range.page_count()
            &&& forall|page: int|
                start_page <= page < start_page + num_pages && page < range.page_count() ==> {
                    &&& #[trigger] range.addr_of_page(page) <= u64::MAX
                    &&& (page - start_page + 1) * range.page_size <= u64::MAX
                }
        },
{
    let ps = range.page_size as int;
    let pages = run_pages(range, start_page, num_pages);
    let last = start_page + pages - 1;
    assert(range.addr_of_page(last) == range.host_addr + last * ps);
    if range.page_size > 0 && start_page <= range.page_count() {
        if run_fits(range, start_page, num_pages) {
            assert forall|page: int|
                start_page <= page < start_page + num_pages && page < range.page_count() implies {
                &&& #[trigger] range.addr_of_page(page) <= u64::MAX
                &&& (page - start_page + 1) * range.page_size <= u64::MAX
            } by {
                assert(page * ps <= last * ps) by (nonlinear_arith)
                    requires
                        page <= last,
                        ps > 0,
                ;
                assert((page - start_page + 1) * ps <= pages * ps) by (nonlinear_arith)
                    requires
                        page - start_page + 1 <= pages,
                        ps > 0,
                ;
            }
        }
        assert(last - start_page + 1 == pages);
        if pages == 0 {
            assert(pages * ps == 0) by (nonlinear_arith)
                requires
                    pages == 0,
            ;
        }
    }
}

/// A run of up to `num_pages` pages begins as it should: one of no pages is finished, shared
/// backing and a single page ask for the first page alone, and any other run asks for all its
/// pages at once, from where the data source has the first of them.
pub proof fn law_run_begins_at_its_first_page(
    range: UffdRange,
    shared_backing: bool,
    start_page: int,
    num_pages: int,
)
    requires
        0 <= start_page,
        0 <= num_pages <= u64::MAX,
        range.host_addr + start_page * range.page_size <= u64::MAX,
        range.source_offset + start_page * range.page_size <= u64::MAX,
        shared_backing || num_pages <= 1 || run_fits(range, start_page, num_pages),
    ensures
        match planned_run(range, shared_backing, start_page, num_pages) {
            PageRun::Page(page) => {
                &&& num_pages >= 1
                &&& shared_backing || num_pages == 1
                &&& page.page_addr == range.host_addr + start_page * range.page_size
                &&& page.source_pos == range.source_offset + start_page * range.page_size
                &&& page.page_size == range.page_size
                &&& page.shared_backing == shared_backing
                &&& page.step == (PageStep::Request { gpa: page.source_pos, len: page.page_size })
            },
            PageRun::Run(run) => {
                &&& run.start_addr == range.host_addr + start_page * range.page_size
                &&& run.start_gpa == range.source_offset + start_page * range.page_size
                &&& run.page_size == range.page_size
                &&& run.pages <= num_pages
                &&& if num_pages == 0 {
                    run.step == (RunStep::Finished { pages: 0 })
                } else {
                    &&& !shared_backing && num_pages >= 2
                    &&& start_page + run.pages <= range.page_count()
                    &&& run.pages == num_pages || start_page + run.pages == range.page_count()
                    &&& run.step matches RunStep::Request { gpa, len } && gpa == run.start_gpa
                        && len == run.pages * run.page_size
                }
            },
        },
{
    assert(start_page * range.page_size >= 0) by (nonlinear_arith)
        requires
            start_page >= 0,
    ;
}

} // verus!
