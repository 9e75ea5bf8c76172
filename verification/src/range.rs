//! Page geometry of a guest memory range registered with userfaultfd.

use vstd::arithmetic::div_mod::lemma_fundamental_div_mod;
use vstd::arithmetic::power2::pow2;
use vstd::prelude::*;

verus! {

/// Number of pages of `page_size` bytes that cover `length` bytes, the last one possibly partial.
pub open spec fn pages_covering(length: int, page_size: int) -> int {
    (length + page_size - 1) / page_size
}

/// `addr` with the bits below `page_size` cleared.
pub open spec fn page_base(addr: u64, page_size: u64) -> u64 {
    addr & !((page_size - 1) as u64)
}

/// `page_size` is a power of two that fits a machine word.
pub open spec fn is_power_of_two(page_size: u64) -> bool {
    exists|n: nat| n < 64 && page_size == #[trigger] pow2(n)
}

/// Rounded-up division, free of intermediate overflow.
pub fn div_ceil(length: u64, page_size: u64) -> (pages: u64)
    requires
        page_size > 0,
    ensures
        pages == pages_covering(length as int, page_size as int),
{
    let whole: u64 = length / page_size;
    let rest: u64 = length % page_size;
    proof {
        lemma_pages_covering_split(length as int, page_size as int);
    }
    if rest == 0 {
        whole
    } else {
        proof {
            assert(whole < u64::MAX) by (nonlinear_arith)
                requires
                    whole == length / page_size,
                    rest == length % page_size,
                    rest > 0,
                    page_size > 0,
            ;
        }
        whole + 1
    }
}

proof fn lemma_pages_covering_split(length: int, page_size: int)
    requires
        length >= 0,
        page_size > 0,
    ensures
        length % page_size == 0 ==> pages_covering(length, page_size) == length / page_size,
        length % page_size != 0 ==> pages_covering(length, page_size) == length / page_size + 1,
{
    let q = length / page_size;
    let r = length % page_size;
    lemma_fundamental_div_mod(length, page_size);
    if r == 0 {
        vstd::arithmetic::div_mod::lemma_fundamental_div_mod_converse(
            length + page_size - 1,
            page_size,
            q,
            page_size - 1,
        );
    } else {
        assert(page_size * (q + 1) == page_size * q + page_size) by (nonlinear_arith);
        vstd::arithmetic::div_mod::lemma_fundamental_div_mod_converse(
            length + page_size - 1,
            page_size,
            q + 1,
            r - 1,
        );
    }
}

/// The pages covering `length` bytes reach its end, and one page fewer does not.
pub proof fn law_pages_cover_exactly(length: int, page_size: int)
    requires
        length >= 0,
        page_size > 0,
    ensures
        pages_covering(length, page_size) >= 0,
        length <= pages_covering(length, page_size) * page_size,
        (pages_covering(length, page_size) - 1) * page_size < length || length == 0,
        length > 0 ==> pages_covering(length, page_size) > 0,
        length == 0 ==> pages_covering(length, page_size) == 0,
{
    let n = pages_covering(length, page_size);
    lemma_fundamental_div_mod(length + page_size - 1, page_size);
    let r = (length + page_size - 1) % page_size;
    assert(n * page_size == page_size * n) by (nonlinear_arith);
    assert((n - 1) * page_size == n * page_size - page_size) by (nonlinear_arith);
    lemma_pages_covering_split(length, page_size);
    assert(n >= 0) by (nonlinear_arith)
        requires
            n * page_size == length + page_size - 1 - r,
            r < page_size,
            length >= 0,
            page_size > 0,
    ;
    if length > 0 {
        assert(n > 0) by (nonlinear_arith)
            requires
                n * page_size >= length,
                length > 0,
                page_size > 0,
        ;
    } else {
        vstd::arithmetic::div_mod::lemma_basic_div(page_size - 1, page_size);
    }
}

/// The page that holds offset `offset` of a range is one of the pages that cover the range.
pub proof fn law_offset_lies_in_a_page(length: int, page_size: int, offset: int)
    requires
        0 <= offset < length,
        page_size > 0,
    ensures
        0 <= offset / page_size < pages_covering(length, page_size),
        (offset / page_size) * page_size <= offset < (offset / page_size + 1) * page_size,
{
    law_pages_cover_exactly(length, page_size);
    lemma_fundamental_div_mod(offset, page_size);
    let q = offset / page_size;
    let n = pages_covering(length, page_size);
    assert(q * page_size == page_size * q) by (nonlinear_arith);
    assert((q + 1) * page_size == page_size * q + page_size) by (nonlinear_arith);
    assert(q < n) by (nonlinear_arith)
        requires
            q * page_size <= offset,
            offset < length,
            length <= n * page_size,
            page_size > 0,
    ;
    assert(q >= 0) by (nonlinear_arith)
        requires
            (q + 1) * page_size > offset,
            offset >= 0,
            page_size > 0,
    ;
}

/// For a power-of-two page size, clearing the low bits rounds an address down to a page boundary.
pub proof fn law_page_base_rounds_down(addr: u64, page_size: u64)
    requires
        is_power_of_two(page_size),
    ensures
        page_size > 0,
        page_base(addr, page_size) == addr - addr % page_size,
        page_base(addr, page_size) <= addr < page_base(addr, page_size) + page_size,
{
    let n = choose|n: nat| n < 64 && page_size == #[trigger] pow2(n);
    vstd::arithmetic::power2::lemma_pow2_pos(n);
    vstd::bits::lemma_u64_low_bits_mask_is_mod(addr, n);
    let mask = (page_size - 1) as u64;
    assert(addr & !mask == addr - (addr & mask)) by (bit_vector);
    assert(mask == vstd::bits::low_bits_mask(n) as u64);
}

/// A guest memory range registered with userfaultfd, plus where its bytes
/// live for the data source.
#[derive(Debug, Clone, Copy, PartialEq, Eq)]
pub struct UffdRange {
    /// Start of the range in this process's address space.
    pub host_addr: u64,
    /// Length of the range in bytes.
    pub length: u64,
    /// Where the range's first byte lives for the data source.
    pub source_offset: u64,
    /// Page size faults arrive and pages are installed at.
    pub page_size: u64,
}

impl UffdRange {
    /// Number of pages of the range.
    pub open spec fn page_count(self) -> int {
        pages_covering(self.length as int, self.page_size as int)
    }

    /// Address of the first byte of page `page_idx`.
    pub open spec fn addr_of_page(self, page_idx: int) -> int {
        self.host_addr + page_idx * self.page_size
    }

    /// Position of the first byte of page `page_idx` for the data source.
    pub open spec fn source_of_page(self, page_idx: int) -> int {
        self.source_offset + page_idx * self.page_size
    }

    /// The page whose base is that of `addr`, when that base lies in the range.
    pub open spec fn page_holding(self, addr: u64) -> Option<u64> {
        let base = page_base(addr, self.page_size);
        if self.host_addr <= base < self.host_addr + self.length {
            Some(((base - self.host_addr) / self.page_size as int) as u64)
        } else {
            None
        }
    }

    /// Number of pages of the range, counting a partial last page.
    pub fn num_pages(&self) -> (pages: u64)
        requires
            self.page_size > 0,
        ensures
            pages == self.page_count(),
    {
        div_ceil(self.length, self.page_size)
    }

    /// Address of a page in this process.
    pub fn page_addr(&self, page_idx: u64) -> (addr: u64)
        requires
            self.addr_of_page(page_idx as int) <= u64::MAX,
        ensures
            addr == self.addr_of_page(page_idx as int),
    {
        proof {
            assert(page_idx * self.page_size >= 0) by (nonlinear_arith);
        }
        self.host_addr + page_idx * self.page_size
    }

    /// Position of a page for the data source.
    pub fn page_source_offset(&self, page_idx: u64) -> (offset: u64)
        requires
            self.source_of_page(page_idx as int) <= u64::MAX,
        ensures
            offset == self.source_of_page(page_idx as int),
    {
        proof {
            assert(page_idx * self.page_size >= 0) by (nonlinear_arith);
        }
        self.source_offset + page_idx * self.page_size
    }

    /// Index of the page that holds `addr`, or `None` when the base of that page is outside the
    /// range.
    pub fn page_index_of(&self, addr: u64) -> (page_idx: Option<u64>)
        requires
            self.page_size > 0,
            self.host_addr <= page_base(addr, self.page_size) ==> self.host_addr + self.length
                <= u64::MAX,
        ensures
            page_idx == self.page_holding(addr),
    {
        let page_addr: u64 = addr & !(self.page_size - 1);
        if page_addr >= self.host_addr && page_addr < self.host_addr + self.length {
            Some((page_addr - self.host_addr) / self.page_size)
        } else {
            None
        }
    }
}

/// In a range whose start lies on a page boundary, `page_index_of` finds exactly the page that
/// an address lies in: the index it gives is that of a page of the range around the address, and
/// every address of every page of the range is given that page.
pub proof fn law_page_index_inverts_page_addr(range: UffdRange, addr: u64, page_idx: u64)
    requires
        is_power_of_two(range.page_size),
        range.host_addr % range.page_size == 0,
    ensures
        range.page_holding(addr) == Some(page_idx) <==> page_idx < range.page_count()
            && range.addr_of_page(page_idx as int) <= addr < range.addr_of_page(page_idx + 1),
{
    let ps = range.page_size as int;
    let host = range.host_addr as int;
    let i = page_idx as int;
    law_page_base_rounds_down(addr, range.page_size);
    law_pages_cover_exactly(range.length as int, ps);
    let base = page_base(addr, range.page_size) as int;
    let off = base - host;
    lemma_fundamental_div_mod(addr as int, ps);
    lemma_fundamental_div_mod(host, ps);
    let qa = addr as int / ps;
    let qh = host / ps;
    assert(off == ps * (qa - qh)) by (nonlinear_arith)
        requires
            off == ps * qa - ps * qh,
    ;
    let k = qa - qh;
    vstd::arithmetic::div_mod::lemma_fundamental_div_mod_converse(off, ps, k, 0);
    assert((i + 1) * ps == i * ps + ps) by (nonlinear_arith);
    assert(ps * k == k * ps) by (nonlinear_arith);
    if range.page_holding(addr) == Some(page_idx) {
        assert(k < range.page_count()) by (nonlinear_arith)
            requires
                k * ps < range.length,
                range.length <= range.page_count() * ps,
                ps > 0,
        ;
        assert(k >= 0) by (nonlinear_arith)
            requires
                k * ps >= 0,
                ps > 0,
        ;
        assert(k < u64::MAX) by (nonlinear_arith)
            requires
                k * ps < u64::MAX,
                ps >= 1,
                k >= 0,
        ;
        assert(i == k);
    }
    if page_idx < range.page_count() && range.addr_of_page(i) <= addr < range.addr_of_page(i + 1) {
        assert(i == k) by (nonlinear_arith)
            requires
                i * ps <= addr - host < i * ps + ps,
                k * ps <= addr - host < k * ps + ps,
                ps > 0,
        ;
        let n = range.page_count();
        assert(i * ps <= (n - 1) * ps) by (nonlinear_arith)
            requires
                i <= n - 1,
                ps > 0,
        ;
        assert(i * ps >= 0) by (nonlinear_arith)
            requires
                i >= 0,
                ps > 0,
        ;
    }
}


/// The pages of a range cover it: together they reach its end, and without the last they do not.
pub proof fn law_range_is_covered_by_its_pages(range: UffdRange)
    requires
        range.page_size > 0,
    ensures
        range.page_count() >= 0,
        range.page_count() * range.page_size >= range.length,
        range.page_count() > 0 ==> (range.page_count() - 1) * range.page_size < range.length,
{
    law_pages_cover_exactly(range.length as int, range.page_size as int);
}

/// The pages of a range follow one another without a gap, in memory and for the data source: the
/// first page begins where the range does, and each other a page after the one before.
pub proof fn law_pages_follow_one_another(range: UffdRange, page_idx: int)
    ensures
        range.addr_of_page(0) == range.host_addr,
        range.source_of_page(0) == range.source_offset,
        range.addr_of_page(page_idx + 1) == range.addr_of_page(page_idx) + range.page_size,
        range.source_of_page(page_idx + 1) == range.source_of_page(page_idx) + range.page_size,
        range.addr_of_page(page_idx) - range.host_addr == page_idx * range.page_size,
        range.source_of_page(page_idx) - range.source_offset == page_idx * range.page_size,
{
    let ps = range.page_size as int;
    assert((page_idx + 1) * ps == page_idx * ps + ps) by (nonlinear_arith);
}

/// A page index goes by the base of the address, which is the address with the bits below the
/// page size cleared, whatever the page size and wherever the range starts: a base outside the
/// range has no index, and any other the number of whole pages between the start of the range
/// and the base.
pub proof fn law_page_index_goes_by_the_base(range: UffdRange, addr: u64, base: u64, page_idx: u64)
    requires
        range.page_size > 0,
        base & ((range.page_size - 1) as u64) == 0,
        base | (addr & ((range.page_size - 1) as u64)) == addr,
    ensures
        range.page_holding(addr) is Some <==> range.host_addr <= base < range.host_addr
            + range.length,
        range.page_holding(addr) == Some(page_idx) <==> range.host_addr <= base < range.host_addr
            + range.length && page_idx * range.page_size <= base - range.host_addr < (page_idx + 1)
            * range.page_size,
{
    let mask = (range.page_size - 1) as u64;
    assert(base == addr & !mask) by (bit_vector)
        requires
            base & mask == 0,
            base | (addr & mask) == addr,
    ;
    if range.host_addr <= base < range.host_addr + range.length {
        let ps = range.page_size as int;
        let off = base - range.host_addr;
        let q = off / ps;
        let i = page_idx as int;
        lemma_fundamental_div_mod(off, ps);
        assert(q * ps <= off < (q + 1) * ps && 0 <= q <= off) by (nonlinear_arith)
            requires
                off == ps * q + off % ps,
                0 <= off % ps < ps,
                off >= 0,
        ;
        if i * ps <= off < (i + 1) * ps {
            assert(i == q) by (nonlinear_arith)
                requires
                    i * ps <= off < (i + 1) * ps,
                    q * ps <= off < (q + 1) * ps,
                    ps > 0,
            ;
        }
    }
}

} // verus!
