use uffd_pager::range::{div_ceil, UffdRange};

const PAGE: u64 = 4096;

fn range(length: u64) -> UffdRange {
    UffdRange { host_addr: 0x10000, length, source_offset: 512, page_size: PAGE }
}

#[test]
fn division_rounds_up() {
    assert_eq!(div_ceil(0, PAGE), 0);
    assert_eq!(div_ceil(1, PAGE), 1);
    assert_eq!(div_ceil(PAGE, PAGE), 1);
    assert_eq!(div_ceil(PAGE + 1, PAGE), 2);
    assert_eq!(div_ceil(10, 3), 4);
    assert_eq!(div_ceil(u64::MAX, 1), u64::MAX);
    assert_eq!(div_ceil(u64::MAX, 2), 1 << 63);
}

#[test]
fn partial_last_page_counts() {
    assert_eq!(range(4097).num_pages(), 2);
    assert_eq!(range(0).num_pages(), 0);
    assert_eq!(range(3 * PAGE).num_pages(), 3);
}

#[test]
fn pages_have_addresses_and_source_offsets() {
    let r = range(3 * PAGE);
    assert_eq!(r.page_addr(0), 0x10000);
    assert_eq!(r.page_addr(2), 0x12000);
    assert_eq!(r.page_source_offset(0), 512);
    assert_eq!(r.page_source_offset(2), 512 + 2 * PAGE);
}

#[test]
fn page_index_inverts_page_addr() {
    let r = range(2 * PAGE + 100);
    for page in 0..r.num_pages() {
        let addr = r.page_addr(page);
        assert_eq!(r.page_index_of(addr), Some(page));
        assert_eq!(r.page_index_of(addr + 1), Some(page));
        assert_eq!(r.page_index_of(addr + PAGE - 1), Some(page));
    }
    assert_eq!(r.page_index_of(0xffff), None);
    assert_eq!(r.page_index_of(0x10000 + 3 * PAGE), None);
}

#[test]
fn page_index_goes_by_the_base_of_the_page() {
    let r = UffdRange { host_addr: 0x10800, length: PAGE, source_offset: 0, page_size: PAGE };
    assert_eq!(r.page_index_of(0x10900), None);
    assert_eq!(r.page_index_of(0x11000), Some(0));
    assert_eq!(r.page_index_of(0x11fff), Some(0));
}

#[test]
fn odd_page_size_clears_its_bits() {
    let r = UffdRange { host_addr: 0, length: 64, source_offset: 0, page_size: 6 };
    // 13 & !5 == 8
    assert_eq!(r.page_index_of(13), Some(1));
}

#[test]
fn range_below_the_page_needs_no_end() {
    let r = UffdRange { host_addr: u64::MAX, length: 2, source_offset: 0, page_size: PAGE };
    assert_eq!(r.page_index_of(0x5000), None);
}
