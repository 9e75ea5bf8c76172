use uffd_pager::capture::{
    ranges_capturable, CaptureAction, CaptureRange, PageCapture, WriteProtectCapture,
};
use uffd_pager::userfaultfd::{UffdioRange, UffdioWriteprotect};

const PAGE: u64 = 16;

fn range(host_addr: u64, length: u64, out_offset: u64) -> CaptureRange {
    CaptureRange { host_addr, length, out_offset, page_size: PAGE }
}

/// Guest memory from address 0 on, with write protection per byte, and the output of a capture.
struct Guest {
    memory: Vec<u8>,
    protected: Vec<bool>,
    output: Vec<Option<u8>>,
    order: Vec<u64>,
}

impl Guest {
    fn armed(size: usize, ranges: &[CaptureRange]) -> Guest {
        let mut protected = vec![false; size];
        for r in ranges {
            for a in r.host_addr..r.host_addr + r.num_pages() * r.page_size {
                protected[a as usize] = true;
            }
        }
        let memory = (0..size).map(|a| (a % 251) as u8).collect();
        Guest { memory, protected, output: vec![None; size], order: Vec::new() }
    }

    /// The guest scribbles over everything that is not protected.
    fn scribble(&mut self) {
        for a in 0..self.memory.len() {
            if !self.protected[a] {
                self.memory[a] = 0xff;
            }
        }
    }

    fn copy(&mut self, page: PageCapture) {
        self.order.push(page.page_addr);
        for k in 0..page.len {
            let slot = &mut self.output[(page.out_offset + k) as usize];
            assert_eq!(*slot, None, "a byte is captured once");
            *slot = Some(self.memory[(page.page_addr + k) as usize]);
        }
    }

    fn release(&mut self, page: PageCapture) {
        for k in 0..page.page_size {
            self.protected[(page.page_addr + k) as usize] = false;
        }
    }
}

/// Runs a capture, with `faults[i]` pending at the `i`-th time that faults are drained.
fn run(guest: &mut Guest, ranges: Vec<CaptureRange>, faults: &[Vec<u64>]) {
    let mut capture = WriteProtectCapture::new(ranges);
    let mut round = 0;
    let mut at = 0;
    loop {
        match capture.action() {
            CaptureAction::ReadFault => {
                guest.scribble();
                let pending = faults.get(round).and_then(|f| f.get(at).copied());
                match pending {
                    Some(_) => at += 1,
                    None => {
                        round += 1;
                        at = 0;
                    }
                }
                capture.fault_read(pending);
            }
            CaptureAction::CopyPage(page) => {
                guest.copy(page);
                guest.scribble();
                capture.page_copied();
            }
            CaptureAction::ReleasePage(page) => {
                assert_eq!(guest.order.last(), Some(&page.page_addr), "copied, then released");
                guest.release(page);
                guest.scribble();
                capture.page_released();
            }
            CaptureAction::Finished => return,
            CaptureAction::Failed => panic!("no call failed"),
        }
    }
}

fn check_image(guest: &Guest, ranges: &[CaptureRange]) {
    for r in ranges {
        for k in 0..r.length {
            let armed = ((r.host_addr + k) % 251) as u8;
            assert_eq!(guest.output[(r.out_offset + k) as usize], Some(armed));
        }
    }
}

#[test]
fn a_quiet_capture_goes_in_order() {
    let ranges = vec![range(64, 40, 0), range(160, 32, 100)];
    let mut guest = Guest::armed(256, &ranges);
    run(&mut guest, ranges.clone(), &[]);
    assert_eq!(guest.order, vec![64, 80, 96, 160, 176]);
    check_image(&guest, &ranges);
}

#[test]
fn a_faulted_page_goes_first() {
    let ranges = vec![range(64, 48, 0), range(160, 32, 100)];
    let mut guest = Guest::armed(256, &ranges);
    run(&mut guest, ranges.clone(), &[vec![180, 90], vec![180, 5]]);
    assert_eq!(guest.order, vec![176, 80, 64, 96, 160]);
    check_image(&guest, &ranges);
}

#[test]
fn every_page_is_captured_once_under_repeated_faults() {
    let ranges = vec![range(64, 48, 0)];
    let mut guest = Guest::armed(256, &ranges);
    run(&mut guest, ranges.clone(), &[vec![70, 70, 64, 100, 111, 90, 64]]);
    assert_eq!(guest.order, vec![64, 96, 80]);
    check_image(&guest, &ranges);
}

#[test]
fn faults_are_drained_before_a_capture_ends() {
    let mut capture = WriteProtectCapture::new(vec![range(64, 16, 0)]);
    assert_eq!(capture.action(), CaptureAction::ReadFault);
    capture.fault_read(Some(64));
    assert!(matches!(capture.action(), CaptureAction::CopyPage(_)));
    capture.page_copied();
    assert!(matches!(capture.action(), CaptureAction::ReleasePage(_)));
    capture.page_released();
    assert_eq!(capture.action(), CaptureAction::ReadFault);
    capture.fault_read(Some(65));
    assert_eq!(capture.action(), CaptureAction::ReadFault);
    capture.fault_read(None);
    assert_eq!(capture.action(), CaptureAction::Finished);
}

#[test]
fn the_background_pass_ends_a_capture_at_once() {
    let mut capture = WriteProtectCapture::new(vec![range(64, 16, 0)]);
    capture.fault_read(None);
    capture.page_copied();
    capture.page_released();
    assert_eq!(capture.action(), CaptureAction::Finished);
}

#[test]
fn a_release_covers_the_whole_page_and_wakes() {
    let page = range(64, 20, 100).page(1);
    let request = page.release();
    assert_eq!(request.range, UffdioRange { start: 80, len: 16 });
    assert_eq!(request.mode, 0);
    assert_eq!(request, UffdioWriteprotect::new(80, 16, false, false));
}

#[test]
fn a_page_is_released_only_after_it_was_copied() {
    let page = PageCapture { page_addr: 64, len: 16, out_offset: 0, page_size: 16 };
    let mut capture = WriteProtectCapture::new(vec![range(64, 32, 0)]);
    capture.fault_read(None);
    assert_eq!(capture.action(), CaptureAction::CopyPage(page));
    capture.page_copied();
    assert_eq!(capture.action(), CaptureAction::ReleasePage(page));
    capture.page_released();
    assert_eq!(capture.action(), CaptureAction::ReadFault);
}

#[test]
fn a_failed_call_ends_a_capture() {
    let mut capture = WriteProtectCapture::new(vec![range(64, 32, 0)]);
    capture.call_failed();
    assert_eq!(capture.action(), CaptureAction::Failed);

    let mut capture = WriteProtectCapture::new(vec![range(64, 32, 0)]);
    capture.fault_read(None);
    assert!(matches!(capture.action(), CaptureAction::CopyPage(_)));
    capture.call_failed();
    assert_eq!(capture.action(), CaptureAction::Failed);

    let mut capture = WriteProtectCapture::new(vec![range(64, 32, 0)]);
    capture.fault_read(Some(90));
    capture.page_copied();
    assert!(matches!(capture.action(), CaptureAction::ReleasePage(_)));
    capture.call_failed();
    assert_eq!(capture.action(), CaptureAction::Failed);
}

#[test]
fn a_failed_copy_leaves_the_rest_protected() {
    let ranges = vec![range(64, 48, 0)];
    let mut guest = Guest::armed(256, &ranges);
    let mut capture = WriteProtectCapture::new(ranges);
    loop {
        guest.scribble();
        match capture.action() {
            CaptureAction::ReadFault => capture.fault_read(None),
            CaptureAction::CopyPage(page) if page.page_addr == 80 => capture.call_failed(),
            CaptureAction::CopyPage(page) => {
                guest.copy(page);
                capture.page_copied();
            }
            CaptureAction::ReleasePage(page) => {
                guest.release(page);
                capture.page_released();
            }
            CaptureAction::Finished => panic!("a copy failed"),
            CaptureAction::Failed => break,
        }
    }
    assert_eq!(guest.order, vec![64]);
    for a in 64..80 {
        assert!(!guest.protected[a]);
        assert_eq!(guest.output[a - 64], Some(a as u8));
    }
    for a in 80..112 {
        assert!(guest.protected[a]);
        assert_eq!(guest.memory[a], a as u8);
    }
}

#[test]
fn ranges_may_share_output_and_empty_ranges_may_lie_anywhere() {
    let ranges = vec![range(64, 16, 0), range(70, 0, 4), range(96, 16, 0)];
    let mut capture = WriteProtectCapture::new(ranges);
    let mut handed = Vec::new();
    loop {
        match capture.action() {
            CaptureAction::ReadFault => capture.fault_read(None),
            CaptureAction::CopyPage(page) => {
                handed.push((page.page_addr, page.out_offset));
                capture.page_copied();
            }
            CaptureAction::ReleasePage(_) => capture.page_released(),
            CaptureAction::Finished => break,
            CaptureAction::Failed => panic!("no call failed"),
        }
    }
    assert_eq!(handed, vec![(64, 0), (96, 0)]);
}

#[test]
fn faults_outside_the_ranges_are_passed_over() {
    let mut capture = WriteProtectCapture::new(vec![range(64, 20, 0)]);
    for addr in [0, 63, 84, u64::MAX] {
        capture.fault_read(Some(addr));
        assert_eq!(capture.action(), CaptureAction::ReadFault);
    }
}

#[test]
fn a_partial_page_is_copied_in_part_and_released_whole() {
    let r = range(64, 20, 100);
    assert_eq!(r.num_pages(), 2);
    assert_eq!(
        r.page(1),
        PageCapture { page_addr: 80, len: 4, out_offset: 116, page_size: 16 }
    );
}

#[test]
fn empty_ranges_have_no_pages() {
    let ranges = vec![range(0, 0, 0), range(64, 32, 0), range(128, 0, 32), range(160, 16, 32)];
    let mut guest = Guest::armed(256, &ranges);
    run(&mut guest, ranges.clone(), &[]);
    assert_eq!(guest.order, vec![64, 80, 160]);
    check_image(&guest, &ranges);
    assert_eq!(WriteProtectCapture::new(Vec::new()).action(), CaptureAction::Finished);
}

#[test]
fn the_first_of_overlapping_ranges_has_the_fault() {
    let mut capture = WriteProtectCapture::new(vec![range(64, 32, 0), range(80, 32, 100)]);
    capture.fault_read(Some(85));
    assert_eq!(
        capture.action(),
        CaptureAction::CopyPage(PageCapture {
            page_addr: 80,
            len: 16,
            out_offset: 16,
            page_size: 16
        })
    );
}

#[test]
fn ranges_must_be_capturable() {
    assert!(ranges_capturable(&[]));
    assert!(ranges_capturable(&[range(64, 40, 0), range(160, 32, 100)]));
    let no_page = CaptureRange { host_addr: 0, length: 1, out_offset: 0, page_size: 0 };
    assert!(!ranges_capturable(&[range(64, 40, 0), no_page]));
    assert!(!ranges_capturable(&[range(u64::MAX - 15, 32, 0)]));
    assert!(ranges_capturable(&[range(u64::MAX - 15, 16, 0)]));
    assert!(!ranges_capturable(&[range(0, 32, u64::MAX - 15)]));
    let bytes = CaptureRange { host_addr: 0, length: u64::MAX, out_offset: 0, page_size: 1 };
    assert!(!ranges_capturable(&[bytes]));
}
