use perf_kernel::pagetable::PageTableIndex;
use perf_kernel::page::{Page, PageSize, Size4KiB, Size4MiB, VirtAddr};

#[test]
fn test_page_ranges() {
    let page_size = Size4KiB::size();
    let number = 1000;

    let start_addr = VirtAddr::new(0xdead_beaf);
    let start: Page = Page::containing_address(start_addr);
    let end = start + number;

    let mut range = Page::range(start, end);
    for i in 0..number {
        assert_eq!(
            range.next(),
            Some(Page::containing_address(start_addr + page_size * i))
        );
    }
    assert_eq!(range.next(), None);

    let mut range_inclusive = Page::range_inclusive(start, end);
    for i in 0..=number {
        assert_eq!(
            range_inclusive.next(),
            Some(Page::containing_address(start_addr + page_size * i))
        );
    }
    assert_eq!(range_inclusive.next(), None);
}

#[test]
fn containing_address_rounds_down() {
    let p: Page = Page::containing_address(VirtAddr::new(0x1234));
    assert_eq!(p.start_address().as_u32(), 0x1000);
    let q: Page<Size4MiB> = Page::containing_address(VirtAddr::new(0x7f_ffff));
    assert_eq!(q.start_address().as_u32(), 0x40_0000);
}

#[test]
fn from_start_address_checks_alignment() {
    assert!(Page::<Size4KiB>::from_start_address(VirtAddr::new(0x2000)).is_ok());
    assert!(Page::<Size4KiB>::from_start_address(VirtAddr::new(0x2001)).is_err());
    assert!(Page::<Size4MiB>::from_start_address(VirtAddr::new(0x1000)).is_err());
}

#[test]
fn page_add_sub_roundtrip() {
    let p: Page = Page::containing_address(VirtAddr::new(0x5000));
    let q = p + 3;
    assert_eq!(q.start_address().as_u32(), 0x8000);
    assert_eq!(q - 3, p);
}

#[test]
fn empty_ranges() {
    let p: Page = Page::containing_address(VirtAddr::new(0x5000));
    let mut r = Page::range(p, p);
    assert!(r.is_empty());
    assert_eq!(r.next(), None);
    let mut ri = Page::range_inclusive(p, p);
    assert!(!ri.is_empty());
    assert_eq!(ri.next(), Some(p));
    assert!(ri.is_empty());
}

#[test]
fn page_from_table_indices() {
    let p = Page::from_page_table_indices(PageTableIndex::new(3), PageTableIndex::new(5));
    assert_eq!(p.start_address().as_u32(), 3 * 0x40_0000 + 5 * 0x1000);
    let h = Page::from_page_table_indices_4mib(PageTableIndex::new(511));
    assert_eq!(h.start_address().as_u32(), 511 * 0x40_0000);
}

#[test]
fn page_size_debug_texts() {
    assert_eq!(Size4KiB::size_as_debug_str(), "4KiB");
    assert_eq!(Size4MiB::size_as_debug_str(), "4MiB");
}
