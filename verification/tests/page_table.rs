use kernel_mm::common::ResponseLabel;
use kernel_mm::hal::{PageTableImpl, KERNEL_OFFSET};
use kernel_mm::page_table::{map_kernel_window, MutPageTableWrapper, PageTable, SearchResult};

const K: u64 = KERNEL_OFFSET;
const GIB: u64 = 0x4000_0000;

#[test]
fn get_index_per_level() {
    assert_eq!(PageTableImpl::get_index(0x4020_1000, 0), Some(1));
    assert_eq!(PageTableImpl::get_index(0x4020_1000, 1), Some(1));
    assert_eq!(PageTableImpl::get_index(0x4020_1000, 2), Some(1));
    assert_eq!(PageTableImpl::get_index(0x1000_0000_0000, 0), Some(0));
    assert_eq!(PageTableImpl::get_index(K, 0), Some(256));
    assert_eq!(PageTableImpl::get_index(K + GIB, 0), Some(257));
    assert_eq!(PageTableImpl::get_index(0x4020_1000, 3), None);
}

#[test]
fn get_size_per_level() {
    assert_eq!(PageTableImpl::get_size(0), Some(0x4000_0000));
    assert_eq!(PageTableImpl::get_size(1), Some(0x20_0000));
    assert_eq!(PageTableImpl::get_size(2), Some(0x1000));
    assert_eq!(PageTableImpl::get_size(3), None);
}

#[test]
fn default_entry_is_invalid() {
    let e = kernel_mm::hal::PageTableEntryImpl::default();
    assert!(!e.valid());
    assert!(!e.is_leaf());
}

#[test]
fn boot_window() {
    let mut root = PageTable::new();
    let r = map_kernel_window(&mut root, K + 0x8000_0000);
    assert!(r.is_ok());
    assert_eq!(root.lookup_frame(K), Some((0, 0, true, true, true)));
    assert_eq!(root.lookup_frame(K + GIB), Some((0, GIB, true, true, true)));
    let mut mapped: usize = 0;
    for i in 0..512u64 {
        if root.lookup_frame(i << 30).is_some() {
            mapped += 1;
            assert!(i == 256 || i == 257);
        }
    }
    assert_eq!(mapped, 2);
}

#[test]
fn empty_boot_window() {
    let mut root = PageTable::new();
    assert!(map_kernel_window(&mut root, K).is_ok());
    for i in 0..512u64 {
        assert_eq!(root.lookup_frame(i << 30), None);
    }
}

#[test]
fn map_kernel_single_stride() {
    let mut w = MutPageTableWrapper::new(PageTable::new());
    assert_eq!(w.map_kernel(K + GIB, K + GIB), Ok(GIB));
    let t = w.into_inner();
    assert_eq!(t.lookup_frame(K + GIB), Some((0, GIB, true, true, true)));
}

#[test]
fn map_kernel_rejects_misaligned() {
    let mut w = MutPageTableWrapper::new(PageTable::new());
    assert!(w.map_kernel(K + 0x1000, K).is_err());
    assert!(w.map_kernel(K, K + 0x1000).is_err());
    let t = w.into_inner();
    assert!(t.equals(&PageTable::new()));
}

#[test]
fn user_map_happy_path() {
    let v = 0x1000_0000_0000u64;
    let pa_a = K + 0x1000;
    let pa_b = K + 0x2000;
    let mut w = MutPageTableWrapper::new(PageTable::new());
    assert_eq!(w.map_page_table(v, pa_a), Ok(1));
    assert_eq!(w.map_page_table(v, pa_b), Ok(2));
    assert_eq!(w.map_frame(v, 0xdead_0000, false, true, true), Ok(()));
    assert_eq!(
        w.table().lookup_frame(v),
        Some((2, 0xdead_0000u64.wrapping_sub(K), false, true, true))
    );
    assert_eq!(w.unmap_frame(v), Ok(()));
    assert_eq!(w.unmap_frame(v), Err(ResponseLabel::InvalidParam));
}

#[test]
fn second_map_frame_fails_without_change() {
    let v = 0x1000_0000_0000u64;
    let mut w = MutPageTableWrapper::new(PageTable::new());
    assert_eq!(w.map_page_table(v, K + 0x1000), Ok(1));
    assert_eq!(w.map_page_table(v, K + 0x2000), Ok(2));
    assert_eq!(w.map_frame(v, 0xdead_0000, false, true, true), Ok(()));
    assert_eq!(
        w.map_frame(v, 0xbeef_0000, true, true, true),
        Err(ResponseLabel::MappedAlready)
    );
    let t = w.into_inner();
    assert_eq!(
        t.lookup_frame(v),
        Some((2, 0xdead_0000u64.wrapping_sub(K), false, true, true))
    );
}

#[test]
fn second_map_page_table_fails() {
    let v = 0x1000_0000_0000u64;
    let mut w = MutPageTableWrapper::new(PageTable::new());
    assert_eq!(w.map_page_table(v, K + 0x1000), Ok(1));
    assert_eq!(w.map_page_table(v, K + 0x2000), Ok(2));
    assert_eq!(
        w.map_page_table(v, K + 0x3000),
        Err(ResponseLabel::MappedAlready)
    );
}

#[test]
fn missing_intermediate() {
    let mut w = MutPageTableWrapper::new(PageTable::new());
    assert_eq!(
        w.map_frame(0x2000_0000_0000, 0xbeef_0000, true, true, true),
        Err(ResponseLabel::PageTableMiss)
    );
    let t = w.into_inner();
    assert!(t.equals(&PageTable::new()));
}

#[test]
fn misalignment_rejected_everywhere() {
    let mut w = MutPageTableWrapper::new(PageTable::new());
    assert_eq!(
        w.map_frame(0x2000_0000_0001, 0xbeef_0000, true, true, true),
        Err(ResponseLabel::InvalidParam)
    );
    assert_eq!(
        w.map_frame(0x2000_0000_0000, 0xbeef_0001, true, true, true),
        Err(ResponseLabel::InvalidParam)
    );
    assert_eq!(
        w.map_page_table(0x2000_0000_0001, K + 0x1000),
        Err(ResponseLabel::InvalidParam)
    );
    assert_eq!(
        w.map_page_table(0x2000_0000_0000, K + 0x1001),
        Err(ResponseLabel::InvalidParam)
    );
    assert_eq!(w.unmap_frame(0x2000_0000_0001), Err(ResponseLabel::InvalidParam));
    assert_eq!(
        w.unmap_page_table(0x2000_0000_0001, K + 0x1000, 2),
        Err(ResponseLabel::InvalidParam)
    );
    assert_eq!(
        w.unmap_page_table(0x2000_0000_0000, K + 0x1001, 2),
        Err(ResponseLabel::InvalidParam)
    );
    assert!(w
        .map_root_task_frame(0x2000_0000_0001, 0x1_0000, true, true, true)
        .is_err());
    assert!(w
        .map_root_task_frame(0x2000_0000_0000, 0x1_0001, true, true, true)
        .is_err());
    let t = w.into_inner();
    assert!(t.equals(&PageTable::new()));
}

#[test]
fn roundtrip_restores_tree() {
    let v = 0x1000_0000_0000u64;
    let pa_a = K + 0x1000;
    let pa_b = K + 0x2000;

    let mut w = MutPageTableWrapper::new(PageTable::new());
    assert_eq!(w.map_page_table(v, pa_a), Ok(1));
    assert_eq!(w.map_page_table(v, pa_b), Ok(2));
    let reference = w.into_inner();

    let mut w = MutPageTableWrapper::new(PageTable::new());
    assert_eq!(w.map_page_table(v, pa_a), Ok(1));
    assert_eq!(w.map_page_table(v, pa_b), Ok(2));
    assert_eq!(w.map_frame(v, 0xdead_0000, false, true, true), Ok(()));
    assert_eq!(w.unmap_frame(v), Ok(()));
    let t = w.into_inner();

    assert!(t.equals(&reference));
}

#[test]
fn teardown_ordering() {
    let v = 0x1000_0000_0000u64;
    let pa_a = K + 0x1000;
    let pa_b = K + 0x2000;
    let mut w = MutPageTableWrapper::new(PageTable::new());
    assert_eq!(w.map_page_table(v, pa_a), Ok(1));
    assert_eq!(w.map_page_table(v, pa_b), Ok(2));
    assert_eq!(w.map_frame(v, 0xdead_0000, false, true, true), Ok(()));

    assert_eq!(
        w.unmap_page_table(v, pa_b, 2),
        Err(ResponseLabel::MappedAlready)
    );
    // With a bound past the leaf's level the walk finds the leaf itself.
    assert_eq!(
        w.unmap_page_table(v, pa_b, 4),
        Err(ResponseLabel::MappedAlready)
    );
    assert_eq!(w.unmap_frame(v), Ok(()));
    assert_eq!(w.unmap_page_table(v, pa_a, 2), Err(ResponseLabel::InvalidParam));
    assert_eq!(w.unmap_page_table(v, pa_b, 2), Ok(()));
    assert_eq!(
        w.map_frame(v, 0xdead_0000, false, true, true),
        Err(ResponseLabel::PageTableMiss)
    );
}

#[test]
fn auto_populate() {
    let v = 0x3000_0000_0000u64;
    let mut w = MutPageTableWrapper::new(PageTable::new());
    assert_eq!(w.map_root_task_frame(v, 0x1_0000, true, true, true), Ok(()));
    assert_eq!(
        w.map_frame(v, 0x2_0000, true, true, true),
        Err(ResponseLabel::MappedAlready)
    );
    assert_eq!(w.map_root_task_frame(v, 0x2_0000, false, false, true), Ok(()));
    let t = w.into_inner();
    assert_eq!(
        t.lookup_frame(v),
        Some((2, 0x1_0000u64.wrapping_sub(K), true, true, true))
    );
}

#[test]
fn teardown_refuses_while_subtree_holds_frame() {
    let v = 0x3000_0000_0000u64;
    let mut w = MutPageTableWrapper::new(PageTable::new());
    assert_eq!(w.map_root_task_frame(v, 0x1_0000, true, true, true), Ok(()));
    // Auto-allocated directories record physical address 0, whose
    // kernel-linear form is KERNEL_OFFSET itself.
    assert_eq!(w.unmap_page_table(v, K, 2), Err(ResponseLabel::MappedAlready));
    assert_eq!(w.unmap_page_table(v, K, 1), Err(ResponseLabel::MappedAlready));
    assert_eq!(w.unmap_frame(v), Ok(()));
    assert_eq!(w.unmap_page_table(v, K, 2), Ok(()));
}

#[test]
fn teardown_with_misaligned_paddr_is_rejected_first() {
    // A level-0 kernel leaf lies on the bounded walk's path, but the
    // misaligned physical address is rejected before the walk runs.
    let mut w = MutPageTableWrapper::new(PageTable::new());
    assert_eq!(w.map_kernel(K, K), Ok(GIB));
    assert_eq!(w.unmap_page_table(K, K + 1, 2), Err(ResponseLabel::InvalidParam));
    // With an aligned physical address the walk runs and finds the leaf.
    assert_eq!(w.unmap_page_table(K, K, 2), Err(ResponseLabel::MappedAlready));
}

#[test]
fn search_levels() {
    let v = 0x1000_0000_0000u64;
    let mut w = MutPageTableWrapper::new(PageTable::new());
    assert_eq!(w.search(v, 3), SearchResult::Missing(0));
    assert_eq!(w.map_page_table(v, K + 0x1000), Ok(1));
    assert_eq!(w.search(v, 3), SearchResult::Missing(1));
    assert_eq!(w.map_page_table(v, K + 0x2000), Ok(2));
    assert_eq!(w.search(v, 3), SearchResult::Missing(2));
    assert_eq!(w.map_frame(v, 0xdead_0000, false, true, true), Ok(()));
    assert_eq!(w.search(v, 3), SearchResult::Found(2));
    assert_eq!(w.search(v, 9), SearchResult::Found(2));
    assert_eq!(w.search(v, 1), SearchResult::Missing(1));
    assert_eq!(w.search(v, 0), SearchResult::Missing(0));
    match w.search(v, 3) {
        SearchResult::Found(level) => assert!(level < 3),
        SearchResult::Missing(level) => assert!(level <= 3),
    }
}

#[test]
fn search_depth_bound_on_other_addresses() {
    let mut w = MutPageTableWrapper::new(PageTable::new());
    assert_eq!(w.map_root_task_frame(0x3000_0000_0000, 0x1_0000, true, true, true), Ok(()));
    for vaddr in [0u64, 0x3000_0000_0000, 0x3000_0020_0000, 0x7fff_ffff_f000] {
        match w.search(vaddr, 3) {
            SearchResult::Found(level) => assert!(level < 3),
            SearchResult::Missing(level) => assert!(level <= 3),
        }
    }
}
