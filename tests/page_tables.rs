use silicium::address::HEAP_START;
use silicium::frame::{Frame, ALLOC_NONE};
use silicium::frame_alloc::Allocator;
use silicium::frame_state::{MemoryKind, MemoryRegion, State};
use silicium::page_table::PageTables;
use silicium::paging::{
    MapError, PageFaultType, FAULT_INSTRUCTION_FETCH, FAULT_PROTECTION_VIOLATION, PAGE_NO_EXECUTE,
    PAGE_PRESENT, PAGE_WRITABLE, PF_MISSING_PAGE, PF_NOT_EXECUTABLE, PF_NOT_MAPPABLE,
};
use silicium::vmm::{AllocationError, Vmalloc, VMM_ATOMIC, VMM_MAP, VMM_NONE, VMM_ZEROED};

fn machine() -> (Allocator, State, PageTables) {
    let map = vec![MemoryRegion { base: 0, len: 8 * 1024 * 1024, kind: MemoryKind::Usable }];
    let mut state = State::uninitialized();
    let stats = state.setup(&map);
    let mut alloc = Allocator::new();
    alloc.setup(stats);
    let tables = PageTables::new(&mut alloc, &mut state).unwrap();
    (alloc, state, tables)
}

#[test]
fn mapping_round_trip() {
    let (mut alloc, mut state, mut t) = machine();
    let v = 0xFFFF_A000_0040_2000u64;
    let p = Frame::new(0x20_0000);
    assert_eq!(t.translate(v), None);
    assert_eq!(t.map(&mut alloc, &mut state, v, p, PAGE_PRESENT | PAGE_WRITABLE), Ok(()));
    assert_eq!(t.translate(v), Some(0x20_0000));
    assert_eq!(t.translate(v + 0x123), Some(0x20_0123));
    assert_eq!(t.protection(v), Some(PAGE_PRESENT | PAGE_WRITABLE));
    assert_eq!(
        t.map(&mut alloc, &mut state, v, p, PAGE_PRESENT),
        Err(MapError::AlreadyMapped)
    );
    assert_eq!(t.unmap(v), Some(0x20_0000));
    assert_eq!(t.translate(v), None);
    assert_eq!(t.unmap(v), None);
    // The neighbouring page shares the tables but was never mapped.
    assert_eq!(t.translate(v + 0x1000), None);
}

#[test]
fn null_frame_gets_a_fresh_frame() {
    let (mut alloc, mut state, mut t) = machine();
    let before = alloc.statistics().allocated;
    assert_eq!(t.map(&mut alloc, &mut state, 0x40_0000, Frame::null(), PAGE_PRESENT), Ok(()));
    let p = t.translate(0x40_0000).unwrap();
    assert_ne!(p, 0);
    // Three intermediate tables and the page itself.
    assert_eq!(alloc.statistics().allocated, before + 4);
}

#[test]
fn protection_can_be_tightened() {
    let (mut alloc, mut state, mut t) = machine();
    let v = 0x7000_0000u64;
    t.map(&mut alloc, &mut state, v, Frame::new(0x30_0000), PAGE_PRESENT | PAGE_WRITABLE).unwrap();
    assert_eq!(t.change_protection(v, PAGE_PRESENT), Some(PAGE_PRESENT | PAGE_WRITABLE));
    assert_eq!(t.protection(v), Some(PAGE_PRESENT));
    assert_eq!(t.translate(v), Some(0x30_0000));
    assert_eq!(t.change_protection(v + 0x1000, PAGE_PRESENT), None);
}

#[test]
fn heap_demand_paging_scenario() {
    let (mut alloc, mut state, mut t) = machine();
    let v = Vmalloc::setup();
    let r = t.handle_page_fault(&mut alloc, &mut state, &v, 0, HEAP_START);
    assert_eq!(r, Ok(PageFaultType::DemandPaging));
    assert!(t.translate(HEAP_START).is_some());
    assert_eq!(t.protection(HEAP_START), Some(PAGE_PRESENT | PAGE_WRITABLE | PAGE_NO_EXECUTE));
    // A second fault on the page is a stale translation.
    let again = t.handle_page_fault(&mut alloc, &mut state, &v, 0, HEAP_START + 8);
    assert_eq!(again, Ok(PageFaultType::LazyTlbInvalidation));
}

#[test]
fn vmalloc_demand_paging_scenario() {
    let (mut alloc, mut state, mut t) = machine();
    let mut v = Vmalloc::setup();
    let range = v.allocate(12 * 1024, VMM_MAP | VMM_ZEROED).unwrap();
    let before = alloc.statistics().allocated;
    for page in 0..3u64 {
        let r = t.handle_page_fault(&mut alloc, &mut state, &v, 0, range.start + page * 4096 + 5);
        assert_eq!(r, Ok(PageFaultType::DemandPaging));
    }
    // Three pages, and three tables on the way to them.
    assert_eq!(alloc.statistics().allocated, before + 6);
    for page in 0..3u64 {
        let p = t.translate(range.start + page * 4096).unwrap();
        assert!(state.get_frame_info(p).unwrap().zeroed);
    }
    let area = t.free_area(&mut alloc, &mut state, &mut v, range);
    assert_eq!(area.flags & VMM_MAP, VMM_MAP);
    for page in 0..3u64 {
        assert_eq!(t.translate(range.start + page * 4096), None);
    }
    assert_eq!(alloc.statistics().allocated, before + 3);
    assert!(v.used.is_empty());
    assert_eq!(alloc.allocate(&mut state, ALLOC_NONE).map(|f| f.start() != 0), Some(true));
}

#[test]
fn unmapped_areas_cannot_be_populated() {
    let (mut alloc, mut state, mut t) = machine();
    let mut v = Vmalloc::setup();
    let range = v.allocate(4096, VMM_NONE).unwrap();
    let r = t.handle_page_fault(&mut alloc, &mut state, &v, 0, range.start);
    assert_eq!(r, Err(PF_NOT_MAPPABLE | PF_MISSING_PAGE));
    let user = t.handle_page_fault(&mut alloc, &mut state, &v, 0, 0x1000);
    assert_eq!(user, Err(PF_MISSING_PAGE));
}

#[test]
fn no_execute_fetch_is_fatal() {
    let (mut alloc, mut state, mut t) = machine();
    let v = Vmalloc::setup();
    let page = 0xFFFF_8000_0010_0000u64;
    let flags = PAGE_PRESENT | PAGE_WRITABLE | PAGE_NO_EXECUTE;
    t.map(&mut alloc, &mut state, page, Frame::new(0x10_0000), flags).unwrap();
    let code = FAULT_PROTECTION_VIOLATION | FAULT_INSTRUCTION_FETCH;
    let r = t.handle_page_fault(&mut alloc, &mut state, &v, code, page + 0x10);
    assert_eq!(r, Err(PF_NOT_EXECUTABLE));
}

#[test]
fn unmapped_vmalloc_area_is_released_without_unmapping() {
    let (mut alloc, mut state, mut t) = machine();
    let mut v = Vmalloc::setup();
    let range = v.allocate(8192, VMM_NONE).unwrap();
    let before = alloc.statistics().allocated;
    let area = t.free_area(&mut alloc, &mut state, &mut v, range);
    assert_eq!(area.range, range);
    assert_eq!(alloc.statistics().allocated, before);
    assert_eq!(v.free.len(), 2);
}

#[test]
fn atomic_areas_are_mapped_at_once() {

    let (mut alloc, mut state, mut t) = machine();
    let mut v = Vmalloc::setup();
    let r = t
        .allocate_mapped(&mut alloc, &mut state, &mut v, 3 * 4096, VMM_ATOMIC | VMM_MAP | VMM_ZEROED)
        .unwrap();
    for page in 0..3u64 {
        assert!(t.translate(r.start + page * 4096).is_some());
        assert_eq!(t.protection(r.start + page * 4096), Some(PAGE_PRESENT | PAGE_WRITABLE));
    }
    assert_eq!(v.used[0].flags, VMM_MAP | VMM_ZEROED);
    assert_eq!(
        t.allocate_mapped(&mut alloc, &mut state, &mut v, 0, VMM_ATOMIC),
        Err(AllocationError::OutOfMemory)
    );
}

#[test]
fn mapping_twice_allocates_nothing() {
    let (mut alloc, mut state, mut t) = machine();
    let v = 0x5000_0000u64;
    t.map(&mut alloc, &mut state, v, Frame::null(), PAGE_PRESENT).unwrap();
    let before = alloc.statistics().allocated;
    assert_eq!(
        t.map(&mut alloc, &mut state, v, Frame::null(), PAGE_PRESENT),
        Err(MapError::AlreadyMapped)
    );
    assert_eq!(alloc.statistics().allocated, before);
}

#[test]
fn exhausted_memory_is_reported() {
    let (mut alloc, mut state, mut t) = machine();
    while alloc.allocate(&mut state, ALLOC_NONE).is_some() {}
    assert_eq!(
        t.map(&mut alloc, &mut state, 0x6000_0000, Frame::new(0x1000), PAGE_PRESENT),
        Err(MapError::OutOfMemory)
    );
    let init = silicium::paging::TableRoot::from(Frame::new(0x1000), vec![silicium::paging::PageEntry::empty(); 512]);
    assert!(silicium::paging::TableRoot::new(&mut alloc, &mut state, &init).is_none());
    let v = Vmalloc::setup();
    let r = t.handle_page_fault(&mut alloc, &mut state, &v, 0, HEAP_START);
    assert_eq!(r, Err(silicium::paging::PF_OUT_OF_MEMORY | PF_MISSING_PAGE));
}
