use silicium::acpi::{AcpiHandler, ACPI_MAP_FLAGS};
use silicium::frame::Frame;
use silicium::address::VMALLOC_START;
use silicium::frame_alloc::Allocator;
use silicium::frame_state::{MemoryKind, MemoryRegion, State};
use silicium::page_table::PageTables;
use silicium::vmm::{Vmalloc, VMM_NONE};

fn machine() -> (Allocator, State, PageTables, Vmalloc) {
    let map = vec![MemoryRegion { base: 0, len: 4 * 1024 * 1024, kind: MemoryKind::Usable }];
    let mut state = State::uninitialized();
    let stats = state.setup(&map);
    let mut alloc = Allocator::new();
    alloc.setup(stats);
    let tables = PageTables::new(&mut alloc, &mut state).unwrap();
    (alloc, state, tables, Vmalloc::setup())
}

#[test]
fn firmware_table_is_mapped_uncached() {
    let (mut alloc, mut state, mut t, mut v) = machine();
    let h = AcpiHandler::new();
    let (virt, len) = h
        .map_physical_region(&mut t, &mut alloc, &mut state, &mut v, 0x7FE_1234, 0x100)
        .unwrap();
    assert_eq!(virt, VMALLOC_START + 0x234);
    assert_eq!(len, 4096 - 0x234);
    assert_eq!(t.translate(virt), Some(0x7FE_1234));
    assert_eq!(t.protection(virt), Some(ACPI_MAP_FLAGS));
    assert_eq!(v.used[0].flags, VMM_NONE);
}

#[test]
fn region_across_a_page_boundary() {
    let (mut alloc, mut state, mut t, mut v) = machine();
    let h = AcpiHandler::new();
    let (virt, len) = h
        .map_physical_region(&mut t, &mut alloc, &mut state, &mut v, 0x3FF0, 0x20)
        .unwrap();
    assert_eq!(len, 0x2000 - 0xFF0);
    assert_eq!(t.translate(virt), Some(0x3FF0));
    assert_eq!(t.translate(virt + 0x1F), Some(0x400F));
    assert_eq!(v.used[0].range.end - v.used[0].range.start, 0x2000);
}

#[test]
fn conflicting_mapping_is_refused() {

    let (mut alloc, mut state, mut t, mut v) = machine();
    let h = AcpiHandler::new();
    // The first vmalloc page is already mapped to another frame.
    t.map(&mut alloc, &mut state, VMALLOC_START, Frame::new(0x9000), ACPI_MAP_FLAGS).unwrap();
    let r = h.map_physical_region(&mut t, &mut alloc, &mut state, &mut v, 0x7FE_1234, 0x100);
    assert_eq!(r, Err(silicium::paging::MapError::AlreadyMapped));
}
