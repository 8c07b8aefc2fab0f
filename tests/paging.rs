use silicium::address::{phys_to_virt, virt_to_phys, is_canonical, HEAP_START, VMALLOC_START};
use silicium::frame::{ALLOC_KERNEL, ALLOC_ZEROED};
use silicium::frame_alloc::Allocator;
use silicium::frame_state::{MemoryKind, MemoryRegion, State};
use silicium::paging::{
    demand_paging_plan, fault_reasons, fault_step, map_error_reason, page_index, FaultStep,
    MapError, PageEntry, TableRoot, FAULT_INSTRUCTION_FETCH, FAULT_PROTECTION_VIOLATION,
    FAULT_WRITE_ACCESS, PAGE_NO_EXECUTE, PAGE_PRESENT, PAGE_WRITABLE, PF_ALREADY_MAPPED,
    PF_MISSING_PAGE, PF_NOT_EXECUTABLE, PF_NOT_MAPPABLE, PF_OUT_OF_MEMORY,
    PF_PROTECTION_VIOLATION, PF_UNKNOWN, PF_WRITE_PROTECTED,
};
use silicium::vmm::{Vmalloc, VMM_NONE};

fn frames() -> (Allocator, State) {
    let map = vec![MemoryRegion { base: 0, len: 4 * 1024 * 1024, kind: MemoryKind::Usable }];
    let mut state = State::uninitialized();
    let stats = state.setup(&map);
    let mut alloc = Allocator::new();
    alloc.setup(stats);
    (alloc, state)
}

#[test]
fn page_entries_keep_address_and_flags_apart() {
    let mut e = PageEntry::empty();
    assert!(!e.is_present());
    e.set_address(0x1234_5000);
    e.set_flags(PAGE_PRESENT | PAGE_WRITABLE | PAGE_NO_EXECUTE);
    assert_eq!(e.address(), 0x1234_5000);
    assert_eq!(e.flags(), PAGE_PRESENT | PAGE_WRITABLE | PAGE_NO_EXECUTE);
    assert!(e.is_present() && e.is_writable() && !e.is_executable());
    e.set_address(0x9000);
    assert_eq!(e.flags(), PAGE_PRESENT | PAGE_WRITABLE | PAGE_NO_EXECUTE);
    e.clear();
    assert_eq!(e.bits, 0);
}

#[test]
fn table_indexes() {
    let v = 0xFFFF_9000_0020_3000u64;
    assert_eq!(page_index(v, 4), 288);
    assert_eq!(page_index(v, 3), 0);
    assert_eq!(page_index(v, 2), 1);
    assert_eq!(page_index(v, 1), 3);
}

#[test]
fn heap_fault_is_served_on_demand() {
    let v = Vmalloc::setup();
    assert_eq!(fault_step(None, 0), FaultStep::DemandPaging);
    assert_eq!(
        demand_paging_plan(HEAP_START, &v),
        Ok((ALLOC_KERNEL | ALLOC_ZEROED, PAGE_PRESENT | PAGE_WRITABLE | PAGE_NO_EXECUTE))
    );
    assert_eq!(demand_paging_plan(0x1000, &v), Err(PF_UNKNOWN));
    assert_eq!(demand_paging_plan(VMALLOC_START, &v), Err(PF_MISSING_PAGE));
    assert_eq!(fault_reasons(None, 0, PF_UNKNOWN), PF_MISSING_PAGE);
}

#[test]
fn vmalloc_fault_plans() {
    let mut v = Vmalloc::setup();
    let r = v.allocate(4096, VMM_NONE).unwrap();
    assert_eq!(demand_paging_plan(r.start, &v), Err(PF_NOT_MAPPABLE));
    assert_eq!(fault_reasons(None, 0, PF_NOT_MAPPABLE), PF_NOT_MAPPABLE | PF_MISSING_PAGE);
}

#[test]
fn stale_translation_is_flushed() {
    let e = PageEntry { bits: 0x5000 | PAGE_PRESENT };
    assert_eq!(fault_step(Some(e), 0), FaultStep::FlushTlb);
}

#[test]
fn no_execute_fault_is_unrecoverable() {
    let e = PageEntry { bits: 0x5000 | PAGE_PRESENT | PAGE_WRITABLE | PAGE_NO_EXECUTE };
    let code = FAULT_PROTECTION_VIOLATION | FAULT_INSTRUCTION_FETCH;
    assert_eq!(fault_step(Some(e), code), FaultStep::Unrecoverable);
    assert_eq!(fault_reasons(Some(e), code, 0), PF_NOT_EXECUTABLE);
}

#[test]
fn protection_fault_reasons() {
    let ro = PageEntry { bits: 0x5000 | PAGE_PRESENT };
    let code = FAULT_PROTECTION_VIOLATION | FAULT_WRITE_ACCESS;
    assert_eq!(fault_reasons(Some(ro), code, 0), PF_WRITE_PROTECTED);
    assert_eq!(fault_reasons(Some(ro), FAULT_PROTECTION_VIOLATION, 0), PF_PROTECTION_VIOLATION);
    assert_eq!(map_error_reason(MapError::OutOfMemory), PF_OUT_OF_MEMORY);
    assert_eq!(map_error_reason(MapError::AlreadyMapped), PF_ALREADY_MAPPED);
}

#[test]
fn address_spaces_share_the_kernel_half() {
    let (mut alloc, mut state) = frames();
    let boot = alloc.allocate(&mut state, ALLOC_KERNEL).unwrap();
    let mut entries = vec![PageEntry::empty(); 512];
    entries[3] = PageEntry { bits: 0x7000 | PAGE_PRESENT };
    let mut init = TableRoot::from(boot, entries);
    assert!(init.preallocate_kernel(&mut alloc, &mut state));
    assert!(init.entries[256..].iter().all(|e| e.is_present()));
    let a = TableRoot::new(&mut alloc, &mut state, &init).unwrap();
    let b = TableRoot::new(&mut alloc, &mut state, &init).unwrap();
    assert_ne!(a.frame.start(), b.frame.start());
    assert_eq!(a.entries[256..], b.entries[256..]);
    assert_eq!(a.entries[3].bits, 0);
    let c = a.clone_root(&mut alloc, &mut state).unwrap();
    assert_eq!(c.entries, a.entries);
}

#[test]
fn direct_map_conversions() {
    assert_eq!(phys_to_virt(0x1000), 0xFFFF_8000_0000_1000);
    assert_eq!(virt_to_phys(0xFFFF_8000_0000_1000), 0x1000);
    assert!(is_canonical(0x7FFF_FFFF_F000));
    assert!(!is_canonical(0x8000_0000_0000));
}
