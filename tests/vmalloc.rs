use silicium::address::{VMALLOC_END, VMALLOC_START};
use silicium::frame::{ALLOC_NONE, ALLOC_ZEROED};
use silicium::paging::{PF_MISSING_PAGE, PF_NOT_MAPPABLE};
use silicium::vmm::{AllocationError, VirtualArea, VirtualRange, Vmalloc, VMM_ATOMIC, VMM_MAP, VMM_NONE, VMM_ZEROED};

fn overlaps(a: &VirtualArea, b: &VirtualArea) -> bool {
    a.range.start < b.range.end && b.range.start < a.range.end
}

#[test]
fn mapped_zeroed_area_scenario() {
    let mut v = Vmalloc::setup();
    let r = v.allocate(12 * 1024, VMM_MAP | VMM_ZEROED).unwrap();
    assert_eq!(r, VirtualRange::new(VMALLOC_START, VMALLOC_START + 12 * 1024));
    for page in 0..3u64 {
        assert_eq!(v.demand_paging(r.start + page * 4096 + 17), Ok(ALLOC_ZEROED));
    }
    assert_eq!(v.demand_paging(r.end), Err(PF_MISSING_PAGE));
    let area = v.deallocate(r);
    assert_eq!(area, VirtualArea::new(r, VMM_MAP | VMM_ZEROED));
    assert!(v.used.is_empty());
    assert_eq!(v.demand_paging(r.start), Err(PF_MISSING_PAGE));
}

#[test]
fn sizes_round_up_to_pages() {
    let mut v = Vmalloc::setup();
    let a = v.allocate(1, VMM_MAP).unwrap();
    assert_eq!(a.size(), 4096);
    let b = v.allocate(4097, VMM_NONE).unwrap();
    assert_eq!(b.size(), 8192);
    assert_eq!(b.start, a.end);
    assert_eq!(v.demand_paging(a.start), Ok(ALLOC_NONE));
    assert_eq!(v.demand_paging(b.start), Err(PF_NOT_MAPPABLE));
}

#[test]
fn vmalloc_errors() {
    let mut v = Vmalloc::setup();
    assert_eq!(v.allocate(0, VMM_MAP), Err(AllocationError::OutOfMemory));
    assert_eq!(v.allocate(usize::MAX, VMM_MAP), Err(AllocationError::OutOfMemory));
    assert_eq!(v.allocate(4096, VMM_ATOMIC | VMM_MAP), Err(AllocationError::WouldBlock));
    assert_eq!(v.free.len(), 1);
    let whole = (VMALLOC_END - VMALLOC_START) as usize;
    assert!(v.allocate(whole, VMM_NONE).is_ok());
    assert_eq!(v.allocate(4096, VMM_NONE), Err(AllocationError::OutOfMemory));
}

#[test]
fn smallest_free_area_serves() {
    let mut v = Vmalloc::setup();
    let a = v.allocate(8 * 4096, VMM_NONE).unwrap();
    let _b = v.allocate(4096, VMM_NONE).unwrap();
    v.deallocate(a);
    // The freed area of eight pages is smaller than the rest of the region.
    let c = v.allocate(2 * 4096, VMM_MAP).unwrap();
    assert_eq!(c.start, a.start);
}

#[test]
fn areas_never_overlap_and_cover_the_region() {
    let mut v = Vmalloc::setup();
    let mut live = Vec::new();
    for i in 1..20usize {
        live.push(v.allocate(i * 3000, VMM_MAP).unwrap());
        if i % 3 == 0 {
            let r = live.remove(0);
            v.deallocate(r);
        }
    }
    let all: Vec<VirtualArea> = v.free.iter().chain(v.used.iter()).copied().collect();
    for (i, a) in all.iter().enumerate() {
        assert!(a.range.start >= VMALLOC_START && a.range.end <= VMALLOC_END);
        for b in all.iter().skip(i + 1) {
            assert!(!overlaps(a, b));
        }
    }
    let total: u64 = all.iter().map(|a| a.range.end - a.range.start).sum();
    assert_eq!(total, VMALLOC_END - VMALLOC_START);
}
