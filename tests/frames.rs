use silicium::frame::{
    index, Frame, NotAligned, Range, ALLOC_BIOS, ALLOC_KERNEL, ALLOC_NONE, ALLOC_ZEROED,
    FRAME_BIOS, FRAME_FREE, FRAME_ISA, FRAME_KERNEL, FRAME_POISONED, FRAME_X86,
};
use silicium::frame_alloc::Allocator;
use silicium::frame_state::{FrameInfo, FrameState, MemoryKind, MemoryRegion, State};

const MIB: u64 = 1024 * 1024;

fn region(base: u64, len: u64, kind: MemoryKind) -> MemoryRegion {
    MemoryRegion { base, len, kind }
}

fn boot(map: Vec<MemoryRegion>) -> (Allocator, State) {
    let mut state = State::uninitialized();
    let stats = state.setup(&map);
    let mut alloc = Allocator::new();
    alloc.setup(stats);
    (alloc, state)
}

#[test]
fn frame_alignment_is_checked() {
    assert!(Frame::try_new(0x2000).is_ok());
    assert_eq!(Frame::try_new(0x2001).err(), Some(NotAligned(0x2001, 4096)));
    let f = Frame::new(0x3000);
    assert_eq!(f.start(), 0x3000);
    assert_eq!(f.end(), 0x4000);
    assert_eq!(f.size(), 4096);
    assert!(f.contains(0x3FFF));
    assert!(!f.contains(0x4000));
    assert_eq!(f.index(), 3);
    assert_eq!(index(0x5123), 5);
    assert_eq!(Frame::null().start(), 0);
}

#[test]
fn frame_ranges_count_frames() {
    let r = Range::new(Frame::new(0x1000), Frame::new(0x5000));
    assert_eq!(r.count(), 4);
    assert_eq!(r.len(), 4);
    assert!(!r.is_empty());
    assert!(r.contains(Frame::new(0x4000)));
    assert!(!r.contains(Frame::new(0x5000)));
    assert!(r.contains_address(0x1234));
    assert!(Frame::range(Frame::new(0x5000), Frame::new(0x5000)).is_empty());
}

#[test]
fn frame_info_flags_and_counts() {
    let mut info = FrameInfo::new(Frame::new(0x1000), FRAME_FREE);
    assert_eq!(info.state, FrameState::Free);
    assert_eq!(info.get_count(), 0);
    assert_eq!(info.get_flags(), FRAME_FREE);
    let owned = FrameInfo::new(Frame::new(0), FRAME_FREE | FRAME_KERNEL | FRAME_BIOS);
    assert_eq!(owned.get_flags(), FRAME_FREE | FRAME_KERNEL | FRAME_BIOS);
    assert!(owned.kernel);
    info.retain();
    info.retain();
    info.release();
    assert_eq!(info.get_count(), 1);
    let high = FrameInfo::new(Frame::new(0x2000_0000), FRAME_POISONED);
    assert_eq!(high.get_flags(), FRAME_POISONED);
}

#[test]
fn boot_memory_map_scenario() {
    let map = vec![
        region(0, MIB, MemoryKind::Usable),
        region(MIB, 128 * MIB, MemoryKind::Usable),
        region(0x1_0000_0000, 256 * MIB, MemoryKind::Reserved),
    ];
    let (alloc, state) = boot(map);
    let stats = alloc.statistics();
    // The table ends with the highest usable entry; the reserved entry above it is not described.
    assert_eq!(stats.total, 33024);
    assert_eq!(stats.usable, 33024);
    assert_eq!(stats.reserved, 0);
    assert_eq!(stats.poisoned, 0);
    // The table of 33024 records of 24 bytes sits at address 0 and fills 194 frames.
    assert_eq!(stats.allocated, 194);
    assert_eq!(stats.kernel, 194);
    assert_eq!(state.get_state_array().len(), 33024);
    let first = state.get_frame_info(0).unwrap();
    assert_eq!(first.state, FrameState::Allocated);
    assert_eq!(first.get_flags(), FRAME_KERNEL | FRAME_BIOS | FRAME_ISA | FRAME_X86);
    assert_eq!(
        state.get_frame_info(194 * 4096).unwrap().get_flags(),
        FRAME_FREE | FRAME_BIOS | FRAME_ISA | FRAME_X86
    );
    assert_eq!(state.get_frame_info(194 * 4096).unwrap().state, FrameState::Free);
    assert!(state.get_frame_info(129 * MIB).is_none());
}

#[test]
fn memory_map_kinds_are_classified() {
    let map = vec![
        region(0, 4 * MIB, MemoryKind::Usable),
        region(4 * MIB, MIB, MemoryKind::KernelAndModules),
        region(5 * MIB, MIB, MemoryKind::AcpiNvs),
        region(6 * MIB, MIB, MemoryKind::BadMemory),
        region(7 * MIB, MIB, MemoryKind::BootloaderReclaimable),
    ];
    let (alloc, state) = boot(map);
    let stats = alloc.statistics();
    assert_eq!(stats.total, 2048);
    assert_eq!(stats.reserved, 256);
    assert_eq!(stats.poisoned, 256);
    assert_eq!(stats.usable, 1536);
    // 2048 records take 12 frames; 512 frames of kernel and bootloader memory.
    assert_eq!(stats.allocated, 12 + 512);
    assert_eq!(stats.kernel, 12 + 512);
    assert_eq!(state.get_frame_info(5 * MIB).unwrap().state, FrameState::Reserved);
    assert_eq!(state.get_frame_info(6 * MIB).unwrap().state, FrameState::Poisoned);
    assert_eq!(state.get_frame_info(4 * MIB).unwrap().get_count(), 1);
}

#[test]
fn accounting_closes_after_allocations() {
    let map = vec![region(0, 8 * MIB, MemoryKind::Usable), region(8 * MIB, MIB, MemoryKind::Reserved)];
    let (mut alloc, mut state) = boot(map);
    let mut frames = Vec::new();
    for _ in 0..10 {
        frames.push(alloc.allocate(&mut state, ALLOC_KERNEL).unwrap());
    }
    for f in frames.iter().take(4) {
        alloc.deallocate(&mut state, *f);
    }
    let s = alloc.statistics();
    let free = state.get_state_array().iter().filter(|f| f.state == FrameState::Free).count();
    assert_eq!(s.allocated + s.reserved + free + s.poisoned, s.total);
    assert!(s.kernel <= s.allocated);
    assert_eq!(s.allocated, 12 + 6);
}

#[test]
fn reference_then_two_releases_frees() {
    let (mut alloc, mut state) = boot(vec![region(0, 2 * MIB, MemoryKind::Usable)]);
    let f = alloc.allocate(&mut state, ALLOC_NONE).unwrap();
    let before = alloc.statistics().allocated;
    alloc.reference(&mut state, f);
    alloc.deallocate(&mut state, f);
    assert_eq!(state.get_frame_info(f.start()).unwrap().state, FrameState::Allocated);
    assert_eq!(state.get_frame_info(f.start()).unwrap().get_count(), 1);
    alloc.deallocate(&mut state, f);
    assert_eq!(state.get_frame_info(f.start()).unwrap().state, FrameState::Free);
    assert_eq!(alloc.statistics().allocated, before - 1);
}

#[test]
fn allocation_is_first_fit_and_respects_placement() {
    let map = vec![region(0, 32 * MIB, MemoryKind::Usable)];
    let (mut alloc, mut state) = boot(map);
    // 8192 records fill 48 frames at the start of memory.
    let f = alloc.allocate(&mut state, ALLOC_ZEROED).unwrap();
    assert_eq!(f.start(), 48 * 4096);
    let info = state.get_frame_info(f.start()).unwrap();
    assert!(info.zeroed);
    assert!(!info.kernel);
    let g = alloc.allocate(&mut state, ALLOC_BIOS).unwrap();
    assert!(g.start() < 0x10_0000);
}

#[test]
fn allocation_fails_when_no_frame_suits() {
    let map = vec![region(0x200_0000, 4 * MIB, MemoryKind::Usable)];
    let (mut alloc, mut state) = boot(map);
    assert!(alloc.allocate(&mut state, ALLOC_BIOS).is_none());
    assert!(alloc.allocate(&mut state, ALLOC_NONE).is_some());
}

#[test]
fn contiguous_ranges_are_allocated_and_freed() {
    let map = vec![region(0, 4 * MIB, MemoryKind::Usable)];
    let (mut alloc, mut state) = boot(map);
    let r = alloc.allocate_range(&mut state, 5, ALLOC_KERNEL).unwrap();
    assert_eq!(r.count(), 5);
    assert_eq!(r.start.start(), 6 * 4096);
    let allocated = alloc.statistics().allocated;
    alloc.deallocate_range(&mut state, r);
    assert_eq!(alloc.statistics().allocated, allocated - 5);
    assert!(alloc.allocate_range(&mut state, 2000, ALLOC_NONE).is_none());
}
