use silicium::address::VMALLOC_START;
use silicium::cpu::{tss_slot, Privilege, Selector, State as Registers};
use silicium::ident::{IdAllocator, ID_MAX};
use silicium::thread::{Builder, CreationError, Priority, State, Thread, Type, DEFAULT_KSTACK_SIZE};
use silicium::frame_alloc::Allocator;
use silicium::frame_state::{MemoryKind, MemoryRegion, State as FrameTable};
use silicium::page_table::PageTables;
use silicium::vmm::{Vmalloc, VMM_MAP, VMM_ZEROED};

fn machine() -> (Allocator, FrameTable, PageTables) {
    let map = vec![MemoryRegion { base: 0, len: 4 * 1024 * 1024, kind: MemoryKind::Usable }];
    let mut state = FrameTable::uninitialized();
    let stats = state.setup(&map);
    let mut alloc = Allocator::new();
    alloc.setup(stats);
    let tables = PageTables::new(&mut alloc, &mut state).unwrap();
    (alloc, state, tables)
}

#[test]
fn kernel_thread_is_built() {
    let mut ids = IdAllocator::new();
    let mut vmalloc = Vmalloc::setup();
    let (mut alloc, mut state, mut tables) = machine();
    let t = Thread::builder()
        .kind(Type::Kernel)
        .entry_point(0x1234)
        .kstack_size(DEFAULT_KSTACK_SIZE)
        .priority(Priority::High)
        .build(&mut ids, &mut vmalloc, &mut tables, &mut alloc, &mut state)
        .ok()
        .unwrap();
    assert_eq!(t.tid().value(), 0);
    assert_eq!(t.state(), State::Created);
    assert_eq!(t.kind(), Type::Kernel);
    let k = t.kstack.unwrap();
    assert_eq!(k.start, VMALLOC_START);
    assert_eq!(k.end - k.start, 32768);
    assert_eq!(t.cpu_state.rip, 0x1234);
    assert_eq!(t.cpu_state.rsp, k.end);
    assert_eq!(t.cpu_state.cs, 8);
    assert_eq!(t.cpu_state.ss, 0);
    assert_eq!(vmalloc.used[0].flags, VMM_MAP | VMM_ZEROED);
    assert!(ids.is_used(0));
    // The stack is mapped before the thread first runs.
    assert!(tables.translate(k.end - 8).is_some());
    assert!(tables.translate(k.start).is_some());
}

#[test]
fn thread_creation_errors() {
    let mut ids = IdAllocator::new();
    let mut vmalloc = Vmalloc::setup();
    let (mut alloc, mut state, mut tables) = machine();
    let r = Builder::new()
        .kind(Type::Kernel)
        .build(&mut ids, &mut vmalloc, &mut tables, &mut alloc, &mut state);
    assert!(matches!(r, Err(CreationError::OutOfMemory)));
    assert!(!ids.is_used(0));
    for _ in 0..ID_MAX - 1 {
        ids.generate().unwrap();
    }
    let r = Builder::new()
        .kind(Type::Kernel)
        .kstack_size(4096)
        .build(&mut ids, &mut vmalloc, &mut tables, &mut alloc, &mut state);
    assert!(matches!(r, Err(CreationError::NoFreeTid)));
}

#[test]
fn zombie_threads_give_back_their_stack() {
    let mut ids = IdAllocator::new();
    let mut vmalloc = Vmalloc::setup();
    let (mut alloc, mut state, mut tables) = machine();
    let mut t = Builder::new()
        .kind(Type::Kernel)
        .kstack_size(8192)
        .build(&mut ids, &mut vmalloc, &mut tables, &mut alloc, &mut state)
        .ok()
        .unwrap();
    t.set_need_rescheduling();
    assert!(t.need_rescheduling());
    t.clear_need_rescheduling();
    assert!(!t.need_rescheduling());
    let area = t.zombify(3, 9, &mut vmalloc).unwrap();
    assert_eq!(area.range.end - area.range.start, 8192);
    assert_eq!(t.state(), State::Zombie);
    assert_eq!((t.exit_code(), t.exit_signal()), (Some(3), Some(9)));
    assert!(t.kstack.is_none());
    assert!(vmalloc.used.is_empty());
    assert_eq!(t.zombify(3, 9, &mut vmalloc), None);
}

#[test]
fn selectors_and_registers() {
    assert_eq!(Selector::new(1, Privilege::Ring0).value(), 0x08);
    assert_eq!(Selector::new(4, Privilege::Ring3).value(), 0x23);
    assert_eq!(Privilege::Ring3.level(), 3);
    assert_eq!(tss_slot(0), 6);
    assert_eq!(tss_slot(3), 12);
    let r = Registers::new();
    assert_eq!((r.rip, r.rsp, r.cs), (0, 0, 0));
}
