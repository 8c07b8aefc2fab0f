use silicium::ident::{Pid, Tid};
use silicium::sched::Scheduler;
use silicium::thread::{Priority, State};
use silicium::frame_alloc::Allocator;
use silicium::frame_state::{MemoryKind, MemoryRegion, State as FrameTable};
use silicium::ident::IdAllocator;
use silicium::page_table::PageTables;
use silicium::process::{setup, ProcessTable, INIT_PID};
use silicium::vmm::Vmalloc;

#[test]
fn children_are_adopted_by_init() {
    let mut t = ProcessTable::new();
    let idle = t.create(None).unwrap();
    let init = t.create(None).unwrap();
    assert_eq!(idle.value(), 0);
    assert_eq!(init.value(), INIT_PID);
    let parent = t.create(Some(init)).unwrap();
    let a = t.create(Some(parent)).unwrap();
    let b = t.create(Some(parent)).unwrap();
    t.add_child(init, parent);
    t.add_child(parent, a);
    t.add_child(parent, b);
    t.delete(parent);
    assert!(!t.pid_exists(parent));
    assert!(t.pid_exists(a) && t.pid_exists(b));
    assert!(!t.pids.is_used(parent.value()));
    assert!(t.pids.is_used(a.value()));
    // The released identifier is handed out again only after the others.
    let next = t.create(None).unwrap();
    assert_ne!(next, parent);
}

#[test]
fn unknown_pids_do_not_exist() {
    let t = ProcessTable::new();
    assert!(!t.pid_exists(Pid::new(3).unwrap()));
}

#[test]
fn process_threads_join_the_run_list() {
    let mut t = ProcessTable::new();
    let mut sched = Scheduler::new();
    let p = t.create(None).unwrap();
    let tid = Tid::new(7).unwrap();
    t.add_thread(p, tid, Priority::Low, &mut sched);
    assert_eq!(sched.run_list.len(), 1);
    assert_eq!(sched.run_list[0].tid, tid);
    assert_eq!(sched.run_list[0].state, State::Ready);
    assert_eq!(sched.run_list[0].priority, Priority::Low);
}

#[test]
fn first_processes_start_kernel_threads() {
    let map = vec![MemoryRegion { base: 0, len: 4 * 1024 * 1024, kind: MemoryKind::Usable }];
    let mut state = FrameTable::uninitialized();
    let stats = state.setup(&map);
    let mut alloc = Allocator::new();
    alloc.setup(stats);
    let mut tables = PageTables::new(&mut alloc, &mut state).unwrap();
    let mut t = ProcessTable::new();
    let mut sched = Scheduler::new();
    let mut tids = IdAllocator::new();
    let mut vmalloc = Vmalloc::setup();
    let entries = vec![0x1000usize, 0x2000, 0x3000];
    let threads = setup(
        &mut t, &mut sched, &mut tids, &mut vmalloc, &mut tables, &mut alloc, &mut state,
        &entries, 8192,
    )
    .ok()
    .unwrap();
    assert_eq!(threads.len(), 3);
    assert_eq!(sched.run_list.len(), 3);
    assert_eq!(threads[1].cpu_state.rip, 0x2000);
    assert!(t.pid_exists(Pid::new(0).unwrap()) && t.pid_exists(Pid::new(3).unwrap()));
    assert_eq!(sched.run_list[2].state, State::Ready);
    assert_eq!(sched.run_list[2].priority, Priority::Normal);
}
