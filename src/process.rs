use vstd::prelude::*;

use crate::ident::{IdAllocator, Pid, Tid};
use crate::frame_alloc::{alloc_wf, Allocator};
use crate::frame_state::State as FrameTable;
use crate::ident::ID_MAX;
use crate::page_table::PageTables;
use crate::sched::{index_of_tid, lemma_tid_absent, Scheduler, ThreadInfo, QUANTUM};
use crate::thread::{Builder, CreationError, Priority, State, Thread, Type};
use crate::vmm::Vmalloc;

verus! {

/// Identifier of the init process, which adopts the children of every process that dies.
pub const INIT_PID: u64 = 1;

/// A process: its identifier, its parent, its children and its threads.
#[derive(Debug)]
pub struct Process {
    pub pid: Pid,
    pub parent: Option<Pid>,
    pub children: Vec<Pid>,
    pub threads: Vec<Tid>,
}

/// The processes of the system, by identifier, in a hash map of the hashbrown crate.
#[verifier::external_body]
pub struct ProcessMap {
    map: hashbrown::HashMap<u64, Process>,
}

/// What a `ProcessMap` holds.
pub uninterp spec fn process_entries(m: ProcessMap) -> Map<u64, Process>;

impl ProcessMap {
    /// Relies on hashbrown::HashMap::new: a new map is empty.
    #[verifier::external_body]
    fn new() -> (fresh: ProcessMap)
        ensures
            process_entries(fresh).dom() == Set::<u64>::empty(),
    {
        ProcessMap { map: hashbrown::HashMap::new() }
    }

    /// Relies on hashbrown::HashMap::insert: the key is bound to the value afterwards, and the
    /// other entries stay.
    #[verifier::external_body]
    fn insert(&mut self, key: u64, value: Process)
        ensures
            process_entries(*final(self)) == process_entries(*old(self)).insert(key, value),
    {
        self.map.insert(key, value);
    }

    /// Relies on hashbrown::HashMap::remove: it hands back the value bound to the key, if any,
    /// and the key is unbound afterwards.
    #[verifier::external_body]
    fn remove(&mut self, key: u64) -> (r: Option<Process>)
        ensures
            process_entries(*old(self)).contains_key(key) ==> r == Some(
                process_entries(*old(self))[key],
            ),
            !process_entries(*old(self)).contains_key(key) ==> r is None,
            process_entries(*final(self)) == process_entries(*old(self)).remove(key),
    {
        self.map.remove(&key)
    }

    /// Relies on hashbrown::HashMap::contains_key: whether the key is bound.
    #[verifier::external_body]
    fn contains_key(&self, key: u64) -> (r: bool)
        ensures
            r == process_entries(*self).contains_key(key),
    {
        self.map.contains_key(&key)
    }
}

/// The process table and the identifiers it hands out.
pub struct ProcessTable {
    pub processes: ProcessMap,
    pub pids: IdAllocator,
}

/// The children of a dying process are adopted by init: a process listed in `children` gets
/// init as parent, and init lists it among its own children.
pub open spec fn adopted(
    before: Map<u64, Process>,
    after: Map<u64, Process>,
    pid: u64,
    children: Seq<Pid>,
) -> bool {
    &&& !after.contains_key(pid)
    &&& forall|k: u64| k != pid ==> (#[trigger] after.contains_key(k) <==> before.contains_key(k))
    &&& after[INIT_PID].pid == before[INIT_PID].pid
    &&& after[INIT_PID].parent == before[INIT_PID].parent
    &&& after[INIT_PID].threads == before[INIT_PID].threads
    &&& after[INIT_PID].children@ == before[INIT_PID].children@ + children
    &&& forall|k: u64|
        #[trigger] after.contains_key(k) && k != INIT_PID ==> {
            &&& after[k].pid == before[k].pid
            &&& after[k].children == before[k].children
            &&& after[k].threads == before[k].threads
            &&& after[k].parent == if exists|c: int|
                0 <= c < children.len() && (#[trigger] children[c])@ == k {
                Some(before[INIT_PID].pid)
            } else {
                before[k].parent
            }
        }
}

impl ProcessTable {
    pub open spec fn entries(&self) -> Map<u64, Process> {
        process_entries(self.processes)
    }

    /// An empty table.
    pub fn new() -> (r: ProcessTable)
        ensures
            r.entries().dom() == Set::<u64>::empty(),
            r.pids.wf(),
            r.pids.live() == Set::<int>::empty(),
    {
        ProcessTable { processes: ProcessMap::new(), pids: IdAllocator::new() }
    }

    /// Whether a process with identifier `pid` exists.
    pub fn pid_exists(&self, pid: Pid) -> (r: bool)
        ensures
            r == self.entries().contains_key(pid@),
    {
        self.processes.contains_key(pid.value())
    }

    /// Creates a process with a fresh identifier, the given parent and no child nor thread.
    /// Returns `None` when no identifier is left.
    pub fn create(&mut self, parent: Option<Pid>) -> (r: Option<Pid>)
        requires
            old(self).pids.wf(),
        ensures
            final(self).pids.wf(),
            r is Some <==> old(self).pids.used + 1 < crate::ident::ID_MAX,
            r is None ==> final(self).entries() == old(self).entries(),
            r is Some ==> final(self).pids.used == old(self).pids.used + 1,
            r matches Some(p) ==> {
                &&& !old(self).pids.live().contains(p@ as int)
                &&& final(self).pids.live() == old(self).pids.live().insert(p@ as int)
                &&& final(self).entries().dom() == old(self).entries().dom().insert(p@)
                &&& forall|k: u64| k != p@ && #[trigger] old(self).entries().contains_key(k)
                    ==> final(self).entries()[k] == old(self).entries()[k]
                &&& final(self).entries()[p@].pid == p
                &&& final(self).entries()[p@].parent == parent
                &&& final(self).entries()[p@].children@.len() == 0
                &&& final(self).entries()[p@].threads@.len() == 0
            },
    {
        match Pid::generate(&mut self.pids) {
            None => None,
            Some(pid) => {
                let process = Process {
                    pid,
                    parent,
                    children: Vec::new(),
                    threads: Vec::new(),
                };
                self.processes.insert(pid.value(), process);
                Some(pid)
            },
        }
    }

    /// Lists `child` among the children of the process `parent`.
    pub fn add_child(&mut self, parent: Pid, child: Pid)
        requires
            old(self).entries().contains_key(parent@),
        ensures
            final(self).pids == old(self).pids,
            final(self).entries().dom() == old(self).entries().dom(),
            forall|k: u64| #[trigger] old(self).entries().contains_key(k) && k != parent@
                ==> final(self).entries()[k] == old(self).entries()[k],
            final(self).entries()[parent@].pid == old(self).entries()[parent@].pid,
            final(self).entries()[parent@].parent == old(self).entries()[parent@].parent,
            final(self).entries()[parent@].threads == old(self).entries()[parent@].threads,
            final(self).entries()[parent@].children@ == old(self).entries()[parent@].children@.push(
                child,
            ),
    {
        let ghost before = self.entries();
        match self.processes.remove(parent.value()) {
            Some(mut p) => {
                p.children.push(child);
                self.processes.insert(parent.value(), p);
                proof {
                    assert(self.entries().dom() =~= before.dom());
                }
            },
            None => {},
        }
    }

    /// Lists the thread `tid` among the threads of the process `pid`, and adds it to the run
    /// list, ready to run.
    pub fn add_thread(&mut self, pid: Pid, tid: Tid, priority: Priority, sched: &mut Scheduler)
        requires
            old(self).entries().contains_key(pid@),
            old(sched).wf(),
            index_of_tid(old(sched).run_list@, tid) < 0,
        ensures
            final(self).pids == old(self).pids,
            final(self).entries().dom() == old(self).entries().dom(),
            forall|k: u64| #[trigger] old(self).entries().contains_key(k) && k != pid@
                ==> final(self).entries()[k] == old(self).entries()[k],
            final(self).entries()[pid@].pid == old(self).entries()[pid@].pid,
            final(self).entries()[pid@].parent == old(self).entries()[pid@].parent,
            final(self).entries()[pid@].children == old(self).entries()[pid@].children,
            final(self).entries()[pid@].threads@ == old(self).entries()[pid@].threads@.push(tid),
            final(sched).wf(),
            final(sched).run_list@ == old(sched).run_list@.push(
                ThreadInfo {
                    tid,
                    priority,
                    state: State::Ready,
                    quantum: QUANTUM,
                    need_scheduling: false,
                },
            ),
    {
        let ghost before = self.entries();
        match self.processes.remove(pid.value()) {
            Some(mut p) => {
                p.threads.push(tid);
                self.processes.insert(pid.value(), p);
                proof {
                    assert(self.entries().dom() =~= before.dom());
                }
            },
            None => {},
        }
        sched.add_thread(tid, priority);
    }

    /// Deletes the process `pid`: each of its children gets init as parent and joins init's
    /// children, then the identifier is released.
    pub fn delete(&mut self, pid: Pid)
        requires
            old(self).pids.wf(),
            old(self).pids.live().contains(pid@ as int),
            pid@ != INIT_PID,
            old(self).entries().contains_key(pid@),
            old(self).entries().contains_key(INIT_PID),
            forall|c: int|
                0 <= c < old(self).entries()[pid@].children@.len() ==> {
                    let k = (#[trigger] old(self).entries()[pid@].children@[c])@;
                    k != INIT_PID && k != pid@ && old(self).entries().contains_key(k)
                },
        ensures
            final(self).pids.wf(),
            final(self).pids.live() == old(self).pids.live().remove(pid@ as int),
            adopted(
                old(self).entries(),
                final(self).entries(),
                pid@,
                old(self).entries()[pid@].children@,
            ),
    {
        let ghost before = self.entries();
        let process = match self.processes.remove(pid.value()) {
            Some(p) => p,
            None => {
                return;
            },
        };
        let ghost children = process.children@;
        let mut init = match self.processes.remove(INIT_PID) {
            Some(p) => p,
            None => {
                return;
            },
        };
        let init_pid = init.pid;
        let n = process.children.len();
        let mut i: usize = 0;
        while i < n
            invariant
                n == children.len(),
                children == process.children@,
                self.pids.wf(),
                self.pids.live() == old(self).pids.live(),
                i <= n,
                pid@ != INIT_PID,
                init_pid == before[INIT_PID].pid,
                init.pid == before[INIT_PID].pid,
                init.parent == before[INIT_PID].parent,
                init.threads == before[INIT_PID].threads,
                init.children@ == before[INIT_PID].children@ + children.take(i as int),
                forall|c: int|
                    0 <= c < children.len() ==> {
                        let k = (#[trigger] children[c])@;
                        k != INIT_PID && k != pid@ && before.contains_key(k)
                    },
                !self.entries().contains_key(pid@),
                !self.entries().contains_key(INIT_PID),
                forall|k: u64|
                    k != pid@ && k != INIT_PID ==> (#[trigger] self.entries().contains_key(k)
                        <==> before.contains_key(k)),
                forall|k: u64|
                    #[trigger] self.entries().contains_key(k) ==> {
                        &&& self.entries()[k].pid == before[k].pid
                        &&& self.entries()[k].children == before[k].children
                        &&& self.entries()[k].threads == before[k].threads
                        &&& self.entries()[k].parent == if exists|c: int|
                            0 <= c < i && (#[trigger] children[c])@ == k {
                            Some(init_pid)
                        } else {
                            before[k].parent
                        }
                    },
            decreases n - i,
        {
            let child = process.children[i];
            let ghost cur = self.entries();
            proof {
                assert(children[i as int] == child);
                assert(before.contains_key(child@));
            }
            match self.processes.remove(child.value()) {
                Some(mut c) => {
                    c.parent = Some(init_pid);
                    self.processes.insert(child.value(), c);
                },
                None => {},
            }
            init.children.push(child);
            proof {
                assert(children.take(i + 1) =~= children.take(i as int).push(child));
                assert forall|k: u64| #[trigger]
                    self.entries().contains_key(k) implies self.entries()[k].parent == if exists|
                    c: int,
                |
                    0 <= c < i + 1 && (#[trigger] children[c])@ == k {
                    Some(init_pid)
                } else {
                    before[k].parent
                } by {
                    if k == child@ {
                        assert(children[i as int]@ == k);
                    } else {
                        if exists|c: int| 0 <= c < i + 1 && (#[trigger] children[c])@ == k {
                            let c = choose|c: int| 0 <= c < i + 1 && (#[trigger] children[c])@ == k;
                            assert(c < i);
                        }
                    }
                }
            }
            i = i + 1;
        }
        proof {
            assert(children.take(n as int) =~= children);
        }
        self.processes.insert(INIT_PID, init);
        pid.release(&mut self.pids);
        proof {
            let after = self.entries();
            assert forall|k: u64| k != pid@ implies (#[trigger] after.contains_key(k)
                <==> before.contains_key(k)) by {}
            assert forall|k: u64| #[trigger] after.contains_key(k) && k != INIT_PID implies {
                &&& after[k].pid == before[k].pid
                &&& after[k].children == before[k].children
                &&& after[k].threads == before[k].threads
                &&& after[k].parent == if exists|c: int|
                    0 <= c < children.len() && (#[trigger] children[c])@ == k {
                    Some(before[INIT_PID].pid)
                } else {
                    before[k].parent
                }
            } by {}
        }
    }
}

/// Every thread of the run list holds an identifier in use.
pub open spec fn run_list_live(s: Scheduler, tids: IdAllocator) -> bool {
    forall|j: int|
        0 <= j < s.run_list@.len() ==> tids.live().contains((#[trigger] s.run_list@[j]).tid@ as int)
}

/// Creates the first processes: the idle process, then, for each entry point, a process with
/// one kernel thread that starts there, of normal priority and ready to run. Returns the
/// threads, in the order of their entry points. A thread that cannot be built stops the
/// setup with its error.
pub fn setup(
    table: &mut ProcessTable,
    sched: &mut Scheduler,
    tids: &mut IdAllocator,
    vmalloc: &mut Vmalloc,
    tables: &mut PageTables,
    alloc: &mut Allocator,
    state: &mut FrameTable,
    entries: &Vec<usize>,
    kstack_size: usize,
) -> (r: Result<Vec<Thread>, CreationError>)
    requires
        old(table).pids.wf(),
        old(table).pids.used + entries@.len() + 1 < ID_MAX,
        old(tids).wf(),
        old(vmalloc).wf(),
        old(tables).wf(),
        old(tables).owns_frames(old(state)@),
        alloc_wf(old(alloc).statistic, old(state)@),
        old(sched).wf(),
        run_list_live(*old(sched), *old(tids)),
    ensures
        final(table).pids.wf(),
        final(tids).wf(),
        final(vmalloc).wf(),
        final(tables).wf(),
        final(tables).owns_frames(final(state)@),
        alloc_wf(final(alloc).statistic, final(state)@),
        final(sched).wf(),
        run_list_live(*final(sched), *final(tids)),
        r matches Ok(ts) ==> {
            &&& ts@.len() == entries@.len()
            &&& final(sched).run_list@.len() == old(sched).run_list@.len() + entries@.len()
            &&& final(table).pids.used == old(table).pids.used + entries@.len() + 1
            &&& forall|i: int|
                0 <= i < ts@.len() ==> {
                    &&& (#[trigger] ts@[i]).kind == Type::Kernel
                    &&& ts@[i].cpu_state.rip == entries@[i] as u64
                    &&& final(sched).run_list@[old(sched).run_list@.len() + i].tid == ts@[i].tid
                }
        },
{
    match table.create(None) {
        Some(_) => {},
        None => {
            return Err(CreationError::NoFreeTid);
        },
    }
    let ghost n0 = old(sched).run_list@.len();
    let ghost l0 = old(table).pids.live().len();
    let mut threads: Vec<Thread> = Vec::new();
    let mut i: usize = 0;
    while i < entries.len()
        invariant
            i <= entries@.len(),
            table.pids.wf(),
            table.pids.used == l0 + 1 + i,
            l0 == old(table).pids.used,
            old(table).pids.used + entries@.len() + 1 < ID_MAX,
            tids.wf(),
            vmalloc.wf(),
            tables.wf(),
            tables.owns_frames(state@),
            alloc_wf(alloc.statistic, state@),
            sched.wf(),
            run_list_live(*sched, *tids),
            threads@.len() == i,
            sched.run_list@.len() == n0 + i,
            n0 == old(sched).run_list@.len(),
            forall|q: int| 0 <= q < n0 ==> #[trigger] sched.run_list@[q] == old(sched).run_list@[q],
            forall|q: int|
                0 <= q < i ==> {
                    &&& (#[trigger] threads@[q]).kind == Type::Kernel
                    &&& threads@[q].cpu_state.rip == entries@[q] as u64
                    &&& sched.run_list@[n0 + q].tid == threads@[q].tid
                },
        decreases entries@.len() - i,
    {
        let pid = match table.create(None) {
            Some(p) => p,
            None => {
                return Err(CreationError::NoFreeTid);
            },
        };
        let builder = Builder::new().entry_point(entries[i]).kind(Type::Kernel).kstack_size(
            kstack_size,
        );
        let thread = match builder.build(tids, vmalloc, tables, alloc, state) {
            Ok(t) => t,
            Err(e) => {
                return Err(e);
            },
        };
        let ghost s0 = sched.run_list@;
        proof {
            assert forall|j: int| 0 <= j < s0.len() implies (#[trigger] s0[j]).tid != thread.tid by {
                assert(old(tids).live().len() >= 0);
            }
            lemma_tid_absent(s0, thread.tid);
        }
        table.add_thread(pid, thread.tid, Priority::Normal, sched);
        proof {
            assert forall|j: int| 0 <= j < sched.run_list@.len() implies tids.live().contains(
                (#[trigger] sched.run_list@[j]).tid@ as int,
            ) by {
                if j < s0.len() {
                    assert(sched.run_list@[j] == s0[j]);
                }
            }
        }
        threads.push(thread);
        i = i + 1;
    }
    Ok(threads)
}

/// Zombie reaping. When a process is deleted, each of its children has init as parent and is
/// listed among init's children, the process is gone from the table, and its identifier is
/// free: the children are adopted by the time the identifier is released.
pub proof fn lemma_children_adopted(
    before: Map<u64, Process>,
    after: Map<u64, Process>,
    pid: u64,
    children: Seq<Pid>,
)
    requires
        adopted(before, after, pid, children),
        before.contains_key(INIT_PID),
        pid != INIT_PID,
        forall|c: int|
            0 <= c < children.len() ==> {
                let k = (#[trigger] children[c])@;
                k != INIT_PID && k != pid && before.contains_key(k)
            },
    ensures
        !after.contains_key(pid),
        forall|c: int|
            0 <= c < children.len() ==> {
                let k = (#[trigger] children[c])@;
                &&& after.contains_key(k)
                &&& after[k].parent == Some(before[INIT_PID].pid)
                &&& after[INIT_PID].children@.contains(children[c])
            },
{
    assert forall|c: int| 0 <= c < children.len() implies {
        let k = (#[trigger] children[c])@;
        &&& after.contains_key(k)
        &&& after[k].parent == Some(before[INIT_PID].pid)
        &&& after[INIT_PID].children@.contains(children[c])
    } by {
        let k = children[c]@;
        assert(after.contains_key(k));
        assert(after[INIT_PID].children@[before[INIT_PID].children@.len() + c] == children[c]);
    }
}

} // verus!
