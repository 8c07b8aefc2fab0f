use vstd::prelude::*;

use crate::cpu::{self, Privilege, Selector, GDT_KERNEL_CODE64};
use crate::ident::{IdAllocator, Tid, ID_MAX};
use crate::frame_alloc::{alloc_wf, no_free_frame, Allocator};
use crate::frame_state::State as FrameTable;
use crate::page_table::{kept, PageTables};
use crate::vmm::{
    best_fit, round_up, VirtualRange, Vmalloc, VMM_ATOMIC, VMM_MAP, VMM_ZEROED,
};

verus! {

/// The kind of a thread.
#[derive(Debug, Clone, Copy, PartialEq, Eq, Structural)]
pub enum Type {
    User,
    Kernel,
}

/// The life cycle of a thread: Created, then Ready and Running in turn, until it blocks, waits,
/// sleeps or ends as a zombie.
#[derive(Debug, Clone, Copy, PartialEq, Eq, Structural)]
pub enum State {
    /// Created, not yet ready to run.
    Created,
    /// Ready to run.
    Ready,
    /// Running on a CPU.
    Running,
    /// Blocked.
    Blocked,
    /// Asleep; a signal can wake it.
    Waiting,
    /// Asleep; no signal can wake it.
    Sleeping,
    /// Ended, kept until its parent reads its exit status.
    Zombie,
}

/// Scheduling priority, lowest first. Idle threads run only when nothing else can.
#[derive(Debug, Clone, Copy, PartialEq, Eq, Structural)]
pub enum Priority {
    Idle,
    Low,
    Normal,
    High,
    Realtime,
}

/// Why a thread could not be created.
#[derive(Debug, Clone, Copy, PartialEq, Eq, Structural)]
pub enum CreationError {
    OutOfMemory,
    NoFreeTid,
}

/// Flag of a thread that has to be rescheduled.
pub const NEED_SCHEDULING: u64 = 1;

/// Default size of a kernel stack.
pub const DEFAULT_KSTACK_SIZE: usize = 32768;

/// A thread: its identifier, kind, flags, priority and state, its saved registers, its kernel
/// stack, and its exit status once it has ended.
pub struct Thread {
    pub tid: Tid,
    pub kind: Type,
    pub flags: u64,
    pub priority: Priority,
    pub exit_code: Option<i32>,
    pub exit_signal: Option<i32>,
    pub state: State,
    pub cpu_state: cpu::State,
    pub kstack: Option<VirtualRange>,
}

impl Thread {
    pub fn builder() -> (r: Builder)
        ensures
            r == Builder::default_spec(),
    {
        Builder::new()
    }

    /// Marks the thread for rescheduling.
    pub fn set_need_rescheduling(&mut self)
        ensures
            final(self).flags == old(self).flags | NEED_SCHEDULING,
            final(self).state == old(self).state,
            final(self).tid == old(self).tid,
    {
        self.flags = self.flags | NEED_SCHEDULING;
    }

    /// Clears the rescheduling mark.
    pub fn clear_need_rescheduling(&mut self)
        ensures
            final(self).flags == old(self).flags & !NEED_SCHEDULING,
            final(self).state == old(self).state,
            final(self).tid == old(self).tid,
    {
        self.flags = self.flags & !NEED_SCHEDULING;
    }

    pub fn need_rescheduling(&self) -> (r: bool)
        ensures
            r == (self.flags & NEED_SCHEDULING != 0),
    {
        self.flags & NEED_SCHEDULING != 0
    }

    pub fn exit_code(&self) -> (r: Option<i32>)
        ensures
            r == self.exit_code,
    {
        self.exit_code
    }

    pub fn exit_signal(&self) -> (r: Option<i32>)
        ensures
            r == self.exit_signal,
    {
        self.exit_signal
    }

    pub fn set_state(&mut self, state: State)
        ensures
            final(self).state == state,
            final(self).tid == old(self).tid,
            final(self).flags == old(self).flags,
    {
        self.state = state;
    }

    pub fn state(&self) -> (r: State)
        ensures
            r == self.state,
    {
        self.state
    }

    pub fn kind(&self) -> (r: Type)
        ensures
            r == self.kind,
    {
        self.kind
    }

    pub fn tid(&self) -> (r: Tid)
        ensures
            r == self.tid,
    {
        self.tid
    }

    /// Ends the thread with an exit code and signal: it becomes a zombie and gives its kernel
    /// stack back to vmalloc. Returns the stack's area, whose frames the caller unmaps.
    pub fn zombify(&mut self, exit_code: i32, exit_signal: i32, vmalloc: &mut Vmalloc) -> (r:
        Option<crate::vmm::VirtualArea>)
        requires
            old(vmalloc).wf(),
            old(self).kstack matches Some(k) ==> crate::vmm::index_of_start(
                old(vmalloc).used@,
                k.start,
            ) >= 0,
        ensures
            final(vmalloc).wf(),
            final(self).state == State::Zombie,
            final(self).exit_code == Some(exit_code),
            final(self).exit_signal == Some(exit_signal),
            final(self).kstack is None,
            final(self).tid == old(self).tid,
            old(self).kstack is None ==> r is None && final(vmalloc).used@ == old(vmalloc).used@,
            old(self).kstack matches Some(k) ==> ({
                let j = crate::vmm::index_of_start(old(vmalloc).used@, k.start);
                &&& r == Some(old(vmalloc).used@[j])
                &&& final(vmalloc).used@ == old(vmalloc).used@.remove(j)
            }),
    {
        self.exit_signal = Some(exit_signal);
        self.exit_code = Some(exit_code);
        self.state = State::Zombie;
        let area = match self.kstack {
            Some(k) => Some(vmalloc.deallocate(k)),
            None => None,
        };
        self.kstack = None;
        area
    }
}

/// Builds a thread.
pub struct Builder {
    pub entry_point: usize,
    pub kstack_size: usize,
    pub kind: Type,
    pub priority: Priority,
}

/// The selector of the kernel's 64-bit code segment.
pub open spec fn kernel_code_selector() -> u64 {
    (GDT_KERNEL_CODE64 * 8) as u64
}

impl Builder {
    pub open spec fn default_spec() -> Builder {
        Builder { entry_point: 0, kstack_size: 0, kind: Type::User, priority: Priority::Normal }
    }

    /// A user thread of normal priority, with no entry point and no stack size yet.
    pub fn new() -> (r: Builder)
        ensures
            r == Builder::default_spec(),
    {
        Builder { entry_point: 0, kstack_size: 0, kind: Type::User, priority: Priority::Normal }
    }

    pub fn kind(self, kind: Type) -> (r: Builder)
        ensures
            r == (Builder { kind, ..self }),
    {
        Builder { kind, ..self }
    }

    pub fn priority(self, priority: Priority) -> (r: Builder)
        ensures
            r == (Builder { priority, ..self }),
    {
        Builder { priority, ..self }
    }

    pub fn entry_point(self, entry_point: usize) -> (r: Builder)
        ensures
            r == (Builder { entry_point, ..self }),
    {
        Builder { entry_point, ..self }
    }

    pub fn kstack_size(self, kstack_size: usize) -> (r: Builder)
        ensures
            r == (Builder { kstack_size, ..self }),
    {
        Builder { kstack_size, ..self }
    }

    /// Creates the thread: a fresh identifier, a kernel stack from vmalloc mapped at once with
    /// zeroed frames, and registers that start it at its entry point on top of its stack, in the
    /// kernel code segment. Only kernel threads can be built. Fails with `NoFreeTid` when no
    /// identifier is left, and with `OutOfMemory`, giving the identifier back, when no stack
    /// can be had.
    pub fn build(
        self,
        ids: &mut IdAllocator,
        vmalloc: &mut Vmalloc,
        tables: &mut PageTables,
        alloc: &mut Allocator,
        state: &mut FrameTable,
    ) -> (r: Result<Thread, CreationError>)
        requires
            old(ids).wf(),
            old(vmalloc).wf(),
            old(tables).wf(),
            old(tables).owns_frames(old(state)@),
            alloc_wf(old(alloc).statistic, old(state)@),
            self.kind == Type::Kernel,
        ensures
            final(ids).wf(),
            final(vmalloc).wf(),
            final(tables).wf(),
            final(tables).owns_frames(final(state)@),
            alloc_wf(final(alloc).statistic, final(state)@),
            kept(*old(tables), *final(tables)),
            r == Err::<Thread, CreationError>(CreationError::NoFreeTid) <==> old(ids).used + 1
                >= ID_MAX,
            old(ids).used + 1 < ID_MAX && (self.kstack_size == 0 || best_fit(
                old(vmalloc).free@,
                round_up(self.kstack_size as int),
            ) < 0) ==> r == Err::<Thread, CreationError>(CreationError::OutOfMemory),
            r is Err ==> final(ids).live() == old(ids).live(),
            r == Err::<Thread, CreationError>(CreationError::OutOfMemory) ==> self.kstack_size == 0
                || best_fit(old(vmalloc).free@, round_up(self.kstack_size as int)) < 0
                || no_free_frame(final(state)@),
            r matches Ok(t) ==> {
                &&& !old(ids).live().contains(t.tid@ as int)
                &&& final(ids).live() == old(ids).live().insert(t.tid@ as int)
                &&& t.kind == Type::Kernel
                &&& t.priority == self.priority
                &&& t.state == State::Created
                &&& t.flags == 0
                &&& t.exit_code is None && t.exit_signal is None
                &&& t.kstack matches Some(k) && {
                    &&& final(vmalloc).used@ == old(vmalloc).used@.push(
                        crate::vmm::VirtualArea { range: k, flags: VMM_MAP | VMM_ZEROED },
                    )
                    &&& k.end - k.start == round_up(self.kstack_size as int)
                    &&& forall|q: int|
                        0 <= q < (k.end - k.start) / 4096 ==> (#[trigger] final(tables).leaf(
                            (k.start + q * 4096) as u64,
                        )) is Some
                    &&& t.cpu_state == (cpu::State {
                        rip: self.entry_point as u64,
                        cs: kernel_code_selector(),
                        ss: 0,
                        rsp: k.end,
                        ..cpu::zero_state()
                    })
                }
            },
    {
        let tid = match Tid::generate(ids) {
            Some(t) => t,
            None => {
                proof {
                    assert(kept(*old(tables), *tables));
                }
                return Err(CreationError::NoFreeTid);
            },
        };
        let flags = VMM_ATOMIC | VMM_MAP | VMM_ZEROED;
        proof {
            assert(crate::vmm::kept_flags(flags & !VMM_ATOMIC) == VMM_MAP | VMM_ZEROED)
                by (bit_vector)
                requires
                    flags == VMM_ATOMIC | VMM_MAP | VMM_ZEROED,
            ;
        }
        let kstack = match tables.allocate_mapped(alloc, state, vmalloc, self.kstack_size, flags) {
            Ok(range) => range,
            Err(_) => {
                tid.release(ids);
                proof {
                    assert(ids.live() =~= old(ids).live());
                }
                return Err(CreationError::OutOfMemory);
            },
        };
        let mut cpu_state = cpu::State::new();
        cpu_state.rip = self.entry_point as u64;
        cpu_state.cs = Selector::new(GDT_KERNEL_CODE64, Privilege::Ring0).value() as u64;
        cpu_state.ss = 0;
        cpu_state.rsp = kstack.end;
        Ok(
            Thread {
                tid,
                kind: self.kind,
                flags: 0,
                priority: self.priority,
                exit_code: None,
                exit_signal: None,
                state: State::Created,
                cpu_state,
                kstack: Some(kstack),
            },
        )
    }
}

} // verus!
