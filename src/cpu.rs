use vstd::prelude::*;

verus! {

/// Privilege rings of the CPU.
#[derive(Debug, Clone, Copy, PartialEq, Eq, Structural)]
pub enum Privilege {
    Ring0,
    Ring1,
    Ring2,
    Ring3,
}

impl Privilege {
    pub open spec fn level_spec(self) -> u16 {
        match self {
            Privilege::Ring0 => 0,
            Privilege::Ring1 => 1,
            Privilege::Ring2 => 2,
            Privilege::Ring3 => 3,
        }
    }

    /// The ring number.
    pub fn level(&self) -> (r: u16)
        ensures
            r == self.level_spec(),
    {
        match self {
            Privilege::Ring0 => 0,
            Privilege::Ring1 => 1,
            Privilege::Ring2 => 2,
            Privilege::Ring3 => 3,
        }
    }
}

/// GDT slots of the code and data segments, and the first slot of the TSS descriptors; each
/// CPU's TSS descriptor takes two slots.
pub const GDT_KERNEL_CODE64: u16 = 1;
pub const GDT_KERNEL_DATA: u16 = 2;
pub const GDT_USER_CODE64: u16 = 3;
pub const GDT_USER_DATA: u16 = 4;
pub const GDT_TSS_BASE: u16 = 6;

/// A segment selector: a GDT slot and a requested privilege level.
#[derive(Debug, Clone, Copy, PartialEq, Eq, Structural)]
pub struct Selector(pub u16);

impl Selector {
    /// The selector of GDT slot `index` at `privilege`.
    pub fn new(index: u16, privilege: Privilege) -> (r: Selector)
        requires
            index < 8192,
        ensures
            r.0 == index * 8 + privilege.level_spec(),
    {
        Selector(index * 8 + privilege.level())
    }

    pub fn value(&self) -> (r: u16)
        ensures
            r == self.0,
    {
        self.0
    }
}

/// GDT slot of the TSS descriptor of CPU `id`.
pub fn tss_slot(id: u16) -> (r: u16)
    requires
        id < 32,
    ensures
        r == GDT_TSS_BASE + 2 * id,
{
    GDT_TSS_BASE + 2 * id
}

/// The registers saved on interrupt entry, in the order the entry code pushes them: the FS
/// base shadow, the preserved and scratch registers, the return address into the entry code,
/// the vector and error code, and what the CPU pushes itself.
#[derive(Debug, Clone, Copy, PartialEq, Eq, Structural)]
pub struct State {
    pub fs: u64,
    pub rbp: u64,
    pub rbx: u64,
    pub r12: u64,
    pub r13: u64,
    pub r14: u64,
    pub r15: u64,
    pub rax: u64,
    pub rcx: u64,
    pub rdx: u64,
    pub rsi: u64,
    pub rdi: u64,
    pub r8: u64,
    pub r9: u64,
    pub r10: u64,
    pub r11: u64,
    pub address: u64,
    pub number: u64,
    pub code: u64,
    pub rip: u64,
    pub cs: u64,
    pub rflags: u64,
    pub rsp: u64,
    pub ss: u64,
}

/// All registers zero.
pub open spec fn zero_state() -> State {
    State {
        fs: 0,
        rbp: 0,
        rbx: 0,
        r12: 0,
        r13: 0,
        r14: 0,
        r15: 0,
        rax: 0,
        rcx: 0,
        rdx: 0,
        rsi: 0,
        rdi: 0,
        r8: 0,
        r9: 0,
        r10: 0,
        r11: 0,
        address: 0,
        number: 0,
        code: 0,
        rip: 0,
        cs: 0,
        rflags: 0,
        rsp: 0,
        ss: 0,
    }
}

impl State {
    /// A frame with every register zero.
    pub fn new() -> (r: State)
        ensures
            r == zero_state(),
    {
        State {
            fs: 0,
            rbp: 0,
            rbx: 0,
            r12: 0,
            r13: 0,
            r14: 0,
            r15: 0,
            rax: 0,
            rcx: 0,
            rdx: 0,
            rsi: 0,
            rdi: 0,
            r8: 0,
            r9: 0,
            r10: 0,
            r11: 0,
            address: 0,
            number: 0,
            code: 0,
            rip: 0,
            cs: 0,
            rflags: 0,
            rsp: 0,
            ss: 0,
        }
    }
}

} // verus!
