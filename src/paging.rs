use vstd::prelude::*;

use crate::address::{HEAP_END, HEAP_START, VMALLOC_END, VMALLOC_START};
use crate::frame::{Frame, ALLOC_KERNEL, ALLOC_ZEROED};
use crate::frame_alloc::{alloc_wf, suits, takes_frame, Allocator};
use crate::frame_state::{FrameState, State};
use crate::vmm::Vmalloc;

verus! {

/// Reasons of an unrecoverable page fault, combined as a bit set.
pub const PF_UNKNOWN: u64 = 0;
pub const PF_MISSING_PAGE: u64 = 2;
pub const PF_PROTECTION_VIOLATION: u64 = 4;
pub const PF_WRITE_PROTECTED: u64 = 8;
pub const PF_NOT_EXECUTABLE: u64 = 16;
pub const PF_OUT_OF_MEMORY: u64 = 32;
pub const PF_NOT_MAPPABLE: u64 = 64;
pub const PF_ALREADY_MAPPED: u64 = 128;

/// Bits of the error code the CPU pushes on a page fault.
pub const FAULT_PROTECTION_VIOLATION: u64 = 1;
pub const FAULT_WRITE_ACCESS: u64 = 2;
pub const FAULT_USER_ACCESS: u64 = 4;
pub const FAULT_INSTRUCTION_FETCH: u64 = 16;

/// Flags of a page table entry.
pub const PAGE_PRESENT: u64 = 1;
pub const PAGE_WRITABLE: u64 = 2;
pub const PAGE_USER: u64 = 4;
pub const PAGE_WRITE_THROUGH: u64 = 8;
pub const PAGE_NO_CACHE: u64 = 16;
pub const PAGE_GLOBAL: u64 = 256;
pub const PAGE_NO_EXECUTE: u64 = 0x8000_0000_0000_0000;

/// The bits of an entry that hold the physical address of the page or next table.
pub const ADDRESS_MASK: u64 = 0x000F_FFFF_FFFF_F000;

/// Number of entries of a page table.
pub const TABLE_ENTRIES: usize = 512;

/// First PML4 slot of kernel space.
pub const KERNEL_HALF: usize = 256;

/// Why a mapping could not be made.
#[derive(Debug, Clone, Copy, PartialEq, Eq, Structural)]
pub enum MapError {
    OutOfMemory,
    AlreadyMapped,
}

/// How a page fault was resolved.
#[derive(Debug, Clone, Copy, PartialEq, Eq, Structural)]
pub enum PageFaultType {
    /// The entry was present already: a stale translation, cured by a TLB flush.
    LazyTlbInvalidation,
    /// A frame was allocated and mapped on demand.
    DemandPaging,
}

/// The first thing to try on a page fault.
#[derive(Debug, Clone, Copy, PartialEq, Eq, Structural)]
pub enum FaultStep {
    /// Flush the TLB and return.
    FlushTlb,
    /// Populate the page on demand.
    DemandPaging,
    /// Nothing can resolve it.
    Unrecoverable,
}

/// One entry of a page table.
#[derive(Debug, Clone, Copy, PartialEq, Eq, Structural)]
pub struct PageEntry {
    pub bits: u64,
}

proof fn lemma_set_address(bits: u64, address: u64)
    requires
        address & ADDRESS_MASK == address,
    ensures
        ((bits & !ADDRESS_MASK) | address) & ADDRESS_MASK == address,
        ((bits & !ADDRESS_MASK) | address) & !ADDRESS_MASK == bits & !ADDRESS_MASK,
{
    assert(((bits & !ADDRESS_MASK) | address) & ADDRESS_MASK == address
        && ((bits & !ADDRESS_MASK) | address) & !ADDRESS_MASK == bits & !ADDRESS_MASK)
        by (bit_vector)
        requires
            address & ADDRESS_MASK == address,
    ;
}

proof fn lemma_set_flags(bits: u64, flags: u64)
    requires
        flags & ADDRESS_MASK == 0,
    ensures
        ((bits & ADDRESS_MASK) | flags) & !ADDRESS_MASK == flags,
        ((bits & ADDRESS_MASK) | flags) & ADDRESS_MASK == bits & ADDRESS_MASK,
{
    assert(((bits & ADDRESS_MASK) | flags) & !ADDRESS_MASK == flags && ((bits & ADDRESS_MASK)
        | flags) & ADDRESS_MASK == bits & ADDRESS_MASK) by (bit_vector)
        requires
            flags & ADDRESS_MASK == 0,
    ;
}

impl PageEntry {
    pub open spec fn address_spec(self) -> u64 {
        self.bits & ADDRESS_MASK
    }

    pub open spec fn flags_spec(self) -> u64 {
        self.bits & !ADDRESS_MASK
    }

    pub open spec fn present_spec(self) -> bool {
        self.bits & PAGE_PRESENT != 0
    }

    /// An empty entry.
    pub fn empty() -> (r: PageEntry)
        ensures
            r.bits == 0,
    {
        PageEntry { bits: 0 }
    }

    pub fn is_present(&self) -> (r: bool)
        ensures
            r == self.present_spec(),
    {
        self.bits & PAGE_PRESENT != 0
    }

    pub fn is_writable(&self) -> (r: bool)
        ensures
            r == (self.bits & PAGE_WRITABLE != 0),
    {
        self.bits & PAGE_WRITABLE != 0
    }

    pub fn is_executable(&self) -> (r: bool)
        ensures
            r == (self.bits & PAGE_NO_EXECUTE == 0),
    {
        self.bits & PAGE_NO_EXECUTE == 0
    }

    /// Physical address the entry points to.
    pub fn address(&self) -> (r: u64)
        ensures
            r == self.address_spec(),
    {
        self.bits & ADDRESS_MASK
    }

    /// The flag bits of the entry.
    pub fn flags(&self) -> (r: u64)
        ensures
            r == self.flags_spec(),
    {
        self.bits & !ADDRESS_MASK
    }

    /// Points the entry to `address`, a page-aligned physical address; the flags stay.
    pub fn set_address(&mut self, address: u64)
        requires
            address & ADDRESS_MASK == address,
        ensures
            final(self).address_spec() == address,
            final(self).flags_spec() == old(self).flags_spec(),
    {
        proof {
            lemma_set_address(self.bits, address);
        }
        self.bits = (self.bits & !ADDRESS_MASK) | address;
    }

    /// Replaces the flags of the entry; the address stays.
    pub fn set_flags(&mut self, flags: u64)
        requires
            flags & ADDRESS_MASK == 0,
        ensures
            final(self).flags_spec() == flags,
            final(self).address_spec() == old(self).address_spec(),
    {
        proof {
            lemma_set_flags(self.bits, flags);
        }
        self.bits = (self.bits & ADDRESS_MASK) | flags;
    }

    /// Clears the entry.
    pub fn clear(&mut self)
        ensures
            final(self).bits == 0,
    {
        self.bits = 0;
    }
}

/// Index into the table of `level` (4 for the PML4, 1 for the last table) for the virtual
/// address `v`.
pub open spec fn page_index_spec(v: u64, level: u64) -> u64 {
    (v >> (12 + 9 * (level - 1)) as u64) & 0x1FF
}

pub proof fn lemma_page_index_bound(v: u64, level: u64)
    requires
        1 <= level <= 4,
    ensures
        page_index_spec(v, level) < 512,
{
    let s = (12 + 9 * (level - 1)) as u64;
    assert((v >> s) & 0x1FF < 512) by (bit_vector);
}

pub fn page_index(v: u64, level: u64) -> (r: usize)
    requires
        1 <= level <= 4,
    ensures
        r == page_index_spec(v, level),
        r < 512,
{
    let shift: u64 = 12 + 9 * (level - 1);
    let r = (v >> shift) & 0x1FF;
    assert(r < 512) by (bit_vector)
        requires
            r == (v >> shift) & 0x1FF,
    ;
    r as usize
}

/// What to try first on a fault with error `code`, given the leaf entry found by walking the
/// table (`None` when the walk meets an absent entry). A present entry with no protection
/// violation is a stale translation; an absent one is a candidate for demand paging.
pub open spec fn fault_step_spec(leaf: Option<PageEntry>, code: u64) -> FaultStep {
    let present = leaf matches Some(e) && e.present_spec();
    if code & FAULT_PROTECTION_VIOLATION != 0 {
        FaultStep::Unrecoverable
    } else if present {
        FaultStep::FlushTlb
    } else {
        FaultStep::DemandPaging
    }
}

pub fn fault_step(leaf: Option<PageEntry>, code: u64) -> (r: FaultStep)
    ensures
        r == fault_step_spec(leaf, code),
{
    let present = match leaf {
        Some(e) => e.is_present(),
        None => false,
    };
    if code & FAULT_PROTECTION_VIOLATION != 0 {
        FaultStep::Unrecoverable
    } else if present {
        FaultStep::FlushTlb
    } else {
        FaultStep::DemandPaging
    }
}

/// The reasons of an unrecoverable fault: what demand paging reported (`demand`, zero when it
/// was not tried), and then, for a protection violation on a present entry, a write to a
/// read-only page, else a fetch from a non-executable page, else a plain violation; for any
/// other fault, a missing page.
pub open spec fn fault_reasons_spec(leaf: Option<PageEntry>, code: u64, demand: u64) -> u64 {
    if code & FAULT_PROTECTION_VIOLATION != 0 {
        match leaf {
            Some(e) => if e.bits & PAGE_WRITABLE == 0 && code & FAULT_WRITE_ACCESS != 0 {
                demand | PF_WRITE_PROTECTED
            } else if e.bits & PAGE_NO_EXECUTE != 0 && code & FAULT_INSTRUCTION_FETCH != 0 {
                demand | PF_NOT_EXECUTABLE
            } else {
                demand | PF_PROTECTION_VIOLATION
            },
            None => demand,
        }
    } else {
        demand | PF_MISSING_PAGE
    }
}

pub fn fault_reasons(leaf: Option<PageEntry>, code: u64, demand: u64) -> (r: u64)
    ensures
        r == fault_reasons_spec(leaf, code, demand),
{
    if code & FAULT_PROTECTION_VIOLATION != 0 {
        match leaf {
            Some(e) => if !e.is_writable() && code & FAULT_WRITE_ACCESS != 0 {
                demand | PF_WRITE_PROTECTED
            } else if !e.is_executable() && code & FAULT_INSTRUCTION_FETCH != 0 {
                demand | PF_NOT_EXECUTABLE
            } else {
                demand | PF_PROTECTION_VIOLATION
            },
            None => demand,
        }
    } else {
        demand | PF_MISSING_PAGE
    }
}

/// The reason a failed mapping gives to a fault.
pub fn map_error_reason(e: MapError) -> (r: u64)
    ensures
        r == match e {
            MapError::OutOfMemory => PF_OUT_OF_MEMORY,
            MapError::AlreadyMapped => PF_ALREADY_MAPPED,
        },
{
    match e {
        MapError::OutOfMemory => PF_OUT_OF_MEMORY,
        MapError::AlreadyMapped => PF_ALREADY_MAPPED,
    }
}

/// How demand paging serves a fault at `address`: the frame allocation flags and the entry
/// flags to map a fresh frame with, or the reason it cannot. Heap pages get a zeroed kernel
/// frame, writable and not executable; vmalloc pages follow their area; any other address is
/// unknown ground.
pub open spec fn demand_paging_plan_spec(address: u64, vmalloc: &Vmalloc) -> Result<(u64, u64), u64> {
    if HEAP_START <= address < HEAP_END {
        Ok((ALLOC_KERNEL | ALLOC_ZEROED, PAGE_PRESENT | PAGE_WRITABLE | PAGE_NO_EXECUTE))
    } else if VMALLOC_START <= address < VMALLOC_END {
        match vmalloc.demand_paging_spec(address) {
            Ok(f) => Ok((f, PAGE_PRESENT | PAGE_WRITABLE)),
            Err(e) => Err(e),
        }
    } else {
        Err(PF_UNKNOWN)
    }
}

pub fn demand_paging_plan(address: u64, vmalloc: &Vmalloc) -> (r: Result<(u64, u64), u64>)
    ensures
        r == demand_paging_plan_spec(address, vmalloc),
{
    if address >= HEAP_START && address < HEAP_END {
        Ok((ALLOC_KERNEL | ALLOC_ZEROED, PAGE_PRESENT | PAGE_WRITABLE | PAGE_NO_EXECUTE))
    } else if address >= VMALLOC_START && address < VMALLOC_END {
        match vmalloc.demand_paging(address) {
            Ok(f) => Ok((f, PAGE_PRESENT | PAGE_WRITABLE)),
            Err(e) => Err(e),
        }
    } else {
        Err(PF_UNKNOWN)
    }
}

/// A root page table (PML4), held in one frame of its own.
pub struct TableRoot {
    pub frame: Frame,
    pub entries: Vec<PageEntry>,
}

impl TableRoot {
    pub open spec fn wf(&self) -> bool {
        self.entries@.len() == TABLE_ENTRIES
    }

    /// Wraps a PML4 already in memory, at `frame`, with the given entries.
    pub fn from(frame: Frame, entries: Vec<PageEntry>) -> (r: TableRoot)
        ensures
            r.frame == frame,
            r.entries@ == entries@,
    {
        TableRoot { frame, entries }
    }

    /// A new address space: a fresh kernel frame, an empty user half, and the kernel half of
    /// `init`. Returns `None` when no frame is left.
    pub fn new(alloc: &mut Allocator, state: &mut State, init: &TableRoot) -> (r: Option<
        TableRoot,
    >)
        requires
            alloc_wf(old(alloc).statistic, old(state)@),
            init.wf(),
        ensures
            alloc_wf(final(alloc).statistic, final(state)@),
            r is None <==> forall|i: int|
                0 <= i < old(state)@.len() ==> !suits(#[trigger] old(state)@[i], ALLOC_KERNEL | ALLOC_ZEROED),
            r is None ==> final(state)@ == old(state)@,
            r matches Some(t) ==> takes_frame(
                old(state)@,
                final(state)@,
                t.frame@,
                ALLOC_KERNEL | ALLOC_ZEROED,
            ),
            r matches Some(t) ==> {
                &&& t.wf()
                &&& forall|i: int| 0 <= i < KERNEL_HALF ==> (#[trigger] t.entries@[i]).bits == 0
                &&& forall|i: int|
                    KERNEL_HALF <= i < TABLE_ENTRIES ==> #[trigger] t.entries@[i]
                        == init.entries@[i]
            },
    {
        let frame = match alloc.allocate(state, ALLOC_KERNEL | ALLOC_ZEROED) {
            Some(f) => f,
            None => {
                return None;
            },
        };
        let mut entries: Vec<PageEntry> = Vec::new();
        let mut i: usize = 0;
        while i < TABLE_ENTRIES
            invariant
                i <= TABLE_ENTRIES,
                init.wf(),
                entries@.len() == i,
                forall|k: int| 0 <= k < i && k < KERNEL_HALF ==> (#[trigger] entries@[k]).bits == 0,
                forall|k: int|
                    KERNEL_HALF <= k < i ==> #[trigger] entries@[k] == init.entries@[k],
            decreases TABLE_ENTRIES - i,
        {
            if i < KERNEL_HALF {
                entries.push(PageEntry::empty());
            } else {
                entries.push(init.entries[i]);
            }
            i = i + 1;
        }
        Some(TableRoot { frame, entries })
    }

    /// A copy of this address space in a fresh kernel frame: all entries are copied. Returns
    /// `None` when no frame is left.
    pub fn clone_root(&self, alloc: &mut Allocator, state: &mut State) -> (r: Option<TableRoot>)
        requires
            alloc_wf(old(alloc).statistic, old(state)@),
            self.wf(),
        ensures
            alloc_wf(final(alloc).statistic, final(state)@),
            r matches Some(t) ==> t.wf() && t.entries@ == self.entries@,
            r is None <==> forall|i: int|
                0 <= i < old(state)@.len() ==> !suits(#[trigger] old(state)@[i], ALLOC_KERNEL | ALLOC_ZEROED),
            r is None ==> final(state)@ == old(state)@,
            r matches Some(t) ==> takes_frame(
                old(state)@,
                final(state)@,
                t.frame@,
                ALLOC_KERNEL | ALLOC_ZEROED,
            ),
            r matches Some(t) ==> (self.frame@ / 4096 < old(state)@.len() && old(state)@[(self.frame@
                / 4096) as int].state == FrameState::Allocated ==> t.frame@ != self.frame@),
    {
        let frame = match alloc.allocate(state, ALLOC_KERNEL | ALLOC_ZEROED) {
            Some(f) => f,
            None => {
                return None;
            },
        };
        let mut entries: Vec<PageEntry> = Vec::new();
        let mut i: usize = 0;
        while i < TABLE_ENTRIES
            invariant
                i <= TABLE_ENTRIES,
                self.wf(),
                entries@ == self.entries@.take(i as int),
            decreases TABLE_ENTRIES - i,
        {
            entries.push(self.entries[i]);
            proof {
                assert(self.entries@.take(i + 1) =~= self.entries@.take(i as int).push(
                    self.entries@[i as int],
                ));
            }
            i = i + 1;
        }
        proof {
            assert(self.entries@.take(TABLE_ENTRIES as int) =~= self.entries@);
        }
        Some(TableRoot { frame, entries })
    }

    /// Gives every absent kernel-half slot a fresh kernel frame, present and writable, so that
    /// every address space made later shares the kernel mappings. Returns `false` when frames
    /// ran out; the slots filled so far stay filled.
    pub fn preallocate_kernel(&mut self, alloc: &mut Allocator, state: &mut State) -> (r: bool)
        requires
            alloc_wf(old(alloc).statistic, old(state)@),
            old(self).wf(),
        ensures
            alloc_wf(final(alloc).statistic, final(state)@),
            final(self).wf(),
            final(self).frame == old(self).frame,
            forall|i: int| 0 <= i < KERNEL_HALF ==> #[trigger] final(self).entries@[i] == old(
                self,
            ).entries@[i],
            forall|i: int|
                KERNEL_HALF <= i < TABLE_ENTRIES && (#[trigger] old(self).entries@[i]).present_spec()
                    ==> final(self).entries@[i] == old(self).entries@[i],
            r ==> forall|i: int|
                KERNEL_HALF <= i < TABLE_ENTRIES ==> (#[trigger] final(self).entries@[i]).present_spec(),
            !r ==> forall|i: int|
                0 <= i < final(state)@.len() ==> !suits(#[trigger] final(state)@[i], ALLOC_KERNEL),
    {
        let mut i: usize = KERNEL_HALF;
        while i < TABLE_ENTRIES
            invariant
                KERNEL_HALF <= i <= TABLE_ENTRIES,
                alloc_wf(alloc.statistic, state@),
                self.wf(),
                self.frame == old(self).frame,
                forall|k: int|
                    0 <= k < TABLE_ENTRIES && (k < KERNEL_HALF || k >= i) ==> #[trigger] self.entries@[k]
                        == old(self).entries@[k],
                forall|k: int|
                    KERNEL_HALF <= k < i && (#[trigger] old(self).entries@[k]).present_spec()
                        ==> self.entries@[k] == old(self).entries@[k],
                forall|k: int| KERNEL_HALF <= k < i ==> (#[trigger] self.entries@[k]).present_spec(),
            decreases TABLE_ENTRIES - i,
        {
            if !self.entries[i].is_present() {
                let frame = match alloc.allocate(state, ALLOC_KERNEL) {
                    Some(f) => f,
                    None => {
                        return false;
                    },
                };
                let address = frame.start();
                let bits = address | PAGE_PRESENT | PAGE_WRITABLE;
                assert(bits & PAGE_PRESENT != 0) by (bit_vector)
                    requires
                        bits == address | PAGE_PRESENT | PAGE_WRITABLE,
                ;
                self.entries.set(i, PageEntry { bits });
            }
            i = i + 1;
        }
        true
    }
}

/// Kernel-half sharing. Two address spaces made from the same root after the kernel half was
/// preallocated hold the same kernel-half entries, and so does a copy of either.
pub proof fn lemma_kernel_half_shared(init: TableRoot, a: TableRoot, b: TableRoot, c: TableRoot)
    requires
        init.wf(),
        forall|i: int|
            KERNEL_HALF <= i < TABLE_ENTRIES ==> #[trigger] a.entries@[i] == init.entries@[i],
        forall|i: int|
            KERNEL_HALF <= i < TABLE_ENTRIES ==> #[trigger] b.entries@[i] == init.entries@[i],
        c.entries@ == a.entries@,
    ensures
        forall|i: int|
            KERNEL_HALF <= i < TABLE_ENTRIES ==> #[trigger] a.entries@[i] == b.entries@[i]
                && c.entries@[i] == b.entries@[i],
{
}

} // verus!
