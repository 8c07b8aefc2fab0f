use vstd::prelude::*;

use crate::frame::{
    Frame, Stats, BIOS_LIMIT, FRAME_BIOS, FRAME_BORROWED, FRAME_DIRTY, FRAME_FREE,
    FRAME_ISA, FRAME_KERNEL, FRAME_POISONED, FRAME_RESERVED, FRAME_X86, FRAME_ZEROED, ISA_LIMIT,
    MAX_PHYSICAL, X86_LIMIT,
};

verus! {

/// Size in bytes of one record of the frame table, as laid out in physical memory.
pub const FRAME_INFO_SIZE: u64 = 24;

/// The class a frame belongs to. Exactly one holds of every frame.
#[derive(Debug, Clone, Copy, PartialEq, Eq, Structural)]
pub enum FrameState {
    Poisoned,
    Reserved,
    Free,
    Allocated,
}

/// What the kernel knows of one physical frame: its flag word, its class and ownership bits as
/// read from that word, and its reference count.
#[derive(Debug, Clone, Copy)]
pub struct FrameInfo {
    pub frame: Frame,
    pub flags: u64,
    pub state: FrameState,
    pub kernel: bool,
    pub borrowed: bool,
    pub zeroed: bool,
    pub dirty: bool,
    pub count: u64,
}

/// The BIOS, ISA and X86 bits of a frame, fixed by its address.
pub open spec fn placement_bits(address: u64) -> u64 {
    (if address < BIOS_LIMIT { FRAME_BIOS } else { 0 }) | (if address < ISA_LIMIT {
        FRAME_ISA
    } else {
        0
    }) | (if address < X86_LIMIT { FRAME_X86 } else { 0 })
}

pub open spec fn state_bits(s: FrameState) -> u64 {
    match s {
        FrameState::Poisoned => FRAME_POISONED,
        FrameState::Reserved => FRAME_RESERVED,
        FrameState::Free => FRAME_FREE,
        FrameState::Allocated => 0,
    }
}

/// The flag word of a frame record.
pub open spec fn flags_of(f: FrameInfo) -> u64 {
    state_bits(f.state) | (if f.kernel { FRAME_KERNEL } else { 0 }) | (if f.borrowed {
        FRAME_BORROWED
    } else {
        0
    }) | (if f.zeroed { FRAME_ZEROED } else { 0 }) | (if f.dirty { FRAME_DIRTY } else { 0 })
        | placement_bits(f.frame@)
}

/// The class named by a flag word, the first of POISONED, RESERVED and FREE that it holds;
/// a word with none of them names a poisoned frame.
pub open spec fn state_from_flags(flags: u64) -> FrameState {
    if flags & FRAME_POISONED != 0 {
        FrameState::Poisoned
    } else if flags & FRAME_RESERVED != 0 {
        FrameState::Reserved
    } else if flags & FRAME_FREE != 0 {
        FrameState::Free
    } else {
        FrameState::Poisoned
    }
}

impl FrameInfo {
    /// A record for `frame` holding the flag word `flags` as given, with a reference count of
    /// zero. Its class and ownership bits are read from the word.
    pub fn new(frame: Frame, flags: u64) -> (r: FrameInfo)
        ensures
            r.frame == frame,
            r.flags == flags,
            r.state == state_from_flags(flags),
            r.kernel == (flags & FRAME_KERNEL != 0),
            r.borrowed == (flags & FRAME_BORROWED != 0),
            r.zeroed == (flags & FRAME_ZEROED != 0),
            r.dirty == (flags & FRAME_DIRTY != 0),
            r.count == 0,
    {
        let state = if flags & FRAME_POISONED != 0 {
            FrameState::Poisoned
        } else if flags & FRAME_RESERVED != 0 {
            FrameState::Reserved
        } else if flags & FRAME_FREE != 0 {
            FrameState::Free
        } else {
            FrameState::Poisoned
        };
        FrameInfo {
            frame,
            flags,
            state,
            kernel: flags & FRAME_KERNEL != 0,
            borrowed: flags & FRAME_BORROWED != 0,
            zeroed: flags & FRAME_ZEROED != 0,
            dirty: flags & FRAME_DIRTY != 0,
            count: 0,
        }
    }

    pub fn get_frame(&self) -> (r: &Frame)
        ensures
            *r == self.frame,
    {
        &self.frame
    }

    /// The flag word of the frame.
    pub fn get_flags(&self) -> (r: u64)
        ensures
            r == self.flags,
    {
        self.flags
    }

    /// The flag word that the class, ownership bits and address of the record make up.
    pub(crate) fn flag_word(&self) -> (r: u64)
        ensures
            r == flags_of(*self),
    {
        let state = match self.state {
            FrameState::Poisoned => FRAME_POISONED,
            FrameState::Reserved => FRAME_RESERVED,
            FrameState::Free => FRAME_FREE,
            FrameState::Allocated => 0,
        };
        let address = self.frame.start();
        state | (if self.kernel {
            FRAME_KERNEL
        } else {
            0
        }) | (if self.borrowed {
            FRAME_BORROWED
        } else {
            0
        }) | (if self.zeroed {
            FRAME_ZEROED
        } else {
            0
        }) | (if self.dirty {
            FRAME_DIRTY
        } else {
            0
        }) | ((if address < BIOS_LIMIT {
            FRAME_BIOS
        } else {
            0
        }) | (if address < ISA_LIMIT {
            FRAME_ISA
        } else {
            0
        }) | (if address < X86_LIMIT {
            FRAME_X86
        } else {
            0
        }))
    }

    pub fn get_count(&self) -> (r: u64)
        ensures
            r == self.count,
    {
        self.count
    }

    /// Counts one more user of the frame. The count must not overflow.
    pub fn retain(&mut self)
        requires
            old(self).count < u64::MAX,
        ensures
            *final(self) == (FrameInfo { count: (old(self).count + 1) as u64, ..*old(self) }),
    {
        self.count = self.count + 1;
    }

    /// Counts one user less. The frame must be in use.
    pub fn release(&mut self)
        requires
            old(self).count > 0,
        ensures
            *final(self) == (FrameInfo { count: (old(self).count - 1) as u64, ..*old(self) }),
    {
        self.count = self.count - 1;
    }
}

/// Number of records of `s` that satisfy `p`.
pub open spec fn count_where(s: Seq<FrameInfo>, p: spec_fn(FrameInfo) -> bool) -> nat
    decreases s.len(),
{
    if s.len() == 0 {
        0
    } else {
        count_where(s.drop_last(), p) + if p(s.last()) {
            1nat
        } else {
            0nat
        }
    }
}

pub open spec fn count_state(s: Seq<FrameInfo>, st: FrameState) -> nat {
    count_where(s, |f: FrameInfo| f.state == st)
}

pub open spec fn count_kernel(s: Seq<FrameInfo>) -> nat {
    count_where(s, |f: FrameInfo| f.kernel)
}

pub open spec fn count_borrowed(s: Seq<FrameInfo>) -> nat {
    count_where(s, |f: FrameInfo| f.borrowed)
}

pub proof fn lemma_count_bounded(s: Seq<FrameInfo>, p: spec_fn(FrameInfo) -> bool)
    ensures
        count_where(s, p) <= s.len(),
    decreases s.len(),
{
    if s.len() > 0 {
        lemma_count_bounded(s.drop_last(), p);
    }
}

/// A record that satisfies `p` is counted.
pub proof fn lemma_count_positive(s: Seq<FrameInfo>, i: int, p: spec_fn(FrameInfo) -> bool)
    requires
        0 <= i < s.len(),
        p(s[i]),
    ensures
        count_where(s, p) >= 1,
    decreases s.len(),
{
    if i < s.len() - 1 {
        lemma_count_positive(s.drop_last(), i, p);
    }
}

/// Replacing one record changes a count by what the old and the new record contribute.
pub proof fn lemma_count_update(
    s: Seq<FrameInfo>,
    i: int,
    v: FrameInfo,
    p: spec_fn(FrameInfo) -> bool,
)
    requires
        0 <= i < s.len(),
    ensures
        count_where(s.update(i, v), p) + (if p(s[i]) {
            1int
        } else {
            0int
        }) == count_where(s, p) + (if p(v) {
            1int
        } else {
            0int
        }),
    decreases s.len(),
{
    let t = s.update(i, v);
    if i == s.len() - 1 {
        assert(t.drop_last() =~= s.drop_last());
    } else {
        assert(t.drop_last() =~= s.drop_last().update(i, v));
        lemma_count_update(s.drop_last(), i, v, p);
    }
}

pub proof fn lemma_count_push(s: Seq<FrameInfo>, v: FrameInfo, p: spec_fn(FrameInfo) -> bool)
    ensures
        count_where(s.push(v), p) == count_where(s, p) + (if p(v) {
            1nat
        } else {
            0nat
        }),
{
    assert(s.push(v).drop_last() =~= s);
}

pub proof fn lemma_count_state_update(s: Seq<FrameInfo>, i: int, v: FrameInfo, st: FrameState)
    requires
        0 <= i < s.len(),
    ensures
        count_state(s.update(i, v), st) + (if s[i].state == st {
            1int
        } else {
            0int
        }) == count_state(s, st) + (if v.state == st {
            1int
        } else {
            0int
        }),
        count_state(s.update(i, v), st) <= s.len(),
        s[i].state == st ==> count_state(s, st) >= 1,
{
    lemma_count_update(s, i, v, |f: FrameInfo| f.state == st);
    if s[i].state == st {
        lemma_count_positive(s, i, |f: FrameInfo| f.state == st);
    }
    lemma_count_bounded(s.update(i, v), |f: FrameInfo| f.state == st);
}

pub proof fn lemma_count_owned_update(s: Seq<FrameInfo>, i: int, v: FrameInfo)
    requires
        0 <= i < s.len(),
    ensures
        count_kernel(s.update(i, v)) + (if s[i].kernel {
            1int
        } else {
            0int
        }) == count_kernel(s) + (if v.kernel {
            1int
        } else {
            0int
        }),
        count_borrowed(s.update(i, v)) + (if s[i].borrowed {
            1int
        } else {
            0int
        }) == count_borrowed(s) + (if v.borrowed {
            1int
        } else {
            0int
        }),
        count_kernel(s.update(i, v)) <= s.len(),
        count_borrowed(s.update(i, v)) <= s.len(),
        s[i].kernel ==> count_kernel(s) >= 1,
        s[i].borrowed ==> count_borrowed(s) >= 1,
{
    if s[i].kernel {
        lemma_count_positive(s, i, |f: FrameInfo| f.kernel);
    }
    if s[i].borrowed {
        lemma_count_positive(s, i, |f: FrameInfo| f.borrowed);
    }
    lemma_count_update(s, i, v, |f: FrameInfo| f.kernel);
    lemma_count_bounded(s.update(i, v), |f: FrameInfo| f.kernel);
    lemma_count_update(s, i, v, |f: FrameInfo| f.borrowed);
    lemma_count_bounded(s.update(i, v), |f: FrameInfo| f.borrowed);
}

/// Every record is in exactly one class, so the four class counts add up to the table size.
pub proof fn lemma_classes_partition(s: Seq<FrameInfo>)
    ensures
        count_state(s, FrameState::Poisoned) + count_state(s, FrameState::Reserved) + count_state(
            s,
            FrameState::Free,
        ) + count_state(s, FrameState::Allocated) == s.len(),
    decreases s.len(),
{
    if s.len() > 0 {
        lemma_classes_partition(s.drop_last());
    }
}

/// A record is consistent with its place `i` in the table: it describes the `i`-th frame, its
/// flag word spells out its class, ownership and placement, it is allocated exactly when
/// referenced, and only allocated frames are owned.
pub open spec fn entry_wf(f: FrameInfo, i: int) -> bool {
    &&& f.frame@ == i * 4096
    &&& f.flags == flags_of(f)
    &&& (f.state == FrameState::Allocated) <==> f.count > 0
    &&& f.kernel ==> f.state == FrameState::Allocated
    &&& f.borrowed ==> f.state == FrameState::Allocated
}

pub open spec fn table_wf(s: Seq<FrameInfo>) -> bool {
    &&& s.len() * 4096 <= MAX_PHYSICAL
    &&& forall|i: int| 0 <= i < s.len() ==> entry_wf(#[trigger] s[i], i)
}

/// The counters of `st` are those of the table `s` (all but `usable`).
pub open spec fn counts_match(st: Stats, s: Seq<FrameInfo>) -> bool {
    &&& st.total == s.len()
    &&& st.allocated == count_state(s, FrameState::Allocated)
    &&& st.reserved == count_state(s, FrameState::Reserved)
    &&& st.poisoned == count_state(s, FrameState::Poisoned)
    &&& st.kernel == count_kernel(s)
    &&& st.borrowed == count_borrowed(s)
}

/// The counters of `st` describe the table `s`; the usable frames are the free and allocated
/// ones.
pub open spec fn accounts(st: Stats, s: Seq<FrameInfo>) -> bool {
    &&& counts_match(st, s)
    &&& st.usable + st.reserved + st.poisoned == st.total
}

/// Kinds of memory map entries, as the bootloader reports them.
#[derive(Debug, Clone, Copy, PartialEq, Eq, Structural)]
pub enum MemoryKind {
    Usable,
    Reserved,
    AcpiReclaimable,
    AcpiNvs,
    BadMemory,
    BootloaderReclaimable,
    KernelAndModules,
    Framebuffer,
}

/// One entry of the memory map: `len` bytes from physical address `base`.
#[derive(Debug, Clone, Copy)]
pub struct MemoryRegion {
    pub base: u64,
    pub len: u64,
    pub kind: MemoryKind,
}

/// An entry ends at a valid physical address whose frame index fits in a `usize`.
pub open spec fn region_valid(r: MemoryRegion) -> bool {
    &&& r.base + r.len <= MAX_PHYSICAL
    &&& (r.base + r.len) / 4096 <= usize::MAX
}

pub open spec fn regions_valid(m: Seq<MemoryRegion>) -> bool {
    forall|k: int| 0 <= k < m.len() ==> region_valid(#[trigger] m[k])
}

/// Entries whose frames the kernel may use: usable memory, and memory that holds the kernel or
/// the bootloader.
pub open spec fn is_ram(r: MemoryRegion) -> bool {
    r.kind == MemoryKind::Usable || r.kind == MemoryKind::KernelAndModules || r.kind
        == MemoryKind::BootloaderReclaimable
}

/// Number of frames the table describes: up to the end of the highest RAM entry.
pub open spec fn last_frame_index(m: Seq<MemoryRegion>) -> int
    decreases m.len(),
{
    if m.len() == 0 {
        0
    } else {
        let prev = last_frame_index(m.drop_last());
        let r = m.last();
        if is_ram(r) && (r.base + r.len) / 4096 > prev {
            (r.base + r.len) / 4096
        } else {
            prev
        }
    }
}

/// An entry that can hold the frame table of `size` bytes.
pub open spec fn can_hold(r: MemoryRegion, size: int) -> bool {
    r.kind == MemoryKind::Usable && r.len >= size
}

/// Position of the first entry that can hold `size` bytes, or -1.
pub open spec fn first_holder(m: Seq<MemoryRegion>, size: int) -> int
    decreases m.len(),
{
    if m.len() == 0 {
        -1
    } else {
        let prev = first_holder(m.drop_last(), size);
        if prev >= 0 {
            prev
        } else if can_hold(m.last(), size) {
            m.len() - 1
        } else {
            -1
        }
    }
}

/// Whether the `i`-th frame lies in the entry `r` (the entry's last partial frame excluded).
pub open spec fn covers(r: MemoryRegion, i: int) -> bool {
    r.base / 4096 <= i < (r.base + r.len) / 4096
}

/// The class the memory map gives to the `i`-th frame: later entries win, bad memory leaves the
/// frame as it was, and a frame that no entry covers stays poisoned.
pub open spec fn mapped_state(m: Seq<MemoryRegion>, i: int) -> FrameState
    decreases m.len(),
{
    if m.len() == 0 {
        FrameState::Poisoned
    } else {
        let prev = mapped_state(m.drop_last(), i);
        let r = m.last();
        if covers(r, i) {
            match r.kind {
                MemoryKind::Usable => FrameState::Free,
                MemoryKind::KernelAndModules => FrameState::Allocated,
                MemoryKind::BootloaderReclaimable => FrameState::Allocated,
                MemoryKind::BadMemory => prev,
                _ => FrameState::Reserved,
            }
        } else {
            prev
        }
    }
}

/// The frames `[first, end)` that hold a frame table of `n` records placed at `base`.
pub open spec fn table_frames_start(base: int) -> int {
    base / 4096
}

pub open spec fn table_frames_end(base: int, n: int) -> int {
    let e = (base + n * FRAME_INFO_SIZE + 4095) / 4096;
    if e < n {
        e
    } else {
        n
    }
}

/// A record fresh from setup: it describes the `i`-th frame, is in class `st`, is a kernel
/// frame referenced once when allocated, and holds no other bit.
pub open spec fn entry_shape(f: FrameInfo, i: int, st: FrameState) -> bool {
    &&& f.frame@ == i * 4096
    &&& f.flags == flags_of(f)
    &&& f.state == st
    &&& f.kernel == (st == FrameState::Allocated)
    &&& f.count == (if st == FrameState::Allocated {
        1u64
    } else {
        0u64
    })
    &&& !f.borrowed
    &&& !f.zeroed
    &&& !f.dirty
}

/// The class of the `i`-th frame once the table of `n` frames is set up from `m` and placed at
/// `base`: the frames that hold the table are kernel frames, the others take their class from
/// the memory map.
pub open spec fn setup_state(m: Seq<MemoryRegion>, base: int, n: int, i: int) -> FrameState {
    if table_frames_start(base) <= i < table_frames_end(base, n) {
        FrameState::Allocated
    } else {
        mapped_state(m, i)
    }
}

/// Where the frame table of the memory map `m` is placed.
pub open spec fn table_base(m: Seq<MemoryRegion>) -> int {
    m[first_holder(m, last_frame_index(m) * FRAME_INFO_SIZE)].base as int
}

/// The table of all physical frames.
pub struct State {
    pub frames: Vec<FrameInfo>,
}

impl View for State {
    type V = Seq<FrameInfo>;

    open spec fn view(&self) -> Seq<FrameInfo> {
        self.frames@
    }
}

pub proof fn lemma_counts_push(s: Seq<FrameInfo>, v: FrameInfo)
    ensures
        forall|st: FrameState|
            #[trigger] count_state(s.push(v), st) == count_state(s, st) + (if v.state == st {
                1nat
            } else {
                0nat
            }),
        count_kernel(s.push(v)) == count_kernel(s) + (if v.kernel {
            1nat
        } else {
            0nat
        }),
        count_borrowed(s.push(v)) == count_borrowed(s) + (if v.borrowed {
            1nat
        } else {
            0nat
        }),
{
    assert(s.push(v).drop_last() =~= s);
}

/// Replaces record `i` of the table and keeps the counters in step.
pub(crate) fn set_entry(frames: &mut Vec<FrameInfo>, stats: &mut Stats, i: usize, v: FrameInfo)
    requires
        i < old(frames)@.len(),
        counts_match(*old(stats), old(frames)@),
        old(frames)@.len() <= usize::MAX,
    ensures
        final(frames)@ == old(frames)@.update(i as int, v),
        counts_match(*final(stats), final(frames)@),
        final(stats).usable == old(stats).usable,
        final(stats).total == old(stats).total,
        old(frames)@[i as int].state != FrameState::Reserved && v.state != FrameState::Reserved
            ==> final(stats).reserved == old(stats).reserved,
        old(frames)@[i as int].state != FrameState::Poisoned && v.state != FrameState::Poisoned
            ==> final(stats).poisoned == old(stats).poisoned,
        old(frames)@[i as int].state == v.state && old(frames)@[i as int].kernel == v.kernel
            && old(frames)@[i as int].borrowed == v.borrowed ==> *final(stats) == *old(stats),
{
    let old_v = frames[i];
    let ghost s0 = frames@;
    frames.set(i, v);
    let ghost s1 = frames@;
    proof {
        lemma_count_state_update(s0, i as int, v, FrameState::Allocated);
        lemma_count_state_update(s0, i as int, v, FrameState::Reserved);
        lemma_count_state_update(s0, i as int, v, FrameState::Poisoned);
        lemma_count_owned_update(s0, i as int, v);
    }
    if old_v.state == FrameState::Allocated {
        stats.allocated = stats.allocated - 1;
    } else if old_v.state == FrameState::Reserved {
        stats.reserved = stats.reserved - 1;
    } else if old_v.state == FrameState::Poisoned {
        stats.poisoned = stats.poisoned - 1;
    }
    if v.state == FrameState::Allocated {
        stats.allocated = stats.allocated + 1;
    } else if v.state == FrameState::Reserved {
        stats.reserved = stats.reserved + 1;
    } else if v.state == FrameState::Poisoned {
        stats.poisoned = stats.poisoned + 1;
    }
    if old_v.kernel {
        stats.kernel = stats.kernel - 1;
    }
    if v.kernel {
        stats.kernel = stats.kernel + 1;
    }
    if old_v.borrowed {
        stats.borrowed = stats.borrowed - 1;
    }
    if v.borrowed {
        stats.borrowed = stats.borrowed + 1;
    }
}

/// A record fresh from setup for the frame at `index` in class `state`.
fn fresh_entry(index: usize, state: FrameState) -> (r: FrameInfo)
    requires
        index * 4096 < MAX_PHYSICAL,
    ensures
        entry_shape(r, index as int, state),
{
    let allocated = match state {
        FrameState::Allocated => true,
        _ => false,
    };
    let mut r = FrameInfo {
        frame: Frame::new((index as u64) * 4096),
        flags: 0,
        state,
        kernel: allocated,
        borrowed: false,
        zeroed: false,
        dirty: false,
        count: if allocated {
            1
        } else {
            0
        },
    };
    r.flags = r.flag_word();
    r
}

/// Number of frames the table must describe: up to the end of the highest RAM entry.
fn find_last_usable_frame_index(mmap: &Vec<MemoryRegion>) -> (r: usize)
    requires
        regions_valid(mmap@),
    ensures
        r == last_frame_index(mmap@),
        r * 4096 <= MAX_PHYSICAL,
{
    let mut last: usize = 0;
    let mut k: usize = 0;
    while k < mmap.len()
        invariant
            k <= mmap@.len(),
            regions_valid(mmap@),
            last == last_frame_index(mmap@.take(k as int)),
            last * 4096 <= MAX_PHYSICAL,
        decreases mmap@.len() - k,
    {
        let r = mmap[k];
        proof {
            assert(mmap@.take(k + 1).drop_last() =~= mmap@.take(k as int));
            assert(region_valid(mmap@[k as int]));
        }
        let ram = match r.kind {
            MemoryKind::Usable => true,
            MemoryKind::KernelAndModules => true,
            MemoryKind::BootloaderReclaimable => true,
            _ => false,
        };
        let end = ((r.base + r.len) / 4096) as usize;
        if ram && end > last {
            last = end;
        }
        k = k + 1;
    }
    proof {
        assert(mmap@.take(mmap@.len() as int) =~= mmap@);
    }
    last
}

/// Physical address of the first usable entry large enough to hold a table of `last` records.
fn find_array_location(mmap: &Vec<MemoryRegion>, last: usize) -> (r: Option<u64>)
    requires
        last * 4096 <= MAX_PHYSICAL,
    ensures
        first_holder(mmap@, last * FRAME_INFO_SIZE) >= 0 <==> r is Some,
        r matches Some(b) ==> b == mmap@[first_holder(mmap@, last * FRAME_INFO_SIZE)].base,
{
    let size: u64 = (last as u64) * FRAME_INFO_SIZE;
    let mut k: usize = 0;
    while k < mmap.len()
        invariant
            k <= mmap@.len(),
            size == last * FRAME_INFO_SIZE,
            first_holder(mmap@.take(k as int), size as int) == -1,
        decreases mmap@.len() - k,
    {
        let r = mmap[k];
        proof {
            assert(mmap@.take(k + 1).drop_last() =~= mmap@.take(k as int));
        }
        let usable = match r.kind {
            MemoryKind::Usable => true,
            _ => false,
        };
        if usable && r.len >= size {
            proof {
                lemma_first_holder_prefix(mmap@, k as int + 1, size as int);
            }
            return Some(r.base);
        }
        k = k + 1;
    }
    proof {
        assert(mmap@.take(mmap@.len() as int) =~= mmap@);
    }
    None
}

/// The first holder, when there is one, is an entry of the map that can hold the table.
proof fn lemma_first_holder_valid(m: Seq<MemoryRegion>, size: int)
    requires
        first_holder(m, size) >= 0,
    ensures
        0 <= first_holder(m, size) < m.len(),
        can_hold(m[first_holder(m, size)], size),
    decreases m.len(),
{
    if first_holder(m.drop_last(), size) >= 0 {
        lemma_first_holder_valid(m.drop_last(), size);
    }
}

/// Once found in a prefix, the first holder stays the first holder.
proof fn lemma_first_holder_prefix(m: Seq<MemoryRegion>, k: int, size: int)
    requires
        0 <= k <= m.len(),
        first_holder(m.take(k), size) >= 0,
    ensures
        first_holder(m, size) == first_holder(m.take(k), size),
    decreases m.len() - k,
{
    if k < m.len() {
        assert(m.take(k + 1).drop_last() =~= m.take(k));
        lemma_first_holder_prefix(m, k + 1, size);
    } else {
        assert(m.take(k) =~= m);
    }
}

/// Gives record `j` the class `state`, as setup does.
fn mark(frames: &mut Vec<FrameInfo>, stats: &mut Stats, j: usize, state: FrameState)
    requires
        j < old(frames)@.len(),
        old(frames)@.len() * 4096 <= MAX_PHYSICAL,
        counts_match(*old(stats), old(frames)@),
    ensures
        final(frames)@ == old(frames)@.update(j as int, final(frames)@[j as int]),
        entry_shape(final(frames)@[j as int], j as int, state),
        counts_match(*final(stats), final(frames)@),
        final(stats).usable == old(stats).usable,
{
    let v = fresh_entry(j, state);
    let _len = frames.len();
    set_entry(frames, stats, j, v);
}

impl State {
    /// An empty table, to be filled by `setup`.
    pub fn uninitialized() -> (r: State)
        ensures
            r@.len() == 0,
    {
        State { frames: Vec::new() }
    }

    /// Builds the table from the memory map: one record per frame up to the end of the highest
    /// RAM entry, classed by the entries that cover it, and the frames that will hold the table
    /// itself (placed at the first usable entry large enough) marked as kernel frames. Returns
    /// the counters of the new table.
    pub fn setup(&mut self, mmap: &Vec<MemoryRegion>) -> (r: Stats)
        requires
            old(self)@.len() == 0,
            regions_valid(mmap@),
            first_holder(mmap@, last_frame_index(mmap@) * FRAME_INFO_SIZE) >= 0,
        ensures
            final(self)@.len() == last_frame_index(mmap@),
            table_wf(final(self)@),
            accounts(r, final(self)@),
            forall|i: int|
                0 <= i < final(self)@.len() ==> entry_shape(
                    #[trigger] final(self)@[i],
                    i,
                    setup_state(mmap@, table_base(mmap@), last_frame_index(mmap@), i),
                ),
    {
        let last = find_last_usable_frame_index(mmap);
        let base = match find_array_location(mmap, last) {
            Some(b) => b,
            None => {
                return Stats::new();
            },
        };
        let mut frames: Vec<FrameInfo> = Vec::new();
        let mut stats = Stats::new();
        let mut i: usize = 0;
        while i < last
            invariant
                i <= last,
                last * 4096 <= MAX_PHYSICAL,
                frames@.len() == i,
                stats.poisoned == i,
                stats.total == i,
                counts_match(stats, frames@),
                forall|t: int|
                    0 <= t < i ==> entry_shape(#[trigger] frames@[t], t, FrameState::Poisoned),
            decreases last - i,
        {
            let v = fresh_entry(i, FrameState::Poisoned);
            proof {
                lemma_counts_push(frames@, v);
            }
            frames.push(v);
            stats.total = stats.total + 1;
            stats.poisoned = stats.poisoned + 1;
            i = i + 1;
        }
        proof {
            assert forall|t: int| 0 <= t < last implies entry_shape(
                #[trigger] frames@[t],
                t,
                mapped_state(mmap@.take(0), t),
            ) by {}
        }
        let mut k: usize = 0;
        while k < mmap.len()
            invariant
                k <= mmap@.len(),
                regions_valid(mmap@),
                last * 4096 <= MAX_PHYSICAL,
                frames@.len() == last,
                counts_match(stats, frames@),
                forall|t: int|
                    0 <= t < last ==> entry_shape(
                        #[trigger] frames@[t],
                        t,
                        mapped_state(mmap@.take(k as int), t),
                    ),
            decreases mmap@.len() - k,
        {
            let r = mmap[k];
            let ghost before = mmap@.take(k as int);
            let ghost after = mmap@.take(k + 1);
            proof {
                assert(after.drop_last() =~= before);
                assert(after.last() == r);
                assert(region_valid(mmap@[k as int]));
            }
            let first = ((r.base / 4096) as usize);
            let first = if first < last {
                first
            } else {
                last
            };
            let end = (((r.base + r.len) / 4096) as usize);
            let end = if end < last {
                end
            } else {
                last
            };
            let target = match r.kind {
                MemoryKind::Usable => Some(FrameState::Free),
                MemoryKind::KernelAndModules => Some(FrameState::Allocated),
                MemoryKind::BootloaderReclaimable => Some(FrameState::Allocated),
                MemoryKind::BadMemory => None,
                _ => Some(FrameState::Reserved),
            };
            if let Some(state) = target {
                let mut j: usize = first;
                while j < end
                    invariant
                        first <= end <= last,
                        first <= j <= end,
                        last * 4096 <= MAX_PHYSICAL,
                        frames@.len() == last,
                        counts_match(stats, frames@),
                        forall|t: int|
                            0 <= t < last ==> entry_shape(
                                #[trigger] frames@[t],
                                t,
                                if first <= t < j {
                                    state
                                } else {
                                    mapped_state(before, t)
                                },
                            ),
                    decreases end - j,
                {
                    let ghost prev = frames@;
                    mark(&mut frames, &mut stats, j, state);
                    proof {
                        assert forall|t: int| 0 <= t < last implies entry_shape(
                            #[trigger] frames@[t],
                            t,
                            if first <= t < j + 1 {
                                state
                            } else {
                                mapped_state(before, t)
                            },
                        ) by {
                            if t != j {
                                assert(frames@[t] == prev[t]);
                            }
                        }
                    }
                    j = j + 1;
                }
            }
            proof {
                assert forall|t: int| 0 <= t < last implies entry_shape(
                    #[trigger] frames@[t],
                    t,
                    mapped_state(after, t),
                ) by {
                    assert(covers(r, t) <==> first <= t < end);
                }
            }
            k = k + 1;
        }
        proof {
            assert(mmap@.take(mmap@.len() as int) =~= mmap@);
        }
        proof {
            lemma_first_holder_valid(mmap@, last * FRAME_INFO_SIZE);
            assert(region_valid(mmap@[first_holder(mmap@, last * FRAME_INFO_SIZE)]));
        }
        let tfirst = base / 4096;
        let tfirst = if tfirst < last as u64 {
            tfirst as usize
        } else {
            last
        };
        let tend = (base + (last as u64) * FRAME_INFO_SIZE + 4095) / 4096;
        let tend = if tend < last as u64 {
            tend as usize
        } else {
            last
        };
        let mut j: usize = tfirst;
        while j < tend
            invariant
                tfirst <= j,
                j <= tend || j == tfirst,
                tend <= last,
                last * 4096 <= MAX_PHYSICAL,
                frames@.len() == last,
                counts_match(stats, frames@),
                forall|t: int|
                    0 <= t < last ==> entry_shape(
                        #[trigger] frames@[t],
                        t,
                        if tfirst <= t < j {
                            FrameState::Allocated
                        } else {
                            mapped_state(mmap@, t)
                        },
                    ),
            decreases tend - j,
        {
            let ghost prev = frames@;
            mark(&mut frames, &mut stats, j, FrameState::Allocated);
            proof {
                assert forall|t: int| 0 <= t < last implies entry_shape(
                    #[trigger] frames@[t],
                    t,
                    if tfirst <= t < j + 1 {
                        FrameState::Allocated
                    } else {
                        mapped_state(mmap@, t)
                    },
                ) by {
                    if t != j {
                        assert(frames@[t] == prev[t]);
                    }
                }
            }
            j = j + 1;
        }
        proof {
            lemma_classes_partition(frames@);
        }
        stats.usable = stats.total - stats.reserved - stats.poisoned;
        self.frames = frames;
        stats
    }

    /// The record of the frame that holds `address`, if the table describes it.
    pub fn get_frame_info(&self, address: u64) -> (r: Option<&FrameInfo>)
        requires
            address < MAX_PHYSICAL,
        ensures
            address / 4096 < self@.len() ==> (r matches Some(f) && *f == self@[(address / 4096) as int]),
            address / 4096 >= self@.len() ==> r is None,
    {
        let i = address / 4096;
        if i < self.frames.len() as u64 {
            Some(&self.frames[i as usize])
        } else {
            None
        }
    }

    /// All the records, in frame order.
    pub fn get_state_array(&self) -> (r: &[FrameInfo])
        ensures
            r@ == self@,
    {
        self.frames.as_slice()
    }
}

} // verus!
