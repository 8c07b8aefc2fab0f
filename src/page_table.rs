use vstd::prelude::*;

use crate::frame::{Frame, ALLOC_KERNEL, ALLOC_ZEROED, MAX_PHYSICAL};
use crate::frame_alloc::{
    alloc_wf, lemma_unplaced, lemma_unplaced_flags, no_free_frame, released_entry, suits,
    takes_frame, Allocator,
};
use crate::frame_state::{FrameInfo, FrameState, State};
use crate::paging::{
    demand_paging_plan, demand_paging_plan_spec, fault_reasons, fault_reasons_spec, fault_step,
    fault_step_spec, map_error_reason, page_index, page_index_spec, FaultStep, MapError,
    PageEntry, PageFaultType, ADDRESS_MASK, PAGE_PRESENT, PAGE_WRITABLE, PF_MISSING_PAGE,
    PF_OUT_OF_MEMORY,
};
use crate::vmm::{
    area_size, best_fit, index_of_start, kept_flags, round_up, AllocationError, VirtualArea,
    VirtualRange, Vmalloc, VMM_ATOMIC, VMM_MAP,
};

verus! {

/// Position of the first table of `frames` held at physical address `a`, or -1.
pub open spec fn lookup(frames: Seq<u64>, a: u64) -> int
    decreases frames.len(),
{
    if frames.len() == 0 {
        -1
    } else {
        let b = lookup(frames.drop_last(), a);
        if b >= 0 {
            b
        } else if frames.last() == a {
            frames.len() - 1
        } else {
            -1
        }
    }
}

proof fn lemma_lookup(frames: Seq<u64>, a: u64)
    ensures
        lookup(frames, a) < frames.len(),
        lookup(frames, a) >= 0 ==> frames[lookup(frames, a)] == a,
        forall|j: int|
            0 <= j < frames.len() && (lookup(frames, a) < 0 || j < lookup(frames, a)) ==> #[trigger] frames[j]
                != a,
    decreases frames.len(),
{
    if frames.len() > 0 {
        let t = frames.drop_last();
        lemma_lookup(t, a);
        if lookup(t, a) >= 0 {
            assert(t[lookup(t, a)] == frames[lookup(t, a)]);
        }
        assert forall|j: int|
            0 <= j < frames.len() && (lookup(frames, a) < 0 || j < lookup(frames, a)) implies #[trigger] frames[j]
            != a by {
            if j < frames.len() - 1 {
                assert(t[j] == frames[j]);
            }
        }
    }
}

proof fn lemma_lookup_push(frames: Seq<u64>, f: u64, a: u64)
    ensures
        lookup(frames.push(f), a) == if lookup(frames, a) >= 0 {
            lookup(frames, a)
        } else if a == f {
            frames.len() as int
        } else {
            -1
        },
{
    assert(frames.push(f).drop_last() =~= frames);
}

/// Distinct slots of the entry array: entry `i` of table `k` is at `512 * k + i`.
proof fn lemma_other_slot(j: int, t: int, k: int, i: int)
    requires
        0 <= j,
        0 <= k,
        0 <= t < 512,
        0 <= i < 512,
        j != k || t != i,
    ensures
        512 * j + t != 512 * k + i,
{
    assert(512 * j + t != 512 * k + i) by (nonlinear_arith)
        requires
            0 <= j,
            0 <= k,
            0 <= t < 512,
            0 <= i < 512,
            j != k || t != i,
    ;
}

/// The bits of an entry that points to `address` with `flags`.
proof fn lemma_entry_bits(address: u64, flags: u64)
    requires
        address & ADDRESS_MASK == address,
        flags & ADDRESS_MASK == 0,
    ensures
        (address | flags) & ADDRESS_MASK == address,
        (address | flags) & !ADDRESS_MASK == flags,
        ((address | flags) & PAGE_PRESENT != 0) == (flags & PAGE_PRESENT != 0),
{
    assert((address | flags) & ADDRESS_MASK == address && (address | flags) & !ADDRESS_MASK
        == flags && ((address | flags) & PAGE_PRESENT != 0) == (flags & PAGE_PRESENT != 0))
        by (bit_vector)
        requires
            address & ADDRESS_MASK == address,
            flags & ADDRESS_MASK == 0,
    ;
}

/// A reason joined with a missing page still names a missing page.
proof fn lemma_missing_page_kept(x: u64)
    ensures
        (x | PF_MISSING_PAGE) & PF_MISSING_PAGE != 0,
{
    assert((x | PF_MISSING_PAGE) & PF_MISSING_PAGE != 0) by (bit_vector);
}

/// A frame address below the physical limit fits the address bits of an entry.
proof fn lemma_frame_address(a: u64)
    requires
        a % 4096 == 0,
        a < MAX_PHYSICAL,
    ensures
        a & ADDRESS_MASK == a,
        a & PAGE_PRESENT == 0,
{
    assert(a & ADDRESS_MASK == a && a & PAGE_PRESENT == 0) by (bit_vector)
        requires
            a % 4096 == 0,
            a < 0x10_0000_0000_0000u64,
    ;
}

/// Allocating a free frame leaves the frames of the tables allocated.
proof fn lemma_allocation_keeps_tables(t: PageTables, s0: Seq<FrameInfo>, s1: Seq<FrameInfo>, i: int)
    requires
        t.owns_frames(s0),
        0 <= i < s0.len(),
        s0[i].state == FrameState::Free,
        s1.len() == s0.len(),
        forall|j: int| 0 <= j < s0.len() && j != i ==> #[trigger] s1[j] == s0[j],
    ensures
        t.owns_frames(s1),
        forall|k: int| 0 <= k < t.frames@.len() ==> #[trigger] t.frames@[k] / 4096 != i,
{
    assert forall|k: int| 0 <= k < t.frames@.len() implies #[trigger] t.frames@[k] / 4096 != i by {
        let a = t.frames@[k];
        assert(s0[(a / 4096) as int].state == FrameState::Allocated);
    }
}

/// `b` keeps what `a` maps: every table of `a` is still found at its position, and every
/// present entry of `a` is unchanged.
pub open spec fn kept(a: PageTables, b: PageTables) -> bool {
    &&& a.frames@.len() <= b.frames@.len()
    &&& forall|x: u64|
        lookup(a.frames@, x) >= 0 ==> #[trigger] lookup(b.frames@, x) == lookup(a.frames@, x)
    &&& forall|j: int, t: int|
        0 <= j < a.frames@.len() && 0 <= t < 512 && (#[trigger] a.entry(j, t)).present_spec()
            ==> b.entry(j, t) == a.entry(j, t)
}

pub proof fn lemma_kept_trans(a: PageTables, b: PageTables, c: PageTables)
    requires
        kept(a, b),
        kept(b, c),
    ensures
        kept(a, c),
{
    assert forall|x: u64| lookup(a.frames@, x) >= 0 implies #[trigger] lookup(c.frames@, x)
        == lookup(a.frames@, x) by {
        assert(lookup(b.frames@, x) == lookup(a.frames@, x));
    }
    assert forall|j: int, t: int|
        0 <= j < a.frames@.len() && 0 <= t < 512 && (#[trigger] a.entry(j, t)).present_spec() implies c.entry(
        j,
        t,
    ) == a.entry(j, t) by {
        assert(b.entry(j, t) == a.entry(j, t));
    }
}

/// A walk that only crosses present entries gives the same leaf in tables that kept them.
proof fn lemma_walk_kept(a: PageTables, b: PageTables, k: int, v: u64, level: u64)
    requires
        1 <= level <= 4,
        0 <= k < a.frames@.len(),
        kept(a, b),
        a.walk(k, v, level) is Some,
    ensures
        b.walk(k, v, level) == a.walk(k, v, level),
    decreases level,
{
    crate::paging::lemma_page_index_bound(v, level);
    let i = page_index_spec(v, level) as int;
    assert(a.entry(k, i).present_spec());
    assert(b.entry(k, i) == a.entry(k, i));
    if level > 1 {
        let t = lookup(a.frames@, a.entry(k, i).address_spec());
        lemma_lookup(a.frames@, a.entry(k, i).address_spec());
        lemma_walk_kept(a, b, t, v, (level - 1) as u64);
    }
}

/// Tables that kept those of `a` map whatever `a` maps, in the same way.
pub proof fn lemma_leaves_kept(a: PageTables, b: PageTables)
    requires
        kept(a, b),
        a.frames@.len() >= 1,
    ensures
        forall|w: u64| #[trigger] a.leaf(w) is Some ==> b.leaf(w) == a.leaf(w),
{
    assert forall|w: u64| #[trigger] a.leaf(w) is Some implies b.leaf(w) == a.leaf(w) by {
        lemma_walk_kept(a, b, 0, w, 4);
    }
}

/// The leaf of a walk is the entry at the slot where it ends, when it is present.
proof fn lemma_leaf_at_slot(t: PageTables, w: u64)
    requires
        t.wf(),
    ensures
        t.path_table(w, 1) < t.frames@.len(),
        t.path_table(w, 1) < 0 ==> t.leaf(w) is None,
        t.path_table(w, 1) >= 0 ==> t.levels@[t.path_table(w, 1)] == 1 && t.leaf(w) == if t.entry(
            t.path_table(w, 1),
            page_index_spec(w, 1) as int,
        ).present_spec() {
            Some(t.entry(t.path_table(w, 1), page_index_spec(w, 1) as int))
        } else {
            None::<PageEntry>
        },
{
    crate::paging::lemma_page_index_bound(w, 4);
    crate::paging::lemma_page_index_bound(w, 3);
    crate::paging::lemma_page_index_bound(w, 2);
    crate::paging::lemma_page_index_bound(w, 1);
    let i4 = page_index_spec(w, 4) as int;
    let i3 = page_index_spec(w, 3) as int;
    let i2 = page_index_spec(w, 2) as int;
    let t3 = t.next_table(0, w, 4);
    lemma_lookup(t.frames@, t.entry(0, i4).address_spec());
    assert(t.path_table(w, 4) == 0);
    assert(t.path_table(w, 3) == t3);
    if t3 >= 0 {
        assert(t.levels@[t3] == 3);
        assert(t.walk(0, w, 4) == t.walk(t3, w, 3));
        let t2 = t.next_table(t3, w, 3);
        lemma_lookup(t.frames@, t.entry(t3, i3).address_spec());
        assert(t.path_table(w, 2) == t2);
        if t2 >= 0 {
            assert(t.levels@[t2] == 2);
            assert(t.walk(t3, w, 3) == t.walk(t2, w, 2));
            let t1 = t.next_table(t2, w, 2);
            lemma_lookup(t.frames@, t.entry(t2, i2).address_spec());
            assert(t.path_table(w, 1) == t1);
            if t1 >= 0 {
                assert(t.levels@[t1] == 1);
                assert(t.walk(t2, w, 2) == t.walk(t1, w, 1));
            }
        } else {
            assert(t.path_table(w, 1) == -1);
        }
    } else {
        assert(t.path_table(w, 2) == -1);
        assert(t.path_table(w, 1) == -1);
    }
}

/// The address bits of an entry name a page-aligned physical address.
proof fn lemma_address_bits(b: u64)
    ensures
        (b & ADDRESS_MASK) % 4096 == 0,
        (b & ADDRESS_MASK) < MAX_PHYSICAL,
{
    assert((b & ADDRESS_MASK) % 4096 == 0 && (b & ADDRESS_MASK) < 0x10_0000_0000_0000u64)
        by (bit_vector);
}

/// Distinct page-aligned addresses lie in distinct frames.
proof fn lemma_distinct_frames(a: int, b: int)
    requires
        a >= 0,
        b >= 0,
        a % 4096 == 0,
        b % 4096 == 0,
        a != b,
    ensures
        a / 4096 != b / 4096,
{
}

/// An address and the start of its page use the same entry at every level.
proof fn lemma_same_page_index(a: u64, level: u64)
    requires
        1 <= level <= 4,
    ensures
        page_index_spec(a & !0xFFFu64, level) == page_index_spec(a, level),
{
    let s = (12 + 9 * (level - 1)) as u64;
    assert(((a & !0xFFFu64) >> s) & 0x1FF == (a >> s) & 0x1FF) by (bit_vector)
        requires
            12 <= s < 64,
    ;
}

/// An address and the start of its page walk alike.
proof fn lemma_walk_same_page(t: PageTables, k: int, a: u64, level: u64)
    requires
        level <= 4,
    ensures
        t.walk(k, a & !0xFFFu64, level) == t.walk(k, a, level),
    decreases level,
{
    if level >= 1 {
        lemma_same_page_index(a, level);
        if level > 1 && 0 <= k < t.frames@.len() {
            let e = t.entry(k, page_index_spec(a, level) as int);
            lemma_walk_same_page(t, lookup(t.frames@, e.address_spec()), a, (level - 1) as u64);
        }
    }
}

/// Changing one entry of a last-level table only affects the walks that end there.
proof fn lemma_walk_one_slot(a: PageTables, b: PageTables, k1: int, i1: int, w: u64)
    requires
        a.wf(),
        b.frames@ == a.frames@,
        b.levels@ == a.levels@,
        b.entries@.len() == a.entries@.len(),
        0 <= k1 < a.frames@.len(),
        a.levels@[k1] == 1,
        forall|j: int, t: int|
            0 <= j < a.frames@.len() && 0 <= t < 512 && (j != k1 || t != i1) ==> #[trigger] b.entry(
                j,
                t,
            ) == a.entry(j, t),
        a.leaf_slot(w) != (k1, i1),
    ensures
        b.leaf(w) == a.leaf(w),
{
    crate::paging::lemma_page_index_bound(w, 4);
    crate::paging::lemma_page_index_bound(w, 3);
    crate::paging::lemma_page_index_bound(w, 2);
    crate::paging::lemma_page_index_bound(w, 1);
    let i4 = page_index_spec(w, 4) as int;
    let i3 = page_index_spec(w, 3) as int;
    let i2 = page_index_spec(w, 2) as int;
    let iw = page_index_spec(w, 1) as int;
    assert(b.entry(0, i4) == a.entry(0, i4));
    let t3 = a.next_table(0, w, 4);
    lemma_lookup(a.frames@, a.entry(0, i4).address_spec());
    assert(a.path_table(w, 4) == 0);
    assert(a.path_table(w, 3) == t3);
    if t3 >= 0 {
        assert(a.levels@[t3] == 3);
        assert(b.walk(0, w, 4) == b.walk(t3, w, 3));
        assert(a.walk(0, w, 4) == a.walk(t3, w, 3));
        assert(b.entry(t3, i3) == a.entry(t3, i3));
        let t2 = a.next_table(t3, w, 3);
        lemma_lookup(a.frames@, a.entry(t3, i3).address_spec());
        assert(a.path_table(w, 2) == t2);
        if t2 >= 0 {
            assert(a.levels@[t2] == 2);
            assert(b.walk(t3, w, 3) == b.walk(t2, w, 2));
            assert(a.walk(t3, w, 3) == a.walk(t2, w, 2));
            assert(b.entry(t2, i2) == a.entry(t2, i2));
            let t1 = a.next_table(t2, w, 2);
            lemma_lookup(a.frames@, a.entry(t2, i2).address_spec());
            if t1 >= 0 {
                assert(a.levels@[t1] == 1);
                assert(b.walk(t2, w, 2) == b.walk(t1, w, 1));
                assert(a.walk(t2, w, 2) == a.walk(t1, w, 1));
                assert(a.path_table(w, 1) == t1);
                assert(b.entry(t1, iw) == a.entry(t1, iw));
            }
        }
    }
}

/// The tables of an address space, each in a frame of physical memory. Table `k` is held at
/// physical address `frames[k]`, its entries are `entries[512 * k ..][.. 512]`, and it sits at
/// level `levels[k]` of the hierarchy: 4 for the PML4, which is table 0, down to 1 for the
/// tables whose entries map pages.
pub struct PageTables {
    pub frames: Vec<u64>,
    pub entries: Vec<PageEntry>,
    pub levels: Ghost<Seq<int>>,
}

impl PageTables {
    pub open spec fn entry(&self, k: int, i: int) -> PageEntry {
        self.entries@[512 * k + i]
    }

    /// The leaf entry reached from table `k`, at `level`, for the virtual address `v`: `None`
    /// as soon as an entry on the way is absent or points to no table.
    pub open spec fn walk(&self, k: int, v: u64, level: u64) -> Option<PageEntry>
        decreases level,
    {
        if level == 0 || !(0 <= k < self.frames@.len()) {
            None
        } else {
            let e = self.entry(k, page_index_spec(v, level) as int);
            if !e.present_spec() {
                None
            } else if level == 1 {
                Some(e)
            } else {
                let t = lookup(self.frames@, e.address_spec());
                if t < 0 {
                    None
                } else {
                    self.walk(t, v, (level - 1) as u64)
                }
            }
        }
    }

    /// The table that the entry for `v` at `level` of table `k` points to, or -1 when the entry
    /// is absent or points to no table.
    pub open spec fn next_table(&self, k: int, v: u64, level: u64) -> int {
        let e = self.entry(k, page_index_spec(v, level) as int);
        if e.present_spec() {
            lookup(self.frames@, e.address_spec())
        } else {
            -1
        }
    }

    /// The table at `level` on the walk for `v`, or -1 when the walk stops above it.
    pub open spec fn path_table(&self, v: u64, level: u64) -> int
        decreases 4 - level,
    {
        if level >= 4 {
            0
        } else {
            let p = self.path_table(v, (level + 1) as u64);
            if p < 0 {
                -1
            } else {
                self.next_table(p, v, (level + 1) as u64)
            }
        }
    }

    /// Where the walk for `v` ends: the last table and the position of the leaf entry in it.
    pub open spec fn leaf_slot(&self, v: u64) -> (int, int) {
        (self.path_table(v, 1), page_index_spec(v, 1) as int)
    }

    /// The leaf entry that maps `v`, if any.
    pub open spec fn leaf(&self, v: u64) -> Option<PageEntry> {
        self.walk(0, v, 4)
    }

    /// The physical address `v` translates to, if it is mapped.
    pub open spec fn translation(&self, v: u64) -> Option<u64> {
        match self.leaf(v) {
            Some(e) => Some((e.address_spec() + (v & 0xFFF)) as u64),
            None => None,
        }
    }

    /// The tables are laid out as described above; no two share a frame; and a present entry
    /// of a table above level 1 points to a table one level down.
    pub open spec fn wf(&self) -> bool {
        &&& self.frames@.len() >= 1
        &&& self.entries@.len() == 512 * self.frames@.len()
        &&& self.levels@.len() == self.frames@.len()
        &&& self.levels@[0] == 4
        &&& forall|k: int| 0 <= k < self.frames@.len() ==> 1 <= #[trigger] self.levels@[k] <= 4
        &&& forall|j: int, k: int|
            0 <= j < k < self.frames@.len() ==> #[trigger] self.frames@[j] != #[trigger] self.frames@[k]
        &&& forall|k: int, i: int|
            0 <= k < self.frames@.len() && 0 <= i < 512 && self.levels@[k] > 1 && (#[trigger] self.entry(
                k,
                i,
            )).present_spec() ==> {
                let t = lookup(self.frames@, self.entry(k, i).address_spec());
                t >= 0 && self.levels@[t] == self.levels@[k] - 1
            }
    }

    /// Every table sits in a frame that the frame table `s` records as allocated.
    pub open spec fn owns_frames(&self, s: Seq<FrameInfo>) -> bool {
        forall|k: int|
            0 <= k < self.frames@.len() ==> {
                let a = #[trigger] self.frames@[k];
                &&& a % 4096 == 0
                &&& a / 4096 < s.len()
                &&& s[(a / 4096) as int].state == FrameState::Allocated
            }
    }

    /// An address space with an empty PML4 in a fresh kernel frame, or `None` when no frame is
    /// left.
    pub fn new(alloc: &mut Allocator, state: &mut State) -> (r: Option<PageTables>)
        requires
            alloc_wf(old(alloc).statistic, old(state)@),
        ensures
            alloc_wf(final(alloc).statistic, final(state)@),
            r matches Some(t) ==> t.wf() && t.owns_frames(final(state)@) && forall|v: u64|
                #[trigger] t.leaf(v) is None,
            r is None <==> forall|i: int|
                0 <= i < old(state)@.len() ==> !suits(#[trigger] old(state)@[i], ALLOC_KERNEL | ALLOC_ZEROED),
            r is None ==> final(state)@ == old(state)@,
            r matches Some(t) ==> t.frames@.len() == 1 && takes_frame(
                old(state)@,
                final(state)@,
                t.frames@[0],
                ALLOC_KERNEL | ALLOC_ZEROED,
            ),
    {
        let frame = match alloc.allocate(state, ALLOC_KERNEL | ALLOC_ZEROED) {
            Some(f) => f,
            None => {
                return None;
            },
        };
        let mut frames: Vec<u64> = Vec::new();
        frames.push(frame.start());
        let mut entries: Vec<PageEntry> = Vec::new();
        let mut i: usize = 0;
        while i < 512
            invariant
                i <= 512,
                entries@.len() == i,
                forall|j: int| 0 <= j < i ==> (#[trigger] entries@[j]).bits == 0,
            decreases 512 - i,
        {
            entries.push(PageEntry::empty());
            i = i + 1;
        }
        let ghost lv: Seq<int> = seq![4int];
        let t = PageTables { frames, entries, levels: Ghost(lv) };
        proof {
            assert forall|k: int, j: int|
                0 <= k < t.frames@.len() && 0 <= j < 512 implies !(#[trigger] t.entry(
                k,
                j,
            )).present_spec() by {
                assert(t.entries@[512 * k + j].bits == 0);
                assert(0u64 & PAGE_PRESENT == 0) by (bit_vector);
            }
            assert forall|v: u64| #[trigger] t.leaf(v) is None by {
                crate::paging::lemma_page_index_bound(v, 4);
                let i4 = page_index_spec(v, 4) as int;
                assert(!t.entry(0, i4).present_spec());
            }
        }
        Some(t)
    }

    /// Position of the table held at physical address `a`.
    fn find_table(&self, a: u64) -> (r: Option<usize>)
        ensures
            r matches Some(k) ==> k == lookup(self.frames@, a),
            r is None ==> lookup(self.frames@, a) < 0,
    {
        proof {
            lemma_lookup(self.frames@, a);
        }
        let n = self.frames.len();
        let mut j: usize = 0;
        while j < n
            invariant
                n == self.frames@.len(),
                j <= n,
                lookup(self.frames@, a) < 0 || lookup(self.frames@, a) >= j,
            decreases n - j,
        {
            proof {
                lemma_lookup(self.frames@, a);
            }
            if self.frames[j] == a {
                return Some(j);
            }
            j = j + 1;
        }
        None
    }

    /// From table `k`, the table that the entry for `v` at `level` points to, if the entry is
    /// present and the table known.
    fn step(&self, k: usize, v: u64, level: u64) -> (r: Option<usize>)
        requires
            self.wf(),
            k < self.frames@.len(),
            2 <= level <= 4,
        ensures
            r is Some <==> self.next_table(k as int, v, level) >= 0,
            r matches Some(t) ==> t as int == self.next_table(k as int, v, level) && t
                < self.frames@.len(),
    {
        let i = page_index(v, level);
        let _entries = self.entries.len();
        proof {
            assert(512 * k + i < 512 * self.frames@.len()) by (nonlinear_arith)
                requires
                    k < self.frames@.len(),
                    i < 512,
            ;
        }
        let e = self.entries[512 * k + i];
        if !e.is_present() {
            return None;
        }
        proof {
            lemma_lookup(self.frames@, e.address_spec());
        }
        self.find_table(e.address())
    }

    /// The walk for `v`, when it reaches a present leaf entry: the tables at levels 3, 2 and 1
    /// on the way, and the position of the leaf entry in the last one.
    fn find_path(&self, v: u64) -> (r: Option<(usize, usize, usize, usize)>)
        requires
            self.wf(),
        ensures
            r is None ==> self.leaf(v) is None,
            r matches Some(p) ==> {
                &&& p.0 as int == self.next_table(0, v, 4)
                &&& p.1 as int == self.next_table(p.0 as int, v, 3)
                &&& p.2 as int == self.next_table(p.1 as int, v, 2)
                &&& p.0 < self.frames@.len() && p.1 < self.frames@.len() && p.2
                    < self.frames@.len()
                &&& self.levels@[p.0 as int] == 3
                &&& self.levels@[p.1 as int] == 2
                &&& self.levels@[p.2 as int] == 1
                &&& p.3 == page_index_spec(v, 1)
                &&& 512 * p.2 + p.3 < self.entries@.len()
                &&& self.entry(p.2 as int, p.3 as int).present_spec()
                &&& self.leaf(v) == Some(self.entry(p.2 as int, p.3 as int))
            },
    {
        proof {
            crate::paging::lemma_page_index_bound(v, 4);
            crate::paging::lemma_page_index_bound(v, 3);
            crate::paging::lemma_page_index_bound(v, 2);
            crate::paging::lemma_page_index_bound(v, 1);
        }
        let k3 = match self.step(0, v, 4) {
            Some(k) => k,
            None => {
                return None;
            },
        };
        proof {
            let e4 = self.entry(0, page_index_spec(v, 4) as int);
            assert(e4.present_spec());
            assert(self.levels@[lookup(self.frames@, e4.address_spec())] == 3);
            assert(self.leaf(v) == self.walk(k3 as int, v, 3));
        }
        let k2 = match self.step(k3, v, 3) {
            Some(k) => k,
            None => {
                return None;
            },
        };
        proof {
            let e3 = self.entry(k3 as int, page_index_spec(v, 3) as int);
            assert(e3.present_spec());
            assert(self.levels@[lookup(self.frames@, e3.address_spec())] == 2);
            assert(self.walk(k3 as int, v, 3) == self.walk(k2 as int, v, 2));
        }
        let k1 = match self.step(k2, v, 2) {
            Some(k) => k,
            None => {
                return None;
            },
        };
        proof {
            let e2 = self.entry(k2 as int, page_index_spec(v, 2) as int);
            assert(e2.present_spec());
            assert(self.levels@[lookup(self.frames@, e2.address_spec())] == 1);
            assert(self.walk(k2 as int, v, 2) == self.walk(k1 as int, v, 1));
        }
        let i = page_index(v, 1);
        let _entries = self.entries.len();
        proof {
            assert(512 * k1 + i < 512 * self.frames@.len()) by (nonlinear_arith)
                requires
                    k1 < self.frames@.len(),
                    i < 512,
            ;
        }
        let e = self.entries[512 * k1 + i];
        if !e.is_present() {
            return None;
        }
        Some((k3, k2, k1, i))
    }

    /// The leaf entry that maps `v`, if any.
    pub fn leaf_entry(&self, v: u64) -> (r: Option<PageEntry>)
        requires
            self.wf(),
        ensures
            r == self.leaf(v),
    {
        match self.find_path(v) {
            None => None,
            Some((_, _, k, i)) => {
                let _entries = self.entries.len();
                Some(self.entries[512 * k + i])
            },
        }
    }

    /// The physical address `v` translates to, if it is mapped.
    pub fn translate(&self, v: u64) -> (r: Option<u64>)
        requires
            self.wf(),
        ensures
            r == self.translation(v),
    {
        match self.find_path(v) {
            None => None,
            Some((_, _, k, i)) => {
                let _entries = self.entries.len();
                let e = self.entries[512 * k + i];
                let offset = v & 0xFFF;
                let b = e.bits;
                proof {
                    assert(b & ADDRESS_MASK <= ADDRESS_MASK) by (bit_vector);
                    assert(offset <= 0xFFF) by (bit_vector)
                        requires
                            offset == v & 0xFFF,
                    ;
                }
                Some(e.address() + offset)
            },
        }
    }

    /// The flags of the leaf entry that maps `v`, if any.
    pub fn protection(&self, v: u64) -> (r: Option<u64>)
        requires
            self.wf(),
        ensures
            r == match self.leaf(v) {
                Some(e) => Some(e.flags_spec()),
                None => None::<u64>,
            },
    {
        match self.find_path(v) {
            None => None,
            Some((_, _, k, i)) => {
                let _entries = self.entries.len();
                Some(self.entries[512 * k + i].flags())
            },
        }
    }

    /// Removes the mapping of `v` and returns the physical address it translated to, or `None`
    /// when it was not mapped. The caller then invalidates the translation on every CPU.
    pub fn unmap(&mut self, v: u64) -> (r: Option<u64>)
        requires
            old(self).wf(),
        ensures
            final(self).wf(),
            final(self).frames@ == old(self).frames@,
            final(self).levels@ == old(self).levels@,
            r == old(self).translation(v),
            r is None ==> final(self).entries@ == old(self).entries@,
            final(self).leaf(v) is None,
            forall|w: u64|
                old(self).leaf_slot(w) != old(self).leaf_slot(v) ==> #[trigger] final(self).leaf(w)
                    == old(self).leaf(w),
    {
        match self.find_path(v) {
            None => None,
            Some((k3, k2, k1, i)) => {
                let _entries = self.entries.len();
                let e = self.entries[512 * k1 + i];
                let offset = v & 0xFFF;
                let b = e.bits;
                proof {
                    assert(b & ADDRESS_MASK <= ADDRESS_MASK) by (bit_vector);
                    assert(offset <= 0xFFF) by (bit_vector)
                        requires
                            offset == v & 0xFFF,
                    ;
                }
                let result = e.address() + offset;
                let ghost s0 = self.entries@;
                self.entries.set(512 * k1 + i, PageEntry::empty());
                proof {
                    crate::paging::lemma_page_index_bound(v, 4);
                    crate::paging::lemma_page_index_bound(v, 3);
                    crate::paging::lemma_page_index_bound(v, 2);
                    crate::paging::lemma_page_index_bound(v, 1);
                    assert forall|j: int, t: int|
                        0 <= j < self.frames@.len() && 0 <= t < 512 && j != k1 implies #[trigger] self.entry(
                        j,
                        t,
                    ) == s0[512 * j + t] by {
                        lemma_other_slot(j, t, k1 as int, i as int);
                    }
                    assert(self.entry(0, page_index_spec(v, 4) as int) == s0[512 * 0
                        + page_index_spec(v, 4) as int]);
                    assert(self.entry(k3 as int, page_index_spec(v, 3) as int) == s0[512 * k3
                        + page_index_spec(v, 3) as int]);
                    assert(self.entry(k2 as int, page_index_spec(v, 2) as int) == s0[512 * k2
                        + page_index_spec(v, 2) as int]);
                    assert forall|k: int, t: int|
                        0 <= k < self.frames@.len() && 0 <= t < 512 && self.levels@[k] > 1 && (
                        #[trigger] self.entry(k, t)).present_spec() implies ({
                        let u = lookup(self.frames@, self.entry(k, t).address_spec());
                        u >= 0 && self.levels@[u] == self.levels@[k] - 1
                    }) by {
                        assert(k != k1);
                        assert(old(self).entry(k, t) == s0[512 * k + t]);
                    }
                    assert(self.entry(k1 as int, i as int).bits == 0);
                    assert(0u64 & PAGE_PRESENT == 0) by (bit_vector);
                    assert(self.walk(k1 as int, v, 1) is None);
                    assert(self.walk(k2 as int, v, 2) is None);
                    assert(self.walk(k3 as int, v, 3) is None);
                    assert forall|j: int, t: int|
                        0 <= j < self.frames@.len() && 0 <= t < 512 && (j != k1 || t != i) implies #[trigger] self.entry(
                        j,
                        t,
                    ) == old(self).entry(j, t) by {
                        lemma_other_slot(j, t, k1 as int, i as int);
                    }
                    assert(old(self).path_table(v, 4) == 0);
                    assert(old(self).path_table(v, 3) == k3);
                    assert(old(self).path_table(v, 2) == k2);
                    assert(old(self).path_table(v, 1) == k1);
                    assert forall|w: u64|
                        old(self).leaf_slot(w) != old(self).leaf_slot(v) implies #[trigger] self.leaf(
                        w,
                    ) == old(self).leaf(w) by {
                        lemma_walk_one_slot(*old(self), *self, k1 as int, i as int, w);
                    }
                }
                Some(result)
            },
        }
    }

    /// Replaces the flags of the leaf entry that maps `v`, which keeps its frame, and returns
    /// the old flags; `None` when `v` is not mapped. The caller then invalidates the
    /// translation on every CPU.
    pub fn change_protection(&mut self, v: u64, flags: u64) -> (r: Option<u64>)
        requires
            old(self).wf(),
            flags & ADDRESS_MASK == 0,
        ensures
            final(self).wf(),
            final(self).frames@ == old(self).frames@,
            final(self).levels@ == old(self).levels@,
            r == match old(self).leaf(v) {
                Some(e) => Some(e.flags_spec()),
                None => None::<u64>,
            },
            old(self).leaf(v) is None ==> final(self).entries@ == old(self).entries@,
            old(self).leaf(v) matches Some(e) ==> final(self).leaf(v) == if flags & PAGE_PRESENT
                != 0 {
                Some(PageEntry { bits: e.address_spec() | flags })
            } else {
                None::<PageEntry>
            },
            forall|w: u64|
                old(self).leaf_slot(w) != old(self).leaf_slot(v) ==> #[trigger] final(self).leaf(w)
                    == old(self).leaf(w),
    {
        match self.find_path(v) {
            None => None,
            Some((k3, k2, k1, i)) => {
                let _entries = self.entries.len();
                let e = self.entries[512 * k1 + i];
                let old_flags = e.flags();
                let address = e.address();
                let b = e.bits;
                proof {
                    assert(address & ADDRESS_MASK == address) by (bit_vector)
                        requires
                            address == b & ADDRESS_MASK,
                    ;
                    lemma_entry_bits(address, flags);
                }
                let ghost s0 = self.entries@;
                self.entries.set(512 * k1 + i, PageEntry { bits: address | flags });
                proof {
                    crate::paging::lemma_page_index_bound(v, 4);
                    crate::paging::lemma_page_index_bound(v, 3);
                    crate::paging::lemma_page_index_bound(v, 2);
                    crate::paging::lemma_page_index_bound(v, 1);
                    assert forall|j: int, t: int|
                        0 <= j < self.frames@.len() && 0 <= t < 512 && j != k1 implies #[trigger] self.entry(
                        j,
                        t,
                    ) == s0[512 * j + t] by {
                        lemma_other_slot(j, t, k1 as int, i as int);
                    }
                    assert(self.entry(0, page_index_spec(v, 4) as int) == s0[512 * 0
                        + page_index_spec(v, 4) as int]);
                    assert(self.entry(k3 as int, page_index_spec(v, 3) as int) == s0[512 * k3
                        + page_index_spec(v, 3) as int]);
                    assert(self.entry(k2 as int, page_index_spec(v, 2) as int) == s0[512 * k2
                        + page_index_spec(v, 2) as int]);
                    assert forall|k: int, t: int|
                        0 <= k < self.frames@.len() && 0 <= t < 512 && self.levels@[k] > 1 && (
                        #[trigger] self.entry(k, t)).present_spec() implies ({
                        let u = lookup(self.frames@, self.entry(k, t).address_spec());
                        u >= 0 && self.levels@[u] == self.levels@[k] - 1
                    }) by {
                        assert(k != k1);
                        assert(old(self).entry(k, t) == s0[512 * k + t]);
                    }
                    assert(self.walk(k3 as int, v, 3) == self.walk(k2 as int, v, 2));
                    assert(self.walk(k2 as int, v, 2) == self.walk(k1 as int, v, 1));
                    assert forall|j: int, t: int|
                        0 <= j < self.frames@.len() && 0 <= t < 512 && (j != k1 || t != i) implies #[trigger] self.entry(
                        j,
                        t,
                    ) == old(self).entry(j, t) by {
                        lemma_other_slot(j, t, k1 as int, i as int);
                    }
                    assert(old(self).path_table(v, 4) == 0);
                    assert(old(self).path_table(v, 3) == k3);
                    assert(old(self).path_table(v, 2) == k2);
                    assert(old(self).path_table(v, 1) == k1);
                    assert forall|w: u64|
                        old(self).leaf_slot(w) != old(self).leaf_slot(v) implies #[trigger] self.leaf(
                        w,
                    ) == old(self).leaf(w) by {
                        lemma_walk_one_slot(*old(self), *self, k1 as int, i as int, w);
                    }
                }
                Some(old_flags)
            },
        }
    }

    /// Appends an empty table, held at physical address `a`, at level `level`.
    fn push_table(&mut self, a: u64, level: Ghost<int>)
        ensures
            final(self).frames@ == old(self).frames@.push(a),
            final(self).levels@ == old(self).levels@.push(level@),
            final(self).entries@.len() == old(self).entries@.len() + 512,
            forall|x: int| 0 <= x < old(self).entries@.len() ==> #[trigger] final(self).entries@[x]
                == old(self).entries@[x],
            forall|x: int|
                old(self).entries@.len() <= x < old(self).entries@.len() + 512 ==> (
                #[trigger] final(self).entries@[x]).bits == 0,
    {
        self.frames.push(a);
        let mut c: usize = 0;
        while c < 512
            invariant
                c <= 512,
                self.frames@ == old(self).frames@.push(a),
                self.levels@ == old(self).levels@,
                self.entries@.len() == old(self).entries@.len() + c,
                forall|x: int| 0 <= x < old(self).entries@.len() ==> #[trigger] self.entries@[x]
                    == old(self).entries@[x],
                forall|x: int|
                    old(self).entries@.len() <= x < old(self).entries@.len() + c ==> (
                    #[trigger] self.entries@[x]).bits == 0,
            decreases 512 - c,
        {
            self.entries.push(PageEntry::empty());
            c = c + 1;
        }
        self.levels = Ghost(self.levels@.push(level@));
    }

    /// Makes the entry for `v` at `level` of table `k` point to a table one level down,
    /// creating an empty one in a fresh, zeroed kernel frame when the entry is absent. A new
    /// entry is present and writable, so that the leaf flags alone govern the access.
    fn descend(&mut self, alloc: &mut Allocator, state: &mut State, k: usize, v: u64, level: u64) -> (r:
        Result<usize, MapError>)
        requires
            old(self).wf(),
            old(self).owns_frames(old(state)@),
            alloc_wf(old(alloc).statistic, old(state)@),
            k < old(self).frames@.len(),
            old(self).levels@[k as int] == level,
            2 <= level <= 4,
        ensures
            final(self).wf(),
            final(self).owns_frames(final(state)@),
            alloc_wf(final(alloc).statistic, final(state)@),
            kept(*old(self), *final(self)),
            r is Err ==> r == Err::<usize, MapError>(MapError::OutOfMemory),
            r is Err ==> no_free_frame(final(state)@),
            old(self).next_table(k as int, v, level) >= 0 ==> final(state)@ == old(state)@
                && final(alloc).statistic == old(alloc).statistic,
            r matches Ok(t) ==> (t < old(self).frames@.len() ==> old(self).next_table(
                k as int,
                v,
                level,
            ) == t),
            final(self).frames@.len() >= old(self).frames@.len(),
            forall|j: int|
                0 <= j < old(self).frames@.len() ==> #[trigger] final(self).levels@[j] == old(
                    self,
                ).levels@[j],
            forall|j: int, t: int|
                0 <= j < old(self).frames@.len() && 0 <= t < 512 && (j != k || t
                    != page_index_spec(v, level)) ==> #[trigger] final(self).entry(j, t) == old(
                    self,
                ).entry(j, t),
            old(self).next_table(k as int, v, level) >= 0 ==> r == Ok::<usize, MapError>(
                old(self).next_table(k as int, v, level) as usize,
            ) && final(self).frames@ == old(self).frames@ && final(self).entries@ == old(
                self,
            ).entries@ && final(self).levels@ == old(self).levels@,
            r matches Ok(t) ==> {
                &&& t as int == final(self).next_table(k as int, v, level)
                &&& t < final(self).frames@.len()
                &&& final(self).levels@[t as int] == level - 1
                &&& t >= old(self).frames@.len() ==> forall|i: int|
                    0 <= i < 512 ==> !(#[trigger] final(self).entry(t as int, i)).present_spec()
            },
    {
        proof {
            crate::paging::lemma_page_index_bound(v, level);
        }
        let i = page_index(v, level);
        let _entries = self.entries.len();
        proof {
            assert(512 * k + i < 512 * self.frames@.len()) by (nonlinear_arith)
                requires
                    k < self.frames@.len(),
                    i < 512,
            ;
        }
        let e = self.entries[512 * k + i];
        if e.is_present() {
            proof {
                assert(self.entry(k as int, i as int) == e);
                lemma_lookup(self.frames@, e.address_spec());
            }
            match self.find_table(e.address()) {
                Some(t) => {
                    return Ok(t);
                },
                None => {
                    return Err(MapError::OutOfMemory);
                },
            }
        }
        let ghost s0 = state@;
        let frame = match alloc.allocate(state, ALLOC_KERNEL | ALLOC_ZEROED) {
            Some(f) => f,
            None => {
                proof {
                    lemma_unplaced(ALLOC_KERNEL | ALLOC_ZEROED);
                    lemma_unplaced_flags(state@, ALLOC_KERNEL | ALLOC_ZEROED);
                }
                return Err(MapError::OutOfMemory);
            },
        };
        let a = frame.start();
        let ghost fi = (a / 4096) as int;
        proof {
            assert(crate::frame_state::entry_wf(s0[fi], fi));
            lemma_allocation_keeps_tables(*self, s0, state@, fi);
            lemma_frame_address(a);
            lemma_lookup(self.frames@, a);
            if lookup(self.frames@, a) >= 0 {
                assert(self.frames@[lookup(self.frames@, a)] / 4096 != fi);
            }
        }
        let t = self.frames.len();
        let ghost f0 = self.frames@;
        let ghost e0 = self.entries@;
        let ghost l0 = self.levels@;
        let ghost old_tables = *self;
        proof {
            assert(old_tables.wf());
        }
        self.push_table(a, Ghost((level - 1) as int));
        let bits = ((e.bits | PAGE_PRESENT | PAGE_WRITABLE) & !ADDRESS_MASK) | a;
        proof {
            let eb = e.bits;
            assert(bits & ADDRESS_MASK == a && bits & PAGE_PRESENT != 0) by (bit_vector)
                requires
                    bits == ((eb | PAGE_PRESENT | PAGE_WRITABLE) & !ADDRESS_MASK) | a,
                    a & ADDRESS_MASK == a,
            ;
        }
        self.entries.set(512 * k + i, PageEntry { bits });
        proof {
            let fr = self.frames@;
            assert forall|a2: u64| lookup(f0, a2) >= 0 implies #[trigger] lookup(fr, a2) == lookup(
                f0,
                a2,
            ) by {
                lemma_lookup_push(f0, a, a2);
            }
            lemma_lookup_push(f0, a, a);
            assert(lookup(fr, a) == t);
            assert forall|j: int, u: int|
                0 <= j < f0.len() && 0 <= u < 512 && (j != k || u != i) implies #[trigger] self.entry(
                j,
                u,
            ) == e0[512 * j + u] by {
                lemma_other_slot(j, u, k as int, i as int);
                assert(512 * j + u < 512 * f0.len()) by (nonlinear_arith)
                    requires
                        0 <= j < f0.len(),
                        0 <= u < 512,
                ;
            }
            assert forall|u: int| 0 <= u < 512 implies (#[trigger] self.entry(t as int, u)).bits
                == 0 by {
                lemma_other_slot(t as int, u, k as int, i as int);
            }
            assert(0u64 & PAGE_PRESENT == 0) by (bit_vector);
            assert forall|j: int, u: int|
                0 <= j < fr.len() && 0 <= u < 512 && self.levels@[j] > 1 && (
                #[trigger] self.entry(j, u)).present_spec() implies ({
                let w = lookup(fr, self.entry(j, u).address_spec());
                w >= 0 && self.levels@[w] == self.levels@[j] - 1
            }) by {
                if j == t {
                    assert(self.entry(t as int, u).bits == 0);
                } else if j == k && u == i {
                    assert(self.levels@[k as int] == level);
                    assert(self.levels@[t as int] == level - 1);
                } else {
                    let ad = self.entry(j, u).address_spec();
                    assert(old_tables.entry(j, u) == e0[512 * j + u]);
                    assert(old_tables.entry(j, u) == self.entry(j, u));
                    let w0 = lookup(f0, ad);
                    lemma_lookup(f0, ad);
                    assert(w0 >= 0 && l0[w0] == l0[j] - 1);
                    assert(lookup(fr, ad) == w0);
                    assert(self.levels@[w0] == l0[w0]);
                    assert(self.levels@[j] == l0[j]);
                }
            }
            assert forall|j1: int, j2: int| 0 <= j1 < j2 < fr.len() implies #[trigger] fr[j1]
                != #[trigger] fr[j2] by {
                if j2 == t {
                    assert(fr[j1] == f0[j1]);
                }
            }
            assert forall|q: int| 0 <= q < fr.len() implies 1 <= #[trigger] self.levels@[q] <= 4 by {
                if q < f0.len() {
                    assert(self.levels@[q] == l0[q]);
                }
            }
            assert forall|q: int| 0 <= q < fr.len() implies {
                let b = #[trigger] fr[q];
                &&& b % 4096 == 0
                &&& b / 4096 < state@.len()
                &&& state@[(b / 4096) as int].state == FrameState::Allocated
            } by {
                if q < f0.len() {
                    assert(fr[q] == f0[q]);
                }
            }
            assert(self.entry(k as int, i as int).bits == bits);
            assert forall|j: int, u: int|
                0 <= j < f0.len() && 0 <= u < 512 && (#[trigger] old_tables.entry(
                    j,
                    u,
                )).present_spec() implies self.entry(j, u) == old_tables.entry(j, u) by {
                assert(old_tables.entry(j, u) == e0[512 * j + u]);
                if j == k && u == i {
                    assert(old_tables.entry(k as int, i as int) == e);
                }
            }
        }
        Ok(t)
    }

    /// Maps the page at `v` to `frame` with `flags`, creating the missing tables on the way in
    /// fresh kernel frames; the null frame asks for a fresh, zeroed kernel frame. Fails with
    /// `AlreadyMapped` when `v` is mapped, and with `OutOfMemory` when a frame is missing. The
    /// TLB is not flushed: the entry was absent, and a fault on a stale translation finds it.
    /// Whatever was mapped stays mapped as it was.
    pub fn map(&mut self, alloc: &mut Allocator, state: &mut State, v: u64, frame: Frame, flags: u64) -> (r:
        Result<(), MapError>)
        requires
            old(self).wf(),
            old(self).owns_frames(old(state)@),
            alloc_wf(old(alloc).statistic, old(state)@),
            frame@ < MAX_PHYSICAL,
            flags & ADDRESS_MASK == 0,
        ensures
            final(self).wf(),
            final(self).owns_frames(final(state)@),
            alloc_wf(final(alloc).statistic, final(state)@),
            kept(*old(self), *final(self)),
            r == Err::<(), MapError>(MapError::AlreadyMapped) <==> old(self).leaf(v) is Some,
            old(self).leaf(v) is Some ==> final(state)@ == old(state)@,
            old(self).leaf(v) is Some ==> final(alloc).statistic == old(alloc).statistic,
            old(self).leaf(v) is Some ==> final(self).entries@ == old(self).entries@,
            old(self).leaf(v) is Some ==> final(self).frames@ == old(self).frames@,
            r == Err::<(), MapError>(MapError::OutOfMemory) ==> no_free_frame(final(state)@),
            r is Ok && frame@ != 0 ==> final(self).leaf(v) == if flags & PAGE_PRESENT != 0 {
                Some(PageEntry { bits: frame@ | flags })
            } else {
                None::<PageEntry>
            },
            r is Ok && frame@ == 0 && flags & PAGE_PRESENT != 0 ==> (final(self).leaf(
                v,
            ) matches Some(e) && e.flags_spec() == flags),
    {
        proof {
            crate::paging::lemma_page_index_bound(v, 4);
            crate::paging::lemma_page_index_bound(v, 3);
            crate::paging::lemma_page_index_bound(v, 2);
            crate::paging::lemma_page_index_bound(v, 1);
        }
        let ghost s0 = *self;
        let ghost m0 = state@;
        let ghost a0 = alloc.statistic;
        let k3 = match self.descend(alloc, state, 0, v, 4) {
            Ok(t) => t,
            Err(e) => {
                proof {
                    if s0.leaf(v) is Some {
                        assert(s0.next_table(0, v, 4) >= 0);
                    }
                }
                return Err(e);
            },
        };
        let ghost s1 = *self;
        let ghost m1 = state@;
        let ghost a1 = alloc.statistic;
        proof {
            if s0.leaf(v) is Some {
                assert(s0.next_table(0, v, 4) >= 0);
                assert(s1.frames@ == s0.frames@ && s1.entries@ == s0.entries@);
                assert(s0.walk(0, v, 4) == s0.walk(k3 as int, v, 3));
                assert(s0.next_table(k3 as int, v, 3) >= 0);
                assert(s1.next_table(k3 as int, v, 3) == s0.next_table(k3 as int, v, 3));
            }
        }
        let k2 = match self.descend(alloc, state, k3, v, 3) {
            Ok(t) => t,
            Err(e) => {
                proof {
                    lemma_kept_trans(s0, s1, *self);
                }
                return Err(e);
            },
        };
        let ghost s2 = *self;
        let ghost m2 = state@;
        let ghost a2 = alloc.statistic;
        proof {
            lemma_kept_trans(s0, s1, s2);
            if s0.leaf(v) is Some {
                assert(s2.frames@ == s0.frames@ && s2.entries@ == s0.entries@);
                assert(s0.walk(k3 as int, v, 3) == s0.walk(k2 as int, v, 2));
                assert(s0.next_table(k2 as int, v, 2) >= 0);
                assert(s2.next_table(k2 as int, v, 2) == s0.next_table(k2 as int, v, 2));
            }
        }
        let k1 = match self.descend(alloc, state, k2, v, 2) {
            Ok(t) => t,
            Err(e) => {
                proof {
                    lemma_kept_trans(s0, s2, *self);
                }
                return Err(e);
            },
        };
        let ghost s3 = *self;
        let i = page_index(v, 1);
        let _entries = self.entries.len();
        proof {
            lemma_kept_trans(s0, s2, s3);
            assert(512 * k1 + i < 512 * self.frames@.len()) by (nonlinear_arith)
                requires
                    k1 < self.frames@.len(),
                    i < 512,
            ;
            let i4 = page_index_spec(v, 4) as int;
            let i3 = page_index_spec(v, 3) as int;
            assert(s2.entry(0, i4) == s1.entry(0, i4));
            assert(s3.entry(0, i4) == s2.entry(0, i4));
            assert(s3.entry(k3 as int, i3) == s2.entry(k3 as int, i3));
            assert(s3.next_table(0, v, 4) == k3);
            assert(s3.next_table(k3 as int, v, 3) == k2);
            if s0.leaf(v) is Some {
                assert(s3.frames@ == s0.frames@ && s3.entries@ == s0.entries@);
                assert(s0.walk(k2 as int, v, 2) == s0.walk(k1 as int, v, 1));
                assert(s0.walk(k1 as int, v, 1) is Some);
                assert(s3.entry(k1 as int, i as int) == s0.entry(k1 as int, i as int));
            }
        }
        let e = self.entries[512 * k1 + i];
        if e.is_present() {
            proof {
                let i2 = page_index_spec(v, 2) as int;
                let i3 = page_index_spec(v, 3) as int;
                let i4 = page_index_spec(v, 4) as int;
                assert(s3.entry(k1 as int, i as int) == e);
                assert(k1 < s2.frames@.len());
                assert(s2.next_table(k2 as int, v, 2) == k1);
                assert(s3.entries@ == s2.entries@ && s3.frames@ == s2.frames@);
                assert(s2.entry(k2 as int, i2).present_spec());
                assert(k2 < s1.frames@.len());
                assert(s1.next_table(k3 as int, v, 3) == k2);
                assert(s2.entries@ == s1.entries@ && s2.frames@ == s1.frames@);
                assert(s1.entry(k3 as int, i3).present_spec());
                assert(k3 < s0.frames@.len());
                assert(s0.next_table(0, v, 4) == k3);
                assert(s1.entries@ == s0.entries@ && s1.frames@ == s0.frames@);
                assert(s0.next_table(k3 as int, v, 3) == k2);
                assert(s0.next_table(k2 as int, v, 2) == k1);
                assert(s0.entry(k1 as int, i as int) == e);
                assert(s0.walk(k2 as int, v, 2) == s0.walk(k1 as int, v, 1));
                assert(s0.walk(k3 as int, v, 3) == s0.walk(k2 as int, v, 2));
                assert(s0.walk(0, v, 4) == s0.walk(k3 as int, v, 3));
                assert(s0.leaf(v) is Some);
            }
            return Err(MapError::AlreadyMapped);
        }
        proof {
            if s0.leaf(v) is Some {
                assert(s3.entry(k1 as int, i as int) == e);
            }
        }
        let ghost st0 = state@;
        let address = if frame.start() == 0 {
            match alloc.allocate(state, ALLOC_KERNEL | ALLOC_ZEROED) {
                Some(f) => {
                    proof {
                        let fi = (f@ / 4096) as int;
                        assert(crate::frame_state::entry_wf(st0[fi], fi));
                        lemma_allocation_keeps_tables(s3, st0, state@, fi);
                    }
                    f.start()
                },
                None => {
                    proof {
                        lemma_unplaced(ALLOC_KERNEL | ALLOC_ZEROED);
                        lemma_unplaced_flags(state@, ALLOC_KERNEL | ALLOC_ZEROED);
                    }
                    return Err(MapError::OutOfMemory);
                },
            }
        } else {
            frame.start()
        };
        proof {
            assert(address < MAX_PHYSICAL);
            lemma_frame_address(address);
            lemma_entry_bits(address, flags);
        }
        self.entries.set(512 * k1 + i, PageEntry { bits: address | flags });
        proof {
            let i4 = page_index_spec(v, 4) as int;
            let i3 = page_index_spec(v, 3) as int;
            let i2 = page_index_spec(v, 2) as int;
            assert(s3.wf());
            assert(self.levels@ == s3.levels@ && self.frames@ == s3.frames@);
            assert forall|j: int, t: int|
                0 <= j < self.frames@.len() && 0 <= t < 512 && (j != k1 || t != i) implies #[trigger] self.entry(
                j,
                t,
            ) == s3.entry(j, t) by {
                lemma_other_slot(j, t, k1 as int, i as int);
            }
            assert forall|k: int, t: int|
                0 <= k < self.frames@.len() && 0 <= t < 512 && self.levels@[k] > 1 && (
                #[trigger] self.entry(k, t)).present_spec() implies ({
                let u = lookup(self.frames@, self.entry(k, t).address_spec());
                u >= 0 && self.levels@[u] == self.levels@[k] - 1
            }) by {
                assert(k != k1);
                assert(s3.entry(k, t) == self.entry(k, t));
            }
            assert forall|j: int, t: int|
                0 <= j < s3.frames@.len() && 0 <= t < 512 && (#[trigger] s3.entry(
                    j,
                    t,
                )).present_spec() implies self.entry(j, t) == s3.entry(j, t) by {
                if j == k1 && t == i {
                    assert(s3.entry(k1 as int, i as int) == e);
                }
            }
            assert(kept(s3, *self));
            lemma_kept_trans(s0, s3, *self);
            assert(self.entry(0, i4) == s3.entry(0, i4));
            assert(self.entry(k3 as int, i3) == s3.entry(k3 as int, i3));
            assert(self.entry(k2 as int, i2) == s3.entry(k2 as int, i2));
            assert(self.walk(0, v, 4) == self.walk(k3 as int, v, 3));
            assert(self.walk(k3 as int, v, 3) == self.walk(k2 as int, v, 2));
            assert(self.walk(k2 as int, v, 2) == self.walk(k1 as int, v, 1));
            assert(self.entry(k1 as int, i as int) == PageEntry { bits: address | flags });
        }
        Ok(())
    }

    /// Resolves a page fault at `address` with error `code`. A present entry means a stale
    /// translation: the caller flushes the local TLB. An absent one in the heap or in a
    /// mappable vmalloc area gets a fresh frame. Anything else is unrecoverable, and the error
    /// gives its reasons.
    pub fn handle_page_fault(
        &mut self,
        alloc: &mut Allocator,
        state: &mut State,
        vmalloc: &Vmalloc,
        code: u64,
        address: u64,
    ) -> (r: Result<PageFaultType, u64>)
        requires
            old(self).wf(),
            old(self).owns_frames(old(state)@),
            alloc_wf(old(alloc).statistic, old(state)@),
        ensures
            final(self).wf(),
            final(self).owns_frames(final(state)@),
            alloc_wf(final(alloc).statistic, final(state)@),
            kept(*old(self), *final(self)),
            fault_step_spec(old(self).leaf(address), code) == FaultStep::FlushTlb ==> r == Ok::<
                PageFaultType,
                u64,
            >(PageFaultType::LazyTlbInvalidation),
            fault_step_spec(old(self).leaf(address), code) == FaultStep::Unrecoverable ==> r
                == Err::<PageFaultType, u64>(fault_reasons_spec(old(self).leaf(address), code, 0)),
            fault_step_spec(old(self).leaf(address), code) == FaultStep::DemandPaging ==> {
                let page = address & !0xFFFu64;
                match demand_paging_plan_spec(page, vmalloc) {
                    Err(e) => r == Err::<PageFaultType, u64>(e | PF_MISSING_PAGE),
                    Ok(plan) => (r is Ok ==> r == Ok::<PageFaultType, u64>(
                        PageFaultType::DemandPaging,
                    ) && (final(self).leaf(page) matches Some(e) && e.flags_spec() == plan.1))
                        && (r is Err ==> r == Err::<PageFaultType, u64>(
                        PF_OUT_OF_MEMORY | PF_MISSING_PAGE,
                    ) && no_free_frame(final(state)@)),
                }
            },
            r is Ok ==> r == Ok::<PageFaultType, u64>(PageFaultType::LazyTlbInvalidation) || r
                == Ok::<PageFaultType, u64>(PageFaultType::DemandPaging),
            !(r == Ok::<PageFaultType, u64>(PageFaultType::DemandPaging)) && !(r == Err::<
                PageFaultType,
                u64,
            >(PF_OUT_OF_MEMORY | PF_MISSING_PAGE)) ==> final(state)@ == old(state)@,
            !(r == Ok::<PageFaultType, u64>(PageFaultType::DemandPaging)) && !(r == Err::<
                PageFaultType,
                u64,
            >(PF_OUT_OF_MEMORY | PF_MISSING_PAGE)) ==> final(self).entries@ == old(
                self,
            ).entries@,
            !(r == Ok::<PageFaultType, u64>(PageFaultType::DemandPaging)) && !(r == Err::<
                PageFaultType,
                u64,
            >(PF_OUT_OF_MEMORY | PF_MISSING_PAGE)) ==> final(self).frames@ == old(self).frames@,
            !(r == Ok::<PageFaultType, u64>(PageFaultType::DemandPaging)) && !(r == Err::<
                PageFaultType,
                u64,
            >(PF_OUT_OF_MEMORY | PF_MISSING_PAGE)) ==> final(alloc).statistic == old(
                alloc,
            ).statistic,
    {
        let ghost s0 = *self;
        proof {
            assert(kept(s0, s0));
        }
        let leaf = match self.find_path(address) {
            None => None,
            Some((_, _, k, i)) => {
                let _entries = self.entries.len();
                Some(self.entries[512 * k + i])
            },
        };
        match fault_step(leaf, code) {
            FaultStep::FlushTlb => Ok(PageFaultType::LazyTlbInvalidation),
            FaultStep::Unrecoverable => Err(fault_reasons(leaf, code, 0)),
            FaultStep::DemandPaging => {
                let page = address & !0xFFFu64;
                match demand_paging_plan(page, vmalloc) {
                    Err(e) => Err(fault_reasons(None, code, e)),
                    Ok((alloc_flags, map_flags)) => {
                        let ghost st0 = state@;
                        let frame = match alloc.allocate(state, alloc_flags) {
                            Some(f) => f,
                            None => {
                                proof {
                                    lemma_missing_page_kept(PF_OUT_OF_MEMORY);
                                    lemma_unplaced(alloc_flags);
                                    lemma_unplaced_flags(state@, alloc_flags);
                                }
                                return Err(fault_reasons(None, code, PF_OUT_OF_MEMORY));
                            },
                        };
                        proof {
                            let fi = (frame@ / 4096) as int;
                            assert(crate::frame_state::entry_wf(st0[fi], fi));
                            lemma_allocation_keeps_tables(*self, st0, state@, fi);
                            let mf = map_flags;
                            assert(mf & ADDRESS_MASK == 0 && mf & PAGE_PRESENT != 0) by (bit_vector)
                                requires
                                    mf == PAGE_PRESENT | PAGE_WRITABLE || mf == PAGE_PRESENT
                                        | PAGE_WRITABLE | crate::paging::PAGE_NO_EXECUTE,
                            ;
                        }
                        proof {
                            lemma_leaf_at_slot(s0, address);
                            lemma_walk_same_page(s0, 0, address, 4);
                            assert(s0.leaf(address) is None);
                            assert(self.leaf(page) is None);
                        }
                        match self.map(alloc, state, page, frame, map_flags) {
                            Ok(()) => {
                                proof {
                                    if frame@ != 0 {
                                        let ad = frame@;
                                        lemma_frame_address(ad);
                                        lemma_entry_bits(ad, map_flags);
                                    }
                                }
                                Ok(PageFaultType::DemandPaging)
                            },
                            Err(e) => {
                                let reason = map_error_reason(e);
                                proof {
                                    lemma_missing_page_kept(reason);
                                    assert(e == MapError::OutOfMemory);
                                }
                                Err(fault_reasons(None, code, reason))
                            },
                        }
                    },
                }
            },
        }
    }

    /// Gives the used vmalloc area that starts where `range` starts back to vmalloc. When the
    /// area was mapped on demand, each of its pages is unmapped and the frame behind it
    /// released once; the caller then invalidates the translations on every CPU. Returns the
    /// area.
    pub fn free_area(
        &mut self,
        alloc: &mut Allocator,
        state: &mut State,
        vmalloc: &mut Vmalloc,
        range: VirtualRange,
    ) -> (r: VirtualArea)
        requires
            old(self).wf(),
            old(self).owns_frames(old(state)@),
            alloc_wf(old(alloc).statistic, old(state)@),
            old(vmalloc).wf(),
            index_of_start(old(vmalloc).used@, range.start) >= 0,
            releasable(
                *old(self),
                old(vmalloc).used@[index_of_start(old(vmalloc).used@, range.start)],
                old(state)@,
            ),
        ensures
            final(self).wf(),
            final(self).owns_frames(final(state)@),
            alloc_wf(final(alloc).statistic, final(state)@),
            final(vmalloc).wf(),
            final(self).frames@ == old(self).frames@,
            r == old(vmalloc).used@[index_of_start(old(vmalloc).used@, range.start)],
            final(vmalloc).used@ == old(vmalloc).used@.remove(
                index_of_start(old(vmalloc).used@, range.start),
            ),
            final(vmalloc).free@ == old(vmalloc).free@.push(r),
            r.flags & VMM_MAP == 0 ==> final(self).entries@ == old(self).entries@
                && final(state)@ == old(state)@,
            r.flags & VMM_MAP != 0 ==> forall|q: int|
                0 <= q < area_size(r) / 4096 ==> {
                    &&& (#[trigger] final(self).leaf(area_page(r, q))) is None
                    &&& leaf_address(*old(self), area_page(r, q)) >= 0 ==> final(state)@[leaf_address(
                        *old(self),
                        area_page(r, q),
                    ) / 4096] == released_entry(
                        old(state)@[leaf_address(*old(self), area_page(r, q)) / 4096],
                    )
                },
    {
        let ghost t0 = *self;
        let ghost s0 = state@;
        let ghost used0 = vmalloc.used@;
        let area = vmalloc.deallocate(range);
        if area.flags & VMM_MAP == 0 {
            return area;
        }
        proof {
            crate::vmm::lemma_area_of_start(used0, range.start);
            assert(crate::vmm::area_valid(area));
        }
        let n = (area.range.end - area.range.start) / 4096;
        let mut j: u64 = 0;
        while j < n
            invariant
                j <= n,
                n == area_size(area) / 4096,
                crate::vmm::area_valid(area),
                area.flags & VMM_MAP != 0,
                self.wf(),
                self.owns_frames(state@),
                alloc_wf(alloc.statistic, state@),
                vmalloc.wf(),
                vmalloc.used@ == used0.remove(index_of_start(used0, range.start)),
                vmalloc.free@ == old(vmalloc).free@.push(area),
                area == used0[index_of_start(used0, range.start)],
                used0 == old(vmalloc).used@,
                t0 == *old(self),
                s0 == old(state)@,
                self.frames@ == t0.frames@,
                self.levels@ == t0.levels@,
                t0.wf(),
                releasable(t0, area, s0),
                state@.len() == s0.len(),
                forall|q: int| 0 <= q < j ==> (#[trigger] self.leaf(area_page(area, q))) is None,
                forall|q: int|
                    j <= q < n ==> #[trigger] self.leaf(area_page(area, q)) == t0.leaf(
                        area_page(area, q),
                    ),
                forall|q: int|
                    0 <= q < n && leaf_address(t0, area_page(area, q)) >= 0 ==> #[trigger] state@[leaf_address(
                        t0,
                        area_page(area, q),
                    ) / 4096] == if q < j {
                        released_entry(s0[leaf_address(t0, area_page(area, q)) / 4096])
                    } else {
                        s0[leaf_address(t0, area_page(area, q)) / 4096]
                    },
            decreases n - j,
        {
            let page = area.range.start + j * 4096;
            let ghost cur = *self;
            let ghost st = state@;
            proof {
                assert(page == area_page(area, j as int));
                assert(page % 4096 == 0) by (nonlinear_arith)
                    requires
                        page == area.range.start + j * 4096,
                        area.range.start % 4096 == 0,
                ;
                assert(page & 0xFFF == 0) by (bit_vector)
                    requires
                        page % 4096 == 0,
                ;
                lemma_leaf_at_slot(cur, page);
            }
            let unmapped = self.unmap(page);
            proof {
                if unmapped is None {
                    assert(kept(cur, *self));
                    assert(kept(*self, cur));
                    lemma_leaves_kept(cur, *self);
                    lemma_leaves_kept(*self, cur);
                }
                assert forall|q: int| 0 <= q < n && q != j implies #[trigger] self.leaf(
                    area_page(area, q),
                ) == cur.leaf(area_page(area, q)) by {
                    let w = area_page(area, q);
                    if unmapped is Some {
                        lemma_leaf_at_slot(cur, w);
                        assert(cur.leaf(page) is Some);
                        if cur.leaf_slot(w) == cur.leaf_slot(page) {
                            assert(cur.leaf(w) == cur.leaf(page));
                            if q > j {
                                assert(t0.leaf(w) == t0.leaf(area_page(area, j as int)));
                                assert(leaf_address(t0, area_page(area, j as int)) >= 0);
                                assert(leaf_address(t0, area_page(area, j as int)) != leaf_address(
                                    t0,
                                    area_page(area, q),
                                ));
                            } else {
                                assert(cur.leaf(w) is None);
                            }
                        }
                    } else {
                        if cur.leaf(w) is Some {
                            assert(self.leaf(w) == cur.leaf(w));
                        } else if self.leaf(w) is Some {
                            assert(cur.leaf(w) == self.leaf(w));
                        }
                    }
                }
            }
            match unmapped {
                None => {},
                Some(p) => {
                    let ghost f = leaf_address(t0, page);
                    proof {
                        let e = cur.leaf(page)->Some_0;
                        lemma_address_bits(e.bits);
                        assert(p == e.address_spec());
                        assert(f == p);
                        assert(state@[f / 4096] == s0[f / 4096]);
                    }
                    let ghost st1 = state@;
                    alloc.deallocate(state, Frame::new(p));
                    proof {
                        assert forall|q: int|
                            0 <= q < n && q != j && leaf_address(t0, area_page(area, q))
                                >= 0 implies #[trigger] state@[leaf_address(
                            t0,
                            area_page(area, q),
                        ) / 4096] == st1[leaf_address(t0, area_page(area, q)) / 4096] by {
                            let g = leaf_address(t0, area_page(area, q));
                            let eq = t0.leaf(area_page(area, q))->Some_0;
                            lemma_address_bits(eq.bits);
                            lemma_distinct_frames(g, f);
                        }
                        assert forall|k: int| 0 <= k < self.frames@.len() implies #[trigger] self.frames@[k] / 4096
                            != f / 4096 by {
                            lemma_lookup(t0.frames@, f as u64);
                            lemma_distinct_frames(self.frames@[k] as int, f);
                        }
                    }
                },
            }
            j = j + 1;
        }
        area
    }

    /// Allocates `size` bytes of vmalloc space mapped at once, as `VMM_ATOMIC` asks: every page
    /// gets a fresh, zeroed kernel frame, present and writable, so that no access to the area
    /// faults; a page found mapped already is left as it is. Fails with `OutOfMemory` when
    /// vmalloc has no room (or nothing is asked), and with `WouldBlock` when no frame is free
    /// for a page; the area then stays reserved.
    pub fn allocate_mapped(
        &mut self,
        alloc: &mut Allocator,
        state: &mut State,
        vmalloc: &mut Vmalloc,
        size: usize,
        flags: u64,
    ) -> (r: Result<VirtualRange, AllocationError>)
        requires
            old(self).wf(),
            old(self).owns_frames(old(state)@),
            alloc_wf(old(alloc).statistic, old(state)@),
            old(vmalloc).wf(),
        ensures
            final(self).wf(),
            final(self).owns_frames(final(state)@),
            alloc_wf(final(alloc).statistic, final(state)@),
            final(vmalloc).wf(),
            kept(*old(self), *final(self)),
            r == Err::<VirtualRange, AllocationError>(AllocationError::OutOfMemory) <==> (size == 0
                || best_fit(old(vmalloc).free@, round_up(size as int)) < 0),
            r is Err && r != Err::<VirtualRange, AllocationError>(AllocationError::OutOfMemory)
                ==> r == Err::<VirtualRange, AllocationError>(AllocationError::WouldBlock),
            r == Err::<VirtualRange, AllocationError>(AllocationError::WouldBlock) ==> no_free_frame(
                final(state)@,
            ),
            r matches Ok(range) ==> {
                &&& range.end - range.start == round_up(size as int)
                &&& final(vmalloc).used@ == old(vmalloc).used@.push(
                    VirtualArea { range, flags: kept_flags(flags & !VMM_ATOMIC) },
                )
                &&& forall|q: int|
                    0 <= q < round_up(size as int) / 4096 ==> (#[trigger] final(self).leaf(
                        (range.start + q * 4096) as u64,
                    )) is Some
            },
    {
        let lazy = flags & !VMM_ATOMIC;
        proof {
            assert(lazy & VMM_ATOMIC == 0) by (bit_vector)
                requires
                    lazy == flags & !VMM_ATOMIC,
            ;
            assert((PAGE_PRESENT | PAGE_WRITABLE) & ADDRESS_MASK == 0 && (PAGE_PRESENT
                | PAGE_WRITABLE) & PAGE_PRESENT != 0) by (bit_vector);
        }
        let range = match vmalloc.allocate(size, lazy) {
            Ok(r) => r,
            Err(e) => {
                return Err(e);
            },
        };
        let pages = (range.end - range.start) / 4096;
        proof {
            let last = vmalloc.used@.len() - 1;
            assert(vmalloc.used@[last].range == range);
            assert(crate::vmm::area_valid(vmalloc.used@[last]));
            assert(round_up(size as int) % 4096 == 0) by (nonlinear_arith);
        }
        let mut j: u64 = 0;
        while j < pages
            invariant
                j <= pages,
                pages * 4096 == range.end - range.start,
                range.end - range.start == round_up(size as int),
                range.start % 4096 == 0,
                range.end <= crate::address::VMALLOC_END,
                (PAGE_PRESENT | PAGE_WRITABLE) & ADDRESS_MASK == 0,
                (PAGE_PRESENT | PAGE_WRITABLE) & PAGE_PRESENT != 0,
                best_fit(old(vmalloc).free@, round_up(size as int)) >= 0,
                size > 0,
                vmalloc.wf(),
                vmalloc.used@ == old(vmalloc).used@.push(
                    VirtualArea { range, flags: kept_flags(flags & !VMM_ATOMIC) },
                ),
                self.wf(),
                self.owns_frames(state@),
                alloc_wf(alloc.statistic, state@),
                kept(*old(self), *self),
                forall|q: int|
                    0 <= q < j ==> (#[trigger] self.leaf((range.start + q * 4096) as u64)) is Some,
            decreases pages - j,
        {
            let ghost before = *self;
            let page = range.start + j * 4096;
            match self.map(alloc, state, page, Frame::null(), PAGE_PRESENT | PAGE_WRITABLE) {
                Ok(()) => {},
                Err(MapError::AlreadyMapped) => {},
                Err(MapError::OutOfMemory) => {
                    proof {
                        lemma_kept_trans(*old(self), before, *self);
                    }
                    return Err(AllocationError::WouldBlock);
                },
            }
            proof {
                lemma_kept_trans(*old(self), before, *self);
                lemma_leaves_kept(before, *self);
                assert forall|q: int| 0 <= q < j + 1 implies (#[trigger] self.leaf(
                    (range.start + q * 4096) as u64,
                )) is Some by {
                    if q < j {
                        assert(before.leaf((range.start + q * 4096) as u64) is Some);
                    } else {
                        assert((range.start + q * 4096) as u64 == page);
                    }
                }
            }
            j = j + 1;
        }
        Ok(range)
    }
}

/// The `q`-th page of the area `a`.
pub open spec fn area_page(a: VirtualArea, q: int) -> u64 {
    (a.range.start + q * 4096) as u64
}

/// The frame address the leaf for `v` points to, or -1 when `v` is not mapped.
pub open spec fn leaf_address(t: PageTables, v: u64) -> int {
    match t.leaf(v) {
        Some(e) => e.address_spec() as int,
        None => -1,
    }
}

/// The mapped pages of `a` point to distinct frames, none of them a page table, each in use
/// in the frame table `s`: releasing each once is sound.
pub open spec fn releasable(t: PageTables, a: VirtualArea, s: Seq<FrameInfo>) -> bool {
    let n = area_size(a) / 4096;
    &&& forall|q: int|
        0 <= q < n && #[trigger] leaf_address(t, area_page(a, q)) >= 0 ==> {
            let f = leaf_address(t, area_page(a, q));
            &&& f / 4096 < s.len()
            &&& s[f / 4096].count > 0
            &&& lookup(t.frames@, f as u64) < 0
        }
    &&& forall|q1: int, q2: int|
        0 <= q1 < n && 0 <= q2 < n && q1 != q2 && #[trigger] leaf_address(t, area_page(a, q1))
            >= 0 ==> leaf_address(t, area_page(a, q1)) != #[trigger] leaf_address(
            t,
            area_page(a, q2),
        )
}

/// Whether `t` maps the page at `v` to the frame at `p` with `flags`.
pub open spec fn maps(t: PageTables, v: u64, p: u64, flags: u64) -> bool {
    t.leaf(v) == Some(PageEntry { bits: p | flags })
}

/// Mapping round trip. Once a page-aligned `v` is mapped to the frame at `p` with present
/// flags, it translates to `p`; unmapping it hands `p` back, and afterwards it translates to
/// nothing.
pub proof fn lemma_mapping_round_trip(
    mapped: PageTables,
    unmapped: PageTables,
    v: u64,
    p: u64,
    flags: u64,
    returned: Option<u64>,
)
    requires
        v % 4096 == 0,
        p % 4096 == 0,
        p < MAX_PHYSICAL,
        flags & ADDRESS_MASK == 0,
        flags & PAGE_PRESENT != 0,
        maps(mapped, v, p, flags),
        returned == mapped.translation(v),
        unmapped.leaf(v) is None,
    ensures
        mapped.translation(v) == Some(p),
        returned == Some(p),
        unmapped.translation(v) is None,
{
    lemma_frame_address(p);
    lemma_entry_bits(p, flags);
    assert(v & 0xFFF == 0) by (bit_vector)
        requires
            v % 4096 == 0,
    ;
}

} // verus!
