use vstd::prelude::*;

use crate::frame::{
    zero_stats, Frame, Range, Stats, ALLOC_BIOS, ALLOC_ISA, ALLOC_KERNEL, ALLOC_X86, ALLOC_ZEROED, BIOS_LIMIT,
    ISA_LIMIT, MAX_PHYSICAL, X86_LIMIT,
};
use crate::frame_state::{
    accounts, flags_of, count_state, count_kernel, count_borrowed, lemma_classes_partition,
    set_entry, table_wf, FrameInfo, FrameState, State,
};

verus! {

/// The allocator's counters describe the table, and the table is consistent.
pub open spec fn alloc_wf(st: Stats, s: Seq<FrameInfo>) -> bool {
    table_wf(s) && accounts(st, s)
}

/// A record that an allocation with `flags` may take: a free frame inside every placement zone
/// that `flags` asks for.
pub open spec fn suits(f: FrameInfo, flags: u64) -> bool {
    &&& f.state == FrameState::Free
    &&& (flags & ALLOC_BIOS != 0 ==> f.frame@ < BIOS_LIMIT)
    &&& (flags & ALLOC_ISA != 0 ==> f.frame@ < ISA_LIMIT)
    &&& (flags & ALLOC_X86 != 0 ==> f.frame@ < X86_LIMIT)
}

/// A free record once allocated with `flags`: referenced once, owned by the kernel if asked,
/// and marked zeroed if asked.
pub open spec fn allocated_entry(f: FrameInfo, flags: u64) -> FrameInfo {
    with_flag_word(
        FrameInfo {
            state: FrameState::Allocated,
            count: 1,
            kernel: flags & ALLOC_KERNEL != 0,
            zeroed: flags & ALLOC_ZEROED != 0,
            ..f
        },
    )
}

/// A record whose flag word is made up again from its class, ownership bits and address.
pub open spec fn with_flag_word(f: FrameInfo) -> FrameInfo {
    FrameInfo { flags: flags_of(f), ..f }
}

/// A record with one more reference.
pub open spec fn referenced_entry(f: FrameInfo) -> FrameInfo {
    FrameInfo { count: (f.count + 1) as u64, ..f }
}

/// A record with one reference less: the last reference frees the frame and drops its owner.
pub open spec fn released_entry(f: FrameInfo) -> FrameInfo {
    if f.count == 1 {
        with_flag_word(
            FrameInfo { state: FrameState::Free, count: 0, kernel: false, borrowed: false, ..f },
        )
    } else {
        FrameInfo { count: (f.count - 1) as u64, ..f }
    }
}

/// `after` is `before` once the first frame that suits `flags`, the one at address `f`, has
/// been allocated with `flags`.
pub open spec fn takes_frame(before: Seq<FrameInfo>, after: Seq<FrameInfo>, f: u64, flags: u64) -> bool {
    let i = (f / 4096) as int;
    &&& 0 <= i < before.len()
    &&& before[i].frame@ == f
    &&& suits(before[i], flags)
    &&& forall|j: int| 0 <= j < i ==> !suits(#[trigger] before[j], flags)
    &&& after == before.update(i, allocated_entry(before[i], flags))
}

/// No frame of the table is free.
pub open spec fn no_free_frame(s: Seq<FrameInfo>) -> bool {
    forall|i: int| 0 <= i < s.len() ==> (#[trigger] s[i]).state != FrameState::Free
}

/// For flags that ask for no placement zone, no frame suits only when none is free.
pub proof fn lemma_unplaced_flags(s: Seq<FrameInfo>, flags: u64)
    requires
        flags & ALLOC_BIOS == 0,
        flags & ALLOC_ISA == 0,
        flags & ALLOC_X86 == 0,
        forall|i: int| 0 <= i < s.len() ==> !suits(#[trigger] s[i], flags),
    ensures
        no_free_frame(s),
{
}

/// The allocation flags of kernel tables and of demand-paged frames ask for no placement zone.
pub proof fn lemma_unplaced(flags: u64)
    requires
        flags == ALLOC_KERNEL | ALLOC_ZEROED || flags == ALLOC_ZEROED || flags == ALLOC_KERNEL
            || flags == crate::frame::ALLOC_NONE,
    ensures
        flags & ALLOC_BIOS == 0,
        flags & ALLOC_ISA == 0,
        flags & ALLOC_X86 == 0,
{
    assert(flags & ALLOC_BIOS == 0 && flags & ALLOC_ISA == 0 && flags & ALLOC_X86 == 0)
        by (bit_vector)
        requires
            flags == ALLOC_KERNEL | ALLOC_ZEROED || flags == ALLOC_ZEROED || flags == ALLOC_KERNEL
                || flags == crate::frame::ALLOC_NONE,
    ;
}

/// Whether the `n` records from `i` on are all free.
pub open spec fn run_free(s: Seq<FrameInfo>, i: int, n: int) -> bool {
    forall|j: int| i <= j < i + n ==> (#[trigger] s[j]).state == FrameState::Free
}

/// Kernel-owned and borrowed frames are among the allocated ones.
proof fn lemma_owned_are_allocated(s: Seq<FrameInfo>)
    requires
        forall|i: int|
            0 <= i < s.len() ==> ((#[trigger] s[i]).kernel ==> s[i].state == FrameState::Allocated)
                && (s[i].borrowed ==> s[i].state == FrameState::Allocated),
    ensures
        count_kernel(s) <= count_state(s, FrameState::Allocated),
        count_borrowed(s) <= count_state(s, FrameState::Allocated),
    decreases s.len(),
{
    if s.len() > 0 {
        let t = s.drop_last();
        assert forall|i: int| 0 <= i < t.len() implies ((#[trigger] t[i]).kernel ==> t[i].state
            == FrameState::Allocated) && (t[i].borrowed ==> t[i].state
            == FrameState::Allocated) by {
            assert(t[i] == s[i]);
        }
        lemma_owned_are_allocated(t);
        assert(s[s.len() - 1] == s.last());
    }
}

/// Frame accounting. Whatever interleaving of allocations and releases produced a consistent
/// allocator, every frame is counted in exactly one of allocated, reserved, free and poisoned,
/// and the kernel and borrowed frames are counted among the allocated ones. Adding the kernel
/// and borrowed counters to that sum gives the total only while both are zero.
pub proof fn lemma_frame_accounting(st: Stats, s: Seq<FrameInfo>)
    requires
        alloc_wf(st, s),
    ensures
        st.allocated + st.reserved + count_state(s, FrameState::Free) + st.poisoned == st.total,
        st.kernel <= st.allocated,
        st.borrowed <= st.allocated,
        st.kernel == 0 && st.borrowed == 0 ==> st.allocated + st.reserved + st.kernel
            + st.borrowed + count_state(s, FrameState::Free) + st.poisoned == st.total,
{
    lemma_classes_partition(s);
    assert forall|i: int| 0 <= i < s.len() implies ((#[trigger] s[i]).kernel ==> s[i].state
        == FrameState::Allocated) && (s[i].borrowed ==> s[i].state == FrameState::Allocated) by {
        assert(crate::frame_state::entry_wf(s[i], i));
    }
    lemma_owned_are_allocated(s);
}

/// Reference counting. A frame that is allocated, referenced once more and released twice is
/// still allocated, once referenced, after the first release and free after the second. Any
/// release of an allocated frame frees it exactly when no reference is left.
pub proof fn lemma_reference_counting(f: FrameInfo, flags: u64)
    requires
        f.state == FrameState::Free,
    ensures
        released_entry(referenced_entry(allocated_entry(f, flags))).state
            == FrameState::Allocated,
        released_entry(referenced_entry(allocated_entry(f, flags))).count == 1,
        released_entry(released_entry(referenced_entry(allocated_entry(f, flags)))).state
            == FrameState::Free,
        released_entry(released_entry(referenced_entry(allocated_entry(f, flags)))).count == 0,
        forall|g: FrameInfo|
            g.state == FrameState::Allocated && g.count > 0 ==> ((#[trigger] released_entry(
                g,
            )).state == FrameState::Free <==> released_entry(g).count == 0),
{
}

/// The frame allocator: it hands out frames of the frame table, first fit, and keeps the
/// counters of the table.
pub struct Allocator {
    pub statistic: Stats,
}

impl Allocator {
    /// An allocator with all counters at zero, for an empty table.
    pub fn new() -> (r: Allocator)
        ensures
            r.statistic == zero_stats(),
    {
        Allocator { statistic: Stats::new() }
    }

    /// Takes the counters of a freshly set up table.
    pub fn setup(&mut self, statistic: Stats)
        ensures
            final(self).statistic == statistic,
    {
        self.statistic = statistic;
    }

    /// The current counters.
    pub fn statistics(&self) -> (r: Stats)
        ensures
            r == self.statistic,
    {
        self.statistic
    }

    /// Allocates the first frame that suits `flags`, or returns `None` when none does. The
    /// caller clears the frame's bytes through the direct map when `ALLOC_ZEROED` is asked.
    pub fn allocate(&mut self, state: &mut State, flags: u64) -> (r: Option<Frame>)
        requires
            alloc_wf(old(self).statistic, old(state)@),
        ensures
            alloc_wf(final(self).statistic, final(state)@),
            r is None <==> forall|i: int|
                0 <= i < old(state)@.len() ==> !suits(#[trigger] old(state)@[i], flags),
            r is None ==> final(state)@ == old(state)@ && final(self).statistic == old(
                self,
            ).statistic,
            r matches Some(f) ==> {
                let i = f@ / 4096;
                &&& 0 <= i < old(state)@.len()
                &&& f == old(state)@[i as int].frame
                &&& suits(old(state)@[i as int], flags)
                &&& forall|j: int| 0 <= j < i ==> !suits(#[trigger] old(state)@[j], flags)
                &&& final(state)@ == old(state)@.update(
                    i as int,
                    allocated_entry(old(state)@[i as int], flags),
                )
            },
    {
        let n = state.frames.len();
        let mut i: usize = 0;
        while i < n
            invariant
                n == state@.len(),
                state@ == old(state)@,
                self.statistic == old(self).statistic,
                alloc_wf(self.statistic, state@),
                i <= n,
                forall|j: int| 0 <= j < i ==> !suits(#[trigger] state@[j], flags),
            decreases n - i,
        {
            let f = state.frames[i];
            let address = f.frame.start();
            if f.state == FrameState::Free && (flags & ALLOC_BIOS == 0 || address < BIOS_LIMIT)
                && (flags & ALLOC_ISA == 0 || address < ISA_LIMIT) && (flags & ALLOC_X86 == 0
                || address < X86_LIMIT) {
                let mut v = FrameInfo {
                    state: FrameState::Allocated,
                    count: 1,
                    kernel: flags & ALLOC_KERNEL != 0,
                    zeroed: flags & ALLOC_ZEROED != 0,
                    ..f
                };
                v.flags = v.flag_word();
                let ghost s0 = state@;
                set_entry(&mut state.frames, &mut self.statistic, i, v);
                proof {
                    assert(state@ == s0.update(i as int, v));
                    assert forall|t: int| 0 <= t < state@.len() implies crate::frame_state::entry_wf(
                        #[trigger] state@[t],
                        t,
                    ) by {
                        if t != i {
                            assert(state@[t] == s0[t]);
                        }
                    }
                }
                return Some(f.frame);
            }
            i = i + 1;
        }
        None
    }

    /// Allocates the first run of `count` contiguous free frames, or returns `None` when there
    /// is none. Every frame of the run is allocated as `allocate` would.
    pub fn allocate_range(&mut self, state: &mut State, count: usize, flags: u64) -> (r: Option<
        Range,
    >)
        requires
            alloc_wf(old(self).statistic, old(state)@),
        ensures
            alloc_wf(final(self).statistic, final(state)@),
            r is None <==> forall|i: int|
                0 <= i && i + count <= old(state)@.len() ==> !run_free(old(state)@, i, count as int),
            r is None ==> final(state)@ == old(state)@ && final(self).statistic == old(
                self,
            ).statistic,
            r matches Some(g) ==> {
                let i = g.start@ / 4096;
                &&& g.start@ % 4096 == 0
                &&& g.end@ == g.start@ + count * 4096
                &&& i + count <= old(state)@.len()
                &&& run_free(old(state)@, i as int, count as int)
                &&& forall|j: int|
                    0 <= j < i ==> !run_free(old(state)@, j, count as int)
                &&& final(state)@.len() == old(state)@.len()
                &&& forall|t: int|
                    0 <= t < old(state)@.len() ==> #[trigger] final(state)@[t] == if i <= t < i
                        + count {
                        allocated_entry(old(state)@[t], flags)
                    } else {
                        old(state)@[t]
                    }
            },
    {
        let n = state.frames.len();
        let mut i: usize = 0;
        while count <= n - i
            invariant
                n == state@.len(),
                state@ == old(state)@,
                self.statistic == old(self).statistic,
                alloc_wf(self.statistic, state@),
                i <= n,
                forall|j: int| 0 <= j < i ==> !run_free(state@, j, count as int),
            decreases n - i,
        {
            let mut j: usize = i;
            let mut all_free = true;
            while j < i + count
                invariant
                    i <= j <= i + count <= n,
                    n == state@.len(),
                    all_free == run_free(state@, i as int, j - i),
                decreases i + count - j,
            {
                if state.frames[j].state != FrameState::Free {
                    all_free = false;
                }
                j = j + 1;
            }
            if all_free {
                let ghost s0 = state@;
                let mut k: usize = i;
                while k < i + count
                    invariant
                        i <= k <= i + count <= n,
                        n == state@.len(),
                        run_free(s0, i as int, count as int),
                        alloc_wf(self.statistic, state@),
                        forall|t: int|
                            0 <= t < n ==> #[trigger] state@[t] == if i <= t < k {
                                allocated_entry(s0[t], flags)
                            } else {
                                s0[t]
                            },
                    decreases i + count - k,
                {
                    let f = state.frames[k];
                    let mut v = FrameInfo {
                        state: FrameState::Allocated,
                        count: 1,
                        kernel: flags & ALLOC_KERNEL != 0,
                        zeroed: flags & ALLOC_ZEROED != 0,
                        ..f
                    };
                    v.flags = v.flag_word();
                    let ghost s1 = state@;
                    set_entry(&mut state.frames, &mut self.statistic, k, v);
                    proof {
                        assert forall|t: int|
                            0 <= t < state@.len() implies crate::frame_state::entry_wf(
                            #[trigger] state@[t],
                            t,
                        ) by {
                            if t != k {
                                assert(state@[t] == s1[t]);
                            }
                        }
                    }
                    k = k + 1;
                }
                proof {
                    assert((i + count) * 4096 <= MAX_PHYSICAL);
                }
                let start = Frame::new((i as u64) * 4096);
                let end = Frame::new((i as u64) * 4096 + (count as u64) * 4096);
                return Some(Range { start, end });
            }
            i = i + 1;
        }
        proof {
            assert forall|j: int|
                0 <= j && j + count <= old(state)@.len() implies !run_free(
                old(state)@,
                j,
                count as int,
            ) by {}
        }
        None
    }

    /// Counts one more reference to an allocated frame.
    pub fn reference(&mut self, state: &mut State, frame: Frame)
        requires
            alloc_wf(old(self).statistic, old(state)@),
            frame@ / 4096 < old(state)@.len(),
            old(state)@[(frame@ / 4096) as int].count > 0,
            old(state)@[(frame@ / 4096) as int].count < u64::MAX,
        ensures
            alloc_wf(final(self).statistic, final(state)@),
            final(self).statistic == old(self).statistic,
            final(state)@ == old(state)@.update(
                (frame@ / 4096) as int,
                referenced_entry(old(state)@[(frame@ / 4096) as int]),
            ),
    {
        let i = frame.index();
        let mut f = state.frames[i];
        f.retain();
        let ghost s0 = state@;
        set_entry(&mut state.frames, &mut self.statistic, i, f);
        proof {
            assert forall|t: int| 0 <= t < state@.len() implies crate::frame_state::entry_wf(
                #[trigger] state@[t],
                t,
            ) by {
                if t != i {
                    assert(state@[t] == s0[t]);
                }
            }
        }
    }

    /// Drops one reference to an allocated frame; the last reference frees it.
    pub fn deallocate(&mut self, state: &mut State, frame: Frame)
        requires
            alloc_wf(old(self).statistic, old(state)@),
            frame@ / 4096 < old(state)@.len(),
            old(state)@[(frame@ / 4096) as int].count > 0,
        ensures
            alloc_wf(final(self).statistic, final(state)@),
            final(state)@ == old(state)@.update(
                (frame@ / 4096) as int,
                released_entry(old(state)@[(frame@ / 4096) as int]),
            ),
            final(state)@[(frame@ / 4096) as int].state == FrameState::Free <==> old(state)@[(frame@ / 4096) as int].count == 1,
    {
        let i = frame.index();
        let mut f = state.frames[i];
        f.release();
        if f.count == 0 {
            f.state = FrameState::Free;
            f.kernel = false;
            f.borrowed = false;
            f.flags = f.flag_word();
        }
        let ghost s0 = state@;
        set_entry(&mut state.frames, &mut self.statistic, i, f);
        proof {
            assert forall|t: int| 0 <= t < state@.len() implies crate::frame_state::entry_wf(
                #[trigger] state@[t],
                t,
            ) by {
                if t != i {
                    assert(state@[t] == s0[t]);
                }
            }
        }
    }

    /// Drops one reference to every frame of `range`.
    pub fn deallocate_range(&mut self, state: &mut State, range: Range)
        requires
            alloc_wf(old(self).statistic, old(state)@),
            forall|t: int|
                range.start@ / 4096 <= t < range.end@ / 4096 ==> t < old(state)@.len() && (
                #[trigger] old(state)@[t]).count > 0,
        ensures
            alloc_wf(final(self).statistic, final(state)@),
            final(state)@.len() == old(state)@.len(),
            forall|t: int|
                0 <= t < old(state)@.len() ==> #[trigger] final(state)@[t] == if range.start@
                    / 4096 <= t < range.end@ / 4096 {
                    released_entry(old(state)@[t])
                } else {
                    old(state)@[t]
                },
    {
        let lo = range.start.start() / 4096;
        let hi = range.end.start() / 4096;
        let mut k: u64 = lo;
        while k < hi
            invariant
                lo == range.start@ / 4096,
                hi == range.end@ / 4096,
                lo <= k,
                k <= hi || k == lo,
                alloc_wf(self.statistic, state@),
                state@.len() == old(state)@.len(),
                forall|t: int|
                    range.start@ / 4096 <= t < range.end@ / 4096 ==> t < old(state)@.len() && (
                    #[trigger] old(state)@[t]).count > 0,
                forall|t: int|
                    0 <= t < old(state)@.len() ==> #[trigger] state@[t] == if lo <= t < k {
                        released_entry(old(state)@[t])
                    } else {
                        old(state)@[t]
                    },
            decreases hi - k,
        {
            proof {
                assert(k < old(state)@.len() && old(state)@[k as int].count > 0);
            }
            let frame = Frame::new(k * 4096);
            let ghost s0 = state@;
            self.deallocate(state, frame);
            proof {
                assert forall|t: int| 0 <= t < old(state)@.len() implies #[trigger] state@[t]
                    == if lo <= t < k + 1 {
                    released_entry(old(state)@[t])
                } else {
                    old(state)@[t]
                } by {
                    if t != k {
                        assert(state@[t] == s0[t]);
                    }
                }
            }
            k = k + 1;
        }
    }
}

} // verus!
