use vstd::prelude::*;

use crate::address::{VMALLOC_END, VMALLOC_START};
use crate::frame::{ALLOC_NONE, ALLOC_ZEROED};
use crate::paging::{PF_MISSING_PAGE, PF_NOT_MAPPABLE};

verus! {

/// Allocation flags of vmalloc.
pub const VMM_NONE: u64 = 0;
/// Map the whole area before returning; fail rather than block.
pub const VMM_ATOMIC: u64 = 2;
/// Populate the area with frames on demand.
pub const VMM_MAP: u64 = 4;
/// Zero the frames that populate the area.
pub const VMM_ZEROED: u64 = 8;

/// Size in bytes of the vmalloc region.
pub const VMALLOC_SIZE: u64 = 0x1000_0000_0000;

#[derive(Debug, Clone, Copy, PartialEq, Eq, Structural)]
pub enum AllocationError {
    /// No free area can hold the request.
    OutOfMemory,
    /// The request asked for eager mapping, which cannot be done without blocking.
    WouldBlock,
}

/// A half-open range of virtual addresses `[start, end)`.
#[derive(Debug, Clone, Copy, PartialEq, Eq, Structural)]
pub struct VirtualRange {
    pub start: u64,
    pub end: u64,
}

impl VirtualRange {
    pub fn new(start: u64, end: u64) -> (r: VirtualRange)
        ensures
            r == (VirtualRange { start, end }),
    {
        VirtualRange { start, end }
    }

    /// Number of bytes in the range.
    pub fn size(&self) -> (r: u64)
        requires
            self.start <= self.end,
        ensures
            r == self.end - self.start,
    {
        self.end - self.start
    }

    pub fn contains(&self, address: u64) -> (r: bool)
        ensures
            r == (self.start <= address && address < self.end),
    {
        self.start <= address && address < self.end
    }
}

/// A virtual area: a range and the vmalloc flags it was allocated with.
#[derive(Debug, Clone, Copy, PartialEq, Eq, Structural)]
pub struct VirtualArea {
    pub range: VirtualRange,
    pub flags: u64,
}

impl VirtualArea {
    pub fn new(range: VirtualRange, flags: u64) -> (r: VirtualArea)
        ensures
            r == (VirtualArea { range, flags }),
    {
        VirtualArea { range, flags }
    }
}

pub open spec fn area_size(a: VirtualArea) -> int {
    a.range.end - a.range.start
}

/// A non-empty, page-aligned area inside the vmalloc region.
pub open spec fn area_valid(a: VirtualArea) -> bool {
    &&& VMALLOC_START <= a.range.start < a.range.end <= VMALLOC_END
    &&& a.range.start % 4096 == 0
    &&& a.range.end % 4096 == 0
}

pub open spec fn disjoint(a: VirtualArea, b: VirtualArea) -> bool {
    a.range.end <= b.range.start || b.range.end <= a.range.start
}

pub open spec fn in_area(a: VirtualArea, x: int) -> bool {
    a.range.start <= x < a.range.end
}

/// Whether some area of `s` holds the address `x`.
pub open spec fn covered(s: Seq<VirtualArea>, x: int) -> bool {
    exists|i: int| 0 <= i < s.len() && #[trigger] in_area(s[i], x)
}

/// The free and used areas are valid, pairwise disjoint, and together cover the vmalloc region.
pub open spec fn areas_wf(free: Seq<VirtualArea>, used: Seq<VirtualArea>) -> bool {
    &&& forall|i: int| 0 <= i < free.len() ==> area_valid(#[trigger] free[i])
    &&& forall|j: int| 0 <= j < used.len() ==> area_valid(#[trigger] used[j])
    &&& forall|i: int, j: int|
        0 <= i < j < free.len() ==> disjoint(#[trigger] free[i], #[trigger] free[j])
    &&& forall|i: int, j: int|
        0 <= i < j < used.len() ==> disjoint(#[trigger] used[i], #[trigger] used[j])
    &&& forall|i: int, j: int|
        0 <= i < free.len() && 0 <= j < used.len() ==> disjoint(
            #[trigger] free[i],
            #[trigger] used[j],
        )
    &&& forall|x: int| VMALLOC_START <= x < VMALLOC_END ==> covered(free, x) || covered(used, x)
}

/// A request of `size` bytes rounded up to whole pages.
pub open spec fn round_up(size: int) -> int {
    (size + 4095) / 4096 * 4096
}

/// Position of the free area that serves a request of `need` bytes: the smallest that is large
/// enough, the last one of that size when several are; -1 when none is large enough.
pub open spec fn best_fit(s: Seq<VirtualArea>, need: int) -> int
    decreases s.len(),
{
    if s.len() == 0 {
        -1
    } else {
        let b = best_fit(s.drop_last(), need);
        let l = s.last();
        if area_size(l) >= need && (b < 0 || area_size(l) <= area_size(s[b])) {
            s.len() - 1
        } else {
            b
        }
    }
}

proof fn lemma_best_fit(s: Seq<VirtualArea>, need: int)
    ensures
        best_fit(s, need) < s.len(),
        best_fit(s, need) >= 0 ==> area_size(s[best_fit(s, need)]) >= need,
        best_fit(s, need) < 0 ==> forall|i: int| 0 <= i < s.len() ==> area_size(#[trigger] s[i])
            < need,
    decreases s.len(),
{
    if s.len() > 0 {
        let t = s.drop_last();
        lemma_best_fit(t, need);
        let b = best_fit(t, need);
        if b >= 0 {
            assert(t[b] == s[b]);
        }
        if best_fit(s, need) < 0 {
            assert forall|i: int| 0 <= i < s.len() implies area_size(#[trigger] s[i]) < need by {
                if i < s.len() - 1 {
                    assert(t[i] == s[i]);
                }
            }
        }
    }
}

/// Position of the first area of `s` that starts at `start`, or -1.
pub open spec fn index_of_start(s: Seq<VirtualArea>, start: u64) -> int
    decreases s.len(),
{
    if s.len() == 0 {
        -1
    } else {
        let b = index_of_start(s.drop_last(), start);
        if b >= 0 {
            b
        } else if s.last().range.start == start {
            s.len() - 1
        } else {
            -1
        }
    }
}

/// Position of the first area of `s` that holds the address `x`, or -1.
pub open spec fn index_holding(s: Seq<VirtualArea>, x: int) -> int
    decreases s.len(),
{
    if s.len() == 0 {
        -1
    } else {
        let b = index_holding(s.drop_last(), x);
        if b >= 0 {
            b
        } else if in_area(s.last(), x) {
            s.len() - 1
        } else {
            -1
        }
    }
}

proof fn lemma_index_of_start(s: Seq<VirtualArea>, start: u64, k: int)
    requires
        0 <= k <= s.len(),
        index_of_start(s.take(k), start) < 0,
        k < s.len() ==> s[k].range.start == start,
    ensures
        k < s.len() ==> index_of_start(s, start) == k,
        k == s.len() ==> index_of_start(s, start) < 0,
    decreases s.len() - k,
{
    if k == s.len() {
        assert(s.take(k) =~= s);
    } else {
        assert(s.take(k + 1).drop_last() =~= s.take(k));
        lemma_index_prefix_start(s, k + 1, start);
    }
}

proof fn lemma_index_prefix_start(s: Seq<VirtualArea>, k: int, start: u64)
    requires
        0 <= k <= s.len(),
        index_of_start(s.take(k), start) >= 0,
    ensures
        index_of_start(s, start) == index_of_start(s.take(k), start),
    decreases s.len() - k,
{
    if k < s.len() {
        assert(s.take(k + 1).drop_last() =~= s.take(k));
        lemma_index_prefix_start(s, k + 1, start);
    } else {
        assert(s.take(k) =~= s);
    }
}

proof fn lemma_index_prefix_holding(s: Seq<VirtualArea>, k: int, x: int)
    requires
        0 <= k <= s.len(),
        index_holding(s.take(k), x) >= 0,
    ensures
        index_holding(s, x) == index_holding(s.take(k), x),
    decreases s.len() - k,
{
    if k < s.len() {
        assert(s.take(k + 1).drop_last() =~= s.take(k));
        lemma_index_prefix_holding(s, k + 1, x);
    } else {
        assert(s.take(k) =~= s);
    }
}

/// The used area found by its start is one of the used areas.
pub proof fn lemma_area_of_start(s: Seq<VirtualArea>, start: u64)
    requires
        index_of_start(s, start) >= 0,
    ensures
        index_of_start(s, start) < s.len(),
        s[index_of_start(s, start)].range.start == start,
{
    lemma_index_of_start_valid(s, start);
}

proof fn lemma_index_of_start_valid(s: Seq<VirtualArea>, start: u64)
    requires
        index_of_start(s, start) >= 0,
    ensures
        index_of_start(s, start) < s.len(),
        s[index_of_start(s, start)].range.start == start,
    decreases s.len(),
{
    if index_of_start(s.drop_last(), start) >= 0 {
        lemma_index_of_start_valid(s.drop_last(), start);
    }
}

/// The vmalloc allocator: free areas waiting to be handed out, and the areas in use.
pub struct Vmalloc {
    pub free: Vec<VirtualArea>,
    pub used: Vec<VirtualArea>,
}

/// What `allocate` records for a request with `flags`: only MAP and ZEROED are kept.
pub open spec fn kept_flags(flags: u64) -> u64 {
    flags & (VMM_MAP | VMM_ZEROED)
}

impl Vmalloc {
    pub open spec fn wf(&self) -> bool {
        areas_wf(self.free@, self.used@)
    }

    /// The allocator at boot: the whole vmalloc region is one free area.
    pub fn setup() -> (r: Vmalloc)
        ensures
            r.wf(),
            r.used@.len() == 0,
            r.free@ == seq![
                VirtualArea {
                    range: VirtualRange { start: VMALLOC_START, end: VMALLOC_END },
                    flags: VMM_NONE,
                },
            ],
    {
        let mut free: Vec<VirtualArea> = Vec::new();
        free.push(
            VirtualArea {
                range: VirtualRange { start: VMALLOC_START, end: VMALLOC_END },
                flags: VMM_NONE,
            },
        );
        let r = Vmalloc { free, used: Vec::new() };
        proof {
            assert forall|x: int| VMALLOC_START <= x < VMALLOC_END implies covered(r.free@, x)
                || covered(r.used@, x) by {
                assert(in_area(r.free@[0], x));
            }
        }
        r
    }

    /// Allocates `size` bytes, rounded up to whole pages, from the smallest free area that can
    /// hold them; what is left of that area stays free. Fails with `OutOfMemory` when no area
    /// is large enough (or nothing is asked), and with `WouldBlock` when `VMM_ATOMIC` asks for
    /// an eager mapping.
    pub fn allocate(&mut self, size: usize, flags: u64) -> (r: Result<VirtualRange, AllocationError>)
        requires
            old(self).wf(),
        ensures
            final(self).wf(),
            r == Err::<VirtualRange, AllocationError>(AllocationError::OutOfMemory) <==> (size == 0
                || best_fit(old(self).free@, round_up(size as int)) < 0),
            r == Err::<VirtualRange, AllocationError>(AllocationError::WouldBlock) <==> (size > 0
                && best_fit(old(self).free@, round_up(size as int)) >= 0 && flags & VMM_ATOMIC
                != 0),
            r is Err ==> final(self).free@ == old(self).free@ && final(self).used@ == old(
                self,
            ).used@,
            r matches Ok(range) ==> {
                let need = round_up(size as int);
                let k = best_fit(old(self).free@, need);
                let a = old(self).free@[k];
                &&& range.start == a.range.start
                &&& range.end == a.range.start + need
                &&& final(self).used@ == old(self).used@.push(
                    VirtualArea { range, flags: kept_flags(flags) },
                )
                &&& final(self).free@ == if area_size(a) == need {
                    old(self).free@.remove(k)
                } else {
                    old(self).free@.update(
                        k,
                        VirtualArea {
                            range: VirtualRange { start: range.end, end: a.range.end },
                            flags: VMM_NONE,
                        },
                    )
                }
            },
    {
        proof {
            lemma_best_fit(self.free@, round_up(size as int));
        }
        if size == 0 || size as u64 > VMALLOC_SIZE {
            proof {
                if size > 0 {
                    assert forall|i: int| 0 <= i < self.free@.len() implies area_size(
                        #[trigger] self.free@[i],
                    ) < round_up(size as int) by {
                        assert(area_valid(self.free@[i]));
                        assert(round_up(size as int) >= size) by (nonlinear_arith)
                            requires
                                size > 0,
                        ;
                    }
                    lemma_best_fit(self.free@, round_up(size as int));
                    if best_fit(self.free@, round_up(size as int)) >= 0 {
                        assert(area_size(self.free@[best_fit(self.free@, round_up(size as int))])
                            < round_up(size as int));
                    }
                }
            }
            return Err(AllocationError::OutOfMemory);
        }
        let need: u64 = (size as u64 + 4095) / 4096 * 4096;
        proof {
            assert(need == round_up(size as int));
            assert(need % 4096 == 0) by (nonlinear_arith)
                requires
                    need == (size + 4095) / 4096 * 4096,
            ;
        }
        let n = self.free.len();
        let mut best: usize = n;
        let mut i: usize = 0;
        while i < n
            invariant
                n == self.free@.len(),
                i <= n,
                best <= n,
                need == round_up(size as int),
                best == n <==> best_fit(self.free@.take(i as int), need as int) < 0,
                best < n ==> best == best_fit(self.free@.take(i as int), need as int),
                best < n ==> best < i,
                forall|t: int| 0 <= t < n ==> area_valid(#[trigger] self.free@[t]),
            decreases n - i,
        {
            let a = self.free[i];
            proof {
                assert(self.free@.take(i + 1).drop_last() =~= self.free@.take(i as int));
                assert(area_valid(self.free@[i as int]));
                if best < n {
                    assert(self.free@.take(i + 1)[best as int] == self.free@[best as int]);
                    assert(self.free@.take(i as int)[best as int] == self.free@[best as int]);
                }
            }
            let asize = a.range.end - a.range.start;
            if asize >= need && (best == n || asize <= self.free[best].range.end
                - self.free[best].range.start) {
                best = i;
            }
            i = i + 1;
        }
        proof {
            assert(self.free@.take(n as int) =~= self.free@);
        }
        if best == n {
            return Err(AllocationError::OutOfMemory);
        }
        if flags & VMM_ATOMIC != 0 {
            return Err(AllocationError::WouldBlock);
        }
        let a = self.free[best];
        let ghost free0 = self.free@;
        let ghost used0 = self.used@;
        let range = VirtualRange { start: a.range.start, end: a.range.start + need };
        let taken = VirtualArea { range, flags: flags & (VMM_MAP | VMM_ZEROED) };
        if a.range.end - a.range.start == need {
            self.free.remove(best);
            proof {
                free0.remove_ensures(best as int);
            }
        } else {
            let rest = VirtualArea {
                range: VirtualRange { start: a.range.start + need, end: a.range.end },
                flags: VMM_NONE,
            };
            self.free.set(best, rest);
        }
        self.used.push(taken);
        proof {
            let k = best as int;
            let free1 = self.free@;
            let used1 = self.used@;
            assert(used1 == used0.push(taken));
            assert forall|i: int| 0 <= i < free1.len() implies area_valid(#[trigger] free1[i]) by {
                if area_size(a) == need {
                    if i >= k {
                        assert(free1[i] == free0[i + 1]);
                    }
                }
            }
            assert forall|j: int| 0 <= j < used1.len() implies area_valid(#[trigger] used1[j]) by {
                if j < used0.len() {
                    assert(used1[j] == used0[j]);
                }
            }
            assert forall|i: int, j: int| 0 <= i < j < free1.len() implies disjoint(
                #[trigger] free1[i],
                #[trigger] free1[j],
            ) by {
                if area_size(a) == need {
                    let i0 = if i < k { i } else { i + 1 };
                    let j0 = if j < k { j } else { j + 1 };
                    assert(free1[i] == free0[i0]);
                    assert(free1[j] == free0[j0]);
                    assert(disjoint(free0[i0], free0[j0]));
                } else {
                    if i == k {
                        assert(disjoint(free0[k], free0[j]));
                    } else if j == k {
                        assert(disjoint(free0[i], free0[k]));
                    } else {
                        assert(disjoint(free0[i], free0[j]));
                    }
                }
            }
            assert forall|i: int, j: int| 0 <= i < j < used1.len() implies disjoint(
                #[trigger] used1[i],
                #[trigger] used1[j],
            ) by {
                if j < used0.len() {
                    assert(disjoint(used0[i], used0[j]));
                } else {
                    assert(disjoint(free0[k], used0[i]));
                }
            }
            assert forall|i: int, j: int| 0 <= i < free1.len() && 0 <= j < used1.len() implies disjoint(
                #[trigger] free1[i],
                #[trigger] used1[j],
            ) by {
                let i0 = if area_size(a) == need && i >= k { i + 1 } else { i };
                if !(area_size(a) != need && i == k) {
                    assert(free1[i] == free0[i0]);
                }
                if j < used0.len() {
                    assert(disjoint(free0[i0], used0[j]));
                } else if i0 != k {
                    if i0 < k {
                        assert(disjoint(free0[i0], free0[k]));
                    } else {
                        assert(disjoint(free0[k], free0[i0]));
                    }
                }
            }
            assert forall|x: int| VMALLOC_START <= x < VMALLOC_END implies covered(free1, x)
                || covered(used1, x) by {
                if covered(used0, x) {
                    let j = choose|j: int| 0 <= j < used0.len() && #[trigger] in_area(used0[j], x);
                    assert(in_area(used1[j], x));
                } else {
                    let i = choose|i: int| 0 <= i < free0.len() && #[trigger] in_area(free0[i], x);
                    if i == k {
                        if x < a.range.start + need {
                            assert(in_area(used1[used0.len() as int], x));
                        } else {
                            assert(in_area(free1[k], x));
                        }
                    } else if area_size(a) == need && i > k {
                        assert(free1[i - 1] == free0[i]);
                        assert(in_area(free1[i - 1], x));
                    } else {
                        assert(free1[i] == free0[i]);
                        assert(in_area(free1[i], x));
                    }
                }
            }
        }
        Ok(range)
    }

    /// Returns the used area that starts where `range` starts to the free areas, and hands it
    /// back so that the caller can unmap its pages when it was mapped.
    pub fn deallocate(&mut self, range: VirtualRange) -> (r: VirtualArea)
        requires
            old(self).wf(),
            index_of_start(old(self).used@, range.start) >= 0,
        ensures
            final(self).wf(),
            r == old(self).used@[index_of_start(old(self).used@, range.start)],
            final(self).used@ == old(self).used@.remove(
                index_of_start(old(self).used@, range.start),
            ),
            final(self).free@ == old(self).free@.push(r),
    {
        let ghost free0 = self.free@;
        let ghost used0 = self.used@;
        let n = self.used.len();
        let mut j: usize = 0;
        while j < n && self.used[j].range.start != range.start
            invariant
                n == self.used@.len(),
                self.used@ == used0,
                j <= n,
                index_of_start(used0.take(j as int), range.start) < 0,
            decreases n - j,
        {
            proof {
                assert(used0.take(j + 1).drop_last() =~= used0.take(j as int));
            }
            j = j + 1;
        }
        proof {
            lemma_index_of_start(used0, range.start, j as int);
        }
        let area = self.used.remove(j);
        self.free.push(area);
        proof {
            let k = j as int;
            used0.remove_ensures(k);
            let free1 = self.free@;
            let used1 = self.used@;
            assert forall|i: int| 0 <= i < free1.len() implies area_valid(#[trigger] free1[i]) by {
                if i < free0.len() {
                    assert(free1[i] == free0[i]);
                }
            }
            assert forall|t: int| 0 <= t < used1.len() implies area_valid(#[trigger] used1[t]) by {
                if t >= k {
                    assert(used1[t] == used0[t + 1]);
                }
            }
            assert forall|a: int, b: int| 0 <= a < b < free1.len() implies disjoint(
                #[trigger] free1[a],
                #[trigger] free1[b],
            ) by {
                if b < free0.len() {
                    assert(disjoint(free0[a], free0[b]));
                } else {
                    assert(disjoint(free0[a], used0[k]));
                }
            }
            assert forall|a: int, b: int| 0 <= a < b < used1.len() implies disjoint(
                #[trigger] used1[a],
                #[trigger] used1[b],
            ) by {
                let a0 = if a < k { a } else { a + 1 };
                let b0 = if b < k { b } else { b + 1 };
                assert(disjoint(used0[a0], used0[b0]));
            }
            assert forall|a: int, b: int| 0 <= a < free1.len() && 0 <= b < used1.len() implies disjoint(
                #[trigger] free1[a],
                #[trigger] used1[b],
            ) by {
                let b0 = if b < k { b } else { b + 1 };
                if a < free0.len() {
                    assert(disjoint(free0[a], used0[b0]));
                } else if b0 < k {
                    assert(disjoint(used0[b0], used0[k]));
                } else {
                    assert(disjoint(used0[k], used0[b0]));
                }
            }
            assert forall|x: int| VMALLOC_START <= x < VMALLOC_END implies covered(free1, x)
                || covered(used1, x) by {
                if covered(free0, x) {
                    let i = choose|i: int| 0 <= i < free0.len() && #[trigger] in_area(free0[i], x);
                    assert(in_area(free1[i], x));
                } else {
                    let t = choose|t: int| 0 <= t < used0.len() && #[trigger] in_area(used0[t], x);
                    if t == k {
                        assert(in_area(free1[free0.len() as int], x));
                    } else if t > k {
                        assert(in_area(used1[t - 1], x));
                    } else {
                        assert(in_area(used1[t], x));
                    }
                }
            }
        }
        area
    }

    /// The used area that holds `address`, if any.
    pub fn find_used(&self, address: u64) -> (r: Option<VirtualArea>)
        ensures
            index_holding(self.used@, address as int) < 0 ==> r is None,
            index_holding(self.used@, address as int) >= 0 ==> r == Some(
                self.used@[index_holding(self.used@, address as int)],
            ),
    {
        let n = self.used.len();
        let mut j: usize = 0;
        while j < n
            invariant
                n == self.used@.len(),
                j <= n,
                index_holding(self.used@.take(j as int), address as int) < 0,
            decreases n - j,
        {
            proof {
                assert(self.used@.take(j + 1).drop_last() =~= self.used@.take(j as int));
            }
            let a = self.used[j];
            if a.range.start <= address && address < a.range.end {
                proof {
                    lemma_index_prefix_holding(self.used@, j + 1, address as int);
                }
                return Some(a);
            }
            j = j + 1;
        }
        proof {
            assert(self.used@.take(n as int) =~= self.used@);
        }
        None
    }

    /// How a fault at `address` in the vmalloc region is served: the frame allocation flags to
    /// populate the page with, or the reason it cannot be. An address outside every used area
    /// is a missing page; an area allocated without `VMM_MAP` cannot be populated.
    pub open spec fn demand_paging_spec(&self, address: u64) -> Result<u64, u64> {
        let k = index_holding(self.used@, address as int);
        if k < 0 {
            Err(PF_MISSING_PAGE)
        } else if self.used@[k].flags & VMM_MAP == 0 {
            Err(PF_NOT_MAPPABLE)
        } else if self.used@[k].flags & VMM_ZEROED != 0 {
            Ok(ALLOC_ZEROED)
        } else {
            Ok(ALLOC_NONE)
        }
    }

    pub fn demand_paging(&self, address: u64) -> (r: Result<u64, u64>)
        ensures
            r == self.demand_paging_spec(address),
    {
        match self.find_used(address) {
            None => Err(PF_MISSING_PAGE),
            Some(a) => {
                if a.flags & VMM_MAP == 0 {
                    Err(PF_NOT_MAPPABLE)
                } else if a.flags & VMM_ZEROED != 0 {
                    Ok(ALLOC_ZEROED)
                } else {
                    Ok(ALLOC_NONE)
                }
            },
        }
    }
}

/// On a freshly set-up allocator, any request up to the size of the region is served by the
/// one free area, so `allocate` hands out its start.
pub proof fn lemma_fresh_vmalloc_fits(size: int)
    requires
        0 < size <= VMALLOC_SIZE,
    ensures
        best_fit(
            seq![
                VirtualArea {
                    range: VirtualRange { start: VMALLOC_START, end: VMALLOC_END },
                    flags: VMM_NONE,
                },
            ],
            round_up(size),
        ) == 0,
{
    let s = seq![
        VirtualArea {
            range: VirtualRange { start: VMALLOC_START, end: VMALLOC_END },
            flags: VMM_NONE,
        },
    ];
    assert(round_up(size) <= VMALLOC_SIZE) by (nonlinear_arith)
        requires
            0 < size <= VMALLOC_SIZE,
            VMALLOC_SIZE % 4096 == 0,
    ;
    assert(s.drop_last() =~= Seq::<VirtualArea>::empty());
    assert(best_fit(s.drop_last(), round_up(size)) == -1);
}

/// Vmalloc layout. After any sequence of allocations and releases, no two used areas overlap,
/// free and used areas never overlap, every area lies in the vmalloc region, and together they
/// cover the whole region.
pub proof fn lemma_vmalloc_layout(v: Vmalloc)
    requires
        v.wf(),
    ensures
        forall|i: int, j: int|
            0 <= i < v.used@.len() && 0 <= j < v.used@.len() && i != j ==> disjoint(
                #[trigger] v.used@[i],
                #[trigger] v.used@[j],
            ),
        forall|i: int, j: int|
            0 <= i < v.free@.len() && 0 <= j < v.used@.len() ==> disjoint(
                #[trigger] v.free@[i],
                #[trigger] v.used@[j],
            ),
        forall|x: int|
            VMALLOC_START <= x < VMALLOC_END <==> covered(v.free@, x) || covered(v.used@, x),
{
    assert forall|i: int, j: int|
        0 <= i < v.used@.len() && 0 <= j < v.used@.len() && i != j implies disjoint(
        #[trigger] v.used@[i],
        #[trigger] v.used@[j],
    ) by {
        if i < j {
            assert(disjoint(v.used@[i], v.used@[j]));
        } else {
            assert(disjoint(v.used@[j], v.used@[i]));
        }
    }
    assert forall|x: int| covered(v.free@, x) || covered(v.used@, x) implies VMALLOC_START <= x
        < VMALLOC_END by {
        if covered(v.free@, x) {
            let i = choose|i: int| 0 <= i < v.free@.len() && #[trigger] in_area(v.free@[i], x);
            assert(area_valid(v.free@[i]));
        } else {
            let j = choose|j: int| 0 <= j < v.used@.len() && #[trigger] in_area(v.used@[j], x);
            assert(area_valid(v.used@[j]));
        }
    }
}

} // verus!
