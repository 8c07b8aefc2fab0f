use vstd::prelude::*;
use vstd::set_lib::{lemma_int_range, lemma_len_subset, set_int_range};

verus! {

/// Number of process (and thread) identifiers.
pub const ID_MAX: u64 = 32768;

/// Number of 64-bit words of an identifier bitmap.
pub const ID_WORDS: usize = 512;

pub open spec fn bit_at(w: u64, o: int) -> bool {
    w & (1u64 << (o as u64)) != 0
}

/// Whether identifier `id` is marked in the bitmap `bm`.
pub open spec fn marked(bm: Seq<u64>, id: int) -> bool {
    bit_at(bm[id / 64], id % 64)
}

/// The `t`-th identifier after `offset`, wrapping around.
pub open spec fn cyclic(offset: u64, t: int) -> int {
    (offset + t) % (ID_MAX as int)
}

/// The identifiers in use according to the bitmap `bm`.
pub open spec fn live_ids(bm: Seq<u64>) -> Set<int> {
    Set::new(|id: int| 0 <= id < ID_MAX && marked(bm, id))
}

proof fn lemma_bit_set(w: u64, o: u64, o2: u64)
    requires
        o < 64,
        o2 < 64,
    ensures
        ((w | (1u64 << o)) & (1u64 << o2) != 0) == (o == o2 || w & (1u64 << o2) != 0),
{
    assert(((w | (1u64 << o)) & (1u64 << o2) != 0) == (o == o2 || w & (1u64 << o2) != 0))
        by (bit_vector)
        requires
            o < 64,
            o2 < 64,
    ;
}

proof fn lemma_bit_clear(w: u64, o: u64, o2: u64)
    requires
        o < 64,
        o2 < 64,
    ensures
        ((w & !(1u64 << o)) & (1u64 << o2) != 0) == (o != o2 && w & (1u64 << o2) != 0),
{
    assert(((w & !(1u64 << o)) & (1u64 << o2) != 0) == (o != o2 && w & (1u64 << o2) != 0))
        by (bit_vector)
        requires
            o < 64,
            o2 < 64,
    ;
}

/// The live identifiers are a finite set of at most `ID_MAX` elements.
proof fn lemma_live_bounded(bm: Seq<u64>)
    ensures
        live_ids(bm).finite(),
        live_ids(bm).len() <= ID_MAX,
{
    lemma_int_range(0, ID_MAX as int);
    lemma_len_subset(live_ids(bm), set_int_range(0, ID_MAX as int));
}

/// A bitmap allocator of identifiers below `ID_MAX`. The search for a free identifier starts
/// at a rotating offset, and a usage counter answers at once when none is left.
pub struct IdAllocator {
    pub bitmap: Vec<u64>,
    pub offset: u64,
    pub used: u64,
}

impl IdAllocator {
    pub open spec fn live(&self) -> Set<int> {
        live_ids(self.bitmap@)
    }

    pub open spec fn wf(&self) -> bool {
        &&& self.bitmap@.len() == ID_WORDS
        &&& self.offset < ID_MAX
        &&& self.used == self.live().len()
    }

    /// An allocator with every identifier free.
    pub fn new() -> (r: IdAllocator)
        ensures
            r.wf(),
            r.live() == Set::<int>::empty(),
            r.offset == 0,
    {
        let mut bitmap: Vec<u64> = Vec::new();
        let mut i: usize = 0;
        while i < ID_WORDS
            invariant
                i <= ID_WORDS,
                bitmap@.len() == i,
                forall|k: int| 0 <= k < i ==> bitmap@[k] == 0,
            decreases ID_WORDS - i,
        {
            bitmap.push(0);
            i = i + 1;
        }
        let r = IdAllocator { bitmap, offset: 0, used: 0 };
        proof {
            assert forall|id: int| !r.live().contains(id) by {
                if 0 <= id < ID_MAX {
                    assert(r.bitmap@[id / 64] == 0);
                    let o = (id % 64) as u64;
                    assert(0u64 & (1u64 << o) == 0) by (bit_vector);
                }
            }
            assert(r.live() =~= Set::<int>::empty());
        }
        r
    }

    /// Takes the first free identifier at or after the offset, in cyclic order, and moves the
    /// offset past it. Returns `None` once all but one identifier are in use.
    pub fn generate(&mut self) -> (r: Option<u64>)
        requires
            old(self).wf(),
        ensures
            final(self).wf(),
            r is Some <==> old(self).used + 1 < ID_MAX,
            r is None ==> *final(self) == *old(self),
            r is Some ==> final(self).used == old(self).used + 1,
            r matches Some(id) ==> {
                &&& id < ID_MAX
                &&& !old(self).live().contains(id as int)
                &&& final(self).live() == old(self).live().insert(id as int)
                &&& final(self).offset == (id + 1) % (ID_MAX as int)
                &&& exists|t: int|
                    0 <= t < ID_MAX && id == #[trigger] cyclic(old(self).offset, t) && forall|
                        u: int,
                    |
                        0 <= u < t ==> old(self).live().contains(
                            #[trigger] cyclic(old(self).offset, u),
                        )
            },
    {
        proof {
            lemma_live_bounded(self.bitmap@);
        }
        if self.used + 1 >= ID_MAX {
            return None;
        }
        let mut t: u64 = 0;
        while t < ID_MAX
            invariant
                self.wf(),
                *self == *old(self),
                self.used + 1 < ID_MAX,
                t <= ID_MAX,
                forall|u: int| 0 <= u < t ==> self.live().contains(#[trigger] cyclic(self.offset, u)),
            decreases ID_MAX - t,
        {
            let id = (self.offset + t) % ID_MAX;
            let word = (id / 64) as usize;
            let bit = id % 64;
            if self.bitmap[word] & (1u64 << bit) == 0 {
                let ghost bm0 = self.bitmap@;
                let w = self.bitmap[word] | (1u64 << bit);
                self.bitmap.set(word, w);
                proof {
                    let bm1 = self.bitmap@;
                    assert forall|id2: int| 0 <= id2 < ID_MAX implies marked(bm1, id2) == (
                    marked(bm0, id2) || id2 == id) by {
                        let o2 = (id2 % 64) as u64;
                        if id2 / 64 == word {
                            lemma_bit_set(bm0[word as int], bit, o2);
                        }
                    }
                    assert(self.live() =~= old(self).live().insert(id as int));
                    lemma_live_bounded(bm0);
                    vstd::set::axiom_set_insert_len(old(self).live(), id as int);
                    assert(!old(self).live().contains(id as int));
                    assert(id == cyclic(old(self).offset, t as int));
                }
                self.used = self.used + 1;
                self.offset = (id + 1) % ID_MAX;
                return Some(id);
            }
            t = t + 1;
        }
        proof {
            assert forall|id: int| set_int_range(0, ID_MAX as int).contains(id) implies self.live().contains(
                id,
            ) by {
                let u = if id >= self.offset {
                    id - self.offset
                } else {
                    id + ID_MAX - self.offset
                };
                assert(cyclic(self.offset, u) == id);
            }
            lemma_int_range(0, ID_MAX as int);
            lemma_len_subset(set_int_range(0, ID_MAX as int), self.live());
        }
        None
    }

    /// Frees an identifier in use.
    pub fn release(&mut self, id: u64)
        requires
            old(self).wf(),
            old(self).live().contains(id as int),
        ensures
            final(self).wf(),
            final(self).live() == old(self).live().remove(id as int),
            final(self).offset == old(self).offset,
    {
        let word = (id / 64) as usize;
        let bit = id % 64;
        let ghost bm0 = self.bitmap@;
        let w = self.bitmap[word] & !(1u64 << bit);
        self.bitmap.set(word, w);
        proof {
            let bm1 = self.bitmap@;
            assert forall|id2: int| 0 <= id2 < ID_MAX implies marked(bm1, id2) == (marked(
                bm0,
                id2,
            ) && id2 != id) by {
                let o2 = (id2 % 64) as u64;
                if id2 / 64 == word {
                    lemma_bit_clear(bm0[word as int], bit, o2);
                }
            }
            assert(self.live() =~= old(self).live().remove(id as int));
            lemma_live_bounded(bm0);
            vstd::set::axiom_set_remove_len(old(self).live(), id as int);
        }
        self.used = self.used - 1;
    }

    /// Whether `id` is in use.
    pub fn is_used(&self, id: u64) -> (r: bool)
        requires
            self.wf(),
            id < ID_MAX,
        ensures
            r == self.live().contains(id as int),
    {
        self.bitmap[(id / 64) as usize] & (1u64 << (id % 64)) != 0
    }
}

/// Identifier uniqueness. A generated identifier was not in use and becomes the only new one,
/// a released identifier is the only one to leave, and at no point are more than `ID_MAX`
/// identifiers in use.
pub proof fn lemma_ids_unique(before: IdAllocator, after: IdAllocator, id: u64)
    requires
        before.wf(),
        after.wf(),
        !before.live().contains(id as int),
        after.live() == before.live().insert(id as int),
    ensures
        after.live().contains(id as int),
        forall|x: int| #[trigger] before.live().contains(x) ==> x != id && after.live().contains(x),
        after.live().len() == before.live().len() + 1,
        after.live().len() <= ID_MAX,
{
    lemma_live_bounded(before.bitmap@);
    lemma_live_bounded(after.bitmap@);
}

/// A process identifier.
#[derive(Debug, Clone, Copy, PartialEq, Eq, Structural)]
pub struct Pid(u64);

impl View for Pid {
    type V = u64;

    closed spec fn view(&self) -> u64 {
        self.0
    }
}

impl Pid {
    /// The identifier `pid`, or `None` when it is not below `ID_MAX`.
    pub fn new(pid: u64) -> (r: Option<Pid>)
        ensures
            pid < ID_MAX <==> r is Some,
            r matches Some(p) ==> p@ == pid,
    {
        if pid >= ID_MAX {
            return None;
        }
        Some(Pid(pid))
    }

    pub fn value(&self) -> (r: u64)
        ensures
            r == self@,
    {
        self.0
    }

    /// A fresh identifier from `ids`, as `IdAllocator::generate` picks it.
    pub fn generate(ids: &mut IdAllocator) -> (r: Option<Pid>)
        requires
            old(ids).wf(),
        ensures
            final(ids).wf(),
            r is Some <==> old(ids).used + 1 < ID_MAX,
            r is None ==> *final(ids) == *old(ids),
            r is Some ==> final(ids).used == old(ids).used + 1,
            r matches Some(p) ==> p@ < ID_MAX && !old(ids).live().contains(p@ as int)
                && final(ids).live() == old(ids).live().insert(p@ as int),
    {
        match ids.generate() {
            Some(id) => Some(Pid(id)),
            None => None,
        }
    }

    /// Gives the identifier back to `ids`.
    pub fn release(self, ids: &mut IdAllocator)
        requires
            old(ids).wf(),
            old(ids).live().contains(self@ as int),
        ensures
            final(ids).wf(),
            final(ids).live() == old(ids).live().remove(self@ as int),
    {
        ids.release(self.0);
    }
}

/// A thread identifier.
#[derive(Debug, Clone, Copy, PartialEq, Eq, Structural)]
pub struct Tid(u64);

impl View for Tid {
    type V = u64;

    closed spec fn view(&self) -> u64 {
        self.0
    }
}

impl Tid {
    /// The identifier `tid`, or `None` when it is not below `ID_MAX`.
    pub fn new(tid: u64) -> (r: Option<Tid>)
        ensures
            tid < ID_MAX <==> r is Some,
            r matches Some(t) ==> t@ == tid,
    {
        if tid >= ID_MAX {
            return None;
        }
        Some(Tid(tid))
    }

    pub fn value(&self) -> (r: u64)
        ensures
            r == self@,
    {
        self.0
    }

    /// A fresh identifier from `ids`, as `IdAllocator::generate` picks it.
    pub fn generate(ids: &mut IdAllocator) -> (r: Option<Tid>)
        requires
            old(ids).wf(),
        ensures
            final(ids).wf(),
            r is Some <==> old(ids).used + 1 < ID_MAX,
            r is None ==> *final(ids) == *old(ids),
            r matches Some(t) ==> t@ < ID_MAX && !old(ids).live().contains(t@ as int)
                && final(ids).live() == old(ids).live().insert(t@ as int),
    {
        match ids.generate() {
            Some(id) => Some(Tid(id)),
            None => None,
        }
    }

    /// Gives the identifier back to `ids`.
    pub fn release(self, ids: &mut IdAllocator)
        requires
            old(ids).wf(),
            old(ids).live().contains(self@ as int),
        ensures
            final(ids).wf(),
            final(ids).live() == old(ids).live().remove(self@ as int),
    {
        ids.release(self.0);
    }
}

} // verus!
