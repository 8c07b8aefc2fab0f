use vstd::prelude::*;

use crate::ident::Tid;
use crate::thread::{Priority, State};

verus! {

/// Timer ticks a thread may run before it has to yield.
pub const QUANTUM: u64 = 20;

/// A thread as the scheduler sees it: its identifier, priority and state, the ticks left in its
/// quantum, and whether it has to be rescheduled.
#[derive(Debug, Clone, Copy)]
pub struct ThreadInfo {
    pub tid: Tid,
    pub priority: Priority,
    pub state: State,
    pub quantum: u64,
    pub need_scheduling: bool,
}

/// A thread `pick_next` may choose: ready, not idle, with quantum left.
pub open spec fn runnable(e: ThreadInfo) -> bool {
    e.state == State::Ready && e.priority != Priority::Idle && e.quantum > 0
}

/// A thread `pick_idle` may choose: ready and idle.
pub open spec fn idle_ready(e: ThreadInfo) -> bool {
    e.state == State::Ready && e.priority == Priority::Idle
}

/// Position of the first entry of `s` that satisfies `p`, or -1.
pub open spec fn first_index(s: Seq<ThreadInfo>, p: spec_fn(ThreadInfo) -> bool) -> int
    decreases s.len(),
{
    if s.len() == 0 {
        -1
    } else {
        let b = first_index(s.drop_last(), p);
        if b >= 0 {
            b
        } else if p(s.last()) {
            s.len() - 1
        } else {
            -1
        }
    }
}

pub open spec fn first_runnable(s: Seq<ThreadInfo>) -> int {
    first_index(s, |e: ThreadInfo| runnable(e))
}

pub open spec fn first_idle_ready(s: Seq<ThreadInfo>) -> int {
    first_index(s, |e: ThreadInfo| idle_ready(e))
}

pub open spec fn index_of_tid(s: Seq<ThreadInfo>, tid: Tid) -> int {
    first_index(s, |e: ThreadInfo| e.tid == tid)
}

proof fn lemma_first_index(s: Seq<ThreadInfo>, p: spec_fn(ThreadInfo) -> bool)
    ensures
        -1 <= first_index(s, p) < s.len(),
        first_index(s, p) >= 0 ==> p(s[first_index(s, p)]),
        forall|j: int| 0 <= j < s.len() && (first_index(s, p) < 0 || j < first_index(s, p)) ==> !p(
            #[trigger] s[j],
        ),
    decreases s.len(),
{
    if s.len() > 0 {
        let t = s.drop_last();
        lemma_first_index(t, p);
        let f = first_index(s, p);
        if first_index(t, p) >= 0 {
            assert(t[first_index(t, p)] == s[first_index(t, p)]);
        }
        assert forall|j: int| 0 <= j < s.len() && (f < 0 || j < f) implies !p(#[trigger] s[j]) by {
            if j < s.len() - 1 {
                assert(t[j] == s[j]);
            }
        }
    }
}

/// Scanning a prefix: if the first `k` entries hold no match, the first match of the whole
/// sequence is that of the sequence; if the `k`-th entry matches, it is the first one.
proof fn lemma_first_index_scan(s: Seq<ThreadInfo>, p: spec_fn(ThreadInfo) -> bool, k: int)
    requires
        0 <= k <= s.len(),
        forall|j: int| 0 <= j < k ==> !p(#[trigger] s[j]),
    ensures
        k < s.len() && p(s[k]) ==> first_index(s, p) == k,
        k == s.len() ==> first_index(s, p) == -1,
{
    lemma_first_index(s, p);
}

/// A thread that no entry names is not found in the run list.
pub proof fn lemma_tid_absent(s: Seq<ThreadInfo>, tid: Tid)
    requires
        forall|j: int| 0 <= j < s.len() ==> (#[trigger] s[j]).tid != tid,
    ensures
        index_of_tid(s, tid) < 0,
{
    lemma_first_index(s, |e: ThreadInfo| e.tid == tid);
}

/// The entries with every non-idle quantum refilled.
pub open spec fn redistributed(s: Seq<ThreadInfo>) -> Seq<ThreadInfo> {
    s.map_values(
        |e: ThreadInfo|
            if e.priority != Priority::Idle {
                ThreadInfo { quantum: QUANTUM, ..e }
            } else {
                e
            },
    )
}

/// The entries with entry `i` running.
pub open spec fn set_running(s: Seq<ThreadInfo>, i: int) -> Seq<ThreadInfo> {
    s.update(i, ThreadInfo { state: State::Running, ..s[i] })
}

/// The entries after `pick_next` and, when it finds nothing, a redistribution and a second
/// `pick_next`; with the position of the thread picked, or -1.
pub open spec fn picked(s: Seq<ThreadInfo>) -> (Seq<ThreadInfo>, int) {
    let a = first_runnable(s);
    if a >= 0 {
        (set_running(s, a), a)
    } else {
        let s1 = redistributed(s);
        let b = first_runnable(s1);
        if b >= 0 {
            (set_running(s1, b), b)
        } else {
            (s1, -1)
        }
    }
}

/// The entries and the position of the thread to run once `schedule` has picked, for the
/// current thread at position `cur`: the thread `picked` finds; failing that the current thread
/// itself if it is idle (position -1: no switch); failing that the first ready idle thread.
pub open spec fn schedule_target(s: Seq<ThreadInfo>, cur: int) -> (Seq<ThreadInfo>, int) {
    let s2 = picked(s).0;
    let p = picked(s).1;
    if p >= 0 {
        (s2, p)
    } else if s2[cur].priority == Priority::Idle {
        (s2, -1)
    } else {
        (set_running(s2, first_idle_ready(s2)), first_idle_ready(s2))
    }
}

/// The outgoing thread after a switch: ready again if it was running, and no longer marked for
/// rescheduling.
pub open spec fn yielded(e: ThreadInfo) -> ThreadInfo {
    ThreadInfo {
        state: if e.state == State::Running {
            State::Ready
        } else {
            e.state
        },
        need_scheduling: false,
        ..e
    }
}

/// No two entries share an identifier.
pub open spec fn tids_distinct(s: Seq<ThreadInfo>) -> bool {
    forall|i: int, j: int| 0 <= i < j < s.len() ==> (#[trigger] s[i]).tid != (#[trigger] s[j]).tid
}

/// The round-robin scheduler: one run list for the whole system.
pub struct Scheduler {
    pub run_list: Vec<ThreadInfo>,
}

impl Scheduler {
    pub open spec fn wf(&self) -> bool {
        tids_distinct(self.run_list@)
    }

    /// A scheduler with an empty run list.
    pub fn new() -> (r: Scheduler)
        ensures
            r.wf(),
            r.run_list@.len() == 0,
    {
        Scheduler { run_list: Vec::new() }
    }

    /// Appends a thread to the run list, ready and with a full quantum.
    pub fn add_thread(&mut self, tid: Tid, priority: Priority)
        requires
            old(self).wf(),
            index_of_tid(old(self).run_list@, tid) < 0,
        ensures
            final(self).wf(),
            final(self).run_list@ == old(self).run_list@.push(
                ThreadInfo {
                    tid,
                    priority,
                    state: State::Ready,
                    quantum: QUANTUM,
                    need_scheduling: false,
                },
            ),
    {
        proof {
            lemma_first_index(old(self).run_list@, |e: ThreadInfo| e.tid == tid);
        }
        self.run_list.push(
            ThreadInfo {
                tid,
                priority,
                state: State::Ready,
                quantum: QUANTUM,
                need_scheduling: false,
            },
        );
    }

    /// Removes a thread from the run list. The thread must not be running.
    pub fn remove_thread(&mut self, tid: Tid)
        requires
            old(self).wf(),
            index_of_tid(old(self).run_list@, tid) >= 0 ==> old(self).run_list@[index_of_tid(
                old(self).run_list@,
                tid,
            )].state != State::Running,
        ensures
            final(self).wf(),
            index_of_tid(old(self).run_list@, tid) < 0 ==> final(self).run_list@ == old(
                self,
            ).run_list@,
            index_of_tid(old(self).run_list@, tid) >= 0 ==> final(self).run_list@ == old(
                self,
            ).run_list@.remove(index_of_tid(old(self).run_list@, tid)),
    {
        let n = self.run_list.len();
        let mut i: usize = 0;
        while i < n && self.run_list[i].tid != tid
            invariant
                n == self.run_list@.len(),
                self.run_list@ == old(self).run_list@,
                i <= n,
                forall|j: int| 0 <= j < i ==> (#[trigger] self.run_list@[j]).tid != tid,
            decreases n - i,
        {
            i = i + 1;
        }
        proof {
            lemma_first_index_scan(self.run_list@, |e: ThreadInfo| e.tid == tid, i as int);
        }
        if i < n {
            let ghost s0 = self.run_list@;
            self.run_list.remove(i);
            proof {
                s0.remove_ensures(i as int);
                assert forall|a: int, b: int|
                    0 <= a < b < self.run_list@.len() implies (#[trigger] self.run_list@[a]).tid
                    != (#[trigger] self.run_list@[b]).tid by {
                    let a0 = if a < i { a } else { a + 1 };
                    let b0 = if b < i { b } else { b + 1 };
                    assert(s0[a0].tid != s0[b0].tid);
                }
            }
        }
    }

    /// Picks the first ready, non-idle thread with quantum left and marks it running.
    pub fn pick_next(&mut self) -> (r: Option<Tid>)
        requires
            old(self).wf(),
        ensures
            final(self).wf(),
            first_runnable(old(self).run_list@) < 0 ==> r is None && final(self).run_list@ == old(
                self,
            ).run_list@,
            first_runnable(old(self).run_list@) >= 0 ==> r == Some(
                old(self).run_list@[first_runnable(old(self).run_list@)].tid,
            ) && final(self).run_list@ == set_running(
                old(self).run_list@,
                first_runnable(old(self).run_list@),
            ),
    {
        let n = self.run_list.len();
        let mut i: usize = 0;
        while i < n
            invariant
                n == self.run_list@.len(),
                self.run_list@ == old(self).run_list@,
                i <= n,
                tids_distinct(self.run_list@),
                forall|j: int| 0 <= j < i ==> !runnable(#[trigger] self.run_list@[j]),
            decreases n - i,
        {
            let e = self.run_list[i];
            if e.quantum > 0 && e.priority != Priority::Idle && e.state == State::Ready {
                proof {
                    lemma_first_index_scan(self.run_list@, |e: ThreadInfo| runnable(e), i as int);
                }
                let ghost s0 = self.run_list@;
                self.run_list.set(i, ThreadInfo { state: State::Running, ..e });
                proof {
                    assert forall|a: int, b: int|
                        0 <= a < b < self.run_list@.len() implies (
                        #[trigger] self.run_list@[a]).tid != (#[trigger] self.run_list@[b]).tid by {
                        assert(s0[a].tid != s0[b].tid);
                    }
                }
                return Some(e.tid);
            }
            i = i + 1;
        }
        proof {
            lemma_first_index_scan(self.run_list@, |e: ThreadInfo| runnable(e), n as int);
        }
        None
    }

    /// Picks the first ready idle thread and marks it running. One must exist.
    pub fn pick_idle(&mut self) -> (r: Tid)
        requires
            old(self).wf(),
            first_idle_ready(old(self).run_list@) >= 0,
        ensures
            final(self).wf(),
            r == old(self).run_list@[first_idle_ready(old(self).run_list@)].tid,
            final(self).run_list@ == set_running(
                old(self).run_list@,
                first_idle_ready(old(self).run_list@),
            ),
    {
        proof {
            lemma_first_index(self.run_list@, |e: ThreadInfo| idle_ready(e));
        }
        let n = self.run_list.len();
        let mut i: usize = 0;
        while i < n
            invariant
                n == self.run_list@.len(),
                self.run_list@ == old(self).run_list@,
                i <= n,
                tids_distinct(self.run_list@),
                forall|j: int| 0 <= j < i ==> !idle_ready(#[trigger] self.run_list@[j]),
            decreases n - i,
        {
            let e = self.run_list[i];
            if e.priority == Priority::Idle && e.state == State::Ready {
                proof {
                    lemma_first_index_scan(self.run_list@, |e: ThreadInfo| idle_ready(e), i as int);
                }
                let ghost s0 = self.run_list@;
                self.run_list.set(i, ThreadInfo { state: State::Running, ..e });
                proof {
                    assert forall|a: int, b: int|
                        0 <= a < b < self.run_list@.len() implies (
                        #[trigger] self.run_list@[a]).tid != (#[trigger] self.run_list@[b]).tid by {
                        assert(s0[a].tid != s0[b].tid);
                    }
                }
                return e.tid;
            }
            i = i + 1;
        }
        proof {
            lemma_first_index_scan(self.run_list@, |e: ThreadInfo| idle_ready(e), n as int);
        }
        self.run_list[0].tid
    }

    /// Refills the quantum of every non-idle thread.
    pub fn redistribute(&mut self)
        requires
            old(self).wf(),
        ensures
            final(self).wf(),
            final(self).run_list@ == redistributed(old(self).run_list@),
    {
        let n = self.run_list.len();
        let mut i: usize = 0;
        while i < n
            invariant
                n == self.run_list@.len(),
                n == old(self).run_list@.len(),
                i <= n,
                forall|j: int|
                    0 <= j < n ==> #[trigger] self.run_list@[j] == if j < i {
                        redistributed(old(self).run_list@)[j]
                    } else {
                        old(self).run_list@[j]
                    },
            decreases n - i,
        {
            let e = self.run_list[i];
            if e.priority != Priority::Idle {
                self.run_list.set(i, ThreadInfo { quantum: QUANTUM, ..e });
            }
            i = i + 1;
        }
        proof {
            assert(self.run_list@ =~= redistributed(old(self).run_list@));
            assert forall|a: int, b: int|
                0 <= a < b < self.run_list@.len() implies (#[trigger] self.run_list@[a]).tid != (
                #[trigger] self.run_list@[b]).tid by {
                assert(old(self).run_list@[a].tid != old(self).run_list@[b].tid);
            }
        }
    }

    /// One timer tick for the running thread `current`: its quantum goes down by one, and once
    /// it is spent the thread is marked for rescheduling.
    pub fn timer_tick(&mut self, current: Tid)
        requires
            old(self).wf(),
            index_of_tid(old(self).run_list@, current) >= 0,
        ensures
            final(self).wf(),
            ({
                let i = index_of_tid(old(self).run_list@, current);
                let e = old(self).run_list@[i];
                final(self).run_list@ == old(self).run_list@.update(
                    i,
                    if e.quantum == 0 {
                        ThreadInfo { need_scheduling: true, ..e }
                    } else {
                        ThreadInfo { quantum: (e.quantum - 1) as u64, ..e }
                    },
                )
            }),
    {
        let i = self.find(current);
        let e = self.run_list[i];
        let ghost s0 = self.run_list@;
        proof {
            assert(tids_distinct(s0));
        }
        if e.quantum == 0 {
            self.run_list.set(i, ThreadInfo { need_scheduling: true, ..e });
        } else {
            self.run_list.set(i, ThreadInfo { quantum: e.quantum - 1, ..e });
        }
        proof {
            assert forall|a: int, b: int|
                0 <= a < b < self.run_list@.len() implies (#[trigger] self.run_list@[a]).tid != (
                #[trigger] self.run_list@[b]).tid by {
                assert(s0[a].tid != s0[b].tid);
            }
        }
    }

    /// Position of the thread `tid` in the run list.
    fn find(&self, tid: Tid) -> (r: usize)
        requires
            index_of_tid(self.run_list@, tid) >= 0,
        ensures
            r == index_of_tid(self.run_list@, tid),
            r < self.run_list@.len(),
    {
        proof {
            lemma_first_index(self.run_list@, |e: ThreadInfo| e.tid == tid);
        }
        let n = self.run_list.len();
        let mut i: usize = 0;
        while i < n && self.run_list[i].tid != tid
            invariant
                n == self.run_list@.len(),
                i <= n,
                forall|j: int| 0 <= j < i ==> (#[trigger] self.run_list@[j]).tid != tid,
            decreases n - i,
        {
            i = i + 1;
        }
        proof {
            lemma_first_index_scan(self.run_list@, |e: ThreadInfo| e.tid == tid, i as int);
        }
        i
    }

    /// Decides what runs next on a CPU whose running thread is `current`: the first ready,
    /// non-idle thread with quantum left, after refilling the quanta if there is none, else an
    /// idle thread. Returns the thread to switch to, or `None` to keep running `current`. The
    /// outgoing thread becomes ready again; the caller switches address space and registers.
    pub fn schedule(&mut self, current: Tid) -> (r: Option<Tid>)
        requires
            old(self).wf(),
            index_of_tid(old(self).run_list@, current) >= 0,
            picked(old(self).run_list@).1 < 0 && old(self).run_list@[index_of_tid(
                old(self).run_list@,
                current,
            )].priority != Priority::Idle ==> first_idle_ready(picked(old(self).run_list@).0)
                >= 0,
        ensures
            final(self).wf(),
            ({
                let cur = index_of_tid(old(self).run_list@, current);
                let s3 = schedule_target(old(self).run_list@, cur).0;
                let t = schedule_target(old(self).run_list@, cur).1;
                if t < 0 {
                    r is None && final(self).run_list@ == s3.update(
                        cur,
                        ThreadInfo { need_scheduling: false, ..s3[cur] },
                    )
                } else if t == cur {
                    r is None && final(self).run_list@ == s3
                } else {
                    r == Some(s3[t].tid) && final(self).run_list@ == s3.update(cur, yielded(s3[cur]))
                }
            }),
    {
        let ci = self.find(current);
        let ghost s0 = self.run_list@;
        let ghost n0 = s0.len();
        proof {
            lemma_first_index(s0, |e: ThreadInfo| runnable(e));
            lemma_first_index(redistributed(s0), |e: ThreadInfo| runnable(e));
            lemma_first_index(s0, |e: ThreadInfo| e.tid == current);
            assert(s0[ci as int].tid == current);
            assert(redistributed(s0)[ci as int].tid == current);
        }
        let first = self.pick_next();
        let next = match first {
            Some(t) => Some(t),
            None => {
                self.redistribute();
                self.pick_next()
            },
        };
        let ghost s2 = self.run_list@;
        proof {
            assert(s2 == picked(s0).0);
            assert(s2.len() == n0);
            assert(s2[ci as int].tid == current);
        }
        let next = match next {
            Some(t) => t,
            None => {
                if self.run_list[ci].priority == Priority::Idle {
                    let e = self.run_list[ci];
                    self.run_list.set(ci, ThreadInfo { need_scheduling: false, ..e });
                    proof {
                        assert forall|a: int, b: int|
                            0 <= a < b < self.run_list@.len() implies (
                            #[trigger] self.run_list@[a]).tid != (
                            #[trigger] self.run_list@[b]).tid by {
                            assert(s2[a].tid != s2[b].tid);
                        }
                    }
                    return None;
                }
                proof {
                    lemma_first_index(s2, |e: ThreadInfo| idle_ready(e));
                }
                self.pick_idle()
            },
        };
        let ghost s3 = self.run_list@;
        let ghost t = schedule_target(s0, ci as int).1;
        proof {
            assert(s3 == schedule_target(s0, ci as int).0);
            assert(0 <= t < n0);
            assert(next == s3[t].tid);
            assert(s3[ci as int].tid == current);
            assert(tids_distinct(s3));
        }
        if next == current {
            return None;
        }
        let e = self.run_list[ci];
        let out = ThreadInfo {
            state: match e.state {
                State::Running => State::Ready,
                other => other,
            },
            need_scheduling: false,
            ..e
        };
        self.run_list.set(ci, out);
        proof {
            assert forall|a: int, b: int|
                0 <= a < b < self.run_list@.len() implies (#[trigger] self.run_list@[a]).tid != (
                #[trigger] self.run_list@[b]).tid by {
                assert(s3[a].tid != s3[b].tid);
            }
        }
        Some(next)
    }

    /// Whether the thread `tid` is marked for rescheduling.
    pub fn need_rescheduling(&self, tid: Tid) -> (r: bool)
        requires
            index_of_tid(self.run_list@, tid) >= 0,
        ensures
            r == self.run_list@[index_of_tid(self.run_list@, tid)].need_scheduling,
    {
        let i = self.find(tid);
        self.run_list[i].need_scheduling
    }
}

/// Scheduler progress. When some ready, non-idle thread has quantum left, `schedule` picks a
/// ready, non-idle thread. When the ready, non-idle threads have all spent their quanta, the
/// redistribution that `schedule` performs lets it pick one of them all the same.
pub proof fn lemma_scheduler_progress(s: Seq<ThreadInfo>, cur: int)
    requires
        0 <= cur < s.len(),
    ensures
        (exists|i: int| 0 <= i < s.len() && #[trigger] runnable(s[i])) ==> {
            let t = schedule_target(s, cur).1;
            &&& t == first_runnable(s)
            &&& t >= 0
            &&& s[t].priority != Priority::Idle
            &&& s[t].state == State::Ready
        },
        (forall|i: int| 0 <= i < s.len() ==> !#[trigger] runnable(s[i])) && (exists|i: int|
            0 <= i < s.len() && (#[trigger] s[i]).state == State::Ready && s[i].priority
                != Priority::Idle) ==> {
            let t = schedule_target(s, cur).1;
            &&& t == first_runnable(redistributed(s))
            &&& t >= 0
            &&& s[t].priority != Priority::Idle
            &&& s[t].state == State::Ready
            &&& schedule_target(s, cur).0[t].quantum == QUANTUM
        },
{
    lemma_first_index(s, |e: ThreadInfo| runnable(e));
    let s1 = redistributed(s);
    lemma_first_index(s1, |e: ThreadInfo| runnable(e));
    if exists|i: int| 0 <= i < s.len() && #[trigger] runnable(s[i]) {
        let i = choose|i: int| 0 <= i < s.len() && #[trigger] runnable(s[i]);
        assert(first_runnable(s) >= 0);
    } else if exists|i: int|
        0 <= i < s.len() && (#[trigger] s[i]).state == State::Ready && s[i].priority
            != Priority::Idle {
        let i = choose|i: int|
            0 <= i < s.len() && (#[trigger] s[i]).state == State::Ready && s[i].priority
                != Priority::Idle;
        assert(runnable(s1[i]));
        assert(first_runnable(s1) >= 0);
    }
}

} // verus!
