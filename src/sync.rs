use vstd::prelude::*;

verus! {

/// A spinlock's state: whether it is held.
#[derive(Debug, Clone, Copy, PartialEq, Eq, Structural)]
pub struct RawSpinlock {
    pub locked: bool,
}

impl RawSpinlock {
    /// An unlocked lock.
    pub fn new() -> (r: RawSpinlock)
        ensures
            !r.locked,
    {
        RawSpinlock { locked: false }
    }

    /// Takes the lock if it is free; returns whether it was taken.
    pub fn try_lock(&mut self) -> (r: bool)
        ensures
            r == !old(self).locked,
            final(self).locked,
    {
        if self.locked {
            false
        } else {
            self.locked = true;
            true
        }
    }

    /// Releases the lock.
    pub fn unlock(&mut self)
        ensures
            !final(self).locked,
    {
        self.locked = false;
    }

    pub fn is_locked(&self) -> (r: bool)
        ensures
            r == self.locked,
    {
        self.locked
    }
}

/// A spinlock that may be taken in an interrupt handler: it runs with interrupts disabled while
/// held, and remembers whether they were enabled before.
#[derive(Debug, Clone, Copy, PartialEq, Eq, Structural)]
pub struct RawSpinlockIrq {
    pub locked: bool,
    pub saved_interrupts: bool,
}

impl RawSpinlockIrq {
    /// An unlocked lock.
    pub fn new() -> (r: RawSpinlockIrq)
        ensures
            !r.locked,
            !r.saved_interrupts,
    {
        RawSpinlockIrq { locked: false, saved_interrupts: false }
    }

    /// Tries to take the lock on a CPU whose interrupts are `enabled`. Returns whether the lock
    /// was taken and whether interrupts are enabled afterwards: disabled while the lock is
    /// held, as they were when it was not taken.
    pub fn try_lock(&mut self, enabled: bool) -> (r: (bool, bool))
        ensures
            r.0 == !old(self).locked,
            r.1 == (old(self).locked && enabled),
            final(self).locked,
            final(self).saved_interrupts == enabled,
    {
        self.saved_interrupts = enabled;
        if self.locked {
            (false, restore(self.saved_interrupts))
        } else {
            self.locked = true;
            (true, false)
        }
    }

    /// Releases the lock; returns whether interrupts are enabled afterwards, as they were before
    /// it was taken.
    pub fn unlock(&mut self) -> (r: bool)
        ensures
            !final(self).locked,
            r == old(self).saved_interrupts,
            final(self).saved_interrupts == old(self).saved_interrupts,
    {
        self.locked = false;
        restore(self.saved_interrupts)
    }

    pub fn is_locked(&self) -> (r: bool)
        ensures
            r == self.locked,
    {
        self.locked
    }
}

/// The interrupt flag to set back from a saved state: enabled exactly when it was.
pub fn restore(state: bool) -> (r: bool)
    ensures
        r == state,
{
    if state {
        true
    } else {
        false
    }
}

} // verus!
