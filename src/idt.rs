use vstd::prelude::*;

verus! {

/// Number of interrupt vectors.
pub const IDT_ENTRIES: usize = 256;

/// Vector of the TLB shootdown interrupt.
pub const TLB_SHOOTDOWN_VECTOR: u8 = 0xF0;

/// Vector of the clock tick.
pub const CLOCK_TICK_VECTOR: u8 = 0xF1;

/// The handler a vector leads to.
#[derive(Debug, Clone, Copy, PartialEq, Eq, Structural)]
pub enum Handler {
    /// No handler was installed for the vector.
    Unknown,
    /// The CPU exception of that number.
    Exception(u8),
    /// Flush the local TLB.
    TlbShootdown,
    /// A scheduler tick of the local APIC timer.
    ClockTick,
    /// A tick of the legacy PIT.
    PitTick,
    /// A legacy IRQ that is acknowledged and ignored.
    IgnoreIrq,
}

/// The interrupt descriptor table: one handler per vector, each entered in ring 0.
pub struct Table {
    pub handlers: Vec<Handler>,
}

impl Table {
    pub open spec fn wf(&self) -> bool {
        self.handlers@.len() == IDT_ENTRIES
    }

    /// Installs `handler` at `vector`.
    pub fn set_handler(&mut self, vector: u8, handler: Handler)
        requires
            old(self).wf(),
        ensures
            final(self).wf(),
            final(self).handlers@ == old(self).handlers@.update(vector as int, handler),
    {
        self.handlers.set(vector as usize, handler);
    }
}

/// The table of the boot CPU: every vector leads to the unknown-vector handler but the TLB
/// shootdown and clock tick vectors.
pub fn setup() -> (r: Table)
    ensures
        r.wf(),
        forall|v: int|
            0 <= v < IDT_ENTRIES ==> #[trigger] r.handlers@[v] == if v == TLB_SHOOTDOWN_VECTOR {
                Handler::TlbShootdown
            } else if v == CLOCK_TICK_VECTOR {
                Handler::ClockTick
            } else {
                Handler::Unknown
            },
{
    let mut handlers: Vec<Handler> = Vec::new();
    let mut i: usize = 0;
    while i < IDT_ENTRIES
        invariant
            i <= IDT_ENTRIES,
            handlers@.len() == i,
            forall|v: int| 0 <= v < i ==> #[trigger] handlers@[v] == Handler::Unknown,
        decreases IDT_ENTRIES - i,
    {
        handlers.push(Handler::Unknown);
        i = i + 1;
    }
    let mut table = Table { handlers };
    table.set_handler(TLB_SHOOTDOWN_VECTOR, Handler::TlbShootdown);
    table.set_handler(CLOCK_TICK_VECTOR, Handler::ClockTick);
    table
}

} // verus!
