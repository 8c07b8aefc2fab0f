use vstd::prelude::*;

use crate::idt::{Handler, Table};

verus! {

/// First vector of the legacy IRQs, once the PIC is remapped.
pub const IRQ_BASE: u8 = 32;

/// Installs the legacy IRQ handlers: the sixteen IRQs are ignored, but IRQ 0, the PIT tick.
pub fn setup(idt: &mut Table)
    requires
        old(idt).wf(),
    ensures
        final(idt).wf(),
        forall|v: int|
            0 <= v < 256 ==> #[trigger] final(idt).handlers@[v] == if v == IRQ_BASE {
                Handler::PitTick
            } else if IRQ_BASE < v < IRQ_BASE + 16 {
                Handler::IgnoreIrq
            } else {
                old(idt).handlers@[v]
            },
{
    let mut i: u8 = 0;
    while i < 16
        invariant
            i <= 16,
            idt.wf(),
            forall|v: int|
                0 <= v < 256 ==> #[trigger] idt.handlers@[v] == if IRQ_BASE <= v < IRQ_BASE + i {
                    Handler::IgnoreIrq
                } else {
                    old(idt).handlers@[v]
                },
        decreases 16 - i,
    {
        idt.set_handler(IRQ_BASE + i, Handler::IgnoreIrq);
        i = i + 1;
    }
    idt.set_handler(IRQ_BASE, Handler::PitTick);
}

} // verus!
