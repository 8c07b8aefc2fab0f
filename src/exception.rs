use vstd::prelude::*;

use crate::idt::{Handler, Table};

verus! {

/// Number of CPU exception vectors.
pub const EXCEPTIONS: u8 = 32;

/// Vector of the page fault exception.
pub const PAGE_FAULT_VECTOR: u8 = 14;

/// Installs a handler for each CPU exception, vectors 0 to 31.
pub fn setup(idt: &mut Table)
    requires
        old(idt).wf(),
    ensures
        final(idt).wf(),
        forall|v: int|
            0 <= v < 256 ==> #[trigger] final(idt).handlers@[v] == if v < EXCEPTIONS {
                Handler::Exception(v as u8)
            } else {
                old(idt).handlers@[v]
            },
{
    let mut i: u8 = 0;
    while i < EXCEPTIONS
        invariant
            i <= EXCEPTIONS,
            idt.wf(),
            forall|v: int|
                0 <= v < 256 ==> #[trigger] idt.handlers@[v] == if v < i {
                    Handler::Exception(v as u8)
                } else {
                    old(idt).handlers@[v]
                },
        decreases EXCEPTIONS - i,
    {
        idt.set_handler(i, Handler::Exception(i));
        i = i + 1;
    }
}

} // verus!
