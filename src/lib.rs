use vstd::prelude::*;

pub mod acpi;
pub mod address;
pub mod cpu;
pub mod exception;
pub mod frame;
pub mod frame_alloc;
pub mod frame_state;
pub mod gdt;
pub mod ident;
pub mod idt;
pub mod irq;
pub mod page_table;
pub mod paging;
pub mod process;
pub mod sched;
pub mod smp;
pub mod sync;
pub mod thread;
pub mod vmm;

verus! {

} // verus!
