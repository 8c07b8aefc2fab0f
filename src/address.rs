use vstd::prelude::*;

verus! {

/// Start of kernel space.
pub const KERNEL_BASE: u64 = 0xFFFF_8000_0000_0000;

/// The direct map of all physical memory.
pub const HHDM_START: u64 = 0xFFFF_8000_0000_0000;
pub const HHDM_END: u64 = 0xFFFF_9000_0000_0000;

/// The kernel heap, populated on demand.
pub const HEAP_START: u64 = 0xFFFF_9000_0000_0000;
pub const HEAP_END: u64 = 0xFFFF_A000_0000_0000;

/// The region of virtual areas handed out by vmalloc.
pub const VMALLOC_START: u64 = 0xFFFF_A000_0000_0000;
pub const VMALLOC_END: u64 = 0xFFFF_B000_0000_0000;

/// End of user space.
pub const USER_END: u64 = 0x0000_8000_0000_0000;

/// A virtual address is canonical when its upper bits copy bit 47: it lies in user space or
/// in kernel space.
pub open spec fn canonical(v: u64) -> bool {
    v < USER_END || v >= KERNEL_BASE
}

/// Whether `v` is a canonical virtual address.
pub fn is_canonical(v: u64) -> (r: bool)
    ensures
        r == canonical(v),
{
    v < USER_END || v >= KERNEL_BASE
}

/// The address of physical address `p` in the direct map, which reaches the first 128 TiB of
/// physical memory.
pub fn phys_to_virt(p: u64) -> (r: u64)
    requires
        p < USER_END,
    ensures
        r == p + HHDM_START,
{
    p + HHDM_START
}

/// The physical address behind an address of the direct map.
pub fn virt_to_phys(v: u64) -> (r: u64)
    requires
        HHDM_START <= v < 0xFFFF_8FFF_FFFF_FFFF,
    ensures
        r == v - HHDM_START,
{
    v - HHDM_START
}

} // verus!
