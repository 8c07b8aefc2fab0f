use vstd::prelude::*;

verus! {

/// Most CPUs the kernel runs on.
pub const MAX_CPU: usize = 32;

/// Size in bytes of the thread-local header at the end of each CPU's TLS block.
pub const THREAD_LOCAL_INFO_SIZE: u64 = 24;

/// A CPU as the bootloader lists it.
#[derive(Debug, Clone, Copy, PartialEq, Eq, Structural)]
pub struct CpuInfo {
    pub processor_id: u32,
    pub lapic_id: u32,
}

/// The header of a CPU's thread-local block: a pointer to itself (the compiler loads it at
/// offset zero), the start of the block, and the CPU's identifiers.
#[derive(Debug, Clone, Copy, PartialEq, Eq, Structural)]
pub struct ThreadLocalInfo {
    pub self_ptr: u64,
    pub tls_base: u64,
    pub lapic_id: u32,
    pub cpu_id: u32,
}

/// Bytes to allocate for a CPU's thread-local block: a copy of the template, then the header.
pub fn tls_block_size(template_size: u64) -> (r: u64)
    requires
        template_size + THREAD_LOCAL_INFO_SIZE <= u64::MAX,
    ensures
        r == template_size + THREAD_LOCAL_INFO_SIZE,
{
    template_size + THREAD_LOCAL_INFO_SIZE
}

/// The header of the thread-local block that starts at `block`; its address, which the
/// kernel-GS and FS base registers receive, is its own first field.
pub fn tls_header(block: u64, template_size: u64, cpu: &CpuInfo) -> (r: ThreadLocalInfo)
    requires
        block + template_size + THREAD_LOCAL_INFO_SIZE <= u64::MAX,
    ensures
        r.self_ptr == block + template_size,
        r.tls_base == block,
        r.lapic_id == cpu.lapic_id,
        r.cpu_id == cpu.processor_id,
{
    ThreadLocalInfo {
        self_ptr: block + template_size,
        tls_base: block,
        lapic_id: cpu.lapic_id,
        cpu_id: cpu.processor_id,
    }
}

/// The positions, in order, of the first `n` CPUs of `cpus` that are not the boot CPU (local
/// APIC 0).
pub open spec fn application_processors(cpus: Seq<CpuInfo>, n: int) -> Seq<usize>
    decreases n,
{
    if n <= 0 {
        Seq::empty()
    } else if cpus[n - 1].lapic_id != 0 {
        application_processors(cpus, n - 1).push((n - 1) as usize)
    } else {
        application_processors(cpus, n - 1)
    }
}

/// The positions, in order, of the CPUs to start: all but the boot CPU. There must be at least
/// one CPU and at most `MAX_CPU`.
pub fn start_cpus(cpus: &Vec<CpuInfo>) -> (r: Vec<usize>)
    requires
        0 < cpus@.len() <= MAX_CPU,
    ensures
        r@ == application_processors(cpus@, cpus@.len() as int),
{
    let mut r: Vec<usize> = Vec::new();
    let mut i: usize = 0;
    while i < cpus.len()
        invariant
            i <= cpus@.len(),
            r@ == application_processors(cpus@, i as int),
        decreases cpus@.len() - i,
    {
        if cpus[i].lapic_id != 0 {
            r.push(i);
        }
        i = i + 1;
    }
    r
}

/// Number of CPUs that are up. The boot CPU counts from the start.
pub struct OnlineCpus {
    pub count: u64,
}

impl OnlineCpus {
    pub fn new() -> (r: OnlineCpus)
        ensures
            r.count == 1,
    {
        OnlineCpus { count: 1 }
    }

    /// An application processor reports that it is up.
    pub fn ap_online(&mut self)
        requires
            old(self).count < u64::MAX,
        ensures
            final(self).count == old(self).count + 1,
    {
        self.count = self.count + 1;
    }

    /// Whether all `n` CPUs are up, so that the boot CPU may go on.
    pub fn all_online(&self, n: usize) -> (r: bool)
        ensures
            r == (self.count == n),
    {
        self.count == n as u64
    }
}

} // verus!
