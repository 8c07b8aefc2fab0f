use silicium::exception;
use silicium::gdt::{Descriptor, DescriptorFlags, Register, Table, SEG_KERNEL_CODE64};
use silicium::idt::{self, Handler, CLOCK_TICK_VECTOR, TLB_SHOOTDOWN_VECTOR};
use silicium::irq::{self, IRQ_BASE};
use silicium::smp::{start_cpus, tls_block_size, tls_header, CpuInfo, OnlineCpus};
use silicium::sync::{restore, RawSpinlock, RawSpinlockIrq};

#[test]
fn tss_descriptor_layout() {
    let d = Descriptor::tss(0x1234_5678_9ABC_DEF0);
    assert_eq!(d, Descriptor::System(0x9A00_89BC_DEF0_0067, 0x1234_5678));
}

#[test]
fn gdt_slots_and_register() {
    let mut t: Table<8> = Table::new();
    assert_eq!(t.capacity(), 8);
    t.set(1, &Descriptor::Segment(SEG_KERNEL_CODE64));
    t.set(6, &Descriptor::System(5, 6));
    assert_eq!(t.descriptors[1].low, SEG_KERNEL_CODE64);
    assert_eq!((t.descriptors[6].low, t.descriptors[6].high), (5, 6));
    t.flush(0x5000);
    assert_eq!(t.register, Register { limit: 127, base: 0x5000 });
    assert_eq!(Register::null(), Register { limit: 0, base: 0 });
    assert_eq!(DescriptorFlags::new().bits, 0);
}

#[test]
fn interrupt_vectors() {
    let mut t = idt::setup();
    exception::setup(&mut t);
    irq::setup(&mut t);
    assert_eq!(t.handlers[14], Handler::Exception(14));
    assert_eq!(t.handlers[IRQ_BASE as usize], Handler::PitTick);
    assert_eq!(t.handlers[IRQ_BASE as usize + 15], Handler::IgnoreIrq);
    assert_eq!(t.handlers[IRQ_BASE as usize + 16], Handler::Unknown);
    assert_eq!(t.handlers[TLB_SHOOTDOWN_VECTOR as usize], Handler::TlbShootdown);
    assert_eq!(t.handlers[CLOCK_TICK_VECTOR as usize], Handler::ClockTick);
    assert_eq!(t.handlers.len(), 256);
}

#[test]
fn smp_handshake() {
    let cpus: Vec<CpuInfo> = (0..4).map(|i| CpuInfo { processor_id: i, lapic_id: i }).collect();
    let aps = start_cpus(&cpus);
    assert_eq!(aps, vec![1, 2, 3]);
    let mut online = OnlineCpus::new();
    let template = 0x300;
    for &i in &aps {
        let block = 0xFFFF_A000_0000_0000 + (i as u64) * 0x1000;
        assert_eq!(tls_block_size(template), 0x300 + 24);
        let header = tls_header(block, template, &cpus[i]);
        let gs_base = block + template;
        assert_eq!(header.self_ptr, gs_base);
        assert_eq!(header.tls_base, block);
        assert_eq!(header.cpu_id, i as u32);
        assert!(!online.all_online(cpus.len()));
        online.ap_online();
    }
    assert!(online.all_online(cpus.len()));
    assert_eq!(online.count, 4);
}

#[test]
fn irq_safe_lock_restores_interrupts() {
    let mut l = RawSpinlockIrq::new();
    assert_eq!(l.try_lock(true), (true, false));
    assert_eq!(l.try_lock(true), (false, true));
    assert!(l.is_locked());
    assert!(l.unlock());
    assert!(!l.is_locked());
    let mut p = RawSpinlock::new();
    assert!(p.try_lock());
    assert!(!p.try_lock());
    p.unlock();
    assert!(!p.is_locked());
    assert!(restore(true) && !restore(false));
}
