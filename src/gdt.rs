use vstd::prelude::*;

verus! {

/// Size in bytes of a 64-bit task state segment.
pub const TSS_SIZE: u64 = 104;

/// Code and data segment descriptors of long mode.
pub const SEG_NULL: u64 = 0;
pub const SEG_KERNEL_CODE64: u64 = 0x00af_9b00_0000_ffff;
pub const SEG_KERNEL_DATA: u64 = 0x00cf_9300_0000_ffff;
pub const SEG_USER_CODE64: u64 = 0x00af_9b00_0000_ffff;
pub const SEG_USER_DATA: u64 = 0x00cf_9300_0000_ffff;

/// Bits of a descriptor.
pub const DESC_ACCESSED: u64 = 0x100_0000_0000;
pub const DESC_WRITABLE: u64 = 0x200_0000_0000;
pub const DESC_CONFORMING: u64 = 0x400_0000_0000;
pub const DESC_EXECUTABLE: u64 = 0x800_0000_0000;
pub const DESC_USER_SEGMENT: u64 = 0x1000_0000_0000;
pub const DESC_DPL_RING_3: u64 = 0x6000_0000_0000;
pub const DESC_PRESENT: u64 = 0x8000_0000_0000;
pub const DESC_AVAILABLE: u64 = 0x10_0000_0000_0000;
pub const DESC_LONG_MODE: u64 = 0x20_0000_0000_0000;
pub const DESC_DEFAULT_SIZE: u64 = 0x40_0000_0000_0000;
pub const DESC_GRANULARITY: u64 = 0x80_0000_0000_0000;

/// The mask of bits `msb` down to `lsb` of a word, as bitfield computes it.
pub open spec fn field_mask(msb: u64, lsb: u64) -> u64 {
    (((!0u64) << ((63 - msb) as u64)) >> ((63 - msb + lsb) as u64)) << lsb
}

/// `word` with bits `msb` down to `lsb` replaced by the low bits of `value`.
pub open spec fn with_bits(word: u64, msb: u64, lsb: u64, value: u64) -> u64 {
    (word & !field_mask(msb, lsb)) | ((value << lsb) & field_mask(msb, lsb))
}

/// Relies on bitfield's `BitRangeMut<u64>::set_bit_range` for `u64`: it clears the field mask
/// and ors in the shifted value under the mask.
#[verifier::external_body]
fn set_bit_range(word: u64, msb: u64, lsb: u64, value: u64) -> (r: u64)
    requires
        lsb <= msb < 64,
    ensures
        r == with_bits(word, msb, lsb, value),
{
    let mut w = word;
    bitfield::BitRangeMut::<u64>::set_bit_range(&mut w, msb as usize, lsb as usize, value);
    w
}

/// A descriptor of the GDT: a system descriptor takes two slots, a segment descriptor one.
#[derive(Debug, Clone, Copy, PartialEq, Eq, Structural)]
pub enum Descriptor {
    System(u64, u64),
    Segment(u64),
}

/// The low word of the descriptor of a TSS at `base`.
pub open spec fn tss_low(base: u64) -> u64 {
    with_bits(
        with_bits(
            with_bits(with_bits(DESC_PRESENT, 15, 0, (TSS_SIZE - 1) as u64), 39, 16, base & 0xFF_FFFF),
            63,
            56,
            (base >> 24) & 0xFF,
        ),
        43,
        40,
        9,
    )
}

impl Descriptor {
    /// The descriptor of an available 64-bit TSS at `base`: its limit, base address and type,
    /// present.
    pub fn tss(base: u64) -> (r: Descriptor)
        ensures
            r == Descriptor::System(tss_low(base), (base >> 32) & 0xFFFF_FFFF),
    {
        let mut low = DESC_PRESENT;
        low = set_bit_range(low, 15, 0, TSS_SIZE - 1);
        low = set_bit_range(low, 39, 16, base & 0xFF_FFFF);
        low = set_bit_range(low, 63, 56, (base >> 24) & 0xFF);
        low = set_bit_range(low, 43, 40, 9);
        Descriptor::System(low, (base >> 32) & 0xFFFF_FFFF)
    }
}

/// The flag bits of a descriptor.
#[derive(Debug, Clone, Copy, PartialEq, Eq, Structural)]
pub struct DescriptorFlags {
    pub bits: u64,
}

impl DescriptorFlags {
    /// No flag set.
    pub fn new() -> (r: DescriptorFlags)
        ensures
            r.bits == 0,
    {
        DescriptorFlags { bits: 0 }
    }
}

/// The value loaded in the GDT register: the table's last byte offset and its address.
#[derive(Debug, Clone, Copy, PartialEq, Eq, Structural)]
pub struct Register {
    pub limit: u16,
    pub base: u64,
}

impl Register {
    /// A register that points nowhere.
    pub fn null() -> (r: Register)
        ensures
            r.limit == 0 && r.base == 0,
    {
        Register { limit: 0, base: 0 }
    }
}

/// One 16-byte slot of the GDT.
#[derive(Debug, Clone, Copy, PartialEq, Eq, Structural)]
pub struct Entry {
    pub low: u64,
    pub high: u64,
}

/// A GDT of `N` slots.
pub struct Table<const N: usize> {
    pub descriptors: Vec<Entry>,
    pub register: Register,
}

impl<const N: usize> Table<N> {
    pub open spec fn wf(&self) -> bool {
        self.descriptors@.len() == N
    }

    /// A table whose slots all hold the null descriptor.
    pub fn new() -> (r: Table<N>)
        ensures
            r.wf(),
            forall|i: int| 0 <= i < N ==> #[trigger] r.descriptors@[i] == (Entry { low: 0, high: 0 }),
            r.register == (Register { limit: 0, base: 0 }),
    {
        let mut descriptors: Vec<Entry> = Vec::new();
        let mut i: usize = 0;
        while i < N
            invariant
                i <= N,
                descriptors@.len() == i,
                forall|k: int| 0 <= k < i ==> #[trigger] descriptors@[k] == (Entry { low: 0, high: 0 }),
            decreases N - i,
        {
            descriptors.push(Entry { low: 0, high: 0 });
            i = i + 1;
        }
        Table { descriptors, register: Register::null() }
    }

    /// Number of slots of the table.
    pub fn capacity(&self) -> (r: usize)
        ensures
            r == N,
    {
        N
    }

    /// Puts `descriptor` in slot `index`.
    pub fn set(&mut self, index: usize, descriptor: &Descriptor)
        requires
            old(self).wf(),
            index < N,
        ensures
            final(self).wf(),
            final(self).register == old(self).register,
            final(self).descriptors@ == old(self).descriptors@.update(
                index as int,
                match *descriptor {
                    Descriptor::Segment(x) => Entry { low: x, high: 0 },
                    Descriptor::System(x, y) => Entry { low: x, high: y },
                },
            ),
    {
        let entry = match *descriptor {
            Descriptor::Segment(x) => Entry { low: x, high: 0 },
            Descriptor::System(x, y) => Entry { low: x, high: y },
        };
        self.descriptors.set(index, entry);
    }

    /// Points the register at the table, which lies at `base`; the caller then loads it.
    pub fn flush(&mut self, base: u64)
        requires
            1 <= N <= 4096,
        ensures
            final(self).register == (Register { limit: (N * 16 - 1) as u16, base }),
            final(self).descriptors == old(self).descriptors,
    {
        self.register = Register { limit: (N * 16 - 1) as u16, base };
    }
}

} // verus!
