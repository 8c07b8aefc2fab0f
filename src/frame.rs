use vstd::prelude::*;

verus! {

/// Size in bytes of a physical frame.
pub const PAGE_SIZE: u64 = 4096;

/// End of the physical address space (physical addresses have 52 bits). A frame starts at most
/// here; one that starts here only marks the end of a range.
pub const MAX_PHYSICAL: u64 = 0x10_0000_0000_0000;

/// Placement and state bits of a frame, as reported by `FrameInfo::get_flags`.
pub const FRAME_NONE: u64 = 0;
pub const FRAME_POISONED: u64 = 1;
pub const FRAME_RESERVED: u64 = 2;
pub const FRAME_FREE: u64 = 4;
pub const FRAME_ZEROED: u64 = 8;
pub const FRAME_DIRTY: u64 = 16;
pub const FRAME_KERNEL: u64 = 32;
pub const FRAME_BORROWED: u64 = 64;
pub const FRAME_BIOS: u64 = 128;
pub const FRAME_ISA: u64 = 256;
pub const FRAME_X86: u64 = 512;

/// Flags accepted by the frame allocator (a subset of the frame bits).
pub const ALLOC_NONE: u64 = 0;
pub const ALLOC_ZEROED: u64 = 8;
pub const ALLOC_KERNEL: u64 = 32;
pub const ALLOC_BIOS: u64 = 128;
pub const ALLOC_ISA: u64 = 256;
pub const ALLOC_X86: u64 = 512;

/// Upper bounds of the BIOS, ISA and X86 placement zones.
pub const BIOS_LIMIT: u64 = 0x10_0000;
pub const ISA_LIMIT: u64 = 0x100_0000;
pub const X86_LIMIT: u64 = 0x1000_0000;

/// Error returned when an address is not aligned on a page boundary: the address and the
/// alignment that was required.
#[derive(Debug, Clone, Copy, PartialEq, Eq)]
pub struct NotAligned(pub u64, pub usize);

/// A 4 KiB physical frame, identified by the address of its first byte.
#[derive(Debug, Clone, Copy)]
pub struct Frame {
    address: u64,
}

pub open spec fn page_aligned(a: int) -> bool {
    a % 4096 == 0
}

impl View for Frame {
    type V = u64;

    closed spec fn view(&self) -> u64 {
        self.address
    }
}

impl Frame {
    #[verifier::type_invariant]
    spec fn inv(self) -> bool {
        page_aligned(self.address as int) && self.address <= MAX_PHYSICAL
    }

    /// The frame at physical address zero.
    pub fn null() -> (r: Frame)
        ensures
            r@ == 0,
    {
        Frame { address: 0 }
    }

    /// The frame starting at `address`, which must be page aligned and a valid physical address.
    pub fn new(address: u64) -> (r: Frame)
        requires
            page_aligned(address as int),
            address <= MAX_PHYSICAL,
        ensures
            r@ == address,
    {
        Frame { address }
    }

    /// Same as `new`, from a raw integer address.
    pub fn from_u64(address: u64) -> (r: Frame)
        requires
            page_aligned(address as int),
            address <= MAX_PHYSICAL,
        ensures
            r@ == address,
    {
        Frame::new(address)
    }

    /// The frame starting at `address`, or `NotAligned` when the address is not page aligned.
    pub fn try_new(address: u64) -> (r: Result<Frame, NotAligned>)
        requires
            address <= MAX_PHYSICAL,
        ensures
            page_aligned(address as int) <==> r is Ok,
            r matches Ok(f) ==> f@ == address,
            r matches Err(e) ==> e == NotAligned(address, 4096),
    {
        if address % 4096 == 0 {
            Ok(Frame { address })
        } else {
            Err(NotAligned(address, 4096))
        }
    }

    /// Whether `address` lies inside this frame.
    pub fn contains(&self, address: u64) -> (r: bool)
        ensures
            r == (self@ <= address && address < self@ + 4096),
    {
        proof {
            use_type_invariant(self);
        }
        address >= self.address && address < self.address + 4096
    }

    /// Address of the first byte of the frame.
    pub fn start(&self) -> (r: u64)
        ensures
            r == self@,
            page_aligned(r as int),
            r <= MAX_PHYSICAL,
    {
        proof {
            use_type_invariant(self);
        }
        self.address
    }

    /// Size of the frame in bytes, always 4096.
    pub fn size(&self) -> (r: usize)
        ensures
            r == 4096,
    {
        4096
    }

    /// Address just past the last byte of the frame.
    pub fn end(&self) -> (r: u64)
        ensures
            r == self@ + 4096,
    {
        proof {
            use_type_invariant(self);
        }
        self.address + 4096
    }

    /// The half-open range of frames `[start, end)`.
    pub fn range(start: Frame, end: Frame) -> (r: Range)
        ensures
            r.start@ == start@,
            r.end@ == end@,
    {
        Range { start, end }
    }

    /// Index of the frame in the table of all frames.
    pub fn index(&self) -> (r: usize)
        requires
            self@ / 4096 <= usize::MAX,
        ensures
            r == self@ / 4096,
    {
        proof {
            use_type_invariant(self);
        }
        (self.address / 4096) as usize
    }
}

/// Counters over all frames, as reported by the frame allocator.
#[derive(Debug, Clone, Copy)]
pub struct Stats {
    /// Frames described by the frame table.
    pub total: usize,
    /// Frames that the memory map offers to the kernel (free or allocated).
    pub usable: usize,
    /// Frames with a positive reference count.
    pub allocated: usize,
    /// Frames that firmware or devices keep.
    pub reserved: usize,
    /// Allocated frames owned by the kernel.
    pub kernel: usize,
    /// Allocated frames lent out by their owner.
    pub borrowed: usize,
    /// Frames that must never be used.
    pub poisoned: usize,
}

/// All counters at zero.
pub open spec fn zero_stats() -> Stats {
    Stats { total: 0, usable: 0, allocated: 0, reserved: 0, kernel: 0, borrowed: 0, poisoned: 0 }
}

impl Stats {
    /// All counters at zero.
    pub fn new() -> (r: Stats)
        ensures
            r == zero_stats(),
    {
        Stats { total: 0, usable: 0, allocated: 0, reserved: 0, kernel: 0, borrowed: 0, poisoned: 0 }
    }
}

/// A half-open range of frames: `start` is included, `end` is not.
#[derive(Debug, Clone, Copy)]
pub struct Range {
    pub start: Frame,
    pub end: Frame,
}

impl Range {
    pub fn new(start: Frame, end: Frame) -> (r: Range)
        ensures
            r.start@ == start@,
            r.end@ == end@,
    {
        Range { start, end }
    }

    /// Whether the physical `address` lies in the range.
    pub fn contains_address(&self, address: u64) -> (r: bool)
        ensures
            r == (self.start@ <= address && address < self.end@),
    {
        address >= self.start.start() && address < self.end.start()
    }

    /// Whether `frame` is one of the frames of the range.
    pub fn contains(&self, frame: Frame) -> (r: bool)
        ensures
            r == (self.start@ <= frame@ && frame@ < self.end@),
    {
        frame.start() >= self.start.start() && frame.start() < self.end.start()
    }

    /// Number of frames in the range.
    pub fn count(&self) -> (r: usize)
        requires
            self.start@ <= self.end@,
            (self.end@ - self.start@) / 4096 <= usize::MAX,
        ensures
            r == (self.end@ - self.start@) / 4096,
    {
        ((self.end.start() - self.start.start()) / 4096) as usize
    }

    /// Number of frames in the range.
    pub fn len(&self) -> (r: usize)
        requires
            self.start@ <= self.end@,
            (self.end@ - self.start@) / 4096 <= usize::MAX,
        ensures
            r == (self.end@ - self.start@) / 4096,
    {
        self.count()
    }

    /// Whether the range holds no frame.
    pub fn is_empty(&self) -> (r: bool)
        ensures
            r == (self.start@ >= self.end@),
    {
        self.start.start() >= self.end.start()
    }
}

/// Index of the frame that contains the physical `address`.
pub fn index(address: u64) -> (r: usize)
    requires
        address < MAX_PHYSICAL,
        address / 4096 <= usize::MAX,
    ensures
        r == address / 4096,
{
    (address / 4096) as usize
}

} // verus!
