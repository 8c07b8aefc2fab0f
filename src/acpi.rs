use vstd::prelude::*;

use crate::frame::{Frame, MAX_PHYSICAL};
use crate::frame_alloc::{alloc_wf, no_free_frame, Allocator};
use crate::frame_state::State;
use crate::page_table::{kept, lemma_kept_trans, lemma_leaves_kept, PageTables};
use crate::paging::{
    MapError, PageEntry, ADDRESS_MASK, PAGE_NO_CACHE, PAGE_NO_EXECUTE, PAGE_PRESENT,
    PAGE_WRITABLE, PAGE_WRITE_THROUGH,
};
use crate::vmm::{best_fit, VirtualArea, VirtualRange, Vmalloc, VMM_NONE};

verus! {

/// Entry flags of a firmware table mapping: writable, not executable, not cached.
pub const ACPI_MAP_FLAGS: u64 = PAGE_PRESENT | PAGE_WRITABLE | PAGE_NO_EXECUTE | PAGE_NO_CACHE
    | PAGE_WRITE_THROUGH;

/// Bytes of whole pages that cover `size` bytes from `phys`, counted from the page of `phys`.
pub open spec fn covering_size(phys: u64, size: u64) -> int {
    (phys % 4096 + size + 4095) / 4096 * 4096
}

/// The `j`-th page of the last area that `v` handed out.
pub open spec fn last_area_page(v: Vmalloc, j: int) -> u64 {
    (v.used@.last().range.start + j * 4096) as u64
}

/// Maps the physical regions that firmware tables occupy.
#[derive(Debug, Clone, Copy)]
pub struct AcpiHandler {}

impl AcpiHandler {
    pub fn new() -> (r: AcpiHandler) {
        AcpiHandler {}
    }

    /// Maps the `size` bytes at physical address `phys` into a fresh vmalloc area: each page of
    /// the area maps the page of the region at the same offset. Returns the virtual address of
    /// `phys` and the bytes mapped from there. Fails with `OutOfMemory` when vmalloc has no
    /// room or a table frame is missing; the area then stays reserved.
    pub fn map_physical_region(
        &self,
        tables: &mut PageTables,
        alloc: &mut Allocator,
        state: &mut State,
        vmalloc: &mut Vmalloc,
        phys: u64,
        size: u64,
    ) -> (r: Result<(u64, u64), MapError>)
        requires
            old(tables).wf(),
            old(tables).owns_frames(old(state)@),
            alloc_wf(old(alloc).statistic, old(state)@),
            old(vmalloc).wf(),
            4096 <= phys,
            0 < size,
            phys + size <= MAX_PHYSICAL,
            covering_size(phys, size) <= usize::MAX,
        ensures
            final(tables).wf(),
            final(tables).owns_frames(final(state)@),
            alloc_wf(final(alloc).statistic, final(state)@),
            final(vmalloc).wf(),
            kept(*old(tables), *final(tables)),
            best_fit(old(vmalloc).free@, covering_size(phys, size)) < 0 ==> r == Err::<
                (u64, u64),
                MapError,
            >(MapError::OutOfMemory) && final(vmalloc).used@ == old(vmalloc).used@,
            r == Err::<(u64, u64), MapError>(MapError::OutOfMemory) ==> best_fit(
                old(vmalloc).free@,
                covering_size(phys, size),
            ) < 0 || no_free_frame(final(state)@),
            r == Err::<(u64, u64), MapError>(MapError::AlreadyMapped) ==> exists|j: int|
                0 <= j < covering_size(phys, size) / 4096 && (#[trigger] final(tables).leaf(
                    last_area_page(*final(vmalloc), j),
                )) is Some && final(tables).leaf(last_area_page(*final(vmalloc), j)) != Some(
                    PageEntry { bits: ((phys - phys % 4096 + j * 4096) as u64) | ACPI_MAP_FLAGS },
                ),
            r matches Ok(m) ==> {
                let n = covering_size(phys, size) / 4096;
                let first = phys - phys % 4096;
                let base = m.0 - phys % 4096;
                &&& final(vmalloc).used@ == old(vmalloc).used@.push(
                    VirtualArea {
                        range: VirtualRange { start: base as u64, end: (base + n * 4096) as u64 },
                        flags: VMM_NONE,
                    },
                )
                &&& m.1 == n * 4096 - phys % 4096
                &&& forall|j: int|
                    0 <= j < n ==> #[trigger] final(tables).leaf((base + j * 4096) as u64) == Some(
                        PageEntry { bits: ((first + j * 4096) as u64) | ACPI_MAP_FLAGS },
                    )
            },
    {
        let offset = phys % 4096;
        let first = phys - offset;
        let aligned_size = (offset + size + 4095) / 4096 * 4096;
        proof {
            assert(aligned_size % 4096 == 0 && aligned_size >= offset + size) by (nonlinear_arith)
                requires
                    aligned_size == (offset + size + 4095) / 4096 * 4096,
            ;
            assert(first % 4096 == 0);
            assert(ACPI_MAP_FLAGS & ADDRESS_MASK == 0 && ACPI_MAP_FLAGS & PAGE_PRESENT != 0)
                by (bit_vector);
        }
        proof {
            assert(crate::vmm::round_up(aligned_size as int) == aligned_size) by (nonlinear_arith)
                requires
                    aligned_size % 4096 == 0,
            ;
            assert(VMM_NONE & crate::vmm::VMM_ATOMIC == 0) by (bit_vector);
            assert(aligned_size == covering_size(phys, size));
            assert(aligned_size > 0);
        }
        let range = match vmalloc.allocate(aligned_size as usize, VMM_NONE) {
            Ok(r) => r,
            Err(e) => {
                proof {
                    assert(e == crate::vmm::AllocationError::OutOfMemory);
                    assert(best_fit(old(vmalloc).free@, covering_size(phys, size)) < 0);
                }
                return Err(MapError::OutOfMemory);
            },
        };
        let pages = aligned_size / 4096;
        proof {
            let last = vmalloc.used@.len() - 1;
            assert(vmalloc.used@[last].range == range);
            assert(crate::vmm::area_valid(vmalloc.used@[last]));
            assert(crate::vmm::round_up(aligned_size as int) == aligned_size) by (nonlinear_arith)
                requires
                    aligned_size % 4096 == 0,
            ;
            assert(VMM_NONE & (crate::vmm::VMM_MAP | crate::vmm::VMM_ZEROED) == VMM_NONE)
                by (bit_vector);
            let top = first + aligned_size;
            assert(top % 4096 == 0) by (nonlinear_arith)
                requires
                    top == first + aligned_size,
                    first % 4096 == 0,
                    aligned_size % 4096 == 0,
            ;
            assert(top <= MAX_PHYSICAL) by (nonlinear_arith)
                requires
                    top % 4096 == 0,
                    top < MAX_PHYSICAL + 4096,
                    MAX_PHYSICAL % 4096 == 0,
            ;
            assert(pages * 4096 == aligned_size);
            assert(first >= 4096) by (nonlinear_arith)
                requires
                    first == phys - phys % 4096,
                    phys >= 4096,
            ;
        }
        let mut j: u64 = 0;
        while j < pages
            invariant
                j <= pages,
                pages * 4096 == aligned_size,
                range.end == range.start + aligned_size,
                range.start % 4096 == 0,
                first % 4096 == 0,
                first + aligned_size <= MAX_PHYSICAL,
                first + aligned_size >= phys + size,
                phys + size <= MAX_PHYSICAL,
                vmalloc.wf(),
                vmalloc.used@ == old(vmalloc).used@.push(VirtualArea { range, flags: VMM_NONE }),
                first == phys - phys % 4096,
                aligned_size == covering_size(phys, size),
                ACPI_MAP_FLAGS & ADDRESS_MASK == 0,
                ACPI_MAP_FLAGS & PAGE_PRESENT != 0,
                first >= 4096,
                best_fit(old(vmalloc).free@, covering_size(phys, size)) >= 0,
                tables.wf(),
                tables.owns_frames(state@),
                alloc_wf(alloc.statistic, state@),
                kept(*old(tables), *tables),
                forall|q: int|
                    0 <= q < j ==> #[trigger] tables.leaf((range.start + q * 4096) as u64) == Some(
                        PageEntry { bits: ((first + q * 4096) as u64) | ACPI_MAP_FLAGS },
                    ),
            decreases pages - j,
        {
            let ghost before = *tables;
            let address = first + j * 4096;
            proof {
                assert(address < MAX_PHYSICAL) by (nonlinear_arith)
                    requires
                        address == first + j * 4096,
                        j < pages,
                        pages * 4096 == aligned_size,
                        first + aligned_size <= MAX_PHYSICAL,
                ;
                assert(address % 4096 == 0) by (nonlinear_arith)
                    requires
                        address == first + j * 4096,
                        first % 4096 == 0,
                ;
            }
            let page = range.start + j * 4096;
            match tables.map(alloc, state, page, Frame::new(address), ACPI_MAP_FLAGS) {
                Ok(()) => {},
                Err(MapError::AlreadyMapped) => {
                    let found = tables.leaf_entry(page);
                    let same = match found {
                        Some(e) => e.bits == address | ACPI_MAP_FLAGS,
                        None => false,
                    };
                    proof {
                        lemma_leaves_kept(before, *tables);
                    }
                    if !same {
                        proof {
                            lemma_kept_trans(*old(tables), before, *tables);
                            let last = vmalloc.used@.len() - 1;
                            assert(vmalloc.used@.last().range == range);
                            assert(last_area_page(*vmalloc, j as int) == page);
                            assert(tables.leaf(last_area_page(*vmalloc, j as int)) is Some);
                        }
                        return Err(MapError::AlreadyMapped);
                    }
                },
                Err(MapError::OutOfMemory) => {
                    proof {
                        lemma_kept_trans(*old(tables), before, *tables);
                    }
                    return Err(MapError::OutOfMemory);
                },
            }
            proof {
                lemma_kept_trans(*old(tables), before, *tables);
                lemma_leaves_kept(before, *tables);
                assert(tables.leaf(page) == Some(PageEntry { bits: address | ACPI_MAP_FLAGS }));
                assert forall|q: int| 0 <= q < j + 1 implies #[trigger] tables.leaf(
                    (range.start + q * 4096) as u64,
                ) == Some(PageEntry { bits: ((first + q * 4096) as u64) | ACPI_MAP_FLAGS }) by {
                    if q < j {
                        assert(before.leaf((range.start + q * 4096) as u64) is Some);
                    } else {
                        assert((range.start + q * 4096) as u64 == page);
                        assert(((first + q * 4096) as u64) == address);
                    }
                }
            }
            j = j + 1;
        }
        Ok((range.start + offset, aligned_size - offset))
    }
}

} // verus!
