pub mod pmm;

use vstd::prelude::*;
use crate::memory::pmm::{MemoryMapEntry, StructPmm, MMAP_ENTRIES, MAX_PHYS};

verus! {

/// Sets up physical memory management from the firmware memory map.
pub fn init(mmap: [MemoryMapEntry; MMAP_ENTRIES]) -> (p: StructPmm)
    requires
        forall|i: int|
            0 <= i < MMAP_ENTRIES ==> (#[trigger] mmap@[i]).base + mmap@[i].length <= MAX_PHYS,
    ensures
        p.wf(),
        p.spec_mmap() == mmap@,
        p.spec_total_ram() == pmm::mmap_top(mmap@, MMAP_ENTRIES as int),
        p@ == seq![pmm::low_memory_run()],
{
    pmm::init(mmap)
}

} // verus!
