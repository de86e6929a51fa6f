//! The firmware memory map delivered by the bootloader.
//!
//! The map is an ordered sequence of physical regions, each with a base,
//! a length and a kind. Regions are disjoint and sorted by base; bases and
//! lengths are 4 KiB-aligned and the map stays inside the physical space.

use vstd::prelude::*;
use crate::addr::{page_aligned, MAX_PHYS_ADDR};

verus! {

/// The kind of a memory region, by the firmware convention.
#[derive(Clone, Copy, PartialEq, Eq, Structural, Debug)]
pub enum RegionKind {
    /// Conventional RAM not in use: the frame allocator may draw from it.
    Usable,
    /// Reserved by the firmware.
    Reserved,
    /// In use by the kernel or the bootloader at entry.
    InUse,
    /// Used by the bootloader, reclaimable later; not drawn from here.
    BootloaderReclaimable,
}

/// One region of the firmware memory map.
#[derive(Clone, Copy, PartialEq, Eq, Structural, Debug)]
pub struct MemoryRegion {
    pub base: u64,
    pub length: u64,
    pub kind: RegionKind,
}

/// A well-formed region: aligned base and length, inside the physical space.
pub open spec fn region_wf(r: MemoryRegion) -> bool {
    &&& page_aligned(r.base)
    &&& page_aligned(r.length)
    &&& r.base + r.length <= MAX_PHYS_ADDR
}

/// A well-formed memory map: well-formed regions, disjoint and sorted by
/// base (every earlier region ends at or before a later one begins).
pub open spec fn memory_map_wf(rs: Seq<MemoryRegion>) -> bool {
    &&& forall|i: int| 0 <= i < rs.len() ==> region_wf(#[trigger] rs[i])
    &&& forall|i: int, j: int| #![trigger rs[i], rs[j]] 0 <= i < j < rs.len()
        ==> rs[i].base + rs[i].length <= rs[j].base
}

/// A prefix of a well-formed memory map is well-formed.
pub proof fn lemma_memory_map_wf_prefix(rs: Seq<MemoryRegion>, n: int)
    requires
        memory_map_wf(rs),
        0 <= n <= rs.len(),
    ensures
        memory_map_wf(rs.take(n)),
{
    assert forall|i: int| 0 <= i < n implies region_wf(#[trigger] rs.take(n)[i]) by {
        assert(rs.take(n)[i] == rs[i]);
    }
    assert forall|i: int, j: int| #![trigger rs.take(n)[i], rs.take(n)[j]] 0 <= i < j < n
        implies rs.take(n)[i].base + rs.take(n)[i].length <= rs.take(n)[j].base by {
        assert(rs.take(n)[i] == rs[i] && rs.take(n)[j] == rs[j]);
    }
}

/// Checks well-formedness of a memory map, as executable code. Only
/// adjacent regions are compared; sortedness of all pairs follows.
pub fn check_memory_map(rs: &Vec<MemoryRegion>) -> (r: bool)
    ensures
        r == memory_map_wf(rs@),
{
    let n = rs.len();
    if n == 0 {
        return true;
    }
    let first = rs[0];
    if !(first.base & 0xfff == 0 && first.length & 0xfff == 0 && first.base <= MAX_PHYS_ADDR
        && MAX_PHYS_ADDR - first.base >= first.length) {
        return false;
    }
    let mut i: usize = 1;
    while i < n
        invariant
            1 <= i <= n,
            n == rs@.len(),
            forall|j: int| 0 <= j < i ==> region_wf(#[trigger] rs@[j]),
            forall|j: int, k: int| #![trigger rs@[j], rs@[k]] 0 <= j < k < i
                ==> rs@[j].base + rs@[j].length <= rs@[k].base,
            forall|j: int| 0 <= j < i ==> (#[trigger] rs@[j]).base + rs@[j].length
                <= rs@[i - 1].base + rs@[i - 1].length,
        decreases n - i,
    {
        let r = rs[i];
        if !(r.base & 0xfff == 0 && r.length & 0xfff == 0 && r.base <= MAX_PHYS_ADDR
            && MAX_PHYS_ADDR - r.base >= r.length) {
            return false;
        }
        let prev = rs[i - 1];
        if !(prev.base + prev.length <= r.base) {
            return false;
        }
        i = i + 1;
    }
    true
}

} // verus!
