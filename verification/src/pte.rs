//! Page-table entries.
//!
//! An entry is one 64-bit word: a flag set in the low bits plus the base
//! address of the child frame (or of the mapped frame, at the leaf) in bits
//! 12 to 51. An entry whose present flag is clear is unused.

use vstd::prelude::*;
use crate::addr::page_aligned;

verus! {

/// The mapping is installed.
pub const FLAG_PRESENT: u64 = 1;

/// The mapped region may be written.
pub const FLAG_WRITABLE: u64 = 2;

/// The mapped region is reachable from user mode.
pub const FLAG_USER: u64 = 4;

/// The entry maps a huge region (1 GiB at level 3, 2 MiB at level 2)
/// instead of pointing at a child table.
pub const FLAG_HUGE: u64 = 0x80;

/// The bits of an entry that carry the child or mapped frame base.
pub const ENTRY_ADDR_MASK: u64 = 0x000f_ffff_ffff_f000;

/// The bits that carry the mapped base of a 2 MiB huge entry.
pub const L2_HUGE_ADDR_MASK: u64 = 0x000f_ffff_ffe0_0000;

/// The bits that carry the mapped base of a 1 GiB huge entry.
pub const L3_HUGE_ADDR_MASK: u64 = 0x000f_ffff_c000_0000;

/// The low twelve bits, where the architectural flags of a leaf live.
pub const FLAGS_MASK: u64 = 0xfff;

/// Whether an entry is marked present.
pub open spec fn entry_present(e: u64) -> bool {
    e & FLAG_PRESENT == FLAG_PRESENT
}

/// Whether an entry is marked huge.
pub open spec fn entry_huge(e: u64) -> bool {
    e & FLAG_HUGE == FLAG_HUGE
}

/// The frame base an entry carries.
pub open spec fn entry_addr(e: u64) -> u64 {
    e & ENTRY_ADDR_MASK
}

/// A flag set fits in the low twelve bits.
pub open spec fn flags_wf(flags: u64) -> bool {
    flags & FLAGS_MASK == flags
}

/// Whether an entry is marked present, as executable code.
pub fn is_present(e: u64) -> (r: bool)
    ensures
        r == entry_present(e),
{
    e & FLAG_PRESENT == FLAG_PRESENT
}

/// Whether an entry is marked huge, as executable code.
pub fn is_huge(e: u64) -> (r: bool)
    ensures
        r == entry_huge(e),
{
    e & FLAG_HUGE == FLAG_HUGE
}

/// The frame base an entry carries, as executable code.
pub fn addr_of_entry(e: u64) -> (r: u64)
    ensures
        r == entry_addr(e),
{
    e & ENTRY_ADDR_MASK
}

/// An entry built from an aligned frame base and a twelve-bit flag set
/// carries exactly that base and those flags; the unused entry is zero.
pub proof fn lemma_entry_fields(base: u64, flags: u64)
    requires
        page_aligned(base),
        base < 0x10_0000_0000_0000,
        flags_wf(flags),
    ensures
        entry_addr(base | flags) == base,
        entry_present(base | flags) == (flags & FLAG_PRESENT == FLAG_PRESENT),
        entry_huge(base | flags) == (flags & FLAG_HUGE == FLAG_HUGE),
        !entry_present(0),
        entry_addr(base | flags) & 0xfff == 0,
        entry_addr(base | flags) < 0x10_0000_0000_0000,
{
    assert(base & 0xfff == 0 && base < 0x10_0000_0000_0000 && flags & 0xfff == flags ==> {
        &&& (base | flags) & 0x000f_ffff_ffff_f000 == base
        &&& ((base | flags) & 1 == 1) == (flags & 1 == 1)
        &&& ((base | flags) & 0x80 == 0x80) == (flags & 0x80 == 0x80)
    }) by (bit_vector);
    assert(0u64 & 1 == 0) by (bit_vector);
}

/// Builds the entry `base | flags`.
pub fn make_entry(base: u64, flags: u64) -> (r: u64)
    requires
        page_aligned(base),
        base < 0x10_0000_0000_0000,
        flags_wf(flags),
    ensures
        r == (base | flags),
        entry_addr(r) == base,
        entry_present(r) == (flags & FLAG_PRESENT == FLAG_PRESENT),
        entry_huge(r) == (flags & FLAG_HUGE == FLAG_HUGE),
{
    proof {
        lemma_entry_fields(base, flags);
    }
    base | flags
}

} // verus!
