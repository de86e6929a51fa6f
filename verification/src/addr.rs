//! Physical and virtual addresses, pages and frames.
//!
//! Virtual addresses are canonical: bits 48 to 63 repeat bit 47. Physical
//! addresses fit in 52 bits. Pages and frames are 4 KiB-aligned regions of
//! the virtual and the physical address space, named by their base address.

use vstd::prelude::*;

verus! {

/// Size of one page and of one frame, in bytes.
pub const PAGE_SIZE: u64 = 4096;

/// Exclusive upper bound of the physical address space (52 bits).
pub const MAX_PHYS_ADDR: u64 = 0x10_0000_0000_0000;

/// A virtual address is canonical when bits 48 to 63 equal bit 47.
pub open spec fn is_canonical(v: u64) -> bool {
    (v >> 47) == 0 || (v >> 47) == 0x1ffff
}

/// 4 KiB alignment, written over the low twelve bits.
pub open spec fn page_aligned(a: u64) -> bool {
    a & 0xfff == 0
}

/// Base of the page or frame that contains an address.
pub open spec fn page_base_of(a: u64) -> u64 {
    a & 0xffff_ffff_ffff_f000
}

/// Offset of an address inside its page or frame.
pub open spec fn page_offset_of(a: u64) -> u64 {
    a & 0xfff
}

/// Index of a virtual address into the level-1 table.
pub open spec fn l1_index(v: u64) -> usize {
    ((v >> 12) & 0x1ff) as usize
}

/// Index of a virtual address into the level-2 table.
pub open spec fn l2_index(v: u64) -> usize {
    ((v >> 21) & 0x1ff) as usize
}

/// Index of a virtual address into the level-3 table.
pub open spec fn l3_index(v: u64) -> usize {
    ((v >> 30) & 0x1ff) as usize
}

/// Index of a virtual address into the level-4 table.
pub open spec fn l4_index(v: u64) -> usize {
    ((v >> 39) & 0x1ff) as usize
}

/// The four table indices of any address are below 512, and its page offset
/// below 4096.
pub proof fn lemma_index_bounds(v: u64)
    ensures
        l1_index(v) < 512,
        l2_index(v) < 512,
        l3_index(v) < 512,
        l4_index(v) < 512,
        page_offset_of(v) < 4096,
{
    assert((v >> 12) & 0x1ff < 512) by (bit_vector);
    assert((v >> 21) & 0x1ff < 512) by (bit_vector);
    assert((v >> 30) & 0x1ff < 512) by (bit_vector);
    assert((v >> 39) & 0x1ff < 512) by (bit_vector);
    assert(v & 0xfff < 4096) by (bit_vector);
}

/// Index of a virtual address into the level-1 table, as executable code.
pub fn l1_index_of(v: u64) -> (r: usize)
    ensures
        r == l1_index(v),
        r < 512,
{
    proof {
        lemma_index_bounds(v);
    }
    ((v >> 12) & 0x1ff) as usize
}

/// Index of a virtual address into the level-2 table, as executable code.
pub fn l2_index_of(v: u64) -> (r: usize)
    ensures
        r == l2_index(v),
        r < 512,
{
    proof {
        lemma_index_bounds(v);
    }
    ((v >> 21) & 0x1ff) as usize
}

/// Index of a virtual address into the level-3 table, as executable code.
pub fn l3_index_of(v: u64) -> (r: usize)
    ensures
        r == l3_index(v),
        r < 512,
{
    proof {
        lemma_index_bounds(v);
    }
    ((v >> 30) & 0x1ff) as usize
}

/// Index of a virtual address into the level-4 table, as executable code.
pub fn l4_index_of(v: u64) -> (r: usize)
    ensures
        r == l4_index(v),
        r < 512,
{
    proof {
        lemma_index_bounds(v);
    }
    ((v >> 39) & 0x1ff) as usize
}

/// Two virtual addresses with the same page base split into the same four
/// table indices; the page base splits with offset zero.
pub proof fn lemma_same_page_same_indices(v: u64, w: u64)
    requires
        page_base_of(v) == page_base_of(w),
    ensures
        l4_index(v) == l4_index(w),
        l3_index(v) == l3_index(w),
        l2_index(v) == l2_index(w),
        l1_index(v) == l1_index(w),
{
    assert((v & 0xffff_ffff_ffff_f000) == (w & 0xffff_ffff_ffff_f000) ==> ((v >> 39) & 0x1ff)
        == ((w >> 39) & 0x1ff)) by (bit_vector);
    assert((v & 0xffff_ffff_ffff_f000) == (w & 0xffff_ffff_ffff_f000) ==> ((v >> 30) & 0x1ff)
        == ((w >> 30) & 0x1ff)) by (bit_vector);
    assert((v & 0xffff_ffff_ffff_f000) == (w & 0xffff_ffff_ffff_f000) ==> ((v >> 21) & 0x1ff)
        == ((w >> 21) & 0x1ff)) by (bit_vector);
    assert((v & 0xffff_ffff_ffff_f000) == (w & 0xffff_ffff_ffff_f000) ==> ((v >> 12) & 0x1ff)
        == ((w >> 12) & 0x1ff)) by (bit_vector);
}

/// The page base is aligned, is its own page base, and keeps canonicality.
pub proof fn lemma_page_base_props(v: u64)
    ensures
        page_aligned(page_base_of(v)),
        page_base_of(page_base_of(v)) == page_base_of(v),
        is_canonical(v) ==> is_canonical(page_base_of(v)),
        page_aligned(v) ==> page_base_of(v) == v,
        page_offset_of(page_base_of(v)) == 0,
{
    assert((v & 0xffff_ffff_ffff_f000) & 0xfff == 0) by (bit_vector);
    assert(((v & 0xffff_ffff_ffff_f000) & 0xffff_ffff_ffff_f000) == (v
        & 0xffff_ffff_ffff_f000)) by (bit_vector);
    assert(((v & 0xffff_ffff_ffff_f000) >> 47) == (v >> 47)) by (bit_vector);
    assert(v & 0xfff == 0 ==> (v & 0xffff_ffff_ffff_f000) == v) by (bit_vector);
}

/// Every address of a page has that page's base as its page base.
pub proof fn lemma_page_base_within(b: u64, w: u64)
    requires
        page_aligned(b),
        b <= w,
        w < b + 4096,
    ensures
        page_base_of(w) == b,
{
    assert(b & 0xfff == 0 && b <= w && ((w - b) as u64) < 4096 ==> (w & 0xffff_ffff_ffff_f000)
        == b) by (bit_vector);
}

/// A 64-bit virtual address.
#[derive(Clone, Copy, PartialEq, Eq, Structural, Debug)]
pub struct VirtAddr {
    pub u: u64,
}

/// A 64-bit physical address.
#[derive(Clone, Copy, PartialEq, Eq, Structural, Debug)]
pub struct PhysAddr {
    pub u: u64,
}

impl VirtAddr {
    /// The canonical virtual address with the given bits. Non-canonical
    /// inputs are excluded: the architecture has no such address.
    pub fn new(u: u64) -> (r: VirtAddr)
        requires
            is_canonical(u),
        ensures
            r.u == u,
    {
        VirtAddr { u }
    }

    /// The virtual address with the given bits, or `None` when the bits are
    /// not canonical.
    pub fn try_new(u: u64) -> (r: Option<VirtAddr>)
        ensures
            r matches Some(a) ==> a.u == u && is_canonical(u),
            r is None <==> !is_canonical(u),
    {
        let high: u64 = u >> 47;
        if high == 0 || high == 0x1ffff {
            Some(VirtAddr { u })
        } else {
            None
        }
    }
}

impl PhysAddr {
    /// The physical address with the given bits; bits 52 to 63 must be zero.
    pub fn new(u: u64) -> (r: PhysAddr)
        requires
            u < MAX_PHYS_ADDR,
        ensures
            r.u == u,
    {
        PhysAddr { u }
    }
}

/// A 4 KiB-aligned virtual region, named by its base address.
#[derive(Clone, Copy, PartialEq, Eq, Structural, Debug)]
pub struct Page {
    pub base: VirtAddr,
}

/// A 4 KiB-aligned physical region, named by its base address.
#[derive(Clone, Copy, PartialEq, Eq, Structural, Debug)]
pub struct Frame {
    pub base: PhysAddr,
}

/// A well-formed page has an aligned base.
pub open spec fn page_wf(p: Page) -> bool {
    page_aligned(p.base.u)
}

/// A well-formed frame has an aligned base inside the physical space.
pub open spec fn frame_wf(f: Frame) -> bool {
    page_aligned(f.base.u) && f.base.u < MAX_PHYS_ADDR
}

impl Page {
    /// The page that contains a virtual address.
    pub fn containing_address(a: VirtAddr) -> (r: Page)
        ensures
            r.base.u == page_base_of(a.u),
            page_wf(r),
    {
        proof {
            lemma_page_base_props(a.u);
        }
        Page { base: VirtAddr { u: a.u & 0xffff_ffff_ffff_f000 } }
    }

    /// The base address of the page.
    pub fn start_address(&self) -> (r: VirtAddr)
        ensures
            r == self.base,
    {
        self.base
    }
}

impl Frame {
    /// The frame that contains a physical address.
    pub fn containing_address(a: PhysAddr) -> (r: Frame)
        requires
            a.u < MAX_PHYS_ADDR,
        ensures
            r.base.u == page_base_of(a.u),
            frame_wf(r),
    {
        proof {
            lemma_page_base_props(a.u);
            let au: u64 = a.u;
            assert(au < 0x10_0000_0000_0000 ==> (au & 0xffff_ffff_ffff_f000)
                < 0x10_0000_0000_0000) by (bit_vector);
        }
        Frame { base: PhysAddr { u: a.u & 0xffff_ffff_ffff_f000 } }
    }

    /// The base address of the frame.
    pub fn start_address(&self) -> (r: PhysAddr)
        ensures
            r == self.base,
    {
        self.base
    }
}

/// The physical-memory window: the virtual address that reaches a physical
/// address, at a fixed offset installed by the bootloader.
pub fn phys_to_virt(phys: PhysAddr, physical_memory_offset: VirtAddr) -> (r: VirtAddr)
    requires
        phys.u + physical_memory_offset.u <= u64::MAX,
    ensures
        r.u == phys.u + physical_memory_offset.u,
{
    VirtAddr { u: phys.u + physical_memory_offset.u }
}

} // verus!
