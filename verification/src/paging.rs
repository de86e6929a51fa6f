//! The page-table walker.
//!
//! A `Mapper` holds the physical-memory offset of the window and the frame
//! of the active level-4 table, and exposes the two operations of the
//! virtual-memory bring-up: translating a virtual address by walking the
//! four-level hierarchy, and installing a new leaf mapping, allocating
//! intermediate tables on the way down.
//!
//! `translate_spec` is the mathematical walk; the result of every
//! executable operation is stated against it.

use vstd::prelude::*;
use crate::addr::{
    VirtAddr, PhysAddr, Page, Frame, page_wf, frame_wf, page_base_of, page_offset_of,
    l1_index, l2_index, l3_index, l4_index, l1_index_of, l2_index_of, l3_index_of,
    l4_index_of, lemma_index_bounds, lemma_same_page_same_indices,
};
use crate::pte::{
    FLAG_PRESENT, FLAG_HUGE, L2_HUGE_ADDR_MASK, L3_HUGE_ADDR_MASK, entry_present, entry_huge,
    entry_addr, flags_wf, is_present, is_huge, addr_of_entry, make_entry, lemma_entry_fields,
};
use crate::phys::{PhysMemory, zero_frame, frames_sized};
use crate::frames::{BootInfoFrameAllocator, unallocated_frames_absent, usable_frames,
    lemma_usable_frames_distinct};

verus! {

/// Why a mapping could not be installed.
#[derive(Clone, Copy, PartialEq, Eq, Structural, Debug)]
pub enum MapError {
    /// The frame allocator ran out while an intermediate table was needed.
    FrameAllocationFailed,
    /// The leaf slot already holds a mapping, to the carried frame.
    AlreadyMapped(Frame),
    /// An intermediate slot on the path carries a huge mapping.
    ParentHuge,
}

/// The unused entry is neither present nor huge.
pub proof fn lemma_zero_entry()
    ensures
        !entry_present(0),
        !entry_huge(0),
{
    assert(0u64 & 1 != 1) by (bit_vector);
    assert(0u64 & 0x80 != 0x80) by (bit_vector);
}

/// The entry a walk reads at slot `i` of the table at `t`: the stored word
/// when the table exists, the unused entry otherwise.
pub open spec fn eff_entry(mem: Map<u64, Seq<u64>>, t: u64, i: int) -> u64 {
    if mem.contains_key(t) {
        mem[t][i]
    } else {
        0
    }
}

/// The four-level hardware walk of a virtual address, from the level-4
/// table at `l4`: the physical address the address translates to, or `None`
/// when an entry on the path is absent. A huge entry at level 3 or 2 maps
/// the address at 1 GiB or 2 MiB granularity.
pub open spec fn translate_spec(mem: Map<u64, Seq<u64>>, l4: u64, v: u64) -> Option<u64> {
    let e4 = eff_entry(mem, l4, l4_index(v) as int);
    if !entry_present(e4) || entry_huge(e4) {
        None
    } else {
        let e3 = eff_entry(mem, entry_addr(e4), l3_index(v) as int);
        if !entry_present(e3) {
            None
        } else if entry_huge(e3) {
            Some((e3 & L3_HUGE_ADDR_MASK) | (v & 0x3fff_ffff))
        } else {
            let e2 = eff_entry(mem, entry_addr(e3), l2_index(v) as int);
            if !entry_present(e2) {
                None
            } else if entry_huge(e2) {
                Some((e2 & L2_HUGE_ADDR_MASK) | (v & 0x1f_ffff))
            } else {
                let e1 = eff_entry(mem, entry_addr(e2), l1_index(v) as int);
                if !entry_present(e1) {
                    None
                } else {
                    Some(entry_addr(e1) | page_offset_of(v))
                }
            }
        }
    }
}

/// The entry that decides a virtual address's translation: the level-1
/// entry, or the huge level-3 or level-2 entry, of the same walk as
/// `translate_spec`; `None` where the walk finds an absent entry. Its flag
/// bits say how the address is mapped (writable, user-accessible).
pub open spec fn leaf_entry_spec(mem: Map<u64, Seq<u64>>, l4: u64, v: u64) -> Option<u64> {
    let e4 = eff_entry(mem, l4, l4_index(v) as int);
    if !entry_present(e4) || entry_huge(e4) {
        None
    } else {
        let e3 = eff_entry(mem, entry_addr(e4), l3_index(v) as int);
        if !entry_present(e3) {
            None
        } else if entry_huge(e3) {
            Some(e3)
        } else {
            let e2 = eff_entry(mem, entry_addr(e3), l2_index(v) as int);
            if !entry_present(e2) {
                None
            } else if entry_huge(e2) {
                Some(e2)
            } else {
                let e1 = eff_entry(mem, entry_addr(e2), l1_index(v) as int);
                if !entry_present(e1) {
                    None
                } else {
                    Some(e1)
                }
            }
        }
    }
}

/// No present, non-huge entry anywhere carries this frame base: nothing
/// walks into the frame, neither as a child table nor as a mapped leaf.
/// Closed tables reference only existing frames, so any frame outside
/// memory is unreferenced.
pub open spec fn frame_unreferenced(mem: Map<u64, Seq<u64>>, f: u64) -> bool {
    forall|t: u64, i: int|
        mem.contains_key(t) && 0 <= i < 512 && entry_present(#[trigger] mem[t][i])
            && !entry_huge(mem[t][i]) ==> entry_addr(mem[t][i]) != f
}

/// Closed tables: every present, non-huge entry of every existing frame
/// points at an existing frame. The walker relies on it to find every child
/// table it descends into.
pub open spec fn tables_closed(mem: Map<u64, Seq<u64>>) -> bool {
    forall|t: u64, i: int|
        mem.contains_key(t) && 0 <= i < 512 && entry_present(#[trigger] mem[t][i])
            && !entry_huge(mem[t][i]) ==> mem.contains_key(entry_addr(mem[t][i]))
}

/// Bringing a fresh frame with no present entries into memory changes no
/// translation at all: a walk never descended into it before (the slot read
/// as unused), and descending into it now still ends at an absent entry.
pub proof fn lemma_translate_after_fresh_frame(
    mem: Map<u64, Seq<u64>>,
    l4: u64,
    f: u64,
    contents: Seq<u64>,
)
    requires
        !mem.contains_key(f),
        contents.len() == 512,
        forall|i: int| 0 <= i < 512 ==> !entry_present(#[trigger] contents[i]),
    ensures
        forall|v: u64| #[trigger] translate_spec(mem.insert(f, contents), l4, v)
            == translate_spec(mem, l4, v),
        forall|v: u64| #[trigger] leaf_entry_spec(mem.insert(f, contents), l4, v)
            == leaf_entry_spec(mem, l4, v),
        forall|v: u64, a: nat| #[trigger] map_outcome(mem.insert(f, contents), l4, v, a)
            == map_outcome(mem, l4, v, a),
{
    let m2 = mem.insert(f, contents);
    assert forall|v: u64| #[trigger] translate_spec(m2, l4, v) == translate_spec(mem, l4, v) by {
        lemma_fresh_frame_one_walk(mem, l4, f, contents, v);
    }
    assert forall|v: u64| #[trigger] leaf_entry_spec(m2, l4, v) == leaf_entry_spec(mem, l4, v) by {
        lemma_fresh_frame_one_walk(mem, l4, f, contents, v);
    }
    assert forall|v: u64, a: nat| #[trigger] map_outcome(m2, l4, v, a)
        == map_outcome(mem, l4, v, a) by {
        lemma_fresh_frame_one_walk(mem, l4, f, contents, v);
    }
}

/// The walk of one address reads the same entries before and after a fresh
/// frame with no present entries comes into memory.
proof fn lemma_fresh_frame_one_walk(
    mem: Map<u64, Seq<u64>>,
    l4: u64,
    f: u64,
    contents: Seq<u64>,
    v: u64,
)
    requires
        !mem.contains_key(f),
        contents.len() == 512,
        forall|i: int| 0 <= i < 512 ==> !entry_present(#[trigger] contents[i]),
    ensures
        translate_spec(mem.insert(f, contents), l4, v) == translate_spec(mem, l4, v),
        leaf_entry_spec(mem.insert(f, contents), l4, v) == leaf_entry_spec(mem, l4, v),
        forall|a: nat| #[trigger] map_outcome(mem.insert(f, contents), l4, v, a)
            == map_outcome(mem, l4, v, a),
{
    let m2 = mem.insert(f, contents);
    {
        lemma_zero_entry();
        lemma_index_bounds(v);
        let i4 = l4_index(v) as int;
        let i3 = l3_index(v) as int;
        let i2 = l2_index(v) as int;
        let i1 = l1_index(v) as int;
        if l4 == f {
            assert(eff_entry(mem, l4, i4) == 0);
            assert(!entry_present(eff_entry(m2, l4, i4)));
        } else {
            assert(eff_entry(m2, l4, i4) == eff_entry(mem, l4, i4));
            let e4 = eff_entry(mem, l4, i4);
            if entry_present(e4) && !entry_huge(e4) {
                let t3 = entry_addr(e4);
                if t3 == f {
                    assert(eff_entry(mem, t3, i3) == 0);
                    assert(!entry_present(eff_entry(m2, t3, i3)));
                } else {
                    assert(eff_entry(m2, t3, i3) == eff_entry(mem, t3, i3));
                    let e3 = eff_entry(mem, t3, i3);
                    if entry_present(e3) && !entry_huge(e3) {
                        let t2 = entry_addr(e3);
                        if t2 == f {
                            assert(eff_entry(mem, t2, i2) == 0);
                            assert(!entry_present(eff_entry(m2, t2, i2)));
                        } else {
                            assert(eff_entry(m2, t2, i2) == eff_entry(mem, t2, i2));
                            let e2 = eff_entry(mem, t2, i2);
                            if entry_present(e2) && !entry_huge(e2) {
                                let t1 = entry_addr(e2);
                                if t1 == f {
                                    assert(eff_entry(mem, t1, i1) == 0);
                                    assert(!entry_present(eff_entry(m2, t1, i1)));
                                } else {
                                    assert(eff_entry(m2, t1, i1) == eff_entry(mem, t1, i1));
                                }
                            }
                        }
                    }
                }
            }
        }
    }
}

/// Writing into a slot that was not present preserves every translation
/// that succeeded: a successful walk never read that slot.
pub proof fn lemma_translate_after_absent_slot_write(
    mem: Map<u64, Seq<u64>>,
    l4: u64,
    t: u64,
    i: int,
    e: u64,
)
    requires
        frames_sized(mem),
        mem.contains_key(t),
        0 <= i < 512,
        !entry_present(mem[t][i]),
    ensures
        forall|v: u64| translate_spec(mem, l4, v) is Some
            ==> #[trigger] translate_spec(mem.insert(t, mem[t].update(i, e)), l4, v)
                == translate_spec(mem, l4, v),
        forall|v: u64| translate_spec(mem, l4, v) is Some
            ==> #[trigger] leaf_entry_spec(mem.insert(t, mem[t].update(i, e)), l4, v)
                == leaf_entry_spec(mem, l4, v),
{
    let m2 = mem.insert(t, mem[t].update(i, e));
    assert forall|v: u64| translate_spec(mem, l4, v) is Some
        implies #[trigger] translate_spec(m2, l4, v) == translate_spec(mem, l4, v) by {
        lemma_absent_slot_one_walk(mem, l4, t, i, e, v);
    }
    assert forall|v: u64| translate_spec(mem, l4, v) is Some
        implies #[trigger] leaf_entry_spec(m2, l4, v) == leaf_entry_spec(mem, l4, v) by {
        lemma_absent_slot_one_walk(mem, l4, t, i, e, v);
    }
}

/// The successful walk of one address reads the same entries before and
/// after an unused slot is written.
proof fn lemma_absent_slot_one_walk(
    mem: Map<u64, Seq<u64>>,
    l4: u64,
    t: u64,
    i: int,
    e: u64,
    v: u64,
)
    requires
        frames_sized(mem),
        mem.contains_key(t),
        0 <= i < 512,
        !entry_present(mem[t][i]),
        translate_spec(mem, l4, v) is Some,
    ensures
        translate_spec(mem.insert(t, mem[t].update(i, e)), l4, v) == translate_spec(mem, l4, v),
        leaf_entry_spec(mem.insert(t, mem[t].update(i, e)), l4, v) == leaf_entry_spec(mem, l4, v),
{
    let m2 = mem.insert(t, mem[t].update(i, e));
    {
        lemma_zero_entry();
        lemma_index_bounds(v);
        let i4 = l4_index(v) as int;
        let i3 = l3_index(v) as int;
        let i2 = l2_index(v) as int;
        let i1 = l1_index(v) as int;
        let e4 = eff_entry(mem, l4, i4);
        assert(entry_present(e4) && !entry_huge(e4));
        assert(!(l4 == t && i4 == i));
        assert(eff_entry(m2, l4, i4) == e4);
        let t3 = entry_addr(e4);
        let e3 = eff_entry(mem, t3, i3);
        assert(entry_present(e3));
        assert(!(t3 == t && i3 == i));
        assert(eff_entry(m2, t3, i3) == e3);
        if !entry_huge(e3) {
            let t2 = entry_addr(e3);
            let e2 = eff_entry(mem, t2, i2);
            assert(entry_present(e2));
            assert(!(t2 == t && i2 == i));
            assert(eff_entry(m2, t2, i2) == e2);
            if !entry_huge(e2) {
                let t1 = entry_addr(e2);
                let e1 = eff_entry(mem, t1, i1);
                assert(entry_present(e1));
                assert(!(t1 == t && i1 == i));
                assert(eff_entry(m2, t1, i1) == e1);
            }
        }
    }
}

/// Closed tables stay closed when a fresh frame with no present entries
/// comes into memory.
pub proof fn lemma_closed_after_fresh_frame(mem: Map<u64, Seq<u64>>, f: u64, contents: Seq<u64>)
    requires
        tables_closed(mem),
        !mem.contains_key(f),
        forall|i: int| 0 <= i < 512 ==> !entry_present(#[trigger] contents[i]),
    ensures
        tables_closed(mem.insert(f, contents)),
{
    let m2 = mem.insert(f, contents);
    assert forall|t: u64, i: int|
        m2.contains_key(t) && 0 <= i < 512 && entry_present(#[trigger] m2[t][i])
            && !entry_huge(m2[t][i]) implies m2.contains_key(entry_addr(m2[t][i])) by {
        if t == f {
            assert(!entry_present(m2[t][i]));
        } else {
            assert(m2[t][i] == mem[t][i]);
        }
    }
}

/// Closed tables stay closed when a slot is written with an entry that is
/// absent, huge, or points at an existing frame.
pub proof fn lemma_closed_after_slot_write(mem: Map<u64, Seq<u64>>, t: u64, i: int, e: u64)
    requires
        frames_sized(mem),
        tables_closed(mem),
        mem.contains_key(t),
        0 <= i < 512,
        entry_present(e) && !entry_huge(e) ==> mem.contains_key(entry_addr(e)),
    ensures
        tables_closed(mem.insert(t, mem[t].update(i, e))),
{
    let m2 = mem.insert(t, mem[t].update(i, e));
    assert forall|u: u64, j: int|
        m2.contains_key(u) && 0 <= j < 512 && entry_present(#[trigger] m2[u][j])
            && !entry_huge(m2[u][j]) implies m2.contains_key(entry_addr(m2[u][j])) by {
        if u == t && j == i {
            assert(m2[u][j] == e);
        } else if u == t {
            assert(m2[u][j] == mem[u][j]);
        } else {
            assert(m2[u][j] == mem[u][j]);
        }
    }
}

/// What `map` returns, decided over the state before the call: the first
/// huge entry on the path wins, then an existing leaf mapping, then frame
/// exhaustion against the number of intermediate tables still missing; with
/// none of those, the mapping is installed. `Ok` carries how many fresh
/// frames the walk consumes for intermediate tables.
pub open spec fn map_outcome(mem: Map<u64, Seq<u64>>, l4: u64, v: u64, avail: nat) -> Result<
    nat,
    MapError,
> {
    let e4 = eff_entry(mem, l4, l4_index(v) as int);
    if entry_present(e4) && entry_huge(e4) {
        Err(MapError::ParentHuge)
    } else if entry_present(e4) {
        let e3 = eff_entry(mem, entry_addr(e4), l3_index(v) as int);
        if entry_present(e3) && entry_huge(e3) {
            Err(MapError::ParentHuge)
        } else if entry_present(e3) {
            let e2 = eff_entry(mem, entry_addr(e3), l2_index(v) as int);
            if entry_present(e2) && entry_huge(e2) {
                Err(MapError::ParentHuge)
            } else if entry_present(e2) {
                let e1 = eff_entry(mem, entry_addr(e2), l1_index(v) as int);
                if entry_present(e1) {
                    Err(MapError::AlreadyMapped(Frame { base: PhysAddr { u: entry_addr(e1) } }))
                } else {
                    Ok(0)
                }
            } else if avail >= 1 {
                Ok(1)
            } else {
                Err(MapError::FrameAllocationFailed)
            }
        } else if avail >= 2 {
            Ok(2)
        } else {
            Err(MapError::FrameAllocationFailed)
        }
    } else if avail >= 3 {
        Ok(3)
    } else {
        Err(MapError::FrameAllocationFailed)
    }
}

/// An outcome that is success with few spare frames stays the same success
/// with more: the walk and the frames it needs do not depend on the supply.
pub proof fn lemma_outcome_more_frames(mem: Map<u64, Seq<u64>>, l4: u64, v: u64, a1: nat, a2: nat)
    requires
        a1 <= a2,
        map_outcome(mem, l4, v, a1) is Ok,
    ensures
        map_outcome(mem, l4, v, a2) == map_outcome(mem, l4, v, a1),
{
}

/// Walks one level down from slot `idx` of the table at `t`: returns the
/// child table, creating it from a fresh zeroed frame when the slot is
/// unused. A huge slot stops the walk; intermediate tables are installed
/// present and writable.
fn ensure_child(
    mem: &mut PhysMemory,
    alloc: &mut BootInfoFrameAllocator,
    Ghost(l4): Ghost<u64>,
    t: u64,
    idx: usize,
) -> (r: Result<u64, MapError>)
    requires
        old(mem).wf(),
        old(alloc).wf(),
        tables_closed(old(mem)@),
        unallocated_frames_absent(*old(alloc), old(mem)@),
        old(mem)@.contains_key(t),
        idx < 512,
    ensures
        final(mem).wf(),
        final(alloc).wf(),
        tables_closed(final(mem)@),
        unallocated_frames_absent(*final(alloc), final(mem)@),
        final(alloc).regions() == old(alloc).regions(),
        forall|u: u64| old(mem)@.contains_key(u) ==> final(mem)@.contains_key(u),
        forall|v: u64| translate_spec(old(mem)@, l4, v) is Some
            ==> #[trigger] translate_spec(final(mem)@, l4, v) == translate_spec(old(mem)@, l4, v),
        forall|v: u64| translate_spec(old(mem)@, l4, v) is Some
            ==> #[trigger] leaf_entry_spec(final(mem)@, l4, v) == leaf_entry_spec(old(mem)@, l4, v),
        forall|u: u64, j: int| 0 <= j < 512 && j != idx as int
            ==> #[trigger] eff_entry(final(mem)@, u, j) == eff_entry(old(mem)@, u, j),
        ({
            let e = old(mem)@[t][idx as int];
            if entry_present(e) && entry_huge(e) {
                &&& r == Err::<u64, MapError>(MapError::ParentHuge)
                &&& final(mem)@ == old(mem)@
                &&& *final(alloc) == *old(alloc)
            } else if entry_present(e) {
                &&& r == Ok::<u64, MapError>(entry_addr(e))
                &&& final(mem)@ == old(mem)@
                &&& *final(alloc) == *old(alloc)
            } else if old(alloc).remaining() == 0 {
                &&& r == Err::<u64, MapError>(MapError::FrameAllocationFailed)
                &&& final(mem)@ == old(mem)@
                &&& *final(alloc) == *old(alloc)
            } else {
                r matches Ok(c) && {
                    &&& !old(mem)@.contains_key(c)
                    &&& final(mem)@ == old(mem)@.insert(c, zero_frame()).insert(
                        t,
                        old(mem)@[t].update(idx as int, c | 3u64),
                    )
                    &&& final(mem)@[c] == zero_frame()
                    &&& final(alloc).cursor() == old(alloc).cursor() + 1
                }
            }
        }),
        r matches Ok(c) ==> {
            &&& final(mem)@.contains_key(c)
            &&& entry_present(eff_entry(final(mem)@, t, idx as int))
            &&& !entry_huge(eff_entry(final(mem)@, t, idx as int))
            &&& entry_addr(eff_entry(final(mem)@, t, idx as int)) == c
        },
{
    let e = mem.read_word(t, idx);
    if is_present(e) && is_huge(e) {
        return Err(MapError::ParentHuge);
    }
    if is_present(e) {
        let c = addr_of_entry(e);
        proof {
            assert(old(mem)@.contains_key(entry_addr(old(mem)@[t][idx as int])));
        }
        return Ok(c);
    }
    match alloc.allocate() {
        Err(_) => Err(MapError::FrameAllocationFailed),
        Ok(f) => {
            let c = f.base.u;
            proof {
                crate::frames::lemma_grant_keeps_unallocated(
                    *old(alloc),
                    *alloc,
                    old(mem)@,
                    c,
                    zero_frame(),
                );
            }
            mem.insert_zeroed_frame(c);
            let ghost mid = mem@;
            proof {
                lemma_zero_entry();
                assert(forall|i: int| 0 <= i < 512 ==> !entry_present(
                    #[trigger] zero_frame()[i],
                ));
                lemma_translate_after_fresh_frame(old(mem)@, l4, c, zero_frame());
                lemma_closed_after_fresh_frame(old(mem)@, c, zero_frame());
                mem.lemma_frames_sized();
                assert(3u64 & 0xfff == 3 && 3u64 & 1 == 1 && 3u64 & 0x80 != 0x80) by (bit_vector);
            }
            let entry = make_entry(c, 3);
            mem.write_word(t, idx, entry);
            proof {
                assert(mid[t] == old(mem)@[t]);
                assert(!entry_present(mid[t][idx as int]));
                lemma_translate_after_absent_slot_write(mid, l4, t, idx as int, entry);
                lemma_closed_after_slot_write(mid, t, idx as int, entry);
                assert forall|v: u64| translate_spec(old(mem)@, l4, v) is Some
                    implies #[trigger] translate_spec(mem@, l4, v)
                    == translate_spec(old(mem)@, l4, v) by {
                    assert(translate_spec(mid, l4, v) == translate_spec(old(mem)@, l4, v));
                }
                assert forall|v: u64| translate_spec(old(mem)@, l4, v) is Some
                    implies #[trigger] leaf_entry_spec(mem@, l4, v)
                    == leaf_entry_spec(old(mem)@, l4, v) by {
                    assert(translate_spec(mid, l4, v) == translate_spec(old(mem)@, l4, v));
                    assert(leaf_entry_spec(mid, l4, v) == leaf_entry_spec(old(mem)@, l4, v));
                }
                assert(mem@[c] == zero_frame());
                assert(eff_entry(mem@, t, idx as int) == entry);
                old(mem).lemma_frames_sized();
                assert forall|u: u64, j: int| 0 <= j < 512 && j != idx as int
                    implies #[trigger] eff_entry(mem@, u, j) == eff_entry(old(mem)@, u, j) by {
                    if u == c {
                        assert(eff_entry(old(mem)@, u, j) == 0);
                        assert(eff_entry(mem@, u, j) == zero_frame()[j]);
                    } else if u == t {
                        assert(mem@[u][j] == old(mem)@[u][j]);
                    }
                }
            }
            Ok(c)
        }
    }
}

/// The page-table walker: the window offset and the active level-4 table,
/// read once from the CPU's page-directory-base register at entry.
pub struct Mapper {
    l4_frame: Frame,
    physical_memory_offset: VirtAddr,
}

impl Mapper {
    /// Base address of the active level-4 table.
    pub closed spec fn l4_base(&self) -> u64 {
        self.l4_frame.base.u
    }

    /// The offset of the physical-memory window.
    pub closed spec fn offset(&self) -> u64 {
        self.physical_memory_offset.u
    }

    /// Builds the walker from the window offset the bootloader installed
    /// and the level-4 frame the page-directory-base register names.
    pub fn new(physical_memory_offset: VirtAddr, l4_frame: Frame) -> (r: Mapper)
        ensures
            r.l4_base() == l4_frame.base.u,
            r.offset() == physical_memory_offset.u,
    {
        Mapper { l4_frame, physical_memory_offset }
    }

    /// Translates a virtual address by walking the hierarchy, reading each
    /// table through the window. The result is exactly the mathematical
    /// walk of the current state: translation is a pure function of
    /// page-table state, so repeated calls with no intervening mutation
    /// return equal results.
    pub fn translate_addr(&self, mem: &PhysMemory, v: VirtAddr) -> (r: Option<PhysAddr>)
        requires
            mem.wf(),
        ensures
            r is Some <==> translate_spec(mem@, self.l4_base(), v.u) is Some,
            r matches Some(p) ==> translate_spec(mem@, self.l4_base(), v.u) == Some(p.u),
    {
        proof {
            lemma_zero_entry();
        }
        let l4t = self.l4_frame.base.u;
        if !mem.contains_frame(l4t) {
            return None;
        }
        let e4 = mem.read_word(l4t, l4_index_of(v.u));
        if !is_present(e4) || is_huge(e4) {
            return None;
        }
        let t3 = addr_of_entry(e4);
        if !mem.contains_frame(t3) {
            return None;
        }
        let e3 = mem.read_word(t3, l3_index_of(v.u));
        if !is_present(e3) {
            return None;
        }
        if is_huge(e3) {
            return Some(PhysAddr { u: (e3 & L3_HUGE_ADDR_MASK) | (v.u & 0x3fff_ffff) });
        }
        let t2 = addr_of_entry(e3);
        if !mem.contains_frame(t2) {
            return None;
        }
        let e2 = mem.read_word(t2, l2_index_of(v.u));
        if !is_present(e2) {
            return None;
        }
        if is_huge(e2) {
            return Some(PhysAddr { u: (e2 & L2_HUGE_ADDR_MASK) | (v.u & 0x1f_ffff) });
        }
        let t1 = addr_of_entry(e2);
        if !mem.contains_frame(t1) {
            return None;
        }
        let e1 = mem.read_word(t1, l1_index_of(v.u));
        if !is_present(e1) {
            return None;
        }
        Some(PhysAddr { u: addr_of_entry(e1) | (v.u & 0xfff) })
    }

    /// Installs a mapping from `page` to `frame` with the given leaf flags
    /// (the present flag is always set; huge leaves are not installed),
    /// creating intermediate tables on the way down. The result is exactly
    /// `map_outcome` of the prior state. On success every address of the
    /// page translates to the matching offset of the frame; in every
    /// outcome, every previously successful translation is unchanged, and a
    /// mapping that already existed is left as it was.
    #[verifier::rlimit(80)]
    pub fn map(
        &self,
        page: Page,
        frame: Frame,
        flags: u64,
        mem: &mut PhysMemory,
        alloc: &mut BootInfoFrameAllocator,
    ) -> (r: Result<(), MapError>)
        requires
            old(mem).wf(),
            old(alloc).wf(),
            tables_closed(old(mem)@),
            unallocated_frames_absent(*old(alloc), old(mem)@),
            old(mem)@.contains_key(self.l4_base()),
            old(mem)@.contains_key(frame.base.u),
            page_wf(page),
            frame_wf(frame),
            flags_wf(flags),
            flags & FLAG_HUGE == 0,
        ensures
            final(mem).wf(),
            final(alloc).wf(),
            tables_closed(final(mem)@),
            unallocated_frames_absent(*final(alloc), final(mem)@),
            final(alloc).regions() == old(alloc).regions(),
            forall|u: u64| old(mem)@.contains_key(u) ==> final(mem)@.contains_key(u),
            forall|v: u64| translate_spec(old(mem)@, self.l4_base(), v) is Some
                ==> #[trigger] translate_spec(final(mem)@, self.l4_base(), v)
                    == translate_spec(old(mem)@, self.l4_base(), v),
            ({
                let oc = map_outcome(
                    old(mem)@,
                    self.l4_base(),
                    page.base.u,
                    old(alloc).remaining(),
                );
                match r {
                    Ok(()) => oc matches Ok(n) && final(alloc).cursor() == old(alloc).cursor()
                        + n,
                    Err(e) => oc == Err::<nat, MapError>(e),
                }
            }),
            r matches Err(MapError::AlreadyMapped(_)) ==> final(mem)@ == old(mem)@
                && *final(alloc) == *old(alloc),
            r is Ok ==> forall|w: u64| page_base_of(w) == page.base.u
                ==> #[trigger] translate_spec(final(mem)@, self.l4_base(), w)
                    == Some(frame.base.u | page_offset_of(w)),
            r is Ok ==> forall|w: u64| page_base_of(w) == page.base.u
                ==> #[trigger] leaf_entry_spec(final(mem)@, self.l4_base(), w)
                    == Some(frame.base.u | (flags | FLAG_PRESENT)),
            forall|v: u64| translate_spec(old(mem)@, self.l4_base(), v) is Some
                ==> #[trigger] leaf_entry_spec(final(mem)@, self.l4_base(), v)
                    == leaf_entry_spec(old(mem)@, self.l4_base(), v),
            forall|u: u64, j: int|
                0 <= j < 512 && j != l4_index(page.base.u) as int && j != l3_index(
                    page.base.u,
                ) as int && j != l2_index(page.base.u) as int && j != l1_index(page.base.u) as int
                ==> #[trigger] eff_entry(final(mem)@, u, j) == eff_entry(old(mem)@, u, j),
            r is Ok ==> forall|w: u64|
                l4_index(w) == l4_index(page.base.u) && l3_index(w) == l3_index(page.base.u)
                    && l2_index(w) == l2_index(page.base.u) && l1_index(w) != l1_index(
                    page.base.u,
                ) && map_outcome(old(mem)@, self.l4_base(), w, 3) is Ok
                ==> #[trigger] map_outcome(final(mem)@, self.l4_base(), w, 0) is Ok,
            r is Ok && frame.base.u != self.l4_base() && frame_unreferenced(
                old(mem)@,
                frame.base.u,
            ) ==> final(mem)@[frame.base.u] == old(mem)@[frame.base.u],
    {
        let v = page.base.u;
        let l4t = self.l4_frame.base.u;
        let i4 = l4_index_of(v);
        let i3 = l3_index_of(v);
        let i2 = l2_index_of(v);
        let i1 = l1_index_of(v);
        let ghost m0 = mem@;
        let ghost a0 = *alloc;
        proof {
            mem.lemma_frames_sized();
            lemma_zero_entry();
        }
        let t3 = match ensure_child(mem, alloc, Ghost(l4t), l4t, i4) {
            Ok(c) => c,
            Err(e) => {
                return Err(e);
            },
        };
        let ghost m1 = mem@;
        let ghost a1 = *alloc;
        proof {
            mem.lemma_frames_sized();
        }
        let t2 = match ensure_child(mem, alloc, Ghost(l4t), t3, i3) {
            Ok(c) => c,
            Err(e) => {
                return Err(e);
            },
        };
        let ghost m2 = mem@;
        let ghost a2 = *alloc;
        proof {
            mem.lemma_frames_sized();
            if !entry_present(m1[t3][i3 as int]) {
                lemma_eff_slot_stable(m1, m2, l4t, i4 as int, t3, i3 as int, t2, t2 | 3u64);
            }
        }
        let t1 = match ensure_child(mem, alloc, Ghost(l4t), t2, i2) {
            Ok(c) => c,
            Err(e) => {
                return Err(e);
            },
        };
        let ghost m3 = mem@;
        let ghost a3 = *alloc;
        proof {
            mem.lemma_frames_sized();
            if !entry_present(m2[t2][i2 as int]) {
                lemma_eff_slot_stable(m2, m3, l4t, i4 as int, t2, i2 as int, t1, t1 | 3u64);
                lemma_eff_slot_stable(m2, m3, t3, i3 as int, t2, i2 as int, t1, t1 | 3u64);
            }
        }
        let e1 = mem.read_word(t1, i1);
        if is_present(e1) {
            proof {
                // a present leaf is only found when no table was created on
                // the way down, so the state is exactly the starting one
                assert(entry_present(eff_entry(m2, t2, i2 as int)));
                assert(entry_present(eff_entry(m1, t3, i3 as int)));
                assert(entry_present(eff_entry(m0, l4t, i4 as int)));
                assert(m3 == m0 && a3 == a0);
            }
            return Err(MapError::AlreadyMapped(Frame { base: PhysAddr { u: addr_of_entry(e1) } }));
        }
        proof {
            let flg = flags;
            assert(flg & 0xfff == flg ==> (flg | 1u64) & 0xfff == (flg | 1u64)) by (bit_vector);
            assert((flg | 1u64) & 1 == 1) by (bit_vector);
            assert(flg & 0x80 == 0 ==> (flg | 1u64) & 0x80 != 0x80) by (bit_vector);
            lemma_entry_fields(frame.base.u, flags | 1u64);
        }
        let leaf = make_entry(frame.base.u, flags | 1);
        mem.write_word(t1, i1, leaf);
        proof {
            let m4 = mem@;
            assert(m4 == m3.insert(t1, m3[t1].update(i1 as int, leaf)));
            lemma_translate_after_absent_slot_write(m3, l4t, t1, i1 as int, leaf);
            lemma_closed_after_slot_write(m3, t1, i1 as int, leaf);
            // the three intermediate slots survive the leaf write
            assert(eff_entry(m4, l4t, i4 as int) == eff_entry(m3, l4t, i4 as int));
            assert(eff_entry(m4, t3, i3 as int) == eff_entry(m3, t3, i3 as int));
            assert(eff_entry(m4, t2, i2 as int) == eff_entry(m3, t2, i2 as int));
            assert(eff_entry(m4, t1, i1 as int) == leaf);
            // the installed translation, for every address of the page
            assert forall|w: u64| page_base_of(w) == page.base.u
                implies #[trigger] translate_spec(m4, self.l4_base(), w)
                == Some(frame.base.u | page_offset_of(w)) by {
                crate::addr::lemma_page_base_props(v);
                lemma_same_page_same_indices(w, v);
                lemma_index_bounds(w);
            }
            // the installed leaf entry, for every address of the page
            assert forall|w: u64| page_base_of(w) == page.base.u
                implies #[trigger] leaf_entry_spec(m4, self.l4_base(), w)
                == Some(frame.base.u | (flags | FLAG_PRESENT)) by {
                crate::addr::lemma_page_base_props(v);
                lemma_same_page_same_indices(w, v);
                lemma_index_bounds(w);
            }
            // previously successful translations keep their leaf entries
            assert forall|w: u64| translate_spec(m0, self.l4_base(), w) is Some
                implies #[trigger] translate_spec(m4, self.l4_base(), w)
                == translate_spec(m0, self.l4_base(), w) && #[trigger] leaf_entry_spec(
                m4,
                self.l4_base(),
                w,
            ) == leaf_entry_spec(m0, self.l4_base(), w) by {
                assert(translate_spec(m1, self.l4_base(), w) == translate_spec(
                    m0,
                    self.l4_base(),
                    w,
                ));
                assert(leaf_entry_spec(m1, self.l4_base(), w) == leaf_entry_spec(
                    m0,
                    self.l4_base(),
                    w,
                ));
                assert(translate_spec(m2, self.l4_base(), w) == translate_spec(
                    m1,
                    self.l4_base(),
                    w,
                ));
                assert(leaf_entry_spec(m2, self.l4_base(), w) == leaf_entry_spec(
                    m1,
                    self.l4_base(),
                    w,
                ));
                assert(translate_spec(m3, self.l4_base(), w) == translate_spec(
                    m2,
                    self.l4_base(),
                    w,
                ));
                assert(leaf_entry_spec(m3, self.l4_base(), w) == leaf_entry_spec(
                    m2,
                    self.l4_base(),
                    w,
                ));
            }
            // entries outside the four walked slots are untouched
            assert forall|u: u64, j: int|
                0 <= j < 512 && j != i4 as int && j != i3 as int && j != i2 as int && j != i1
                    as int implies #[trigger] eff_entry(m4, u, j) == eff_entry(m0, u, j) by {
                assert(eff_entry(m1, u, j) == eff_entry(m0, u, j));
                assert(eff_entry(m2, u, j) == eff_entry(m1, u, j));
                assert(eff_entry(m3, u, j) == eff_entry(m2, u, j));
                if u == t1 {
                    assert(m4[u][j] == m3[u][j]);
                }
            }
            // pages that share the walk stay mappable
            assert forall|w: u64|
                l4_index(w) == l4_index(v) && l3_index(w) == l3_index(v) && l2_index(w)
                    == l2_index(v) && l1_index(w) != l1_index(v) && map_outcome(
                    m0,
                    self.l4_base(),
                    w,
                    3,
                ) is Ok implies #[trigger] map_outcome(m4, self.l4_base(), w, 0) is Ok by {
                lemma_index_bounds(w);
                let j1 = l1_index(w) as int;
                assert(eff_entry(m4, t1, j1) == m3[t1][j1]);
                if !entry_present(m2[t2][i2 as int]) {
                    assert(m3[t1] == zero_frame());
                    assert(!entry_present(m3[t1][j1]));
                } else {
                    assert(m3 == m2);
                    if !entry_present(m1[t3][i3 as int]) {
                        assert(m2[t2] == zero_frame());
                        assert(false);
                    } else {
                        assert(m2 == m1);
                        if !entry_present(m0[l4t][i4 as int]) {
                            assert(m1[t3] == zero_frame());
                            assert(false);
                        } else {
                            assert(m1 == m0);
                            assert(!entry_present(eff_entry(m0, t1, j1)));
                        }
                    }
                }
            }
            // a frame nothing referenced keeps its words
            if frame.base.u != self.l4_base() && frame_unreferenced(m0, frame.base.u) {
                let fb = frame.base.u;
                assert(l4t != fb);
                if entry_present(m0[l4t][i4 as int]) {
                    assert(entry_present(eff_entry(m0, l4t, i4 as int)));
                    assert(!entry_huge(m0[l4t][i4 as int]));
                    assert(entry_addr(m0[l4t][i4 as int]) != fb);
                } else {
                    assert(!m0.contains_key(t3));
                }
                assert(t3 != fb);
                if entry_present(m1[t3][i3 as int]) {
                    if !entry_present(m0[l4t][i4 as int]) {
                        assert(m1[t3] == zero_frame());
                        assert(false);
                    }
                    assert(m1 == m0);
                    assert(entry_present(m0[t3][i3 as int]));
                    assert(!entry_huge(m0[t3][i3 as int]));
                    assert(entry_addr(m0[t3][i3 as int]) != fb);
                } else {
                    assert(!m1.contains_key(t2));
                    assert(m1.contains_key(fb));
                }
                assert(t2 != fb);
                if entry_present(m2[t2][i2 as int]) {
                    if !entry_present(m1[t3][i3 as int]) {
                        assert(m2[t2] == zero_frame());
                        assert(false);
                    }
                    assert(m2 == m1 && m1 == m0);
                    assert(entry_present(m0[t2][i2 as int]));
                    assert(!entry_huge(m0[t2][i2 as int]));
                    assert(entry_addr(m0[t2][i2 as int]) != fb);
                } else {
                    assert(!m2.contains_key(t1));
                    assert(m2.contains_key(fb));
                }
                assert(t1 != fb);
                assert(m1[fb] == m0[fb]);
                assert(m2[fb] == m1[fb]);
                assert(m3[fb] == m2[fb]);
                assert(m4[fb] == m3[fb]);
            }
        }
        Ok(())
    }
}

/// Why an access through an installed mapping failed.
#[derive(Clone, Copy, PartialEq, Eq, Structural, Debug)]
pub enum AccessError {
    /// Translation found an absent entry.
    PageNotMapped,
    /// The translated frame lies outside the memory the window reaches.
    OutOfWindow,
}

/// Word index of a physical address inside its frame.
pub open spec fn word_index_of(p: u64) -> int {
    page_offset_of(p) as int / 8
}

/// Memory after the 64-bit word at physical address `p` is overwritten.
pub open spec fn written_at(mem: Map<u64, Seq<u64>>, p: u64, val: u64) -> Map<u64, Seq<u64>> {
    mem.insert(page_base_of(p), mem[page_base_of(p)].update(word_index_of(p), val))
}

/// After a write through a mapping whose target word held no present
/// entry, the same address still translates the same way, and the written
/// word reads back bit-exact.
pub proof fn lemma_mapped_write_then_read(mem: Map<u64, Seq<u64>>, l4: u64, v: u64, val: u64)
    requires
        frames_sized(mem),
        translate_spec(mem, l4, v) is Some,
        mem.contains_key(page_base_of(translate_spec(mem, l4, v).unwrap())),
        !entry_present(
            mem[page_base_of(translate_spec(mem, l4, v).unwrap())][word_index_of(
                translate_spec(mem, l4, v).unwrap(),
            )],
        ),
    ensures
        ({
            let p = translate_spec(mem, l4, v).unwrap();
            let m2 = written_at(mem, p, val);
            &&& translate_spec(m2, l4, v) == translate_spec(mem, l4, v)
            &&& m2.contains_key(page_base_of(p))
            &&& m2[page_base_of(p)][word_index_of(p)] == val
        }),
{
    let p = translate_spec(mem, l4, v).unwrap();
    lemma_index_bounds(p);
    assert(0 <= word_index_of(p) < 512);
    lemma_translate_after_absent_slot_write(mem, l4, page_base_of(p), word_index_of(p), val);
}

impl Mapper {
    /// Reads the 64-bit word at an 8-byte-aligned virtual address through
    /// the installed mapping and the window.
    pub fn read_word_at(&self, mem: &PhysMemory, v: VirtAddr) -> (r: Result<u64, AccessError>)
        requires
            mem.wf(),
            v.u & 7 == 0,
        ensures
            ({
                let tr = translate_spec(mem@, self.l4_base(), v.u);
                match r {
                    Ok(w) => tr matches Some(p) && mem@.contains_key(page_base_of(p)) && w
                        == mem@[page_base_of(p)][word_index_of(p)],
                    Err(AccessError::PageNotMapped) => tr is None,
                    Err(AccessError::OutOfWindow) => tr matches Some(p) && !mem@.contains_key(
                        page_base_of(p),
                    ),
                }
            }),
    {
        let p = match self.translate_addr(mem, v) {
            Some(p) => p,
            None => {
                return Err(AccessError::PageNotMapped);
            },
        };
        proof {
            crate::addr::lemma_page_base_props(p.u);
            lemma_index_bounds(p.u);
            let pu = p.u;
            assert((pu & 0xfff) >> 3 == (pu & 0xfff) / 8) by (bit_vector);
            assert((pu & 0xfff) >> 3 < 512) by (bit_vector);
        }
        let fb = p.u & 0xffff_ffff_ffff_f000;
        if !mem.contains_frame(fb) {
            return Err(AccessError::OutOfWindow);
        }
        let widx = ((p.u & 0xfff) >> 3) as usize;
        Ok(mem.read_word(fb, widx))
    }

    /// Writes a 64-bit word at an 8-byte-aligned virtual address through
    /// the installed mapping and the window.
    pub fn write_word_at(&self, mem: &mut PhysMemory, v: VirtAddr, val: u64) -> (r: Result<
        (),
        AccessError,
    >)
        requires
            old(mem).wf(),
            v.u & 7 == 0,
        ensures
            final(mem).wf(),
            ({
                let tr = translate_spec(old(mem)@, self.l4_base(), v.u);
                match r {
                    Ok(()) => tr matches Some(p) && old(mem)@.contains_key(page_base_of(p))
                        && final(mem)@ == written_at(old(mem)@, p, val),
                    Err(AccessError::PageNotMapped) => tr is None && final(mem)@ == old(mem)@,
                    Err(AccessError::OutOfWindow) => tr matches Some(p) && !old(mem)@.contains_key(
                        page_base_of(p),
                    ) && final(mem)@ == old(mem)@,
                }
            }),
    {
        let p = match self.translate_addr(mem, v) {
            Some(p) => p,
            None => {
                return Err(AccessError::PageNotMapped);
            },
        };
        proof {
            crate::addr::lemma_page_base_props(p.u);
            lemma_index_bounds(p.u);
            let pu = p.u;
            assert((pu & 0xfff) >> 3 == (pu & 0xfff) / 8) by (bit_vector);
            assert((pu & 0xfff) >> 3 < 512) by (bit_vector);
        }
        let fb = p.u & 0xffff_ffff_ffff_f000;
        if !mem.contains_frame(fb) {
            return Err(AccessError::OutOfWindow);
        }
        let widx = ((p.u & 0xfff) >> 3) as usize;
        mem.write_word(fb, widx, val);
        Ok(())
    }
}

/// A present slot keeps its entry through the step that brings in a fresh
/// frame and fills a slot that was unused.
proof fn lemma_eff_slot_stable(
    m1: Map<u64, Seq<u64>>,
    m2: Map<u64, Seq<u64>>,
    t: u64,
    idx: int,
    wt: u64,
    wi: int,
    c: u64,
    e: u64,
)
    requires
        frames_sized(m1),
        m1.contains_key(t),
        m1.contains_key(wt),
        0 <= idx < 512,
        0 <= wi < 512,
        entry_present(m1[t][idx]),
        !entry_present(m1[wt][wi]),
        !m1.contains_key(c),
        m2 == m1.insert(c, zero_frame()).insert(wt, m1[wt].update(wi, e)),
    ensures
        eff_entry(m2, t, idx) == eff_entry(m1, t, idx),
{
    if t == wt && idx == wi {
        assert(false);
    }
}

} // verus!
