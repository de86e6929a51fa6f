//! Heap-range initialization and the general-purpose heap allocator.
//!
//! `init_heap` maps every page of the fixed kernel heap range to a fresh
//! frame, present and writable, and hands the range to a bump allocator.
//! The bump allocator services aligned variable-size allocations from the
//! range; its free is a no-op, which is enough for bring-up, where nothing
//! is ever returned.

use vstd::prelude::*;
use vstd::arithmetic::div_mod::lemma_fundamental_div_mod;
use crate::addr::{
    VirtAddr, Page, PAGE_SIZE, page_base_of, page_offset_of, page_aligned, l1_index, l2_index,
    l3_index, l4_index, lemma_page_base_within, lemma_index_bounds,
};
use crate::pte::{FLAG_WRITABLE, FLAG_PRESENT, entry_present, entry_huge};
use crate::phys::{PhysMemory, zero_frame};
use crate::frames::{
    BootInfoFrameAllocator, usable_frames, unallocated_frames_absent,
    lemma_grant_keeps_unallocated, lemma_usable_frames_distinct,
};
use crate::paging::{
    Mapper, MapError, translate_spec, leaf_entry_spec, eff_entry, map_outcome, tables_closed,
    lemma_zero_entry, lemma_translate_after_fresh_frame, lemma_closed_after_fresh_frame,
};

verus! {

/// Base of the kernel heap range.
pub const HEAP_START: u64 = 0x4444_4444_0000;

/// Size of the kernel heap range, in bytes.
pub const HEAP_SIZE: u64 = 100 * 1024;

/// Number of pages in the kernel heap range.
pub const HEAP_PAGE_COUNT: u64 = HEAP_SIZE / PAGE_SIZE;

/// Every page of the heap range shares the three upper table indices of
/// `HEAP_START` and has its own level-1 index.
pub proof fn lemma_heap_page_indices(j: u64)
    requires
        j < HEAP_PAGE_COUNT,
    ensures
        l4_index((HEAP_START + 4096 * j) as u64) == l4_index(HEAP_START),
        l3_index((HEAP_START + 4096 * j) as u64) == l3_index(HEAP_START),
        l2_index((HEAP_START + 4096 * j) as u64) == l2_index(HEAP_START),
        l1_index((HEAP_START + 4096 * j) as u64) as int == l1_index(HEAP_START) + j,
        page_aligned((HEAP_START + 4096 * j) as u64),
{
    assert(j < 25 ==> {
        &&& ((((0x4444_4444_0000u64 + 4096 * j) as u64) >> 39) & 0x1ff)
            == ((0x4444_4444_0000u64 >> 39) & 0x1ff)
        &&& ((((0x4444_4444_0000u64 + 4096 * j) as u64) >> 30) & 0x1ff)
            == ((0x4444_4444_0000u64 >> 30) & 0x1ff)
        &&& ((((0x4444_4444_0000u64 + 4096 * j) as u64) >> 21) & 0x1ff)
            == ((0x4444_4444_0000u64 >> 21) & 0x1ff)
        &&& ((((0x4444_4444_0000u64 + 4096 * j) as u64) >> 12) & 0x1ff) == ((0x40 + j) as u64)
        &&& (0x4444_4444_0000u64 >> 12) & 0x1ff == 0x40
        &&& ((0x40 + j) as u64) == 0x40 + j
        &&& (((0x4444_4444_0000u64 + 4096 * j) as u64) & 0xfff) == 0
    }) by (bit_vector);
}

/// An address of the heap range belongs to a well-defined heap page: its
/// page base is `HEAP_START` plus a page-count multiple.
pub proof fn lemma_heap_index_of(w: u64)
    requires
        HEAP_START <= w < HEAP_START + HEAP_SIZE,
    ensures
        ({
            let j = (page_base_of(w) - HEAP_START) as int / 4096;
            &&& 0 <= j < HEAP_PAGE_COUNT
            &&& page_base_of(w) == (HEAP_START + 4096 * j) as u64
        }),
{
    let jw = (w - HEAP_START) as int / 4096;
    lemma_fundamental_div_mod((w - HEAP_START) as int, 4096);
    lemma_heap_page_indices(jw as u64);
    lemma_page_base_within((HEAP_START + 4096 * jw) as u64, w);
    assert((page_base_of(w) - HEAP_START) as int / 4096 == jw) by (nonlinear_arith)
        requires
            page_base_of(w) - HEAP_START == 4096 * jw,
            0 <= jw,
    ;
}

/// One step of heap initialization keeps every already-mapped heap page at
/// its recorded backing frame and adds the page just mapped: addresses of
/// earlier pages keep their translation and leaf entry, and addresses of
/// the new page get the fresh frame with the writable leaf.
proof fn lemma_heap_page_maintained(
    m_pre: Map<u64, Seq<u64>>,
    m_ins: Map<u64, Seq<u64>>,
    m_post: Map<u64, Seq<u64>>,
    l4b: u64,
    backing0: Seq<u64>,
    i: u64,
    base: u64,
    fb: u64,
    w: u64,
)
    requires
        i < HEAP_PAGE_COUNT,
        base == (HEAP_START + 4096 * i) as u64,
        backing0.len() == i,
        HEAP_START <= page_base_of(w) < HEAP_START + (i + 1) * 4096,
        forall|u: u64| HEAP_START <= page_base_of(u) < HEAP_START + i * 4096
            ==> #[trigger] translate_spec(m_pre, l4b, u) == Some(
                backing0[(page_base_of(u) - HEAP_START) as int / 4096] | page_offset_of(u),
            ),
        forall|u: u64| HEAP_START <= page_base_of(u) < HEAP_START + i * 4096
            ==> #[trigger] leaf_entry_spec(m_pre, l4b, u) == Some(
                backing0[(page_base_of(u) - HEAP_START) as int / 4096] | (FLAG_WRITABLE
                    | FLAG_PRESENT),
            ),
        forall|v: u64| #[trigger] translate_spec(m_ins, l4b, v) == translate_spec(m_pre, l4b, v),
        forall|v: u64| #[trigger] leaf_entry_spec(m_ins, l4b, v) == leaf_entry_spec(m_pre, l4b, v),
        forall|v: u64| translate_spec(m_ins, l4b, v) is Some
            ==> #[trigger] translate_spec(m_post, l4b, v) == translate_spec(m_ins, l4b, v),
        forall|v: u64| translate_spec(m_ins, l4b, v) is Some
            ==> #[trigger] leaf_entry_spec(m_post, l4b, v) == leaf_entry_spec(m_ins, l4b, v),
        forall|u: u64| page_base_of(u) == base ==> #[trigger] translate_spec(m_post, l4b, u)
            == Some(fb | page_offset_of(u)),
        forall|u: u64| page_base_of(u) == base ==> #[trigger] leaf_entry_spec(m_post, l4b, u)
            == Some(fb | (FLAG_WRITABLE | FLAG_PRESENT)),
    ensures
        translate_spec(m_post, l4b, w) == Some(
            backing0.push(fb)[(page_base_of(w) - HEAP_START) as int / 4096] | page_offset_of(w),
        ),
        leaf_entry_spec(m_post, l4b, w) == Some(
            backing0.push(fb)[(page_base_of(w) - HEAP_START) as int / 4096] | (FLAG_WRITABLE
                | FLAG_PRESENT),
        ),
{
    let jw = (page_base_of(w) - HEAP_START) as int / 4096;
    if page_base_of(w) < HEAP_START + i * 4096 {
        assert(0 <= jw < i) by (nonlinear_arith)
            requires
                jw == (page_base_of(w) - HEAP_START) as int / 4096,
                HEAP_START <= page_base_of(w),
                page_base_of(w) < HEAP_START + i * 4096,
                0 <= i,
        ;
        assert(translate_spec(m_pre, l4b, w) == Some(backing0[jw] | page_offset_of(w)));
        assert(translate_spec(m_ins, l4b, w) == translate_spec(m_pre, l4b, w));
        assert(leaf_entry_spec(m_ins, l4b, w) == leaf_entry_spec(m_pre, l4b, w));
        assert(backing0.push(fb)[jw] == backing0[jw]);
    } else {
        crate::addr::lemma_page_base_props(w);
        lemma_heap_page_indices(i);
        lemma_page_base_within(base, page_base_of(w));
        assert(page_base_of(w) == base);
        assert(jw == i as int) by (nonlinear_arith)
            requires
                jw == (page_base_of(w) - HEAP_START) as int / 4096,
                page_base_of(w) - HEAP_START == 4096 * (i as int),
        ;
        assert(backing0.push(fb)[jw] == fb);
    }
}

/// Why heap initialization failed.
#[derive(Clone, Copy, PartialEq, Eq, Structural, Debug)]
pub enum HeapError {
    /// The frame allocator ran out before every heap page had a frame.
    Exhausted,
    /// Installing a heap-page mapping failed.
    Mapping(MapError),
}

/// Maps every page of the heap range to a fresh frame, present and
/// writable, and returns the allocator that owns the range. After success
/// every address of the heap range translates through a present, writable
/// leaf, distinct pages are backed by distinct frames freshly drawn from
/// the allocator, and every translation that succeeded before still
/// translates the same way. Success is owed whenever the level-4 slot of
/// the heap range is unused and enough frames remain: the range is chosen
/// from a kernel-reserved region that no bootloader mapping touches.
#[verifier::rlimit(100)]
pub fn init_heap(
    mapper: &Mapper,
    mem: &mut PhysMemory,
    alloc: &mut BootInfoFrameAllocator,
) -> (r: Result<BumpAllocator, HeapError>)
    requires
        old(mem).wf(),
        old(alloc).wf(),
        tables_closed(old(mem)@),
        unallocated_frames_absent(*old(alloc), old(mem)@),
        old(mem)@.contains_key(mapper.l4_base()),
    ensures
        final(mem).wf(),
        final(alloc).wf(),
        tables_closed(final(mem)@),
        unallocated_frames_absent(*final(alloc), final(mem)@),
        final(alloc).regions() == old(alloc).regions(),
        forall|u: u64| old(mem)@.contains_key(u) ==> final(mem)@.contains_key(u),
        forall|v: u64| translate_spec(old(mem)@, mapper.l4_base(), v) is Some
            ==> #[trigger] translate_spec(final(mem)@, mapper.l4_base(), v)
                == translate_spec(old(mem)@, mapper.l4_base(), v),
        r matches Ok(h) ==> {
            &&& forall|v: u64| HEAP_START <= v < HEAP_START + HEAP_SIZE
                ==> #[trigger] translate_spec(final(mem)@, mapper.l4_base(), v) is Some
            &&& forall|v: u64| HEAP_START <= v < HEAP_START + HEAP_SIZE ==> {
                let le = #[trigger] leaf_entry_spec(final(mem)@, mapper.l4_base(), v);
                &&& le is Some
                &&& entry_present(le.unwrap())
                &&& le.unwrap() & FLAG_WRITABLE == FLAG_WRITABLE
                &&& !entry_huge(le.unwrap())
            }
            &&& forall|p1: u64, p2: u64|
                #![trigger translate_spec(final(mem)@, mapper.l4_base(), p1), translate_spec(final(mem)@, mapper.l4_base(), p2)]
                HEAP_START <= p1 < HEAP_START + HEAP_SIZE && HEAP_START <= p2 < HEAP_START
                    + HEAP_SIZE && page_base_of(p1) != page_base_of(p2)
                    ==> translate_spec(final(mem)@, mapper.l4_base(), p1) != translate_spec(
                    final(mem)@,
                    mapper.l4_base(),
                    p2,
                )
            &&& forall|v: u64| HEAP_START <= v < HEAP_START + HEAP_SIZE
                ==> !old(mem)@.contains_key(page_base_of(
                    (#[trigger] translate_spec(final(mem)@, mapper.l4_base(), v)).unwrap(),
                ))
            &&& h.wf()
            &&& h.heap_start() == HEAP_START
            &&& h.heap_end() == HEAP_START + HEAP_SIZE
            &&& h.next_free() == HEAP_START
        },
        r == Err::<BumpAllocator, HeapError>(HeapError::Exhausted) ==> final(alloc).remaining()
            == 0,
        !entry_present(eff_entry(old(mem)@, mapper.l4_base(), l4_index(HEAP_START) as int))
            && old(alloc).remaining() >= HEAP_PAGE_COUNT + 3 ==> r is Ok,
{
    let ghost l4b = mapper.l4_base();
    let ghost hyp = !entry_present(eff_entry(old(mem)@, l4b, l4_index(HEAP_START) as int))
        && old(alloc).remaining() >= HEAP_PAGE_COUNT + 3;
    let ghost mut backing: Seq<u64> = Seq::empty();
    let ghost mut cursors: Seq<int> = Seq::empty();
    let mut i: u64 = 0;
    while i < HEAP_PAGE_COUNT
        invariant
            0 <= i <= HEAP_PAGE_COUNT,
            mem.wf(),
            alloc.wf(),
            tables_closed(mem@),
            unallocated_frames_absent(*alloc, mem@),
            mem@.contains_key(l4b),
            l4b == mapper.l4_base(),
            hyp == (!entry_present(eff_entry(old(mem)@, l4b, l4_index(HEAP_START) as int))
                && old(alloc).remaining() >= HEAP_PAGE_COUNT + 3),
            alloc.regions() == old(alloc).regions(),
            old(alloc).cursor() <= alloc.cursor(),
            forall|u: u64| old(mem)@.contains_key(u) ==> mem@.contains_key(u),
            forall|v: u64| translate_spec(old(mem)@, l4b, v) is Some
                ==> #[trigger] translate_spec(mem@, l4b, v) == translate_spec(old(mem)@, l4b, v),
            backing.len() == i,
            cursors.len() == i,
            forall|j: int| 0 <= j < i ==> old(alloc).cursor() <= #[trigger] cursors[j]
                < alloc.cursor(),
            forall|j: int| 0 <= j < i ==> #[trigger] backing[j] == usable_frames(
                old(alloc).regions(),
            )[cursors[j]] && page_aligned(backing[j]),
            forall|j1: int, j2: int| 0 <= j1 < j2 < i ==> #[trigger] cursors[j1]
                < #[trigger] cursors[j2],
            forall|j: int| 0 <= j < i ==> !old(mem)@.contains_key(#[trigger] backing[j]),
            forall|w: u64| HEAP_START <= page_base_of(w) < HEAP_START + i * 4096
                ==> #[trigger] translate_spec(mem@, l4b, w) == Some(
                    backing[(page_base_of(w) - HEAP_START) as int / 4096] | page_offset_of(w),
                ),
            forall|w: u64| HEAP_START <= page_base_of(w) < HEAP_START + i * 4096
                ==> #[trigger] leaf_entry_spec(mem@, l4b, w) == Some(
                    backing[(page_base_of(w) - HEAP_START) as int / 4096] | (FLAG_WRITABLE
                        | FLAG_PRESENT),
                ),
            hyp ==> alloc.cursor() <= old(alloc).cursor() + (if i == 0 { 0int } else { 3 + i }),
            hyp && i == 0 ==> mem@ == old(mem)@,
            hyp && i >= 1 ==> forall|j: u64| i <= j < HEAP_PAGE_COUNT
                ==> #[trigger] map_outcome(mem@, l4b, (HEAP_START + 4096 * j) as u64, 0) is Ok,
        decreases HEAP_PAGE_COUNT - i,
    {
        let base: u64 = HEAP_START + i * 4096;
        proof {
            assert(0x4444_4444_0000u64 & 0xfff == 0) by (bit_vector);
            assert(2u64 & 0xfff == 2 && 2u64 & 0x80 == 0) by (bit_vector);
            lemma_heap_page_indices(i);
            lemma_index_bounds(HEAP_START);
        }
        let page = Page { base: VirtAddr { u: base } };
        let ghost a_pre = *alloc;
        let ghost m_pre = mem@;
        let frame = match alloc.allocate() {
            Ok(f) => f,
            Err(_) => {
                proof {
                    if hyp {
                        assert(a_pre.total() == old(alloc).total());
                        assert(old(alloc).total() >= old(alloc).cursor() + HEAP_PAGE_COUNT + 3);
                        assert(i < HEAP_PAGE_COUNT);
                        assert(a_pre.cursor() < a_pre.total());
                        assert(false);
                    }
                }
                return Err(HeapError::Exhausted);
            },
        };
        proof {
            lemma_grant_keeps_unallocated(a_pre, *alloc, m_pre, frame.base.u, zero_frame());
        }
        mem.insert_zeroed_frame(frame.base.u);
        let ghost m_ins = mem@;
        proof {
            lemma_zero_entry();
            assert(forall|k: int| 0 <= k < 512 ==> !entry_present(#[trigger] zero_frame()[k]));
            lemma_translate_after_fresh_frame(m_pre, l4b, frame.base.u, zero_frame());
            lemma_closed_after_fresh_frame(m_pre, frame.base.u, zero_frame());
            if hyp {
                assert(a_pre.total() == old(alloc).total());
                assert(old(alloc).total() >= old(alloc).cursor() + HEAP_PAGE_COUNT + 3);
                assert(alloc.cursor() == a_pre.cursor() + 1);
                assert(alloc.remaining() >= HEAP_PAGE_COUNT + 3 - 3 - i - 1);
                if i == 0 {
                    // the heap's level-4 slot is still unused: the page can
                    // be mapped with at most three fresh tables
                    assert(map_outcome(m_ins, l4b, base, alloc.remaining()) == map_outcome(
                        m_pre,
                        l4b,
                        base,
                        alloc.remaining(),
                    ));
                    assert(m_pre == old(mem)@);
                    assert(base == HEAP_START);
                    assert(!entry_present(eff_entry(m_pre, l4b, l4_index(base) as int)));
                    assert(alloc.remaining() >= 3);
                } else {
                    assert(map_outcome(m_pre, l4b, base, 0) is Ok);
                    assert(map_outcome(m_ins, l4b, base, 0) is Ok);
                    crate::paging::lemma_outcome_more_frames(m_ins, l4b, base, 0, alloc.remaining());
                }
                assert(map_outcome(m_ins, l4b, base, alloc.remaining()) is Ok);
            }
        }
        let ghost a_call = *alloc;
        match mapper.map(page, frame, FLAG_WRITABLE, mem, alloc) {
            Ok(()) => {},
            Err(e) => {
                proof {
                    if hyp {
                        assert(false);
                    }
                }
                return Err(HeapError::Mapping(e));
            },
        }
        proof {
            if hyp {
                let oc = map_outcome(m_ins, l4b, base, a_call.remaining());
                assert(oc is Ok);
                if i == 0 {
                    assert(oc matches Ok(n) && n <= 3);
                } else {
                    assert(oc == map_outcome(m_ins, l4b, base, 0));
                    assert(oc matches Ok(n) && n == 0);
                }
                assert(alloc.cursor() <= old(alloc).cursor() + (if i + 1 == 0 { 0int } else {
                    3 + (i + 1)
                }));
            }
            assert forall|w: u64| HEAP_START <= page_base_of(w) < HEAP_START + (i + 1) * 4096
                implies #[trigger] translate_spec(mem@, l4b, w) == Some(
                backing.push(frame.base.u)[(page_base_of(w) - HEAP_START) as int / 4096]
                    | page_offset_of(w),
            ) by {
                lemma_heap_page_maintained(
                    m_pre,
                    m_ins,
                    mem@,
                    l4b,
                    backing,
                    i,
                    base,
                    frame.base.u,
                    w,
                );
            }
            assert forall|w: u64| HEAP_START <= page_base_of(w) < HEAP_START + (i + 1) * 4096
                implies #[trigger] leaf_entry_spec(mem@, l4b, w) == Some(
                backing.push(frame.base.u)[(page_base_of(w) - HEAP_START) as int / 4096]
                    | (FLAG_WRITABLE | FLAG_PRESENT),
            ) by {
                lemma_heap_page_maintained(
                    m_pre,
                    m_ins,
                    mem@,
                    l4b,
                    backing,
                    i,
                    base,
                    frame.base.u,
                    w,
                );
            }
            backing = backing.push(frame.base.u);
            cursors = cursors.push(a_pre.cursor() as int);
            if hyp {
                assert forall|j: u64| i + 1 <= j < HEAP_PAGE_COUNT
                    implies #[trigger] map_outcome(mem@, l4b, (HEAP_START + 4096 * j) as u64, 0)
                    is Ok by {
                    lemma_heap_page_indices(j);
                    let w = (HEAP_START + 4096 * j) as u64;
                    if i == 0 {
                        assert(map_outcome(m_ins, l4b, w, 3) == map_outcome(m_pre, l4b, w, 3));
                        assert(!entry_present(eff_entry(m_pre, l4b, l4_index(w) as int)));
                        assert(map_outcome(m_ins, l4b, w, 3) is Ok);
                    } else {
                        assert(map_outcome(m_pre, l4b, w, 0) is Ok);
                        assert(map_outcome(m_ins, l4b, w, 0) is Ok);
                        crate::paging::lemma_outcome_more_frames(m_ins, l4b, w, 0, 3);
                    }
                    assert(l1_index(w) != l1_index(base));
                }
            }
        }
        i = i + 1;
    }
    proof {
        lemma_usable_frames_distinct(old(alloc).regions());
        assert forall|v: u64| HEAP_START <= v < HEAP_START + HEAP_SIZE
            implies #[trigger] translate_spec(mem@, l4b, v) is Some by {
            lemma_heap_index_of(v);
        }
        assert forall|v: u64| HEAP_START <= v < HEAP_START + HEAP_SIZE implies {
            let le = #[trigger] leaf_entry_spec(mem@, l4b, v);
            &&& le is Some
            &&& entry_present(le.unwrap())
            &&& le.unwrap() & FLAG_WRITABLE == FLAG_WRITABLE
            &&& !entry_huge(le.unwrap())
        } by {
            lemma_heap_index_of(v);
            let j = (page_base_of(v) - HEAP_START) as int / 4096;
            let b = backing[j];
            assert(leaf_entry_spec(mem@, l4b, v) == Some(b | (FLAG_WRITABLE | FLAG_PRESENT)));
            assert(b & 0xfff == 0 ==> ((b | (2u64 | 1u64)) & 1 == 1 && (b | (2u64 | 1u64)) & 2
                == 2 && (b | (2u64 | 1u64)) & 0x80 != 0x80)) by (bit_vector);
        }
        assert forall|p1: u64, p2: u64|
            #![trigger translate_spec(mem@, l4b, p1), translate_spec(mem@, l4b, p2)]
            HEAP_START <= p1 < HEAP_START + HEAP_SIZE && HEAP_START <= p2 < HEAP_START
                + HEAP_SIZE && page_base_of(p1) != page_base_of(p2) implies translate_spec(
            mem@,
            l4b,
            p1,
        ) != translate_spec(mem@, l4b, p2) by {
            lemma_heap_index_of(p1);
            lemma_heap_index_of(p2);
            let j1 = (page_base_of(p1) - HEAP_START) as int / 4096;
            let j2 = (page_base_of(p2) - HEAP_START) as int / 4096;
            let b1 = backing[j1];
            let b2 = backing[j2];
            assert(j1 != j2);
            assert(cursors[j1] != cursors[j2]);
            assert(b1 != b2);
            let o1 = page_offset_of(p1);
            let o2 = page_offset_of(p2);
            lemma_index_bounds(p1);
            lemma_index_bounds(p2);
            assert(b1 & 0xfff == 0 && o1 < 4096 ==> ((b1 | o1) & 0xffff_ffff_ffff_f000)
                == b1) by (bit_vector);
            assert(b2 & 0xfff == 0 && o2 < 4096 ==> ((b2 | o2) & 0xffff_ffff_ffff_f000)
                == b2) by (bit_vector);
        }
        assert forall|v: u64| HEAP_START <= v < HEAP_START + HEAP_SIZE
            implies !old(mem)@.contains_key(page_base_of(
            (#[trigger] translate_spec(mem@, l4b, v)).unwrap(),
        )) by {
            lemma_heap_index_of(v);
            let j = (page_base_of(v) - HEAP_START) as int / 4096;
            assert(translate_spec(mem@, l4b, v) == Some(backing[j] | page_offset_of(v)));
            let b = backing[j];
            let o = page_offset_of(v);
            lemma_index_bounds(v);
            assert(b & 0xfff == 0 && o < 4096 ==> ((b | o) & 0xffff_ffff_ffff_f000)
                == b) by (bit_vector);
            assert(!old(mem)@.contains_key(b));
        }
    }
    Ok(BumpAllocator::new(HEAP_START, HEAP_START + HEAP_SIZE))
}

/// `align_up(a, align)`: the first multiple of `align` at or above `a`.
pub open spec fn align_up(a: u64, align: u64) -> int {
    if a as int % align as int == 0 {
        a as int
    } else {
        a + (align - a % align)
    }
}

/// `align_up` lands within one alignment step above its input, on a
/// multiple of the alignment.
pub proof fn lemma_align_up(a: u64, align: u64)
    requires
        1 <= align,
    ensures
        a <= align_up(a, align) < a + align,
        align_up(a, align) % (align as int) == 0,
{
    let ai = a as int;
    let al = align as int;
    lemma_fundamental_div_mod(ai, al);
    if ai % al != 0 {
        let q = ai / al;
        assert(ai + (al - ai % al) == al * (q + 1)) by (nonlinear_arith)
            requires
                ai == al * q + ai % al,
        ;
        assert((al * (q + 1)) % al == 0) by (nonlinear_arith)
            requires
                al >= 1,
        ;
    }
}

/// The general-purpose heap allocator: a bump allocator over the heap
/// range. Allocation advances a cursor; free is a no-op, so exhaustion is
/// permanent, which bring-up never reaches.
pub struct BumpAllocator {
    start: u64,
    end: u64,
    next: u64,
}

impl BumpAllocator {
    /// Base of the range the allocator owns.
    pub closed spec fn heap_start(&self) -> u64 {
        self.start
    }

    /// End (exclusive) of the range the allocator owns.
    pub closed spec fn heap_end(&self) -> u64 {
        self.end
    }

    /// The cursor: everything below it is handed out, everything from it to
    /// the end is still free.
    pub closed spec fn next_free(&self) -> u64 {
        self.next
    }

    /// The cursor stays inside the range, and the range leaves room for one
    /// alignment step.
    pub open spec fn wf(&self) -> bool {
        &&& self.heap_start() <= self.next_free() <= self.heap_end()
        &&& self.heap_end() <= u64::MAX - 4096
    }

    /// An allocator owning `[start, end)` with nothing handed out.
    pub fn new(start: u64, end: u64) -> (r: BumpAllocator)
        requires
            start <= end,
            end <= u64::MAX - 4096,
        ensures
            r.wf(),
            r.heap_start() == start,
            r.heap_end() == end,
            r.next_free() == start,
    {
        BumpAllocator { start, end, next: start }
    }

    /// Allocates `size` bytes at alignment `align`: the aligned cursor when
    /// it fits, nothing when the range is exhausted. A successful result
    /// never overlaps anything handed out before: the cursor only grows.
    pub fn allocate(&mut self, size: u64, align: u64) -> (r: Option<u64>)
        requires
            old(self).wf(),
            1 <= size,
            1 <= align <= 4096,
        ensures
            final(self).wf(),
            final(self).heap_start() == old(self).heap_start(),
            final(self).heap_end() == old(self).heap_end(),
            r is Some <==> align_up(old(self).next_free(), align) + size <= old(
                self,
            ).heap_end(),
            r matches Some(a) ==> {
                &&& a == align_up(old(self).next_free(), align)
                &&& a as int % align as int == 0
                &&& old(self).next_free() <= a
                &&& a + size <= old(self).heap_end()
                &&& final(self).next_free() == a + size
            },
            r is None ==> *final(self) == *old(self),
    {
        proof {
            lemma_align_up(self.next, align);
        }
        let rem: u64 = self.next % align;
        let pad: u64 = if rem == 0 {
            0
        } else {
            align - rem
        };
        let aligned: u64 = self.next + pad;
        if size <= self.end && aligned <= self.end - size {
            self.next = aligned + size;
            Some(aligned)
        } else {
            None
        }
    }

    /// Returns a span to the allocator. The bump allocator's free is a
    /// no-op: the span is not reused.
    pub fn free(&mut self, addr: u64, size: u64, align: u64)
        ensures
            *final(self) == *old(self),
    {
    }
}

} // verus!
