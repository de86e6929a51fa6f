//! The kernel bring-up sequence.
//!
//! Mirrors the boot path: build the walker from the boot-info window
//! offset, build the frame allocator from the firmware memory map, install
//! one demonstrative mapping and write a recognizable pattern through it,
//! initialize the heap, and exercise the owned-container patterns (a boxed
//! word, a 500-element growable buffer, a reference-counted buffer cloned
//! and dropped). Console output and the halt loop live outside the library.

use vstd::prelude::*;
use crate::addr::{VirtAddr, Page, Frame, lemma_index_bounds};
use crate::pte::{FLAG_WRITABLE, entry_present};
use crate::phys::{PhysMemory, zero_frame};
use crate::memmap::{MemoryRegion, memory_map_wf};
use crate::frames::{
    BootInfoFrameAllocator, FrameAllocError, usable_frames, unallocated_frames_absent,
    lemma_grant_keeps_unallocated,
};
use crate::paging::{
    Mapper, MapError, AccessError, translate_spec, tables_closed, eff_entry, map_outcome,
    frame_unreferenced, word_index_of, lemma_zero_entry, lemma_translate_after_fresh_frame,
    lemma_closed_after_fresh_frame, lemma_closed_after_slot_write,
    lemma_mapped_write_then_read,
};
use crate::addr::{l4_index, page_base_of, page_offset_of, lemma_page_base_within};
use crate::heap::{init_heap, HeapError, HEAP_START, HEAP_SIZE};
use crate::containers::{BoxedWord, WordBuffer, RcBuffer};

verus! {

/// What the bootloader hands the kernel at entry: the window offset and the
/// firmware memory map.
pub struct BootInfo {
    pub physical_memory_offset: VirtAddr,
    pub memory_map: Vec<MemoryRegion>,
}

/// A fatal bring-up error; the caller prints it and halts.
#[derive(Clone, Copy, PartialEq, Eq, Structural, Debug)]
pub enum KernelError {
    /// The frame allocator was exhausted.
    FrameAlloc(FrameAllocError),
    /// The demonstrative mapping could not be installed.
    Mapping(MapError),
    /// An access through the demonstrative mapping failed.
    Access(AccessError),
    /// Heap initialization failed.
    HeapInit(HeapError),
    /// The heap allocator was exhausted.
    OutOfHeap,
}

/// What bring-up observed, for the console to print.
#[derive(Clone, Copy, PartialEq, Eq, Structural, Debug)]
pub struct BringUpReport {
    /// The word read back through the demonstrative mapping.
    pub example_value: u64,
    /// The boxed value, read back from the heap.
    pub boxed_value: u64,
    /// Where the boxed value lives.
    pub boxed_addr: u64,
    /// Final length of the growable buffer.
    pub buffer_len: u64,
    /// Its first element.
    pub buffer_first: u64,
    /// Its last element.
    pub buffer_last: u64,
    /// Where the buffer's words live.
    pub buffer_addr: u64,
    /// Strong count right after the clone.
    pub strong_after_clone: u64,
    /// Strong count after the original is dropped.
    pub strong_after_drop: u64,
    /// Whether dropping the last handle released the storage.
    pub storage_released: bool,
}

/// The page the demonstrative mapping targets.
pub const EXAMPLE_PAGE_ADDR: u64 = 0xdead_beaf_000;

/// The pattern written through the demonstrative mapping.
pub const EXAMPLE_PATTERN: u64 = 0xf021_f077_f065_f04e;

/// Word offset of the pattern inside the page.
pub const EXAMPLE_WORD_OFFSET: u64 = 400;

/// Runs the whole bring-up on the machine state at entry: the physical
/// memory holding the bootloader's page tables, the level-4 frame the
/// page-directory-base register names, and the boot-info record. On success
/// the report carries the observed values, pinned by this contract, and the
/// whole heap range translates.
pub fn bring_up(boot_info: BootInfo, l4_frame: Frame, mem: &mut PhysMemory) -> (r: Result<
    BringUpReport,
    KernelError,
>)
    requires
        old(mem).wf(),
        tables_closed(old(mem)@),
        memory_map_wf(boot_info.memory_map@),
        old(mem)@.contains_key(l4_frame.base.u),
        forall|k: int| 0 <= k < usable_frames(boot_info.memory_map@).len()
            ==> !old(mem)@.contains_key(#[trigger] usable_frames(boot_info.memory_map@)[k]),
    ensures
        final(mem).wf(),
        r matches Ok(rep) ==> {
            &&& rep.example_value == EXAMPLE_PATTERN
            &&& rep.boxed_value == 41
            &&& HEAP_START <= rep.boxed_addr && rep.boxed_addr + 8 <= HEAP_START + HEAP_SIZE
            &&& rep.buffer_len == 500
            &&& rep.buffer_first == 0
            &&& rep.buffer_last == 499
            &&& HEAP_START <= rep.buffer_addr && rep.buffer_addr < HEAP_START + HEAP_SIZE
            &&& rep.strong_after_clone == 2
            &&& rep.strong_after_drop == 1
            &&& rep.storage_released
            &&& forall|v: u64| HEAP_START <= v < HEAP_START + HEAP_SIZE
                ==> #[trigger] translate_spec(final(mem)@, l4_frame.base.u, v) is Some
        },
        !entry_present(eff_entry(old(mem)@, l4_frame.base.u, l4_index(EXAMPLE_PAGE_ADDR) as int))
            && !entry_present(eff_entry(old(mem)@, l4_frame.base.u, l4_index(HEAP_START) as int))
            && usable_frames(boot_info.memory_map@).len() >= 32 ==> r is Ok,
{
    let ghost hyp = !entry_present(eff_entry(
        old(mem)@,
        l4_frame.base.u,
        l4_index(EXAMPLE_PAGE_ADDR) as int,
    )) && !entry_present(eff_entry(old(mem)@, l4_frame.base.u, l4_index(HEAP_START) as int))
        && usable_frames(boot_info.memory_map@).len() >= 32;
    let mut alloc = BootInfoFrameAllocator::init(boot_info.memory_map);
    let mapper = Mapper::new(boot_info.physical_memory_offset, l4_frame);
    proof {
        assert(unallocated_frames_absent(alloc, mem@));
        assert(0xdead_beaf_000u64 & 0xfff == 0) by (bit_vector);
        assert(2u64 & 0xfff == 2 && 2u64 & 0x80 == 0) by (bit_vector);
    }
    // map one unused page, to prove the path works
    let page = Page { base: VirtAddr { u: EXAMPLE_PAGE_ADDR } };
    let ghost a0 = alloc;
    let ghost m0 = mem@;
    let frame = match alloc.allocate() {
        Ok(f) => f,
        Err(e) => {
            proof {
                if hyp {
                    assert(false);
                }
            }
            return Err(KernelError::FrameAlloc(e));
        },
    };
    proof {
        lemma_grant_keeps_unallocated(a0, alloc, m0, frame.base.u, zero_frame());
    }
    mem.insert_zeroed_frame(frame.base.u);
    let ghost m0p = mem@;
    proof {
        lemma_zero_entry();
        assert(forall|k: int| 0 <= k < 512 ==> !crate::pte::entry_present(
            #[trigger] zero_frame()[k],
        ));
        lemma_closed_after_fresh_frame(m0, frame.base.u, zero_frame());
        lemma_translate_after_fresh_frame(m0, mapper.l4_base(), frame.base.u, zero_frame());
        // nothing in memory walks into the fresh frame
        assert forall|t: u64, ii: int|
            m0p.contains_key(t) && 0 <= ii < 512 && entry_present(#[trigger] m0p[t][ii])
                && !crate::pte::entry_huge(m0p[t][ii]) implies crate::pte::entry_addr(
            m0p[t][ii],
        ) != frame.base.u by {
            if t == frame.base.u {
                assert(!entry_present(m0p[t][ii]));
            } else {
                assert(m0p[t][ii] == m0[t][ii]);
                assert(m0.contains_key(crate::pte::entry_addr(m0[t][ii])));
            }
        }
        assert(frame_unreferenced(m0p, frame.base.u));
        assert(frame.base.u != mapper.l4_base());
        if hyp {
            assert(map_outcome(m0p, mapper.l4_base(), EXAMPLE_PAGE_ADDR, alloc.remaining())
                == map_outcome(m0, mapper.l4_base(), EXAMPLE_PAGE_ADDR, alloc.remaining()));
            assert(alloc.remaining() >= 3);
        }
    }
    match mapper.map(page, frame, FLAG_WRITABLE, mem, &mut alloc) {
        Ok(()) => {},
        Err(e) => {
            proof {
                if hyp {
                    assert(false);
                }
            }
            return Err(KernelError::Mapping(e));
        },
    }
    // write the pattern through the new mapping, then read it back
    let vaddr = VirtAddr { u: EXAMPLE_PAGE_ADDR + EXAMPLE_WORD_OFFSET * 8 };
    proof {
        assert(((0xdead_beaf_000u64 + 3200) as u64) & 7 == 0) by (bit_vector);
    }
    proof {
        mem.lemma_frames_sized();
    }
    let ghost m_mapped = mem@;
    proof {
        // the demonstrative page translates into the fresh frame, whose
        // words map left untouched: the target word is still zero
        lemma_page_base_within(EXAMPLE_PAGE_ADDR, vaddr.u);
        assert(translate_spec(m_mapped, mapper.l4_base(), vaddr.u) == Some(
            frame.base.u | page_offset_of(vaddr.u),
        ));
        assert(m_mapped[frame.base.u] == m0p[frame.base.u]);
        assert(m_mapped[frame.base.u] == zero_frame());
        let fb = frame.base.u;
        assert(((0xdead_beaf_000u64 + 3200) as u64) & 0xfff == 3200) by (bit_vector);
        assert(fb & 0xfff == 0 ==> ((fb | 3200u64) & 0xffff_ffff_ffff_f000) == fb
            && ((fb | 3200u64) & 0xfff) == 3200) by (bit_vector);
        let p = translate_spec(m_mapped, mapper.l4_base(), vaddr.u).unwrap();
        assert(page_base_of(p) == fb);
        assert(word_index_of(p) == 400);
        assert(!entry_present(m_mapped[page_base_of(p)][word_index_of(p)]));
        lemma_mapped_write_then_read(m_mapped, mapper.l4_base(), vaddr.u, EXAMPLE_PATTERN);
    }
    match mapper.write_word_at(mem, vaddr, EXAMPLE_PATTERN) {
        Ok(()) => {},
        Err(e) => {
            proof {
                assert(false);
            }
            return Err(KernelError::Access(e));
        },
    }
    proof {
        let p = translate_spec(m_mapped, mapper.l4_base(), vaddr.u).unwrap();
        lemma_index_bounds(p);
        assert(0xf021_f077_f065_f04eu64 & 1 != 1) by (bit_vector);
        assert(0 <= word_index_of(p) < 512);
        lemma_closed_after_slot_write(
            m_mapped,
            crate::addr::page_base_of(p),
            word_index_of(p),
            EXAMPLE_PATTERN,
        );
        assert(translate_spec(mem@, mapper.l4_base(), vaddr.u) == translate_spec(
            m_mapped,
            mapper.l4_base(),
            vaddr.u,
        ));
        assert(mem@.contains_key(page_base_of(p)));
        assert(mem@[page_base_of(p)][word_index_of(p)] == EXAMPLE_PATTERN);
    }
    let example_value = match mapper.read_word_at(mem, vaddr) {
        Ok(w) => w,
        Err(e) => {
            proof {
                assert(false);
            }
            return Err(KernelError::Access(e));
        },
    };
    proof {
        assert(example_value == EXAMPLE_PATTERN);
        if hyp {
            // the heap's level-4 slot is untouched: its index is none of the
            // demonstrative walk's four, and the data write stayed in the
            // fresh frame
            assert({
                &&& (0x4444_4444_0000u64 >> 39) & 0x1ff == 0x88
                &&& (0xdead_beaf_000u64 >> 39) & 0x1ff == 0x1b
                &&& (0xdead_beaf_000u64 >> 30) & 0x1ff == 0x1ab
                &&& (0xdead_beaf_000u64 >> 21) & 0x1ff == 0xdf
                &&& (0xdead_beaf_000u64 >> 12) & 0x1ff == 0xaf
            }) by (bit_vector);
            let hj = l4_index(HEAP_START) as int;
            lemma_index_bounds(EXAMPLE_PAGE_ADDR);
            lemma_index_bounds(HEAP_START);
            assert(l4_index(HEAP_START) != l4_index(EXAMPLE_PAGE_ADDR));
            assert(l4_index(HEAP_START) != crate::addr::l3_index(EXAMPLE_PAGE_ADDR));
            assert(l4_index(HEAP_START) != crate::addr::l2_index(EXAMPLE_PAGE_ADDR));
            assert(l4_index(HEAP_START) != crate::addr::l1_index(EXAMPLE_PAGE_ADDR));
            assert(m0p[mapper.l4_base()] == m0[mapper.l4_base()]);
            assert(eff_entry(m_mapped, mapper.l4_base(), hj) == eff_entry(m0p, mapper.l4_base(), hj));
            assert(mem@[mapper.l4_base()] == m_mapped[mapper.l4_base()]);
            assert(!entry_present(eff_entry(mem@, mapper.l4_base(), hj)));
            assert(alloc.remaining() >= crate::heap::HEAP_PAGE_COUNT + 3);
        }
    }
    // back the heap range with frames and hand it to the allocator
    let mut h = match init_heap(&mapper, mem, &mut alloc) {
        Ok(h) => h,
        Err(e) => {
            proof {
                if hyp {
                    assert(false);
                }
            }
            return Err(KernelError::HeapInit(e));
        },
    };
    // a boxed value
    proof {
        assert(0x4444_4444_0000u64 % 8 == 0) by (bit_vector);
        assert(crate::heap::align_up(HEAP_START, 8) == HEAP_START as int);
    }
    let boxed = match BoxedWord::new(&mut h, 41) {
        Some(b) => b,
        None => {
            proof {
                assert(false);
            }
            return Err(KernelError::OutOfHeap);
        },
    };
    // a growable buffer of 500 words
    let mut buf = match WordBuffer::new(&mut h) {
        Some(b) => b,
        None => {
            proof {
                assert(false);
            }
            return Err(KernelError::OutOfHeap);
        },
    };
    let ghost m_heap = mem@;
    let mut i: u64 = 0;
    while i < 500
        invariant
            0 <= i <= 500,
            mem.wf(),
            mem@ == m_heap,
            buf.wf(),
            h.wf(),
            h.heap_start() == HEAP_START,
            h.heap_end() == HEAP_START + HEAP_SIZE,
            buf.in_heap(&h),
            buf@.len() == i,
            forall|j: int| 0 <= j < i ==> buf@[j] == j,
            buf.capacity() <= 1024,
            h.next_free() as int % 8 == 0,
            h.next_free() <= HEAP_START + 40 + 32 * buf.capacity(),
        decreases 500 - i,
    {
        if !buf.push(&mut h, i) {
            proof {
                assert(false);
            }
            return Err(KernelError::OutOfHeap);
        }
        i = i + 1;
    }
    // a reference-counted buffer: clone a handle, drop the original, drop
    // the clone
    let mut rcdata: Vec<u64> = Vec::new();
    rcdata.push(1);
    rcdata.push(2);
    rcdata.push(3);
    let mut rc = match RcBuffer::new(&mut h, rcdata) {
        Some(b) => b,
        None => {
            proof {
                assert(false);
            }
            return Err(KernelError::OutOfHeap);
        },
    };
    rc.clone_handle();
    let strong_after_clone = rc.strong_count();
    rc.drop_handle(&mut h);
    let strong_after_drop = rc.strong_count();
    let storage_released = rc.drop_handle(&mut h);
    let buffer_len = buf.len();
    Ok(
        BringUpReport {
            example_value,
            boxed_value: boxed.get(),
            boxed_addr: boxed.addr(),
            buffer_len: buffer_len as u64,
            buffer_first: buf.get(0),
            buffer_last: buf.get(499),
            buffer_addr: buf.addr(),
            strong_after_clone,
            strong_after_drop,
            storage_released,
        },
    )
}

/// The first self-check the boot path runs: a trivially true equality.
pub fn trivial_assertion() -> (r: bool)
    ensures
        r,
{
    1u64 == 1u64
}

} // verus!

