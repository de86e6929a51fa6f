//! The model of physical memory.
//!
//! Physical memory is a finite set of 4 KiB frames, each holding 512
//! 64-bit words; a frame is named by its aligned base address. The model is
//! viewed as a map from frame base to the sequence of the frame's words.
//! Frames come into existence zeroed, as the frame allocator hands them out.

use vstd::prelude::*;
use std::collections::HashMap;
use crate::addr::{page_aligned, page_base_of, page_offset_of, MAX_PHYS_ADDR};

verus! {

broadcast use vstd::std_specs::hash::group_hash_axioms;

/// The contents of a frame that was never written: 512 zero words.
pub open spec fn zero_frame() -> Seq<u64> {
    Seq::new(512, |i: int| 0u64)
}

/// Every frame of the memory snapshot holds exactly 512 words.
pub open spec fn frames_sized(mem: Map<u64, Seq<u64>>) -> bool {
    forall|b: u64| mem.contains_key(b) ==> (#[trigger] mem[b]).len() == 512
}

/// The word key `b + 8 * i` of word `i` of the frame at `b` stays inside
/// the frame: it is 8-byte aligned, its page base is `b`, and its page
/// offset is `8 * i`.
pub proof fn lemma_word_key(b: u64, i: int)
    requires
        page_aligned(b),
        b < MAX_PHYS_ADDR,
        0 <= i < 512,
    ensures
        b + 8 * i <= u64::MAX,
        (b + 8 * i) as u64 & 7 == 0,
        page_base_of((b + 8 * i) as u64) == b,
        page_offset_of((b + 8 * i) as u64) == 8 * i,
{
    let o: u64 = (8 * i) as u64;
    assert(b & 0xfff == 0 && b < 0x10_0000_0000_0000 ==> b <= 0x000f_ffff_ffff_f000)
        by (bit_vector);
    assert(b & 0xfff == 0 && b <= 0x000f_ffff_ffff_f000 && o < 4096 && o % 8 == 0 ==> {
        &&& ((b + o) as u64) & 7 == 0
        &&& ((b + o) as u64) & 0xffff_ffff_ffff_f000 == b
        &&& ((b + o) as u64) & 0xfff == o
    }) by (bit_vector);
}

/// Physical memory: the set of existing frames and their words.
pub struct PhysMemory {
    present: HashMap<u64, bool>,
    words: HashMap<u64, u64>,
}

impl PhysMemory {
    /// The word stored at word index `i` of the frame at `b`; a word never
    /// written is zero.
    pub closed spec fn word_at(&self, b: u64, i: int) -> u64 {
        let k = (b + 8 * i) as u64;
        if self.words@.contains_key(k) {
            self.words@[k]
        } else {
            0
        }
    }

    /// Memory as a map from frame base to the frame's 512 words.
    pub closed spec fn view(&self) -> Map<u64, Seq<u64>> {
        Map::new(
            |b: u64| self.present@.contains_key(b),
            |b: u64| Seq::new(512, |i: int| self.word_at(b, i)),
        )
    }

    /// Internal consistency: every frame base is aligned and inside the
    /// physical space, and every stored word belongs to an existing frame.
    pub closed spec fn wf(&self) -> bool {
        &&& forall|b: u64| #[trigger]
            self.present@.contains_key(b) ==> page_aligned(b) && b < MAX_PHYS_ADDR
        &&& forall|w: u64| #[trigger]
            self.words@.contains_key(w) ==> self.present@.contains_key(page_base_of(w))
    }

    /// A well-formed memory is viewed as frames of exactly 512 words each.
    pub proof fn lemma_frames_sized(&self)
        requires
            self.wf(),
        ensures
            frames_sized(self@),
    {
    }

    /// Memory with no frames at all.
    pub fn new() -> (r: PhysMemory)
        ensures
            r.wf(),
            r@ === Map::<u64, Seq<u64>>::empty(),
    {
        let r = PhysMemory { present: HashMap::new(), words: HashMap::new() };
        proof {
            assert(r@ =~= Map::<u64, Seq<u64>>::empty());
        }
        r
    }

    /// Whether the frame at `b` exists.
    pub fn contains_frame(&self, b: u64) -> (r: bool)
        ensures
            r == self@.contains_key(b),
    {
        self.present.contains_key(&b)
    }

    /// Brings the frame at `b` into existence, zeroed.
    pub fn insert_zeroed_frame(&mut self, b: u64)
        requires
            old(self).wf(),
            page_aligned(b),
            b < MAX_PHYS_ADDR,
            !old(self)@.contains_key(b),
        ensures
            final(self).wf(),
            final(self)@ == old(self)@.insert(b, zero_frame()),
    {
        self.present.insert(b, true);
        proof {
            assert forall|i: int| 0 <= i < 512 implies self.word_at(b, i) == 0 by {
                lemma_word_key(b, i);
                let k = (b + 8 * i) as u64;
                if self.words@.contains_key(k) {
                    assert(old(self).present@.contains_key(page_base_of(k)));
                }
            }
            assert(final(self)@ =~~= old(self)@.insert(b, zero_frame()));
        }
    }

    /// Reads word `idx` of the frame at `b`.
    pub fn read_word(&self, b: u64, idx: usize) -> (r: u64)
        requires
            self.wf(),
            self@.contains_key(b),
            idx < 512,
        ensures
            r == self@[b][idx as int],
    {
        proof {
            lemma_word_key(b, idx as int);
        }
        let k: u64 = b + (idx as u64) * 8;
        match self.words.get(&k) {
            Some(v) => *v,
            None => 0,
        }
    }

    /// Writes word `idx` of the frame at `b`.
    pub fn write_word(&mut self, b: u64, idx: usize, val: u64)
        requires
            old(self).wf(),
            old(self)@.contains_key(b),
            idx < 512,
        ensures
            final(self).wf(),
            final(self)@ == old(self)@.insert(b, old(self)@[b].update(idx as int, val)),
    {
        proof {
            lemma_word_key(b, idx as int);
        }
        let k: u64 = b + (idx as u64) * 8;
        self.words.insert(k, val);
        proof {
            assert forall|c: u64, i: int|
                old(self)@.contains_key(c) && 0 <= i < 512 && !(c == b && i == idx as int)
                implies self.word_at(c, i) == old(self).word_at(c, i) by {
                lemma_word_key(c, i);
                lemma_word_key(b, idx as int);
            }
            assert(self.word_at(b, idx as int) == val) by {
                lemma_word_key(b, idx as int);
            }
            assert(final(self)@ =~~= old(self)@.insert(b, old(self)@[b].update(idx as int, val)));
        }
    }
}

} // verus!
