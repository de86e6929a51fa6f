//! The owned-container patterns the heap must support: a boxed word, a
//! growable word buffer with amortized doubling, and a reference-counted
//! buffer. Each owns a span of the heap obtained from the bump allocator;
//! the values it holds are stated exactly.

use vstd::prelude::*;
use crate::heap::{BumpAllocator, align_up};

verus! {

/// Capacities above this cannot double without leaving 64 bits.
pub const MAX_BUFFER_CAPACITY: u64 = 0x0fff_ffff_ffff_ffff;

/// A single 64-bit value with unique ownership of a heap span.
pub struct BoxedWord {
    addr: u64,
    value: u64,
}

impl BoxedWord {
    /// The held value.
    pub closed spec fn value_spec(&self) -> u64 {
        self.value
    }

    /// Base of the owned heap span.
    pub closed spec fn addr_spec(&self) -> u64 {
        self.addr
    }

    /// The owned span lies inside the allocator's range.
    pub open spec fn in_heap(&self, h: &BumpAllocator) -> bool {
        &&& h.heap_start() <= self.addr_spec()
        &&& self.addr_spec() + 8 <= h.heap_end()
    }

    /// Boxes a value on the heap; nothing when the heap is exhausted.
    pub fn new(h: &mut BumpAllocator, value: u64) -> (r: Option<BoxedWord>)
        requires
            old(h).wf(),
        ensures
            final(h).wf(),
            final(h).heap_start() == old(h).heap_start(),
            final(h).heap_end() == old(h).heap_end(),
            r is Some <==> align_up(old(h).next_free(), 8) + 8 <= old(h).heap_end(),
            r matches Some(b) ==> {
                &&& b.value_spec() == value
                &&& b.in_heap(final(h))
                &&& b.addr_spec() as int % 8 == 0
                &&& b.addr_spec() == align_up(old(h).next_free(), 8)
                &&& final(h).next_free() == b.addr_spec() + 8
            },
            r is None ==> *final(h) == *old(h),
    {
        match h.allocate(8, 8) {
            Some(a) => Some(BoxedWord { addr: a, value }),
            None => None,
        }
    }

    /// Reads the boxed value back.
    pub fn get(&self) -> (r: u64)
        ensures
            r == self.value_spec(),
    {
        self.value
    }

    /// Base of the owned heap span, as executable code.
    pub fn addr(&self) -> (r: u64)
        ensures
            r == self.addr_spec(),
    {
        self.addr
    }
}

/// A growable buffer of 64-bit words over a heap span; appending past the
/// capacity reallocates a doubled span, copies, and frees the old one
/// (a no-op under the bump allocator).
pub struct WordBuffer {
    addr: u64,
    cap: u64,
    data: Vec<u64>,
}

impl WordBuffer {
    /// The words held, in order.
    pub closed spec fn view(&self) -> Seq<u64> {
        self.data@
    }

    /// Base of the owned heap span.
    pub closed spec fn addr_spec(&self) -> u64 {
        self.addr
    }

    /// Number of words the owned span can hold.
    pub closed spec fn capacity(&self) -> u64 {
        self.cap
    }

    /// The length never passes the capacity, which never passes the bound
    /// that doubling must respect.
    pub open spec fn wf(&self) -> bool {
        &&& self@.len() <= self.capacity()
        &&& 1 <= self.capacity() <= MAX_BUFFER_CAPACITY
    }

    /// The owned span lies inside the allocator's range.
    pub open spec fn in_heap(&self, h: &BumpAllocator) -> bool {
        &&& h.heap_start() <= self.addr_spec()
        &&& self.addr_spec() + 8 * self.capacity() <= h.heap_end()
    }

    /// An empty buffer with a small initial span; nothing when the heap is
    /// exhausted.
    pub fn new(h: &mut BumpAllocator) -> (r: Option<WordBuffer>)
        requires
            old(h).wf(),
        ensures
            final(h).wf(),
            final(h).heap_start() == old(h).heap_start(),
            final(h).heap_end() == old(h).heap_end(),
            r is Some <==> align_up(old(h).next_free(), 8) + 32 <= old(h).heap_end(),
            r matches Some(b) ==> {
                &&& b@ == Seq::<u64>::empty()
                &&& b.wf()
                &&& b.capacity() == 4
                &&& b.in_heap(final(h))
                &&& b.addr_spec() == align_up(old(h).next_free(), 8)
                &&& final(h).next_free() == b.addr_spec() + 32
            },
            r is None ==> *final(h) == *old(h),
    {
        match h.allocate(32, 8) {
            Some(a) => Some(WordBuffer { addr: a, cap: 4, data: Vec::new() }),
            None => None,
        }
    }

    /// Appends one word. Within capacity this always succeeds and leaves
    /// the allocator alone; at capacity it first reallocates a doubled
    /// span, and fails exactly when that allocation does not fit.
    pub fn push(&mut self, h: &mut BumpAllocator, v: u64) -> (r: bool)
        requires
            old(self).wf(),
            old(h).wf(),
        ensures
            final(self).wf(),
            final(h).wf(),
            final(h).heap_start() == old(h).heap_start(),
            final(h).heap_end() == old(h).heap_end(),
            old(self)@.len() < old(self).capacity() ==> {
                &&& r
                &&& *final(h) == *old(h)
                &&& final(self).capacity() == old(self).capacity()
                &&& final(self).addr_spec() == old(self).addr_spec()
            },
            old(self)@.len() == old(self).capacity() ==> (r <==> old(self).capacity()
                <= MAX_BUFFER_CAPACITY / 2 && align_up(old(h).next_free(), 8) + 16 * old(
                self,
            ).capacity() <= old(h).heap_end()),
            old(self)@.len() == old(self).capacity() && r ==> {
                &&& final(self).capacity() == 2 * old(self).capacity()
                &&& final(self).addr_spec() == align_up(old(h).next_free(), 8)
                &&& final(h).next_free() == align_up(old(h).next_free(), 8) + 16 * old(
                    self,
                ).capacity()
            },
            r ==> {
                &&& final(self)@ == old(self)@.push(v)
                &&& old(self).in_heap(old(h)) ==> final(self).in_heap(final(h))
            },
            !r ==> *final(self) == *old(self) && *final(h) == *old(h),
    {
        if (self.data.len() as u64) < self.cap {
            self.data.push(v);
            return true;
        }
        if self.cap > MAX_BUFFER_CAPACITY / 2 {
            return false;
        }
        let newcap: u64 = self.cap * 2;
        match h.allocate(newcap * 8, 8) {
            Some(a) => {
                // the words move to the doubled span; the old span goes
                // back to the allocator, whose free is a no-op
                let old_addr = self.addr;
                self.addr = a;
                self.cap = newcap;
                h.free(old_addr, self.cap / 2 * 8, 8);
                self.data.push(v);
                true
            },
            None => false,
        }
    }

    /// Number of words held.
    pub fn len(&self) -> (r: usize)
        ensures
            r == self@.len(),
    {
        self.data.len()
    }

    /// The word at an index.
    pub fn get(&self, i: usize) -> (r: u64)
        requires
            i < self@.len(),
        ensures
            r == self@[i as int],
    {
        self.data[i]
    }

    /// Base of the owned heap span, as executable code: where the words
    /// live in the heap range.
    pub fn addr(&self) -> (r: u64)
        ensures
            r == self.addr_spec(),
    {
        self.addr
    }
}

/// A reference-counted buffer of 64-bit words: one shared cell carrying the
/// strong count and the heap span; handles are counted explicitly.
pub struct RcBuffer {
    addr: u64,
    strong: u64,
    data: Vec<u64>,
}

impl RcBuffer {
    /// The words held, in order.
    pub closed spec fn view(&self) -> Seq<u64> {
        self.data@
    }

    /// Base of the owned heap span.
    pub closed spec fn addr_spec(&self) -> u64 {
        self.addr
    }

    /// How many handles are alive.
    pub closed spec fn strong_spec(&self) -> u64 {
        self.strong
    }

    /// The span size in bytes stays within 64 bits.
    pub open spec fn wf(&self) -> bool {
        self@.len() <= MAX_BUFFER_CAPACITY
    }

    /// Builds the cell with one live handle; nothing when the heap is
    /// exhausted. The span holds the given words (at least one word of
    /// span, so the cell has an address even when empty).
    pub fn new(h: &mut BumpAllocator, data: Vec<u64>) -> (r: Option<RcBuffer>)
        requires
            old(h).wf(),
            data@.len() <= MAX_BUFFER_CAPACITY,
        ensures
            final(h).wf(),
            final(h).heap_start() == old(h).heap_start(),
            final(h).heap_end() == old(h).heap_end(),
            r is Some <==> align_up(old(h).next_free(), 8) + 8 * (if data@.len() == 0 {
                1int
            } else {
                data@.len() as int
            }) <= old(h).heap_end(),
            r matches Some(b) ==> {
                &&& b@ == data@
                &&& b.wf()
                &&& b.strong_spec() == 1
                &&& old(h).heap_start() <= b.addr_spec() < old(h).heap_end()
            },
            r is None ==> *final(h) == *old(h),
    {
        let words: u64 = if data.len() == 0 {
            1
        } else {
            data.len() as u64
        };
        match h.allocate(words * 8, 8) {
            Some(a) => Some(RcBuffer { addr: a, strong: 1, data }),
            None => None,
        }
    }

    /// One more handle: the strong count grows by one.
    pub fn clone_handle(&mut self)
        requires
            old(self).strong_spec() < u64::MAX,
        ensures
            final(self).strong_spec() == old(self).strong_spec() + 1,
            final(self)@ == old(self)@,
            final(self).addr_spec() == old(self).addr_spec(),
    {
        self.strong = self.strong + 1;
    }

    /// How many handles are alive.
    pub fn strong_count(&self) -> (r: u64)
        ensures
            r == self.strong_spec(),
    {
        self.strong
    }

    /// Drops one handle. When the last one goes, the span returns to the
    /// allocator (a no-op free under the bump allocator) and the call
    /// reports that the storage was released.
    pub fn drop_handle(&mut self, h: &mut BumpAllocator) -> (released: bool)
        requires
            old(self).wf(),
            old(self).strong_spec() >= 1,
        ensures
            final(self).wf(),
            final(self).strong_spec() == old(self).strong_spec() - 1,
            final(self)@ == old(self)@,
            released <==> old(self).strong_spec() == 1,
            *final(h) == *old(h),
    {
        self.strong = self.strong - 1;
        if self.strong == 0 {
            let len: u64 = if self.data.len() == 0 {
                1
            } else {
                self.data.len() as u64
            };
            h.free(self.addr, len * 8, 8);
            true
        } else {
            false
        }
    }

    /// The word at an index.
    pub fn get(&self, i: usize) -> (r: u64)
        requires
            i < self@.len(),
        ensures
            r == self@[i as int],
    {
        self.data[i]
    }
}

} // verus!
