//! The boot-time frame allocator.
//!
//! A bump allocator over the usable regions of the firmware memory map: it
//! enumerates the 4 KiB frames of the usable regions in order and hands out
//! the next one on each call. Frames are never reused; exhaustion is an
//! error. The enumeration is strictly increasing, so no frame is ever
//! returned twice and every returned frame lies in a usable region.

use vstd::prelude::*;
use crate::addr::{page_aligned, Frame, PhysAddr, frame_wf, MAX_PHYS_ADDR};
use crate::memmap::{MemoryRegion, RegionKind, memory_map_wf, region_wf, lemma_memory_map_wf_prefix};
use vstd::arithmetic::div_mod::lemma_fundamental_div_mod;

verus! {

/// The frame allocator is out of usable frames.
#[derive(Clone, Copy, PartialEq, Eq, Structural, Debug)]
pub enum FrameAllocError {
    Exhausted,
}

/// Alignment over the low twelve bits agrees with alignment as a remainder.
pub proof fn lemma_aligned_iff_mod(a: u64)
    ensures
        page_aligned(a) <==> a % 4096 == 0,
{
    assert((a & 0xfff == 0) <==> (a % 4096 == 0)) by (bit_vector);
}

/// The frames a single region contributes: every 4 KiB step of a usable
/// region, nothing of any other region.
pub open spec fn region_frames(r: MemoryRegion) -> Seq<u64> {
    if r.kind == RegionKind::Usable {
        Seq::new((r.length / 4096) as nat, |k: int| (r.base + 4096 * k) as u64)
    } else {
        Seq::empty()
    }
}

/// All usable frames of a memory map, in map order.
pub open spec fn usable_frames(rs: Seq<MemoryRegion>) -> Seq<u64>
    decreases rs.len(),
{
    if rs.len() == 0 {
        Seq::empty()
    } else {
        usable_frames(rs.drop_last()) + region_frames(rs.last())
    }
}

/// Every frame of a well-formed region is aligned, lies inside the region,
/// and the enumeration inside the region is strictly increasing.
pub proof fn lemma_region_frames_bounds(r: MemoryRegion)
    requires
        region_wf(r),
    ensures
        forall|j: int| 0 <= j < region_frames(r).len() ==> {
            &&& r.base <= #[trigger] region_frames(r)[j]
            &&& region_frames(r)[j] + 4096 <= r.base + r.length
            &&& page_aligned(region_frames(r)[j])
            &&& region_frames(r)[j] < MAX_PHYS_ADDR
        },
        forall|j: int, k: int| 0 <= j < k < region_frames(r).len()
            ==> #[trigger] region_frames(r)[j] < #[trigger] region_frames(r)[k],
{
    if r.kind == RegionKind::Usable {
        lemma_fundamental_div_mod(r.length as int, 4096);
        lemma_aligned_iff_mod(r.length);
        assert(4096 * (r.length as int / 4096) == r.length);
        assert forall|j: int| 0 <= j < region_frames(r).len() implies {
            &&& r.base <= #[trigger] region_frames(r)[j]
            &&& region_frames(r)[j] + 4096 <= r.base + r.length
            &&& page_aligned(region_frames(r)[j])
            &&& region_frames(r)[j] < MAX_PHYS_ADDR
        } by {
            let f = r.base + 4096 * j;
            assert(4096 * j + 4096 == 4096 * (j + 1));
            assert(4096 * (j + 1) <= 4096 * (r.length as int / 4096));
            let fu = f as u64;
            assert(fu == f);
            lemma_aligned_iff_mod(r.base);
            lemma_aligned_iff_mod(fu);
            assert(fu as int % 4096 == 0) by (nonlinear_arith)
                requires
                    fu == r.base + 4096 * j,
                    r.base % 4096 == 0,
                    0 <= j,
            ;
        }
    }
}

/// The usable-frame enumeration of a well-formed map is strictly
/// increasing, every frame lies below the end of the map, and the map can
/// hold only as many frames as fit below its end.
pub proof fn lemma_usable_frames_increasing(rs: Seq<MemoryRegion>)
    requires
        memory_map_wf(rs),
    ensures
        forall|j: int, k: int| 0 <= j < k < usable_frames(rs).len()
            ==> #[trigger] usable_frames(rs)[j] < #[trigger] usable_frames(rs)[k],
        forall|j: int| 0 <= j < usable_frames(rs).len() ==> {
            &&& #[trigger] usable_frames(rs)[j] + 4096 <= map_end(rs)
            &&& page_aligned(usable_frames(rs)[j])
            &&& usable_frames(rs)[j] < MAX_PHYS_ADDR
        },
        usable_frames(rs).len() * 4096 <= map_end(rs),
        map_end(rs) <= MAX_PHYS_ADDR,
    decreases rs.len(),
{
    if rs.len() > 0 {
        let head = rs.drop_last();
        let last = rs.last();
        let hf = usable_frames(head);
        let rf = region_frames(last);
        let uf = usable_frames(rs);
        assert(uf == hf + rf);
        assert(head =~= rs.take(rs.len() - 1));
        lemma_memory_map_wf_prefix(rs, rs.len() - 1);
        lemma_usable_frames_increasing(head);
        lemma_region_frames_bounds(last);
        if head.len() > 0 {
            assert(head.last() == rs[rs.len() - 2]);
            assert(map_end(head) <= last.base);
        }
        if last.kind == RegionKind::Usable {
            lemma_fundamental_div_mod(last.length as int, 4096);
            lemma_aligned_iff_mod(last.length);
            assert(rf.len() * 4096 <= last.length);
        }
        assert forall|j: int| 0 <= j < uf.len() implies {
            &&& #[trigger] uf[j] + 4096 <= map_end(rs)
            &&& page_aligned(uf[j])
            &&& uf[j] < MAX_PHYS_ADDR
        } by {
            if j < hf.len() {
                assert(uf[j] == hf[j]);
            } else {
                assert(uf[j] == rf[j - hf.len()]);
            }
        }
        assert forall|j: int, k: int| 0 <= j < k < uf.len() implies #[trigger] uf[j]
            < #[trigger] uf[k] by {
            if k < hf.len() {
                assert(uf[j] == hf[j] && uf[k] == hf[k]);
            } else if j >= hf.len() {
                assert(uf[j] == rf[j - hf.len()] && uf[k] == rf[k - hf.len()]);
            } else {
                assert(uf[j] == hf[j] && uf[k] == rf[k - hf.len()]);
                assert(hf[j] + 4096 <= map_end(head));
                assert(last.base <= rf[k - hf.len()]);
            }
        }
        assert(uf.len() * 4096 == hf.len() * 4096 + rf.len() * 4096);
    }
}

/// Where a memory map ends: the end of its last region, zero when empty.
pub open spec fn map_end(rs: Seq<MemoryRegion>) -> int {
    if rs.len() == 0 {
        0
    } else {
        rs.last().base + rs.last().length
    }
}

/// No frame appears twice in the usable-frame enumeration of a well-formed
/// memory map: the allocator can never hand out the same frame twice.
pub proof fn lemma_usable_frames_distinct(rs: Seq<MemoryRegion>)
    requires
        memory_map_wf(rs),
    ensures
        forall|j: int, k: int|
            0 <= j < usable_frames(rs).len() && 0 <= k < usable_frames(rs).len() && j != k
            ==> #[trigger] usable_frames(rs)[j] != #[trigger] usable_frames(rs)[k],
{
    lemma_usable_frames_increasing(rs);
}

/// Every usable frame of a well-formed map lies fully inside some usable
/// region of the map.
pub proof fn lemma_usable_frame_in_usable_region(rs: Seq<MemoryRegion>, k: int)
    requires
        memory_map_wf(rs),
        0 <= k < usable_frames(rs).len(),
    ensures
        exists|i: int| {
            &&& 0 <= i < rs.len()
            &&& (#[trigger] rs[i]).kind == RegionKind::Usable
            &&& rs[i].base <= usable_frames(rs)[k]
            &&& usable_frames(rs)[k] + 4096 <= rs[i].base + rs[i].length
        },
    decreases rs.len(),
{
    assert(rs.len() > 0);
    let head = rs.drop_last();
    let last = rs.last();
    assert(usable_frames(rs) == usable_frames(head) + region_frames(last));
    assert(head =~= rs.take(rs.len() - 1));
    lemma_memory_map_wf_prefix(rs, rs.len() - 1);
    if k < usable_frames(head).len() {
        assert(usable_frames(rs)[k] == usable_frames(head)[k]);
        lemma_usable_frame_in_usable_region(head, k);
        let i = choose|i: int| {
            &&& 0 <= i < head.len()
            &&& (#[trigger] head[i]).kind == RegionKind::Usable
            &&& head[i].base <= usable_frames(head)[k]
            &&& usable_frames(head)[k] + 4096 <= head[i].base + head[i].length
        };
        assert(rs[i] == head[i]);
    } else {
        lemma_region_frames_bounds(last);
        let i = rs.len() - 1;
        assert(usable_frames(rs)[k] == region_frames(last)[k - usable_frames(head).len()]);
        assert(rs[i].base <= usable_frames(rs)[k] && usable_frames(rs)[k] + 4096 <= rs[i].base
            + rs[i].length);
    }
}

/// A prefix of the map enumerates a prefix of the usable frames.
pub proof fn lemma_usable_frames_prefix(rs: Seq<MemoryRegion>, n: int)
    requires
        0 <= n <= rs.len(),
    ensures
        usable_frames(rs.take(n)).len() <= usable_frames(rs).len(),
        forall|j: int| 0 <= j < usable_frames(rs.take(n)).len()
            ==> #[trigger] usable_frames(rs.take(n))[j] == usable_frames(rs)[j],
    decreases rs.len() - n,
{
    if n == rs.len() {
        assert(rs.take(n) =~= rs);
    } else {
        lemma_usable_frames_prefix(rs, n + 1);
        assert(rs.take(n + 1).drop_last() =~= rs.take(n));
        assert(rs.take(n + 1).last() == rs[n]);
        assert(usable_frames(rs.take(n + 1)) == usable_frames(rs.take(n)) + region_frames(rs[n]));
        assert forall|j: int| 0 <= j < usable_frames(rs.take(n)).len()
            implies #[trigger] usable_frames(rs.take(n))[j] == usable_frames(rs)[j] by {
            assert(usable_frames(rs.take(n + 1))[j] == usable_frames(rs.take(n))[j]);
        }
    }
}

/// Frame-allocator state: the memory map it draws from, and the cursor
/// counting frames already handed out.
pub struct BootInfoFrameAllocator {
    regions: Vec<MemoryRegion>,
    next: u64,
}

impl BootInfoFrameAllocator {
    /// The memory map the allocator draws from.
    pub closed spec fn regions(&self) -> Seq<MemoryRegion> {
        self.regions@
    }

    /// How many frames were already handed out.
    pub closed spec fn cursor(&self) -> u64 {
        self.next
    }

    /// Total number of usable frames in the map.
    pub open spec fn total(&self) -> nat {
        usable_frames(self.regions()).len()
    }

    /// How many frames are still to be handed out.
    pub open spec fn remaining(&self) -> nat {
        (self.total() - self.cursor()) as nat
    }

    /// Well-formed allocator: a well-formed map and a cursor that never
    /// passed the total.
    pub open spec fn wf(&self) -> bool {
        &&& memory_map_wf(self.regions())
        &&& self.cursor() <= self.total()
    }

    /// Builds the allocator over a well-formed memory map, with no frame
    /// handed out yet.
    pub fn init(memory_map: Vec<MemoryRegion>) -> (r: BootInfoFrameAllocator)
        requires
            memory_map_wf(memory_map@),
        ensures
            r.wf(),
            r.regions() == memory_map@,
            r.cursor() == 0,
    {
        BootInfoFrameAllocator { regions: memory_map, next: 0 }
    }

    /// Hands out the next usable frame of the map, or reports exhaustion.
    /// The result is exactly the cursor-th element of the usable-frame
    /// enumeration, so the returned frames are pairwise distinct and each
    /// lies in a usable region (`lemma_usable_frames_distinct`,
    /// `lemma_usable_frame_in_usable_region`).
    pub fn allocate(&mut self) -> (r: Result<Frame, FrameAllocError>)
        requires
            old(self).wf(),
        ensures
            final(self).wf(),
            final(self).regions() == old(self).regions(),
            r is Ok <==> old(self).cursor() < old(self).total(),
            r matches Ok(f) ==> {
                &&& f.base.u == usable_frames(old(self).regions())[old(self).cursor() as int]
                &&& frame_wf(f)
                &&& final(self).cursor() == old(self).cursor() + 1
            },
            r is Err ==> r == Err::<Frame, FrameAllocError>(FrameAllocError::Exhausted)
                && *final(self) == *old(self),
    {
        let ghost rs = self.regions@;
        proof {
            lemma_usable_frames_increasing(rs);
            assert(rs.take(0) =~= Seq::<MemoryRegion>::empty());
        }
        let n = self.regions.len();
        let mut i: usize = 0;
        let mut k: u64 = self.next;
        while i < n
            invariant
                self == old(self),
                rs == self.regions@,
                self.wf(),
                n == rs.len(),
                0 <= i <= n,
                usable_frames(rs.take(i as int)).len() <= self.next,
                k == self.next - usable_frames(rs.take(i as int)).len(),
                usable_frames(rs).len() * 4096 <= MAX_PHYS_ADDR,
            decreases n - i,
        {
            let r = self.regions[i];
            proof {
                lemma_usable_frames_prefix(rs, i + 1);
                assert(rs.take(i as int + 1).drop_last() =~= rs.take(i as int));
                assert(rs.take(i as int + 1).last() == rs[i as int]);
                assert(usable_frames(rs.take(i as int + 1)) == usable_frames(rs.take(i as int))
                    + region_frames(rs[i as int]));
                lemma_region_frames_bounds(rs[i as int]);
            }
            if r.kind == RegionKind::Usable {
                let cnt: u64 = r.length / 4096;
                proof {
                    lemma_fundamental_div_mod(r.length as int, 4096);
                    lemma_aligned_iff_mod(r.length);
                    assert(region_frames(rs[i as int]).len() == cnt);
                    assert(cnt * 4096 <= r.length);
                }
                if k < cnt {
                    proof {
                        assert(k * 4096 < cnt * 4096);
                        assert(k * 4096 + 4096 == (k + 1) * 4096);
                        assert((k + 1) * 4096 <= cnt * 4096);
                        assert(r.base + k * 4096 + 4096 <= r.base + r.length);
                    }
                    let base: u64 = r.base + k * 4096;
                    proof {
                        assert(k * 4096 == 4096 * (k as int));
                        assert(region_frames(rs[i as int])[k as int] == base);
                        let nx = self.next as int;
                        assert(nx == usable_frames(rs.take(i as int)).len() + k);
                        assert(nx < usable_frames(rs.take(i as int + 1)).len());
                        assert(usable_frames(rs.take(i as int + 1))[nx]
                            == region_frames(rs[i as int])[k as int]);
                        assert(usable_frames(rs)[nx] == usable_frames(rs.take(i as int + 1))[nx]);
                        assert(self.next < usable_frames(rs).len());
                        assert(usable_frames(rs).len() <= MAX_PHYS_ADDR / 4096);
                    }
                    let f = Frame { base: PhysAddr { u: base } };
                    self.next = self.next + 1;
                    return Ok(f);
                } else {
                    k = k - cnt;
                }
            }
            i = i + 1;
        }
        proof {
            assert(rs.take(n as int) =~= rs);
        }
        Err(FrameAllocError::Exhausted)
    }
}

/// A frame the allocator just granted was absent from memory, and after it
/// is brought in, the frames still to be handed out stay absent: granted
/// frames are pairwise distinct.
pub proof fn lemma_grant_keeps_unallocated(
    pre: BootInfoFrameAllocator,
    post: BootInfoFrameAllocator,
    mem: Map<u64, Seq<u64>>,
    f: u64,
    contents: Seq<u64>,
)
    requires
        pre.wf(),
        unallocated_frames_absent(pre, mem),
        post.regions() == pre.regions(),
        pre.cursor() < pre.total(),
        post.cursor() == pre.cursor() + 1,
        f == usable_frames(pre.regions())[pre.cursor() as int],
    ensures
        !mem.contains_key(f),
        unallocated_frames_absent(post, mem.insert(f, contents)),
{
    lemma_usable_frames_distinct(pre.regions());
    assert forall|k: int| post.cursor() <= k < post.total()
        implies !mem.insert(f, contents).contains_key(
        #[trigger] usable_frames(post.regions())[k],
    ) by {
        assert(usable_frames(pre.regions())[k] != f);
    }
}

/// No frame that the allocator may yet hand out exists in memory already:
/// the condition under which freshly allocated frames can be brought into
/// the physical-memory model as new zeroed frames.
pub open spec fn unallocated_frames_absent(
    a: BootInfoFrameAllocator,
    mem: Map<u64, Seq<u64>>,
) -> bool {
    forall|k: int| a.cursor() <= k < a.total()
        ==> !mem.contains_key(#[trigger] usable_frames(a.regions())[k])
}

} // verus!
