//! The physical frame source: a one-shot cursor over the frames marked
//! usable in the boot-time memory map.
//!
//! The memory map is a list of physical address regions, each marked
//! usable or not.  The usable frames are the page-sized steps through each
//! usable region, in map order; the allocator hands them out one by one
//! and never takes one back (no release operation exists).

use vstd::prelude::*;
use crate::align::lemma_mod_sum_zero;
use crate::memory::{page_containing, FrameSource, PAGE_SIZE};
use vstd::arithmetic::div_mod::{
    lemma_div_plus_one,
    lemma_fundamental_div_mod,
    lemma_mod_division_less_than_divisor,
    lemma_mod_multiples_basic,
};

verus! {

/// One region of the boot-time memory map: physical addresses
/// `[start, end)`, usable for allocation or not.
///
/// The boot loader hands out page-aligned usable regions; the frame
/// addresses are aligned down to their page in any case, as a frame is
/// identified by the page holding its first address.
#[derive(Clone, Copy, Debug, PartialEq, Eq, Structural)]
pub struct MemoryRegion {
    pub start: u64,
    pub end: u64,
    pub usable: bool,
}

/// How many frames a region contributes: one per page-sized step through
/// a usable region, none otherwise.
pub open spec fn region_frame_count(r: MemoryRegion) -> int {
    if r.usable && r.end > r.start {
        (r.end - r.start + PAGE_SIZE - 1) / (PAGE_SIZE as int)
    } else {
        0
    }
}

/// The frames a region contributes: the start addresses of the pages
/// holding each page-sized step through the region.
pub open spec fn region_frames(r: MemoryRegion) -> Seq<u64> {
    Seq::new(
        region_frame_count(r) as nat,
        |k: int| (page_containing(r.start + k * PAGE_SIZE) * PAGE_SIZE) as u64,
    )
}

/// The frames the regions at or after position `i` contribute, in order.
pub open spec fn frames_from(s: Seq<MemoryRegion>, i: int) -> Seq<u64>
    recommends
        0 <= i <= s.len(),
    decreases s.len() - i,
    when 0 <= i <= s.len()
{
    if i >= s.len() {
        Seq::empty()
    } else {
        region_frames(s[i]) + frames_from(s, i + 1)
    }
}

/// All usable frames of a memory map, in map order.
pub open spec fn usable_frames_seq(s: Seq<MemoryRegion>) -> Seq<u64> {
    frames_from(s, 0)
}

/// A valid boot-time memory map: usable regions start on a page boundary
/// (the boot loader's guarantee) and no two usable regions overlap, so
/// every usable frame occurs exactly once.
pub open spec fn memory_map_wf(s: Seq<MemoryRegion>) -> bool {
    &&& forall|i: int|
        0 <= i < s.len() && (#[trigger] s[i]).usable ==> (s[i].start as int) % (
        PAGE_SIZE as int) == 0
    &&& forall|i: int, j: int|
        0 <= i < s.len() && 0 <= j < s.len() && i != j && (#[trigger] s[i]).usable && (
        #[trigger] s[j]).usable ==> (s[i].end <= s[j].start || s[j].end <= s[i].start)
}

/// Some usable region at or after position `lo` holds the frame.
pub open spec fn frame_located_from(s: Seq<MemoryRegion>, lo: int, f: u64) -> bool {
    exists|m: int|
        #![trigger s[m]]
        lo <= m < s.len() && s[m].usable && s[m].start <= f < s[m].end
}

/// The frames of a page-aligned usable region: the `k`-th is
/// `start + k * PAGE_SIZE`, it lies inside the region, and no two are
/// equal.
pub proof fn lemma_region_frames_located(r: MemoryRegion)
    requires
        r.usable,
        (r.start as int) % (PAGE_SIZE as int) == 0,
    ensures
        forall|k: int|
            0 <= k < region_frames(r).len() ==> (#[trigger] region_frames(r)[k]) as int
                == r.start + k * (PAGE_SIZE as int) && r.start <= region_frames(r)[k]
                < r.end,
        forall|k1: int, k2: int|
            0 <= k1 < region_frames(r).len() && 0 <= k2 < region_frames(r).len() && k1 != k2
                ==> (#[trigger] region_frames(r)[k1]) != (#[trigger] region_frames(r)[k2]),
{
    let p = PAGE_SIZE as int;
    let count = region_frame_count(r);
    if count > 0 {
        let x = r.end - r.start;
        lemma_div_plus_one(x - 1, p);
        lemma_fundamental_div_mod(x - 1, p);
        lemma_mod_division_less_than_divisor(x - 1, p);
        assert((count - 1) * p <= x - 1) by (nonlinear_arith)
            requires
                count - 1 == (x - 1) / p,
                x - 1 == ((x - 1) / p) * p + (x - 1) % p,
                (x - 1) % p >= 0,
        ;
    }
    assert forall|k: int| 0 <= k < region_frames(r).len() implies (#[trigger] region_frames(
        r,
    )[k]) as int == r.start + k * p && r.start <= region_frames(r)[k] < r.end by {
        let a = r.start + k * p;
        lemma_mod_multiples_basic(k, p);
        lemma_mod_sum_zero(r.start as int, k * p, p);
        lemma_fundamental_div_mod(a, p);
        assert((a / p) * p == a);
        assert(0 <= k * p) by (nonlinear_arith)
            requires
                0 <= k,
                0 < p,
        ;
        assert(k * p <= (count - 1) * p) by (nonlinear_arith)
            requires
                k <= count - 1,
                0 < p,
        ;
    }
    assert forall|k1: int, k2: int|
        0 <= k1 < region_frames(r).len() && 0 <= k2 < region_frames(r).len() && k1 != k2
        implies (#[trigger] region_frames(r)[k1]) != (#[trigger] region_frames(r)[k2]) by {
        assert(k1 * p != k2 * p) by (nonlinear_arith)
            requires
                k1 != k2,
                0 < p,
        ;
    }
}

/// Under a valid map, every frame at or after position `i` lies in one
/// of the usable regions there, and no frame repeats.
pub proof fn lemma_frames_from_distinct(s: Seq<MemoryRegion>, i: int)
    requires
        memory_map_wf(s),
        0 <= i <= s.len(),
    ensures
        forall|n: int|
            0 <= n < frames_from(s, i).len() ==> frame_located_from(
                s,
                i,
                #[trigger] frames_from(s, i)[n],
            ),
        forall|n1: int, n2: int|
            0 <= n1 < frames_from(s, i).len() && 0 <= n2 < frames_from(s, i).len() && n1 != n2
                ==> (#[trigger] frames_from(s, i)[n1]) != (#[trigger] frames_from(s, i)[n2]),
    decreases s.len() - i,
{
    if i < s.len() {
        lemma_frames_from_distinct(s, i + 1);
        let cur = region_frames(s[i]);
        let rest = frames_from(s, i + 1);
        let c = cur.len() as int;
        assert(frames_from(s, i) == cur + rest);
        if s[i].usable {
            lemma_region_frames_located(s[i]);
        }
        assert forall|n: int| 0 <= n < frames_from(s, i).len() implies frame_located_from(
            s,
            i,
            #[trigger] frames_from(s, i)[n],
        ) by {
            if n < c {
                assert(frames_from(s, i)[n] == cur[n]);
                assert(s[i].usable && s[i].start <= cur[n] < s[i].end);
            } else {
                assert(frames_from(s, i)[n] == rest[n - c]);
                assert(frame_located_from(s, i + 1, rest[n - c]));
                let m = choose|m: int|
                    #![trigger s[m]]
                    i + 1 <= m < s.len() && s[m].usable && s[m].start <= rest[n - c] < s[m].end;
                assert(i <= m < s.len() && s[m].usable && s[m].start <= frames_from(s, i)[n]
                    < s[m].end);
            }
        }
        assert forall|n1: int, n2: int|
            0 <= n1 < frames_from(s, i).len() && 0 <= n2 < frames_from(s, i).len() && n1 != n2
            implies (#[trigger] frames_from(s, i)[n1]) != (#[trigger] frames_from(s, i)[
            n2]) by {
            if n1 < c && n2 < c {
                assert(frames_from(s, i)[n1] == cur[n1]);
                assert(frames_from(s, i)[n2] == cur[n2]);
            } else if n1 >= c && n2 >= c {
                assert(frames_from(s, i)[n1] == rest[n1 - c]);
                assert(frames_from(s, i)[n2] == rest[n2 - c]);
            } else {
                // one frame sits in region `i`, the other in some later
                // usable region; a valid map keeps those regions disjoint
                let nc = if n1 < c {
                    n2
                } else {
                    n1
                };
                let nr = if n1 < c {
                    n1
                } else {
                    n2
                };
                assert(frames_from(s, i)[nr] == cur[nr]);
                assert(frames_from(s, i)[nc] == rest[nc - c]);
                assert(frame_located_from(s, i + 1, rest[nc - c]));
                let m = choose|m: int|
                    #![trigger s[m]]
                    i + 1 <= m < s.len() && s[m].usable && s[m].start <= rest[nc - c] < s[m].end;
                assert(s[i].end <= s[m].start || s[m].end <= s[i].start);
            }
        }
    }
}

/// A frame allocator that returns the usable frames of the boot-time
/// memory map, in order, each one exactly once.
pub struct BootInfoFrameAllocator {
    pub memory_map: Vec<MemoryRegion>,
    pub next: usize,
}

impl BootInfoFrameAllocator {
    /// Well-formedness: the memory map is a valid boot-time map.
    pub open spec fn wf(self) -> bool {
        memory_map_wf(self.memory_map@)
    }

    /// How many usable frames the cursor has consumed (positions past the
    /// end consume nothing more).
    pub open spec fn frames_taken(self) -> int {
        let len = usable_frames_seq(self.memory_map@).len() as int;
        if self.next <= len {
            self.next as int
        } else {
            len
        }
    }

    /// The set of frames handed out so far: the consumed prefix of the
    /// usable-frame sequence.
    pub open spec fn spec_frames_allocated(self) -> Set<u64> {
        usable_frames_seq(self.memory_map@).take(self.frames_taken()).to_set()
    }

    /// Create a frame allocator from the given memory map.
    ///
    /// The caller guarantees the map is the one the boot loader provided
    /// and that all frames marked usable in it are really unused — in
    /// particular that the map is valid: usable regions page-aligned and
    /// pairwise disjoint.
    pub fn init(memory_map: Vec<MemoryRegion>) -> (r: Self)
        requires
            memory_map_wf(memory_map@),
        ensures
            r.memory_map == memory_map,
            r.next == 0,
            r.wf(),
            r.spec_frames_allocated() == Set::<u64>::empty(),
    {
        proof {
            assert(usable_frames_seq(memory_map@).take(0) =~= Seq::<u64>::empty());
            assert(Seq::<u64>::empty().to_set() =~= Set::<u64>::empty());
        }
        BootInfoFrameAllocator { memory_map, next: 0 }
    }

    /// Returns the next usable frame of the memory map: the cursor walks
    /// the sequence of usable frames front to back, and reports `None`
    /// once it has moved past the end (the cursor still advances then, as
    /// every call consumes one position; when the cursor position itself
    /// can no longer advance, the source stays exhausted).
    pub fn next_usable_frame(&mut self) -> (r: Option<u64>)
        ensures
            final(self).memory_map == old(self).memory_map,
            old(self).next == usize::MAX ==> r is None && *final(self) == *old(self),
            old(self).next < usize::MAX ==> {
                let frames = usable_frames_seq(old(self).memory_map@);
                &&& final(self).next == old(self).next + 1
                &&& r == (if old(self).next < frames.len() {
                    Some(frames[old(self).next as int])
                } else {
                    Option::<u64>::None
                })
            },
    {
        if self.next == usize::MAX {
            return None;
        }
        let ghost s = self.memory_map@;
        let target: usize = self.next;
        self.next = self.next + 1;
        let mut remaining: usize = target;
        let mut idx: usize = 0;
        while idx < self.memory_map.len()
            invariant
                0 <= idx <= s.len(),
                s == self.memory_map@,
                self.memory_map == old(self).memory_map,
                target == old(self).next,
                self.next == target + 1,
                target < usize::MAX,
                remaining <= target,
                usable_frames_seq(s).len() == (target - remaining) + frames_from(
                    s,
                    idx as int,
                ).len(),
                forall|m: int|
                    0 <= m < frames_from(s, idx as int).len() ==> #[trigger] frames_from(
                        s,
                        idx as int,
                    )[m] == usable_frames_seq(s)[target - remaining + m],
            decreases s.len() - idx,
        {
            let region: MemoryRegion = self.memory_map[idx];
            let count: u64 = if region.usable && region.end > region.start {
                (region.end - region.start - 1) / PAGE_SIZE + 1
            } else {
                0
            };
            proof {
                if region.usable && region.end > region.start {
                    let x = region.end - region.start;
                    vstd::arithmetic::div_mod::lemma_div_plus_one(
                        x - 1,
                        PAGE_SIZE as int,
                    );
                    assert((x - 1) / (PAGE_SIZE as int) + 1 == (x + PAGE_SIZE - 1) / (
                    PAGE_SIZE as int));
                }
                assert(count == region_frame_count(region));
            }
            if (remaining as u64) < count {
                proof {
                    // the step stays inside the region, so the address
                    // arithmetic cannot overflow
                    let x = region.end - region.start;
                    let p = PAGE_SIZE as int;
                    vstd::arithmetic::div_mod::lemma_fundamental_div_mod(x - 1, p);
                    vstd::arithmetic::div_mod::lemma_mod_division_less_than_divisor(x - 1, p);
                    assert((count - 1) * p <= x - 1) by (nonlinear_arith)
                        requires
                            count - 1 == (x - 1) / p,
                            x - 1 == ((x - 1) / p) * p + (x - 1) % p,
                            (x - 1) % p >= 0,
                    ;
                    assert(remaining * p <= (count - 1) * p) by (nonlinear_arith)
                        requires
                            remaining <= count - 1,
                            p > 0,
                    ;
                }
                let addr: u64 = region.start + (remaining as u64) * PAGE_SIZE;
                let frame: u64 = addr / PAGE_SIZE * PAGE_SIZE;
                proof {
                    let frames = usable_frames_seq(s);
                    assert(frames_from(s, idx as int) == region_frames(s[idx as int])
                        + frames_from(s, idx as int + 1));
                    assert(frames_from(s, idx as int)[remaining as int] == region_frames(
                        region,
                    )[remaining as int]);
                    assert(target < frames.len());
                    assert(frames_from(s, idx as int)[remaining as int] == frames[target as int]);
                }
                return Some(frame);
            }
            proof {
                let k = target - remaining;
                let c = region_frame_count(region);
                assert(frames_from(s, idx as int) == region_frames(s[idx as int]) + frames_from(
                    s,
                    idx as int + 1,
                ));
                assert forall|m: int|
                    0 <= m < frames_from(s, idx as int + 1).len() implies #[trigger] frames_from(
                    s,
                    idx as int + 1,
                )[m] == usable_frames_seq(s)[k + c + m] by {
                    assert(frames_from(s, idx as int)[c + m] == frames_from(s, idx as int + 1)[m]);
                    assert(frames_from(s, idx as int)[c + m] == usable_frames_seq(s)[k + (c + m)]);
                }
            }
            remaining = remaining - (count as usize);
            idx = idx + 1;
        }
        proof {
            assert(frames_from(s, s.len() as int).len() == 0);
            assert(usable_frames_seq(s).len() <= target);
        }
        None
    }
}

impl FrameSource for BootInfoFrameAllocator {
    open spec fn inv(&self) -> bool {
        self.wf()
    }

    open spec fn frames_allocated(&self) -> Set<u64> {
        self.spec_frames_allocated()
    }

    fn allocate_frame(&mut self) -> (r: Option<u64>) {
        let r = self.next_usable_frame();
        proof {
            let s = old(self).memory_map@;
            let frames = usable_frames_seq(s);
            lemma_frames_from_distinct(s, 0);
            if old(self).next < usize::MAX && (old(self).next as int) < frames.len() {
                let n = old(self).next as int;
                let f = frames[n];
                // the consumed prefix holds only frames with a smaller
                // index, and no frame repeats, so f is fresh
                assert forall|x: u64| frames.take(n).to_set().contains(x) implies x != f by {
                    let k = choose|k: int|
                        #![trigger frames.take(n)[k]]
                        0 <= k < frames.take(n).len() && frames.take(n)[k] == x;
                    assert(frames[k] == x);
                    assert(frames[k] != frames[n]);
                }
                assert(!old(self).spec_frames_allocated().contains(f));
                assert(self.frames_taken() == n + 1);
                assert(self.spec_frames_allocated() =~= old(
                    self,
                ).spec_frames_allocated().insert(f)) by {
                    assert forall|x: u64|
                        self.spec_frames_allocated().contains(x) <==> old(
                            self,
                        ).spec_frames_allocated().insert(f).contains(x) by {
                        if self.spec_frames_allocated().contains(x) {
                            let k = choose|k: int|
                                #![trigger frames.take(n + 1)[k]]
                                0 <= k < frames.take(n + 1).len() && frames.take(n + 1)[k] == x;
                            if k < n {
                                assert(frames.take(n)[k] == x);
                            } else {
                                assert(x == f);
                            }
                        }
                        if old(self).spec_frames_allocated().contains(x) {
                            let k = choose|k: int|
                                #![trigger frames.take(n)[k]]
                                0 <= k < frames.take(n).len() && frames.take(n)[k] == x;
                            assert(frames.take(n + 1)[k] == x);
                        }
                        if x == f {
                            assert(frames.take(n + 1)[n] == f);
                        }
                    }
                }
            } else {
                assert(self.frames_taken() == old(self).frames_taken());
            }
        }
        r
    }
}

} // verus!
