//! Physical memory map and the bump frame allocator built over it.
//!
//! The firmware hands the kernel an ordered list of memory regions, each
//! tagged usable or reserved. The usable regions, in their original order,
//! induce a finite sequence of 4096-byte-aligned physical frames; the
//! allocator walks that sequence once, never handing the same frame out
//! twice and never reclaiming one.
use vstd::prelude::*;

verus! {

/// Size in bytes of one physical frame and of one virtual page.
pub const PAGE_SIZE: u64 = 4096;

#[derive(Clone, Copy, PartialEq, Eq, Structural, Debug)]
pub enum MemoryRegionKind {
    Usable,
    Reserved,
}

/// One firmware-reported region of physical memory: the addresses
/// `[start, end)` with a usable/reserved classification.
#[derive(Clone, Copy, PartialEq, Eq, Structural, Debug)]
pub struct MemoryRegion {
    pub start: u64,
    pub end: u64,
    pub kind: MemoryRegionKind,
}

/// Largest frame-aligned address at or below `addr`.
pub open spec fn frame_base(addr: u64) -> int {
    (addr as int / PAGE_SIZE as int) * PAGE_SIZE as int
}

/// How many whole frames fit in `[start, end)`; reserved regions yield none.
pub open spec fn region_frame_count(r: MemoryRegion) -> nat {
    if r.kind == MemoryRegionKind::Usable && r.start <= r.end {
        (((r.end - r.start) as int) / (PAGE_SIZE as int)) as nat
    } else {
        0
    }
}

/// The frames a single region contributes, in ascending address order.
pub open spec fn region_frames(r: MemoryRegion) -> Seq<u64> {
    Seq::new(region_frame_count(r), |i: int| (frame_base(r.start) + PAGE_SIZE * i) as u64)
}

/// The full frame sequence of a memory map: usable regions in firmware
/// order, each partitioned into whole frames, concatenated.
pub open spec fn frames_of(regions: Seq<MemoryRegion>) -> Seq<u64>
    decreases regions.len(),
{
    if regions.len() == 0 {
        Seq::empty()
    } else {
        region_frames(regions[0]) + frames_of(regions.skip(1))
    }
}

/// One allocation step over the abstract frame sequence: at cursor `c` the
/// allocator yields frame `c` and advances, or reports exhaustion.
pub open spec fn alloc_step(frames: Seq<u64>, cursor: nat) -> (nat, Option<u64>) {
    if cursor < frames.len() {
        ((cursor + 1) as nat, Some(frames[cursor as int]))
    } else {
        (cursor, None)
    }
}

/// The results of `n` consecutive allocation steps starting at `cursor`.
pub open spec fn alloc_results(frames: Seq<u64>, cursor: nat, n: nat) -> Seq<Option<u64>>
    decreases n,
{
    if n == 0 {
        Seq::empty()
    } else {
        seq![alloc_step(frames, cursor).1] + alloc_results(
            frames,
            alloc_step(frames, cursor).0,
            (n - 1) as nat,
        )
    }
}

/// Bump allocator over the frames of a firmware memory map. The position is
/// kept as the current region index plus the bytes already consumed inside
/// that region, so the cursor only ever moves forward.
pub struct BootInfoFrameAllocator {
    pub regions: Vec<MemoryRegion>,
    pub region_idx: usize,
    pub offset: u64,
}

impl BootInfoFrameAllocator {
    /// The whole (immutable) frame sequence this allocator walks.
    pub open spec fn frames(&self) -> Seq<u64> {
        frames_of(self.regions@)
    }

    /// How many frames have been handed out so far.
    pub open spec fn cursor(&self) -> nat {
        frames_of(self.regions@.take(self.region_idx as int)).len() + (self.offset as int
            / PAGE_SIZE as int) as nat
    }

    /// How many frames are still available.
    pub open spec fn frames_remaining(&self) -> nat {
        if self.cursor() <= self.frames().len() {
            (self.frames().len() - self.cursor()) as nat
        } else {
            0
        }
    }

    pub open spec fn wf(&self) -> bool {
        &&& self.region_idx <= self.regions@.len()
        &&& self.offset % PAGE_SIZE == 0
        &&& (self.region_idx < self.regions@.len() ==> self.offset as int <= PAGE_SIZE as int
            * region_frame_count(self.regions@[self.region_idx as int]) as int)
        &&& (self.region_idx == self.regions@.len() ==> self.offset == 0)
    }

    /// Construct the allocator from the firmware memory map; no frame has
    /// been handed out yet.
    pub fn init(memory_map: Vec<MemoryRegion>) -> (r: Self)
        ensures
            r.wf(),
            r.regions@ == memory_map@,
            r.cursor() == 0,
    {
        let r = BootInfoFrameAllocator { regions: memory_map, region_idx: 0, offset: 0 };
        proof {
            assert(r.regions@.take(0) =~= Seq::<MemoryRegion>::empty());
        }
        r
    }

    /// Yield the next unused frame, or report exhaustion. The cursor never
    /// decreases and a frame already yielded is never yielded again.
    pub fn allocate_frame(&mut self) -> (r: Option<u64>)
        requires
            old(self).wf(),
        ensures
            final(self).wf(),
            final(self).regions@ == old(self).regions@,
            (final(self).cursor(), r) == alloc_step(old(self).frames(), old(self).cursor()),
            old(self).cursor() < old(self).frames().len() ==> r == Some(
                old(self).frames()[old(self).cursor() as int],
            ) && final(self).cursor() == old(self).cursor() + 1,
            old(self).cursor() >= old(self).frames().len() ==> r is None && final(self).cursor()
                == old(self).cursor(),
    {
        loop
            invariant
                self.wf(),
                self.regions@ == old(self).regions@,
                self.cursor() == old(self).cursor(),
                self.region_idx <= self.regions@.len(),
            ensures
                self.wf(),
                self.regions@ == old(self).regions@,
                self.cursor() == old(self).cursor(),
                self.region_idx == self.regions@.len(),
            decreases self.regions@.len() - self.region_idx,
        {
            if self.region_idx >= self.regions.len() {
                break;
            }
            let r = self.regions[self.region_idx];
            let usable_bytes: u64 = if r.kind == MemoryRegionKind::Usable && r.start <= r.end {
                proof {
                    lemma_region_arith(r);
                }
                ((r.end - r.start) / PAGE_SIZE) * PAGE_SIZE
            } else {
                0u64
            };
            proof {
                assert(usable_bytes as int == PAGE_SIZE as int * region_frame_count(r) as int);
            }
            if self.offset < usable_bytes {
                let ghost q = self.offset as int / PAGE_SIZE as int;
                proof {
                    lemma_region_arith(r);
                    vstd::arithmetic::div_mod::lemma_fundamental_div_mod(
                        self.offset as int,
                        PAGE_SIZE as int,
                    );
                    assert(self.offset as int == PAGE_SIZE as int * q);
                    assert(0 <= q < region_frame_count(r)) by (nonlinear_arith)
                        requires
                            self.offset as int == PAGE_SIZE as int * q,
                            self.offset < usable_bytes,
                            usable_bytes as int == PAGE_SIZE as int * region_frame_count(r) as int,
                            PAGE_SIZE as int > 0,
                    ;
                    lemma_frames_index(self.regions@, self.region_idx as int, q);
                    lemma_frame_base(r.start);
                    assert(frame_base(r.start) + PAGE_SIZE * q == frame_base(r.start)
                        + self.offset);
                }
                let frame: u64 = (r.start / PAGE_SIZE) * PAGE_SIZE + self.offset;
                self.offset = self.offset + PAGE_SIZE;
                proof {
                    lemma_frames_of_take_succ(self.regions@, self.region_idx as int);
                    assert(self.offset as int == PAGE_SIZE as int * (q + 1));
                    assert(self.offset as int / PAGE_SIZE as int == q + 1) by (nonlinear_arith)
                        requires
                            self.offset as int == PAGE_SIZE as int * (q + 1),
                            PAGE_SIZE as int > 0,
                    ;
                    assert(self.offset % PAGE_SIZE == 0) by (nonlinear_arith)
                        requires
                            self.offset as int == PAGE_SIZE as int * (q + 1),
                            PAGE_SIZE as int > 0,
                    ;
                }
                return Some(frame);
            } else {
                proof {
                    lemma_frames_of_take_succ(self.regions@, self.region_idx as int);
                    assert(self.offset == usable_bytes);
                    assert(self.offset as int / PAGE_SIZE as int == region_frame_count(r) as int)
                        by (nonlinear_arith)
                        requires
                            self.offset as int == PAGE_SIZE as int * region_frame_count(r) as int,
                            PAGE_SIZE as int > 0,
                    ;
                }
                self.region_idx = self.region_idx + 1;
                self.offset = 0;
            }
        }
        proof {
            assert(self.regions@.take(self.regions@.len() as int) =~= self.regions@);
        }
        None
    }
}

/// For a usable region, `PAGE_SIZE * region_frame_count` never exceeds the
/// region's length, and the last frame keeps a whole `PAGE_SIZE` below `end`.
pub proof fn lemma_region_arith(r: MemoryRegion)
    requires
        r.start <= r.end,
    ensures
        PAGE_SIZE as int * (((r.end - r.start) as int) / (PAGE_SIZE as int)) <= r.end - r.start,
        r.kind == MemoryRegionKind::Usable ==> PAGE_SIZE as int * region_frame_count(r) as int
            <= r.end - r.start,
{
    vstd::arithmetic::div_mod::lemma_fundamental_div_mod(
        (r.end - r.start) as int,
        PAGE_SIZE as int,
    );
}

/// Every address `frame_base` returns is frame-aligned and within one frame
/// below its argument.
pub proof fn lemma_frame_base(addr: u64)
    ensures
        frame_base(addr) % PAGE_SIZE as int == 0,
        frame_base(addr) <= addr as int,
        (addr as int) < frame_base(addr) + PAGE_SIZE as int,
        0 <= frame_base(addr),
{
    vstd::arithmetic::div_mod::lemma_fundamental_div_mod(addr as int, PAGE_SIZE as int);
    let q = addr as int / PAGE_SIZE as int;
    assert((PAGE_SIZE as int * q) % PAGE_SIZE as int == 0) by (nonlinear_arith);
    assert(q >= 0) by (nonlinear_arith)
        requires
            addr as int == PAGE_SIZE as int * q + addr as int % PAGE_SIZE as int,
            0 <= (addr as int % PAGE_SIZE as int) < PAGE_SIZE as int,
            addr >= 0,
    ;
}

/// The value and bounds of the `q`-th frame of a region.
pub proof fn lemma_region_frame_value(r: MemoryRegion, q: int)
    requires
        0 <= q < region_frame_count(r),
    ensures
        region_frames(r)[q] == frame_base(r.start) + PAGE_SIZE * q,
        frame_base(r.start) <= region_frames(r)[q],
        region_frames(r)[q] + PAGE_SIZE <= r.end,
        region_frames(r)[q] % PAGE_SIZE == 0,
{
    lemma_frame_base(r.start);
    lemma_region_arith(r);
    let v = frame_base(r.start) + PAGE_SIZE as int * q;
    assert(PAGE_SIZE as int * (q + 1) <= PAGE_SIZE as int * region_frame_count(r) as int)
        by (nonlinear_arith)
        requires
            q + 1 <= region_frame_count(r) as int,
            PAGE_SIZE as int > 0,
    ;
    assert(v + PAGE_SIZE <= r.end);
    assert(v % PAGE_SIZE as int == 0) by (nonlinear_arith)
        requires
            frame_base(r.start) % PAGE_SIZE as int == 0,
            v == frame_base(r.start) + PAGE_SIZE as int * q,
            PAGE_SIZE as int > 0,
    ;
    assert(region_frames(r)[q] == v as u64);
}

/// Splitting the frame sequence at a region boundary: the frames of the
/// first `i + 1` regions are the frames of the first `i` followed by the
/// frames of region `i`.
pub proof fn lemma_frames_of_take_succ(s: Seq<MemoryRegion>, i: int)
    requires
        0 <= i < s.len(),
    ensures
        frames_of(s.take(i + 1)) == frames_of(s.take(i)) + region_frames(s[i]),
    decreases i,
{
    if i == 0 {
        assert(s.take(0) =~= Seq::<MemoryRegion>::empty());
        assert(s.take(1).skip(1) =~= Seq::<MemoryRegion>::empty());
        assert(frames_of(s.take(1)) == region_frames(s[0]) + frames_of(
            Seq::<MemoryRegion>::empty(),
        ));
        assert(frames_of(s.take(0)) + region_frames(s[0]) =~= region_frames(s[0])
            + Seq::<u64>::empty());
        assert(frames_of(s.take(1)) =~= frames_of(s.take(0)) + region_frames(s[0]));
    } else {
        lemma_frames_of_take_succ(s.skip(1), i - 1);
        assert(s.take(i + 1).skip(1) =~= s.skip(1).take(i));
        assert(s.take(i).skip(1) =~= s.skip(1).take(i - 1));
        assert(s.take(i + 1)[0] == s[0]);
        assert(s.take(i)[0] == s[0]);
        assert(s.skip(1)[i - 1] == s[i]);
        assert(frames_of(s.take(i + 1)) =~= frames_of(s.take(i)) + region_frames(s[i]));
    }
}

/// The frame sequence splits at any region index.
pub proof fn lemma_frames_of_split(s: Seq<MemoryRegion>, i: int)
    requires
        0 <= i <= s.len(),
    ensures
        frames_of(s) == frames_of(s.take(i)) + frames_of(s.skip(i)),
    decreases i,
{
    if i == 0 {
        assert(s.take(0) =~= Seq::<MemoryRegion>::empty());
        assert(s.skip(0) =~= s);
        assert(frames_of(s) =~= frames_of(s.take(0)) + frames_of(s.skip(0)));
    } else {
        lemma_frames_of_take_succ(s, i - 1);
        lemma_frames_of_split(s, i - 1);
        assert(s.skip(i - 1).len() > 0);
        assert(s.skip(i - 1)[0] == s[i - 1]);
        assert(s.skip(i - 1).skip(1) =~= s.skip(i));
        assert(frames_of(s.skip(i - 1)) == region_frames(s[i - 1]) + frames_of(s.skip(i)));
        assert(frames_of(s) =~= frames_of(s.take(i)) + frames_of(s.skip(i)));
    }
}

/// Index into the full frame sequence through a region index: frame `q` of
/// region `i` sits right after all frames of the regions before `i`.
pub proof fn lemma_frames_index(s: Seq<MemoryRegion>, i: int, q: int)
    requires
        0 <= i < s.len(),
        0 <= q < region_frame_count(s[i]),
    ensures
        frames_of(s.take(i)).len() + region_frame_count(s[i]) <= frames_of(s).len(),
        frames_of(s)[frames_of(s.take(i)).len() + q] == region_frames(s[i])[q],
{
    lemma_frames_of_split(s, i);
    assert(s.skip(i).len() > 0);
    assert(s.skip(i)[0] == s[i]);
    assert(s.skip(i).skip(1) =~= s.skip(i + 1));
    assert(frames_of(s.skip(i)) == region_frames(s[i]) + frames_of(s.skip(i + 1)));
}

/// A well-formed allocator's cursor never passes the end of its frame
/// sequence, so the frames remaining are exactly the sequence's tail.
pub proof fn lemma_wf_cursor_le(a: BootInfoFrameAllocator)
    requires
        a.wf(),
    ensures
        a.cursor() <= a.frames().len(),
        a.frames_remaining() == a.frames().len() - a.cursor(),
{
    if a.region_idx == a.regions@.len() {
        assert(a.regions@.take(a.region_idx as int) =~= a.regions@);
    } else {
        let i = a.region_idx as int;
        let count = region_frame_count(a.regions@[i]) as int;
        vstd::arithmetic::div_mod::lemma_fundamental_div_mod_converse(
            PAGE_SIZE as int * count,
            PAGE_SIZE as int,
            count,
            0,
        );
        vstd::arithmetic::div_mod::lemma_div_is_ordered(
            a.offset as int,
            PAGE_SIZE as int * count,
            PAGE_SIZE as int,
        );
        lemma_frames_of_take_succ(a.regions@, i);
        lemma_frames_of_split(a.regions@, i + 1);
    }
}

/// A memory map as firmware reports it: every region has `start <= end` and
/// no region begins before the previous one ends.
pub open spec fn regions_ordered(regions: Seq<MemoryRegion>) -> bool {
    &&& forall|i: int| 0 <= i < regions.len() ==> (#[trigger] regions[i]).start <= regions[i].end
    &&& forall|i: int|
        0 <= i < regions.len() - 1 ==> (#[trigger] regions[i]).end <= regions[i + 1].start
}

/// `frame_base` is monotone.
pub proof fn lemma_frame_base_monotonic(a: u64, b: u64)
    requires
        a <= b,
    ensures
        frame_base(a) <= frame_base(b),
{
    vstd::arithmetic::div_mod::lemma_div_is_ordered(a as int, b as int, PAGE_SIZE as int);
    assert(PAGE_SIZE as int * (a as int / PAGE_SIZE as int) <= PAGE_SIZE as int * (b as int
        / PAGE_SIZE as int)) by (nonlinear_arith)
        requires
            a as int / PAGE_SIZE as int <= b as int / PAGE_SIZE as int,
            PAGE_SIZE as int > 0,
    ;
}

/// Every frame address the allocator can ever produce is frame-aligned, for
/// any memory map whatsoever.
pub proof fn lemma_frames_aligned(regions: Seq<MemoryRegion>)
    ensures
        forall|j: int|
            0 <= j < frames_of(regions).len() ==> #[trigger] frames_of(regions)[j] % PAGE_SIZE
                == 0,
    decreases regions.len(),
{
    if regions.len() > 0 {
        lemma_frames_aligned(regions.skip(1));
        let head = region_frames(regions[0]);
        assert forall|j: int|
            0 <= j < frames_of(regions).len() implies #[trigger] frames_of(regions)[j] % PAGE_SIZE
            == 0 by {
            if j < head.len() {
                lemma_region_frame_value(regions[0], j);
                assert(frames_of(regions)[j] == head[j]);
            } else {
                assert(frames_of(regions)[j] == frames_of(regions.skip(1))[j - head.len()]);
            }
        }
    }
}

/// For an ordered memory map, the produced frame addresses are strictly
/// increasing across the whole sequence (and all sit at or above the base of
/// the first region).
#[verifier::rlimit(60)]
pub proof fn lemma_frames_strictly_increasing(regions: Seq<MemoryRegion>)
    requires
        regions_ordered(regions),
    ensures
        forall|j: int, k: int|
            0 <= j < k < frames_of(regions).len() ==> #[trigger] frames_of(regions)[j]
                < #[trigger] frames_of(regions)[k],
        regions.len() > 0 ==> forall|j: int|
            0 <= j < frames_of(regions).len() ==> frame_base(regions[0].start)
                <= #[trigger] frames_of(regions)[j],
    decreases regions.len(),
{
    if regions.len() > 0 {
        let r0 = regions[0];
        let head = region_frames(r0);
        let tail = regions.skip(1);
        assert(regions_ordered(tail)) by {
            assert forall|i: int| 0 <= i < tail.len() implies (#[trigger] tail[i]).start
                <= tail[i].end by {
                assert(tail[i] == regions[i + 1]);
            }
            assert forall|i: int| 0 <= i < tail.len() - 1 implies (#[trigger] tail[i]).end <= tail[i
                + 1].start by {
                assert(tail[i] == regions[i + 1]);
                assert(tail[i + 1] == regions[i + 2]);
            }
        }
        lemma_frames_strictly_increasing(tail);
        assert forall|j: int|
            0 <= j < frames_of(regions).len() implies frame_base(regions[0].start)
            <= #[trigger] frames_of(regions)[j] by {
            if j < head.len() {
                lemma_region_frame_value(r0, j);
                assert(frames_of(regions)[j] == head[j]);
                assert(PAGE_SIZE as int * j >= 0) by (nonlinear_arith)
                    requires
                        j >= 0,
                ;
            } else {
                assert(frames_of(regions)[j] == frames_of(tail)[j - head.len()]);
                assert(frame_base(tail[0].start) <= frames_of(tail)[j - head.len()]);
                assert(tail[0] == regions[1]);
                assert(r0.end <= regions[1].start);
                lemma_frame_base_monotonic(r0.start, regions[1].start);
            }
        }
        assert forall|j: int, k: int|
            0 <= j < k < frames_of(regions).len() implies #[trigger] frames_of(regions)[j]
            < #[trigger] frames_of(regions)[k] by {
            if k < head.len() {
                lemma_region_frame_value(r0, j);
                lemma_region_frame_value(r0, k);
                assert(frames_of(regions)[j] == head[j]);
                assert(frames_of(regions)[k] == head[k]);
                assert(PAGE_SIZE as int * j < PAGE_SIZE as int * k) by (nonlinear_arith)
                    requires
                        j < k,
                        PAGE_SIZE as int > 0,
                ;
            } else if j >= head.len() {
                assert(frames_of(regions)[j] == frames_of(tail)[j - head.len()]);
                assert(frames_of(regions)[k] == frames_of(tail)[k - head.len()]);
            } else {
                // `j` indexes the first region, `k` a later one.
                lemma_region_frame_value(r0, j);
                assert(frames_of(regions)[j] == head[j]);
                assert(head[j] + PAGE_SIZE <= r0.end);
                assert(frames_of(regions)[k] == frames_of(tail)[k - head.len()]);
                assert(tail.len() > 0);
                assert(frame_base(tail[0].start) <= frames_of(tail)[k - head.len()]);
                assert(tail[0] == regions[1]);
                lemma_frame_base_monotonic(r0.end, regions[1].start);
                lemma_frame_base(r0.end);
            }
        }
    }
}

/// A single usable region of length `L` contributes exactly `L / PAGE_SIZE`
/// frames (the trailing partial chunk is dropped).
pub proof fn lemma_usable_region_frame_count(r: MemoryRegion)
    requires
        r.kind == MemoryRegionKind::Usable,
        r.start <= r.end,
    ensures
        frames_of(seq![r]).len() == ((r.end - r.start) as int) / (PAGE_SIZE as int),
{
    assert(seq![r].skip(1) =~= Seq::<MemoryRegion>::empty());
    assert(seq![r][0] == r);
    assert(frames_of(seq![r]) == region_frames(r) + frames_of(Seq::<MemoryRegion>::empty()));
    assert(frames_of(seq![r]).len() == region_frame_count(r));
    assert(((r.end - r.start) as int) / (PAGE_SIZE as int) >= 0) by (nonlinear_arith)
        requires
            r.start <= r.end,
            PAGE_SIZE as int > 0,
    ;
}

/// A reserved region contributes no frames at all.
pub proof fn lemma_reserved_region_no_frames(r: MemoryRegion)
    requires
        r.kind == MemoryRegionKind::Reserved,
    ensures
        frames_of(seq![r]).len() == 0,
{
    assert(seq![r].skip(1) =~= Seq::<MemoryRegion>::empty());
    assert(seq![r][0] == r);
    assert(frames_of(seq![r]) == region_frames(r) + frames_of(Seq::<MemoryRegion>::empty()));
    assert(frames_of(seq![r]).len() == region_frame_count(r));
}

/// Every prefix of the allocation-result sequence has the expected length.
pub proof fn lemma_alloc_results_len(frames: Seq<u64>, cursor: nat, n: nat)
    ensures
        alloc_results(frames, cursor, n).len() == n,
    decreases n,
{
    if n > 0 {
        lemma_alloc_results_len(frames, alloc_step(frames, cursor).0, (n - 1) as nat);
    }
}

/// The `k`-th of `n` successive allocations yields frame `cursor + k` when
/// that index exists, and exhaustion otherwise.
pub proof fn lemma_alloc_results_index(frames: Seq<u64>, cursor: nat, n: nat, k: int)
    requires
        0 <= k < n,
    ensures
        alloc_results(frames, cursor, n)[k] == (if cursor + k < frames.len() {
            Some(frames[cursor as int + k])
        } else {
            None::<u64>
        }),
    decreases n,
{
    lemma_alloc_results_len(frames, alloc_step(frames, cursor).0, (n - 1) as nat);
    if k > 0 {
        lemma_alloc_results_index(frames, alloc_step(frames, cursor).0, (n - 1) as nat, k - 1);
    }
}

/// With exactly `n` frames available, `n + 1` successive allocations yield a
/// present frame on each of the first `n` calls and exhaustion on the last.
pub proof fn lemma_allocation_exhaustion(frames: Seq<u64>, n: nat)
    requires
        frames.len() == n,
    ensures
        alloc_results(frames, 0, n + 1).len() == n + 1,
        forall|k: int|
            0 <= k < n ==> #[trigger] alloc_results(frames, 0, n + 1)[k] == Some(frames[k]),
        alloc_results(frames, 0, n + 1)[n as int] is None,
{
    lemma_alloc_results_len(frames, 0, n + 1);
    assert forall|k: int| 0 <= k < n implies #[trigger] alloc_results(frames, 0, n + 1)[k] == Some(
        frames[k],
    ) by {
        lemma_alloc_results_index(frames, 0, n + 1, k);
    }
    lemma_alloc_results_index(frames, 0, n + 1, n as int);
}

} // verus!
