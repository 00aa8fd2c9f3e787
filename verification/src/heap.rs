//! Heap bootstrap: map a fixed virtual range page by page, then hand the raw
//! byte range to the process-wide heap allocator's one-time initialization.
//!
//! Every page of the range gets its own frame from the frame allocator and a
//! present-plus-writable translation installed by the page table manager.
//! The first failure aborts the whole call; pages mapped before it stay mapped — the
//! caller treats any failure here as fatal and proceeds to the halt path, so
//! no rollback is attempted.
use vstd::prelude::*;

use crate::frame_alloc::BootInfoFrameAllocator;
use crate::frame_alloc::PAGE_SIZE;
use crate::logger::Event;
use crate::logger::Level;
use crate::logger::LogRecord;
use crate::logger::Logger;
use crate::paging::MapError;
use crate::paging::MappingEntry;
use crate::paging::PageTableFlags;
use crate::paging::PageTableManager;
use crate::paging::l1_prefix;
use crate::paging::l2_prefix;
use crate::paging::l3_prefix;

verus! {

/// Fixed virtual address where the kernel heap begins.
pub const HEAP_START: u64 = 0x4444_4444_0000;

/// Fixed heap size in bytes.
pub const HEAP_SIZE: u64 = 100 * 1024;

/// Why heap initialization failed. Both variants are treated identically by
/// the caller: the kernel cannot run without a heap.
#[derive(Clone, Copy, PartialEq, Eq, Structural, Debug)]
pub enum HeapInitError {
    /// No frame was left to back a heap page.
    FrameAllocationFailed,
    /// The page table manager could not install a translation.
    MappingFailed(MapError),
}

/// The process-wide general-purpose heap allocator instance. Its free-space
/// management is an external collaborator; what is modeled here is the
/// one-time hand-over of the raw byte range.
pub struct HeapAllocator {
    pub initialized: bool,
    pub start: u64,
    pub size: u64,
}

impl HeapAllocator {
    /// A heap allocator that has not been given memory yet.
    pub fn empty() -> (r: Self)
        ensures
            !r.initialized,
    {
        HeapAllocator { initialized: false, start: 0, size: 0 }
    }

    /// One-time initialization over the raw range `[start, start + size)`.
    /// Initializing twice is unsupported and excluded.
    pub fn init(&mut self, start: u64, size: u64)
        requires
            !old(self).initialized,
        ensures
            final(self).initialized,
            final(self).start == start,
            final(self).size == size,
    {
        self.initialized = true;
        self.start = start;
        self.size = size;
    }
}

/// Number of pages that exactly cover `size` bytes, rounding up.
pub open spec fn pages_needed(size: u64) -> nat {
    ((size as int + PAGE_SIZE as int - 1) / PAGE_SIZE as int) as nat
}

/// The `k`-th page of a heap beginning at `start`.
pub open spec fn heap_page(start: u64, k: int) -> u64 {
    (start as int + PAGE_SIZE as int * k) as u64
}

/// `pages_needed` is the usual round-up: `size / PAGE_SIZE`, plus one if a
/// partial page remains; the covered bytes bracket `size`.
pub proof fn lemma_pages_needed(size: u64)
    ensures
        pages_needed(size) as int == size as int / PAGE_SIZE as int + (
        if size as int % PAGE_SIZE as int != 0 {
            1int
        } else {
            0int
        }),
        size as int <= PAGE_SIZE as int * pages_needed(size) as int,
        (PAGE_SIZE as int * pages_needed(size) as int) < size as int + PAGE_SIZE as int,
{
    let d = PAGE_SIZE as int;
    let q = size as int / d;
    let r = size as int % d;
    vstd::arithmetic::div_mod::lemma_fundamental_div_mod(size as int, d);
    if r == 0 {
        vstd::arithmetic::div_mod::lemma_fundamental_div_mod_converse(
            size as int + d - 1,
            d,
            q,
            d - 1,
        );
    } else {
        vstd::arithmetic::div_mod::lemma_fundamental_div_mod_converse(
            size as int + d - 1,
            d,
            q + 1,
            r - 1,
        );
    }
}

/// Every page of the range fits below `start + size`, stays a `u64`, and is
/// page-aligned when `start` is.
pub proof fn lemma_heap_page(start: u64, size: u64, k: int)
    requires
        0 <= k < pages_needed(size),
        start % PAGE_SIZE == 0,
        start as int + size as int <= u64::MAX as int + 1,
    ensures
        start as int + PAGE_SIZE as int * k < start as int + size as int,
        heap_page(start, k) == start as int + PAGE_SIZE as int * k,
        heap_page(start, k) % PAGE_SIZE == 0,
        PAGE_SIZE as int * k >= 0,
{
    lemma_pages_needed(size);
    let d = PAGE_SIZE as int;
    assert(d * k + d <= d * pages_needed(size) as int && d * k >= 0) by (nonlinear_arith)
        requires
            k + 1 <= pages_needed(size) as int,
            k >= 0,
            d > 0,
    ;
    assert(start as int + d * k < start as int + size as int);
    vstd::arithmetic::div_mod::lemma_fundamental_div_mod(start as int, d);
    let sq = start as int / d;
    assert(start as int == d * sq);
    assert(start as int + d * k == (sq + k) * d + 0) by (nonlinear_arith)
        requires
            start as int == d * sq,
    ;
    vstd::arithmetic::div_mod::lemma_fundamental_div_mod_converse(
        start as int + d * k,
        d,
        sq + k,
        0,
    );
}

/// At one level of the hierarchy, how many intermediate tables the pages
/// `0 .. k` of the range need that `tables` does not already hold.
/// Consecutive pages share tables, so a table is counted only at the first
/// page that needs it.
pub open spec fn level_demand(tables: Seq<u64>, span: u64, start: u64, k: nat) -> nat
    decreases k,
{
    if k == 0 {
        0
    } else {
        level_demand(tables, span, start, (k - 1) as nat) + (if !tables.contains(
            heap_page(start, k - 1) / span,
        ) && (k == 1 || heap_page(start, k - 1) / span != heap_page(start, k - 2) / span) {
            1nat
        } else {
            0nat
        })
    }
}

/// How many intermediate tables, over all three levels, mapping the pages
/// `0 .. k` of the range creates beyond what `mapper` already holds.
pub open spec fn range_tables_demand(mapper: PageTableManager, start: u64, k: nat) -> nat {
    level_demand(mapper.l3_tables@, crate::paging::L3_SPAN, start, k) + level_demand(
        mapper.l2_tables@,
        crate::paging::L2_SPAN,
        start,
        k,
    ) + level_demand(mapper.l1_tables@, crate::paging::L1_SPAN, start, k)
}

/// The demand grows with the range, by at most one table per page.
pub proof fn lemma_level_demand_mono(tables: Seq<u64>, span: u64, start: u64, k1: nat, k2: nat)
    requires
        k1 <= k2,
    ensures
        level_demand(tables, span, start, k1) <= level_demand(tables, span, start, k2),
        level_demand(tables, span, start, k2) <= level_demand(tables, span, start, k1) + (k2
            - k1),
    decreases k2,
{
    if k1 < k2 {
        lemma_level_demand_mono(tables, span, start, k1, (k2 - 1) as nat);
    }
}

/// Page prefixes at any level never decrease along the range.
pub proof fn lemma_heap_prefix_monotone(start: u64, size: u64, span: u64, j: int, k: int)
    requires
        span > 0,
        0 <= j <= k < pages_needed(size),
        start % PAGE_SIZE == 0,
        start as int + size as int <= u64::MAX as int + 1,
    ensures
        heap_page(start, j) / span <= heap_page(start, k) / span,
{
    lemma_heap_page(start, size, j);
    lemma_heap_page(start, size, k);
    assert(PAGE_SIZE as int * j <= PAGE_SIZE as int * k) by (nonlinear_arith)
        requires
            j <= k,
            PAGE_SIZE as int > 0,
    ;
    vstd::arithmetic::div_mod::lemma_div_is_ordered(
        heap_page(start, j) as int,
        heap_page(start, k) as int,
        span as int,
    );
}

/// Page `k` shares its table at a level with some earlier page of the range
/// exactly when it shares it with page `k - 1`: prefixes are monotone, so
/// equal prefixes sit next to each other.
pub proof fn lemma_prefix_repeat(start: u64, size: u64, span: u64, k: int)
    requires
        span > 0,
        0 <= k < pages_needed(size),
        start % PAGE_SIZE == 0,
        start as int + size as int <= u64::MAX as int + 1,
    ensures
        (exists|j: int|
            0 <= j < k && heap_page(start, j) / span == heap_page(start, k) / span) <==> (k > 0
            && heap_page(start, k - 1) / span == heap_page(start, k) / span),
{
    if exists|j: int| 0 <= j < k && heap_page(start, j) / span == heap_page(start, k) / span {
        let j = choose|j: int|
            0 <= j < k && heap_page(start, j) / span == heap_page(start, k) / span;
        lemma_heap_prefix_monotone(start, size, span, j, k - 1);
        lemma_heap_prefix_monotone(start, size, span, k - 1, k);
    }
    if k > 0 && heap_page(start, k - 1) / span == heap_page(start, k) / span {
        assert(0 <= k - 1 < k && heap_page(start, k - 1) / span == heap_page(start, k) / span);
    }
}

/// A level whose tables already cover every page of the range demands
/// nothing.
pub proof fn lemma_level_demand_zero(tables: Seq<u64>, span: u64, start: u64, k: nat)
    requires
        forall|j: int| 0 <= j < k ==> tables.contains(#[trigger] heap_page(start, j) / span),
    ensures
        level_demand(tables, span, start, k) == 0,
    decreases k,
{
    if k > 0 {
        lemma_level_demand_zero(tables, span, start, (k - 1) as nat);
    }
}

/// One page's step of the demand: the tables grown so far hold exactly the
/// old tables plus the prefixes of the pages already mapped, so page `k`
/// raises the demand by one exactly when its table is still missing.
pub proof fn lemma_step_demand(
    old_tables: Seq<u64>,
    cur_tables: Seq<u64>,
    span: u64,
    start: u64,
    size: u64,
    k: int,
)
    requires
        span > 0,
        0 <= k < pages_needed(size),
        start % PAGE_SIZE == 0,
        start as int + size as int <= u64::MAX as int + 1,
        forall|x: u64|
            #[trigger] cur_tables.contains(x) <==> (old_tables.contains(x) || exists|j: int|
                0 <= j < k && x == #[trigger] heap_page(start, j) / span),
    ensures
        level_demand(old_tables, span, start, (k + 1) as nat) == level_demand(
            old_tables,
            span,
            start,
            k as nat,
        ) + (if cur_tables.contains(heap_page(start, k) / span) {
            0nat
        } else {
            1nat
        }),
{
    lemma_prefix_repeat(start, size, span, k);
    let p = heap_page(start, k) / span;
    if cur_tables.contains(p) {
        if !old_tables.contains(p) {
            let j = choose|j: int| 0 <= j < k && p == heap_page(start, j) / span;
            assert(0 <= j < k && heap_page(start, j) / span == heap_page(start, k) / span);
        }
    } else {
        assert(!old_tables.contains(p));
        assert(!(k > 0 && heap_page(start, k - 1) / span == heap_page(start, k) / span)) by {
            if k > 0 && heap_page(start, k - 1) / span == heap_page(start, k) / span {
                assert(0 <= k - 1 < k && p == heap_page(start, k - 1) / span);
                assert(cur_tables.contains(p));
            }
        }
    }
}

/// At any exit of the mapping loop: a level whose tables already covered
/// the whole range has demanded nothing, so it stands exactly as it was.
pub proof fn lemma_init_exit_tables(
    old_mapper: PageTableManager,
    cur_mapper: PageTableManager,
    start: u64,
    size: u64,
    k: nat,
)
    requires
        k <= pages_needed(size),
        cur_mapper.l3_tables@.len() == old_mapper.l3_tables@.len() + level_demand(
            old_mapper.l3_tables@,
            crate::paging::L3_SPAN,
            start,
            k,
        ),
        cur_mapper.l2_tables@.len() == old_mapper.l2_tables@.len() + level_demand(
            old_mapper.l2_tables@,
            crate::paging::L2_SPAN,
            start,
            k,
        ),
        cur_mapper.l1_tables@.len() == old_mapper.l1_tables@.len() + level_demand(
            old_mapper.l1_tables@,
            crate::paging::L1_SPAN,
            start,
            k,
        ),
        forall|idx: int|
            0 <= idx < old_mapper.l3_tables@.len() ==> #[trigger] cur_mapper.l3_tables@[idx]
                == old_mapper.l3_tables@[idx],
        forall|idx: int|
            0 <= idx < old_mapper.l2_tables@.len() ==> #[trigger] cur_mapper.l2_tables@[idx]
                == old_mapper.l2_tables@[idx],
        forall|idx: int|
            0 <= idx < old_mapper.l1_tables@.len() ==> #[trigger] cur_mapper.l1_tables@[idx]
                == old_mapper.l1_tables@[idx],
    ensures
        (forall|k2: int|
            0 <= k2 < pages_needed(size) ==> old_mapper.l3_tables@.contains(
                l3_prefix(#[trigger] heap_page(start, k2)),
            )) ==> cur_mapper.l3_tables@ == old_mapper.l3_tables@,
        (forall|k2: int|
            0 <= k2 < pages_needed(size) ==> old_mapper.l2_tables@.contains(
                l2_prefix(#[trigger] heap_page(start, k2)),
            )) ==> cur_mapper.l2_tables@ == old_mapper.l2_tables@,
        (forall|k2: int|
            0 <= k2 < pages_needed(size) ==> old_mapper.l1_tables@.contains(
                l1_prefix(#[trigger] heap_page(start, k2)),
            )) ==> cur_mapper.l1_tables@ == old_mapper.l1_tables@,
{
    if (forall|k2: int|
        0 <= k2 < pages_needed(size) ==> old_mapper.l3_tables@.contains(
            l3_prefix(#[trigger] heap_page(start, k2)),
        )) {
        assert forall|j: int| 0 <= j < k implies old_mapper.l3_tables@.contains(
            #[trigger] heap_page(start, j) / crate::paging::L3_SPAN,
        ) by {
            assert(old_mapper.l3_tables@.contains(l3_prefix(heap_page(start, j))));
        }
        lemma_level_demand_zero(old_mapper.l3_tables@, crate::paging::L3_SPAN, start, k);
        assert(cur_mapper.l3_tables@ =~= old_mapper.l3_tables@);
    }
    if (forall|k2: int|
        0 <= k2 < pages_needed(size) ==> old_mapper.l2_tables@.contains(
            l2_prefix(#[trigger] heap_page(start, k2)),
        )) {
        assert forall|j: int| 0 <= j < k implies old_mapper.l2_tables@.contains(
            #[trigger] heap_page(start, j) / crate::paging::L2_SPAN,
        ) by {
            assert(old_mapper.l2_tables@.contains(l2_prefix(heap_page(start, j))));
        }
        lemma_level_demand_zero(old_mapper.l2_tables@, crate::paging::L2_SPAN, start, k);
        assert(cur_mapper.l2_tables@ =~= old_mapper.l2_tables@);
    }
    if (forall|k2: int|
        0 <= k2 < pages_needed(size) ==> old_mapper.l1_tables@.contains(
            l1_prefix(#[trigger] heap_page(start, k2)),
        )) {
        assert forall|j: int| 0 <= j < k implies old_mapper.l1_tables@.contains(
            #[trigger] heap_page(start, j) / crate::paging::L1_SPAN,
        ) by {
            assert(old_mapper.l1_tables@.contains(l1_prefix(heap_page(start, j))));
        }
        lemma_level_demand_zero(old_mapper.l1_tables@, crate::paging::L1_SPAN, start, k);
        assert(cur_mapper.l1_tables@ =~= old_mapper.l1_tables@);
    }
}

/// One page's step of the membership picture at one level: if the tables
/// held the old ones plus the prefixes of the pages before `k`, then after
/// page `k` they hold the old ones plus the prefixes of pages `0 ..= k`.
pub proof fn lemma_membership_step(
    old_tables: Seq<u64>,
    mid_tables: Seq<u64>,
    new_tables: Seq<u64>,
    span: u64,
    start: u64,
    k: int,
    x: u64,
)
    requires
        span > 0,
        0 <= k,
        mid_tables.contains(x) <==> (old_tables.contains(x) || exists|j: int|
            0 <= j < k && x == #[trigger] heap_page(start, j) / span),
        mid_tables.contains(heap_page(start, k) / span) ==> new_tables == mid_tables,
        !mid_tables.contains(heap_page(start, k) / span) ==> new_tables == mid_tables.push(
            heap_page(start, k) / span,
        ),
    ensures
        new_tables.contains(x) <==> (old_tables.contains(x) || exists|j: int|
            0 <= j < k + 1 && x == #[trigger] heap_page(start, j) / span),
{
    let p = heap_page(start, k) / span;
    crate::paging::lemma_contains_after_push(mid_tables, new_tables, p);
    if new_tables.contains(x) {
        if mid_tables.contains(x) {
            if !old_tables.contains(x) {
                let j = choose|j: int| 0 <= j < k && x == heap_page(start, j) / span;
                assert(0 <= j < k + 1 && x == heap_page(start, j) / span);
            }
        } else {
            assert(x == p);
            assert(0 <= k < k + 1 && x == heap_page(start, k) / span);
        }
    }
    if old_tables.contains(x) {
        assert(mid_tables.contains(x));
        assert(new_tables.contains(x));
    }
    if exists|j: int| 0 <= j < k + 1 && x == heap_page(start, j) / span {
        let j = choose|j: int| 0 <= j < k + 1 && x == heap_page(start, j) / span;
        if j < k {
            assert(mid_tables.contains(x));
            assert(new_tables.contains(x));
        } else {
            assert(x == p);
            if !mid_tables.contains(p) {
                assert(new_tables == mid_tables.push(p));
            }
            assert(new_tables.contains(x));
        }
    }
}

/// Map the page range exactly covering `[start, start + size - 1]` in
/// ascending order — one fresh frame and one present-plus-writable
/// translation per page — then hand the raw range to the heap allocator's
/// one-time initialization. The first failure aborts the call; already
/// mapped pages stay mapped and the heap allocator stays untouched.
#[verifier::rlimit(100)]
pub fn init(
    start: u64,
    size: u64,
    mapper: &mut PageTableManager,
    frame_allocator: &mut BootInfoFrameAllocator,
    heap: &mut HeapAllocator,
) -> (r: Result<(), HeapInitError>)
    requires
        old(mapper).wf(),
        old(frame_allocator).wf(),
        !old(heap).initialized,
        start % PAGE_SIZE == 0,
        start as int + size as int <= u64::MAX as int + 1,
        forall|k: int|
            0 <= k < pages_needed(size) ==> !old(mapper).is_mapped(#[trigger] heap_page(start, k)),
    ensures
        final(mapper).wf(),
        final(frame_allocator).wf(),
        final(frame_allocator).regions@ == old(frame_allocator).regions@,
        final(mapper).phys_offset == old(mapper).phys_offset,
        final(mapper).l4_table == old(mapper).l4_table,
        final(mapper).entries@.len() >= old(mapper).entries@.len(),
        final(mapper).entries@.len() <= old(mapper).entries@.len() + pages_needed(size),
        final(mapper).entries@.take(old(mapper).entries@.len() as int) == old(mapper).entries@,
        // Each new entry is the next page of the range, writable, and backed
        // by the frame at a determined cursor position: positions strictly
        // increase with the page, so distinct pages get distinct frames.
        forall|i: int|
            old(mapper).entries@.len() <= i < final(mapper).entries@.len() ==> {
                &&& (#[trigger] final(mapper).entries@[i]).page == heap_page(
                    start,
                    i - old(mapper).entries@.len(),
                )
                &&& final(mapper).entries@[i].flags == (PageTableFlags {
                    present: true,
                    writable: true,
                })
                &&& final(mapper).entries@[i].frame == old(frame_allocator).frames()[
                    old(frame_allocator).cursor() + (i - old(mapper).entries@.len())
                        + range_tables_demand(
                        *old(mapper),
                        start,
                        (i - old(mapper).entries@.len()) as nat,
                    )]
            },
        // Each mapping was followed by a translation-cache invalidation for
        // its page, in mapping order.
        final(mapper).invalidations@.len() == old(mapper).invalidations@.len() + (final(mapper).entries@.len() - old(mapper).entries@.len()),
        final(mapper).invalidations@.take(old(mapper).invalidations@.len() as int) == old(mapper).invalidations@,
        forall|i: int|
            old(mapper).invalidations@.len() <= i < final(mapper).invalidations@.len()
                ==> #[trigger] final(mapper).invalidations@[i] == heap_page(
                start,
                i - old(mapper).invalidations@.len(),
            ),
        // Intermediate tables only accumulate, and one whose prefix already
        // exists is never created again: a level fully covered by the old
        // tables stays exactly as it was.
        forall|x: u64|
            old(mapper).l3_tables@.contains(x) ==> #[trigger] final(mapper).l3_tables@.contains(
                x,
            ),
        forall|x: u64|
            old(mapper).l2_tables@.contains(x) ==> #[trigger] final(mapper).l2_tables@.contains(
                x,
            ),
        forall|x: u64|
            old(mapper).l1_tables@.contains(x) ==> #[trigger] final(mapper).l1_tables@.contains(
                x,
            ),
        (forall|k: int|
            0 <= k < pages_needed(size) ==> old(mapper).l3_tables@.contains(
                l3_prefix(#[trigger] heap_page(start, k)),
            )) ==> final(mapper).l3_tables@ == old(mapper).l3_tables@,
        (forall|k: int|
            0 <= k < pages_needed(size) ==> old(mapper).l2_tables@.contains(
                l2_prefix(#[trigger] heap_page(start, k)),
            )) ==> final(mapper).l2_tables@ == old(mapper).l2_tables@,
        (forall|k: int|
            0 <= k < pages_needed(size) ==> old(mapper).l1_tables@.contains(
                l1_prefix(#[trigger] heap_page(start, k)),
            )) ==> final(mapper).l1_tables@ == old(mapper).l1_tables@,
        // With every intermediate table for the range in place, the only
        // failure left is running out of page frames.
        (forall|k: int|
            0 <= k < pages_needed(size) ==> old(mapper).tables_missing(
                #[trigger] heap_page(start, k),
            ) == 0) ==> r != Err::<(), HeapInitError>(HeapInitError::MappingFailed(
            MapError::FrameAllocationFailed,
        )),
        r is Ok <==> final(mapper).entries@.len() == old(mapper).entries@.len() + pages_needed(
            size,
        ),
        r is Ok ==> final(heap).initialized && final(heap).start == start && final(heap).size
            == size,
        // Exact frame accounting on every path: one frame per page mapped,
        // one per intermediate table created, plus the one frame drawn for a
        // page whose mapping then failed.
        final(frame_allocator).cursor() as int == old(frame_allocator).cursor()
            + (final(mapper).entries@.len() - old(mapper).entries@.len())
            + (final(mapper).l3_tables@.len() - old(mapper).l3_tables@.len())
            + (final(mapper).l2_tables@.len() - old(mapper).l2_tables@.len())
            + (final(mapper).l1_tables@.len() - old(mapper).l1_tables@.len())
            + (if r == Err::<(), HeapInitError>(HeapInitError::MappingFailed(
            MapError::FrameAllocationFailed,
        )) {
            1int
        } else {
            0int
        }),
        r is Err ==> *final(heap) == *old(heap) && final(frame_allocator).frames_remaining() == 0,
        r is Err ==> r == Err::<(), HeapInitError>(HeapInitError::FrameAllocationFailed) || r
            == Err::<(), HeapInitError>(HeapInitError::MappingFailed(
            MapError::FrameAllocationFailed,
        )),
        // Success exactly bracketed: enough frames for every page plus every
        // actually-missing table guarantees success, and fewer frames than
        // pages guarantees failure.
        old(frame_allocator).frames_remaining() >= pages_needed(size) + range_tables_demand(
            *old(mapper),
            start,
            pages_needed(size),
        ) ==> r is Ok,
        old(frame_allocator).frames_remaining() < pages_needed(size) ==> r is Err,
{
    proof {
        lemma_pages_needed(size);
        assert(mapper.invalidations@.take(old(mapper).invalidations@.len() as int) =~= old(mapper).invalidations@);
        assert(mapper.entries@.take(old(mapper).entries@.len() as int) =~= old(mapper).entries@);
    }
    let n: u64 = size / PAGE_SIZE + (if size % PAGE_SIZE != 0 {
        1
    } else {
        0
    });
    let mut k: u64 = 0;
    while k < n
        invariant
            mapper.wf(),
            frame_allocator.wf(),
            !heap.initialized,
            *heap == *old(heap),
            old(mapper).wf(),
            old(frame_allocator).wf(),
            n as int == pages_needed(size) as int,
            start % PAGE_SIZE == 0,
            start as int + size as int <= u64::MAX as int + 1,
            0 <= k <= n,
            frame_allocator.regions@ == old(frame_allocator).regions@,
            mapper.phys_offset == old(mapper).phys_offset,
            mapper.l4_table == old(mapper).l4_table,
            mapper.entries@.len() == old(mapper).entries@.len() + k,
            mapper.entries@.take(old(mapper).entries@.len() as int) == old(mapper).entries@,
            forall|i: int|
                old(mapper).entries@.len() <= i < mapper.entries@.len() ==> {
                    &&& (#[trigger] mapper.entries@[i]).page == heap_page(
                        start,
                        i - old(mapper).entries@.len(),
                    )
                    &&& mapper.entries@[i].flags == (PageTableFlags {
                        present: true,
                        writable: true,
                    })
                    &&& mapper.entries@[i].frame == old(frame_allocator).frames()[
                        old(frame_allocator).cursor() + (i - old(mapper).entries@.len())
                            + range_tables_demand(
                            *old(mapper),
                            start,
                            (i - old(mapper).entries@.len()) as nat,
                        )]
                },
            forall|j: int| k <= j < n ==> !mapper.is_mapped(#[trigger] heap_page(start, j)),
            mapper.invalidations@.len() == old(mapper).invalidations@.len() + k,
            mapper.invalidations@.take(old(mapper).invalidations@.len() as int) == old(mapper).invalidations@,
            forall|i: int|
                old(mapper).invalidations@.len() <= i < mapper.invalidations@.len()
                    ==> #[trigger] mapper.invalidations@[i] == heap_page(
                    start,
                    i - old(mapper).invalidations@.len(),
                ),
            forall|idx: int|
                0 <= idx < old(mapper).l3_tables@.len() ==> #[trigger] mapper.l3_tables@[idx]
                    == old(mapper).l3_tables@[idx],
            forall|idx: int|
                0 <= idx < old(mapper).l2_tables@.len() ==> #[trigger] mapper.l2_tables@[idx]
                    == old(mapper).l2_tables@[idx],
            forall|idx: int|
                0 <= idx < old(mapper).l1_tables@.len() ==> #[trigger] mapper.l1_tables@[idx]
                    == old(mapper).l1_tables@[idx],
            mapper.l3_tables@.len() == old(mapper).l3_tables@.len() + level_demand(
                old(mapper).l3_tables@,
                crate::paging::L3_SPAN,
                start,
                k as nat,
            ),
            mapper.l2_tables@.len() == old(mapper).l2_tables@.len() + level_demand(
                old(mapper).l2_tables@,
                crate::paging::L2_SPAN,
                start,
                k as nat,
            ),
            mapper.l1_tables@.len() == old(mapper).l1_tables@.len() + level_demand(
                old(mapper).l1_tables@,
                crate::paging::L1_SPAN,
                start,
                k as nat,
            ),
            forall|x: u64|
                #[trigger] mapper.l3_tables@.contains(x) <==> (old(mapper).l3_tables@.contains(x)
                    || exists|j: int|
                    0 <= j < k && x == #[trigger] heap_page(start, j) / crate::paging::L3_SPAN),
            forall|x: u64|
                #[trigger] mapper.l2_tables@.contains(x) <==> (old(mapper).l2_tables@.contains(x)
                    || exists|j: int|
                    0 <= j < k && x == #[trigger] heap_page(start, j) / crate::paging::L2_SPAN),
            forall|x: u64|
                #[trigger] mapper.l1_tables@.contains(x) <==> (old(mapper).l1_tables@.contains(x)
                    || exists|j: int|
                    0 <= j < k && x == #[trigger] heap_page(start, j) / crate::paging::L1_SPAN),
            frame_allocator.cursor() as int == old(frame_allocator).cursor() + k + (
            mapper.l3_tables@.len() - old(mapper).l3_tables@.len()) + (mapper.l2_tables@.len()
                - old(mapper).l2_tables@.len()) + (mapper.l1_tables@.len() - old(mapper).l1_tables@.len()),
        decreases n - k,
    {
        proof {
            lemma_heap_page(start, size, k as int);
        }
        let page: u64 = start + k * PAGE_SIZE;
        let ghost cur0 = frame_allocator.cursor();
        let ghost entries0 = mapper.entries@;
        let maybe_frame = frame_allocator.allocate_frame();
        match maybe_frame {
            None => {
                proof {
                    assert(frame_allocator.frames_remaining() == 0);
                    assert(frame_allocator.frames() == old(frame_allocator).frames());
                    crate::frame_alloc::lemma_wf_cursor_le(*old(frame_allocator));
                    crate::frame_alloc::lemma_wf_cursor_le(*frame_allocator);
                    // The whole sequence is consumed, so the frames available
                    // at entry were fewer than pages plus demand.
                    lemma_level_demand_mono(
                        old(mapper).l3_tables@,
                        crate::paging::L3_SPAN,
                        start,
                        k as nat,
                        pages_needed(size),
                    );
                    lemma_level_demand_mono(
                        old(mapper).l2_tables@,
                        crate::paging::L2_SPAN,
                        start,
                        k as nat,
                        pages_needed(size),
                    );
                    lemma_level_demand_mono(
                        old(mapper).l1_tables@,
                        crate::paging::L1_SPAN,
                        start,
                        k as nat,
                        pages_needed(size),
                    );
                    lemma_init_exit_tables(*old(mapper), *mapper, start, size, k as nat);
                }
                return Err(HeapInitError::FrameAllocationFailed);
            },
            Some(frame) => {
                proof {
                    crate::frame_alloc::lemma_frames_aligned(frame_allocator.regions@);
                    assert(frame == frame_allocator.frames()[cur0 as int]);
                    assert(frame % PAGE_SIZE == 0);
                    assert(page == heap_page(start, k as int));
                    assert(!mapper.is_mapped(page));
                }
                let ghost mapper0 = *mapper;
                let ghost fa1 = *frame_allocator;
                let ghost rem1 = frame_allocator.frames_remaining();
                let result = mapper.map(
                    page,
                    frame,
                    PageTableFlags { present: true, writable: true },
                    frame_allocator,
                );
                match result {
                    Err(e) => {
                        proof {
                            assert(mapper0.tables_missing(page) > rem1);
                            assert(e == MapError::FrameAllocationFailed);
                            assert(frame_allocator.frames_remaining() == 0);
                            assert(mapper.entries@ == entries0);
                            // Every frame the failing walk consumed became an
                            // intermediate table.
                            assert(mapper.l3_tables@.len() - mapper0.l3_tables@.len() == (
                            if mapper0.missing_l3(page) == 1 && rem1 >= 1 {
                                1int
                            } else {
                                0int
                            }));
                            assert(mapper.l2_tables@.len() - mapper0.l2_tables@.len() == (
                            if mapper0.missing_l2(page) == 1 && rem1 >= mapper0.missing_l3(page)
                                + 1 {
                                1int
                            } else {
                                0int
                            }));
                            assert(mapper.l1_tables@.len() - mapper0.l1_tables@.len() == (
                            if mapper0.missing_l1(page) == 1 && rem1 >= mapper0.missing_l3(page)
                                + mapper0.missing_l2(page) + 1 {
                                1int
                            } else {
                                0int
                            }));
                            assert(frame_allocator.frames() == old(frame_allocator).frames());
                            // Demand bookkeeping: the walk's missing tables
                            // are exactly the demand step of page `k`.
                            crate::frame_alloc::lemma_wf_cursor_le(*old(frame_allocator));
                            crate::frame_alloc::lemma_wf_cursor_le(fa1);
                            lemma_step_demand(
                                old(mapper).l3_tables@,
                                mapper0.l3_tables@,
                                crate::paging::L3_SPAN,
                                start,
                                size,
                                k as int,
                            );
                            lemma_step_demand(
                                old(mapper).l2_tables@,
                                mapper0.l2_tables@,
                                crate::paging::L2_SPAN,
                                start,
                                size,
                                k as int,
                            );
                            lemma_step_demand(
                                old(mapper).l1_tables@,
                                mapper0.l1_tables@,
                                crate::paging::L1_SPAN,
                                start,
                                size,
                                k as int,
                            );
                            lemma_level_demand_mono(
                                old(mapper).l3_tables@,
                                crate::paging::L3_SPAN,
                                start,
                                (k + 1) as nat,
                                pages_needed(size),
                            );
                            lemma_level_demand_mono(
                                old(mapper).l2_tables@,
                                crate::paging::L2_SPAN,
                                start,
                                (k + 1) as nat,
                                pages_needed(size),
                            );
                            lemma_level_demand_mono(
                                old(mapper).l1_tables@,
                                crate::paging::L1_SPAN,
                                start,
                                (k + 1) as nat,
                                pages_needed(size),
                            );
                            // Tables only accumulate through the failing walk.
                            crate::paging::lemma_contains_after_push(
                                mapper0.l3_tables@,
                                mapper.l3_tables@,
                                page / crate::paging::L3_SPAN,
                            );
                            crate::paging::lemma_contains_after_push(
                                mapper0.l2_tables@,
                                mapper.l2_tables@,
                                page / crate::paging::L2_SPAN,
                            );
                            crate::paging::lemma_contains_after_push(
                                mapper0.l1_tables@,
                                mapper.l1_tables@,
                                page / crate::paging::L1_SPAN,
                            );
                            assert forall|x: u64|
                                old(mapper).l3_tables@.contains(
                                    x,
                                ) implies #[trigger] mapper.l3_tables@.contains(x) by {
                                assert(mapper0.l3_tables@.contains(x));
                            }
                            assert forall|x: u64|
                                old(mapper).l2_tables@.contains(
                                    x,
                                ) implies #[trigger] mapper.l2_tables@.contains(x) by {
                                assert(mapper0.l2_tables@.contains(x));
                            }
                            assert forall|x: u64|
                                old(mapper).l1_tables@.contains(
                                    x,
                                ) implies #[trigger] mapper.l1_tables@.contains(x) by {
                                assert(mapper0.l1_tables@.contains(x));
                            }
                            // A level whose tables already covered the range
                            // was not touched, not even by the failing walk.
                            lemma_init_exit_tables(*old(mapper), mapper0, start, size, k as nat);
                            if (forall|k2: int|
                                0 <= k2 < pages_needed(size) ==> old(mapper).l3_tables@.contains(
                                    l3_prefix(#[trigger] heap_page(start, k2)),
                                )) {
                                assert(old(mapper).l3_tables@.contains(l3_prefix(page)));
                                assert(mapper0.missing_l3(page) == 0);
                                assert(mapper.l3_tables@ == old(mapper).l3_tables@);
                            }
                            if (forall|k2: int|
                                0 <= k2 < pages_needed(size) ==> old(mapper).l2_tables@.contains(
                                    l2_prefix(#[trigger] heap_page(start, k2)),
                                )) {
                                assert(old(mapper).l2_tables@.contains(l2_prefix(page)));
                                assert(mapper0.missing_l2(page) == 0);
                                assert(mapper.l2_tables@ == old(mapper).l2_tables@);
                            }
                            if (forall|k2: int|
                                0 <= k2 < pages_needed(size) ==> old(mapper).l1_tables@.contains(
                                    l1_prefix(#[trigger] heap_page(start, k2)),
                                )) {
                                assert(old(mapper).l1_tables@.contains(l1_prefix(page)));
                                assert(mapper0.missing_l1(page) == 0);
                                assert(mapper.l1_tables@ == old(mapper).l1_tables@);
                            }
                            // With every table for the range present, the
                            // walk cannot fail at all.
                            if (forall|k2: int|
                                0 <= k2 < pages_needed(size) ==> old(mapper).tables_missing(
                                    #[trigger] heap_page(start, k2),
                                ) == 0) {
                                assert(old(mapper).tables_missing(page) == 0);
                                assert(mapper0.l3_tables@.contains(page / crate::paging::L3_SPAN));
                                assert(mapper0.l2_tables@.contains(page / crate::paging::L2_SPAN));
                                assert(mapper0.l1_tables@.contains(page / crate::paging::L1_SPAN));
                                assert(mapper0.tables_missing(page) == 0);
                                assert(false);
                            }
                            // Under the exact success bound this exit cannot
                            // be reached either.
                            if old(frame_allocator).frames_remaining() >= pages_needed(size)
                                + range_tables_demand(*old(mapper), start, pages_needed(size)) {
                                assert(rem1 == fa1.frames().len() - (cur0 + 1));
                                assert(mapper0.tables_missing(page) == range_tables_demand(
                                    *old(mapper),
                                    start,
                                    (k + 1) as nat,
                                ) - range_tables_demand(*old(mapper), start, k as nat));
                                assert(false);
                            }
                        }
                        return Err(HeapInitError::MappingFailed(e));
                    },
                    Ok(()) => {},
                }
                proof {
                    // The map succeeded, so every missing table got a frame.
                    assert(mapper0.tables_missing(page) <= rem1);
                    assert(mapper.entries@ == entries0.push(
                        MappingEntry {
                            page,
                            frame,
                            flags: PageTableFlags { present: true, writable: true },
                        },
                    ));
                    assert(mapper.entries@.take(old(mapper).entries@.len() as int) =~= old(mapper).entries@);
                    assert(mapper.invalidations@.take(old(mapper).invalidations@.len() as int)
                        =~= old(mapper).invalidations@);
                    assert(frame_allocator.frames() == old(frame_allocator).frames());
                    // The new entry's frame sits at the determined cursor
                    // position: page count plus tables created so far.
                    lemma_step_demand(
                        old(mapper).l3_tables@,
                        mapper0.l3_tables@,
                        crate::paging::L3_SPAN,
                        start,
                        size,
                        k as int,
                    );
                    lemma_step_demand(
                        old(mapper).l2_tables@,
                        mapper0.l2_tables@,
                        crate::paging::L2_SPAN,
                        start,
                        size,
                        k as int,
                    );
                    lemma_step_demand(
                        old(mapper).l1_tables@,
                        mapper0.l1_tables@,
                        crate::paging::L1_SPAN,
                        start,
                        size,
                        k as int,
                    );
                    assert(cur0 as int == old(frame_allocator).cursor() + k + range_tables_demand(
                        *old(mapper),
                        start,
                        k as nat,
                    ));
                    assert(mapper.entries@[entries0.len() as int].frame == old(frame_allocator).frames()[cur0 as int]);
                    // Membership after this page: the old tables plus the
                    // prefixes of pages `0 ..= k`.
                    crate::paging::lemma_contains_after_push(
                        mapper0.l3_tables@,
                        mapper.l3_tables@,
                        page / crate::paging::L3_SPAN,
                    );
                    crate::paging::lemma_contains_after_push(
                        mapper0.l2_tables@,
                        mapper.l2_tables@,
                        page / crate::paging::L2_SPAN,
                    );
                    crate::paging::lemma_contains_after_push(
                        mapper0.l1_tables@,
                        mapper.l1_tables@,
                        page / crate::paging::L1_SPAN,
                    );
                    assert forall|x: u64| #[trigger]
                        mapper.l3_tables@.contains(x) <==> (old(mapper).l3_tables@.contains(x)
                        || exists|j: int|
                        0 <= j < k + 1 && x == #[trigger] heap_page(start, j)
                            / crate::paging::L3_SPAN) by {
                        lemma_membership_step(
                            old(mapper).l3_tables@,
                            mapper0.l3_tables@,
                            mapper.l3_tables@,
                            crate::paging::L3_SPAN,
                            start,
                            k as int,
                            x,
                        );
                    }
                    assert forall|x: u64| #[trigger]
                        mapper.l2_tables@.contains(x) <==> (old(mapper).l2_tables@.contains(x)
                        || exists|j: int|
                        0 <= j < k + 1 && x == #[trigger] heap_page(start, j)
                            / crate::paging::L2_SPAN) by {
                        lemma_membership_step(
                            old(mapper).l2_tables@,
                            mapper0.l2_tables@,
                            mapper.l2_tables@,
                            crate::paging::L2_SPAN,
                            start,
                            k as int,
                            x,
                        );
                    }
                    assert forall|x: u64| #[trigger]
                        mapper.l1_tables@.contains(x) <==> (old(mapper).l1_tables@.contains(x)
                        || exists|j: int|
                        0 <= j < k + 1 && x == #[trigger] heap_page(start, j)
                            / crate::paging::L1_SPAN) by {
                        lemma_membership_step(
                            old(mapper).l1_tables@,
                            mapper0.l1_tables@,
                            mapper.l1_tables@,
                            crate::paging::L1_SPAN,
                            start,
                            k as int,
                            x,
                        );
                    }
                    // Pages past `k` stay unmapped: the entry just pushed is
                    // for page `k`, which differs from every later page.
                    assert forall|j: int| k + 1 <= j < n implies !mapper.is_mapped(
                        #[trigger] heap_page(start, j),
                    ) by {
                        lemma_heap_page(start, size, j);
                        assert(heap_page(start, j) != page);
                        assert forall|i: int|
                            0 <= i < mapper.entries@.len() implies (
                        #[trigger] mapper.entries@[i]).page != heap_page(start, j) by {
                            if i < entries0.len() {
                                assert(mapper.entries@[i] == entries0[i]);
                                assert(!mapper0.is_mapped(heap_page(start, j)));
                            }
                        }
                    }
                }
                k = k + 1;
            },
        }
    }
    proof {
        crate::frame_alloc::lemma_wf_cursor_le(*old(frame_allocator));
        crate::frame_alloc::lemma_wf_cursor_le(*frame_allocator);
        lemma_init_exit_tables(*old(mapper), *mapper, start, size, n as nat);
    }
    heap.init(start, size);
    Ok(())
}

/// Bootstrap the kernel heap at its fixed range and record the outcome.
/// Identical to `init` at `HEAP_START` with `HEAP_SIZE` bytes, plus one
/// diagnostic record when the heap comes up.
pub fn init_heap(
    mapper: &mut PageTableManager,
    frame_allocator: &mut BootInfoFrameAllocator,
    heap: &mut HeapAllocator,
    logger: &mut Logger,
) -> (r: Result<(), HeapInitError>)
    requires
        old(mapper).wf(),
        old(frame_allocator).wf(),
        !old(heap).initialized,
        forall|k: int|
            0 <= k < pages_needed(HEAP_SIZE) ==> !old(mapper).is_mapped(
                #[trigger] heap_page(HEAP_START, k),
            ),
    ensures
        final(mapper).wf(),
        final(frame_allocator).wf(),
        final(frame_allocator).regions@ == old(frame_allocator).regions@,
        final(mapper).phys_offset == old(mapper).phys_offset,
        final(mapper).l4_table == old(mapper).l4_table,
        final(mapper).entries@.len() >= old(mapper).entries@.len(),
        final(mapper).entries@.len() <= old(mapper).entries@.len() + pages_needed(HEAP_SIZE),
        final(mapper).entries@.take(old(mapper).entries@.len() as int) == old(mapper).entries@,
        forall|i: int|
            old(mapper).entries@.len() <= i < final(mapper).entries@.len() ==> {
                &&& (#[trigger] final(mapper).entries@[i]).page == heap_page(
                    HEAP_START,
                    i - old(mapper).entries@.len(),
                )
                &&& final(mapper).entries@[i].flags == (PageTableFlags {
                    present: true,
                    writable: true,
                })
                &&& final(mapper).entries@[i].frame == old(frame_allocator).frames()[
                    old(frame_allocator).cursor() + (i - old(mapper).entries@.len())
                        + range_tables_demand(
                        *old(mapper),
                        HEAP_START,
                        (i - old(mapper).entries@.len()) as nat,
                    )]
            },
        final(mapper).invalidations@.len() == old(mapper).invalidations@.len() + (final(mapper).entries@.len() - old(mapper).entries@.len()),
        final(mapper).invalidations@.take(old(mapper).invalidations@.len() as int) == old(mapper).invalidations@,
        forall|i: int|
            old(mapper).invalidations@.len() <= i < final(mapper).invalidations@.len()
                ==> #[trigger] final(mapper).invalidations@[i] == heap_page(
                HEAP_START,
                i - old(mapper).invalidations@.len(),
            ),
        forall|x: u64|
            old(mapper).l3_tables@.contains(x) ==> #[trigger] final(mapper).l3_tables@.contains(
                x,
            ),
        forall|x: u64|
            old(mapper).l2_tables@.contains(x) ==> #[trigger] final(mapper).l2_tables@.contains(
                x,
            ),
        forall|x: u64|
            old(mapper).l1_tables@.contains(x) ==> #[trigger] final(mapper).l1_tables@.contains(
                x,
            ),
        (forall|k: int|
            0 <= k < pages_needed(HEAP_SIZE) ==> old(mapper).l3_tables@.contains(
                l3_prefix(#[trigger] heap_page(HEAP_START, k)),
            )) ==> final(mapper).l3_tables@ == old(mapper).l3_tables@,
        (forall|k: int|
            0 <= k < pages_needed(HEAP_SIZE) ==> old(mapper).l2_tables@.contains(
                l2_prefix(#[trigger] heap_page(HEAP_START, k)),
            )) ==> final(mapper).l2_tables@ == old(mapper).l2_tables@,
        (forall|k: int|
            0 <= k < pages_needed(HEAP_SIZE) ==> old(mapper).l1_tables@.contains(
                l1_prefix(#[trigger] heap_page(HEAP_START, k)),
            )) ==> final(mapper).l1_tables@ == old(mapper).l1_tables@,
        (forall|k: int|
            0 <= k < pages_needed(HEAP_SIZE) ==> old(mapper).tables_missing(
                #[trigger] heap_page(HEAP_START, k),
            ) == 0) ==> r != Err::<(), HeapInitError>(HeapInitError::MappingFailed(
            MapError::FrameAllocationFailed,
        )),
        r is Ok <==> final(mapper).entries@.len() == old(mapper).entries@.len() + pages_needed(
            HEAP_SIZE,
        ),
        r is Ok ==> final(heap).initialized && final(heap).start == HEAP_START && final(heap).size
            == HEAP_SIZE,
        final(frame_allocator).cursor() as int == old(frame_allocator).cursor()
            + (final(mapper).entries@.len() - old(mapper).entries@.len())
            + (final(mapper).l3_tables@.len() - old(mapper).l3_tables@.len())
            + (final(mapper).l2_tables@.len() - old(mapper).l2_tables@.len())
            + (final(mapper).l1_tables@.len() - old(mapper).l1_tables@.len())
            + (if r == Err::<(), HeapInitError>(HeapInitError::MappingFailed(
            MapError::FrameAllocationFailed,
        )) {
            1int
        } else {
            0int
        }),
        r is Err ==> *final(heap) == *old(heap) && final(frame_allocator).frames_remaining() == 0,
        r is Err ==> r == Err::<(), HeapInitError>(HeapInitError::FrameAllocationFailed) || r
            == Err::<(), HeapInitError>(HeapInitError::MappingFailed(
            MapError::FrameAllocationFailed,
        )),
        old(frame_allocator).frames_remaining() >= pages_needed(HEAP_SIZE) + range_tables_demand(
            *old(mapper),
            HEAP_START,
            pages_needed(HEAP_SIZE),
        ) ==> r is Ok,
        old(frame_allocator).frames_remaining() >= 4 * pages_needed(HEAP_SIZE) ==> r is Ok,
        old(frame_allocator).frames_remaining() < pages_needed(HEAP_SIZE) ==> r is Err,
        final(logger).max_level == old(logger).max_level,
        r is Ok && old(logger).enabled_spec(Level::Info) ==> final(logger).records@ == old(logger).records@.push(
            LogRecord {
                level: Level::Info,
                event: Event::HeapInitialized { start: HEAP_START, size: HEAP_SIZE },
            },
        ),
        r is Err || !old(logger).enabled_spec(Level::Info) ==> final(logger).records@ == old(logger).records@,
{
    proof {
        lemma_level_demand_mono(
            mapper.l3_tables@,
            crate::paging::L3_SPAN,
            HEAP_START,
            0,
            pages_needed(HEAP_SIZE),
        );
        lemma_level_demand_mono(
            mapper.l2_tables@,
            crate::paging::L2_SPAN,
            HEAP_START,
            0,
            pages_needed(HEAP_SIZE),
        );
        lemma_level_demand_mono(
            mapper.l1_tables@,
            crate::paging::L1_SPAN,
            HEAP_START,
            0,
            pages_needed(HEAP_SIZE),
        );
    }
    let r = init(HEAP_START, HEAP_SIZE, mapper, frame_allocator, heap);
    match r {
        Ok(()) => {
            logger.log(
                Level::Info,
                Event::HeapInitialized { start: HEAP_START, size: HEAP_SIZE },
            );
            Ok(())
        },
        Err(e) => Err(e),
    }
}

} // verus!
