//! Page table manager: exclusive owner of the active translation hierarchy.
//!
//! The manager records the constant physical-to-virtual offset, the physical
//! address of the active top-level table, which intermediate tables exist at
//! each of the three lower levels, and every translation installed so far.
//! Installing a translation walks the hierarchy top-down and allocates a
//! fresh frame for each missing intermediate table; running out of frames
//! there is the one way a mapping can fail, and it is reported, never
//! retried. After a new entry is written, the cached translation for the
//! page is invalidated.
use vstd::prelude::*;

use crate::frame_alloc::BootInfoFrameAllocator;
use crate::frame_alloc::PAGE_SIZE;

verus! {

/// Bytes of virtual address space covered by one top-level entry; pages with
/// equal `page / L3_SPAN` share the same level-3 table.
pub const L3_SPAN: u64 = 0x80_0000_0000;

/// Bytes covered by one level-3 entry (pages sharing a level-2 table).
pub const L2_SPAN: u64 = 0x4000_0000;

/// Bytes covered by one level-2 entry (pages sharing a level-1 table).
pub const L1_SPAN: u64 = 0x20_0000;

/// Translation flags for one mapped page.
#[derive(Clone, Copy, PartialEq, Eq, Structural, Debug)]
pub struct PageTableFlags {
    pub present: bool,
    pub writable: bool,
}

impl Default for PageTableFlags {
    /// The default grants read-only access; write access is an explicit
    /// opt-in.
    fn default() -> (r: Self)
        ensures
            r.present,
            !r.writable,
    {
        PageTableFlags { present: true, writable: false }
    }
}

/// Why installing a translation failed.
#[derive(Clone, Copy, PartialEq, Eq, Structural, Debug)]
pub enum MapError {
    /// A missing intermediate table could not be backed by a fresh frame.
    FrameAllocationFailed,
    /// The page already carries a translation.
    PageAlreadyMapped,
}

/// One installed translation.
#[derive(Clone, Copy, PartialEq, Eq, Structural, Debug)]
pub struct MappingEntry {
    pub page: u64,
    pub frame: u64,
    pub flags: PageTableFlags,
}

/// Key of the level-3 table responsible for `page`.
pub open spec fn l3_prefix(page: u64) -> u64 {
    page / L3_SPAN
}

/// Key of the level-2 table responsible for `page`.
pub open spec fn l2_prefix(page: u64) -> u64 {
    page / L2_SPAN
}

/// Key of the level-1 table responsible for `page`.
pub open spec fn l1_prefix(page: u64) -> u64 {
    page / L1_SPAN
}

/// Exclusive accessor of the active translation hierarchy. Constructed once
/// at boot and threaded by `&mut` into every mutating step.
pub struct PageTableManager {
    pub phys_offset: u64,
    pub l4_table: u64,
    pub l3_tables: Vec<u64>,
    pub l2_tables: Vec<u64>,
    pub l1_tables: Vec<u64>,
    pub entries: Vec<MappingEntry>,
    pub invalidations: Vec<u64>,
}

impl PageTableManager {
    /// Does `page` carry a translation?
    pub open spec fn is_mapped(&self, page: u64) -> bool {
        exists|i: int| 0 <= i < self.entries@.len() && (#[trigger] self.entries@[i]).page == page
    }

    /// How many of the three intermediate tables for `page` are missing.
    pub open spec fn missing_l3(&self, page: u64) -> nat {
        if self.l3_tables@.contains(l3_prefix(page)) {
            0
        } else {
            1
        }
    }

    pub open spec fn missing_l2(&self, page: u64) -> nat {
        if self.l2_tables@.contains(l2_prefix(page)) {
            0
        } else {
            1
        }
    }

    pub open spec fn missing_l1(&self, page: u64) -> nat {
        if self.l1_tables@.contains(l1_prefix(page)) {
            0
        } else {
            1
        }
    }

    pub open spec fn tables_missing(&self, page: u64) -> nat {
        self.missing_l3(page) + self.missing_l2(page) + self.missing_l1(page)
    }

    /// Internal invariant: translations are one-to-one (no page appears
    /// twice) and every mapped page reaches its entry through intermediate
    /// tables that exist.
    pub open spec fn wf(&self) -> bool {
        &&& (forall|i: int, j: int|
            0 <= i < j < self.entries@.len() ==> (#[trigger] self.entries@[i]).page != (
            #[trigger] self.entries@[j]).page)
        &&& (forall|i: int|
            0 <= i < self.entries@.len() ==> self.l3_tables@.contains(
                l3_prefix((#[trigger] self.entries@[i]).page),
            ) && self.l2_tables@.contains(l2_prefix(self.entries@[i].page))
                && self.l1_tables@.contains(l1_prefix(self.entries@[i].page)))
    }

    /// Virtual address at which the whole hierarchy's top-level table is
    /// visible through the physical-memory offset.
    pub fn level_4_table_virt(&self) -> (r: u64)
        requires
            self.phys_offset + self.l4_table <= u64::MAX,
        ensures
            r == self.phys_offset + self.l4_table,
    {
        self.phys_offset + self.l4_table
    }

    /// Install a translation sending `page` to `frame` with the given flags,
    /// allocating a fresh frame for every missing intermediate table. Fails
    /// exactly when such a frame cannot be obtained; the failure is returned,
    /// not retried. On success the cached translation for `page` is
    /// invalidated after the entry is written.
    pub fn map(
        &mut self,
        page: u64,
        frame: u64,
        flags: PageTableFlags,
        alloc: &mut BootInfoFrameAllocator,
    ) -> (r: Result<(), MapError>)
        requires
            old(self).wf(),
            old(alloc).wf(),
            page % PAGE_SIZE == 0,
            frame % PAGE_SIZE == 0,
        ensures
            final(self).wf(),
            final(alloc).wf(),
            final(alloc).regions@ == old(alloc).regions@,
            final(self).phys_offset == old(self).phys_offset,
            final(self).l4_table == old(self).l4_table,
            final(self).l3_tables@ == (if old(self).missing_l3(page) == 1
                && old(alloc).frames_remaining() >= 1 {
                old(self).l3_tables@.push(l3_prefix(page))
            } else {
                old(self).l3_tables@
            }),
            final(self).l2_tables@ == (if old(self).missing_l2(page) == 1
                && old(alloc).frames_remaining() >= old(self).missing_l3(page) + 1 {
                old(self).l2_tables@.push(l2_prefix(page))
            } else {
                old(self).l2_tables@
            }),
            final(self).l1_tables@ == (if old(self).missing_l1(page) == 1
                && old(alloc).frames_remaining() >= old(self).missing_l3(page)
                    + old(self).missing_l2(page) + 1 {
                old(self).l1_tables@.push(l1_prefix(page))
            } else {
                old(self).l1_tables@
            }),
            final(alloc).cursor() == old(alloc).cursor() + (if old(self).tables_missing(page)
                <= old(alloc).frames_remaining() {
                old(self).tables_missing(page)
            } else {
                old(alloc).frames_remaining()
            }),
            old(self).tables_missing(page) <= old(alloc).frames_remaining()
                && !old(self).is_mapped(page) ==> r == Ok::<(), MapError>(())
                && final(self).entries@ == old(self).entries@.push(
                MappingEntry { page, frame, flags },
            ) && final(self).invalidations@ == old(self).invalidations@.push(page),
            old(self).tables_missing(page) <= old(alloc).frames_remaining()
                && old(self).is_mapped(page) ==> r == Err::<(), MapError>(
                MapError::PageAlreadyMapped,
            ) && final(self).entries@ == old(self).entries@ && final(self).invalidations@ == old(
                self,
            ).invalidations@,
            old(self).tables_missing(page) > old(alloc).frames_remaining() ==> r == Err::<
                (),
                MapError,
            >(MapError::FrameAllocationFailed) && final(self).entries@ == old(self).entries@
                && final(self).invalidations@ == old(self).invalidations@
                && final(alloc).frames_remaining() == 0,
    {
        let p3: u64 = page / L3_SPAN;
        let p2: u64 = page / L2_SPAN;
        let p1: u64 = page / L1_SPAN;
        if !vec_contains(&self.l3_tables, p3) {
            match alloc.allocate_frame() {
                None => {
                    return Err(MapError::FrameAllocationFailed);
                },
                Some(_table_frame) => {
                    self.l3_tables.push(p3);
                },
            }
        }
        proof {
            lemma_contains_after_push(old(self).l3_tables@, self.l3_tables@, p3);
        }
        if !vec_contains(&self.l2_tables, p2) {
            match alloc.allocate_frame() {
                None => {
                    return Err(MapError::FrameAllocationFailed);
                },
                Some(_table_frame) => {
                    self.l2_tables.push(p2);
                },
            }
        }
        proof {
            lemma_contains_after_push(old(self).l2_tables@, self.l2_tables@, p2);
        }
        if !vec_contains(&self.l1_tables, p1) {
            match alloc.allocate_frame() {
                None => {
                    return Err(MapError::FrameAllocationFailed);
                },
                Some(_table_frame) => {
                    self.l1_tables.push(p1);
                },
            }
        }
        proof {
            lemma_contains_after_push(old(self).l1_tables@, self.l1_tables@, p1);
        }
        if self.lookup_mapped(page) {
            return Err(MapError::PageAlreadyMapped);
        }
        self.entries.push(MappingEntry { page, frame, flags });
        self.invalidations.push(page);
        Ok(())
    }

    /// Linear scan for an existing translation of `page`.
    fn lookup_mapped(&self, page: u64) -> (b: bool)
        ensures
            b == self.is_mapped(page),
    {
        let mut i: usize = 0;
        while i < self.entries.len()
            invariant
                0 <= i <= self.entries@.len(),
                forall|j: int| 0 <= j < i ==> (#[trigger] self.entries@[j]).page != page,
            decreases self.entries@.len() - i,
        {
            if self.entries[i].page == page {
                return true;
            }
            i = i + 1;
        }
        false
    }
}

/// Derive the page table manager from the firmware-supplied physical-memory
/// offset, the physical address of the currently active top-level table, and
/// the intermediate tables the firmware already built. The caller guarantees
/// no other accessor of the hierarchy exists; the returned value is the one
/// exclusive accessor for the kernel's lifetime.
pub fn init_memory(
    phys_offset: u64,
    l4_table: u64,
    l3_tables: Vec<u64>,
    l2_tables: Vec<u64>,
    l1_tables: Vec<u64>,
) -> (r: PageTableManager)
    ensures
        r.wf(),
        r.phys_offset == phys_offset,
        r.l4_table == l4_table,
        r.l3_tables@ == l3_tables@,
        r.l2_tables@ == l2_tables@,
        r.l1_tables@ == l1_tables@,
        r.entries@ == Seq::<MappingEntry>::empty(),
        r.invalidations@ == Seq::<u64>::empty(),
{
    let r = PageTableManager {
        phys_offset,
        l4_table,
        l3_tables,
        l2_tables,
        l1_tables,
        entries: Vec::new(),
        invalidations: Vec::new(),
    };
    proof {
        assert(r.entries@ =~= Seq::<MappingEntry>::empty());
        assert(r.invalidations@ =~= Seq::<u64>::empty());
    }
    r
}

/// Membership in a pushed sequence: everything already present stays, the
/// pushed element is present, and nothing else appears.
pub proof fn lemma_contains_after_push(before: Seq<u64>, after: Seq<u64>, x: u64)
    requires
        after == before || after == before.push(x),
    ensures
        after.contains(x) == (before.contains(x) || after == before.push(x)),
        forall|y: u64| before.contains(y) ==> #[trigger] after.contains(y),
        forall|y: u64| #[trigger] after.contains(y) ==> before.contains(y) || y == x,
{
    if after == before.push(x) {
        assert(after[after.len() - 1] == x);
        assert(after.contains(x));
        assert forall|y: u64| before.contains(y) implies #[trigger] after.contains(y) by {
            let i = choose|i: int| 0 <= i < before.len() && before[i] == y;
            assert(after[i] == y);
        }
        assert forall|y: u64| #[trigger] after.contains(y) implies before.contains(y) || y
            == x by {
            let i = choose|i: int| 0 <= i < after.len() && after[i] == y;
            if i < before.len() {
                assert(before[i] == y);
                assert(before.contains(y));
            }
        }
    }
}

/// Linear scan for a value in a vector.
fn vec_contains(v: &Vec<u64>, x: u64) -> (b: bool)
    ensures
        b == v@.contains(x),
{
    let mut i: usize = 0;
    while i < v.len()
        invariant
            0 <= i <= v@.len(),
            forall|j: int| 0 <= j < i ==> v@[j] != x,
        decreases v@.len() - i,
    {
        if v[i] == x {
            proof {
                assert(v@.contains(x));
            }
            return true;
        }
        i = i + 1;
    }
    false
}

} // verus!
