use boot_core::boot::KernelState;
use boot_core::boot::kernel_main;
use boot_core::boot::test_heap_allocation;
use boot_core::frame_alloc::BootInfoFrameAllocator;
use boot_core::frame_alloc::MemoryRegion;
use boot_core::frame_alloc::MemoryRegionKind;
use boot_core::frame_alloc::PAGE_SIZE;
use boot_core::heap::HEAP_SIZE;
use boot_core::heap::HEAP_START;
use boot_core::heap::HeapAllocator;
use boot_core::heap::HeapInitError;
use boot_core::heap::init;
use boot_core::heap::init_heap;
use boot_core::idt::BREAKPOINT_VECTOR;
use boot_core::idt::DOUBLE_FAULT_VECTOR;
use boot_core::idt::FaultOutcome;
use boot_core::idt::InterruptStackFrame;
use boot_core::idt::alloc_error_handler;
use boot_core::idt::init_idt;
use boot_core::logger::Event;
use boot_core::logger::Level;
use boot_core::logger::color_code;
use boot_core::logger::init_logger;
use boot_core::paging::L1_SPAN;
use boot_core::paging::L2_SPAN;
use boot_core::paging::L3_SPAN;
use boot_core::paging::MapError;
use boot_core::paging::PageTableFlags;
use boot_core::paging::init_memory;

fn usable(start: u64, end: u64) -> MemoryRegion {
    MemoryRegion { start, end, kind: MemoryRegionKind::Usable }
}

fn reserved(start: u64, end: u64) -> MemoryRegion {
    MemoryRegion { start, end, kind: MemoryRegionKind::Reserved }
}

fn drain(alloc: &mut BootInfoFrameAllocator) -> Vec<u64> {
    let mut out = Vec::new();
    while let Some(f) = alloc.allocate_frame() {
        out.push(f);
    }
    out
}

/// A page table manager whose intermediate tables for the heap range already
/// exist, so mapping a heap page consumes no table frames.
fn mapper_with_heap_tables(start: u64) -> boot_core::paging::PageTableManager {
    init_memory(
        0,
        0x1000,
        vec![start / L3_SPAN],
        vec![start / L2_SPAN],
        vec![start / L1_SPAN],
    )
}

#[test]
fn frames_increasing_aligned_counts() {
    // Usable region of length 10000 -> floor(10000 / 4096) = 2 frames; the
    // reserved region contributes nothing; the later usable region adds two.
    let regions = vec![
        usable(0, 10000),
        reserved(10000, 20480),
        usable(20480, 28672),
    ];
    let mut alloc = BootInfoFrameAllocator::init(regions);
    let frames = drain(&mut alloc);
    assert_eq!(frames, vec![0, 4096, 20480, 24576]);
    for w in frames.windows(2) {
        assert!(w[0] < w[1]);
    }
    for f in &frames {
        assert_eq!(f % PAGE_SIZE, 0);
    }
}

#[test]
fn frames_of_unaligned_region_are_aligned() {
    // Length 8192 -> two frames, each aligned down to a page boundary.
    let mut alloc = BootInfoFrameAllocator::init(vec![usable(100, 8292)]);
    let frames = drain(&mut alloc);
    assert_eq!(frames, vec![0, 4096]);
}

#[test]
fn reserved_only_map_yields_nothing() {
    let mut alloc = BootInfoFrameAllocator::init(vec![reserved(0, 1 << 30)]);
    assert_eq!(alloc.allocate_frame(), None);
}

#[test]
fn empty_region_yields_nothing() {
    let mut alloc = BootInfoFrameAllocator::init(vec![usable(4096, 4096), usable(8192, 8193)]);
    assert_eq!(alloc.allocate_frame(), None);
}

#[test]
fn exhaustion_after_exactly_n_allocations() {
    // Two frames available: two present results, then empty, deterministically.
    let mut alloc = BootInfoFrameAllocator::init(vec![usable(0, 8192)]);
    assert_eq!(alloc.allocate_frame(), Some(0));
    assert_eq!(alloc.allocate_frame(), Some(4096));
    assert_eq!(alloc.allocate_frame(), None);
    assert_eq!(alloc.allocate_frame(), None);
}

#[test]
fn logger_colors_match_severities() {
    assert_eq!(color_code(Level::Error), 31);
    assert_eq!(color_code(Level::Warn), 33);
    assert_eq!(color_code(Level::Info), 32);
    assert_eq!(color_code(Level::Debug), 36);
    assert_eq!(color_code(Level::Trace), 35);
}

#[test]
fn logger_filters_below_info() {
    let mut logger = init_logger();
    assert_eq!(logger.max_level, Level::Info);
    assert!(logger.records.is_empty());
    logger.log(Level::Debug, Event::Marker { code: 1 });
    assert!(logger.records.is_empty());
    logger.log(Level::Error, Event::Marker { code: 2 });
    logger.log(Level::Info, Event::Marker { code: 3 });
    assert_eq!(logger.records.len(), 2);
    assert_eq!(logger.records[0].level, Level::Error);
    assert_eq!(logger.records[0].event, Event::Marker { code: 2 });
    assert_eq!(logger.records[1].level, Level::Info);
}

#[test]
fn default_translation_flags_are_read_only() {
    let flags = PageTableFlags::default();
    assert!(flags.present);
    assert!(!flags.writable);
}

#[test]
fn map_allocates_missing_tables() {
    // Fresh hierarchy: mapping one page must consume three table frames.
    let mut mapper = init_memory(0, 0x1000, Vec::new(), Vec::new(), Vec::new());
    let mut alloc = BootInfoFrameAllocator::init(vec![usable(0, 3 * 4096)]);
    let flags = PageTableFlags { present: true, writable: true };
    let r = mapper.map(HEAP_START, 3 * 4096, flags, &mut alloc);
    assert_eq!(r, Ok(()));
    assert_eq!(mapper.entries.len(), 1);
    assert_eq!(mapper.entries[0].page, HEAP_START);
    assert_eq!(mapper.entries[0].frame, 3 * 4096);
    assert_eq!(mapper.invalidations, vec![HEAP_START]);
    assert_eq!(mapper.l3_tables.len(), 1);
    assert_eq!(mapper.l2_tables.len(), 1);
    assert_eq!(mapper.l1_tables.len(), 1);
    // All three frames went to intermediate tables.
    assert_eq!(alloc.allocate_frame(), None);
}

#[test]
fn map_fails_when_no_frame_for_intermediate_table() {
    let mut mapper = init_memory(0, 0x1000, Vec::new(), Vec::new(), Vec::new());
    let mut alloc = BootInfoFrameAllocator::init(vec![usable(0, 2 * 4096)]);
    let flags = PageTableFlags { present: true, writable: true };
    let r = mapper.map(HEAP_START, 0x9000_0000, flags, &mut alloc);
    assert_eq!(r, Err(MapError::FrameAllocationFailed));
    assert!(mapper.entries.is_empty());
    assert!(mapper.invalidations.is_empty());
    assert_eq!(alloc.allocate_frame(), None);
}

#[test]
fn map_reports_existing_translation() {
    let mut mapper = mapper_with_heap_tables(HEAP_START);
    let mut alloc = BootInfoFrameAllocator::init(vec![usable(0, 8192)]);
    let flags = PageTableFlags { present: true, writable: true };
    assert_eq!(mapper.map(HEAP_START, 0, flags, &mut alloc), Ok(()));
    let again = mapper.map(HEAP_START, 4096, flags, &mut alloc);
    assert_eq!(again, Err(MapError::PageAlreadyMapped));
    assert_eq!(mapper.entries.len(), 1);
    assert_eq!(mapper.entries[0].frame, 0);
}

#[test]
fn heap_init_maps_exactly_ceil_pages() {
    // Size 4097 covers two pages; with tables in place two frames suffice.
    let start = HEAP_START;
    let mut mapper = mapper_with_heap_tables(start);
    let mut alloc = BootInfoFrameAllocator::init(vec![usable(0, 2 * 4096)]);
    let mut heap = HeapAllocator::empty();
    let r = init(start, 4097, &mut mapper, &mut alloc, &mut heap);
    assert_eq!(r, Ok(()));
    assert!(heap.initialized);
    assert_eq!(heap.start, start);
    assert_eq!(heap.size, 4097);
    assert_eq!(mapper.entries.len(), 2);
    assert_eq!(mapper.entries[0].page, start);
    assert_eq!(mapper.entries[1].page, start + 4096);
    for e in &mapper.entries {
        assert!(e.flags.present && e.flags.writable);
    }
    // Each page's frame is distinct and each mapping was followed by an
    // invalidation for exactly that page, in mapping order.
    assert_ne!(mapper.entries[0].frame, mapper.entries[1].frame);
    assert_eq!(mapper.invalidations, vec![start, start + 4096]);
    assert_eq!(alloc.allocate_frame(), None);
}

#[test]
fn heap_init_failure_keeps_earlier_pages_mapped() {
    // Three pages wanted, two frames available: the first two pages stay
    // mapped, the call reports the out-of-memory failure, the heap allocator
    // is never initialized.
    let start = HEAP_START;
    let mut mapper = mapper_with_heap_tables(start);
    let mut alloc = BootInfoFrameAllocator::init(vec![usable(0, 2 * 4096)]);
    let mut heap = HeapAllocator::empty();
    let r = init(start, 3 * 4096, &mut mapper, &mut alloc, &mut heap);
    assert_eq!(r, Err(HeapInitError::FrameAllocationFailed));
    assert!(!heap.initialized);
    assert_eq!(mapper.entries.len(), 2);
    assert_eq!(mapper.entries[0].page, start);
    assert_eq!(mapper.entries[0].frame, 0);
    assert_eq!(mapper.entries[1].page, start + 4096);
    assert_eq!(mapper.entries[1].frame, 4096);
    assert_eq!(alloc.allocate_frame(), None);
}

#[test]
fn heap_init_reports_table_exhaustion_distinctly() {
    // The page itself gets a frame, but the fresh hierarchy needs three
    // table frames and only one is left: the distinct mapping-failure class.
    let mut mapper = init_memory(0, 0x1000, Vec::new(), Vec::new(), Vec::new());
    let mut alloc = BootInfoFrameAllocator::init(vec![usable(0, 2 * 4096)]);
    let mut heap = HeapAllocator::empty();
    let r = init(HEAP_START, 4096, &mut mapper, &mut alloc, &mut heap);
    assert_eq!(
        r,
        Err(HeapInitError::MappingFailed(MapError::FrameAllocationFailed))
    );
    assert!(!heap.initialized);
    assert!(mapper.entries.is_empty());
    assert_eq!(alloc.allocate_frame(), None);
}

#[test]
fn heap_init_zero_size_maps_nothing() {
    let mut mapper = mapper_with_heap_tables(HEAP_START);
    let mut alloc = BootInfoFrameAllocator::init(vec![usable(0, 4096)]);
    let mut heap = HeapAllocator::empty();
    let r = init(HEAP_START, 0, &mut mapper, &mut alloc, &mut heap);
    assert_eq!(r, Ok(()));
    assert!(heap.initialized);
    assert!(mapper.entries.is_empty());
    assert_eq!(alloc.allocate_frame(), Some(0));
}

#[test]
fn two_frames_one_heap_then_out_of_memory() {
    // One usable region {0, 8192}: two frames. A heap of one page comes up
    // consuming one frame; a second two-page request at the next range takes
    // the last frame for its first page and then fails out-of-memory.
    let mut mapper = mapper_with_heap_tables(HEAP_START);
    let mut alloc = BootInfoFrameAllocator::init(vec![usable(0, 8192)]);
    let mut heap = HeapAllocator::empty();
    let first = init(HEAP_START, 4096, &mut mapper, &mut alloc, &mut heap);
    assert_eq!(first, Ok(()));
    assert!(heap.initialized);
    assert_eq!(mapper.entries.len(), 1);
    assert_eq!(mapper.entries[0].frame, 0);

    let mut heap2 = HeapAllocator::empty();
    let second = init(
        HEAP_START + 4096,
        2 * 4096,
        &mut mapper,
        &mut alloc,
        &mut heap2,
    );
    assert_eq!(second, Err(HeapInitError::FrameAllocationFailed));
    assert!(!heap2.initialized);
    // The single remaining frame went to the first page of the second range.
    assert_eq!(mapper.entries.len(), 2);
    assert_eq!(mapper.entries[1].page, HEAP_START + 4096);
    assert_eq!(mapper.entries[1].frame, 4096);
    assert_eq!(alloc.allocate_frame(), None);
}

#[test]
fn breakpoint_dispatch_returns_between_markers() {
    // A "before" record, the handler's record, then an "after" record — in
    // that strict order, proving control came back after the breakpoint.
    let mut logger = init_logger();
    let idt = init_idt(&mut logger);
    logger.log(Level::Info, Event::Marker { code: 1 });
    let frame = InterruptStackFrame { instruction_pointer: 0x1234, cpu_flags: 0x202 };
    let outcome = idt.dispatch(BREAKPOINT_VECTOR, frame, 0, &mut logger);
    assert_eq!(outcome, FaultOutcome::Resumed);
    logger.log(Level::Info, Event::Marker { code: 2 });
    assert_eq!(logger.records.len(), 4);
    assert_eq!(logger.records[0].event, Event::IdtLoaded);
    assert_eq!(logger.records[1].event, Event::Marker { code: 1 });
    assert_eq!(
        logger.records[2].event,
        Event::BreakpointHit { instruction_pointer: 0x1234, cpu_flags: 0x202 }
    );
    assert_eq!(logger.records[3].event, Event::Marker { code: 2 });
}

#[test]
fn double_fault_dispatch_is_fatal() {
    // The handler records its context and the outcome is the terminal halt:
    // nothing runs after it, so nothing further is ever logged.
    let mut logger = init_logger();
    let idt = init_idt(&mut logger);
    let frame = InterruptStackFrame { instruction_pointer: 0xdead, cpu_flags: 0x2 };
    let outcome = idt.dispatch(DOUBLE_FAULT_VECTOR, frame, 7, &mut logger);
    assert_eq!(outcome, FaultOutcome::FatalHalt);
    assert_eq!(logger.records.len(), 2);
    assert_eq!(logger.records[1].level, Level::Error);
    assert_eq!(
        logger.records[1].event,
        Event::DoubleFault { instruction_pointer: 0xdead, cpu_flags: 0x2, error_code: 7 }
    );
}

#[test]
fn dispatch_on_empty_slot_halts_silently() {
    let mut logger = init_logger();
    let idt = init_idt(&mut logger);
    let frame = InterruptStackFrame { instruction_pointer: 0, cpu_flags: 0 };
    let outcome = idt.dispatch(0, frame, 0, &mut logger);
    assert_eq!(outcome, FaultOutcome::FatalHalt);
    assert_eq!(logger.records.len(), 1);
}

#[test]
fn alloc_error_is_fatal() {
    let mut logger = init_logger();
    let outcome = alloc_error_handler(64, 8, &mut logger);
    assert_eq!(outcome, FaultOutcome::FatalHalt);
    assert_eq!(logger.records[0].event, Event::AllocError { size: 64, align: 8 });
}

#[test]
fn heap_smoke_test_builds_vector() {
    let mut logger = init_logger();
    let v = test_heap_allocation(&mut logger);
    assert_eq!(v, vec![0, 1, 2, 3, 4, 5, 6, 7, 8, 9]);
    assert_eq!(logger.records.len(), 2);
    assert_eq!(logger.records[0].event, Event::HeapValue { value: 41 });
    assert_eq!(logger.records[1].event, Event::HeapVector { len: 10 });
}

#[test]
fn boot_succeeds_with_ample_memory() {
    // 100 KiB heap: 25 pages, plus three intermediate tables.
    let regions = vec![usable(0, 200 * 4096)];
    let r = kernel_main(0x1_0000_0000, 0x1000, regions);
    assert_eq!(r.state, KernelState::Running);
    assert!(r.heap.initialized);
    assert_eq!(r.heap.start, HEAP_START);
    assert_eq!(r.heap.size, HEAP_SIZE);
    assert!(r.idt.loaded);
    assert_eq!(r.mapper.entries.len(), 25);
    assert_eq!(r.mapper.phys_offset, 0x1_0000_0000);
    assert_eq!(r.mapper.l4_table, 0x1000);
    let events: Vec<Event> = r.logger.records.iter().map(|rec| rec.event).collect();
    assert_eq!(
        events,
        vec![
            Event::Booting,
            Event::IdtLoaded,
            Event::HeapInitialized { start: HEAP_START, size: HEAP_SIZE },
            Event::HeapValue { value: 41 },
            Event::HeapVector { len: 10 },
            Event::KernelInitialized,
        ]
    );
    // 25 page frames and 3 table frames were consumed.
    let mut alloc = r.frame_allocator;
    assert_eq!(alloc.allocate_frame(), Some(28 * 4096));
}

#[test]
fn boot_halts_without_memory() {
    let r = kernel_main(0, 0x1000, Vec::new());
    assert_eq!(r.state, KernelState::Halted);
    assert!(!r.heap.initialized);
    let events: Vec<Event> = r.logger.records.iter().map(|rec| rec.event).collect();
    assert_eq!(
        events,
        vec![Event::Booting, Event::IdtLoaded, Event::KernelPanic]
    );
}

#[test]
fn heap_allocator_hand_over_is_recorded() {
    let mut heap = HeapAllocator::empty();
    assert!(!heap.initialized);
    heap.init(HEAP_START, HEAP_SIZE);
    assert!(heap.initialized);
    assert_eq!(heap.start, HEAP_START);
    assert_eq!(heap.size, HEAP_SIZE);
}

#[test]
fn init_heap_at_fixed_range_logs_once() {
    let mut mapper = mapper_with_heap_tables(HEAP_START);
    let mut alloc = BootInfoFrameAllocator::init(vec![usable(0, 30 * 4096)]);
    let mut heap = HeapAllocator::empty();
    let mut logger = init_logger();
    let r = init_heap(&mut mapper, &mut alloc, &mut heap, &mut logger);
    assert_eq!(r, Ok(()));
    assert_eq!(mapper.entries.len(), 25);
    assert_eq!(logger.records.len(), 1);
    assert_eq!(
        logger.records[0].event,
        Event::HeapInitialized { start: HEAP_START, size: HEAP_SIZE }
    );
}

#[test]
fn manager_exposes_top_table_through_offset() {
    let mapper = init_memory(0x8000_0000, 0x2000, Vec::new(), Vec::new(), Vec::new());
    assert_eq!(mapper.level_4_table_virt(), 0x8000_2000);
    assert!(mapper.entries.is_empty());
    assert!(mapper.invalidations.is_empty());
}
