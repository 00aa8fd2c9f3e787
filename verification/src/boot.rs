//! Bootstrap orchestrator: the fixed boot order — diagnostics, fault table,
//! memory and paging, heap — threaded through one explicit context instead
//! of ambient globals.
//!
//! Any failure to bring the heap up is unrecoverable: it is recorded and the
//! kernel enters its terminal halt state; there is no clean shutdown path.
use vstd::prelude::*;

use crate::frame_alloc::BootInfoFrameAllocator;
use crate::frame_alloc::MemoryRegion;
use crate::frame_alloc::frames_of;
use crate::heap::HEAP_SIZE;
use crate::heap::HEAP_START;
use crate::heap::HeapAllocator;
use crate::heap::init_heap;
use crate::heap::pages_needed;
use crate::idt::InterruptDescriptorTable;
use crate::idt::init_idt;
use crate::logger::Event;
use crate::logger::Level;
use crate::logger::LogRecord;
use crate::logger::Logger;
use crate::logger::init_logger;
use crate::paging::PageTableManager;
use crate::paging::init_memory;

verus! {

/// Whether boot completed or the kernel entered its terminal halt state.
#[derive(Clone, Copy, PartialEq, Eq, Structural, Debug)]
pub enum KernelState {
    Running,
    Halted,
}

/// Everything the boot sequence constructs, handed back to the shell that
/// drives the hardware.
pub struct BootResult {
    pub logger: Logger,
    pub idt: InterruptDescriptorTable,
    pub mapper: PageTableManager,
    pub frame_allocator: BootInfoFrameAllocator,
    pub heap: HeapAllocator,
    pub state: KernelState,
}

/// Smoke test run right after the heap comes up: place one value on the
/// heap, grow a ten-element vector, and record both.
pub fn test_heap_allocation(logger: &mut Logger) -> (v: Vec<u64>)
    ensures
        v@.len() == 10,
        forall|i: int| 0 <= i < 10 ==> v@[i] == i,
        final(logger).max_level == old(logger).max_level,
        old(logger).enabled_spec(Level::Info) ==> final(logger).records@ == old(
            logger,
        ).records@.push(
            LogRecord { level: Level::Info, event: Event::HeapValue { value: 41 } },
        ).push(LogRecord { level: Level::Info, event: Event::HeapVector { len: 10 } }),
        !old(logger).enabled_spec(Level::Info) ==> final(logger).records@ == old(logger).records@,
{
    let heap_value: Box<u64> = Box::new(41);
    logger.log(Level::Info, Event::HeapValue { value: *heap_value });
    let mut v: Vec<u64> = Vec::new();
    let mut i: u64 = 0;
    while i < 10
        invariant
            0 <= i <= 10,
            v@.len() == i,
            forall|j: int| 0 <= j < i ==> v@[j] == j,
        decreases 10 - i,
    {
        v.push(i);
        i = i + 1;
    }
    logger.log(Level::Info, Event::HeapVector { len: 10 });
    v
}

/// The boot sequence. The fault table is loaded before any heap mapping, so
/// faults raised while mapping are caught; the heap is mapped and
/// initialized last. On success the diagnostic log holds the boot records in
/// their fixed order; on heap failure the kernel records the panic and
/// halts.
pub fn kernel_main(
    physical_memory_offset: u64,
    l4_table: u64,
    memory_regions: Vec<MemoryRegion>,
) -> (r: BootResult)
    ensures
        r.logger.max_level == Level::Info,
        r.idt.wf(),
        r.idt.loaded,
        r.mapper.wf(),
        r.frame_allocator.wf(),
        r.frame_allocator.regions@ == memory_regions@,
        r.mapper.phys_offset == physical_memory_offset,
        r.mapper.l4_table == l4_table,
        (r.state == KernelState::Running) <==> r.heap.initialized,
        r.heap.initialized ==> r.heap.start == HEAP_START && r.heap.size == HEAP_SIZE
            && r.logger.records@ == seq![
            LogRecord { level: Level::Info, event: Event::Booting },
            LogRecord { level: Level::Info, event: Event::IdtLoaded },
            LogRecord {
                level: Level::Info,
                event: Event::HeapInitialized { start: HEAP_START, size: HEAP_SIZE },
            },
            LogRecord { level: Level::Info, event: Event::HeapValue { value: 41 } },
            LogRecord { level: Level::Info, event: Event::HeapVector { len: 10 } },
            LogRecord { level: Level::Info, event: Event::KernelInitialized },
        ],
        !r.heap.initialized ==> r.state == KernelState::Halted && r.logger.records@ == seq![
            LogRecord { level: Level::Info, event: Event::Booting },
            LogRecord { level: Level::Info, event: Event::IdtLoaded },
            LogRecord { level: Level::Error, event: Event::KernelPanic },
        ],
        frames_of(memory_regions@).len() >= 4 * pages_needed(HEAP_SIZE) ==> r.heap.initialized,
{
    let mut logger = init_logger();
    logger.log(Level::Info, Event::Booting);
    let idt = init_idt(&mut logger);
    let mut mapper = init_memory(physical_memory_offset, l4_table, Vec::new(), Vec::new(), Vec::new());
    let mut frame_allocator = BootInfoFrameAllocator::init(memory_regions);
    let mut heap = HeapAllocator::empty();
    let result = init_heap(&mut mapper, &mut frame_allocator, &mut heap, &mut logger);
    match result {
        Ok(()) => {
            let _values = test_heap_allocation(&mut logger);
            logger.log(Level::Info, Event::KernelInitialized);
            proof {
                assert(logger.records@ =~= seq![
                    LogRecord { level: Level::Info, event: Event::Booting },
                    LogRecord { level: Level::Info, event: Event::IdtLoaded },
                    LogRecord {
                        level: Level::Info,
                        event: Event::HeapInitialized { start: HEAP_START, size: HEAP_SIZE },
                    },
                    LogRecord { level: Level::Info, event: Event::HeapValue { value: 41 } },
                    LogRecord { level: Level::Info, event: Event::HeapVector { len: 10 } },
                    LogRecord { level: Level::Info, event: Event::KernelInitialized },
                ]);
            }
            BootResult { logger, idt, mapper, frame_allocator, heap, state: KernelState::Running }
        },
        Err(_e) => {
            logger.log(Level::Error, Event::KernelPanic);
            proof {
                assert(logger.records@ =~= seq![
                    LogRecord { level: Level::Info, event: Event::Booting },
                    LogRecord { level: Level::Info, event: Event::IdtLoaded },
                    LogRecord { level: Level::Error, event: Event::KernelPanic },
                ]);
            }
            BootResult { logger, idt, mapper, frame_allocator, heap, state: KernelState::Halted }
        },
    }
}

} // verus!
