//! Exception dispatch table and the two handlers the kernel installs.
//!
//! The table has one slot per exception vector; only the breakpoint and
//! double-fault slots are populated. Loading it into the CPU is a one-way
//! transition that must happen before any heap mapping, so faults raised
//! while mapping are caught. A breakpoint records its context and resumes;
//! a double fault records its context and never returns — its outcome is the
//! kernel's terminal halt state.
use vstd::prelude::*;

use crate::logger::Event;
use crate::logger::Level;
use crate::logger::LogRecord;
use crate::logger::Logger;

verus! {

/// Exception vector number of a breakpoint.
pub const BREAKPOINT_VECTOR: u8 = 3;

/// Exception vector number of a double fault.
pub const DOUBLE_FAULT_VECTOR: u8 = 8;

/// Number of slots in the dispatch table.
pub const VECTOR_COUNT: usize = 256;

/// What occupies one slot of the dispatch table.
#[derive(Clone, Copy, PartialEq, Eq, Structural, Debug)]
pub enum HandlerSlot {
    Missing,
    Breakpoint,
    DoubleFault,
}

/// CPU context pushed when a fault is delivered: the faulting instruction
/// pointer and the CPU flags.
#[derive(Clone, Copy, PartialEq, Eq, Structural, Debug)]
pub struct InterruptStackFrame {
    pub instruction_pointer: u64,
    pub cpu_flags: u64,
}

/// How control leaves a handler: a breakpoint resumes at the next
/// instruction; a double fault never returns and the kernel halts.
#[derive(Clone, Copy, PartialEq, Eq, Structural, Debug)]
pub enum FaultOutcome {
    Resumed,
    FatalHalt,
}

/// Fixed-size per-exception handler table. `loaded` moves from false to true
/// exactly once, and only a loaded table dispatches faults.
pub struct InterruptDescriptorTable {
    pub slots: Vec<HandlerSlot>,
    pub loaded: bool,
}

impl InterruptDescriptorTable {
    pub open spec fn wf(&self) -> bool {
        self.slots@.len() == VECTOR_COUNT
    }

    /// A fresh table: every slot empty, not yet loaded.
    pub fn new() -> (r: Self)
        ensures
            r.wf(),
            !r.loaded,
            forall|i: int| 0 <= i < VECTOR_COUNT ==> r.slots@[i] == HandlerSlot::Missing,
    {
        let mut slots: Vec<HandlerSlot> = Vec::new();
        let mut i: usize = 0;
        while i < VECTOR_COUNT
            invariant
                0 <= i <= VECTOR_COUNT,
                slots@.len() == i,
                forall|j: int| 0 <= j < i ==> slots@[j] == HandlerSlot::Missing,
            decreases VECTOR_COUNT - i,
        {
            slots.push(HandlerSlot::Missing);
            i = i + 1;
        }
        InterruptDescriptorTable { slots, loaded: false }
    }

    /// Populate the breakpoint slot.
    pub fn set_breakpoint_handler(&mut self)
        requires
            old(self).wf(),
        ensures
            final(self).wf(),
            final(self).slots@ == old(self).slots@.update(
                BREAKPOINT_VECTOR as int,
                HandlerSlot::Breakpoint,
            ),
            final(self).loaded == old(self).loaded,
    {
        self.slots[BREAKPOINT_VECTOR as usize] = HandlerSlot::Breakpoint;
    }

    /// Populate the double-fault slot.
    pub fn set_double_fault_handler(&mut self)
        requires
            old(self).wf(),
        ensures
            final(self).wf(),
            final(self).slots@ == old(self).slots@.update(
                DOUBLE_FAULT_VECTOR as int,
                HandlerSlot::DoubleFault,
            ),
            final(self).loaded == old(self).loaded,
    {
        self.slots[DOUBLE_FAULT_VECTOR as usize] = HandlerSlot::DoubleFault;
    }

    /// Load the table into the CPU's exception-dispatch register. One-way:
    /// loading an already loaded table is a programming error and excluded.
    pub fn load(&mut self)
        requires
            !old(self).loaded,
        ensures
            final(self).loaded,
            final(self).slots@ == old(self).slots@,
    {
        self.loaded = true;
    }

    /// Dispatch one CPU-delivered exception through the table. A populated
    /// breakpoint slot records its context and resumes; a populated
    /// double-fault slot records its context and the kernel halts; an empty
    /// slot halts with nothing recorded.
    pub fn dispatch(
        &self,
        vector: u8,
        stack_frame: InterruptStackFrame,
        error_code: u64,
        logger: &mut Logger,
    ) -> (r: FaultOutcome)
        requires
            self.wf(),
            self.loaded,
        ensures
            final(logger).max_level == old(logger).max_level,
            self.slots@[vector as int] == HandlerSlot::Breakpoint ==> r == FaultOutcome::Resumed
                && (if old(logger).enabled_spec(Level::Info) {
                final(logger).records@ == old(logger).records@.push(
                    LogRecord {
                        level: Level::Info,
                        event: Event::BreakpointHit {
                            instruction_pointer: stack_frame.instruction_pointer,
                            cpu_flags: stack_frame.cpu_flags,
                        },
                    },
                )
            } else {
                final(logger).records@ == old(logger).records@
            }),
            self.slots@[vector as int] == HandlerSlot::DoubleFault ==> r == FaultOutcome::FatalHalt
                && (if old(logger).enabled_spec(Level::Error) {
                final(logger).records@ == old(logger).records@.push(
                    LogRecord {
                        level: Level::Error,
                        event: Event::DoubleFault {
                            instruction_pointer: stack_frame.instruction_pointer,
                            cpu_flags: stack_frame.cpu_flags,
                            error_code,
                        },
                    },
                )
            } else {
                final(logger).records@ == old(logger).records@
            }),
            self.slots@[vector as int] == HandlerSlot::Missing ==> r == FaultOutcome::FatalHalt
                && final(logger).records@ == old(logger).records@,
    {
        match self.slots[vector as usize] {
            HandlerSlot::Missing => FaultOutcome::FatalHalt,
            HandlerSlot::Breakpoint => {
                breakpoint_handler(stack_frame, logger);
                FaultOutcome::Resumed
            },
            HandlerSlot::DoubleFault => double_fault_handler(stack_frame, error_code, logger),
        }
    }
}

/// Breakpoint handler: record the faulting context and return normally, so
/// execution resumes at the next instruction. Never diverges.
pub fn breakpoint_handler(stack_frame: InterruptStackFrame, logger: &mut Logger)
    ensures
        final(logger).max_level == old(logger).max_level,
        old(logger).enabled_spec(Level::Info) ==> final(logger).records@ == old(
            logger,
        ).records@.push(
            LogRecord {
                level: Level::Info,
                event: Event::BreakpointHit {
                    instruction_pointer: stack_frame.instruction_pointer,
                    cpu_flags: stack_frame.cpu_flags,
                },
            },
        ),
        !old(logger).enabled_spec(Level::Info) ==> final(logger).records@ == old(logger).records@,
{
    logger.log(
        Level::Info,
        Event::BreakpointHit {
            instruction_pointer: stack_frame.instruction_pointer,
            cpu_flags: stack_frame.cpu_flags,
        },
    );
}

/// Double-fault handler: record the faulting context; the outcome is always
/// the terminal halt — this handler never returns to the faulting code.
pub fn double_fault_handler(
    stack_frame: InterruptStackFrame,
    error_code: u64,
    logger: &mut Logger,
) -> (r: FaultOutcome)
    ensures
        r == FaultOutcome::FatalHalt,
        final(logger).max_level == old(logger).max_level,
        old(logger).enabled_spec(Level::Error) ==> final(logger).records@ == old(
            logger,
        ).records@.push(
            LogRecord {
                level: Level::Error,
                event: Event::DoubleFault {
                    instruction_pointer: stack_frame.instruction_pointer,
                    cpu_flags: stack_frame.cpu_flags,
                    error_code,
                },
            },
        ),
        !old(logger).enabled_spec(Level::Error) ==> final(logger).records@ == old(logger).records@,
{
    logger.log(
        Level::Error,
        Event::DoubleFault {
            instruction_pointer: stack_frame.instruction_pointer,
            cpu_flags: stack_frame.cpu_flags,
            error_code,
        },
    );
    FaultOutcome::FatalHalt
}

/// Build the dispatch table with its breakpoint and double-fault slots
/// populated, load it, and record that it is in place.
pub fn init_idt(logger: &mut Logger) -> (idt: InterruptDescriptorTable)
    ensures
        idt.wf(),
        idt.loaded,
        idt.slots@[BREAKPOINT_VECTOR as int] == HandlerSlot::Breakpoint,
        idt.slots@[DOUBLE_FAULT_VECTOR as int] == HandlerSlot::DoubleFault,
        forall|i: int|
            0 <= i < VECTOR_COUNT && i != BREAKPOINT_VECTOR as int && i != DOUBLE_FAULT_VECTOR as int
                ==> idt.slots@[i] == HandlerSlot::Missing,
        final(logger).max_level == old(logger).max_level,
        old(logger).enabled_spec(Level::Info) ==> final(logger).records@ == old(
            logger,
        ).records@.push(LogRecord { level: Level::Info, event: Event::IdtLoaded }),
        !old(logger).enabled_spec(Level::Info) ==> final(logger).records@ == old(logger).records@,
{
    let mut idt = InterruptDescriptorTable::new();
    idt.set_breakpoint_handler();
    idt.set_double_fault_handler();
    idt.load();
    logger.log(Level::Info, Event::IdtLoaded);
    idt
}

/// Handler for a failed dynamic allocation: record the rejected request and
/// halt — like a double fault, this never returns.
pub fn alloc_error_handler(size: u64, align: u64, logger: &mut Logger) -> (r: FaultOutcome)
    ensures
        r == FaultOutcome::FatalHalt,
        final(logger).max_level == old(logger).max_level,
        old(logger).enabled_spec(Level::Error) ==> final(logger).records@ == old(
            logger,
        ).records@.push(
            LogRecord { level: Level::Error, event: Event::AllocError { size, align } },
        ),
        !old(logger).enabled_spec(Level::Error) ==> final(logger).records@ == old(logger).records@,
{
    logger.log(Level::Error, Event::AllocError { size, align });
    FaultOutcome::FatalHalt
}

} // verus!
