//! Leveled diagnostic log, built as an explicit object threaded through the
//! boot sequence instead of an ambient global sink.
//!
//! Records are structured events rather than rendered text; the unverified
//! shell around the kernel turns each record into a color-coded line. The
//! severity filter and the color chosen per severity are decided here.
use vstd::prelude::*;

verus! {

/// Severity of one diagnostic record, most severe first.
#[derive(Clone, Copy, PartialEq, Eq, Structural, Debug)]
pub enum Level {
    Error,
    Warn,
    Info,
    Debug,
    Trace,
}

/// Numeric severity rank; smaller is more severe.
pub open spec fn level_rank_spec(l: Level) -> nat {
    match l {
        Level::Error => 1,
        Level::Warn => 2,
        Level::Info => 3,
        Level::Debug => 4,
        Level::Trace => 5,
    }
}

pub fn level_rank(l: Level) -> (r: u8)
    ensures
        r as nat == level_rank_spec(l),
{
    match l {
        Level::Error => 1,
        Level::Warn => 2,
        Level::Info => 3,
        Level::Debug => 4,
        Level::Trace => 5,
    }
}

/// ANSI color code the sink uses when rendering a record of this severity.
pub open spec fn color_code_spec(l: Level) -> u8 {
    match l {
        Level::Error => 31,  // red
        Level::Warn => 33,  // yellow
        Level::Info => 32,  // green
        Level::Debug => 36,  // cyan
        Level::Trace => 35,  // magenta
    }
}

pub fn color_code(l: Level) -> (r: u8)
    ensures
        r == color_code_spec(l),
{
    match l {
        Level::Error => 31,
        Level::Warn => 33,
        Level::Info => 32,
        Level::Debug => 36,
        Level::Trace => 35,
    }
}

/// One structured diagnostic event of the boot sequence.
#[derive(Clone, Copy, PartialEq, Eq, Structural, Debug)]
pub enum Event {
    /// The kernel has started booting.
    Booting,
    /// The exception dispatch table has been loaded.
    IdtLoaded,
    /// The heap was mapped and its allocator initialized.
    HeapInitialized { start: u64, size: u64 },
    /// A value was placed on the fresh heap.
    HeapValue { value: u64 },
    /// A vector of the given length was grown on the fresh heap.
    HeapVector { len: u64 },
    /// The whole boot sequence completed.
    KernelInitialized,
    /// The breakpoint handler ran with this CPU context.
    BreakpointHit { instruction_pointer: u64, cpu_flags: u64 },
    /// The double-fault handler ran with this CPU context.
    DoubleFault { instruction_pointer: u64, cpu_flags: u64, error_code: u64 },
    /// The kernel hit an unrecoverable condition and is about to halt.
    KernelPanic,
    /// A dynamic allocation could not be satisfied.
    AllocError { size: u64, align: u64 },
    /// A free-form marker, for callers that want to bracket other events.
    Marker { code: u64 },
}

/// One accepted diagnostic record.
#[derive(Clone, Copy, PartialEq, Eq, Structural, Debug)]
pub struct LogRecord {
    pub level: Level,
    pub event: Event,
}

/// The diagnostic log: a severity filter and the records accepted so far, in
/// the order they were emitted.
pub struct Logger {
    pub max_level: Level,
    pub records: Vec<LogRecord>,
}

impl Logger {
    /// Does a record at `level` pass the filter?
    pub open spec fn enabled_spec(&self, level: Level) -> bool {
        level_rank_spec(level) <= level_rank_spec(self.max_level)
    }

    pub fn enabled(&self, level: Level) -> (b: bool)
        ensures
            b == self.enabled_spec(level),
    {
        level_rank(level) <= level_rank(self.max_level)
    }

    /// Append one record if its severity passes the filter; drop it
    /// otherwise. Nothing already recorded is ever altered.
    pub fn log(&mut self, level: Level, event: Event)
        ensures
            final(self).max_level == old(self).max_level,
            old(self).enabled_spec(level) ==> final(self).records@ == old(self).records@.push(
                LogRecord { level, event },
            ),
            !old(self).enabled_spec(level) ==> final(self).records@ == old(self).records@,
    {
        if self.enabled(level) {
            self.records.push(LogRecord { level, event });
        }
    }
}

/// Construct the boot logger: an empty record list filtered at `Info`, the
/// level the kernel runs with.
pub fn init_logger() -> (r: Logger)
    ensures
        r.max_level == Level::Info,
        r.records@ == Seq::<LogRecord>::empty(),
{
    let r = Logger { max_level: Level::Info, records: Vec::new() };
    proof {
        assert(r.records@ =~= Seq::<LogRecord>::empty());
    }
    r
}

} // verus!
