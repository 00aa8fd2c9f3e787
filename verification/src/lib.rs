//! Early-boot memory and fault-handling core of a bare-metal kernel.
//!
//! The crate turns a firmware-supplied physical memory map into a stream of
//! usable physical frames, tracks the virtual-to-physical translations that
//! the kernel installs, bootstraps a one-time heap, and models the CPU
//! exception dispatch table together with the diagnostic log that the boot
//! sequence emits. The architectural side effects themselves (control
//! register reads, page-table writes, the exception-table load) are left to
//! the surrounding unverified shell; everything decided here is verified.
pub mod frame_alloc;
pub mod paging;
pub mod heap;
pub mod logger;
pub mod idt;
pub mod boot;
