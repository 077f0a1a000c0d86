//! Memory-management core of a RISC-V kernel, with the small pieces of boot
//! and storage logic around it.
//!
//! - [`address`]: addresses tagged with a checked alignment class.
//! - [`entry`]: the bit-exact 64-bit page-table entry.
//! - [`paging`]: paging schemes and leaf granularities.
//! - [`table`]: page tables, the software walk, mapping.
//! - [`allocator`]: the buddy-backed physical frame allocator.
//! - [`board`]: decisions taken while walking the hardware description.
//! - [`exfat`], [`storage`]: exFAT structures and the block-device interface.
//! - [`syscall`]: system-call numbers and task state.
pub mod address;
pub mod allocator;
pub mod board;
pub mod entry;
pub mod exfat;
pub mod mm_error;
pub mod paging;
pub mod storage;
pub mod syscall;
pub mod table;
