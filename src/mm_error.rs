//! Errors of address checks and page-table mapping.
use vstd::prelude::*;

verus! {

/// Why a mapping or an alignment check failed.
#[derive(Debug, Clone, Copy, PartialEq, Eq, Structural)]
pub enum Error {
    /// An address is not a multiple of the required alignment.
    AddressNotAligned,
    /// The request cannot be met: the paging scheme cannot express the
    /// granularity, or no frame was left for an intermediate table.
    OutOfMemory,
    /// A coarser leaf mapping already covers the requested region.
    AlreadyMapped,
}

} // verus!
