//! Block storage: the errors a device reports and the interface a block
//! device offers.
use vstd::prelude::*;

verus! {

/// Why a block operation failed.
#[derive(Debug, Clone, Copy, PartialEq, Eq, Structural)]
pub enum StorageError {
    /// A command sent to the device failed.
    CommandFailed { command: u8, error_code: u32 },
    /// The requested block was out of range.
    OutOfBounds { block_num: u64 },
    /// Data could not be read or written because of a hardware error.
    HardwareFault,
    /// A read or write timed out.
    Timeout,
    /// Data read from the device was invalid or corrupted.
    DataCorruption,
    /// An unknown error occurred.
    Unknown,
}

/// A device that reads and writes whole blocks.
pub trait StorageDevice {
    /// Reads block `block_num` into `buffer`.
    fn read_block(&self, block_num: u64, buffer: &mut [u8]) -> Result<(), StorageError>;

    /// Writes `buffer` to block `block_num`.
    fn write_block(&self, block_num: u64, buffer: &[u8]) -> Result<(), StorageError>;
}

} // verus!
