//! The block device the file system lives on, and the library's errors.
use vstd::prelude::*;

verus! {

/// Size in bytes of a file-system block.
pub const BLOCK_SIZE: usize = 4096;

/// Byte offset of the superblock on the device.
pub const BASE_OFFSET: usize = 1024;

/// A device that reads and writes bytes at byte offsets.
///
/// Implemented by users of the library for their storage. `read_offset`
/// may return any number of bytes, and the library checks what it gets.
///
/// The two spec functions name what the library's contracts say of the
/// device requests it makes. They hold of everything unless an
/// implementation defines them otherwise; an implementation that does must
/// keep `spec_write_requested` a record of requests.
pub trait BlockDevice {
    /// The device may answer a read at `offset` with `data`.
    open spec fn spec_read(&self, offset: usize, data: Seq<u8>) -> bool {
        true
    }

    /// The device has been asked to write `data` at `offset`. This is a
    /// record of requests: once it holds it keeps holding, whatever is
    /// written later.
    open spec fn spec_write_requested(&self, offset: usize, data: Seq<u8>) -> bool {
        true
    }

    /// Reads the bytes that start at `offset`.
    fn read_offset(&self, offset: usize) -> (r: Vec<u8>)
        ensures
            self.spec_read(offset, r@),
    ;

    /// Writes `data` starting at `offset`.
    fn write_offset(&self, offset: usize, data: &[u8])
        ensures
            self.spec_write_requested(offset, data@),
    ;
}

/// Errors of the library.
#[derive(Debug, Clone, Copy, PartialEq, Eq)]
pub enum Ext4Error {
    /// A buffer held fewer bytes than the record to be decoded from it.
    BufferTooShort,
    /// A byte position on the device does not fit in `usize`.
    PositionOverflow,
}

} // verus!
