//! Error kinds of the memory manager and of the image parser.

use vstd::prelude::*;

verus! {

/// Failures of the frame allocator, the page table and the manager.
#[derive(Clone, Copy, Debug, PartialEq, Eq, Structural)]
pub enum MemoryError {
    /// Every physical frame is in use.
    OutOfMemory,
    /// A table index lies outside its table.
    IndexOutOfBounds,
}

/// Reasons a binary image is rejected.
#[derive(Clone, Copy, Debug, PartialEq, Eq, Structural)]
pub enum ParseError {
    /// The first four bytes are not `0x7F 'E' 'L' 'F'`.
    BadMagic,
    /// The target-architecture tag is not the supported one.
    UnsupportedArchitecture,
    /// The header or the segment table is shorter than declared.
    Truncated,
    /// The address-width byte is neither 1 (32-bit) nor 2 (64-bit).
    UnsupportedWidth,
    /// The endianness byte is neither 1 (little) nor 2 (big).
    UnsupportedEndianness,
}

} // verus!
