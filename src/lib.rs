//! Guest address-space management for an instruction-set emulator: a
//! first-fit frame allocator, a two-level page table, address translation,
//! and the parser that discovers a binary image's load segments.

pub mod address;
pub mod bytes;
pub mod error;
pub mod frame;
pub mod image;
pub mod memory;
pub mod pte;
