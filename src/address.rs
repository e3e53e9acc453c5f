//! Splitting a virtual address into frame offset, level-one index and
//! level-two index.
//!
//! Layout of the low 36 bits: `0xAAA_BBB_XXX`, where `AAA` is the level-two
//! index, `BBB` the level-one index and `XXX` the byte within the frame.
//! Bits above 35 are ignored, so addresses that differ only there alias.

use vstd::prelude::*;

verus! {

/// Bytes in one frame (and one page).
pub const FRAME_SIZE: usize = 4096;

pub const L1_MASK: u64 = 0x0000_0000_00FF_F000;

pub const L2_MASK: u64 = 0x0000_000F_FF00_0000;

pub const OFFSET_MASK: u64 = 0x0000_0000_0000_0FFF;

/// The byte within its frame that an address selects.
pub open spec fn offset_of(addr: u64) -> int {
    addr as int % 4096
}

/// The level-one index of an address: bits 12..24.
pub open spec fn l1_of(addr: u64) -> int {
    (addr as int / 4096) % 4096
}

/// The level-two index of an address: bits 24..36.
pub open spec fn l2_of(addr: u64) -> int {
    (addr as int / 0x100_0000) % 4096
}

/// The 36-bit page number of an address: the pair of its two indices.
pub open spec fn page_of(addr: u64) -> int {
    (addr as int / 4096) % 0x100_0000
}

/// The level-one table index of `addr`.
pub fn l1_pt_addr(addr: u64) -> (r: usize)
    ensures
        r as int == l1_of(addr),
        r < 4096,
{
    assert(((addr & 0x0000_0000_00FF_F000u64) >> 12u64) == (addr / 4096) % 4096) by (bit_vector);
    ((addr & L1_MASK) >> 12) as usize
}

/// The level-two table index of `addr`.
pub fn l2_pt_addr(addr: u64) -> (r: usize)
    ensures
        r as int == l2_of(addr),
        r < 4096,
{
    assert(((addr & 0x0000_000F_FF00_0000u64) >> 24u64) == (addr / 0x100_0000) % 4096)
        by (bit_vector);
    ((addr & L2_MASK) >> 24) as usize
}

/// The byte offset of `addr` within its frame.
pub fn frame_offset(addr: u64) -> (r: usize)
    ensures
        r as int == offset_of(addr),
        r < FRAME_SIZE,
{
    assert((addr & 0x0FFFu64) == addr % 4096) by (bit_vector);
    (addr & OFFSET_MASK) as usize
}

/// The three fields cover the low 36 bits exactly: each is below 4096, and
/// shifting them back into place and adding them rebuilds the address
/// modulo 2^36.
pub proof fn lemma_fields_partition(addr: u64)
    ensures
        0 <= offset_of(addr) < 4096,
        0 <= l1_of(addr) < 4096,
        0 <= l2_of(addr) < 4096,
        l2_of(addr) * 0x100_0000 + l1_of(addr) * 4096 + offset_of(addr) == addr as int
            % 0x10_0000_0000,
        page_of(addr) == l2_of(addr) * 4096 + l1_of(addr),
{
    assert(((addr / 0x100_0000) % 4096) * 0x100_0000 + ((addr / 4096) % 4096) * 4096 + addr % 4096
        == addr % 0x10_0000_0000) by (bit_vector);
    assert((addr / 4096) % 0x100_0000 == ((addr / 0x100_0000) % 4096) * 4096 + (addr / 4096)
        % 4096) by (bit_vector);
}

/// The three fields occupy disjoint bit ranges, and together they are the
/// low 36 bits.
pub proof fn lemma_masks_disjoint()
    ensures
        L1_MASK & L2_MASK == 0,
        L1_MASK & OFFSET_MASK == 0,
        L2_MASK & OFFSET_MASK == 0,
        L1_MASK | L2_MASK | OFFSET_MASK == 0x0000_000F_FFFF_FFFFu64,
{
    assert(0x0000_0000_00FF_F000u64 & 0x0000_000F_FF00_0000u64 == 0) by (bit_vector);
    assert(0x0000_0000_00FF_F000u64 & 0x0FFFu64 == 0) by (bit_vector);
    assert(0x0000_000F_FF00_0000u64 & 0x0FFFu64 == 0) by (bit_vector);
    assert(0x0000_0000_00FF_F000u64 | 0x0000_000F_FF00_0000u64 | 0x0FFFu64
        == 0x0000_000F_FFFF_FFFFu64) by (bit_vector);
}

} // verus!
