//! Page-table entries and their 32-bit encoding.
//!
//! Bit 31 holds the present flag and bits 0..12 hold the index; the other
//! bits are zero in an encoded entry and ignored when decoding.

use vstd::prelude::*;

verus! {

/// Exclusive upper bound of an index that survives encoding.
pub const INDEX_LIMIT: u16 = 4096;

/// Bytes taken by one encoded entry.
pub const ENTRY_BYTES: usize = 4;

/// A decoded page-table entry: presence plus a frame number (level one)
/// or a level-one slot number (level two).
#[derive(Clone, Copy, Debug, PartialEq, Eq, Structural)]
pub struct Pte {
    pub present: bool,
    pub index: u16,
}

/// The word an entry encodes to.
pub open spec fn encode_spec(p: Pte) -> u32 {
    ((if p.present { 0x8000_0000u32 } else { 0u32 }) | ((p.index & 0x0FFF) as u32)) as u32
}

/// The entry a word decodes to.
pub open spec fn decode_spec(w: u32) -> Pte {
    Pte { present: w & 0x8000_0000u32 != 0, index: (w & 0x0FFFu32) as u16 }
}

impl Pte {
    /// Packs the entry into its 32-bit form; only the low twelve bits of the
    /// index are kept.
    pub fn encode(self) -> (r: u32)
        ensures
            r == encode_spec(self),
    {
        let flag: u32 = if self.present { 0x8000_0000u32 } else { 0u32 };
        flag | ((self.index & 0x0FFF) as u32)
    }

    /// Unpacks an entry from its 32-bit form.
    pub fn decode(w: u32) -> (r: Pte)
        ensures
            r == decode_spec(w),
    {
        Pte { present: w & 0x8000_0000u32 != 0, index: (w & 0x0FFFu32) as u16 }
    }
}

/// Decoding an encoded entry gives the entry back, for either presence and
/// every index that fits in twelve bits.
pub proof fn lemma_encode_decode(p: Pte)
    requires
        p.index < INDEX_LIMIT,
    ensures
        decode_spec(encode_spec(p)) == p,
{
    let i = p.index;
    assert((0x8000_0000u32 | ((i & 0x0FFF) as u32)) & 0x8000_0000u32 != 0) by (bit_vector);
    assert((0u32 | ((i & 0x0FFF) as u32)) & 0x8000_0000u32 == 0) by (bit_vector);
    assert(i < 4096 ==> (((0x8000_0000u32 | ((i & 0x0FFF) as u32)) & 0x0FFFu32) as u16) == i)
        by (bit_vector);
    assert(i < 4096 ==> (((0u32 | ((i & 0x0FFF) as u32)) & 0x0FFFu32) as u16) == i)
        by (bit_vector);
}

} // verus!
