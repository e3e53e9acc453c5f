//! Fixed-width unsigned integers read from byte sequences in either byte
//! order.

use vstd::prelude::*;

verus! {

/// The 16-bit value of `s[i..i + 2]`, most significant byte first when
/// `big`.
pub open spec fn u16_at(s: Seq<u8>, i: int, big: bool) -> int {
    if big {
        s[i] * 256 + s[i + 1]
    } else {
        s[i] + s[i + 1] * 256
    }
}

/// The 32-bit value of `s[i..i + 4]`.
pub open spec fn u32_at(s: Seq<u8>, i: int, big: bool) -> int {
    if big {
        u16_at(s, i, big) * 0x1_0000 + u16_at(s, i + 2, big)
    } else {
        u16_at(s, i, big) + u16_at(s, i + 2, big) * 0x1_0000
    }
}

/// The 64-bit value of `s[i..i + 8]`.
pub open spec fn u64_at(s: Seq<u8>, i: int, big: bool) -> int {
    if big {
        u32_at(s, i, big) * 0x1_0000_0000 + u32_at(s, i + 4, big)
    } else {
        u32_at(s, i, big) + u32_at(s, i + 4, big) * 0x1_0000_0000
    }
}

pub fn read_u16(s: &[u8], i: usize, big: bool) -> (r: u16)
    requires
        i + 2 <= s@.len(),
    ensures
        r as int == u16_at(s@, i as int, big),
{
    let a: u16 = s[i] as u16;
    let b: u16 = s[i + 1] as u16;
    if big {
        a * 256 + b
    } else {
        a + b * 256
    }
}

pub fn read_u32(s: &[u8], i: usize, big: bool) -> (r: u32)
    requires
        i + 4 <= s@.len(),
    ensures
        r as int == u32_at(s@, i as int, big),
{
    let n: usize = s.len();
    assert(i + 4 <= n);
    let a: u32 = read_u16(s, i, big) as u32;
    let b: u32 = read_u16(s, i + 2, big) as u32;
    if big {
        a * 0x1_0000 + b
    } else {
        a + b * 0x1_0000
    }
}

pub fn read_u64(s: &[u8], i: usize, big: bool) -> (r: u64)
    requires
        i + 8 <= s@.len(),
    ensures
        r as int == u64_at(s@, i as int, big),
{
    let n: usize = s.len();
    assert(i + 8 <= n);
    let a: u64 = read_u32(s, i, big) as u64;
    let b: u64 = read_u32(s, i + 4, big) as u64;
    if big {
        a * 0x1_0000_0000 + b
    } else {
        a + b * 0x1_0000_0000
    }
}

} // verus!
