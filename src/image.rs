//! Parsing a binary image: the fixed 64-byte header and the load segments of
//! its program-header table.

use vstd::prelude::*;

use crate::bytes::{read_u16, read_u32, read_u64, u16_at, u32_at, u64_at};
use crate::error::ParseError;

verus! {

/// Bytes in the fixed header.
pub const HEADER_BYTES: usize = 64;

/// The architecture tag of the supported instruction set (RISC-V).
pub const MACHINE_TAG: u16 = 0xF3;

/// Program-header type of a load segment.
pub const LOAD_SEGMENT: u32 = 1;

/// Address-width byte of a 32-bit image.
pub const WIDTH_32: u8 = 1;

/// Address-width byte of a 64-bit image.
pub const WIDTH_64: u8 = 2;

/// Endianness byte of a little-endian image.
pub const LITTLE_ENDIAN: u8 = 1;

/// Endianness byte of a big-endian image.
pub const BIG_ENDIAN: u8 = 2;

/// Smallest program-header entry of a 64-bit image.
pub const PH_ENTRY_64: u64 = 56;

/// Smallest program-header entry of a 32-bit image.
pub const PH_ENTRY_32: u64 = 32;

/// One load segment: where it goes, how much memory it covers, and where
/// its bytes lie in the image.
#[derive(Clone, Copy, Debug, PartialEq, Eq, Structural)]
pub struct Segment {
    pub vaddr: u64,
    pub mem_size: u64,
    pub file_offset: u64,
    pub file_size: u64,
    pub flags: u32,
}

/// The decoded header of an image and its load segments, in table order.
#[derive(Debug)]
pub struct BinaryImage {
    pub is_64_bit: bool,
    pub big_endian: bool,
    pub machine: u16,
    pub entry: u64,
    pub flags: u32,
    pub ph_offset: u64,
    pub ph_entry_size: u16,
    pub ph_count: u16,
    pub sh_offset: u64,
    pub sh_entry_size: u16,
    pub sh_count: u16,
    pub sh_str_index: u16,
    pub segments: Vec<Segment>,
}

pub open spec fn is_wide(s: Seq<u8>) -> bool {
    s[4] == WIDTH_64
}

pub open spec fn is_big(s: Seq<u8>) -> bool {
    s[5] == BIG_ENDIAN
}

/// An address-sized field at `i`: eight bytes in a 64-bit image, four in a
/// 32-bit one.
pub open spec fn word_at(s: Seq<u8>, i: int) -> int {
    if is_wide(s) {
        u64_at(s, i, is_big(s))
    } else {
        u32_at(s, i, is_big(s))
    }
}

/// The header offset of a field: `at64` in a 64-bit image, `at32` else.
pub open spec fn field(s: Seq<u8>, at64: int, at32: int) -> int {
    if is_wide(s) {
        at64
    } else {
        at32
    }
}

pub open spec fn machine_of(s: Seq<u8>) -> int {
    u16_at(s, 18, is_big(s))
}

pub open spec fn entry_of(s: Seq<u8>) -> int {
    word_at(s, 24)
}

pub open spec fn ph_offset_of(s: Seq<u8>) -> int {
    word_at(s, field(s, 0x20, 0x1C))
}

pub open spec fn sh_offset_of(s: Seq<u8>) -> int {
    word_at(s, field(s, 0x28, 0x20))
}

pub open spec fn flags_of(s: Seq<u8>) -> int {
    u32_at(s, field(s, 0x30, 0x24), is_big(s))
}

pub open spec fn ph_entry_size_of(s: Seq<u8>) -> int {
    u16_at(s, field(s, 0x36, 0x2A), is_big(s))
}

pub open spec fn ph_count_of(s: Seq<u8>) -> int {
    u16_at(s, field(s, 0x38, 0x2C), is_big(s))
}

pub open spec fn sh_entry_size_of(s: Seq<u8>) -> int {
    u16_at(s, field(s, 0x3A, 0x2E), is_big(s))
}

pub open spec fn sh_count_of(s: Seq<u8>) -> int {
    u16_at(s, field(s, 0x3C, 0x30), is_big(s))
}

pub open spec fn sh_str_index_of(s: Seq<u8>) -> int {
    u16_at(s, field(s, 0x3E, 0x32), is_big(s))
}

/// Smallest program-header entry the image's width allows.
pub open spec fn ph_entry_min(s: Seq<u8>) -> int {
    if is_wide(s) {
        PH_ENTRY_64 as int
    } else {
        PH_ENTRY_32 as int
    }
}

/// Where program-header entry `k` starts.
pub open spec fn ph_entry_at(s: Seq<u8>, k: int) -> int {
    ph_offset_of(s) + k * ph_entry_size_of(s)
}

/// The segment described by the program-header entry at `o`.
pub open spec fn segment_at(s: Seq<u8>, o: int) -> Segment {
    let b = is_big(s);
    if is_wide(s) {
        Segment {
            flags: u32_at(s, o + 4, b) as u32,
            file_offset: u64_at(s, o + 8, b) as u64,
            vaddr: u64_at(s, o + 16, b) as u64,
            file_size: u64_at(s, o + 32, b) as u64,
            mem_size: u64_at(s, o + 40, b) as u64,
        }
    } else {
        Segment {
            file_offset: u32_at(s, o + 4, b) as u64,
            vaddr: u32_at(s, o + 8, b) as u64,
            file_size: u32_at(s, o + 16, b) as u64,
            mem_size: u32_at(s, o + 20, b) as u64,
            flags: u32_at(s, o + 24, b) as u32,
        }
    }
}

/// Whether program-header entry `k` describes a load segment.
pub open spec fn is_load(s: Seq<u8>, k: int) -> bool {
    u32_at(s, ph_entry_at(s, k), is_big(s)) == LOAD_SEGMENT
}

/// The load segments among the first `n` program-header entries, in order.
pub open spec fn load_segments(s: Seq<u8>, n: nat) -> Seq<Segment>
    decreases n,
{
    if n == 0 {
        Seq::empty()
    } else if is_load(s, n - 1) {
        load_segments(s, (n - 1) as nat).push(segment_at(s, ph_entry_at(s, n - 1)))
    } else {
        load_segments(s, (n - 1) as nat)
    }
}

/// The program-header table lies inside the image, with entries no
/// smaller than the width requires.
pub open spec fn table_fits(s: Seq<u8>) -> bool {
    ph_count_of(s) == 0 || (ph_entry_size_of(s) >= ph_entry_min(s) && ph_offset_of(s)
        + ph_count_of(s) * ph_entry_size_of(s) <= s.len())
}

/// The bytes of every load segment lie inside the image.
pub open spec fn segments_in_file(s: Seq<u8>) -> bool {
    forall|k: int|
        0 <= k < ph_count_of(s) && #[trigger] is_load(s, k) ==> {
            let g = segment_at(s, ph_entry_at(s, k));
            g.file_offset + g.file_size <= s.len()
        }
}

/// The first reason, in the order the header is checked, for which `s` is
/// not an acceptable image; `None` when it is one.
pub open spec fn parse_error(s: Seq<u8>) -> Option<ParseError> {
    if s.len() < HEADER_BYTES {
        Some(ParseError::Truncated)
    } else if !(s[0] == 0x7F && s[1] == 0x45 && s[2] == 0x4C && s[3] == 0x46) {
        Some(ParseError::BadMagic)
    } else if s[4] != WIDTH_32 && s[4] != WIDTH_64 {
        Some(ParseError::UnsupportedWidth)
    } else if s[5] != LITTLE_ENDIAN && s[5] != BIG_ENDIAN {
        Some(ParseError::UnsupportedEndianness)
    } else if machine_of(s) != MACHINE_TAG {
        Some(ParseError::UnsupportedArchitecture)
    } else if !table_fits(s) || !segments_in_file(s) {
        Some(ParseError::Truncated)
    } else {
        None
    }
}

/// A buffer shorter than the header is rejected as truncated, and a buffer
/// of header size or more that does not start with `0x7F 'E' 'L' 'F'` is
/// rejected for its magic.
pub proof fn lemma_header_rejections(s: Seq<u8>)
    ensures
        s.len() < HEADER_BYTES ==> parse_error(s) == Some(ParseError::Truncated),
        s.len() >= HEADER_BYTES && !(s[0] == 0x7F && s[1] == 0x45 && s[2] == 0x4C && s[3]
            == 0x46) ==> parse_error(s) == Some(ParseError::BadMagic),
{
}

fn read_word(s: &[u8], i: usize, wide: bool, big: bool) -> (r: u64)
    requires
        i + 8 <= s@.len(),
    ensures
        r as int == if wide {
            u64_at(s@, i as int, big)
        } else {
            u32_at(s@, i as int, big)
        },
{
    if wide {
        read_u64(s, i, big)
    } else {
        read_u32(s, i, big) as u64
    }
}

fn read_segment(s: &[u8], o: usize, wide: bool, big: bool) -> (r: Segment)
    requires
        s@.len() >= HEADER_BYTES,
        wide == is_wide(s@),
        big == is_big(s@),
        o + (if wide {
            PH_ENTRY_64
        } else {
            PH_ENTRY_32
        }) <= s@.len(),
    ensures
        r == segment_at(s@, o as int),
{
    let n: usize = s.len();
    assert(o + 32 <= n);
    if wide {
        Segment {
            flags: read_u32(s, o + 4, big),
            file_offset: read_u64(s, o + 8, big),
            vaddr: read_u64(s, o + 16, big),
            file_size: read_u64(s, o + 32, big),
            mem_size: read_u64(s, o + 40, big),
        }
    } else {
        Segment {
            file_offset: read_u32(s, o + 4, big) as u64,
            vaddr: read_u32(s, o + 8, big) as u64,
            file_size: read_u32(s, o + 16, big) as u64,
            mem_size: read_u32(s, o + 20, big) as u64,
            flags: read_u32(s, o + 24, big),
        }
    }
}

/// The load segments of the program-header table, or `Truncated` when the
/// table or a load segment's bytes do not lie inside the image.
fn read_segments(s: &[u8], wide: bool, big: bool, ph_offset: u64, ph_entry_size: u16, ph_count: u16) -> (r: Result<Vec<Segment>, ParseError>)
    requires
        s@.len() >= HEADER_BYTES,
        wide == is_wide(s@),
        big == is_big(s@),
        ph_offset as int == ph_offset_of(s@),
        ph_entry_size as int == ph_entry_size_of(s@),
        ph_count as int == ph_count_of(s@),
    ensures
        match r {
            Ok(v) => table_fits(s@) && segments_in_file(s@) && v@ == load_segments(
                s@,
                ph_count as nat,
            ),
            Err(e) => e == ParseError::Truncated && !(table_fits(s@) && segments_in_file(s@)),
        },
{
    let ghost sq = s@;
    let mut v: Vec<Segment> = Vec::new();
    if ph_count == 0 {
        return Ok(v);
    }
    let len: u64 = s.len() as u64;
    let min: u64 = if wide {
        PH_ENTRY_64
    } else {
        PH_ENTRY_32
    };
    let count: u64 = ph_count as u64;
    let size: u64 = ph_entry_size as u64;
    assert(count * size <= 0xFFFF * 0xFFFF) by (nonlinear_arith)
        requires
            count <= 0xFFFF,
            size <= 0xFFFF,
    ;
    if size < min || ph_offset > len || count * size > len - ph_offset {
        return Err(ParseError::Truncated);
    }
    let mut k: u64 = 0;
    while k < count
        invariant
            sq == s@,
            len == s@.len(),
            table_fits(sq),
            count == ph_count_of(sq),
            size == ph_entry_size_of(sq),
            ph_offset == ph_offset_of(sq),
            min == ph_entry_min(sq),
            size >= min,
            min == (if wide {
                PH_ENTRY_64
            } else {
                PH_ENTRY_32
            }),
            wide == is_wide(sq),
            big == is_big(sq),
            s@.len() >= HEADER_BYTES,
            ph_offset + count * size <= len,
            k <= count,
            v@ == load_segments(sq, k as nat),
            forall|j: int|
                0 <= j < k && #[trigger] is_load(sq, j) ==> segment_at(sq, ph_entry_at(sq, j)).file_offset
                    + segment_at(sq, ph_entry_at(sq, j)).file_size <= sq.len(),
        decreases count - k,
    {
        assert(k * size + size <= count * size) by (nonlinear_arith)
            requires
                k < count,
        ;
        let o: u64 = ph_offset + k * size;
        assert(o as int == ph_entry_at(sq, k as int));
        let n: usize = s.len();
        assert(o + size <= n);
        let ou: usize = o as usize;
        let t = read_u32(s, ou, big);
        if t == LOAD_SEGMENT {
            let g = read_segment(s, ou, wide, big);
            if g.file_offset > len || g.file_size > len - g.file_offset {
                assert(is_load(sq, k as int));
                return Err(ParseError::Truncated);
            }
            v.push(g);
        }
        k = k + 1;
    }
    Ok(v)
}

/// Decodes the header of `s` and collects its load segments.
///
/// Fails, checking in this order, with `Truncated` when `s` is shorter than
/// the header, `BadMagic` when it does not start with `0x7F 'E' 'L' 'F'`,
/// `UnsupportedWidth` or `UnsupportedEndianness` when byte 4 or 5 is
/// neither 1 nor 2, `UnsupportedArchitecture` when the two-byte tag at 18 is
/// not `MACHINE_TAG`, and `Truncated` when the program-header table or a
/// load segment's bytes run past the end of `s`. Multi-byte fields are read
/// in the byte order that byte 5 declares.
pub fn parse_image(s: &[u8]) -> (r: Result<BinaryImage, ParseError>)
    ensures
        match r {
            Err(e) => parse_error(s@) == Some(e),
            Ok(img) => {
                &&& parse_error(s@).is_none()
                &&& img.is_64_bit == is_wide(s@)
                &&& img.big_endian == is_big(s@)
                &&& img.machine == machine_of(s@)
                &&& img.entry == entry_of(s@)
                &&& img.flags == flags_of(s@)
                &&& img.ph_offset == ph_offset_of(s@)
                &&& img.ph_entry_size == ph_entry_size_of(s@)
                &&& img.ph_count == ph_count_of(s@)
                &&& img.sh_offset == sh_offset_of(s@)
                &&& img.sh_entry_size == sh_entry_size_of(s@)
                &&& img.sh_count == sh_count_of(s@)
                &&& img.sh_str_index == sh_str_index_of(s@)
                &&& img.segments@ == load_segments(s@, ph_count_of(s@) as nat)
            },
        },
{
    if s.len() < HEADER_BYTES {
        return Err(ParseError::Truncated);
    }
    if s[0] != 0x7F || s[1] != 0x45 || s[2] != 0x4C || s[3] != 0x46 {
        return Err(ParseError::BadMagic);
    }
    if s[4] != WIDTH_32 && s[4] != WIDTH_64 {
        return Err(ParseError::UnsupportedWidth);
    }
    if s[5] != LITTLE_ENDIAN && s[5] != BIG_ENDIAN {
        return Err(ParseError::UnsupportedEndianness);
    }
    let wide = s[4] == WIDTH_64;
    let big = s[5] == BIG_ENDIAN;
    let machine = read_u16(s, 18, big);
    if machine != MACHINE_TAG {
        return Err(ParseError::UnsupportedArchitecture);
    }
    let entry = read_word(s, 24, wide, big);
    let ph_offset = read_word(s, if wide { 0x20 } else { 0x1C }, wide, big);
    let sh_offset = read_word(s, if wide { 0x28 } else { 0x20 }, wide, big);
    let flags = read_u32(s, if wide { 0x30 } else { 0x24 }, big);
    let ph_entry_size = read_u16(s, if wide { 0x36 } else { 0x2A }, big);
    let ph_count = read_u16(s, if wide { 0x38 } else { 0x2C }, big);
    let sh_entry_size = read_u16(s, if wide { 0x3A } else { 0x2E }, big);
    let sh_count = read_u16(s, if wide { 0x3C } else { 0x30 }, big);
    let sh_str_index = read_u16(s, if wide { 0x3E } else { 0x32 }, big);
    let segments = match read_segments(s, wide, big, ph_offset, ph_entry_size, ph_count) {
        Ok(v) => v,
        Err(e) => return Err(e),
    };
    Ok(BinaryImage {
        is_64_bit: wide,
        big_endian: big,
        machine,
        entry,
        flags,
        ph_offset,
        ph_entry_size,
        ph_count,
        sh_offset,
        sh_entry_size,
        sh_count,
        sh_str_index,
        segments,
    })
}

} // verus!
