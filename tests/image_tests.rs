use guest_memory::error::ParseError;
use guest_memory::frame::FRAME_COUNT;
use guest_memory::image::{parse_image, Segment, MACHINE_TAG};
use guest_memory::memory::Memory;

fn put(buf: &mut [u8], at: usize, value: u64, width: usize, big: bool) {
    for k in 0..width {
        let byte = (value >> (8 * k)) as u8;
        if big {
            buf[at + width - 1 - k] = byte;
        } else {
            buf[at + k] = byte;
        }
    }
}

/// A little-endian 64-bit image with one load segment of `data` at `vaddr`.
fn image64(vaddr: u64, data: &[u8]) -> Vec<u8> {
    let data_at: usize = 0x100;
    let mut buf = vec![0u8; data_at + data.len()];
    buf[0..4].copy_from_slice(&[0x7F, b'E', b'L', b'F']);
    buf[4] = 2;
    buf[5] = 1;
    put(&mut buf, 18, MACHINE_TAG as u64, 2, false);
    put(&mut buf, 24, vaddr, 8, false);
    put(&mut buf, 0x20, 64, 8, false);
    put(&mut buf, 0x28, 0, 8, false);
    put(&mut buf, 0x36, 56, 2, false);
    put(&mut buf, 0x38, 1, 2, false);
    put(&mut buf, 0x3A, 64, 2, false);
    put(&mut buf, 0x3C, 0, 2, false);
    let ph = 64;
    put(&mut buf, ph, 1, 4, false);
    put(&mut buf, ph + 4, 5, 4, false);
    put(&mut buf, ph + 8, data_at as u64, 8, false);
    put(&mut buf, ph + 16, vaddr, 8, false);
    put(&mut buf, ph + 24, vaddr, 8, false);
    put(&mut buf, ph + 32, data.len() as u64, 8, false);
    put(&mut buf, ph + 40, data.len() as u64, 8, false);
    put(&mut buf, ph + 48, 0x1000, 8, false);
    buf[data_at..].copy_from_slice(data);
    buf
}

#[test]
fn parse_rejects_bad_magic() {
    let mut buf = vec![0u8; 64];
    buf[0..4].copy_from_slice(&[0x7F, b'E', b'L', b'G']);
    assert_eq!(parse_image(&buf).unwrap_err(), ParseError::BadMagic);
    let zeros = vec![0u8; 64];
    assert_eq!(parse_image(&zeros).unwrap_err(), ParseError::BadMagic);
}

#[test]
fn parse_rejects_short_buffer() {
    let mut buf = image64(0x10000, &[1, 2, 3]);
    buf.truncate(63);
    assert_eq!(parse_image(&buf).unwrap_err(), ParseError::Truncated);
    assert_eq!(parse_image(&[]).unwrap_err(), ParseError::Truncated);
}

#[test]
fn parse_rejects_width_endianness_and_architecture() {
    let good = image64(0x10000, &[1, 2, 3]);
    let mut w = good.clone();
    w[4] = 3;
    assert_eq!(parse_image(&w).unwrap_err(), ParseError::UnsupportedWidth);
    let mut e = good.clone();
    e[5] = 0;
    assert_eq!(parse_image(&e).unwrap_err(), ParseError::UnsupportedEndianness);
    let mut a = good.clone();
    a[18] = 0x3E;
    assert_eq!(parse_image(&a).unwrap_err(), ParseError::UnsupportedArchitecture);
    let mut hi = good.clone();
    hi[19] = 1;
    assert_eq!(parse_image(&hi).unwrap_err(), ParseError::UnsupportedArchitecture);
}

#[test]
fn parse_rejects_tables_past_the_end() {
    let good = image64(0x10000, &[1, 2, 3]);
    let mut count = good.clone();
    count[0x38] = 9;
    assert_eq!(parse_image(&count).unwrap_err(), ParseError::Truncated);
    let mut small = good.clone();
    small[0x36] = 40;
    assert_eq!(parse_image(&small).unwrap_err(), ParseError::Truncated);
    let mut data = good.clone();
    data.truncate(good.len() - 1);
    assert_eq!(parse_image(&data).unwrap_err(), ParseError::Truncated);
}

#[test]
fn parse_reads_64_bit_little_endian_header() {
    let img = parse_image(&image64(0x10078, &[1, 2, 3])).unwrap();
    assert!(img.is_64_bit);
    assert!(!img.big_endian);
    assert_eq!(img.machine, 0xF3);
    assert_eq!(img.entry, 0x10078);
    assert_eq!(img.ph_offset, 64);
    assert_eq!(img.ph_entry_size, 56);
    assert_eq!(img.ph_count, 1);
    assert_eq!(img.sh_entry_size, 64);
    assert_eq!(
        img.segments,
        vec![Segment { vaddr: 0x10078, mem_size: 3, file_offset: 0x100, file_size: 3, flags: 5 }]
    );
}

#[test]
fn parse_reads_32_bit_big_endian_header() {
    let mut buf = vec![0u8; 64 + 2 * 32];
    buf[0..4].copy_from_slice(&[0x7F, b'E', b'L', b'F']);
    buf[4] = 1;
    buf[5] = 2;
    put(&mut buf, 18, 0xF3, 2, true);
    put(&mut buf, 24, 0x8000_0000, 4, true);
    put(&mut buf, 0x1C, 64, 4, true);
    put(&mut buf, 0x20, 0x1234, 4, true);
    put(&mut buf, 0x24, 0xABCD, 4, true);
    put(&mut buf, 0x2A, 32, 2, true);
    put(&mut buf, 0x2C, 2, 2, true);
    put(&mut buf, 0x30, 7, 2, true);
    // First entry is not a load segment, second is.
    put(&mut buf, 64, 6, 4, true);
    put(&mut buf, 96, 1, 4, true);
    put(&mut buf, 96 + 4, 0, 4, true);
    put(&mut buf, 96 + 8, 0x2000, 4, true);
    put(&mut buf, 96 + 16, 16, 4, true);
    put(&mut buf, 96 + 20, 0x3000, 4, true);
    put(&mut buf, 96 + 24, 4, 4, true);
    let img = parse_image(&buf).unwrap();
    assert!(!img.is_64_bit);
    assert!(img.big_endian);
    assert_eq!(img.entry, 0x8000_0000);
    assert_eq!(img.sh_offset, 0x1234);
    assert_eq!(img.flags, 0xABCD);
    assert_eq!(img.sh_count, 7);
    assert_eq!(
        img.segments,
        vec![Segment { vaddr: 0x2000, mem_size: 0x3000, file_offset: 0, file_size: 16, flags: 4 }]
    );
}

#[test]
fn two_page_segment_end_to_end() {
    let data: Vec<u8> = (0..8192u32).map(|i| (i * 7 % 251) as u8).collect();
    let bytes = image64(0x10000, &data);
    let img = parse_image(&bytes).unwrap();
    assert_eq!(img.segments.len(), 1);
    let seg = img.segments[0];
    let start = seg.file_offset as usize;
    let src = &bytes[start..start + seg.file_size as usize];
    let mut m = Memory::create();
    assert_eq!(m.map_segment(seg.vaddr, seg.mem_size, src), Ok(()));
    let used = (0..FRAME_COUNT).filter(|f| m.is_frame_used(*f).unwrap()).count();
    assert_eq!(used, 2);
    for (i, b) in data.iter().enumerate() {
        let p = m.translate(seg.vaddr + i as u64).unwrap();
        assert_eq!(m.physical_byte(p), Ok(*b));
    }
}
