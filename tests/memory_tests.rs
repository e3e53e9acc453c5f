use guest_memory::address::{frame_offset, l1_pt_addr, l2_pt_addr};
use guest_memory::error::MemoryError;
use guest_memory::frame::{FrameAllocator, FRAME_COUNT};
use guest_memory::memory::{Memory, TABLE_ENTRIES};
use guest_memory::pte::Pte;

fn used_frames(m: &Memory) -> Vec<bool> {
    (0..FRAME_COUNT).map(|f| m.is_frame_used(f).unwrap()).collect()
}

#[test]
fn pte_encodes_flag_and_index() {
    assert_eq!(Pte { present: true, index: 5 }.encode(), 0x8000_0005);
    assert_eq!(Pte { present: false, index: 0xABC }.encode(), 0x0000_0ABC);
    assert_eq!(Pte::decode(0x8000_0FFF), Pte { present: true, index: 0xFFF });
    assert_eq!(Pte::decode(0x7000_0001), Pte { present: false, index: 1 });
}

#[test]
fn pte_round_trips() {
    for present in [true, false] {
        for index in [0u16, 1, 15, 1023, 2048, 4095] {
            let p = Pte { present, index };
            assert_eq!(Pte::decode(p.encode()), p);
        }
    }
}

#[test]
fn address_fields_rebuild_low_bits() {
    let addr: u64 = 0xABC_DEF_123;
    assert_eq!(l2_pt_addr(addr), 0xABC);
    assert_eq!(l1_pt_addr(addr), 0xDEF);
    assert_eq!(frame_offset(addr), 0x123);
    for a in [0u64, 0xFFF, 0x1000, 0x12_3456_789A, u64::MAX, 0x0000_000F_FFFF_FFFF] {
        let rebuilt = ((l2_pt_addr(a) as u64) << 24) | ((l1_pt_addr(a) as u64) << 12) | frame_offset(a) as u64;
        assert_eq!(rebuilt, a & 0xF_FFFF_FFFF);
    }
}

#[test]
fn address_high_bits_alias() {
    let a: u64 = 0xF000_000A_BCDE_F123;
    assert_eq!(l2_pt_addr(a), 0xABC);
    assert_eq!(l1_pt_addr(a), 0xDEF);
    assert_eq!(frame_offset(a), 0x123);
}

#[test]
fn allocator_is_first_fit() {
    let mut a = FrameAllocator::new();
    assert_eq!(a.allocate(), Ok(0));
    assert_eq!(a.allocate(), Ok(1));
    assert_eq!(a.allocate(), Ok(2));
    let mut b = FrameAllocator::from_bitmap(vec![0b0000_0101, 0]);
    assert_eq!(b.find_free(), Some(1));
    assert_eq!(b.allocate(), Ok(1));
    assert_eq!(b.allocate(), Ok(3));
    assert!(b.is_used(0) && b.is_used(1) && b.is_used(2) && b.is_used(3));
    assert!(!b.is_used(4));
}

#[test]
fn allocator_never_repeats_and_runs_out() {
    let mut a = FrameAllocator::new();
    let mut seen = Vec::new();
    for _ in 0..FRAME_COUNT {
        let f = a.allocate().unwrap();
        assert!(!seen.contains(&f));
        seen.push(f);
    }
    assert_eq!(seen, (0..FRAME_COUNT as u16).collect::<Vec<u16>>());
    assert_eq!(a.allocate(), Err(MemoryError::OutOfMemory));
    assert_eq!(a.find_free(), None);
    for f in 0..FRAME_COUNT {
        assert!(a.is_used(f));
    }
}

#[test]
fn allocate_page_maps_distinct_pages() {
    let mut m = Memory::create();
    let addrs: [u64; 3] = [0x0001_0000, 0x0002_3456, 0x0100_5000];
    let mut frames = Vec::new();
    for a in addrs {
        frames.push(m.allocate_page(a).unwrap());
    }
    assert_eq!(frames, vec![0, 1, 2]);
    for (a, f) in addrs.iter().zip(frames.iter()) {
        let i1 = l1_pt_addr(*a);
        let i2 = l2_pt_addr(*a);
        assert_eq!(m.read_l1(i1), Ok(Pte { present: true, index: *f }));
        assert_eq!(m.read_l2(i2).unwrap().present, true);
        assert_eq!(m.translate(*a), Some(*f as usize * 4096 + frame_offset(*a)));
    }
    assert_eq!(m.read_l2(0), Ok(Pte { present: true, index: 0x23 }));
    assert_eq!(m.read_l2(1), Ok(Pte { present: true, index: 0x5 }));
    assert_eq!(m.translate(0x0003_0000), None);
}

#[test]
fn allocate_page_out_of_memory_leaves_bitmap() {
    let mut m = Memory::create();
    for k in 0..FRAME_COUNT as u64 {
        assert_eq!(m.allocate_page(0x1000 * (k + 1)), Ok(k as u16));
    }
    let before = used_frames(&m);
    assert_eq!(m.allocate_page(0x0009_0000), Err(MemoryError::OutOfMemory));
    assert_eq!(used_frames(&m), before);
    assert_eq!(m.translate(0x0009_0000), None);
}

#[test]
fn allocate_page_index_out_of_bounds() {
    let mut m = Memory::create();
    assert_eq!(l1_pt_addr(0x0040_0000), TABLE_ENTRIES);
    assert_eq!(m.allocate_page(0x0040_0000), Err(MemoryError::IndexOutOfBounds));
    assert_eq!(m.allocate_page(0x4_0000_0000 + 0x1000), Err(MemoryError::IndexOutOfBounds));
    assert!(used_frames(&m).iter().all(|u| !u));
    assert_eq!(m.allocate_page(0x1000), Ok(0));
}

#[test]
fn allocate_page_again_remaps() {
    let mut m = Memory::create();
    assert_eq!(m.allocate_page(0x5000), Ok(0));
    assert_eq!(m.allocate_page(0x5FFF), Ok(1));
    assert_eq!(m.translate(0x5010), Some(4096 + 0x10));
    assert_eq!(m.is_frame_used(0), Ok(true));
}

#[test]
fn table_access_is_bounds_checked() {
    let mut m = Memory::create();
    assert_eq!(m.read_l1(TABLE_ENTRIES), Err(MemoryError::IndexOutOfBounds));
    assert_eq!(m.read_l2(TABLE_ENTRIES), Err(MemoryError::IndexOutOfBounds));
    let p = Pte { present: true, index: 7 };
    assert_eq!(m.write_l1(TABLE_ENTRIES, p), Err(MemoryError::IndexOutOfBounds));
    assert_eq!(m.write_l2(TABLE_ENTRIES, p), Err(MemoryError::IndexOutOfBounds));
    assert_eq!(m.write_l1(3, p), Ok(()));
    assert_eq!(m.write_l2(1023, p), Ok(()));
    assert_eq!(m.read_l1(3), Ok(p));
    assert_eq!(m.read_l2(1023), Ok(p));
    assert_eq!(m.read_l1(2), Ok(Pte { present: false, index: 0 }));
    assert_eq!(m.is_frame_used(FRAME_COUNT), Err(MemoryError::IndexOutOfBounds));
    assert_eq!(m.physical_byte(65536), Err(MemoryError::IndexOutOfBounds));
}

#[test]
fn create_prealloc_uses_given_state() {
    let mut l1 = vec![0u32; TABLE_ENTRIES];
    l1[4] = 0x8000_0002;
    let mut l2 = vec![0u32; TABLE_ENTRIES];
    l2[0] = 0x8000_0004;
    let mut mem = vec![0u8; 65536];
    mem[2 * 4096 + 9] = 0x5A;
    let mut m = Memory::create_prealloc(l1, l2, mem, vec![0b0000_0100, 0]);
    assert_eq!(m.translate(0x4009), Some(2 * 4096 + 9));
    assert_eq!(m.physical_byte(2 * 4096 + 9), Ok(0x5A));
    assert_eq!(m.allocate_page(0x7000), Ok(0));
    assert_eq!(m.allocate_page(0x8000), Ok(1));
    assert_eq!(m.allocate_page(0x9000), Ok(3));
}

#[test]
fn map_segment_copies_across_a_page_boundary() {
    let mut m = Memory::create();
    let data: Vec<u8> = (0..32u8).collect();
    assert_eq!(m.map_segment(0x10FF0, 32, &data), Ok(()));
    assert_eq!(used_frames(&m).iter().filter(|u| **u).count(), 2);
    for (i, b) in data.iter().enumerate() {
        let p = m.translate(0x10FF0 + i as u64).unwrap();
        assert_eq!(m.physical_byte(p), Ok(*b));
    }
    // A second segment on an already-mapped page takes no new frame.
    assert_eq!(m.map_segment(0x11010, 4, &[9, 9, 9, 9]), Ok(()));
    assert_eq!(used_frames(&m).iter().filter(|u| **u).count(), 2);
    assert_eq!(m.physical_byte(m.translate(0x11010).unwrap()), Ok(9));
    assert_eq!(m.physical_byte(m.translate(0x11000).unwrap()), Ok(16));
}

#[test]
fn map_segment_reserves_memory_beyond_data() {
    let mut m = Memory::create();
    assert_eq!(m.map_segment(0x20000, 3 * 4096, &[1, 2]), Ok(()));
    assert_eq!(used_frames(&m).iter().filter(|u| **u).count(), 3);
    assert!(m.translate(0x22FFF).is_some());
    assert_eq!(m.map_segment(0x40000, 0, &[]), Ok(()));
}

#[test]
fn map_segment_reports_errors() {
    let mut m = Memory::create();
    assert_eq!(m.map_segment(0x0040_0000, 1, &[7]), Err(MemoryError::IndexOutOfBounds));
    assert_eq!(m.map_segment(0x1000, 17 * 4096, &[]), Err(MemoryError::OutOfMemory));
    assert!(used_frames(&m).iter().all(|u| *u));
}
