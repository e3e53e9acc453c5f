//! The virtual memory manager: owns physical memory, the frame allocator and
//! both page-table levels, and maps guest pages onto frames.
//!
//! The level-one table is indexed by an address's level-one field and names
//! a frame. The level-two table is indexed by the level-two field and holds a
//! back-pointer to the level-one slot last mapped under it; it is not a
//! per-region sub-table, so pages that share a level-two index share one
//! level-two entry.
//!
//! Mapping a page that is already mapped takes a new frame and replaces the
//! old mapping; the old frame stays reserved. Callers that must not remap
//! test `translate` first, as `map_segment` does.

use vstd::prelude::*;

use crate::address::{frame_offset, l1_of, l1_pt_addr, l2_of, l2_pt_addr, offset_of, FRAME_SIZE};
use crate::error::MemoryError;
use crate::frame::{all_used, first_fit_step, FrameAllocator, BITMAP_BYTES, FRAME_COUNT, MEMORY_SIZE, bit_set};
use crate::pte::{decode_spec, encode_spec, lemma_encode_decode, Pte, ENTRY_BYTES};

verus! {

/// Entries in each page-table level: one frame's worth of encoded entries.
pub const TABLE_ENTRIES: usize = FRAME_SIZE / ENTRY_BYTES;

/// The physical offset that `addr` reaches through the tables `l1` and
/// `l2`: the level-two entry must be present, and the level-one entry must
/// be present and name a frame of physical memory.
pub open spec fn translate_in(l1: Seq<u32>, l2: Seq<u32>, addr: u64) -> Option<int> {
    if l1_of(addr) < TABLE_ENTRIES && l2_of(addr) < TABLE_ENTRIES && decode_spec(
        l2[l2_of(addr)],
    ).present && decode_spec(l1[l1_of(addr)]).present && decode_spec(l1[l1_of(addr)]).index
        < FRAME_COUNT {
        Some(decode_spec(l1[l1_of(addr)]).index * FRAME_SIZE + offset_of(addr))
    } else {
        None
    }
}

/// The guest address space of one emulated process.
pub struct Memory {
    pt_l1: Vec<u32>,
    pt_l2: Vec<u32>,
    mem_array: Vec<u8>,
    allocator: FrameAllocator,
}

/// `after` is `before` with the page of `addr` mapped to frame `f`, which
/// was the lowest free frame: the level-one entry of `addr` names `f`, and
/// the level-two entry of `addr` points back to that level-one slot.
pub open spec fn page_allocated(before: Memory, after: Memory, addr: u64, f: int) -> bool {
    &&& l1_of(addr) < TABLE_ENTRIES
    &&& l2_of(addr) < TABLE_ENTRIES
    &&& first_fit_step(before.frames(), after.frames(), f)
    &&& after.l1_table() == before.l1_table().update(
        l1_of(addr),
        encode_spec(Pte { present: true, index: f as u16 }),
    )
    &&& after.l2_table() == before.l2_table().update(
        l2_of(addr),
        encode_spec(Pte { present: true, index: l1_of(addr) as u16 }),
    )
    &&& after.bytes() == before.bytes()
}

/// Physical memory after writing `data[0..n]` at the translations of
/// `vaddr`, `vaddr + 1`, ... in order, through the tables `l1` and `l2`,
/// starting from `base`.
pub open spec fn copied(
    l1: Seq<u32>,
    l2: Seq<u32>,
    base: Seq<u8>,
    vaddr: u64,
    data: Seq<u8>,
    n: nat,
) -> Seq<u8>
    decreases n,
{
    if n == 0 {
        base
    } else {
        copied(l1, l2, base, vaddr, data, (n - 1) as nat).update(
            translate_in(l1, l2, (vaddr + n - 1) as u64).unwrap(),
            data[n - 1],
        )
    }
}

/// When the addresses `vaddr .. vaddr + n` all translate, into pairwise
/// distinct offsets inside `base`, the copy leaves each byte `data[i]` at the
/// translation of `vaddr + i`.
pub proof fn lemma_copied_reads_back(
    l1: Seq<u32>,
    l2: Seq<u32>,
    base: Seq<u8>,
    vaddr: u64,
    data: Seq<u8>,
    n: nat,
    i: int,
)
    requires
        0 <= i < n <= data.len(),
        vaddr + n <= u64::MAX,
        forall|j: int|
            0 <= j < n ==> #[trigger] translate_in(l1, l2, (vaddr + j) as u64).is_some()
                && translate_in(l1, l2, (vaddr + j) as u64).unwrap() < base.len(),
        forall|j: int, k: int|
            0 <= j < k < n ==> #[trigger] translate_in(l1, l2, (vaddr + j) as u64)
                != #[trigger] translate_in(l1, l2, (vaddr + k) as u64),
    ensures
        copied(l1, l2, base, vaddr, data, n).len() == base.len(),
        copied(l1, l2, base, vaddr, data, n)[translate_in(l1, l2, (vaddr + i) as u64).unwrap()]
            == data[i],
    decreases n,
{
    lemma_copied_len(l1, l2, base, vaddr, data, n);
    let last = (n - 1) as int;
    assert(translate_in(l1, l2, (vaddr + last) as u64).is_some());
    lemma_copied_len(l1, l2, base, vaddr, data, (n - 1) as nat);
    if i < last {
        assert(translate_in(l1, l2, (vaddr + i) as u64) != translate_in(
            l1,
            l2,
            (vaddr + last) as u64,
        ));
        lemma_copied_reads_back(l1, l2, base, vaddr, data, (n - 1) as nat, i);
    }
}

proof fn lemma_copied_len(
    l1: Seq<u32>,
    l2: Seq<u32>,
    base: Seq<u8>,
    vaddr: u64,
    data: Seq<u8>,
    n: nat,
)
    requires
        forall|j: int|
            0 <= j < n ==> #[trigger] translate_in(l1, l2, (vaddr + j) as u64).is_some()
                && translate_in(l1, l2, (vaddr + j) as u64).unwrap() < base.len(),
    ensures
        copied(l1, l2, base, vaddr, data, n).len() == base.len(),
    decreases n,
{
    if n > 0 {
        lemma_copied_len(l1, l2, base, vaddr, data, (n - 1) as nat);
        let last = (n - 1) as int;
        assert(translate_in(l1, l2, (vaddr + last) as u64).is_some());
    }
}

/// Every address in `[start, start + len)` translates through `m`.
pub open spec fn range_mapped(m: Memory, start: u64, len: int) -> bool {
    forall|a: u64| start <= a < start + len ==> (#[trigger] m.translation(a)).is_some()
}

/// Every address in `[start, start + len)` has both indices inside the
/// tables.
pub open spec fn range_in_tables(start: u64, len: int) -> bool {
    forall|a: u64|
        start <= a < start + len ==> l1_of(a) < TABLE_ENTRIES && l2_of(a) < TABLE_ENTRIES
}

/// The larger of a segment's memory size and its data length: the bytes of
/// address space it covers.
pub open spec fn span_of(mem_size: u64, data_len: int) -> int {
    if mem_size >= data_len {
        mem_size as int
    } else {
        data_len
    }
}

/// Two addresses in one page have the same table indices.
proof fn lemma_same_page(p: u64, a: u64)
    requires
        p % 4096 == 0,
        p <= a,
        a - p < 4096,
    ensures
        l1_of(a) == l1_of(p),
        l2_of(a) == l2_of(p),
{
    assert(a / 4096 == p / 4096) by (bit_vector)
        requires
            p % 4096 == 0,
            p <= a,
            a - p < 4096,
    ;
    assert(a / 0x100_0000 == p / 0x100_0000) by (bit_vector)
        requires
            p % 4096 == 0,
            p <= a,
            a - p < 4096,
    ;
}

/// Mapping a page never takes a translation away.
proof fn lemma_translation_kept(before: Memory, after: Memory, addr: u64, f: int, a: u64)
    requires
        page_allocated(before, after, addr, f),
        before.wf(),
        before.translation(a).is_some(),
    ensures
        after.translation(a).is_some(),
{
    before.lemma_sizes();
    assert(0 <= f < FRAME_COUNT);
    lemma_encode_decode(Pte { present: true, index: f as u16 });
    lemma_encode_decode(Pte { present: true, index: l1_of(addr) as u16 });
}

/// Mapping a page makes it translate.
proof fn lemma_page_now_mapped(before: Memory, after: Memory, addr: u64, f: int)
    requires
        page_allocated(before, after, addr, f),
        before.wf(),
    ensures
        after.translation(addr).is_some(),
{
    before.lemma_sizes();
    assert(0 <= f < FRAME_COUNT);
    lemma_encode_decode(Pte { present: true, index: f as u16 });
    lemma_encode_decode(Pte { present: true, index: l1_of(addr) as u16 });
}

impl Memory {
    pub closed spec fn wf(&self) -> bool {
        &&& self.pt_l1@.len() == TABLE_ENTRIES
        &&& self.pt_l2@.len() == TABLE_ENTRIES
        &&& self.mem_array@.len() == MEMORY_SIZE
        &&& self.allocator.wf()
    }

    /// The encoded level-one entries.
    pub closed spec fn l1_table(&self) -> Seq<u32> {
        self.pt_l1@
    }

    /// The encoded level-two entries.
    pub closed spec fn l2_table(&self) -> Seq<u32> {
        self.pt_l2@
    }

    /// The bytes of physical memory.
    pub closed spec fn bytes(&self) -> Seq<u8> {
        self.mem_array@
    }

    /// The in-use flag of each physical frame.
    pub closed spec fn frames(&self) -> Seq<bool> {
        self.allocator.frames()
    }

    /// The physical offset that `addr` maps to, if its page is mapped.
    pub open spec fn translation(&self, addr: u64) -> Option<int> {
        translate_in(self.l1_table(), self.l2_table(), addr)
    }

    /// Every well-formed manager has tables, memory and bitmap of the fixed
    /// sizes.
    pub proof fn lemma_sizes(&self)
        requires
            self.wf(),
        ensures
            self.l1_table().len() == TABLE_ENTRIES,
            self.l2_table().len() == TABLE_ENTRIES,
            self.bytes().len() == MEMORY_SIZE,
            self.frames().len() == FRAME_COUNT,
    {
        self.allocator.lemma_frames_len();
    }

    /// A manager over existing tables, memory and frame bitmap.
    pub fn create_prealloc(
        pt_l1_array_in: Vec<u32>,
        pt_l2_array_in: Vec<u32>,
        mem_array_in: Vec<u8>,
        mem_frame_bitmap_array_in: Vec<u8>,
    ) -> (r: Memory)
        requires
            pt_l1_array_in@.len() == TABLE_ENTRIES,
            pt_l2_array_in@.len() == TABLE_ENTRIES,
            mem_array_in@.len() == MEMORY_SIZE,
            mem_frame_bitmap_array_in@.len() == BITMAP_BYTES,
        ensures
            r.wf(),
            r.l1_table() == pt_l1_array_in@,
            r.l2_table() == pt_l2_array_in@,
            r.bytes() == mem_array_in@,
            r.frames() == Seq::new(
                FRAME_COUNT as nat,
                |f: int| bit_set(mem_frame_bitmap_array_in@[f / 8], (f % 8) as u8),
            ),
    {
        Memory {
            pt_l1: pt_l1_array_in,
            pt_l2: pt_l2_array_in,
            mem_array: mem_array_in,
            allocator: FrameAllocator::from_bitmap(mem_frame_bitmap_array_in),
        }
    }

    /// A manager with zeroed memory, empty tables and every frame free.
    pub fn create() -> (r: Memory)
        ensures
            r.wf(),
            r.l1_table() == Seq::new(TABLE_ENTRIES as nat, |i: int| 0u32),
            r.l2_table() == Seq::new(TABLE_ENTRIES as nat, |i: int| 0u32),
            r.bytes() == Seq::new(MEMORY_SIZE as nat, |i: int| 0u8),
            r.frames() == Seq::new(FRAME_COUNT as nat, |i: int| false),
    {
        let pt_l1 = zeroed_words(TABLE_ENTRIES);
        let pt_l2 = zeroed_words(TABLE_ENTRIES);
        let mem_array = zeroed_bytes(MEMORY_SIZE);
        let allocator = FrameAllocator::new();
        let r = Memory { pt_l1, pt_l2, mem_array, allocator };
        assert(r.l1_table() =~= Seq::new(TABLE_ENTRIES as nat, |i: int| 0u32));
        assert(r.l2_table() =~= Seq::new(TABLE_ENTRIES as nat, |i: int| 0u32));
        assert(r.bytes() =~= Seq::new(MEMORY_SIZE as nat, |i: int| 0u8));
        assert(r.frames() =~= Seq::new(FRAME_COUNT as nat, |i: int| false));
        r
    }

    /// The level-one entry at `index`.
    pub fn read_l1(&self, index: usize) -> (r: Result<Pte, MemoryError>)
        requires
            self.wf(),
        ensures
            match r {
                Ok(p) => index < TABLE_ENTRIES && p == decode_spec(self.l1_table()[index as int]),
                Err(e) => index >= TABLE_ENTRIES && e == MemoryError::IndexOutOfBounds,
            },
    {
        if index < TABLE_ENTRIES {
            Ok(Pte::decode(self.pt_l1[index]))
        } else {
            Err(MemoryError::IndexOutOfBounds)
        }
    }

    /// The level-two entry at `index`.
    pub fn read_l2(&self, index: usize) -> (r: Result<Pte, MemoryError>)
        requires
            self.wf(),
        ensures
            match r {
                Ok(p) => index < TABLE_ENTRIES && p == decode_spec(self.l2_table()[index as int]),
                Err(e) => index >= TABLE_ENTRIES && e == MemoryError::IndexOutOfBounds,
            },
    {
        if index < TABLE_ENTRIES {
            Ok(Pte::decode(self.pt_l2[index]))
        } else {
            Err(MemoryError::IndexOutOfBounds)
        }
    }

    /// Stores `pte` at `index` of the level-one table; nothing else changes.
    pub fn write_l1(&mut self, index: usize, pte: Pte) -> (r: Result<(), MemoryError>)
        requires
            old(self).wf(),
        ensures
            final(self).wf(),
            final(self).l2_table() == old(self).l2_table(),
            final(self).bytes() == old(self).bytes(),
            final(self).frames() == old(self).frames(),
            match r {
                Ok(_) => index < TABLE_ENTRIES && final(self).l1_table() == old(
                    self,
                ).l1_table().update(index as int, encode_spec(pte)),
                Err(e) => index >= TABLE_ENTRIES && e == MemoryError::IndexOutOfBounds
                    && final(self).l1_table() == old(self).l1_table(),
            },
    {
        if index < TABLE_ENTRIES {
            self.pt_l1.set(index, pte.encode());
            Ok(())
        } else {
            Err(MemoryError::IndexOutOfBounds)
        }
    }

    /// Stores `pte` at `index` of the level-two table; nothing else changes.
    pub fn write_l2(&mut self, index: usize, pte: Pte) -> (r: Result<(), MemoryError>)
        requires
            old(self).wf(),
        ensures
            final(self).wf(),
            final(self).l1_table() == old(self).l1_table(),
            final(self).bytes() == old(self).bytes(),
            final(self).frames() == old(self).frames(),
            match r {
                Ok(_) => index < TABLE_ENTRIES && final(self).l2_table() == old(
                    self,
                ).l2_table().update(index as int, encode_spec(pte)),
                Err(e) => index >= TABLE_ENTRIES && e == MemoryError::IndexOutOfBounds
                    && final(self).l2_table() == old(self).l2_table(),
            },
    {
        if index < TABLE_ENTRIES {
            self.pt_l2.set(index, pte.encode());
            Ok(())
        } else {
            Err(MemoryError::IndexOutOfBounds)
        }
    }

    /// The physical offset of `addr`, or `None` when its page is not mapped.
    pub fn translate(&self, addr: u64) -> (r: Option<usize>)
        requires
            self.wf(),
        ensures
            match r {
                Some(p) => self.translation(addr) == Some(p as int) && p < MEMORY_SIZE,
                None => self.translation(addr).is_none(),
            },
    {
        let i1 = l1_pt_addr(addr);
        let i2 = l2_pt_addr(addr);
        if i1 >= TABLE_ENTRIES || i2 >= TABLE_ENTRIES {
            return None;
        }
        let e2 = Pte::decode(self.pt_l2[i2]);
        let e1 = Pte::decode(self.pt_l1[i1]);
        if !e2.present || !e1.present || e1.index as usize >= FRAME_COUNT {
            return None;
        }
        let off = frame_offset(addr);
        Some(e1.index as usize * FRAME_SIZE + off)
    }

    /// Maps the page containing `addr` to the lowest free frame and returns
    /// that frame: the level-one entry of `addr` then names the frame, and
    /// its level-two entry points back to that level-one slot.
    ///
    /// Fails with `OutOfMemory` when every frame is in use, else with
    /// `IndexOutOfBounds` when an index of `addr` lies outside its table;
    /// on failure nothing changes. A page that is already mapped is mapped
    /// again to a new frame.
    pub fn allocate_page(&mut self, addr: u64) -> (r: Result<u16, MemoryError>)
        requires
            old(self).wf(),
        ensures
            final(self).wf(),
            match r {
                Ok(f) => page_allocated(*old(self), *final(self), addr, f as int),
                Err(e) => *final(self) == *old(self) && if all_used(old(self).frames()) {
                    e == MemoryError::OutOfMemory
                } else {
                    e == MemoryError::IndexOutOfBounds && (l1_of(addr) >= TABLE_ENTRIES
                        || l2_of(addr) >= TABLE_ENTRIES)
                },
            },
    {
        let f = match self.allocator.find_free() {
            Some(f) => f,
            None => return Err(MemoryError::OutOfMemory),
        };
        let i1 = l1_pt_addr(addr);
        let i2 = l2_pt_addr(addr);
        if i1 >= TABLE_ENTRIES || i2 >= TABLE_ENTRIES {
            return Err(MemoryError::IndexOutOfBounds);
        }
        self.allocator.reserve(f);
        self.pt_l1.set(i1, Pte { present: true, index: f }.encode());
        self.pt_l2.set(i2, Pte { present: true, index: i1 as u16 }.encode());
        Ok(f)
    }

    /// The byte of physical memory at `offset`.
    pub fn physical_byte(&self, offset: usize) -> (r: Result<u8, MemoryError>)
        requires
            self.wf(),
        ensures
            match r {
                Ok(b) => offset < MEMORY_SIZE && b == self.bytes()[offset as int],
                Err(e) => offset >= MEMORY_SIZE && e == MemoryError::IndexOutOfBounds,
            },
    {
        if offset < MEMORY_SIZE {
            Ok(self.mem_array[offset])
        } else {
            Err(MemoryError::IndexOutOfBounds)
        }
    }

    /// Materialises one load segment: maps every page of
    /// `[vaddr, vaddr + max(mem_size, data.len()))` that is not mapped yet,
    /// then copies `data` byte by byte to the translations of `vaddr`,
    /// `vaddr + 1`, ...
    ///
    /// Fails with `OutOfMemory` when a page needs a frame and none is free,
    /// and with `IndexOutOfBounds` when a page's indices lie outside the
    /// tables; pages mapped before the failure stay mapped.
    pub fn map_segment(&mut self, vaddr: u64, mem_size: u64, data: &[u8]) -> (r: Result<
        (),
        MemoryError,
    >)
        requires
            old(self).wf(),
            vaddr + span_of(mem_size, data@.len() as int) <= u64::MAX,
        ensures
            final(self).wf(),
            match r {
                Ok(_) => {
                    &&& range_mapped(*final(self), vaddr, span_of(mem_size, data@.len() as int))
                    &&& final(self).bytes() == copied(
                        final(self).l1_table(),
                        final(self).l2_table(),
                        old(self).bytes(),
                        vaddr,
                        data@,
                        data@.len(),
                    )
                },
                Err(e) => final(self).bytes() == old(self).bytes() && ((e
                    == MemoryError::OutOfMemory && all_used(final(self).frames()) && !range_mapped(
                    *old(self),
                    vaddr,
                    span_of(mem_size, data@.len() as int),
                )) || (e
                    == MemoryError::IndexOutOfBounds && !range_in_tables(
                    vaddr,
                    span_of(mem_size, data@.len() as int),
                ))),
            },
    {
        let len: u64 = data.len() as u64;
        let span: u64 = if mem_size >= len {
            mem_size
        } else {
            len
        };
        if span == 0 {
            return Ok(());
        }
        let first: u64 = vaddr - vaddr % 4096;
        let last: u64 = vaddr + (span - 1);
        let mut page: u64 = first;
        loop
            invariant
                self.wf(),
                self.bytes() == old(self).bytes(),
                span == span_of(mem_size, data@.len() as int),
                span > 0,
                last == vaddr + (span - 1),
                page % 4096 == 0,
                first <= page <= last,
                vaddr - page < 4096,
                forall|a: u64| vaddr <= a < page ==> (#[trigger] self.translation(a)).is_some(),
                forall|a: u64|
                    (#[trigger] old(self).translation(a)).is_some() ==> self.translation(
                        a,
                    ).is_some(),
            ensures
                self.wf(),
                self.bytes() == old(self).bytes(),
                forall|a: u64| vaddr <= a <= last ==> (#[trigger] self.translation(a)).is_some(),
            decreases last - page,
        {
            if self.translate(page).is_none() {
                let ghost before = *self;
                match self.allocate_page(page) {
                    Ok(f) => {
                        proof {
                            assert forall|a: u64| vaddr <= a < page implies (
                            #[trigger] self.translation(a)).is_some() by {
                                lemma_translation_kept(before, *self, page, f as int, a);
                            }
                            assert forall|a: u64| (#[trigger] old(self).translation(
                                a,
                            )).is_some() implies self.translation(a).is_some() by {
                                lemma_translation_kept(before, *self, page, f as int, a);
                            }
                            lemma_page_now_mapped(before, *self, page, f as int);
                        }
                    },
                    Err(e) => {
                        proof {
                            let w: u64 = if page < vaddr {
                                vaddr
                            } else {
                                page
                            };
                            lemma_same_page(page, w);
                            if e == MemoryError::IndexOutOfBounds {
                                assert(!(l1_of(w) < TABLE_ENTRIES && l2_of(w) < TABLE_ENTRIES));
                            } else {
                                assert(self.translation(w).is_none());
                                assert(old(self).translation(w).is_none());
                            }
                        }
                        return Err(e);
                    },
                }
            }
            proof {
                assert forall|a: u64| page <= a < page + 4096 implies (#[trigger] self.translation(
                    a,
                )).is_some() by {
                    lemma_same_page(page, a);
                }
            }
            if last - page < 4096 {
                assert forall|a: u64| vaddr <= a <= last implies (#[trigger] self.translation(
                    a,
                )).is_some() by {
                    if a >= page {
                        assert(page <= a < page + 4096);
                    }
                }
                break ;
            }
            page = page + 4096;
        }
        let ghost mapped = *self;
        let mut i: usize = 0;
        while i < data.len()
            invariant
                self.wf(),
                self.l1_table() == mapped.l1_table(),
                self.l2_table() == mapped.l2_table(),
                self.frames() == mapped.frames(),
                i <= data@.len(),
                data@.len() <= span,
                vaddr + span <= u64::MAX,
                forall|a: u64|
                    vaddr <= a < vaddr + span ==> (#[trigger] mapped.translation(a)).is_some(),
                self.bytes() == copied(
                    mapped.l1_table(),
                    mapped.l2_table(),
                    old(self).bytes(),
                    vaddr,
                    data@,
                    i as nat,
                ),
            decreases data@.len() - i,
        {
            let a: u64 = vaddr + i as u64;
            assert(mapped.translation(a).is_some());
            match self.translate(a) {
                Some(p) => {
                    self.mem_array.set(p, data[i]);
                },
                None => {},
            }
            i = i + 1;
        }
        assert forall|a: u64| vaddr <= a < vaddr + span implies (#[trigger] self.translation(
            a,
        )).is_some() by {
            assert(mapped.translation(a).is_some());
        }
        Ok(())
    }

    /// Whether physical frame `f` is in use.
    pub fn is_frame_used(&self, f: usize) -> (r: Result<bool, MemoryError>)
        requires
            self.wf(),
        ensures
            match r {
                Ok(b) => f < FRAME_COUNT && b == self.frames()[f as int],
                Err(e) => f >= FRAME_COUNT && e == MemoryError::IndexOutOfBounds,
            },
    {
        if f < FRAME_COUNT {
            Ok(self.allocator.is_used(f))
        } else {
            Err(MemoryError::IndexOutOfBounds)
        }
    }
}

/// A run of `allocate_page` calls on addresses with pairwise distinct
/// level-one indices hands out pairwise distinct frames, and afterwards each
/// address's level-one entry is present and names its frame, its level-two
/// entry is present, and the address translates into its frame at its
/// offset. (Addresses that share a level-one index share one slot, and the
/// later mapping replaces the earlier one.)
pub proof fn lemma_pages_mapped(states: Seq<Memory>, addrs: Seq<u64>, frames: Seq<int>)
    requires
        states.len() == addrs.len() + 1,
        frames.len() == addrs.len(),
        states[0].wf(),
        forall|k: int|
            0 <= k < addrs.len() ==> page_allocated(
                #[trigger] states[k],
                states[k + 1],
                addrs[k],
                frames[k],
            ),
        forall|a: int, b: int| 0 <= a < b < addrs.len() ==> l1_of(addrs[a]) != l1_of(addrs[b]),
    ensures
        forall|a: int, b: int| 0 <= a < b < frames.len() ==> frames[a] != frames[b],
        forall|i: int|
            0 <= i < addrs.len() ==> decode_spec(
                states.last().l1_table()[l1_of(#[trigger] addrs[i])],
            ) == (Pte { present: true, index: frames[i] as u16 }),
        forall|i: int|
            0 <= i < addrs.len() ==> decode_spec(
                states.last().l2_table()[l2_of(#[trigger] addrs[i])],
            ).present,
        forall|i: int|
            0 <= i < addrs.len() ==> states.last().translation(#[trigger] addrs[i]) == Some(
                frames[i] * FRAME_SIZE + offset_of(addrs[i]),
            ),
{
    let fs = Seq::new(states.len(), |k: int| states[k].frames());
    assert forall|k: int| 0 <= k < frames.len() implies first_fit_step(
        #[trigger] fs[k],
        fs[k + 1],
        frames[k],
    ) by {
        assert(page_allocated(states[k], states[k + 1], addrs[k], frames[k]));
    }
    crate::frame::lemma_allocations_distinct(fs, frames);
    lemma_prefix_mapped(states, addrs, frames, addrs.len() as int);
    let last = states.last();
    assert forall|i: int| 0 <= i < addrs.len() implies last.translation(#[trigger] addrs[i])
        == Some(frames[i] * FRAME_SIZE + offset_of(addrs[i])) by {
        assert(decode_spec(last.l1_table()[l1_of(addrs[i])]) == (Pte {
            present: true,
            index: frames[i] as u16,
        }));
        assert(decode_spec(last.l2_table()[l2_of(addrs[i])]).present);
    }
}

/// What holds after the first `k` steps of the run in `lemma_pages_mapped`.
#[verifier::rlimit(100)]
#[verifier::spinoff_prover]
proof fn lemma_prefix_mapped(states: Seq<Memory>, addrs: Seq<u64>, frames: Seq<int>, k: int)
    requires
        states.len() == addrs.len() + 1,
        frames.len() == addrs.len(),
        states[0].wf(),
        forall|k: int|
            0 <= k < addrs.len() ==> page_allocated(
                #[trigger] states[k],
                states[k + 1],
                addrs[k],
                frames[k],
            ),
        forall|a: int, b: int| 0 <= a < b < addrs.len() ==> l1_of(addrs[a]) != l1_of(addrs[b]),
        0 <= k <= addrs.len(),
    ensures
        states[k].l1_table().len() == TABLE_ENTRIES,
        states[k].l2_table().len() == TABLE_ENTRIES,
        states[k].frames().len() == FRAME_COUNT,
        forall|i: int|
            0 <= i < k ==> 0 <= #[trigger] frames[i] < FRAME_COUNT && l1_of(addrs[i])
                < TABLE_ENTRIES && l2_of(addrs[i]) < TABLE_ENTRIES,
        forall|i: int|
            0 <= i < k ==> decode_spec(states[k].l1_table()[l1_of(#[trigger] addrs[i])]) == (Pte {
                present: true,
                index: frames[i] as u16,
            }),
        forall|i: int|
            0 <= i < k ==> decode_spec(states[k].l2_table()[l2_of(#[trigger] addrs[i])]).present,
    decreases k,
{
    if k == 0 {
        states[0].lemma_sizes();
    } else {
        lemma_prefix_mapped(states, addrs, frames, k - 1);
        let j = k - 1;
        assert(page_allocated(states[j], states[k], addrs[j], frames[j]));
        lemma_encode_decode(Pte { present: true, index: frames[j] as u16 });
        lemma_encode_decode(Pte { present: true, index: l1_of(addrs[j]) as u16 });
        assert forall|i: int| 0 <= i < k implies decode_spec(
            states[k].l1_table()[l1_of(#[trigger] addrs[i])],
        ) == (Pte { present: true, index: frames[i] as u16 }) by {
            if i < j {
                assert(l1_of(addrs[i]) != l1_of(addrs[j]));
            }
        }
        assert forall|i: int| 0 <= i < k implies decode_spec(
            states[k].l2_table()[l2_of(#[trigger] addrs[i])],
        ).present by {
            if i < j && l2_of(addrs[i]) != l2_of(addrs[j]) {
                assert(states[k].l2_table()[l2_of(addrs[i])] == states[j].l2_table()[l2_of(
                    addrs[i],
                )]);
            }
        }
    }
}

fn zeroed_words(n: usize) -> (r: Vec<u32>)
    ensures
        r@ == Seq::new(n as nat, |i: int| 0u32),
{
    let mut v: Vec<u32> = Vec::new();
    let mut i: usize = 0;
    while i < n
        invariant
            i <= n,
            v@ == Seq::new(i as nat, |j: int| 0u32),
        decreases n - i,
    {
        v.push(0u32);
        i = i + 1;
        assert(v@ =~= Seq::new(i as nat, |j: int| 0u32));
    }
    v
}

fn zeroed_bytes(n: usize) -> (r: Vec<u8>)
    ensures
        r@ == Seq::new(n as nat, |i: int| 0u8),
{
    let mut v: Vec<u8> = Vec::new();
    let mut i: usize = 0;
    while i < n
        invariant
            i <= n,
            v@ == Seq::new(i as nat, |j: int| 0u8),
        decreases n - i,
    {
        v.push(0u8);
        i = i + 1;
        assert(v@ =~= Seq::new(i as nat, |j: int| 0u8));
    }
    v
}

} // verus!
