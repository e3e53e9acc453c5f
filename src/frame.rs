//! First-fit allocation of physical frames over a bitmap.

use vstd::prelude::*;

use crate::address::FRAME_SIZE;
use crate::error::MemoryError;

verus! {

/// Bytes of emulator-owned physical memory.
pub const MEMORY_SIZE: usize = 65536;

/// Number of physical frames.
pub const FRAME_COUNT: usize = MEMORY_SIZE / FRAME_SIZE;

/// Bytes of bitmap: one bit per frame.
pub const BITMAP_BYTES: usize = FRAME_COUNT / 8;

/// Whether bit `k` of `b` is set.
pub open spec fn bit_set(b: u8, k: u8) -> bool {
    (b >> k) & 1u8 == 1u8
}

/// `after` is `before` with frame `f` reserved, and `f` is the lowest frame
/// that was free in `before`.
pub open spec fn first_fit_step(before: Seq<bool>, after: Seq<bool>, f: int) -> bool {
    &&& 0 <= f < before.len()
    &&& !before[f]
    &&& forall|j: int| 0 <= j < f ==> #[trigger] before[j]
    &&& after == before.update(f, true)
}

/// Every frame of `s` is in use.
pub open spec fn all_used(s: Seq<bool>) -> bool {
    forall|j: int| 0 <= j < s.len() ==> #[trigger] s[j]
}

/// Owner of the frame bitmap; bit `f % 8` of byte `f / 8` is set when frame
/// `f` is in use.
pub struct FrameAllocator {
    bitmap: Vec<u8>,
}

proof fn lemma_bit_ops(b: u8, k: u8)
    requires
        k < 8,
    ensures
        (b & (1u8 << k) != 0u8) == bit_set(b, k),
        bit_set(b | (1u8 << k), k),
        forall|j: u8| j < 8 && j != k ==> bit_set(b | (1u8 << k), j) == bit_set(b, j),
{
    assert((b & (1u8 << k) != 0u8) == ((b >> k) & 1u8 == 1u8)) by (bit_vector)
        requires
            k < 8,
    ;
    assert(((b | (1u8 << k)) >> k) & 1u8 == 1u8) by (bit_vector)
        requires
            k < 8,
    ;
    assert forall|j: u8| j < 8 && j != k implies bit_set(b | (1u8 << k), j) == bit_set(b, j) by {
        assert(((b | (1u8 << k)) >> j) & 1u8 == (b >> j) & 1u8) by (bit_vector)
            requires
                k < 8,
                j < 8,
                j != k,
        ;
    }
}

proof fn lemma_zero_clear(k: u8)
    requires
        k < 8,
    ensures
        !bit_set(0u8, k),
{
    assert((0u8 >> k) & 1u8 != 1u8) by (bit_vector);
}

impl FrameAllocator {
    /// The in-use flag of each frame, lowest frame first.
    pub closed spec fn frames(&self) -> Seq<bool> {
        Seq::new(FRAME_COUNT as nat, |f: int| bit_set(self.bitmap@[f / 8], (f % 8) as u8))
    }

    pub closed spec fn wf(&self) -> bool {
        self.bitmap@.len() == BITMAP_BYTES
    }

    /// An allocator with every frame free.
    pub fn new() -> (r: FrameAllocator)
        ensures
            r.wf(),
            r.frames().len() == FRAME_COUNT,
            forall|f: int| 0 <= f < FRAME_COUNT ==> !(#[trigger] r.frames()[f]),
    {
        let mut bitmap: Vec<u8> = Vec::new();
        let mut i: usize = 0;
        while i < BITMAP_BYTES
            invariant
                i <= BITMAP_BYTES,
                bitmap@.len() == i,
                forall|j: int| 0 <= j < i ==> bitmap@[j] == 0u8,
            decreases BITMAP_BYTES - i,
        {
            bitmap.push(0u8);
            i = i + 1;
        }
        let r = FrameAllocator { bitmap };
        assert forall|f: int| 0 <= f < FRAME_COUNT implies !(#[trigger] r.frames()[f]) by {
            lemma_zero_clear((f % 8) as u8);
        }
        r
    }

    /// An allocator over an existing bitmap of `BITMAP_BYTES` bytes.
    pub fn from_bitmap(bitmap: Vec<u8>) -> (r: FrameAllocator)
        requires
            bitmap@.len() == BITMAP_BYTES,
        ensures
            r.wf(),
            r.frames() == Seq::new(
                FRAME_COUNT as nat,
                |f: int| bit_set(bitmap@[f / 8], (f % 8) as u8),
            ),
    {
        FrameAllocator { bitmap }
    }

    /// Whether frame `f` is in use.
    pub fn is_used(&self, f: usize) -> (r: bool)
        requires
            self.wf(),
            f < FRAME_COUNT,
        ensures
            r == self.frames()[f as int],
    {
        let k: u8 = (f % 8) as u8;
        proof {
            lemma_bit_ops(self.bitmap@[(f / 8) as int], k);
        }
        self.bitmap[f / 8] & (1u8 << k) != 0
    }

    /// The lowest-numbered free frame, or `None` when every frame is in use.
    pub fn find_free(&self) -> (r: Option<u16>)
        requires
            self.wf(),
        ensures
            self.frames().len() == FRAME_COUNT,
            match r {
                Some(f) => {
                    &&& f < FRAME_COUNT
                    &&& !self.frames()[f as int]
                    &&& forall|j: int| 0 <= j < f ==> #[trigger] self.frames()[j]
                },
                None => all_used(self.frames()),
            },
    {
        let mut i: usize = 0;
        while i < BITMAP_BYTES
            invariant
                self.wf(),
                i <= BITMAP_BYTES,
                forall|j: int| 0 <= j < i * 8 ==> #[trigger] self.frames()[j],
            decreases BITMAP_BYTES - i,
        {
            let byte: u8 = self.bitmap[i];
            let mut bit: u8 = 0;
            while bit < 8
                invariant
                    self.wf(),
                    i < BITMAP_BYTES,
                    byte == self.bitmap@[i as int],
                    bit <= 8,
                    forall|j: int| 0 <= j < i * 8 + bit ==> #[trigger] self.frames()[j],
                decreases 8 - bit,
            {
                proof {
                    lemma_bit_ops(byte, bit);
                }
                if byte & (1u8 << bit) == 0 {
                    let f: usize = i * 8 + bit as usize;
                    assert(f / 8 == i && f % 8 == bit);
                    assert(!self.frames()[f as int]);
                    return Some(f as u16);
                }
                bit = bit + 1;
            }
            i = i + 1;
        }
        None
    }

    /// Marks frame `f` as in use.
    pub fn reserve(&mut self, f: u16)
        requires
            old(self).wf(),
            f < FRAME_COUNT,
        ensures
            final(self).wf(),
            final(self).frames() == old(self).frames().update(f as int, true),
    {
        let i: usize = (f / 8) as usize;
        let bit: u8 = (f % 8) as u8;
        let byte: u8 = self.bitmap[i];
        proof {
            lemma_bit_ops(byte, bit);
        }
        self.bitmap.set(i, byte | (1u8 << bit));
        proof {
            let before = old(self).frames();
            assert forall|g: int| 0 <= g < FRAME_COUNT implies #[trigger] self.frames()[g]
                == before.update(f as int, true)[g] by {
                if g / 8 != i {
                    assert(self.bitmap@[g / 8] == old(self).bitmap@[g / 8]);
                } else if g != f {
                    assert((g % 8) as u8 != bit);
                }
            }
            assert(self.frames() =~= before.update(f as int, true));
        }
    }

    /// Reserves the lowest-numbered free frame and returns its number; fails
    /// with `OutOfMemory`, leaving the bitmap as it was, when every frame is
    /// in use.
    pub fn allocate(&mut self) -> (r: Result<u16, MemoryError>)
        requires
            old(self).wf(),
        ensures
            final(self).wf(),
            old(self).frames().len() == FRAME_COUNT,
            match r {
                Ok(f) => first_fit_step(old(self).frames(), final(self).frames(), f as int),
                Err(e) => e == MemoryError::OutOfMemory && all_used(old(self).frames())
                    && final(self).frames() == old(self).frames(),
            },
    {
        match self.find_free() {
            None => Err(MemoryError::OutOfMemory),
            Some(f) => {
                self.reserve(f);
                Ok(f)
            },
        }
    }

    /// Every well-formed allocator tracks exactly `FRAME_COUNT` frames.
    pub proof fn lemma_frames_len(&self)
        ensures
            self.frames().len() == FRAME_COUNT,
    {
    }
}

/// A run of allocations on one allocator, with no frame freed in between,
/// never hands out the same frame twice: if each state follows from the one
/// before by a first-fit allocation of `frames[k]`, the frames are pairwise
/// distinct.
pub proof fn lemma_allocations_distinct(states: Seq<Seq<bool>>, frames: Seq<int>)
    requires
        states.len() == frames.len() + 1,
        forall|k: int|
            0 <= k < frames.len() ==> first_fit_step(
                #[trigger] states[k],
                states[k + 1],
                frames[k],
            ),
    ensures
        forall|a: int, b: int| 0 <= a < b < frames.len() ==> frames[a] != frames[b],
{
    assert forall|a: int, b: int| 0 <= a < b < frames.len() implies frames[a] != frames[b] by {
        lemma_stays_used(states, frames, a, b);
    }
}

/// Once frame `frames[a]` is reserved, it stays in use in every later state.
proof fn lemma_stays_used(states: Seq<Seq<bool>>, frames: Seq<int>, a: int, k: int)
    requires
        states.len() == frames.len() + 1,
        forall|k: int|
            0 <= k < frames.len() ==> first_fit_step(
                #[trigger] states[k],
                states[k + 1],
                frames[k],
            ),
        0 <= a < k <= frames.len(),
    ensures
        0 <= frames[a] < states[k].len(),
        states[k][frames[a]],
    decreases k - a,
{
    assert(first_fit_step(states[k - 1], states[k], frames[k - 1]));
    if k - 1 > a {
        lemma_stays_used(states, frames, a, k - 1);
    }
}

} // verus!
