//! Physical frame allocator.
//!
//! A flat bitmap over every 4 KiB frame the firmware reported. One bit per
//! frame, set means in use. Bits past the last frame stay set, so a word that
//! reads as all ones holds no free frame.

use vstd::prelude::*;
use vstd::arithmetic::power2::{pow2, lemma_pow2_pos, lemma2_to64};
use vstd::bits::{low_bits_mask, lemma_u64_low_bits_mask_is_mod, lemma_u64_pow2_no_overflow};
use vstd::arithmetic::div_mod::{lemma_fundamental_div_mod, lemma_mod_multiples_basic};

verus! {

pub const FRAME_SIZE: u64 = 4096;

/// Bit `b` of word `w`.
pub open spec fn bit(w: u64, b: int) -> bool {
    (w >> (b as u64)) & 1u64 == 1u64
}

/// Frame `f` in use according to `words`.
pub open spec fn frame_bit(words: Seq<u64>, f: int) -> bool {
    bit(words[f / 64], f % 64)
}

/// How many of the first `n` entries of `v` are set.
pub open spec fn count_true(v: Seq<bool>, n: int) -> nat
    decreases n,
{
    if n <= 0 {
        0
    } else {
        count_true(v, n - 1) + if v[n - 1] { 1nat } else { 0nat }
    }
}

pub proof fn lemma_count_bound(v: Seq<bool>, n: int)
    requires
        0 <= n,
    ensures
        count_true(v, n) <= n,
    decreases n,
{
    if n > 0 {
        lemma_count_bound(v, n - 1);
    }
}

pub proof fn lemma_count_update(v: Seq<bool>, n: int, f: int, b: bool)
    requires
        0 <= f < n <= v.len(),
    ensures
        count_true(v.update(f, b), n) + (if v[f] { 1int } else { 0int }) == count_true(v, n) + (if b { 1int } else { 0int }),
    decreases n,
{
    if n - 1 > f {
        lemma_count_update(v, n - 1, f, b);
    } else {
        lemma_count_same(v, v.update(f, b), f);
    }
}

pub proof fn lemma_count_same(a: Seq<bool>, b: Seq<bool>, n: int)
    requires
        0 <= n <= a.len(),
        n <= b.len(),
        forall|i: int| 0 <= i < n ==> a[i] == b[i],
    ensures
        count_true(a, n) == count_true(b, n),
    decreases n,
{
    if n > 0 {
        lemma_count_same(a, b, n - 1);
    }
}

/// Every entry set means the count is the length, and the converse.
pub proof fn lemma_count_full(v: Seq<bool>, n: int)
    requires
        0 <= n <= v.len(),
    ensures
        count_true(v, n) == n <==> forall|i: int| 0 <= i < n ==> v[i],
    decreases n,
{
    if n > 0 {
        lemma_count_full(v, n - 1);
        lemma_count_bound(v, n - 1);
    }
}

proof fn lemma_bit_set(w: u64, b: u64)
    requires
        b < 64,
    ensures
        bit(w | (1u64 << b), b as int),
        forall|c: u64| c < 64 && c != b ==> bit(w | (1u64 << b), c as int) == bit(w, c as int),
        (w & (1u64 << b) != 0) == bit(w, b as int),
{
    assert(((w | (1u64 << b)) >> b) & 1u64 == 1u64) by (bit_vector) requires b < 64;
    assert forall|c: u64| c < 64 && c != b implies bit(w | (1u64 << b), c as int) == bit(w, c as int) by {
        assert(((w | (1u64 << b)) >> c) & 1u64 == (w >> c) & 1u64) by (bit_vector) requires c < 64, b < 64, c != b;
    }
    assert((w & (1u64 << b) != 0) == ((w >> b) & 1u64 == 1u64)) by (bit_vector) requires b < 64;
}

proof fn lemma_bit_clear(w: u64, b: u64)
    requires
        b < 64,
    ensures
        !bit(w & !(1u64 << b), b as int),
        forall|c: u64| c < 64 && c != b ==> bit(w & !(1u64 << b), c as int) == bit(w, c as int),
{
    assert(((w & !(1u64 << b)) >> b) & 1u64 == 0u64) by (bit_vector) requires b < 64;
    assert forall|c: u64| c < 64 && c != b implies bit(w & !(1u64 << b), c as int) == bit(w, c as int) by {
        assert(((w & !(1u64 << b)) >> c) & 1u64 == (w >> c) & 1u64) by (bit_vector) requires c < 64, b < 64, c != b;
    }
}

proof fn lemma_full_word(w: u64)
    requires
        w == u64::MAX,
    ensures
        forall|c: int| 0 <= c < 64 ==> bit(w, c),
{
    assert forall|c: int| 0 <= c < 64 implies bit(w, c) by {
        let cc = c as u64;
        assert((0xffff_ffff_ffff_ffffu64 >> cc) & 1u64 == 1u64) by (bit_vector) requires cc < 64;
    }
}

pub struct FrameAllocator {
    bitmap: Vec<u64>,
    /// Where the bitmap physically lives.
    bitmap_phys: u64,
    bitmap_words: usize,
    total_frames: u64,
    used_frames: u64,
    /// Where the last search stopped, so sequential allocation stays O(1).
    hint: u64,
    /// Frames that exist but are not usable RAM (holes, MMIO, firmware).
    reserved_frames: u64,
}

impl FrameAllocator {
    /// Which frames are in use, one entry per frame.
    pub closed spec fn view(&self) -> Seq<bool> {
        Seq::new(self.total_frames as nat, |f: int| frame_bit(self.bitmap@, f))
    }

    pub closed spec fn total(&self) -> nat {
        self.total_frames as nat
    }

    pub closed spec fn used(&self) -> nat {
        self.used_frames as nat
    }

    pub closed spec fn reserved(&self) -> nat {
        self.reserved_frames as nat
    }

    pub closed spec fn hint_spec(&self) -> nat {
        self.hint as nat
    }

    pub closed spec fn bitmap_phys_spec(&self) -> u64 {
        self.bitmap_phys
    }

    /// The bitmap covers every frame, the used count is the number of set
    /// bits, and byte counts fit in 64 bits.
    pub closed spec fn wf(&self) -> bool {
        &&& self.bitmap@.len() == self.bitmap_words
        &&& self.bitmap_words == (self.total_frames + 63) / 64
        &&& self.bitmap_words * 8 <= usize::MAX
        &&& self.total_frames * FRAME_SIZE <= u64::MAX
        &&& self.used_frames == count_true(self.view(), self.total_frames as int)
        &&& self.reserved_frames <= self.total_frames
        &&& self.hint <= self.bitmap_words * 64
        &&& forall|f: int| self.total_frames <= f < self.bitmap_words * 64 ==> #[trigger] frame_bit(self.bitmap@, f)
    }

    pub proof fn lemma_wf(&self)
        requires
            self.wf(),
        ensures
            self.view().len() == self.total(),
            self.used() == count_true(self.view(), self.total() as int),
            self.used() <= self.total(),
            self.reserved() <= self.total(),
            self.total() * FRAME_SIZE <= u64::MAX,
    {
        lemma_count_bound(self.view(), self.total_frames as int);
    }

    /// An allocator over no memory at all.
    pub fn empty() -> (a: FrameAllocator)
        ensures
            a.wf(),
            a.total() == 0,
            a.used() == 0,
            a.reserved() == 0,
    {
        FrameAllocator {
            bitmap: Vec::new(),
            bitmap_phys: 0,
            bitmap_words: 0,
            total_frames: 0,
            used_frames: 0,
            hint: 0,
            reserved_frames: 0,
        }
    }

    fn test(&self, frame: u64) -> (used: bool)
        requires
            self.wf(),
            frame < self.bitmap_words * 64,
        ensures
            used == frame_bit(self.bitmap@, frame as int),
    {
        let word = (frame / 64) as usize;
        let b = frame % 64;
        proof {
            lemma_bit_set(self.bitmap@[word as int], b);
        }
        self.bitmap[word] & (1u64 << b) != 0
    }

    /// Set or clear the bit of `frame`, which must lie inside the bitmap.
    fn put(&mut self, frame: u64, value: bool)
        requires
            frame < old(self).bitmap_words * 64,
            old(self).bitmap@.len() == old(self).bitmap_words,
        ensures
            final(self).bitmap@.len() == old(self).bitmap@.len(),
            final(self).bitmap_words == old(self).bitmap_words,
            final(self).bitmap_phys == old(self).bitmap_phys,
            final(self).total_frames == old(self).total_frames,
            final(self).used_frames == old(self).used_frames,
            final(self).reserved_frames == old(self).reserved_frames,
            final(self).hint == old(self).hint,
            frame_bit(final(self).bitmap@, frame as int) == value,
            forall|g: int| 0 <= g < old(self).bitmap_words * 64 && g != frame ==> #[trigger] frame_bit(final(self).bitmap@, g) == frame_bit(old(self).bitmap@, g),
    {
        let word = (frame / 64) as usize;
        let b = frame % 64;
        let old_word = self.bitmap[word];
        let new_word = if value { old_word | (1u64 << b) } else { old_word & !(1u64 << b) };
        proof {
            lemma_bit_set(old_word, b);
            lemma_bit_clear(old_word, b);
        }
        self.bitmap.set(word, new_word);
        proof {
            assert forall|g: int| 0 <= g < old(self).bitmap_words * 64 && g != frame implies #[trigger] frame_bit(self.bitmap@, g) == frame_bit(old(self).bitmap@, g) by {
                if g / 64 == word as int {
                    assert((g % 64) as u64 != b);
                }
            }
        }
    }

    /// Change one frame's state, keeping the count honest.
    fn change(&mut self, frame: u64, value: bool)
        requires
            old(self).wf(),
            frame < old(self).total_frames,
            frame_bit(old(self).bitmap@, frame as int) != value,
        ensures
            final(self).wf(),
            final(self).view() == old(self).view().update(frame as int, value),
            final(self).total_frames == old(self).total_frames,
            final(self).reserved_frames == old(self).reserved_frames,
            final(self).hint == old(self).hint,
            final(self).bitmap_phys == old(self).bitmap_phys,
            final(self).used_frames == if value { old(self).used_frames + 1 } else { old(self).used_frames - 1 },
    {
        let ghost v0 = self.view();
        proof {
            lemma_count_update(v0, self.total_frames as int, frame as int, value);
            lemma_count_bound(v0.update(frame as int, value), self.total_frames as int);
        }
        self.put(frame, value);
        if value {
            self.used_frames = self.used_frames + 1;
        } else {
            self.used_frames = self.used_frames - 1;
        }
        proof {
            assert(self.view() =~= v0.update(frame as int, value));
        }
    }
}

} // verus!

verus! {

/// `a` is a power of two that fits in 64 bits.
pub open spec fn is_power_of_two(a: u64) -> bool {
    exists|n: nat| n < 64 && a == pow2(n)
}

/// Round `value` up to a multiple of `align`.
pub open spec fn align_up_spec(value: int, align: int) -> int {
    ((value + align - 1) / align) * align
}

proof fn lemma_mask_is_mod(x: u64, align: u64)
    requires
        is_power_of_two(align),
    ensures
        align > 0,
        x & ((align - 1) as u64) == x % align,
        x & !((align - 1) as u64) == x - x % align,
{
    let n = choose|n: nat| n < 64 && align == pow2(n);
    lemma_pow2_pos(n);
    lemma_u64_pow2_no_overflow(n);
    lemma_u64_low_bits_mask_is_mod(x, n);
    assert(low_bits_mask(n) == pow2(n) - 1);
    let m = (align - 1) as u64;
    assert(x & !m == x - (x & m)) by (bit_vector);
}

pub proof fn lemma_page_sizes_are_powers()
    ensures
        is_power_of_two(4096),
        is_power_of_two(0x20_0000),
{
    lemma2_to64();
    assert(pow2(12) == 4096);
    assert(pow2(21) == 0x20_0000);
}

/// Round `value` up to a multiple of the power of two `align`.
pub fn align_up(value: u64, align: u64) -> (r: u64)
    requires
        is_power_of_two(align),
        value + align - 1 <= u64::MAX,
    ensures
        r == align_up_spec(value as int, align as int),
        r >= value,
        r % align == 0,
{
    proof {
        lemma_mask_is_mod(0, align);
    }
    let sum = value + (align - 1);
    let r = sum & !(align - 1);
    proof {
        lemma_mask_is_mod(sum, align);
        lemma_fundamental_div_mod(sum as int, align as int);
        lemma_mod_multiples_basic((sum / align) as int, align as int);
        assert((sum as int / align as int) * align as int == align as int * (sum as int / align as int)) by (nonlinear_arith);
    }
    r
}

/// Round `value` down to a multiple of the power of two `align`.
pub fn align_down(value: u64, align: u64) -> (r: u64)
    requires
        is_power_of_two(align),
    ensures
        r == (value / align) * align,
        r <= value,
        r % align == 0,
{
    proof {
        lemma_mask_is_mod(value, align);
        lemma_fundamental_div_mod(value as int, align as int);
        lemma_mod_multiples_basic((value / align) as int, align as int);
        assert((value as int / align as int) * align as int == align as int * (value as int / align as int)) by (nonlinear_arith);
    }
    value & !(align - 1)
}

/// A run of `count` frames from `start` is free.
pub open spec fn free_run(v: Seq<bool>, start: int, count: int) -> bool {
    0 <= start && start + count <= v.len() && forall|f: int| start <= f < start + count ==> !v[f]
}

impl FrameAllocator {
    /// Mark every frame overlapping [start, end) as used or free.
    fn mark_range(&mut self, start: u64, end: u64, used: bool)
        requires
            old(self).wf(),
        ensures
            final(self).wf(),
            final(self).total_frames == old(self).total_frames,
            final(self).reserved_frames == old(self).reserved_frames,
            final(self).hint == old(self).hint,
            final(self).bitmap_phys == old(self).bitmap_phys,
            final(self).view().len() == old(self).view().len(),
            forall|f: int| 0 <= f < old(self).total_frames ==> #[trigger] final(self).view()[f] == if start as int / 4096 <= f < (end as int + 4095) / 4096 {
                used
            } else {
                old(self).view()[f]
            },
    {
        let first = start / FRAME_SIZE;
        let last_raw = end / FRAME_SIZE + if end % FRAME_SIZE != 0 { 1 } else { 0 };
        let last = if last_raw < self.total_frames { last_raw } else { self.total_frames };
        let ghost v0 = self.view();
        let mut frame = first;
        while frame < last
            invariant
                self.wf(),
                self.total_frames == old(self).total_frames,
                self.reserved_frames == old(self).reserved_frames,
                self.hint == old(self).hint,
                self.bitmap_phys == old(self).bitmap_phys,
                first == start as int / 4096,
                last_raw == (end as int + 4095) / 4096,
                last <= self.total_frames,
                last == if last_raw < self.total_frames { last_raw } else { self.total_frames },
                first <= frame,
                v0.len() == self.total_frames,
                forall|f: int| 0 <= f < self.total_frames ==> #[trigger] self.view()[f] == if first <= f < frame && f < last_raw {
                    used
                } else {
                    v0[f]
                },
            decreases last - frame,
        {
            let was_used = self.test(frame);
            let ghost before = self.view();
            if used != was_used {
                self.change(frame, used);
            }
            proof {
                assert forall|f: int| 0 <= f < self.total_frames implies #[trigger] self.view()[f] == if first <= f < frame + 1 && f < last_raw {
                    used
                } else {
                    v0[f]
                } by {
                    assert(before[f] == before[f]);
                }
            }
            frame += 1;
        }
    }

    /// Allocate one frame, returning its physical address.
    pub fn allocate(&mut self) -> (r: Option<u64>)
        requires
            old(self).wf(),
        ensures
            final(self).wf(),
            final(self).total() == old(self).total(),
            final(self).reserved() == old(self).reserved(),
            final(self).bitmap_phys_spec() == old(self).bitmap_phys_spec(),
            match r {
                Some(addr) => {
                    &&& addr % FRAME_SIZE == 0
                    &&& addr / FRAME_SIZE < old(self).total()
                    &&& !old(self).view()[(addr / FRAME_SIZE) as int]
                    &&& final(self).view() == old(self).view().update((addr / FRAME_SIZE) as int, true)
                    &&& final(self).used() == old(self).used() + 1
                },
                None => {
                    &&& forall|f: int| 0 <= f < old(self).total() ==> old(self).view()[f]
                    &&& final(self).view() == old(self).view()
                    &&& final(self).used() == old(self).used()
                },
            },
    {
        let ghost v0 = self.view();
        let mut pass: u64 = 0;
        while pass < 2
            invariant
                self.wf(),
                self.view() == v0,
                v0 == old(self).view(),
                self.used_frames == old(self).used_frames,
                self.total_frames == old(self).total_frames,
                self.reserved_frames == old(self).reserved_frames,
                self.bitmap_phys == old(self).bitmap_phys,
                pass <= 2,
                pass == 1 ==> self.hint == 0,
                pass == 2 ==> forall|f: int| 0 <= f < self.total_frames ==> v0[f],
            decreases 2 - pass,
        {
            let start_hint = self.hint;
            while self.hint < self.total_frames
                invariant
                    self.wf(),
                    self.view() == v0,
                    v0 == old(self).view(),
                    self.used_frames == old(self).used_frames,
                    self.total_frames == old(self).total_frames,
                    self.reserved_frames == old(self).reserved_frames,
                    self.bitmap_phys == old(self).bitmap_phys,
                    pass < 2,
                    pass == 1 ==> start_hint == 0,
                    start_hint <= self.hint || self.total_frames <= start_hint,
                    forall|f: int| start_hint <= f < self.hint && f < self.total_frames ==> v0[f],
                    self.hint <= self.bitmap_words * 64,
                decreases self.bitmap_words * 64 - self.hint,
            {
                let word = (self.hint / 64) as usize;
                if self.bitmap[word] == u64::MAX {
                    proof {
                        lemma_full_word(self.bitmap@[word as int]);
                        assert forall|f: int| start_hint <= f < (word as int + 1) * 64 && f < self.total_frames implies v0[f] by {
                            if f >= self.hint {
                                assert(f / 64 == word as int);
                            }
                        }
                    }
                    assert(self.hint < (word as int + 1) * 64);
                    self.hint = (word as u64 + 1) * 64;
                    continue;
                }
                if !self.test(self.hint) {
                    let frame = self.hint;
                    self.change(frame, true);
                    self.hint = self.hint + 1;
                    let addr = frame * FRAME_SIZE;
                    proof {
                        assert((frame as int * 4096) / 4096 == frame as int) by (nonlinear_arith);
                        assert((frame as int * 4096) % 4096 == 0) by (nonlinear_arith);
                    }
                    return Some(addr);
                }
                self.hint = self.hint + 1;
            }
            self.hint = 0;
            pass += 1;
        }
        None
    }
}

} // verus!

verus! {

impl FrameAllocator {
    /// Allocate `count` physically contiguous frames: the lowest run of that
    /// many free frames.
    pub fn alloc_contiguous(&mut self, count: u64) -> (r: Option<u64>)
        requires
            old(self).wf(),
        ensures
            final(self).wf(),
            final(self).total() == old(self).total(),
            final(self).reserved() == old(self).reserved(),
            final(self).bitmap_phys_spec() == old(self).bitmap_phys_spec(),
            match r {
                Some(addr) => {
                    let start = (addr / FRAME_SIZE) as int;
                    &&& count > 0
                    &&& addr % FRAME_SIZE == 0
                    &&& free_run(old(self).view(), start, count as int)
                    &&& forall|s: int| 0 <= s < start ==> !free_run(old(self).view(), s, count as int)
                    &&& final(self).view().len() == old(self).view().len()
                    &&& forall|f: int| 0 <= f < old(self).total() ==> #[trigger] final(self).view()[f] == if start <= f < start + count {
                        true
                    } else {
                        old(self).view()[f]
                    }
                    &&& final(self).used() == old(self).used() + count
                },
                None => {
                    &&& count == 0 || forall|s: int| 0 <= s ==> !free_run(old(self).view(), s, count as int)
                    &&& final(self).view() == old(self).view()
                    &&& final(self).used() == old(self).used()
                },
            },
    {
        if count == 0 {
            return None;
        }
        let ghost v0 = self.view();
        let total = self.total_frames;
        let mut start = 0u64;
        let mut run = 0u64;
        let mut frame = 0u64;
        while frame < total
            invariant
                self.wf(),
                self.view() == v0,
                v0 == old(self).view(),
                *self == *old(self),
                total == self.total_frames,
                v0.len() == total,
                count > 0,
                frame <= total,
                run < count,
                run <= frame,
                start == frame - run,
                forall|f: int| start <= f < frame ==> !v0[f],
                start > 0 ==> v0[start - 1],
                forall|s: int| 0 <= s && s + count <= frame ==> !free_run(v0, s, count as int),
            decreases total - frame,
        {
            if self.test(frame) {
                run = 0;
                proof {
                    assert forall|s: int| 0 <= s && s + count <= frame + 1 implies !free_run(v0, s, count as int) by {
                        if s + count == frame + 1 {
                            assert(v0[frame as int]);
                        }
                    }
                }
                start = frame + 1;
            } else {
                if run == 0 {
                    start = frame;
                }
                run = run + 1;
                proof {
                    assert forall|s: int| 0 <= s && s + count <= frame + 1 && s < start implies !free_run(v0, s, count as int) by {
                        if s + count == frame + 1 {
                            assert(v0[start - 1]);
                        }
                    }
                }
                if run == count {
                    let ghost before = self.view();
                    let mut f = start;
                    while f < start + count
                        invariant
                            self.wf(),
                            self.total_frames == total,
                            self.reserved_frames == old(self).reserved_frames,
                            self.bitmap_phys == old(self).bitmap_phys,
                            v0 == old(self).view(),
                            start + count == frame + 1,
                            frame < total,
                            start <= f <= start + count,
                            forall|g: int| start <= g < start + count ==> !v0[g],
                            self.used_frames == old(self).used_frames + (f - start),
                            self.view().len() == total,
                            forall|g: int| 0 <= g < total ==> #[trigger] self.view()[g] == if start <= g < f { true } else { v0[g] },
                        decreases start + count - f,
                    {
                        let ghost mid = self.view();
                        assert(!mid[f as int]);
                        self.change(f, true);
                        proof {
                            assert forall|g: int| 0 <= g < total implies #[trigger] self.view()[g] == if start <= g < f + 1 { true } else { v0[g] } by {
                                assert(mid[g] == mid[g]);
                            }
                        }
                        f = f + 1;
                    }
                    proof {
                        assert((start as int * 4096) / 4096 == start as int) by (nonlinear_arith);
                        assert((start as int * 4096) % 4096 == 0) by (nonlinear_arith);
                    }
                    return Some(start * FRAME_SIZE);
                }
            }
            frame += 1;
        }
        proof {
            assert forall|s: int| 0 <= s implies !free_run(v0, s, count as int) by {
                if s + count <= total {
                }
            }
        }
        None
    }

    /// Release the frame holding `phys`. Freeing a frame that is already
    /// free, or lies past the end of memory, does nothing.
    pub fn free(&mut self, phys: u64)
        requires
            old(self).wf(),
        ensures
            final(self).wf(),
            final(self).total() == old(self).total(),
            final(self).reserved() == old(self).reserved(),
            final(self).bitmap_phys_spec() == old(self).bitmap_phys_spec(),
            ({
                let f = (phys / FRAME_SIZE) as int;
                if f < old(self).total() && old(self).view()[f] {
                    &&& final(self).view() == old(self).view().update(f, false)
                    &&& final(self).used() == old(self).used() - 1
                } else {
                    &&& final(self).view() == old(self).view()
                    &&& final(self).used() == old(self).used()
                }
            }),
    {
        let frame = phys / FRAME_SIZE;
        if frame < self.total_frames && self.test(frame) {
            self.change(frame, false);
            if frame < self.hint {
                self.hint = frame;
            }
        }
    }

    /// Where the bitmap lives, and its size in bytes.
    pub fn bitmap_location(&self) -> (r: (u64, usize))
        requires
            self.wf(),
        ensures
            r.0 == self.bitmap_phys_spec(),
            r.1 == (self.total() + 63) / 64 * 8,
    {
        (self.bitmap_phys, self.bitmap_words * 8)
    }

    pub fn total_bytes(&self) -> (r: u64)
        requires
            self.wf(),
        ensures
            r == self.total() * FRAME_SIZE,
    {
        self.total_frames * FRAME_SIZE
    }

    /// Bytes that are real, usable RAM (excludes firmware holes).
    pub fn usable_bytes(&self) -> (r: u64)
        requires
            self.wf(),
        ensures
            r == (self.total() - self.reserved()) * FRAME_SIZE,
    {
        proof {
            assert((self.total_frames - self.reserved_frames) * 4096 <= self.total_frames * 4096) by (nonlinear_arith)
                requires self.reserved_frames <= self.total_frames;
        }
        (self.total_frames - self.reserved_frames) * FRAME_SIZE
    }

    /// Bytes handed out beyond the reserved ones. Only meaningful while no
    /// reserved frame has been freed.
    pub fn used_bytes(&self) -> (r: u64)
        requires
            self.wf(),
            self.used() >= self.reserved(),
        ensures
            r == (self.used() - self.reserved()) * FRAME_SIZE,
    {
        proof {
            lemma_count_bound(self.view(), self.total_frames as int);
            assert((self.used_frames - self.reserved_frames) * 4096 <= self.total_frames * 4096) by (nonlinear_arith)
                requires self.reserved_frames <= self.used_frames <= self.total_frames;
        }
        (self.used_frames - self.reserved_frames) * FRAME_SIZE
    }

    pub fn free_bytes(&self) -> (r: u64)
        requires
            self.wf(),
        ensures
            r == (self.total() - self.used()) * FRAME_SIZE,
    {
        proof {
            lemma_count_bound(self.view(), self.total_frames as int);
            assert((self.total_frames - self.used_frames) * 4096 <= self.total_frames * 4096) by (nonlinear_arith)
                requires self.used_frames <= self.total_frames;
        }
        (self.total_frames - self.used_frames) * FRAME_SIZE
    }
}

/// Allocating a frame and freeing it again restores the allocator's map and count.
pub proof fn law_alloc_free_roundtrip(before: FrameAllocator, between: FrameAllocator, after: FrameAllocator, addr: u64)
    requires
        before.wf(),
        addr % FRAME_SIZE == 0,
        (addr / FRAME_SIZE) < before.total(),
        !before.view()[(addr / FRAME_SIZE) as int],
        between.view() == before.view().update((addr / FRAME_SIZE) as int, true),
        between.used() == before.used() + 1,
        between.total() == before.total(),
        after.view() == between.view().update((addr / FRAME_SIZE) as int, false),
        after.used() == between.used() - 1,
    ensures
        after.view() == before.view(),
        after.used() == before.used(),
{
    assert(after.view() =~= before.view());
}

/// The used count never exceeds the number of frames, so free bytes never go negative.
pub proof fn law_used_within_total(a: FrameAllocator)
    requires
        a.wf(),
    ensures
        a.used() <= a.total(),
        a.used() == count_true(a.view(), a.total() as int),
{
    a.lemma_wf();
}

} // verus!

verus! {

use crate::boot::{BootInfo, MemoryKind, MemoryRegion, Module};
use crate::gfx::draw::max_int;

/// Frame `f` overlaps the byte range [start, end).
pub open spec fn frame_in(f: int, start: int, end: int) -> bool {
    start / 4096 <= f < (end + 4095) / 4096
}

/// The end of the highest usable region among the first `n`.
pub open spec fn highest_usable(regions: Seq<MemoryRegion>, n: int) -> int
    decreases n,
{
    if n <= 0 {
        0
    } else {
        let r = regions[n - 1];
        let rest = highest_usable(regions, n - 1);
        if r.kind == MemoryKind::Usable && r.base + r.length > rest { r.base + r.length } else { rest }
    }
}

/// Some usable region among the first `n` overlaps frame `f`.
pub open spec fn usable_frame(regions: Seq<MemoryRegion>, n: int, f: int) -> bool {
    exists|i: int| 0 <= i < n && #[trigger] regions[i].kind == MemoryKind::Usable
        && frame_in(f, regions[i].base as int, regions[i].base + regions[i].length)
}

/// Some module among the first `n` overlaps frame `f`.
pub open spec fn module_frame(modules: Seq<Module>, n: int, f: int) -> bool {
    exists|i: int| 0 <= i < n && frame_in(f, (#[trigger] modules[i]).start as int, modules[i].end as int)
}

/// Where the bitmap goes: the first usable region from `i` on with room for
/// `bytes` bytes at a page boundary at or above `barrier`; zero if none has.
pub open spec fn bitmap_spot(regions: Seq<MemoryRegion>, i: int, barrier: int, bytes: int) -> int
    decreases regions.len() - i,
{
    if i < 0 || i >= regions.len() {
        0
    } else {
        let r = regions[i];
        let low = if r.base >= barrier { r.base as int } else { barrier };
        let candidate = align_up_spec(low, 4096);
        if r.kind == MemoryKind::Usable && candidate + bytes <= r.base + r.length {
            candidate
        } else {
            bitmap_spot(regions, i + 1, barrier, bytes)
        }
    }
}

proof fn lemma_spot_bound(regions: Seq<MemoryRegion>, i: int, barrier: int, bytes: int)
    requires
        bytes >= 0,
        forall|k: int| 0 <= k < regions.len() ==> (#[trigger] regions[k]).base + regions[k].length <= u64::MAX - 4096,
    ensures
        bitmap_spot(regions, i, barrier, bytes) != 0 ==> bitmap_spot(regions, i, barrier, bytes) + bytes <= u64::MAX - 4096,
    decreases regions.len() - i,
{
    if 0 <= i < regions.len() {
        lemma_spot_bound(regions, i + 1, barrier, bytes);
    }
}

/// The frame map `init` builds: everything in use except usable RAM, and of
/// that the low 1 MiB, the kernel, the bitmap and the modules claimed back.
pub open spec fn initial_map(info: &BootInfo, kernel_start: u64, kernel_end: u64, bitmap_phys: int, bitmap_bytes: int, f: int) -> bool {
    !usable_frame(info.regions@, info.regions@.len() as int, f)
        || frame_in(f, 0, 0x100000)
        || frame_in(f, kernel_start as int, kernel_end as int)
        || frame_in(f, bitmap_phys, bitmap_phys + bitmap_bytes)
        || module_frame(info.modules@, info.modules@.len() as int, f)
}

impl FrameAllocator {
    /// Build the allocator from the firmware memory map. The kernel image
    /// occupies [kernel_start, kernel_end).
    pub fn init(&mut self, info: &BootInfo, kernel_start: u64, kernel_end: u64)
        requires
            info.wf(),
            forall|i: int| 0 <= i < info.regions@.len() ==> (#[trigger] info.regions@[i]).base + info.regions@[i].length <= u64::MAX - 4096,
            ({
                let total = highest_usable(info.regions@, info.regions@.len() as int) / 4096;
                let bytes = (total + 63) / 64 * 8;
                let barrier = max_int(max_int(kernel_end as int, info.reclaim_after as int), 0x100000);
                &&& bytes <= usize::MAX
                &&& bitmap_spot(info.regions@, 0, barrier, bytes) != 0
            }),
        ensures
            final(self).wf(),
            final(self).total() == highest_usable(info.regions@, info.regions@.len() as int) / 4096,
            ({
                let total = final(self).total() as int;
                let bytes = (total + 63) / 64 * 8;
                let barrier = max_int(max_int(kernel_end as int, info.reclaim_after as int), 0x100000);
                let spot = bitmap_spot(info.regions@, 0, barrier, bytes);
                &&& final(self).bitmap_phys_spec() == spot
                &&& forall|f: int| 0 <= f < total ==> #[trigger] final(self).view()[f] == initial_map(info, kernel_start, kernel_end, spot, bytes, f)
                &&& final(self).reserved() == count_true(Seq::new(total as nat, |f: int| !usable_frame(info.regions@, info.regions@.len() as int, f)), total)
            }),
    {
        let regions = info.regions();
        let n = regions.len();
        let mut highest: u64 = 0;
        let mut i: usize = 0;
        while i < n
            invariant
                n == info.regions@.len(),
                regions@ == info.regions@,
                i <= n,
                highest == highest_usable(info.regions@, i as int),
                forall|k: int| 0 <= k < info.regions@.len() ==> (#[trigger] info.regions@[k]).base + info.regions@[k].length <= u64::MAX - 4096,
            decreases n - i,
        {
            let r = &regions[i];
            if r.kind == MemoryKind::Usable && r.base + r.length > highest {
                highest = r.base + r.length;
            }
            i += 1;
        }
        let total = highest / FRAME_SIZE;
        let words = ((total + 63) / 64) as usize;
        let bitmap_bytes = (words * 8) as u64;

        let barrier0 = if kernel_end >= info.reclaim_after { kernel_end } else { info.reclaim_after };
        let barrier = if barrier0 >= 0x100000 { barrier0 } else { 0x100000 };
        let ghost spot = bitmap_spot(info.regions@, 0, barrier as int, bitmap_bytes as int);
        let mut bitmap_phys: u64 = 0;
        let mut j: usize = 0;
        proof {
            lemma_page_sizes_are_powers();
        }
        while j < n
            invariant_except_break
                bitmap_phys == 0,
            invariant
                n == info.regions@.len(),
                regions@ == info.regions@,
                j <= n,
                is_power_of_two(4096),
                forall|k: int| 0 <= k < info.regions@.len() ==> (#[trigger] info.regions@[k]).base + info.regions@[k].length <= u64::MAX - 4096,
                spot == bitmap_spot(info.regions@, 0, barrier as int, bitmap_bytes as int),
                bitmap_spot(info.regions@, j as int, barrier as int, bitmap_bytes as int) == spot,
            ensures
                bitmap_phys == spot,
            decreases n - j,
        {
            let r = &regions[j];
            let low = if r.base >= barrier { r.base } else { barrier };
            if r.kind == MemoryKind::Usable && low <= r.base + r.length {
                let candidate = align_up(low, FRAME_SIZE);
                if candidate <= r.base + r.length && bitmap_bytes <= r.base + r.length - candidate {
                    bitmap_phys = candidate;
                    break;
                }
            }
            proof {
                let low_i = if r.base >= barrier { r.base as int } else { barrier as int };
                assert(align_up_spec(low_i, 4096) >= low_i) by (nonlinear_arith);
            }
            j += 1;
        }

        let mut bitmap: Vec<u64> = Vec::new();
        let mut w: usize = 0;
        while w < words
            invariant
                w <= words,
                bitmap@.len() == w,
                forall|k: int| 0 <= k < w ==> bitmap@[k] == u64::MAX,
            decreases words - w,
        {
            bitmap.push(u64::MAX);
            w += 1;
        }
        *self = FrameAllocator {
            bitmap,
            bitmap_phys,
            bitmap_words: words,
            total_frames: total,
            used_frames: total,
            hint: 0,
            reserved_frames: 0,
        };
        proof {
            assert forall|f: int| 0 <= f < words * 64 implies #[trigger] frame_bit(self.bitmap@, f) by {
                lemma_full_word(u64::MAX);
                assert(0 <= f % 64 < 64);
            }
            let v = self.view();
            assert forall|f: int| 0 <= f < total implies v[f] by {
                assert(frame_bit(self.bitmap@, f));
            }
            lemma_count_full(v, total as int);
        }
        let mut k: usize = 0;
        while k < n
            invariant
                self.wf(),
                n == info.regions@.len(),
                regions@ == info.regions@,
                k <= n,
                self.total_frames == total,
                self.bitmap_phys == bitmap_phys,
                self.reserved_frames == 0,
                self.view().len() == total,
                forall|k: int| 0 <= k < info.regions@.len() ==> (#[trigger] info.regions@[k]).base + info.regions@[k].length <= u64::MAX - 4096,
                forall|f: int| 0 <= f < total ==> #[trigger] self.view()[f] == !usable_frame(info.regions@, k as int, f),
            decreases n - k,
        {
            let r = &regions[k];
            let ghost before = self.view();
            if r.kind == MemoryKind::Usable {
                self.mark_range(r.base, r.base + r.length, false);
            }
            proof {
                assert forall|f: int| 0 <= f < total implies #[trigger] self.view()[f] == !usable_frame(info.regions@, k as int + 1, f) by {
                    assert(before[f] == !usable_frame(info.regions@, k as int, f));
                    if usable_frame(info.regions@, k as int + 1, f) {
                        let i = choose|i: int| 0 <= i < k + 1 && #[trigger] info.regions@[i].kind == MemoryKind::Usable
                            && frame_in(f, info.regions@[i].base as int, info.regions@[i].base + info.regions@[i].length);
                        if i < k {
                            assert(usable_frame(info.regions@, k as int, f));
                        }
                    } else {
                        assert(!(info.regions@[k as int].kind == MemoryKind::Usable
                            && frame_in(f, info.regions@[k as int].base as int, info.regions@[k as int].base + info.regions@[k as int].length)));
                        if usable_frame(info.regions@, k as int, f) {
                            let i = choose|i: int| 0 <= i < k && #[trigger] info.regions@[i].kind == MemoryKind::Usable
                                && frame_in(f, info.regions@[i].base as int, info.regions@[i].base + info.regions@[i].length);
                            assert(usable_frame(info.regions@, k as int + 1, f));
                        }
                    }
                }
            }
            k += 1;
        }
        let ghost released = self.view();
        proof {
            assert(released =~= Seq::new(total as nat, |f: int| !usable_frame(info.regions@, info.regions@.len() as int, f)));
            self.lemma_wf();
            lemma_spot_bound(info.regions@, 0, barrier as int, bitmap_bytes as int);
        }
        self.reserved_frames = self.used_frames;

        self.mark_range(0, 0x100000, true);
        self.mark_range(kernel_start, kernel_end, true);
        self.mark_range(bitmap_phys, bitmap_phys + bitmap_bytes, true);
        let modules = info.modules();
        let m = modules.len();
        let mut q: usize = 0;
        while q < m
            invariant
                self.wf(),
                m == info.modules@.len(),
                modules@ == info.modules@,
                q <= m,
                self.total_frames == total,
                self.bitmap_phys == bitmap_phys,
                self.reserved_frames == count_true(released, total as int),
                self.view().len() == total,
                released.len() == total,
                forall|f: int| 0 <= f < total ==> #[trigger] self.view()[f] == (released[f]
                    || frame_in(f, 0, 0x100000)
                    || frame_in(f, kernel_start as int, kernel_end as int)
                    || frame_in(f, bitmap_phys as int, bitmap_phys + bitmap_bytes)
                    || module_frame(info.modules@, q as int, f)),
            decreases m - q,
        {
            let ghost before = self.view();
            self.mark_range(modules[q].start, modules[q].end, true);
            proof {
                assert forall|f: int| 0 <= f < total implies #[trigger] self.view()[f] == (released[f]
                    || frame_in(f, 0, 0x100000)
                    || frame_in(f, kernel_start as int, kernel_end as int)
                    || frame_in(f, bitmap_phys as int, bitmap_phys + bitmap_bytes)
                    || module_frame(info.modules@, q as int + 1, f)) by {
                    assert(before[f] == before[f]);
                    if module_frame(info.modules@, q as int + 1, f) {
                        let i = choose|i: int| 0 <= i < q + 1 && frame_in(f, (#[trigger] info.modules@[i]).start as int, info.modules@[i].end as int);
                        if i < q {
                            assert(module_frame(info.modules@, q as int, f));
                        }
                    } else {
                        if module_frame(info.modules@, q as int, f) {
                            let i = choose|i: int| 0 <= i < q && frame_in(f, (#[trigger] info.modules@[i]).start as int, info.modules@[i].end as int);
                            assert(module_frame(info.modules@, q as int + 1, f));
                        }
                    }
                }
            }
            q += 1;
        }
        self.hint = 0;
    }
}

} // verus!
