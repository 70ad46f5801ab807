//! Doorkeeper: a Bloom-like admission filter with three probes per key.

use vstd::arithmetic::power2::{lemma2_to64, lemma_pow2_strictly_increases, lemma_pow2_unfold, pow2};
use vstd::prelude::*;

verus! {

/// The 64-bit finalizer that derives the second and third probe.
pub open spec fn spec_mix64(x: u64) -> u64 {
    let a = x ^ (x >> 30u64);
    let b = a.wrapping_mul(0xbf58476d1ce4e5b9u64);
    let c = b ^ (b >> 27u64);
    let d = c.wrapping_mul(0x94d049bb133111ebu64);
    d ^ (d >> 31u64)
}

/// Scrambles the bits of a 64-bit hash.
pub fn mix64(x: u64) -> (r: u64)
    ensures
        r == spec_mix64(x),
{
    let a = x ^ (x >> 30u64);
    let b = a.wrapping_mul(0xbf58476d1ce4e5b9u64);
    let c = b ^ (b >> 27u64);
    let d = c.wrapping_mul(0x94d049bb133111ebu64);
    d ^ (d >> 31u64)
}

/// Whether `n` is a power of two.
pub open spec fn is_pow2(n: nat) -> bool {
    exists|k: nat| #[trigger] pow2(k) == n
}

/// The smallest power of two not below `n` (1 for 0).
pub fn next_pow2(n: usize) -> (r: usize)
    requires
        n <= 0x8000_0000,
    ensures
        is_pow2(r as nat),
        n <= r,
        r == 1 || r / 2 < n,
        r <= 0x8000_0000,
{
    let mut r: usize = 1;
    let ghost mut k: nat = 0;
    proof {
        lemma2_to64();
    }
    while r < n
        invariant
            r as nat == pow2(k),
            k <= 31,
            1 <= r <= 0x8000_0000,
            n <= 0x8000_0000,
            r == 1 || r / 2 < n,
            pow2(31) == 0x8000_0000,
        decreases 0x8000_0000 - r,
    {
        proof {
            if k >= 31 {
                if k > 31 {
                    lemma_pow2_strictly_increases(31, k);
                }
                assert(false);
            }
            lemma_pow2_unfold(k + 1);
            if k + 1 < 31 {
                lemma_pow2_strictly_increases(k + 1, 31);
            }
        }
        r = r * 2;
        proof {
            k = k + 1;
        }
    }
    proof {
        assert(pow2(k) == r as nat);
    }
    r
}

/// Probe positions of a hash: the hash itself, then its mix, then the mix
/// of that, each cut to 32 bits and masked.
pub open spec fn probe0(h: u64, mask: u32) -> u32 {
    (h as u32) & mask
}

pub open spec fn probe1(h: u64, mask: u32) -> u32 {
    (spec_mix64(h) as u32) & mask
}

pub open spec fn probe2(h: u64, mask: u32) -> u32 {
    (spec_mix64(spec_mix64(h)) as u32) & mask
}

/// Lightweight, Bloom-like admission filter over a packed bit array.
pub struct Doorkeeper {
    bits: Vec<u64>,
    mask: u32,
}

proof fn lemma_word_in_range(i: u32, mask: u32, words: nat)
    requires
        i <= mask,
        mask as nat + 1 <= 64 * words,
    ensures
        (i >> 6u32) < words,
{
    assert((i >> 6u32) as nat == i as nat / 64) by (bit_vector)
        requires
            true,
    ;
}

proof fn lemma_low6(i: u32)
    ensures
        (i & 63u32) < 64,
{
    assert((i & 63u32) < 64) by (bit_vector);
}

proof fn lemma_masked_le(x: u32, mask: u32)
    ensures
        x & mask <= mask,
{
    assert(x & mask <= mask) by (bit_vector);
}

impl Doorkeeper {
    /// The index mask: the number of bits, a power of two, less one.
    pub closed spec fn spec_mask(&self) -> u32 {
        self.mask
    }

    /// Whether bit `i` is set.
    pub closed spec fn is_set(&self, i: u32) -> bool {
        (self.bits@[(i >> 6u32) as int] & (1u64 << (i & 63u32))) != 0
    }

    /// The filter is well formed: the array covers every index the mask lets
    /// through, and the mask is a power of two less one.
    pub closed spec fn wf(&self) -> bool {
        &&& is_pow2(self.mask as nat + 1)
        &&& self.mask as nat + 1 <= 64 * self.bits@.len()
    }

    /// Whether all three probed bits of `h` are set.
    pub open spec fn seen(&self, h: u64) -> bool {
        &&& self.is_set(probe0(h, self.spec_mask()))
        &&& self.is_set(probe1(h, self.spec_mask()))
        &&& self.is_set(probe2(h, self.spec_mask()))
    }

    /// Creates a filter of `total_bits` bits rounded up to a power of two
    /// (at least one), all clear.
    pub fn new(total_bits: u32) -> (d: Self)
        requires
            total_bits <= 0x8000_0000,
        ensures
            d.wf(),
            is_pow2(d.spec_mask() as nat + 1),
            d.spec_mask() as nat + 1 >= total_bits,
            d.spec_mask() == 0 || (d.spec_mask() as nat + 1) / 2 < total_bits,
            forall|i: u32| i <= d.spec_mask() ==> !#[trigger] d.is_set(i),
    {
        let total_bits = if total_bits == 0 { 1 } else { total_bits };
        let n = next_pow2(total_bits as usize) as u32;
        let word_count = ((n + 63) / 64) as usize;
        let mut bits: Vec<u64> = Vec::with_capacity(word_count);
        while bits.len() < word_count
            invariant
                bits@.len() <= word_count,
                forall|j: int| 0 <= j < bits@.len() ==> bits@[j] == 0,
            decreases word_count - bits@.len(),
        {
            bits.push(0);
        }
        let d = Doorkeeper { bits, mask: n - 1 };
        proof {
            assert forall|i: u32| i <= d.mask implies !#[trigger] d.is_set(i) by {
                lemma_word_in_range(i, d.mask, d.bits@.len());
                assert(d.bits@[(i >> 6u32) as int] == 0);
                let b = i & 63u32;
                assert((0u64 & (1u64 << b)) == 0) by (bit_vector);
            }
        }
        d
    }

    /// Maps a flat bit index to its word index and the bit's mask within
    /// that word.
    fn word_bit(&self, i: u32) -> (r: (usize, u64))
        ensures
            r.0 == (i >> 6u32) as usize,
            r.1 == 1u64 << (i & 63u32),
    {
        proof {
            lemma_low6(i);
        }
        let w = i >> 6u32;
        let b = 1u64 << (i & 63u32);
        (w as usize, b)
    }

    /// Whether bit `i` is set.
    fn get(&self, i: u32) -> (r: bool)
        requires
            self.wf(),
            i <= self.spec_mask(),
        ensures
            r == self.is_set(i),
    {
        proof {
            lemma_word_in_range(i, self.mask, self.bits@.len());
        }
        let (w, b) = self.word_bit(i);
        let v = self.bits[w];
        (v & b) != 0
    }

    /// Sets bit `i`; every other bit keeps its state.
    fn set(&mut self, i: u32)
        requires
            old(self).wf(),
            i <= old(self).spec_mask(),
        ensures
            final(self).wf(),
            final(self).spec_mask() == old(self).spec_mask(),
            final(self).is_set(i),
            forall|j: u32| j <= final(self).spec_mask() && j != i ==> #[trigger] final(self).is_set(j) == old(self).is_set(j),
    {
        proof {
            lemma_word_in_range(i, self.mask, self.bits@.len());
        }
        let (w, b) = self.word_bit(i);
        let old_word = self.bits[w];
        let neu = old_word | b;
        self.bits[w] = neu;
        proof {
            let bi = i & 63u32;
            lemma_low6(i);
            assert((old_word | (1u64 << bi)) & (1u64 << bi) != 0) by (bit_vector)
                requires bi < 64;
            assert forall|j: u32| j <= self.mask && j != i implies #[trigger] self.is_set(j) == old(self).is_set(j) by {
                lemma_word_in_range(j, self.mask, self.bits@.len());
                let wj = j >> 6u32;
                let bj = j & 63u32;
                lemma_low6(j);
                if wj as int == w as int {
                    assert(bi != bj) by (bit_vector)
                        requires
                            j != i,
                            (j >> 6u32) == (i >> 6u32),
                            bi == i & 63u32,
                            bj == j & 63u32,
                    ;
                    assert(((old_word | (1u64 << bi)) & (1u64 << bj) != 0) == ((old_word & (1u64 << bj)) != 0)) by (bit_vector)
                        requires
                            bi != bj,
                            bi < 64,
                            bj < 64,
                    ;
                }
            }
        }
    }

    /// Clears every bit.
    pub fn reset(&mut self)
        requires
            old(self).wf(),
        ensures
            final(self).wf(),
            final(self).spec_mask() == old(self).spec_mask(),
            forall|i: u32| i <= final(self).spec_mask() ==> !#[trigger] final(self).is_set(i),
    {
        let mut w: usize = 0;
        while w < self.bits.len()
            invariant
                self.wf(),
                self.mask == old(self).mask,
                self.bits@.len() == old(self).bits@.len(),
                w <= self.bits@.len(),
                forall|j: int| 0 <= j < w ==> self.bits@[j] == 0,
            decreases self.bits@.len() - w,
        {
            self.bits[w] = 0;
            w = w + 1;
        }
        proof {
            assert forall|i: u32| i <= self.mask implies !#[trigger] self.is_set(i) by {
                lemma_word_in_range(i, self.mask, self.bits@.len());
                let b = i & 63u32;
                assert((0u64 & (1u64 << b)) == 0) by (bit_vector);
            }
        }
    }

    /// The three probe positions of `h`.
    fn probes(&self, h: u64) -> (r: (u32, u32, u32))
        requires
            self.wf(),
        ensures
            r.0 == probe0(h, self.spec_mask()),
            r.1 == probe1(h, self.spec_mask()),
            r.2 == probe2(h, self.spec_mask()),
            r.0 <= self.spec_mask(),
            r.1 <= self.spec_mask(),
            r.2 <= self.spec_mask(),
    {
        let mut hash = h;
        let i0 = (hash as u32) & self.mask;
        hash = mix64(hash);
        let i1 = (hash as u32) & self.mask;
        hash = mix64(hash);
        let i2 = (hash as u32) & self.mask;
        proof {
            lemma_masked_le(h as u32, self.mask);
            lemma_masked_le(spec_mix64(h) as u32, self.mask);
            lemma_masked_le(spec_mix64(spec_mix64(h)) as u32, self.mask);
        }
        (i0, i1, i2)
    }

    /// Returns true when all three probed bits of `h` are set.
    pub fn probably_seen(&self, h: u64) -> (r: bool)
        requires
            self.wf(),
        ensures
            r == self.seen(h),
    {
        let (i0, i1, i2) = self.probes(h);
        self.get(i0) && self.get(i1) && self.get(i2)
    }

    /// Returns true when `h` was probably seen already; otherwise sets its
    /// three bits and returns false.
    pub fn seen_or_add(&mut self, h: u64) -> (r: bool)
        requires
            old(self).wf(),
        ensures
            final(self).wf(),
            final(self).spec_mask() == old(self).spec_mask(),
            r == old(self).seen(h),
            final(self).seen(h),
            forall|j: u32| j <= final(self).spec_mask() && old(self).is_set(j) ==> #[trigger] final(self).is_set(j),
            r ==> *final(self) == *old(self),
    {
        let (i0, i1, i2) = self.probes(h);
        let b0 = self.get(i0);
        let b1 = self.get(i1);
        let b2 = self.get(i2);
        if b0 && b1 && b2 {
            return true;
        }
        self.set(i0);
        self.set(i1);
        self.set(i2);
        false
    }
}

/// A key that the filter has seen stays seen while bits are only ever
/// added, as `seen_or_add` does for any later key: the filter has no false
/// negatives until it is reset.
pub proof fn law_seen_persists(before: Doorkeeper, after: Doorkeeper, h: u64)
    requires
        before.wf(),
        before.seen(h),
        after.spec_mask() == before.spec_mask(),
        forall|j: u32| j <= after.spec_mask() && before.is_set(j) ==> #[trigger] after.is_set(j),
    ensures
        after.seen(h),
{
    lemma_masked_le(h as u32, before.spec_mask());
    lemma_masked_le(spec_mix64(h) as u32, before.spec_mask());
    lemma_masked_le(spec_mix64(spec_mix64(h)) as u32, before.spec_mask());
}

/// After a reset (every bit clear) no key is seen.
pub proof fn law_reset_forgets(d: Doorkeeper, h: u64)
    requires
        d.wf(),
        forall|i: u32| i <= d.spec_mask() ==> !#[trigger] d.is_set(i),
    ensures
        !d.seen(h),
{
    lemma_masked_le(h as u32, d.spec_mask());
}

} // verus!
