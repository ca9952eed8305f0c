//! A bit-granular input cursor over a byte buffer.
//!
//! A `BitArray` is a byte buffer holding a fixed number of live bits
//! together with a bit-index head. Parsers consume bits by advancing the
//! head; serializers append bits at the end. Bits are ordered most
//! significant first within each byte.

use vstd::prelude::*;
use vstd::arithmetic::power2::{pow2, lemma_pow2_unfold, lemma_pow2_strictly_increases, lemma2_to64};

verus! {

/// Bit `k` of byte `b`, counting the most significant bit as bit 0.
pub open spec fn bit_of_byte(b: u8, k: int) -> bool
    recommends
        0 <= k < 8,
{
    (b >> ((7 - k) as u8)) & 1 == 1
}

/// Every bit of a byte buffer, most significant bit of each byte first.
pub open spec fn bits_of(bytes: Seq<u8>) -> Seq<bool> {
    Seq::new((bytes.len() * 8) as nat, |i: int| bit_of_byte(bytes[i / 8], i % 8))
}

/// The unsigned value of a bit string read most significant bit first.
pub open spec fn value_of(s: Seq<bool>) -> nat
    decreases s.len(),
{
    if s.len() == 0 {
        0
    } else {
        2 * value_of(s.drop_last()) + (if s.last() {
            1nat
        } else {
            0nat
        })
    }
}

/// A bit string's value is below two to its length.
pub proof fn lemma_value_of_bound(s: Seq<bool>)
    ensures
        value_of(s) < pow2(s.len()),
    decreases s.len(),
{
    if s.len() == 0 {
        assert(pow2(0) == 1) by {
            lemma2_to64();
        }
    } else {
        lemma_value_of_bound(s.drop_last());
        lemma_pow2_unfold(s.len());
    }
}

/// A byte buffer with a bit-granular head. The buffer holds exactly
/// `len_bits` live bits; the last byte is zero-padded past the end.
#[derive(Debug)]
pub struct BitArray {
    bytes: Vec<u8>,
    head: usize,
    len_bits: usize,
}

impl BitArray {
    /// Every bit the buffer holds, in order, independent of the head.
    pub closed spec fn all_bits(self) -> Seq<bool> {
        Seq::new(self.len_bits as nat, |i: int| bit_of_byte(self.bytes@[i / 8], i % 8))
    }

    /// The head: the index of the next bit to be consumed.
    pub closed spec fn cursor(self) -> int {
        self.head as int
    }

    /// The bits at and after the head: what remains to be consumed.
    pub open spec fn live(self) -> Seq<bool> {
        self.all_bits().skip(self.cursor())
    }

    /// Structural well-formedness: the head is inside the bit range, the
    /// buffer is exactly as long as the bits need, and padding bits are zero.
    pub closed spec fn inv(self) -> bool {
        &&& self.head <= self.len_bits
        &&& self.len_bits + 8 <= usize::MAX
        &&& self.bytes@.len() == (self.len_bits + 7) / 8
        &&& forall|bi: int, k: int|
            0 <= bi < self.bytes@.len() && 0 <= k < 8 && 8 * bi + k >= self.len_bits
                ==> !(#[trigger] bit_of_byte(self.bytes@[bi], k))
    }

    /// Builds a cursor over a byte buffer, with the head at the given bit
    /// offset, or at the start when none is given.
    pub fn new(bytes: Vec<u8>, head: Option<usize>) -> (r: BitArray)
        requires
            8 * bytes@.len() + 8 <= usize::MAX,
            head matches Some(h) ==> h <= 8 * bytes@.len(),
        ensures
            r.inv(),
            r.all_bits() == bits_of(bytes@),
            r.cursor() == (match head {
                Some(h) => h as int,
                None => 0int,
            }),
    {
        let n = bytes.len() * 8;
        let h = match head {
            Some(h) => h,
            None => 0,
        };
        let r = BitArray { bytes, head: h, len_bits: n };
        proof {
            assert(r.all_bits() =~= bits_of(r.bytes@));
        }
        r
    }

    /// Reads the bit at an absolute index.
    fn get_bit(&self, i: usize) -> (b: bool)
        requires
            self.inv(),
            i < self.all_bits().len(),
        ensures
            b == self.all_bits()[i as int],
    {
        let off: u8 = (7 - (i % 8)) as u8;
        (self.bytes[i / 8] >> off) & 1 == 1
    }

    /// Appends one bit after the last live bit.
    fn push_bit(&mut self, b: bool)
        requires
            old(self).inv(),
            old(self).all_bits().len() + 9 <= usize::MAX,
        ensures
            final(self).inv(),
            final(self).all_bits() == old(self).all_bits().push(b),
            final(self).cursor() == old(self).cursor(),
    {
        let ghost pre = *self;
        if self.len_bits % 8 == 0 {
            self.bytes.push(0);
            proof {
                lemma_zero_byte();
            }
        }
        let bi = self.len_bits / 8;
        let off: u8 = (self.len_bits % 8) as u8;
        let ghost mid = *self;
        proof {
            // The bit about to be written is currently clear: it lies in the
            // zero padding, or in the zero byte just pushed.
            assert(!bit_of_byte(mid.bytes@[bi as int], off as int));
        }
        if b {
            proof {
                lemma_set_bit(mid.bytes@[bi as int], off);
            }
            let v = self.bytes[bi] | (128u8 >> off);
            self.bytes[bi] = v;
        }
        self.len_bits = self.len_bits + 1;
        proof {
            assert(bit_of_byte(self.bytes@[bi as int], off as int) == b);
            assert forall|i: int| 0 <= i < self.len_bits implies self.all_bits()[i]
                == pre.all_bits().push(b)[i] by {
                assert(i == 8 * (i / 8) + i % 8);
                if i < pre.len_bits {
                    if i / 8 == bi {
                        assert(i % 8 < off);
                    }
                    assert(bit_of_byte(self.bytes@[i / 8], i % 8) == bit_of_byte(
                        pre.bytes@[i / 8],
                        i % 8,
                    ));
                }
            }
            assert(self.all_bits() =~= pre.all_bits().push(b));
            assert forall|bi2: int, k: int|
                0 <= bi2 < self.bytes@.len() && 0 <= k < 8 && 8 * bi2 + k
                    >= self.len_bits implies !(#[trigger] bit_of_byte(self.bytes@[bi2], k)) by {
                assert(!bit_of_byte(mid.bytes@[bi2], k));
            }
        }
    }

    /// How many live bits remain after the head.
    pub fn remaining(&self) -> (r: usize)
        requires
            self.inv(),
        ensures
            r == self.live().len(),
    {
        self.len_bits - self.head
    }

    /// How many bits the buffer holds in all, before and after the head.
    pub fn num_bits(&self) -> (r: usize)
        ensures
            r == self.all_bits().len(),
    {
        self.len_bits
    }

    /// The byte buffer itself: the live bits packed most significant bit
    /// first, the last byte zero-padded.
    pub fn bytes(&self) -> (r: &Vec<u8>)
        requires
            self.inv(),
        ensures
            r@.len() == (self.all_bits().len() + 7) / 8,
            forall|i: int|
                0 <= i < self.all_bits().len() ==> #[trigger] self.all_bits()[i] == bit_of_byte(
                    r@[i / 8],
                    i % 8,
                ),
            forall|bi: int, k: int|
                0 <= bi < r@.len() && 0 <= k < 8 && 8 * bi + k >= self.all_bits().len()
                    ==> !(#[trigger] bit_of_byte(r@[bi], k)),
    {
        &self.bytes
    }

    /// Removes the next `n` bits and returns them as a fresh cursor, or
    /// nothing when fewer than `n` bits remain, leaving the head unmoved.
    pub fn eat(&mut self, n: usize) -> (r: Option<BitArray>)
        requires
            old(self).inv(),
        ensures
            final(self).inv(),
            final(self).all_bits() == old(self).all_bits(),
            match r {
                Some(out) => {
                    &&& n <= old(self).live().len()
                    &&& out.inv()
                    &&& out.cursor() == 0
                    &&& out.all_bits() == old(self).live().take(n as int)
                    &&& final(self).cursor() == old(self).cursor() + n
                },
                None => {
                    &&& old(self).live().len() < n
                    &&& final(self).cursor() == old(self).cursor()
                },
            },
    {
        if self.len_bits - self.head < n {
            return None;
        }
        let mut out = BitArray { bytes: Vec::new(), head: 0, len_bits: 0 };
        proof {
            assert(out.all_bits() =~= Seq::<bool>::empty());
            assert(out.all_bits() =~= self.live().take(0));
        }
        let mut j: usize = 0;
        while j < n
            invariant
                self.inv(),
                out.inv(),
                out.cursor() == 0,
                j <= n,
                n <= self.live().len(),
                out.all_bits() =~= self.live().take(j as int),
            decreases n - j,
        {
            let bit = self.get_bit(self.head + j);
            out.push_bit(bit);
            proof {
                assert(self.live().take(j + 1) =~= self.live().take(j as int).push(
                    self.live()[j as int],
                ));
            }
            j = j + 1;
        }
        self.head = self.head + n;
        Some(out)
    }

    /// Interprets the next `n` bits as an unsigned integer, most
    /// significant bit first, without moving the head.
    pub fn peek(&self, n: usize) -> (r: u64)
        requires
            self.inv(),
            n <= 64,
            n <= self.live().len(),
        ensures
            r == value_of(self.live().take(n as int)),
    {
        let mut acc: u64 = 0;
        let mut j: usize = 0;
        while j < n
            invariant
                self.inv(),
                j <= n,
                n <= 64,
                n <= self.live().len(),
                acc == value_of(self.live().take(j as int)),
            decreases n - j,
        {
            proof {
                lemma_value_of_bound(self.live().take(j as int));
                lemma_pow2_unfold((j + 1) as nat);
                if j + 1 < 64 {
                    lemma_pow2_strictly_increases((j + 1) as nat, 64);
                }
                lemma2_to64();
                assert(2 * value_of(self.live().take(j as int)) + 1 < pow2((j + 1) as nat));
                assert(self.live().take(j + 1).drop_last() =~= self.live().take(j as int));
            }
            let bit = self.get_bit(self.head + j);
            acc = acc * 2 + (if bit {
                1
            } else {
                0
            });
            j = j + 1;
        }
        acc
    }

    /// Appends another cursor's live bits after this buffer's last bit.
    pub fn extend(&mut self, other: &BitArray)
        requires
            old(self).inv(),
            other.inv(),
            old(self).all_bits().len() + other.live().len() + 9 <= usize::MAX,
        ensures
            final(self).inv(),
            final(self).all_bits() == old(self).all_bits() + other.live(),
            final(self).cursor() == old(self).cursor(),
    {
        let ghost pre = *self;
        let m = other.remaining();
        let mut j: usize = 0;
        while j < m
            invariant
                self.inv(),
                other.inv(),
                j <= m,
                m == other.live().len(),
                pre.all_bits().len() + m + 9 <= usize::MAX,
                self.cursor() == pre.cursor(),
                self.all_bits() =~= pre.all_bits() + other.live().take(j as int),
            decreases m - j,
        {
            let bit = other.get_bit(other.head + j);
            self.push_bit(bit);
            proof {
                assert(other.live().take(j + 1) =~= other.live().take(j as int).push(
                    other.live()[j as int],
                ));
                assert(self.all_bits() =~= pre.all_bits() + other.live().take(j + 1));
            }
            j = j + 1;
        }
        proof {
            assert(other.live().take(m as int) =~= other.live());
            assert(self.all_bits() =~= pre.all_bits() + other.live());
        }
    }

    /// Moves this head forward to agree with a cursor that was derived
    /// from this one by consuming bits.
    pub fn advance_to_match(&mut self, other: &BitArray)
        requires
            old(self).inv(),
            other.inv(),
            old(self).all_bits() == other.all_bits(),
            old(self).cursor() <= other.cursor(),
        ensures
            final(self).inv(),
            final(self).all_bits() == old(self).all_bits(),
            final(self).cursor() == other.cursor(),
    {
        proof {
            assert(old(self).all_bits().len() == old(self).len_bits as nat);
            assert(other.all_bits().len() == other.len_bits as nat);
            assert(old(self).all_bits().len() == other.all_bits().len());
            assert(old(self).len_bits == other.len_bits);
        }
        self.head = other.head;
        proof {
            assert(self.all_bits() =~= old(self).all_bits());
        }
    }
}

impl Clone for BitArray {
    /// An independent cursor over the same bits with the same head.
    fn clone(&self) -> (r: Self)
        ensures
            r.all_bits() == self.all_bits(),
            r.cursor() == self.cursor(),
            self.inv() ==> r.inv(),
    {
        let bytes = self.bytes.clone();
        proof {
            assert(bytes@ =~= self.bytes@);
            assert(BitArray { bytes, head: self.head, len_bits: self.len_bits }.all_bits()
                =~= self.all_bits());
        }
        BitArray { bytes, head: self.head, len_bits: self.len_bits }
    }
}

/// Shifting zero right leaves no bit set.
proof fn lemma_zero_byte()
    by (bit_vector)
    ensures
        forall|k: u8| ((0u8 >> k) & 1) != 1,
{
}

/// Or-ing in a single-bit mask sets that bit and leaves the others alone.
proof fn lemma_set_bit(x: u8, o: u8)
    by (bit_vector)
    requires
        o < 8,
    ensures
        ((x | (128u8 >> o)) >> ((7 - o) as u8)) & 1 == 1,
        forall|k: u8|
            k < 8 && k != o ==> (#[trigger] (((x | (128u8 >> o)) >> ((7 - k) as u8)) & 1)) == ((x
                >> ((7 - k) as u8)) & 1),
{
}

} // verus!
