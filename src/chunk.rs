//! The lane abstraction: a fixed-width group of haystack bytes that can be
//! tested and summed as one unit, and its implementations.

use vstd::prelude::*;

verus! {

use crate::model::Probe;
use crate::word::{byte_at, word_byte_sum, splat, bytewise_equal, is_leading_utf8_byte, sum_usize};

/// The sum of the bytes of `s`, as numbers.
pub open spec fn byte_sum(s: Seq<u8>) -> nat
    decreases s.len(),
{
    if s.len() == 0 {
        0
    } else {
        byte_sum(s.drop_last()) + s.last() as nat
    }
}

/// `1` where the byte of `s` passes `probe`, else `0`.
pub open spec fn hit_mask(s: Seq<u8>, probe: Probe) -> Seq<u8> {
    Seq::new(
        s.len(),
        |k: int|
            if probe.accepts(s[k]) {
                1u8
            } else {
                0u8
            },
    )
}

/// The byte-by-byte sum of `a` and `b`.
pub open spec fn lanewise_sum(a: Seq<u8>, b: Seq<u8>) -> Seq<u8> {
    Seq::new(a.len(), |k: int| (a[k] + b[k]) as u8)
}

/// The byte sum of a concatenation is the sum of the byte sums.
pub proof fn lemma_byte_sum_append(a: Seq<u8>, b: Seq<u8>)
    ensures
        byte_sum(a + b) == byte_sum(a) + byte_sum(b),
    decreases b.len(),
{
    if b.len() == 0 {
        assert(a + b =~= a);
    } else {
        assert((a + b).drop_last() =~= a + b.drop_last());
        lemma_byte_sum_append(a, b.drop_last());
    }
}

/// A lane: `width()` bytes of a haystack, with branchless per-byte tests
/// and an overflow-free byte-wise accumulator.
pub trait ByteChunk: Sized {
    /// The number of bytes in a lane.
    spec fn width() -> nat;

    /// The bytes held, in haystack order.
    spec fn bytes(&self) -> Seq<u8>;

    /// A lane holds at least one byte.
    proof fn lemma_width()
        ensures
            Self::width() > 0,
    ;

    /// Every lane holds exactly `width()` bytes.
    proof fn lemma_len(&self)
        ensures
            self.bytes().len() == Self::width(),
    ;

    /// The lane of zero bytes.
    fn zero() -> (r: Self)
        ensures
            r.bytes() == Seq::new(Self::width(), |k: int| 0u8),
    ;

    /// The lane at `h[offset..]`, with the offset just past it, when a whole
    /// lane remains there.
    fn load(h: &[u8], offset: usize) -> (r: Option<(Self, usize)>)
        requires
            offset <= h@.len(),
        ensures
            r is None <==> h@.len() < offset + Self::width(),
            r matches Some((c, next)) ==> next == offset + Self::width() && c.bytes() == h@.subrange(
                offset as int,
                next as int,
            ),
    ;

    /// The mask of bytes that pass `probe`: `1` where one does, else `0`.
    fn hits(&self, probe: &Probe) -> (r: Self)
        ensures
            r.bytes() == hit_mask(self.bytes(), *probe),
    ;

    /// The byte-wise sum, when no byte of it exceeds `255`.
    fn accumulate(&self, other: &Self) -> (r: Self)
        requires
            forall|k: int|
                0 <= k < Self::width() ==> #[trigger] self.bytes()[k] + other.bytes()[k] <= 255,
        ensures
            r.bytes() == lanewise_sum(self.bytes(), other.bytes()),
    ;

    /// The sum of all bytes of the lane.
    fn sum(&self) -> (r: usize)
        requires
            byte_sum(self.bytes()) <= usize::MAX,
        ensures
            r == byte_sum(self.bytes()),
    ;

    /// Appends the bytes of the lane to `out`.
    fn store(&self, out: &mut Vec<u8>)
        ensures
            final(out)@ == old(out)@ + self.bytes(),
    ;
}

/// Eight bytes packed little-endian into a machine word.
pub struct Word {
    bits: u64,
}

proof fn lemma_pack(b: u64, k: u64)
    by (bit_vector)
    requires
        b < 256,
        k < 8,
    ensures
        (((b << (8 * k)) as u64) >> (8 * k)) & 0xFF == b,
{
}

proof fn lemma_byte_add(a: u64, b: u64, k: u64)
    by (bit_vector)
    requires
        k < 8,
        byte_at(a, 0) + byte_at(b, 0) <= 255,
        byte_at(a, 1) + byte_at(b, 1) <= 255,
        byte_at(a, 2) + byte_at(b, 2) <= 255,
        byte_at(a, 3) + byte_at(b, 3) <= 255,
        byte_at(a, 4) + byte_at(b, 4) <= 255,
        byte_at(a, 5) + byte_at(b, 5) <= 255,
        byte_at(a, 6) + byte_at(b, 6) <= 255,
        byte_at(a, 7) + byte_at(b, 7) <= 255,
    ensures
        a + b <= 0xFFFF_FFFF_FFFF_FFFFu64,
        (((a + b) as u64) >> (8 * k)) & 0xFF == ((a >> (8 * k)) & 0xFF) + ((b >> (8 * k)) & 0xFF),
{
}

proof fn lemma_byte_bound(w: u64, k: u64)
    by (bit_vector)
    ensures
        (w >> (8 * k)) & 0xFF < 256,
{
}

proof fn lemma_leading_narrow(x: u64)
    by (bit_vector)
    requires
        x < 256,
    ensures
        ((x as u8) & 0xC0 != 0x80) == (x & 0xC0 != 0x80),
{
}

impl ByteChunk for Word {
    open spec fn width() -> nat {
        8
    }

    closed spec fn bytes(&self) -> Seq<u8> {
        Seq::new(8, |k: int| byte_at(self.bits, k as u64) as u8)
    }

    proof fn lemma_width() {
    }

    proof fn lemma_len(&self) {
    }

    fn zero() -> (r: Self) {
        let r = Word { bits: 0 };
        assert forall|k: int| 0 <= k < 8 implies #[trigger] r.bytes()[k] == 0u8 by {
            let kk = k as u64;
            assert(((0u64 >> (8 * kk)) & 0xFF) == 0) by (bit_vector);
        }
        assert(r.bytes() =~= Seq::new(8, |k: int| 0u8));
        r
    }

    fn load(h: &[u8], offset: usize) -> (r: Option<(Self, usize)>) {
        if h.len() - offset < 8 {
            return None;
        }
        let mut bits: u64 = 0;
        let mut i: usize = 0;
        assert forall|k: int| 0 <= k < 8 implies #[trigger] byte_at(bits, k as u64) == 0 by {
            let kk = k as u64;
            assert(((0u64 >> (8 * kk)) & 0xFF) == 0) by (bit_vector);
        }
        while i < 8
            invariant
                i <= 8,
                offset + 8 <= h@.len(),
                forall|k: int|
                    0 <= k < i ==> #[trigger] byte_at(bits, k as u64) == h@[offset + k] as u64,
                forall|k: int| i <= k < 8 ==> #[trigger] byte_at(bits, k as u64) == 0,
            decreases 8 - i,
        {
            let b = h[offset + i] as u64;
            let shifted = b << (8 * i as u64);
            proof {
                lemma_pack(b, i as u64);
                let ii = i as u64;
                let old_bits = bits;
                assert forall|k: int| 0 <= k < 8 implies #[trigger] byte_at(bits | shifted, k as u64)
                    == if k == i {
                    b
                } else {
                    byte_at(old_bits, k as u64)
                } by {
                    let kk = k as u64;
                    assert(byte_at(old_bits, ii) == 0 ==> ((old_bits | ((b << (8 * ii)) as u64)) >> (8
                        * kk)) & 0xFF == if kk == ii {
                        b
                    } else {
                        (old_bits >> (8 * kk)) & 0xFF
                    }) by (bit_vector)
                        requires
                            b < 256,
                            ii < 8,
                            kk < 8,
                    ;
                }
            }
            bits = bits | shifted;
            i = i + 1;
        }
        let c = Word { bits };
        assert(c.bytes() =~= h@.subrange(offset as int, offset + 8));
        Some((c, offset + 8))
    }

    fn hits(&self, probe: &Probe) -> (r: Self) {
        let r = match probe {
            Probe::Byte(n) => Word { bits: bytewise_equal(self.bits, splat(*n)) },
            Probe::Leading => Word { bits: is_leading_utf8_byte(self.bits) },
        };
        assert forall|k: int| 0 <= k < 8 implies #[trigger] r.bytes()[k] == hit_mask(
            self.bytes(),
            *probe,
        )[k] by {
            lemma_byte_bound(self.bits, k as u64);
            lemma_leading_narrow(byte_at(self.bits, k as u64));
        }
        assert(r.bytes() =~= hit_mask(self.bytes(), *probe));
        r
    }

    fn accumulate(&self, other: &Self) -> (r: Self) {
        proof {
            assert forall|k: u64| k < 8 implies #[trigger] byte_at(self.bits, k) + byte_at(
                other.bits,
                k,
            ) <= 255 by {
                lemma_byte_bound(self.bits, k);
                lemma_byte_bound(other.bits, k);
                assert(self.bytes()[k as int] + other.bytes()[k as int] <= 255);
            }
            assert(byte_at(self.bits, 0) + byte_at(other.bits, 0) <= 255);
            assert(byte_at(self.bits, 1) + byte_at(other.bits, 1) <= 255);
            assert(byte_at(self.bits, 2) + byte_at(other.bits, 2) <= 255);
            assert(byte_at(self.bits, 3) + byte_at(other.bits, 3) <= 255);
            assert(byte_at(self.bits, 4) + byte_at(other.bits, 4) <= 255);
            assert(byte_at(self.bits, 5) + byte_at(other.bits, 5) <= 255);
            assert(byte_at(self.bits, 6) + byte_at(other.bits, 6) <= 255);
            assert(byte_at(self.bits, 7) + byte_at(other.bits, 7) <= 255);
            lemma_byte_add(self.bits, other.bits, 0);
        }
        let r = Word { bits: self.bits + other.bits };
        assert forall|k: int| 0 <= k < 8 implies #[trigger] r.bytes()[k] == lanewise_sum(
            self.bytes(),
            other.bytes(),
        )[k] by {
            lemma_byte_add(self.bits, other.bits, k as u64);
            lemma_byte_bound(self.bits, k as u64);
            lemma_byte_bound(other.bits, k as u64);
        }
        assert(r.bytes() =~= lanewise_sum(self.bytes(), other.bytes()));
        r
    }

    fn sum(&self) -> (r: usize) {
        let s = sum_usize(self.bits);
        proof {
            let b = self.bytes();
            reveal_with_fuel(byte_sum, 9);
            assert forall|k: u64| k < 8 implies #[trigger] byte_at(self.bits, k) == b[k as int] by {
                lemma_byte_bound(self.bits, k);
            }
            assert(byte_at(self.bits, 0) == b[0]);
            assert(byte_at(self.bits, 1) == b[1]);
            assert(byte_at(self.bits, 2) == b[2]);
            assert(byte_at(self.bits, 3) == b[3]);
            assert(byte_at(self.bits, 4) == b[4]);
            assert(byte_at(self.bits, 5) == b[5]);
            assert(byte_at(self.bits, 6) == b[6]);
            assert(byte_at(self.bits, 7) == b[7]);
            assert(word_byte_sum(self.bits) == byte_sum(b));
        }
        s as usize
    }

    fn store(&self, out: &mut Vec<u8>) {
        let ghost start = out@;
        let mut k: u64 = 0;
        while k < 8
            invariant
                k <= 8,
                out@ == start + self.bytes().subrange(0, k as int),
            decreases 8 - k,
        {
            out.push(((self.bits >> (8 * k)) & 0xFF) as u8);
            assert(self.bytes().subrange(0, k + 1) =~= self.bytes().subrange(0, k as int).push(
                self.bytes()[k as int],
            ));
            k = k + 1;
        }
        assert(self.bytes().subrange(0, 8) =~= self.bytes());
    }
}

/// Two lanes side by side: a lane of twice the width.
pub struct Pair<L> {
    lo: L,
    hi: L,
}

/// Sixteen bytes.
pub type U8x16 = Pair<Word>;

/// Thirty-two bytes.
pub type U8x32 = Pair<U8x16>;

/// Sixty-four bytes.
pub type U8x64 = Pair<U8x32>;

impl<L: ByteChunk> ByteChunk for Pair<L> {
    open spec fn width() -> nat {
        2 * L::width()
    }

    closed spec fn bytes(&self) -> Seq<u8> {
        self.lo.bytes() + self.hi.bytes()
    }

    proof fn lemma_width() {
        L::lemma_width();
    }

    proof fn lemma_len(&self) {
        self.lo.lemma_len();
        self.hi.lemma_len();
    }

    fn zero() -> (r: Self) {
        let r = Pair { lo: L::zero(), hi: L::zero() };
        assert(r.bytes() =~= Seq::new(Self::width(), |k: int| 0u8));
        r
    }

    fn load(h: &[u8], offset: usize) -> (r: Option<(Self, usize)>) {
        match L::load(h, offset) {
            None => None,
            Some((lo, mid)) => match L::load(h, mid) {
                None => None,
                Some((hi, next)) => {
                    let c = Pair { lo, hi };
                    assert(c.bytes() =~= h@.subrange(offset as int, next as int));
                    Some((c, next))
                },
            },
        }
    }

    fn hits(&self, probe: &Probe) -> (r: Self) {
        let r = Pair { lo: self.lo.hits(probe), hi: self.hi.hits(probe) };
        assert(r.bytes() =~= hit_mask(self.bytes(), *probe));
        r
    }

    fn accumulate(&self, other: &Self) -> (r: Self) {
        proof {
            self.lo.lemma_len();
            self.hi.lemma_len();
            other.lo.lemma_len();
            other.hi.lemma_len();
            assert forall|k: int| 0 <= k < L::width() implies #[trigger] self.lo.bytes()[k]
                + other.lo.bytes()[k] <= 255 by {
                assert(self.bytes()[k] + other.bytes()[k] <= 255);
            }
            assert forall|k: int| 0 <= k < L::width() implies #[trigger] self.hi.bytes()[k]
                + other.hi.bytes()[k] <= 255 by {
                assert(self.bytes()[k + L::width()] + other.bytes()[k + L::width()] <= 255);
            }
        }
        let r = Pair { lo: self.lo.accumulate(&other.lo), hi: self.hi.accumulate(&other.hi) };
        assert(r.bytes() =~= lanewise_sum(self.bytes(), other.bytes()));
        r
    }

    fn sum(&self) -> (r: usize) {
        proof {
            lemma_byte_sum_append(self.lo.bytes(), self.hi.bytes());
        }
        self.lo.sum() + self.hi.sum()
    }

    fn store(&self, out: &mut Vec<u8>) {
        self.lo.store(out);
        self.hi.store(out);
        assert(out@ =~= old(out)@ + self.bytes());
    }
}

/// A way of reducing a 32- or 64-byte lane to the sum of its bytes.
pub trait SumU8s {
    /// The sum of the 64 bytes of `u8s`.
    fn sum_x64(u8s: &U8x64) -> (r: usize)
        ensures
            r == byte_sum(u8s.bytes()),
    ;

    /// The sum of the 32 bytes of `u8s`.
    fn sum_x32(u8s: &U8x32) -> (r: usize)
        ensures
            r == byte_sum(u8s.bytes()),
    ;
}

/// Reduces a lane by storing it and adding its bytes one at a time.
pub struct BasicSum;

/// The sum of the bytes of `s`, added one at a time.
fn sum_stored(s: &Vec<u8>) -> (r: usize)
    requires
        s@.len() <= 64,
    ensures
        r == byte_sum(s@),
{
    let mut total: usize = 0;
    let mut i: usize = 0;
    while i < s.len()
        invariant
            i <= s@.len() <= 64,
            total == byte_sum(s@.subrange(0, i as int)),
            total <= 255 * i,
        decreases s@.len() - i,
    {
        assert(s@.subrange(0, i + 1).drop_last() =~= s@.subrange(0, i as int));
        total = total + s[i] as usize;
        i = i + 1;
    }
    assert(s@.subrange(0, i as int) =~= s@);
    total
}

impl SumU8s for BasicSum {
    fn sum_x64(u8s: &U8x64) -> (r: usize) {
        let mut store: Vec<u8> = Vec::new();
        u8s.store(&mut store);
        proof {
            u8s.lemma_len();
        }
        sum_stored(&store)
    }

    fn sum_x32(u8s: &U8x32) -> (r: usize) {
        let mut store: Vec<u8> = Vec::new();
        u8s.store(&mut store);
        proof {
            u8s.lemma_len();
        }
        sum_stored(&store)
    }
}

} // verus!
