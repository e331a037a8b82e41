//! Word-packed lanes: eight bytes of the haystack held in one `u64`, with
//! branchless bit tricks that test and sum all eight at once.

use vstd::prelude::*;

verus! {

/// `0x01` in every byte.
pub const LO: u64 = 0x0101_0101_0101_0101;

/// `0x80` in every byte.
pub const HI: u64 = 0x8080_8080_8080_8080;

/// `0x00FF` in every 16-bit pair of bytes.
pub const EVERY_OTHER_BYTE: u64 = 0x00FF_00FF_00FF_00FF;

/// `0x0001` in every 16-bit pair of bytes.
pub const EVERY_OTHER_BYTE_LO: u64 = 0x0001_0001_0001_0001;

/// Byte `k` of `w`, counting from the least significant.
pub open spec fn byte_at(w: u64, k: u64) -> u64 {
    (w >> (8 * k)) & 0xFF
}

/// The sum of the eight bytes of `w`.
pub open spec fn word_byte_sum(w: u64) -> int {
    byte_at(w, 0) + byte_at(w, 1) + byte_at(w, 2) + byte_at(w, 3) + byte_at(w, 4) + byte_at(w, 5)
        + byte_at(w, 6) + byte_at(w, 7)
}

proof fn lemma_splat(byte: u64, k: u64)
    by (bit_vector)
    requires
        byte < 256,
        k < 8,
    ensures
        byte * 0x0101_0101_0101_0101u64 <= 0xFFFF_FFFF_FFFF_FFFFu64,
        (((byte * 0x0101_0101_0101_0101u64) as u64) >> (8 * k)) & 0xFF == byte,
{
}

/// Replicates `byte` into every byte of a word.
pub fn splat(byte: u8) -> (r: u64)
    ensures
        forall|k: u64| k < 8 ==> #[trigger] byte_at(r, k) == byte as u64,
{
    proof {
        lemma_splat(byte as u64, 0);
    }
    let r = LO * (byte as u64);
    assert forall|k: u64| k < 8 implies #[trigger] byte_at(r, k) == byte as u64 by {
        lemma_splat(byte as u64, k);
    }
    r
}

proof fn lemma_bytewise_equal(lhs: u64, rhs: u64, k: u64)
    by (bit_vector)
    requires
        k < 8,
    ensures
        ((lhs ^ rhs) & !0x8080_8080_8080_8080u64) + !0x8080_8080_8080_8080u64
            <= 0xFFFF_FFFF_FFFF_FFFFu64,
        ((!((((((lhs ^ rhs) & !0x8080_8080_8080_8080u64) + !0x8080_8080_8080_8080u64) as u64)
            | (lhs ^ rhs)) >> 7) & 0x0101_0101_0101_0101u64) >> (8 * k)) & 0xFF == if (lhs >> (8 * k))
            & 0xFF == (rhs >> (8 * k)) & 0xFF {
            1u64
        } else {
            0u64
        },
{
}

/// Byte `k` of the result is `1` where bytes `k` of `lhs` and `rhs` are
/// equal, else `0`.
pub fn bytewise_equal(lhs: u64, rhs: u64) -> (r: u64)
    ensures
        forall|k: u64|
            k < 8 ==> #[trigger] byte_at(r, k) == if byte_at(lhs, k) == byte_at(rhs, k) {
                1u64
            } else {
                0u64
            },
{
    proof {
        lemma_bytewise_equal(lhs, rhs, 0);
    }
    let x = lhs ^ rhs;
    let r = !((((x & !HI) + !HI) | x) >> 7) & LO;
    assert forall|k: u64| k < 8 implies #[trigger] byte_at(r, k) == if byte_at(lhs, k) == byte_at(
        rhs,
        k,
    ) {
        1u64
    } else {
        0u64
    } by {
        lemma_bytewise_equal(lhs, rhs, k);
    }
    r
}

proof fn lemma_is_leading(v: u64, k: u64)
    by (bit_vector)
    requires
        k < 8,
    ensures
        ((((!v >> 7) | (v >> 6)) & 0x0101_0101_0101_0101u64) >> (8 * k)) & 0xFF == if ((v >> (8
            * k)) & 0xFF) & 0xC0 != 0x80 {
            1u64
        } else {
            0u64
        },
{
}

/// Byte `k` of the result is `1` where byte `k` of `values` begins a UTF-8
/// code point, else `0`.
pub fn is_leading_utf8_byte(values: u64) -> (r: u64)
    ensures
        forall|k: u64|
            k < 8 ==> #[trigger] byte_at(r, k) == if byte_at(values, k) & 0xC0 != 0x80 {
                1u64
            } else {
                0u64
            },
{
    // a leading UTF-8 byte is one which does not start with the bits 10.
    let r = ((!values >> 7) | (values >> 6)) & LO;
    assert forall|k: u64| k < 8 implies #[trigger] byte_at(r, k) == if byte_at(values, k) & 0xC0
        != 0x80 {
        1u64
    } else {
        0u64
    } by {
        lemma_is_leading(values, k);
    }
    r
}

proof fn lemma_pair_sum(v: u64)
    by (bit_vector)
    ensures
        (v & 0x00FF_00FF_00FF_00FFu64) + ((v >> 8) & 0x00FF_00FF_00FF_00FFu64)
            <= 0xFFFF_FFFF_FFFF_FFFFu64,
        ({
            let p = ((v & 0x00FF_00FF_00FF_00FFu64) + ((v >> 8) & 0x00FF_00FF_00FF_00FFu64)) as u64;
            &&& (p & 0xFFFF) == ((v >> 0) & 0xFF) + ((v >> 8) & 0xFF)
            &&& ((p >> 16) & 0xFFFF) == ((v >> 16) & 0xFF) + ((v >> 24) & 0xFF)
            &&& ((p >> 32) & 0xFFFF) == ((v >> 32) & 0xFF) + ((v >> 40) & 0xFF)
            &&& ((p >> 48) & 0xFFFF) == ((v >> 48) & 0xFF) + ((v >> 56) & 0xFF)
            &&& (p & 0xFFFF) <= 510
            &&& ((p >> 16) & 0xFFFF) <= 510
            &&& ((p >> 32) & 0xFFFF) <= 510
            &&& ((p >> 48) & 0xFFFF) <= 510
        }),
{
}

proof fn lemma_fold_pairs(p: u64)
    by (bit_vector)
    requires
        (p & 0xFFFF) <= 510,
        ((p >> 16) & 0xFFFF) <= 510,
        ((p >> 32) & 0xFFFF) <= 510,
        ((p >> 48) & 0xFFFF) <= 510,
    ensures
        ((p * 0x0001_0001_0001_0001u64) as u64) >> 48 == (p & 0xFFFF) + ((p >> 16) & 0xFFFF) + ((p
            >> 32) & 0xFFFF) + ((p >> 48) & 0xFFFF),
{
}

/// The sum of the eight bytes of `values`.
pub fn sum_usize(values: u64) -> (r: u64)
    ensures
        r == word_byte_sum(values),
{
    proof {
        lemma_pair_sum(values);
    }
    // Pairwise reduction to avoid overflow on next step.
    let pair_sum: u64 = (values & EVERY_OTHER_BYTE) + ((values >> 8) & EVERY_OTHER_BYTE);
    // Multiplication results in top two bytes holding sum.
    let r = pair_sum.wrapping_mul(EVERY_OTHER_BYTE_LO) >> 48;
    proof {
        lemma_fold_pairs(pair_sum);
    }
    assert(pair_sum.wrapping_mul(EVERY_OTHER_BYTE_LO) == (pair_sum * EVERY_OTHER_BYTE_LO) as u64)
        by (bit_vector);
    r
}

} // verus!
