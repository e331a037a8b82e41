//! The chunked counting engine: whole lanes are tested and accumulated
//! byte-wise, in batches short enough that no byte of an accumulator can
//! overflow; the bytes after the last whole lane are counted one at a time.

use vstd::prelude::*;

verus! {

use crate::model::{Probe, tally, occurrences, leading_bytes, lemma_tally_bound, lemma_tally_split};
use crate::chunk::{ByteChunk, U8x32, byte_sum, hit_mask, lanewise_sum};
use crate::naive::{naive_tally, naive_count, naive_num_chars};

/// The most lanes added into one accumulator before it is reduced. Each
/// addition raises a byte of it by at most one, so no byte exceeds `255`.
pub const BATCH: usize = 255;

/// Inputs shorter than this are counted one byte at a time.
pub const MIN_CHUNKED_LEN: usize = 32;

/// The byte sum of a hit mask is the tally of the bytes it was made from.
proof fn lemma_mask_sum(s: Seq<u8>, probe: Probe)
    ensures
        byte_sum(hit_mask(s, probe)) == tally(s, probe),
    decreases s.len(),
{
    if s.len() > 0 {
        assert(hit_mask(s, probe).drop_last() =~= hit_mask(s.drop_last(), probe));
        lemma_mask_sum(s.drop_last(), probe);
    }
}

/// Adding byte-wise without overflow adds the byte sums.
proof fn lemma_lanewise_sum(a: Seq<u8>, b: Seq<u8>)
    requires
        a.len() == b.len(),
        forall|k: int| 0 <= k < a.len() ==> #[trigger] a[k] + b[k] <= 255,
    ensures
        byte_sum(lanewise_sum(a, b)) == byte_sum(a) + byte_sum(b),
    decreases a.len(),
{
    if a.len() > 0 {
        assert(lanewise_sum(a, b).drop_last() =~= lanewise_sum(a.drop_last(), b.drop_last()));
        lemma_lanewise_sum(a.drop_last(), b.drop_last());
    }
}

/// Counts the bytes of `h` that pass `probe`, a lane of type `L` at a time.
///
/// Whole lanes run from the start of `h`; fewer than one lane's worth of
/// bytes is left after them and is counted by `naive_tally`.
pub fn chunk_tally<L: ByteChunk>(h: &[u8], probe: &Probe) -> (r: usize)
    ensures
        r == tally(h@, *probe),
{
    proof {
        L::lemma_width();
    }
    let mut offset: usize = 0;
    let mut total: usize = 0;
    loop
        invariant_except_break
            L::width() > 0,
            offset <= h@.len(),
            total == tally(h@.subrange(0, offset as int), *probe),
        ensures
            offset <= h@.len(),
            total == tally(h@.subrange(0, offset as int), *probe),
        decreases h@.len() - offset,
    {
        let batch_start = offset;
        let mut acc = L::zero();
        let mut n: usize = 0;
        let mut exhausted = false;
        proof {
            acc.lemma_len();
            lemma_zero_sum(acc.bytes());
            assert(h@.subrange(batch_start as int, offset as int) =~= Seq::<u8>::empty());
        }
        while n < BATCH && !exhausted
            invariant
                batch_start <= offset <= h@.len(),
                L::width() > 0,
                n <= BATCH,
                offset >= batch_start + n,
                acc.bytes().len() == L::width(),
                forall|k: int| 0 <= k < L::width() ==> #[trigger] acc.bytes()[k] <= n,
                byte_sum(acc.bytes()) == tally(
                    h@.subrange(batch_start as int, offset as int),
                    *probe,
                ),
            decreases BATCH - n + if exhausted {
                0int
            } else {
                1int
            },
        {
            match L::load(h, offset) {
                Some((c, next)) => {
                    let m = c.hits(probe);
                    proof {
                        c.lemma_len();
                        m.lemma_len();
                        assert forall|k: int| 0 <= k < L::width() implies #[trigger] acc.bytes()[k]
                            + m.bytes()[k] <= 255 by {
                            assert(m.bytes()[k] <= 1);
                        }
                        lemma_lanewise_sum(acc.bytes(), m.bytes());
                        lemma_mask_sum(c.bytes(), *probe);
                        lemma_tally_split(
                            h@,
                            batch_start as int,
                            offset as int,
                            next as int,
                            *probe,
                        );
                    }
                    acc = acc.accumulate(&m);
                    proof {
                        acc.lemma_len();
                    }
                    offset = next;
                    n = n + 1;
                },
                None => {
                    exhausted = true;
                },
            }
        }
        proof {
            lemma_tally_bound(h@.subrange(batch_start as int, offset as int), *probe);
            lemma_tally_bound(h@.subrange(0, batch_start as int), *probe);
            lemma_tally_split(h@, 0, batch_start as int, offset as int, *probe);
        }
        total = total + acc.sum();
        if exhausted {
            break;
        }
    }
    let rest = naive_tally(h, offset, probe);
    let len = h.len();
    proof {
        lemma_tally_split(h@, 0, offset as int, h@.len() as int, *probe);
        lemma_tally_bound(h@, *probe);
        assert(h@.subrange(0, h@.len() as int) =~= h@);
    }
    total + rest
}

/// Counts the occurrences of `needle` in `haystack`, a lane of type `L` at
/// a time. Every lane type gives the same result.
pub fn chunk_count<L: ByteChunk>(haystack: &[u8], needle: u8) -> (r: usize)
    ensures
        r == occurrences(haystack@, needle),
        r <= haystack@.len(),
{
    proof {
        lemma_tally_bound(haystack@, Probe::Byte(needle));
    }
    chunk_tally::<L>(haystack, &Probe::Byte(needle))
}

/// Counts the UTF-8 leading bytes of `utf8_chars`, a lane of type `L` at a
/// time. Every lane type gives the same result.
pub fn chunk_num_chars<L: ByteChunk>(utf8_chars: &[u8]) -> (r: usize)
    ensures
        r == leading_bytes(utf8_chars@),
        r <= utf8_chars@.len(),
{
    proof {
        lemma_tally_bound(utf8_chars@, Probe::Leading);
    }
    chunk_tally::<L>(utf8_chars, &Probe::Leading)
}

/// Counts the occurrences of `needle` in `haystack`, fast.
///
/// The result is that of `naive_count` on every input.
pub fn count(haystack: &[u8], needle: u8) -> (r: usize)
    ensures
        r == occurrences(haystack@, needle),
        r <= haystack@.len(),
{
    if haystack.len() < MIN_CHUNKED_LEN {
        naive_count(haystack, needle)
    } else {
        chunk_count::<U8x32>(haystack, needle)
    }
}

/// Counts the UTF-8 encoded code points in `utf8_chars`, fast: the bytes
/// that do not match `10xxxxxx`.
///
/// Any bytes are accepted; the result is only meaningful for well-formed
/// UTF-8. It is that of `naive_num_chars` on every input.
pub fn num_chars(utf8_chars: &[u8]) -> (r: usize)
    ensures
        r == leading_bytes(utf8_chars@),
        r <= utf8_chars@.len(),
{
    if utf8_chars.len() < MIN_CHUNKED_LEN {
        naive_num_chars(utf8_chars)
    } else {
        chunk_num_chars::<U8x32>(utf8_chars)
    }
}

/// A lane of zero bytes sums to zero.
proof fn lemma_zero_sum(s: Seq<u8>)
    requires
        forall|k: int| 0 <= k < s.len() ==> #[trigger] s[k] == 0,
    ensures
        byte_sum(s) == 0,
    decreases s.len(),
{
    if s.len() > 0 {
        lemma_zero_sum(s.drop_last());
    }
}

} // verus!
