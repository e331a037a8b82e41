//! The linear reference counters: one byte at a time.

use vstd::prelude::*;

verus! {

use crate::model::{Probe, tally, occurrences, leading_bytes, lemma_tally_bound, lemma_tally_step};

/// Counts the bytes of `h[from..]` that pass `probe`, one at a time.
pub fn naive_tally(h: &[u8], from: usize, probe: &Probe) -> (r: usize)
    requires
        from <= h@.len(),
    ensures
        r == tally(h@.subrange(from as int, h@.len() as int), *probe),
{
    let ghost s = h@.subrange(from as int, h@.len() as int);
    let mut r: usize = 0;
    let mut i: usize = from;
    while i < h.len()
        invariant
            from <= i <= h@.len(),
            s == h@.subrange(from as int, h@.len() as int),
            r == tally(s.subrange(0, i - from), *probe),
        decreases h@.len() - i,
    {
        proof {
            lemma_tally_step(s, i - from, *probe);
            lemma_tally_bound(s.subrange(0, i - from), *probe);
        }
        if probe.test(h[i]) {
            r = r + 1;
        }
        i = i + 1;
    }
    assert(s.subrange(0, i - from) =~= s);
    r
}

/// Counts the occurrences of `needle` in `haystack` with a plain scan.
pub fn naive_count(haystack: &[u8], needle: u8) -> (r: usize)
    ensures
        r == occurrences(haystack@, needle),
        r <= haystack@.len(),
{
    assert(haystack@.subrange(0, haystack@.len() as int) =~= haystack@);
    proof {
        lemma_tally_bound(haystack@, Probe::Byte(needle));
    }
    naive_tally(haystack, 0, &Probe::Byte(needle))
}

/// Counts the occurrences of `needle` in `haystack` with a 32-bit counter.
///
/// The counter wraps: the result is the true count modulo 2^32, which is
/// the true count whenever that fits in 32 bits.
pub fn naive_count_32(haystack: &[u8], needle: u8) -> (r: usize)
    ensures
        r == occurrences(haystack@, needle) % 0x1_0000_0000,
        occurrences(haystack@, needle) < 0x1_0000_0000 ==> r == occurrences(haystack@, needle),
{
    let probe = Probe::Byte(needle);
    let mut c: u32 = 0;
    let mut i: usize = 0;
    while i < haystack.len()
        invariant
            i <= haystack@.len(),
            probe == Probe::Byte(needle),
            c == tally(haystack@.subrange(0, i as int), probe) % 0x1_0000_0000,
        decreases haystack@.len() - i,
    {
        proof {
            lemma_tally_step(haystack@, i as int, probe);
        }
        if haystack[i] == needle {
            c = c.wrapping_add(1);
        }
        i = i + 1;
    }
    assert(haystack@.subrange(0, i as int) =~= haystack@);
    c as usize
}

/// Counts the UTF-8 leading bytes of `utf8_chars` with a plain scan.
pub fn naive_num_chars(utf8_chars: &[u8]) -> (r: usize)
    ensures
        r == leading_bytes(utf8_chars@),
        r <= utf8_chars@.len(),
{
    assert(utf8_chars@.subrange(0, utf8_chars@.len() as int) =~= utf8_chars@);
    proof {
        lemma_tally_bound(utf8_chars@, Probe::Leading);
    }
    naive_tally(utf8_chars, 0, &Probe::Leading)
}

} // verus!
