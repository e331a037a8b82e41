//! The mathematical model: what a byte-counting call returns.

use vstd::prelude::*;

verus! {

/// The per-byte test that a counter applies.
#[derive(Clone, Copy, Debug, PartialEq, Eq, Structural)]
pub enum Probe {
    /// The byte equals the given needle.
    Byte(u8),
    /// The byte begins a UTF-8 code point: its top two bits are not `10`.
    Leading,
}

/// A UTF-8 leading byte: one that does not match `10xxxxxx`.
pub open spec fn is_leading(b: u8) -> bool {
    b & 0xC0 != 0x80
}

impl Probe {
    /// Whether the byte `b` passes this test.
    pub open spec fn accepts(self, b: u8) -> bool {
        match self {
            Probe::Byte(n) => b == n,
            Probe::Leading => is_leading(b),
        }
    }

    /// Executable form of `accepts`.
    pub fn test(&self, b: u8) -> (r: bool)
        ensures
            r == self.accepts(b),
    {
        match self {
            Probe::Byte(n) => b == *n,
            Probe::Leading => b & 0xC0 != 0x80,
        }
    }
}

/// The number of bytes of `s` that pass `probe`.
pub open spec fn tally(s: Seq<u8>, probe: Probe) -> nat
    decreases s.len(),
{
    if s.len() == 0 {
        0
    } else {
        tally(s.drop_last(), probe) + if probe.accepts(s.last()) {
            1nat
        } else {
            0nat
        }
    }
}

/// The number of bytes of `s` equal to `needle`.
pub open spec fn occurrences(s: Seq<u8>, needle: u8) -> nat {
    tally(s, Probe::Byte(needle))
}

/// The number of UTF-8 leading bytes of `s`.
pub open spec fn leading_bytes(s: Seq<u8>) -> nat {
    tally(s, Probe::Leading)
}

/// A tally never exceeds the number of bytes examined.
pub proof fn lemma_tally_bound(s: Seq<u8>, probe: Probe)
    ensures
        tally(s, probe) <= s.len(),
    decreases s.len(),
{
    if s.len() > 0 {
        lemma_tally_bound(s.drop_last(), probe);
    }
}

/// The tally of a concatenation is the sum of the tallies of its parts.
pub proof fn lemma_tally_append(a: Seq<u8>, b: Seq<u8>, probe: Probe)
    ensures
        tally(a + b, probe) == tally(a, probe) + tally(b, probe),
    decreases b.len(),
{
    if b.len() == 0 {
        assert(a + b =~= a);
    } else {
        assert((a + b).drop_last() =~= a + b.drop_last());
        lemma_tally_append(a, b.drop_last(), probe);
    }
}

/// Extending a prefix by one byte adds that byte's verdict to the tally.
pub proof fn lemma_tally_step(s: Seq<u8>, i: int, probe: Probe)
    requires
        0 <= i < s.len(),
    ensures
        tally(s.subrange(0, i + 1), probe) == tally(s.subrange(0, i), probe) + if probe.accepts(
            s[i],
        ) {
            1nat
        } else {
            0nat
        },
{
    assert(s.subrange(0, i + 1).drop_last() =~= s.subrange(0, i));
}

/// Splitting a range at `mid` splits its tally.
pub proof fn lemma_tally_split(s: Seq<u8>, lo: int, mid: int, hi: int, probe: Probe)
    requires
        0 <= lo <= mid <= hi <= s.len(),
    ensures
        tally(s.subrange(lo, hi), probe) == tally(s.subrange(lo, mid), probe) + tally(
            s.subrange(mid, hi),
            probe,
        ),
{
    assert(s.subrange(lo, hi) =~= s.subrange(lo, mid) + s.subrange(mid, hi));
    lemma_tally_append(s.subrange(lo, mid), s.subrange(mid, hi), probe);
}

/// Counting over a longer prefix never gives less: for `i <= j`, the tally
/// of `s[..i]` is at most that of `s[..j]`.
pub proof fn lemma_prefix_monotonic(s: Seq<u8>, i: int, j: int, probe: Probe)
    requires
        0 <= i <= j <= s.len(),
    ensures
        tally(s.subrange(0, i), probe) <= tally(s.subrange(0, j), probe),
{
    lemma_tally_split(s, 0, i, j, probe);
}

/// In a run of one repeated byte `b`, every prefix of length `i` holds `i`
/// occurrences of `b`, and, where `b` is a UTF-8 leading byte, `i` leading
/// bytes.
pub proof fn lemma_uniform_prefix(s: Seq<u8>, b: u8, i: int)
    requires
        forall|k: int| 0 <= k < s.len() ==> #[trigger] s[k] == b,
        0 <= i <= s.len(),
    ensures
        occurrences(s.subrange(0, i), b) == i,
        is_leading(b) ==> leading_bytes(s.subrange(0, i)) == i,
    decreases i,
{
    if i > 0 {
        lemma_uniform_prefix(s, b, i - 1);
        lemma_tally_step(s, i - 1, Probe::Byte(b));
        lemma_tally_step(s, i - 1, Probe::Leading);
    }
}

} // verus!
