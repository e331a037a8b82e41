//! Count occurrences of a byte, or the number of UTF-8 code points, in a
//! byte slice, fast.
//!
//! `count` counts the bytes of a slice equal to a needle, and `num_chars`
//! counts the bytes that begin a UTF-8 code point. Both agree with the plain
//! linear scans `naive_count` and `naive_num_chars` on every input, valid
//! UTF-8 or not.

mod model;
mod naive;
mod word;
mod chunk;
mod chunked;

pub use model::{
    Probe, is_leading, tally, occurrences, leading_bytes, lemma_tally_bound, lemma_tally_append,
    lemma_prefix_monotonic, lemma_uniform_prefix,
};
pub use naive::{naive_count, naive_count_32, naive_num_chars, naive_tally};
pub use chunk::{ByteChunk, Word, Pair, U8x16, U8x32, U8x64, SumU8s, BasicSum, byte_sum, hit_mask, lanewise_sum};
pub use chunked::{count, num_chars, chunk_count, chunk_num_chars, chunk_tally};
