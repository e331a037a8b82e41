use bytecount::{
    chunk_count, chunk_num_chars, count, naive_count, naive_count_32, naive_num_chars, num_chars,
    BasicSum, ByteChunk, SumU8s, U8x16, U8x32, U8x64, Word,
};
use rand::rngs::StdRng;
use rand::{RngCore, SeedableRng};

fn seeded_bytes(len: usize, seed: u64) -> Vec<u8> {
    let mut result = vec![0; len];
    StdRng::seed_from_u64(seed).fill_bytes(&mut result);
    result
}

#[test]
fn counts_spaces_in_text() {
    let s = b"This is a Text with spaces";
    assert_eq!(count(s, b' '), 5);
    assert_eq!(naive_count(s, b' '), 5);
    assert_eq!(count(b"Hello, this is the bytecount crate!", b' '), 5);
}

#[test]
fn counts_code_points() {
    assert_eq!(num_chars("メカジキ".as_bytes()), 4);
    let sequence = "Wenn ich ein Vöglein wär, flög ich zu Dir!";
    assert_eq!(num_chars(sequence.as_bytes()), sequence.chars().count());
    assert_eq!(num_chars(sequence.as_bytes()), 42);
    assert_eq!(naive_num_chars(sequence.as_bytes()), 42);
}

#[test]
fn empty_haystack_counts_nothing() {
    let empty: [u8; 0] = [];
    for b in 0..=255u8 {
        assert_eq!(count(&empty, b), 0);
        assert_eq!(naive_count(&empty, b), 0);
        assert_eq!(naive_count_32(&empty, b), 0);
    }
    assert_eq!(num_chars(&empty), 0);
    assert_eq!(naive_num_chars(&empty), 0);
}

#[test]
fn large_uniform_buffer_counts_exactly() {
    let buf = vec![0u8; 10_000_000];
    assert_eq!(count(&buf, 0), 10_000_000);
    assert_eq!(count(&buf, 1), 0);
    assert_eq!(num_chars(&buf), 10_000_000);
}

#[test]
fn unaligned_tail_across_every_width() {
    let mut buf = vec![0u8; 16];
    buf.push(68);
    assert_eq!(count(&buf, 68), 1);
    assert_eq!(chunk_count::<Word>(&buf, 68), 1);
    assert_eq!(chunk_count::<U8x16>(&buf, 68), 1);
    assert_eq!(chunk_count::<U8x32>(&buf, 68), 1);
    assert_eq!(chunk_count::<U8x64>(&buf, 68), 1);
    assert_eq!(chunk_count::<Word>(&buf, 0), 16);
    assert_eq!(chunk_count::<U8x16>(&buf, 0), 16);
}

#[test]
fn every_width_agrees_on_random_buffer() {
    let buf = seeded_bytes(70_001, 7);
    for needle in 0..=255u8 {
        let expected = naive_count(&buf, needle);
        assert_eq!(chunk_count::<Word>(&buf, needle), expected);
        assert_eq!(chunk_count::<U8x16>(&buf, needle), expected);
        assert_eq!(chunk_count::<U8x32>(&buf, needle), expected);
        assert_eq!(chunk_count::<U8x64>(&buf, needle), expected);
    }
    let expected = naive_num_chars(&buf);
    assert_eq!(chunk_num_chars::<Word>(&buf), expected);
    assert_eq!(chunk_num_chars::<U8x16>(&buf), expected);
    assert_eq!(chunk_num_chars::<U8x32>(&buf), expected);
    assert_eq!(chunk_num_chars::<U8x64>(&buf), expected);
}

#[test]
fn random_lengths_match_naive() {
    for len in 0..600usize {
        let buf = seeded_bytes(len, len as u64);
        let needle = if len == 0 { 0 } else { buf[len / 2] };
        assert_eq!(count(&buf, needle), naive_count(&buf, needle));
        assert_eq!(num_chars(&buf), naive_num_chars(&buf));
        assert!(count(&buf, needle) <= len);
        assert!(num_chars(&buf) <= len);
    }
}

#[test]
fn batch_boundaries_of_every_width() {
    // Just below, at and just above a full batch of 255 lanes.
    for width in [8usize, 16, 32, 64] {
        for len in [width * 255 - 1, width * 255, width * 255 + 1, width * 510 + 3] {
            let buf = vec![b'a'; len];
            assert_eq!(chunk_count::<Word>(&buf, b'a'), len);
            assert_eq!(chunk_count::<U8x16>(&buf, b'a'), len);
            assert_eq!(chunk_count::<U8x32>(&buf, b'a'), len);
            assert_eq!(chunk_count::<U8x64>(&buf, b'a'), len);
            assert_eq!(chunk_num_chars::<U8x64>(&buf), len);
        }
    }
}

#[test]
fn continuation_bytes_are_not_counted() {
    let buf = vec![0x80u8; 1000];
    assert_eq!(num_chars(&buf), 0);
    let buf = vec![0xBFu8; 1000];
    assert_eq!(num_chars(&buf), 0);
    let buf = vec![0xC0u8; 1000];
    assert_eq!(num_chars(&buf), 1000);
    let buf = vec![0x7Fu8; 1000];
    assert_eq!(num_chars(&buf), 1000);
    let buf: Vec<u8> = (0..=255u8).cycle().take(2560).collect();
    assert_eq!(num_chars(&buf), 1920);
    assert_eq!(count(&buf, 200), 10);
}

#[test]
fn calling_twice_gives_the_same_result() {
    let buf = seeded_bytes(5_000, 11);
    assert_eq!(count(&buf, 42), count(&buf, 42));
    assert_eq!(num_chars(&buf), num_chars(&buf));
    assert_eq!(naive_count(&buf, 42), naive_count(&buf, 42));
    assert_eq!(naive_num_chars(&buf), naive_num_chars(&buf));
}

#[test]
fn naive_count_32_matches_naive_count() {
    let buf = seeded_bytes(3_000, 3);
    for needle in [0u8, 1, 77, 255] {
        assert_eq!(naive_count_32(&buf, needle), naive_count(&buf, needle));
    }
}

#[test]
fn lane_load_and_sum() {
    let bytes: Vec<u8> = (1..=64u8).collect();
    let (lane, next) = U8x64::load(&bytes, 0).unwrap();
    assert_eq!(next, 64);
    assert_eq!(lane.sum(), 64 * 65 / 2);
    assert_eq!(BasicSum::sum_x64(&lane), 64 * 65 / 2);
    let (half, next) = U8x32::load(&bytes, 32).unwrap();
    assert_eq!(next, 64);
    assert_eq!(half.sum(), (33..=64usize).sum::<usize>());
    assert_eq!(BasicSum::sum_x32(&half), (33..=64usize).sum::<usize>());
    assert!(U8x32::load(&bytes, 33).is_none());
    let mut out = Vec::new();
    half.store(&mut out);
    assert_eq!(out, bytes[32..].to_vec());
}

#[test]
fn word_lane_masks_and_accumulates() {
    let bytes = [5u8, 9, 5, 5, 0, 0x80, 5, 1];
    let (w, _) = Word::load(&bytes, 0).unwrap();
    let hits = w.hits(&bytecount::Probe::Byte(5));
    let mut out = Vec::new();
    hits.store(&mut out);
    assert_eq!(out, vec![1, 0, 1, 1, 0, 0, 1, 0]);
    let twice = hits.accumulate(&hits);
    assert_eq!(twice.sum(), 8);
    let lead = w.hits(&bytecount::Probe::Leading);
    assert_eq!(lead.sum(), 7);
    assert_eq!(Word::zero().sum(), 0);
}
