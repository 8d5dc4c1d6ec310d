use rust_log_analyzer as rla;

use rla::extract::{score, Config};
use rla::index::{decode, encode, IdIter, Sanitized};
use rla::Index;

/// Encoding then decoding is the identity on bytes of the modeled alphabet.
#[test]
fn encode_decode_round_trip() {
    let input = "AZaz09 _Hello World 42";
    let encoded = encode(&Sanitized(input));
    assert_eq!(input.as_bytes().to_vec(), decode(&encoded));
}

/// Bytes outside the alphabet are dropped by the encoder.
#[test]
fn encode_drops_unmapped_bytes() {
    let a = encode(&Sanitized("a.b,c:d/e"));
    let b = encode(&Sanitized("abcde"));
    assert_eq!(a, b);
    assert_eq!(5, a.len());
}

/// Every encoded symbol is below 64.
#[test]
fn encode_stays_in_alphabet() {
    let encoded = encode(&Sanitized("The quick brown fox_0123456789!?"));
    assert!(encoded.iter().all(|&s| s < 64));
}

/// Fewer than five encoded symbols yield no windows and score zero.
#[test]
fn short_input_scores_zero() {
    let index = Index::new();
    let config = Config::default();
    assert_eq!(0, score(&config, &index, &Sanitized("abcd")));
    assert_eq!(0, score(&config, &index, &Sanitized("")));
    // Punctuation does not count toward the five symbols.
    assert_eq!(0, score(&config, &index, &Sanitized("a.b.c.d!")));
    assert!(index.scores(&Sanitized("abcd")).is_empty());

    let encoded = encode(&Sanitized("abcd"));
    let mut iter = IdIter::new(&encoded);
    assert_eq!(None, iter.next());
}

/// Exactly five encoded symbols yield one window, whose id weighs the
/// symbols positionally in base 64.
#[test]
fn one_window_id_is_positional() {
    let encoded = encode(&Sanitized("abcde"));
    assert_eq!(vec![0u8, 1, 2, 3, 4], encoded);
    let mut iter = IdIter::new(&encoded);
    let expected: u32 = 0 + 1 * 64 + 2 * 64 * 64 + 3 * 64 * 64 * 64 + 4 * 64 * 64 * 64 * 64;
    assert_eq!(Some(expected), iter.next());
    assert_eq!(None, iter.next());
}

/// Learning a line with multiplier `m` sets each of its window counts to
/// `m`, so each window then contributes `max(0, threshold - m)` to the
/// score.
#[test]
fn learn_then_score_contribution() {
    let mut index = Index::new();
    let line = Sanitized("abcdefgh");
    index.learn(&line, 7);
    let counts = index.scores(&line);
    // 8 encoded symbols -> 4 windows, all distinct.
    assert_eq!(vec![7u32, 7, 7, 7], counts);

    let config = Config::default();
    // Each window contributes 10 - 7 = 3.
    assert_eq!(12, score(&config, &index, &line));

    // Learned often enough, the line stops contributing at all.
    let mut index = Index::new();
    index.learn(&line, 11);
    assert_eq!(0, score(&config, &index, &line));
}

/// Counts accumulate over repeated learning and saturate instead of
/// wrapping.
#[test]
fn learn_accumulates_and_saturates() {
    let mut index = Index::new();
    let line = Sanitized("abcdefgh");
    index.learn(&line, 3);
    index.learn(&line, 4);
    assert_eq!(vec![7u32, 7, 7, 7], index.scores(&line));

    index.learn(&line, u32::MAX);
    assert_eq!(vec![u32::MAX; 4], index.scores(&line));
    index.learn(&line, 1);
    assert_eq!(vec![u32::MAX; 4], index.scores(&line));
}

/// A never-learned window reads as count zero.
#[test]
fn unknown_windows_count_zero() {
    let mut index = Index::new();
    index.learn(&Sanitized("abcdefgh"), 5);
    assert_eq!(vec![0u32; 4], index.scores(&Sanitized("ABCDEFGH")));
    assert_eq!(4, index.len());
}

/// A line with repeated windows counts each occurrence.
#[test]
fn repeated_windows_accumulate() {
    let mut index = Index::new();
    // "aaaaaa" has two windows, both "aaaaa" -> the same id twice.
    index.learn(&Sanitized("aaaaaa"), 1);
    assert_eq!(vec![2u32, 2], index.scores(&Sanitized("aaaaaa")));
    assert_eq!(1, index.len());
}

/// Symbols outside the alphabet decode to a placeholder.
#[test]
fn decode_out_of_alphabet_symbol() {
    assert_eq!(b"?".to_vec(), decode(&[200]));
    assert_eq!(b"a9 _".to_vec(), decode(&[0, 61, 62, 63]));
}
