use wordcount::count::count_bytes_blazing_speed;
use wordcount::count::count_bytes_with_carry;
use wordcount::counts::total_counts;
use wordcount::counts::WcCounts;
use wordcount::stitch::ChunkStitcher;

#[test]
fn test_count_bytes_blazing_speed() {
    let text = b"Hello world\nThis is a test\n";
    let counts = count_bytes_blazing_speed(text);

    assert_eq!(counts.lines, 2);
    assert_eq!(counts.words, 6);
    assert_eq!(counts.chars, 27);
}

#[test]
fn test_empty_bytes() {
    let counts = count_bytes_blazing_speed(&[]);
    assert_eq!(counts.lines, 0);
    assert_eq!(counts.words, 0);
    assert_eq!(counts.chars, 0);
}

#[test]
fn test_chunked_processing() {
    let large_text = "word ".repeat(1000);
    let counts = count_bytes_blazing_speed(large_text.as_bytes());
    assert_eq!(counts.words, 1000);
}

#[test]
fn test_whitespace_only() {
    let text = b" \t\n \n  \x1f ";
    let counts = count_bytes_blazing_speed(text);
    assert_eq!(counts.words, 0);
    assert_eq!(counts.lines, 2);
    assert_eq!(counts.chars, text.len());
}

#[test]
fn test_carry_suppresses_leading_word() {
    let (counts, carry_out) = count_bytes_with_carry(b"word more\n", true);
    assert_eq!(counts.words, 1);
    assert!(!carry_out);

    let (counts, carry_out) = count_bytes_with_carry(b"word more", false);
    assert_eq!(counts.words, 2);
    assert!(carry_out);
}

#[test]
fn test_stitcher_matches_whole_buffer() {
    let whole = b"Hello world\nThis is a test\n";
    let expected = count_bytes_blazing_speed(whole);

    // Split in the middle of words, so that every boundary correction fires.
    let mut stitcher = ChunkStitcher::new();
    stitcher.push_chunk(b"Hello wo");
    stitcher.push_chunk(b"rld\nThis is a te");
    stitcher.push_chunk(b"");
    stitcher.push_chunk(b"st\n");
    let stitched = stitcher.counts();

    assert_eq!(stitched.lines, expected.lines);
    assert_eq!(stitched.words, expected.words);
    assert_eq!(stitched.chars, expected.chars);
}

#[test]
fn test_stitcher_single_byte_chunks() {
    let whole = b"one two\t three\n\nfour";
    let expected = count_bytes_blazing_speed(whole);

    let mut stitcher = ChunkStitcher::new();
    for b in whole.iter() {
        stitcher.push_chunk(&[*b]);
    }
    let stitched = stitcher.counts();

    assert_eq!(stitched.lines, expected.lines);
    assert_eq!(stitched.words, expected.words);
    assert_eq!(stitched.chars, expected.chars);
}

#[test]
fn test_stitcher_straddling_word() {
    let mut stitcher = ChunkStitcher::new();
    stitcher.push_chunk(b"wo");
    stitcher.push_chunk(b"rd");
    assert_eq!(stitcher.counts().words, 1);
    assert_eq!(stitcher.bytes_seen(), 4);
}

#[test]
fn test_add_accumulates_fields() {
    let mut acc = WcCounts { lines: 1, words: 2, chars: 3 };
    let other = WcCounts { lines: 10, words: 20, chars: 30 };
    acc.add(&other);
    assert_eq!(acc, WcCounts { lines: 11, words: 22, chars: 33 });
}

#[test]
fn test_default_counts_are_zero() {
    let zero = WcCounts::default();
    assert_eq!(zero, WcCounts { lines: 0, words: 0, chars: 0 });
}

#[test]
fn test_total_is_fieldwise_sum() {
    let per_file = vec![
        WcCounts { lines: 1, words: 2, chars: 3 },
        WcCounts { lines: 0, words: 0, chars: 0 },
        WcCounts { lines: 40, words: 50, chars: 60 },
    ];
    let total = total_counts(&per_file).unwrap();
    assert_eq!(total, WcCounts { lines: 41, words: 52, chars: 63 });
}

#[test]
fn test_total_of_no_files_is_zero() {
    let total = total_counts(&Vec::new()).unwrap();
    assert_eq!(total, WcCounts { lines: 0, words: 0, chars: 0 });
}

#[test]
fn test_total_overflow_is_refused() {
    let per_file = vec![
        WcCounts { lines: usize::MAX, words: 0, chars: 0 },
        WcCounts { lines: 1, words: 0, chars: 0 },
    ];
    assert!(total_counts(&per_file).is_none());
}
