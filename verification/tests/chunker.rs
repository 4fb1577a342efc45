use jarvis::chunker::{chunk_text, chunk_text_accepts, chunk_text_checked, ChunkerConfig};

#[test]
fn empty_input_returns_no_chunks() {
    let cfg = ChunkerConfig::default();
    assert!(chunk_text("", &cfg).is_empty());
}

#[test]
fn short_text_becomes_single_chunk() {
    let cfg = ChunkerConfig {
        max_chars: 200,
        overlap_chars: 20,
    };
    let chunks = chunk_text("hello\nworld", &cfg);
    assert_eq!(chunks.len(), 1);
    assert_eq!(chunks[0].text, "hello\nworld");
    assert_eq!(chunks[0].loc, "L1-L2");
    assert_eq!(chunks[0].ord, 0);
}

#[test]
fn splits_when_exceeding_max_chars() {
    let cfg = ChunkerConfig {
        max_chars: 10,
        overlap_chars: 2,
    };
    let text = "aaaa\nbbbb\ncccc\ndddd";
    let chunks = chunk_text(text, &cfg);
    assert!(chunks.len() >= 2);
    for c in &chunks {
        assert!(c.text.len() <= 10);
        assert!(c.loc.starts_with('L'));
    }
}

#[test]
fn long_single_line_splits_with_overlap() {
    let cfg = ChunkerConfig {
        max_chars: 8,
        overlap_chars: 2,
    };
    let chunks = chunk_text("abcdefghijklmnop", &cfg);
    assert!(chunks.len() >= 2);
    assert_eq!(chunks[0].loc, "L1");
}

#[test]
fn long_line_pieces_are_exact_windows() {
    let cfg = ChunkerConfig {
        max_chars: 8,
        overlap_chars: 2,
    };
    let chunks = chunk_text("abcdefghijklmnop", &cfg);
    let texts: Vec<&str> = chunks.iter().map(|c| c.text.as_str()).collect();
    assert_eq!(texts, vec!["abcdefgh", "ghijklmn", "mnop"]);
    for (i, c) in chunks.iter().enumerate() {
        assert_eq!(c.ord, i as i64);
    }
}

#[test]
fn groups_lines_and_counts_words() {
    let cfg = ChunkerConfig {
        max_chars: 13,
        overlap_chars: 0,
    };
    let chunks = chunk_text("one two\nthree\r\nfour five six\n", &cfg);
    assert_eq!(chunks.len(), 2);
    assert_eq!(chunks[0].text, "one two\nthree");
    assert_eq!(chunks[0].loc, "L1-L2");
    assert_eq!(chunks[0].token_count, 3);
    assert_eq!(chunks[1].text, "four five six");
    assert_eq!(chunks[1].loc, "L3");
    assert_eq!(chunks[1].token_count, 3);
}

#[test]
fn whitespace_only_text_gives_no_chunk() {
    let cfg = ChunkerConfig::default();
    assert!(chunk_text("   \n\t\n", &cfg).is_empty());
}

#[test]
fn checked_chunking_refuses_cuts_inside_characters() {
    let wide = ChunkerConfig { max_chars: 4, overlap_chars: 80 };
    // After the first 4-byte piece the next one would start at byte 1, inside "é".
    assert_eq!(chunk_text_checked("ééé", &wide), None);
    assert!(!chunk_text_accepts("ééé", &wide));

    let exact = ChunkerConfig { max_chars: 4, overlap_chars: 0 };
    let pieces = chunk_text_checked("ééé", &exact).expect("cuts fall between characters");
    let texts: Vec<&str> = pieces.iter().map(|c| c.text.as_str()).collect();
    assert_eq!(texts, vec!["éé", "é"]);

    let config = ChunkerConfig::default();
    let text = "# Title\n\nSome body text.";
    assert_eq!(chunk_text_checked(text, &config), Some(chunk_text(text, &config)));
}
