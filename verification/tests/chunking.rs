use langextract_rust::chunking::{
    ChunkingConfig, ChunkingError, ChunkingStrategy, TextChunk, TextChunker,
};
use langextract_rust::data::CharInterval;
use langextract_rust::text::to_chars;
use langextract_rust::tokenizer::{check_tiling, Token, TokenKind, Tokenizer};

fn chunker(max_chunk_size: usize, overlap_size: usize, strategy: ChunkingStrategy) -> TextChunker {
    TextChunker::with_config(ChunkingConfig { max_chunk_size, overlap_size, strategy })
}

fn texts(chunks: &Vec<TextChunk>) -> Vec<String> {
    chunks.iter().map(|c| c.text.clone()).collect()
}

fn stitch(chunks: &Vec<TextChunk>) -> String {
    let mut out = String::new();
    for c in chunks {
        let skip = match c.overlap_info {
            Some(shared) => shared.end_pos - shared.start_pos,
            None => 0,
        };
        out.extend(c.text.chars().skip(skip));
    }
    out
}

fn sample() -> String {
    let mut text = String::new();
    for i in 0..40 {
        text.push_str(&format!("Sentence number {} is here. ", i));
        if i % 7 == 0 {
            text.push_str("\n\n## Heading\n\n");
        }
    }
    text
}

#[test]
fn tokenizer_cuts_words_spaces_and_marks() {
    let tokenized = Tokenizer::new().tokenize("Hi, you.");
    assert_eq!(
        tokenized.tokens,
        vec![
            Token { start: 0, end: 2, kind: TokenKind::Word },
            Token { start: 2, end: 3, kind: TokenKind::Punctuation },
            Token { start: 3, end: 4, kind: TokenKind::Space },
            Token { start: 4, end: 7, kind: TokenKind::Word },
            Token { start: 7, end: 8, kind: TokenKind::Punctuation },
        ]
    );
    assert_eq!(tokenized.chars, to_chars("Hi, you."));
    assert!(Tokenizer::new().tokenize("").tokens.is_empty());
    let marks = Tokenizer::new().tokenize("!!  a");
    assert_eq!(marks.tokens.len(), 4);
    assert_eq!(marks.tokens[2], Token { start: 2, end: 4, kind: TokenKind::Space });
}

#[test]
fn tiling_is_checked() {
    let word = |start, end| Token { start, end, kind: TokenKind::Word };
    assert!(check_tiling(&vec![word(0, 2), word(2, 5)], 5));
    assert!(check_tiling(&vec![], 0));
    assert!(!check_tiling(&vec![], 3));
    assert!(!check_tiling(&vec![word(0, 2)], 0));
    assert!(!check_tiling(&vec![word(0, 2), word(3, 5)], 5));
    assert!(!check_tiling(&vec![word(0, 3), word(2, 5)], 5));
    assert!(!check_tiling(&vec![word(1, 5)], 5));
    assert!(!check_tiling(&vec![word(0, 4)], 5));
    assert!(!check_tiling(&vec![word(0, 0), word(0, 5)], 5));
}

#[test]
fn fixed_size_chunks_take_what_fits() {
    let chunks = chunker(4, 0, ChunkingStrategy::FixedSize).chunk_text("aa bb cc dd", None).unwrap();
    assert_eq!(texts(&chunks), vec!["aa ", "bb ", "cc ", "dd"]);
    let offsets: Vec<usize> = chunks.iter().map(|c| c.char_offset).collect();
    assert_eq!(offsets, vec![0, 3, 6, 9]);
    let lengths: Vec<usize> = chunks.iter().map(|c| c.char_length).collect();
    assert_eq!(lengths, vec![3, 3, 3, 2]);
    let ids: Vec<usize> = chunks.iter().map(|c| c.id).collect();
    assert_eq!(ids, vec![0, 1, 2, 3]);
    for c in &chunks {
        assert!(!c.has_overlap);
        assert_eq!(c.overlap_info, None);
        assert_eq!(c.document_id, None);
    }
    assert_eq!((chunks[1].first_token, chunks[1].end_token), (2, 4));
}

#[test]
fn a_token_longer_than_the_limit_is_a_chunk_of_its_own() {
    let chunks = chunker(1, 0, ChunkingStrategy::FixedSize).chunk_text("aa bb", None).unwrap();
    assert_eq!(texts(&chunks), vec!["aa", " ", "bb"]);
    let chunks = chunker(3, 0, ChunkingStrategy::Semantic).chunk_text("abcdefgh i", None).unwrap();
    assert_eq!(texts(&chunks), vec!["abcdefgh", " i"]);
}

#[test]
fn semantic_chunks_end_at_sentence_ends() {
    let chunks =
        chunker(12, 0, ChunkingStrategy::Semantic).chunk_text("One. Two three. Four", None).unwrap();
    assert_eq!(texts(&chunks), vec!["One.", " Two three.", " Four"]);
    let fixed =
        chunker(12, 0, ChunkingStrategy::FixedSize).chunk_text("One. Two three. Four", None).unwrap();
    assert_eq!(texts(&fixed), vec!["One. Two ", "three. Four"]);
}

#[test]
fn semantic_chunks_end_at_line_ends() {
    let chunks = chunker(8, 0, ChunkingStrategy::Semantic).chunk_text("ab cd\nef gh ij", None).unwrap();
    assert_eq!(texts(&chunks), vec!["ab cd\n", "ef gh ij"]);
}

#[test]
fn semantic_chunks_fall_back_to_what_fits() {
    let chunks = chunker(6, 0, ChunkingStrategy::Semantic).chunk_text("aa bb cc dd", None).unwrap();
    assert_eq!(texts(&chunks), vec!["aa bb ", "cc dd"]);
}

#[test]
fn a_point_inside_a_number_is_no_sentence_end() {
    let chunks = chunker(6, 0, ChunkingStrategy::Semantic).chunk_text("3.14 is pi", None).unwrap();
    assert_eq!(texts(&chunks), vec!["3.14 ", "is pi"]);
}

#[test]
fn overlapping_chunks_record_what_they_share() {
    let chunks = chunker(6, 3, ChunkingStrategy::FixedSize).chunk_text("aa bb cc dd", None).unwrap();
    assert_eq!(texts(&chunks), vec!["aa bb ", "bb cc ", "cc dd"]);
    assert_eq!(chunks[0].overlap_info, None);
    assert!(!chunks[0].has_overlap);
    assert_eq!(chunks[1].overlap_info, Some(CharInterval { start_pos: 3, end_pos: 6 }));
    assert!(chunks[1].has_overlap);
    assert_eq!(chunks[2].overlap_info, Some(CharInterval { start_pos: 6, end_pos: 9 }));
    assert_eq!(chunks[2].char_offset, 6);
    assert_eq!(stitch(&chunks), "aa bb cc dd");
}

#[test]
fn no_limit_or_no_text_gives_no_chunks() {
    assert!(chunker(0, 0, ChunkingStrategy::FixedSize).chunk_text("some text", None).unwrap().is_empty());
    assert!(chunker(0, 5, ChunkingStrategy::Semantic).chunk_text("some text", None).unwrap().is_empty());
    assert!(chunker(10, 0, ChunkingStrategy::FixedSize).chunk_text("", None).unwrap().is_empty());
    assert!(TextChunker::new().chunk_text("", None).unwrap().is_empty());
}

#[test]
fn a_text_within_the_limit_is_one_chunk() {
    let chunks = TextChunker::new().chunk_text("Short text. Really.", Some("doc-1".to_string())).unwrap();
    assert_eq!(texts(&chunks), vec!["Short text. Really."]);
    assert_eq!(chunks[0].document_id, Some("doc-1".to_string()));
    assert_eq!(chunks[0].char_offset, 0);
    assert_eq!(chunks[0].char_length, 19);
}

#[test]
fn tokens_that_do_not_tile_are_refused() {
    let text = to_chars("abcde");
    let tokens = vec![Token { start: 0, end: 2, kind: TokenKind::Word }];
    let result = chunker(10, 0, ChunkingStrategy::FixedSize).chunk_tokens(&text, &tokens, None);
    assert_eq!(result.err(), Some(ChunkingError::InvalidTokens));
    let result = chunker(0, 0, ChunkingStrategy::FixedSize).chunk_tokens(&text, &tokens, None);
    assert_eq!(result.err(), Some(ChunkingError::InvalidTokens));
}

#[test]
fn foreign_tokens_are_respected() {
    let text = to_chars("abcdef");
    let word = |start, end| Token { start, end, kind: TokenKind::Word };
    let tokens = vec![word(0, 4), word(4, 5), word(5, 6)];
    let chunks = chunker(3, 0, ChunkingStrategy::FixedSize).chunk_tokens(&text, &tokens, None).unwrap();
    assert_eq!(texts(&chunks), vec!["abcd", "ef"]);
}

#[test]
fn chunks_cover_the_document() {
    let text = sample();
    for strategy in [ChunkingStrategy::FixedSize, ChunkingStrategy::Semantic] {
        for max in [1usize, 2, 5, 17, 64, 200, 5000] {
            for overlap in [0usize, 1, 3, 10, 50] {
                let chunks = chunker(max, overlap, strategy).chunk_text(&text, None).unwrap();
                assert_eq!(stitch(&chunks), text);
                assert_eq!(chunks[0].char_offset, 0);
                let last = chunks.last().unwrap();
                assert_eq!(last.char_offset + last.char_length, text.chars().count());
                for (k, c) in chunks.iter().enumerate() {
                    assert_eq!(c.id, k);
                    assert_eq!(c.text.chars().count(), c.char_length);
                    if k > 0 {
                        let before = &chunks[k - 1];
                        let end = before.char_offset + before.char_length;
                        assert!(c.char_offset <= end);
                        assert!(end < c.char_offset + c.char_length);
                        if c.char_offset < end {
                            assert_eq!(
                                c.overlap_info,
                                Some(CharInterval { start_pos: c.char_offset, end_pos: end })
                            );
                            assert!(end - c.char_offset <= overlap);
                        } else {
                            assert_eq!(c.overlap_info, None);
                        }
                    }
                }
            }
        }
    }
}

#[test]
fn chunks_never_cut_a_token() {
    let text = sample();
    let tokenized = Tokenizer::new().tokenize(&text);
    for strategy in [ChunkingStrategy::FixedSize, ChunkingStrategy::Semantic] {
        for max in [1usize, 3, 10, 100] {
            for overlap in [0usize, 4, 20] {
                let chunks = chunker(max, overlap, strategy)
                    .chunk_tokens(&tokenized.chars, &tokenized.tokens, None)
                    .unwrap();
                for c in &chunks {
                    let end = c.char_offset + c.char_length;
                    for t in &tokenized.tokens {
                        assert!(!(t.start < c.char_offset && c.char_offset < t.end));
                        assert!(!(t.start < end && end < t.end));
                    }
                    assert!(c.char_length <= max || c.end_token - c.first_token >= 1);
                }
            }
        }
    }
}

#[test]
fn default_chunker_settings() {
    let c = TextChunker::new();
    assert_eq!(c.config.max_chunk_size, 2000);
    assert_eq!(c.config.overlap_size, 0);
    assert_eq!(c.config.strategy, ChunkingStrategy::Semantic);
}
