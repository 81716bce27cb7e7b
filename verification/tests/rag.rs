//! Tokenizing, chunking and ranking of retrieval-augmented generation.

use skadoosh::rag::chunks::{
    chunk_text, is_text_doc, load_documents, pack_words, split_paragraphs, walk_step, WalkStep,
    MAX_CHUNK_CHARS,
};
use skadoosh::rag::store::{companion_vocab, pooling, rank, Pooling, RagStore};
use skadoosh::rag::tokenizer::{
    basic_tokenize, clean_text, is_punctuation, load_vocab, tokenize, tokens_of_lower, wordpiece,
    Vocab, MAX_INPUT_CHARS_PER_WORD,
};

fn vocab(pairs: &[(&str, i64)]) -> Vocab {
    let mut v = Vocab::new();
    for (k, id) in pairs {
        v.insert(k, *id);
    }
    v
}

#[test]
fn clean_text_replaces_whitespace_and_drops_controls() {
    assert_eq!(clean_text("a\tb\nc\r\nd"), "a b c d");
    assert_eq!(clean_text("a\u{0000}b"), "ab");
    assert_eq!(clean_text("a\u{FFFD}b"), "ab");
    // Non-breaking space and ideographic space are whitespace.
    assert_eq!(clean_text("a\u{00A0}b"), "a b");
}

#[test]
fn basic_tokenize_lowercases_and_splits_punctuation() {
    let toks = basic_tokenize("The CAT sat, on the mat.");
    assert_eq!(
        toks,
        vec!["the", "cat", "sat", ",", "on", "the", "mat", "."]
    );
}

#[test]
fn wordpiece_greedy_longest_match_and_unk() {
    let v = vocab(&[
        ("the", 1),
        ("cat", 2),
        ("##s", 3),
        ("play", 4),
        ("##ing", 5),
        ("[UNK]", 100),
    ]);
    assert_eq!(wordpiece("the", &v), vec![1]);
    assert_eq!(wordpiece("cats", &v), vec![2, 3]); // cat + ##s
    assert_eq!(wordpiece("playing", &v), vec![4, 5]); // play + ##ing
    assert_eq!(wordpiece("zzz", &v), vec![100]); // no match -> [UNK]
                                                 // Oversized word -> [UNK].
    let big = "x".repeat(MAX_INPUT_CHARS_PER_WORD + 1);
    assert_eq!(wordpiece(&big, &v), vec![100]);
}

#[test]
fn tokenize_pads_truncates_and_masks() {
    // Vocab reproduces real BERT ids for the probe sentence.
    let v = vocab(&[
        ("[PAD]", 0),
        ("[UNK]", 100),
        ("[CLS]", 101),
        ("[SEP]", 102),
        ("the", 1996),
        ("cat", 4937),
        ("sat", 2938),
        ("on", 2006),
        ("mat", 13523),
        (".", 1012),
    ]);
    let (ids, mask) = tokenize("The cat sat on the mat.", &v, 16);
    assert_eq!(ids.len(), 16);
    assert_eq!(mask.len(), 16);
    // [CLS] the cat sat on the mat . [SEP] then padding.
    assert_eq!(
        &ids[..9],
        &[101, 1996, 4937, 2938, 2006, 1996, 13523, 1012, 102]
    );
    assert_eq!(&mask[..9], &[1, 1, 1, 1, 1, 1, 1, 1, 1]);
    assert_eq!(&ids[9..], &[0, 0, 0, 0, 0, 0, 0]);
    assert_eq!(&mask[9..], &[0, 0, 0, 0, 0, 0, 0]);
}

#[test]
fn tokenize_truncates_to_max_seq_len() {
    let v = vocab(&[("[PAD]", 0), ("[UNK]", 100), ("[CLS]", 101), ("[SEP]", 102)]);
    // Every word -> [UNK]; only [CLS] [UNK] [SEP] fit (max_content = 2).
    let (ids, mask) = tokenize("one two three four", &v, 4);
    assert_eq!(ids, vec![101, 100, 102, 0]);
    assert_eq!(mask, vec![1, 1, 1, 0]);
}

#[test]
fn split_paragraphs_joins_wrapped_lines() {
    let ps = split_paragraphs("a\nb\n\nc\n\nd");
    assert_eq!(
        ps,
        vec!["a b".to_string(), "c".to_string(), "d".to_string()]
    );
    // Leading/trailing blank lines are ignored.
    assert_eq!(split_paragraphs("\n\nhi\n\n"), vec!["hi".to_string()]);
}

#[test]
fn chunk_text_caps_at_max_chars() {
    let para = (0..600).map(|_| "word").collect::<Vec<_>>().join(" ");
    let chunks = chunk_text(&para);
    assert!(chunks.iter().all(|c| c.chars().count() <= MAX_CHUNK_CHARS));
    assert!(chunks.len() > 1);
    // Every input word survives in exactly one chunk.
    assert_eq!(
        chunks.iter().flat_map(|c| c.split_whitespace()).count(),
        600
    );
}

#[test]
fn chunk_text_hard_splits_oversized_words() {
    let big = "a".repeat(MAX_CHUNK_CHARS * 2 + 7);
    let chunks = chunk_text(&big);
    assert!(chunks.iter().all(|c| c.chars().count() <= MAX_CHUNK_CHARS));
    assert_eq!(chunks.concat().chars().count(), big.chars().count());
}

#[test]
fn packing_keeps_words_whole() {
    assert_eq!(pack_words("one two three", 7), vec!["one two", "three"]);
    assert_eq!(pack_words("  a   b ", 10), vec!["a b"]);
    assert_eq!(pack_words("abcdefgh ij", 3), vec!["abc", "def", "gh", "ij"]);
    assert!(pack_words("   ", 3).is_empty());
}

#[test]
fn chunks_have_the_words_of_the_text() {
    let mut text = String::from(" head\r\n\r\n");
    for i in 0..400 {
        text.push_str(&format!("word{i}{}", if i % 7 == 0 { "\n" } else { "  " }));
        if i % 150 == 149 {
            text.push_str("\n\n");
        }
    }
    let chunks = chunk_text(&text);
    assert!(chunks.len() > 4);
    let words: Vec<&str> = chunks.iter().flat_map(|c| c.split_whitespace()).collect();
    assert_eq!(words, text.split_whitespace().collect::<Vec<_>>());
}

#[test]
fn short_paragraphs_are_chunks_of_their_own() {
    assert_eq!(chunk_text("one\n\ntwo\nthree"), vec!["one", "two three"]);
    assert!(chunk_text("").is_empty());
}

#[test]
fn unreadable_documents_are_skipped() {
    let docs = vec![Some("a\n\nb".to_string()), None, Some("c".to_string())];
    assert_eq!(load_documents(&docs), vec!["a", "b", "c"]);
}

#[test]
fn only_text_documents_are_read() {
    assert!(is_text_doc(Some("md")));
    assert!(is_text_doc(Some("TXT")));
    assert!(!is_text_doc(Some("pdf")));
    assert!(!is_text_doc(None));
    assert_eq!(walk_step(true, false, None), WalkStep::Descend);
    assert_eq!(walk_step(false, true, Some("md")), WalkStep::Collect);
    assert_eq!(walk_step(false, true, Some("png")), WalkStep::Skip);
}

#[test]
fn vocabularies_number_their_lines() {
    let v = load_vocab(b"[PAD]\nthe\ncat\r\n").unwrap();
    assert_eq!(v.get("[PAD]"), Some(0));
    assert_eq!(v.get("the"), Some(1));
    assert_eq!(v.get("cat"), Some(2));
    assert_eq!(v.get("dog"), None);
    assert!(load_vocab(&[0xff, 0xfe]).is_err());
}

#[test]
fn punctuation_covers_ascii_symbols() {
    assert!(is_punctuation(','));
    assert!(is_punctuation('$'));
    assert!(is_punctuation('~'));
    assert!(!is_punctuation('a'));
    assert!(!is_punctuation(' '));
}

#[test]
fn tokens_split_at_white_space_and_punctuation() {
    assert_eq!(
        tokens_of_lower("don't  stop"),
        vec!["don", "'", "t", "stop"]
    );
    assert!(tokens_of_lower(" \n ").is_empty());
}

#[test]
fn the_best_scores_come_first() {
    let scores: Vec<u32> = [0.1f32, 0.9, -0.5, 0.9]
        .iter()
        .map(|s| s.to_bits())
        .collect();
    assert_eq!(rank(&scores, 3), vec![1, 3, 0]);
    assert_eq!(rank(&scores, 9), vec![1, 3, 0, 2]);
    assert!(rank(&scores, 0).is_empty());
}

#[test]
fn searches_return_the_best_chunks() {
    let chunks = vec!["a".to_string(), "b".to_string(), "c".to_string()];
    let one: u32 = 1.0f32.to_bits();
    let store = RagStore::build(chunks, vec![vec![one], vec![one], vec![one]], 2);
    assert_eq!(store.len(), 3);
    assert!(!store.is_empty());
    assert_eq!(store.embeddings().len(), 3);
    let scores: Vec<u32> = [0.2f32, 0.1, 0.3].iter().map(|s| s.to_bits()).collect();
    assert_eq!(store.search(&scores, 2), vec!["c", "a"]);
    assert!(RagStore::new(2).is_empty());
}

#[test]
fn the_vocabulary_stands_beside_the_model() {
    assert_eq!(companion_vocab(Some("mini")), "mini-vocab.txt");
}

#[test]
fn pooling_follows_the_output_shape() {
    assert!(matches!(pooling(&vec![2, 384]), Pooling::Rows { dim: 384 }));
    assert!(matches!(pooling(&vec![2, 128, 384]), Pooling::Mean { dim: 384 }));
    assert!(matches!(pooling(&vec![2]), Pooling::Unexpected { rank: 1 }));
}
