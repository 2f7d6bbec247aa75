//! The pipeline end to end, with the real tokenizer library and stub score
//! matrices standing in for the network.

use maskedlm::pipeline::{MaskedLm, PredictError};

const VOCAB: &str = "[UNK]\nthe\ncapital\nof\nfrance\nis\nparis\nrust\nbest\nprogramming\nlanguage";

const VOCAB_LEN: usize = 11;

fn pipeline() -> MaskedLm {
    MaskedLm::new(VOCAB).unwrap()
}

/// A score matrix of `rows` rows over the whole vocabulary, flat except for
/// one peak id per requested row.
fn stub_scores(rows: usize, peaks: &[(usize, usize)]) -> Vec<Vec<i64>> {
    let mut scores = vec![vec![0i64; VOCAB_LEN]; rows];
    for &(row, id) in peaks {
        scores[row][id] = 50;
    }
    scores
}

#[test]
fn duplicate_vocabulary_is_rejected_at_assembly() {
    let r = MaskedLm::new("a\nb\na");
    assert!(matches!(r, Err(PredictError::MalformedVocabulary)));
}

#[test]
fn id_gap_is_rejected_at_assembly() {
    // an empty line before a token-bearing one would leave id 1 unassigned
    let r = MaskedLm::new("a\n\nb");
    assert!(matches!(r, Err(PredictError::MalformedVocabulary)));
}

#[test]
fn trailing_empty_lines_are_tolerated() {
    let lm = MaskedLm::new("[UNK]\nhello\n\n\n").unwrap();
    let e = lm.encode("hello").unwrap();
    // [CLS] hello [SEP], with "hello" at id 1
    assert_eq!(e.ids[1], 1);
}

#[test]
fn encode_brackets_with_boundary_markers() {
    let lm = pipeline();
    let e = lm.encode("the capital").unwrap();
    assert_eq!(e.raw.tokens.first().map(|s| s.as_str()), Some("[CLS]"));
    assert_eq!(e.raw.tokens.last().map(|s| s.as_str()), Some("[SEP]"));
    assert_eq!(e.raw.tokens.len(), 4);
    assert_eq!(e.ids.len(), 4);
    assert_eq!(e.attention.len(), 4);
    assert_eq!(e.type_ids.len(), 4);
    assert!(e.mask_positions.is_empty());
}

#[test]
fn encode_widens_ids_and_marks_attention() {
    let lm = pipeline();
    let e = lm.encode("capital of france").unwrap();
    // [CLS] capital of france [SEP]
    assert_eq!(e.ids[1], 2);
    assert_eq!(e.ids[2], 3);
    assert_eq!(e.ids[3], 4);
    assert!(e.attention.iter().all(|&a| a == 1));
    assert!(e.type_ids.iter().all(|&t| t == 0));
}

#[test]
fn encode_locates_mask_positions_in_order() {
    let lm = pipeline();
    let e = lm.encode("[MASK] is [MASK]").unwrap();
    // [CLS] [MASK] is [MASK] [SEP]
    assert_eq!(e.mask_positions, vec![1, 3]);
}

#[test]
fn no_mask_returns_input_unchanged() {
    let lm = pipeline();
    let text = "the capital of france is paris.";
    let e = lm.encode(text).unwrap();
    let scores = stub_scores(e.seq_len(), &[]);
    let out = lm.apply(text, &e.mask_positions, &scores).unwrap();
    assert_eq!(out, text);
}

#[test]
fn empty_input_round_trips_without_failure() {
    let lm = pipeline();
    let e = lm.encode("").unwrap();
    // only the boundary markers remain, and no prediction happens
    assert_eq!(e.raw.tokens.len(), 2);
    let scores = stub_scores(e.seq_len(), &[]);
    let out = lm.apply("", &e.mask_positions, &scores).unwrap();
    assert_eq!(out, "");
}

#[test]
fn single_mask_is_filled_from_its_score_row() {
    let lm = pipeline();
    let text = "the capital of france is [MASK].";
    let e = lm.encode(text).unwrap();
    assert_eq!(e.mask_positions.len(), 1);
    let mask_row = e.mask_positions[0];
    let scores = stub_scores(e.seq_len(), &[(mask_row, 6)]);  // peak at "paris"
    let out = lm.apply(text, &e.mask_positions, &scores).unwrap();
    assert_eq!(out, "the capital of france is paris.");
    assert!(!out.contains("[MASK]"));
}

#[test]
fn two_masks_are_filled_independently_in_order() {
    let lm = pipeline();
    let text = "[MASK] is the best programming [MASK].";
    let e = lm.encode(text).unwrap();
    assert_eq!(e.mask_positions.len(), 2);
    let scores = stub_scores(
        e.seq_len(),
        &[(e.mask_positions[0], 7), (e.mask_positions[1], 10)],  // "rust", "language"
    );
    let out = lm.apply(text, &e.mask_positions, &scores).unwrap();
    assert_eq!(out, "rust is the best programming language.");
    assert!(!out.contains("[MASK]"));
}

#[test]
fn argmax_tie_in_a_score_row_prefers_lowest_id() {
    let lm = pipeline();
    let text = "[MASK]";
    let e = lm.encode(text).unwrap();
    let mask_row = e.mask_positions[0];
    // two equal peaks: "capital" (id 2) and "france" (id 4); the lower id wins
    let scores = stub_scores(e.seq_len(), &[(mask_row, 2), (mask_row, 4)]);
    let out = lm.apply(text, &e.mask_positions, &scores).unwrap();
    assert_eq!(out, "capital");
}

#[test]
fn missing_score_row_fails_the_whole_request() {
    let lm = pipeline();
    let text = "[MASK]";
    let e = lm.encode(text).unwrap();
    // too few rows: the masked position has no row
    let scores = stub_scores(1, &[]);
    let r = lm.apply(text, &e.mask_positions, &scores);
    assert!(matches!(r, Err(PredictError::InvalidScores)));
}

#[test]
fn empty_score_row_fails_the_whole_request() {
    let lm = pipeline();
    let text = "[MASK]";
    let e = lm.encode(text).unwrap();
    let mut scores = stub_scores(e.seq_len(), &[]);
    scores[e.mask_positions[0]] = Vec::new();
    let r = lm.apply(text, &e.mask_positions, &scores);
    assert!(matches!(r, Err(PredictError::InvalidScores)));
}

#[test]
fn unknown_words_fall_back_to_the_unknown_token() {
    let lm = pipeline();
    let e = lm.encode("zebra").unwrap();
    // [CLS] [UNK] [SEP]
    assert_eq!(e.ids[1], 0);
}
