//! Substitution and argmax behaviour on synthetic values.

use maskedlm::scores::argmax;
use maskedlm::text::{find_first, replace_first, substitute_words};

fn chars(s: &str) -> Vec<char> {
    s.chars().collect()
}

fn string(v: &[char]) -> String {
    v.iter().collect()
}

/// Order-preserving integer key for a finite float score.
fn key(x: f32) -> i64 {
    let u = x.to_bits();
    let v = if u & 0x8000_0000 != 0 {
        !u
    } else {
        u | 0x8000_0000
    };
    v as i64
}

#[test]
fn argmax_picks_single_maximum() {
    let row = vec![3i64, 9, 4, 1];
    assert_eq!(argmax(&row), 1);
}

#[test]
fn argmax_tie_breaks_to_lowest_index() {
    let row: Vec<i64> = [0.5f32, 0.9, 0.9, 0.1].iter().map(|&x| key(x)).collect();
    assert_eq!(argmax(&row), 1);
}

#[test]
fn argmax_single_element_row() {
    let row = vec![-7i64];
    assert_eq!(argmax(&row), 0);
}

#[test]
fn argmax_on_negative_scores() {
    let row: Vec<i64> = [-2.5f32, -0.25, -1.0].iter().map(|&x| key(x)).collect();
    assert_eq!(argmax(&row), 1);
}

#[test]
fn find_first_reports_leftmost() {
    let text = chars("aXbXc");
    let pat = chars("X");
    assert_eq!(find_first(&text, &pat), Some(1));
}

#[test]
fn find_first_absent_pattern() {
    let text = chars("hello");
    let pat = chars("xyz");
    assert_eq!(find_first(&text, &pat), None);
}

#[test]
fn replace_first_consumes_only_one() {
    let text = chars("a [M] b [M]");
    let pat = chars("[M]");
    let w = chars("x");
    let (out, hit) = replace_first(&text, &pat, &w);
    assert!(hit);
    assert_eq!(string(&out), "a x b [M]");
}

#[test]
fn replace_first_without_occurrence_is_identity() {
    let text = chars("plain text");
    let pat = chars("[M]");
    let w = chars("x");
    let (out, hit) = replace_first(&text, &pat, &w);
    assert!(!hit);
    assert_eq!(string(&out), "plain text");
}

#[test]
fn substitute_words_left_to_right() {
    let text = chars("[M] eats [M]");
    let pat = chars("[M]");
    let words = vec![chars("cat"), chars("fish")];
    let (out, hits) = substitute_words(&text, &pat, &words);
    assert_eq!(hits, 2);
    assert_eq!(string(&out), "cat eats fish");
}

#[test]
fn substitute_words_with_more_words_than_markers() {
    let text = chars("only [M] here");
    let pat = chars("[M]");
    let words = vec![chars("one"), chars("two")];
    let (out, hits) = substitute_words(&text, &pat, &words);
    assert_eq!(hits, 1);
    assert_eq!(string(&out), "only one here");
}

#[test]
fn substitute_words_rescans_from_the_start() {
    // each word consumes the first occurrence remaining in the whole text,
    // so a substituted word that itself holds the marker is seen next
    let text = chars("[M] and [M]");
    let pat = chars("[M]");
    let words = vec![chars("[M]x"), chars("y")];
    let (out, hits) = substitute_words(&text, &pat, &words);
    assert_eq!(hits, 2);
    assert_eq!(string(&out), "yx and [M]");
}

#[test]
fn substitute_words_empty_text() {
    let text = chars("");
    let pat = chars("[M]");
    let words = vec![chars("w")];
    let (out, hits) = substitute_words(&text, &pat, &words);
    assert_eq!(hits, 0);
    assert_eq!(string(&out), "");
}
