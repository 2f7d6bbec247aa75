//! Vocabulary loading: line splitting, trimming, ids and round trips.

use maskedlm::vocab::Vocabulary;

#[test]
fn parse_assigns_line_indices() {
    let v = Vocabulary::parse("alpha\nbeta\ngamma");
    assert_eq!(v.len(), 3);
    assert_eq!(v.token_at(0), Some("alpha".to_string()));
    assert_eq!(v.token_at(1), Some("beta".to_string()));
    assert_eq!(v.token_at(2), Some("gamma".to_string()));
    assert_eq!(v.token_at(3), None);
}

#[test]
fn parse_trims_surrounding_whitespace() {
    let v = Vocabulary::parse("alpha \t\nbeta\r\n  gamma");
    assert_eq!(v.token_at(0), Some("alpha".to_string()));
    assert_eq!(v.token_at(1), Some("beta".to_string()));
    assert_eq!(v.token_at(2), Some("gamma".to_string()));
}

#[test]
fn parse_final_line_ending_is_optional() {
    let with_newline = Vocabulary::parse("a\nb\n");
    let without = Vocabulary::parse("a\nb");
    assert_eq!(with_newline.len(), 2);
    assert_eq!(without.len(), 2);
}

#[test]
fn parse_keeps_line_indices_across_empty_lines() {
    let v = Vocabulary::parse("a\n\nb");
    assert_eq!(v.len(), 3);
    assert_eq!(v.token_at(1), Some(String::new()));
    assert_eq!(v.token_at(2), Some("b".to_string()));
}

#[test]
fn active_len_counts_the_token_bearing_prefix() {
    let trailing = Vocabulary::parse("a\nb\n\n  \n");
    assert_eq!(trailing.active_len(), (2, true));
    let gap = Vocabulary::parse("a\n\nb");
    assert_eq!(gap.active_len(), (1, false));
    let empty = Vocabulary::parse("");
    assert_eq!(empty.active_len(), (0, true));
}

#[test]
fn prefix_distinct_ignores_trailing_empty_lines() {
    let v = Vocabulary::parse("a\nb\n\n\n");
    let (k, no_gap) = v.active_len();
    assert!(no_gap);
    assert!(v.prefix_distinct(k));
    assert!(!v.all_distinct());
}

#[test]
fn parse_empty_text_is_empty_vocabulary() {
    let v = Vocabulary::parse("");
    assert_eq!(v.len(), 0);
}

#[test]
fn id_of_finds_first_match() {
    let v = Vocabulary::parse("x\ny\nz");
    assert_eq!(v.id_of(&"y".to_string()), Some(1));
    assert_eq!(v.id_of(&"missing".to_string()), None);
}

#[test]
fn id_to_text_to_id_round_trip() {
    let v = Vocabulary::parse("[UNK]\nhello\nworld\n##ing");
    for id in 0..v.len() {
        let token = v.token_at(id).unwrap();
        assert_eq!(v.id_of(&token), Some(id));
    }
}

#[test]
fn distinct_detects_duplicates() {
    let ok = Vocabulary::parse("a\nb\nc");
    assert!(ok.all_distinct());
    let dup = Vocabulary::parse("a\nb\na");
    assert!(!dup.all_distinct());
}
