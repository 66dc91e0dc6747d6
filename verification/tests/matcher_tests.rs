fn matches(text: &str) -> bool {
    mention_tracker::matcher::matches(text)
}

#[test]
fn keyword_alone_matches() {
    assert!(matches("rust"));
}

#[test]
fn capitalized_matches() {
    assert!(matches("Rust"));
}

#[test]
fn all_caps_matches() {
    assert!(matches("RUST"));
}

#[test]
fn mixed_case_matches() {
    assert!(matches("RuSt"));
}

#[test]
fn keyword_in_sentence_matches() {
    assert!(matches("I love rust!"));
}

#[test]
fn keyword_mid_sentence_matches() {
    assert!(matches("ferris the rust crab"));
}

#[test]
fn punctuation_is_a_boundary() {
    assert!(matches("rust-lang is great"));
    assert!(matches("(rust)"));
    assert!(matches("rust."));
}

#[test]
fn trust_does_not_match() {
    assert!(!matches("trust"));
}

#[test]
fn rusty_does_not_match() {
    assert!(!matches("rusty"));
}

#[test]
fn embedded_keyword_does_not_match() {
    assert!(!matches("trusty"));
    assert!(!matches("crustacean"));
}

#[test]
fn digits_and_underscore_are_word_chars() {
    assert!(!matches("rust4"));
    assert!(!matches("4rust"));
    assert!(!matches("_rust"));
    assert!(!matches("rust_"));
}

#[test]
fn empty_and_short_texts_do_not_match() {
    assert!(!matches(""));
    assert!(!matches("rus"));
    assert!(!matches("r"));
}

#[test]
fn unrelated_text_does_not_match() {
    assert!(!matches("hello world"));
}

#[test]
fn characters_outside_ascii_are_boundaries() {
    // Word characters are ASCII-only: a letter outside ASCII borders the
    // keyword the same way punctuation does.
    assert!(matches("rust\u{e9}"));
    assert!(matches("caf\u{e9} rust"));
}

#[test]
fn trust_next_to_rust_still_matches() {
    assert!(matches("trust rust"));
}
