use sol_li_ni::chunker::{Chunker, MAX_CHARS};

/// Feeds tokens the way a model emits them: fragments, spaces attached.
fn sentences(tokens: &[&str]) -> Vec<String> {
    let mut chunker = Chunker::default();
    let mut out: Vec<String> = tokens.iter().filter_map(|t| chunker.push(t)).collect();
    out.extend(chunker.flush());
    out
}

#[test]
fn a_sentence_is_emitted_as_soon_as_it_ends() {
    assert_eq!(
        sentences(&["Hello ", "there. ", "How ", "are ", "you?"]),
        ["Hello there.", "How are you?"]
    );
}

#[test]
fn a_decimal_point_does_not_split_a_sentence() {
    assert_eq!(sentences(&["It ", "is ", "3.", "5 ", "degrees."]), ["It is 3.5 degrees."]);
}

#[test]
fn a_long_ramble_is_flushed_before_it_gets_too_long() {
    let long = "word ".repeat(40);
    let out = sentences(&[&long]);
    assert!(!out.is_empty());
    assert!(out[0].len() >= MAX_CHARS - 5, "{}", out[0].len());
}

#[test]
fn trailing_text_without_punctuation_is_still_spoken() {
    assert_eq!(sentences(&["no ", "full ", "stop"]), ["no full stop"]);
}

#[test]
fn every_terminator_ends_a_sentence() {
    for end in [".", "!", "?", ":", ";"] {
        let mut chunker = Chunker::default();
        assert_eq!(chunker.push(&format!("Well{end} ")), Some(format!("Well{end}")));
        assert_eq!(chunker.push(&format!("Well{end}\n")), Some(format!("Well{end}")));
        assert_eq!(chunker.push(&format!("Well{end}")), None);
        // An empty token settles what came before.
        assert_eq!(chunker.push(""), Some(format!("Well{end}")));
    }
}

#[test]
fn a_comma_does_not_end_a_sentence() {
    let mut chunker = Chunker::default();
    assert_eq!(chunker.push("Well, "), None);
    assert_eq!(chunker.flush().unwrap(), "Well,");
    assert_eq!(chunker.flush(), None);
}

#[test]
fn blank_text_is_never_spoken() {
    assert!(sentences(&[" ", "\n", "\u{3000}"]).is_empty());
    assert!(sentences(&[&" ".repeat(200)]).is_empty());
}

#[test]
fn length_is_counted_in_characters() {
    let mut chunker = Chunker::default();
    assert_eq!(chunker.push(&"a".repeat(MAX_CHARS - 1)), None);
    assert_eq!(chunker.push("a").unwrap().len(), MAX_CHARS);
    // Whatever the script.
    assert_eq!(chunker.push(&"क".repeat(MAX_CHARS - 1)), None);
    assert_eq!(chunker.push("क").unwrap(), "क".repeat(MAX_CHARS));
}

#[test]
fn nothing_but_white_space_is_lost() {
    let tokens = ["One. ", " two ", "three! ", "\n", "four; five", " six? ", "seven"];
    let solid = |s: &str| -> String { s.chars().filter(|c| !c.is_whitespace()).collect() };
    let spoken = sentences(&tokens);
    assert_eq!(solid(&spoken.concat()), solid(&tokens.concat()));
    assert!(spoken.iter().all(|s| s.trim() == s && !s.is_empty()));
}
