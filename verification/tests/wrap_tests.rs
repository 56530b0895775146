use creb::renderer::wrap_text;

#[test]
fn wraps_a_short_sentence_at_width_five() {
    let lines = wrap_text("This is a test", 5);
    assert!(lines.len() >= 2);
    for line in &lines {
        assert!(line.len() <= 5);
    }
    assert_eq!(lines, vec!["This", "is a", "test"]);
}

#[test]
fn long_token_is_hard_split_into_ceil_chunks() {
    let lines = wrap_text("abcdefghij", 3);
    assert_eq!(lines, vec!["abc", "def", "ghi", "j"]);
}

#[test]
fn long_token_of_exact_multiple_splits_evenly() {
    let lines = wrap_text("abcdef", 3);
    assert_eq!(lines, vec!["abc", "def"]);
}

#[test]
fn empty_text_yields_one_empty_line() {
    let lines = wrap_text("", 4);
    assert_eq!(lines, vec![""]);
}

#[test]
fn whitespace_only_text_yields_one_empty_line() {
    let lines = wrap_text(" \t\n ", 4);
    assert_eq!(lines, vec![""]);
}

#[test]
fn internal_whitespace_is_collapsed() {
    let lines = wrap_text("a  b\n c", 10);
    assert_eq!(lines, vec!["a b c"]);
}

#[test]
fn width_one_splits_every_character() {
    let lines = wrap_text("ab", 1);
    assert_eq!(lines, vec!["a", "b"]);
}

#[test]
fn long_token_between_words_is_split_after_a_flush() {
    let lines = wrap_text("ab verylong cd", 4);
    assert_eq!(lines, vec!["ab", "very", "long", "cd"]);
}

#[test]
fn joining_lines_with_spaces_reproduces_collapsed_text() {
    let lines = wrap_text("  the quick\tbrown   fox ", 7);
    for line in &lines {
        assert!(line.len() <= 7);
    }
    assert_eq!(lines.join(" "), "the quick brown fox");
}

#[test]
fn token_exactly_at_width_gets_its_own_line() {
    let lines = wrap_text("abcd ef", 4);
    assert_eq!(lines, vec!["abcd", "ef"]);
}
