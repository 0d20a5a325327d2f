use duplicate_finder::text::{count_words, counter_words_in_lines, normalize_path_argument, white_space};

#[test]
fn word_count_matches_split_whitespace() {
    for s in ["", "one", "  two  words ", "a\tb\nc", "non\u{a0}breaking\u{3000}space", "x\u{2028}y", "\u{85}"] {
        assert_eq!(count_words(s), s.split_whitespace().count(), "{:?}", s);
    }
}

#[test]
fn white_space_matches_std() {
    for c in ['\t', '\n', ' ', 'a', '\u{85}', '\u{a0}', '\u{1680}', '\u{180e}', '\u{2000}', '\u{200a}', '\u{200b}', '\u{2028}', '\u{202f}', '\u{205f}', '\u{3000}', '\u{feff}', 'ы'] {
        assert_eq!(white_space(c), c.is_whitespace(), "{:?}", c);
    }
}

#[test]
fn words_of_lines_are_summed() {
    let lines = vec!["hello world".to_string(), "".to_string(), " one  two three ".to_string()];
    assert_eq!(counter_words_in_lines(&lines), Some(5));
}

#[test]
fn no_lines_no_words() {
    assert_eq!(counter_words_in_lines(&Vec::new()), Some(0));
}

#[test]
fn path_argument_is_joined_and_trimmed() {
    let args = vec!["\"/home/user/My".to_string(), "Documents\"".to_string()];
    assert_eq!(normalize_path_argument(&args), Some("/home/user/My Documents".to_string()));
}

#[test]
fn path_argument_trims_quotes_and_spaces_at_both_ends_only() {
    let args = vec![" ' /tmp/a'b \" ".to_string()];
    assert_eq!(normalize_path_argument(&args), Some("/tmp/a'b".to_string()));
}

#[test]
fn missing_path_argument() {
    assert_eq!(normalize_path_argument(&Vec::new()), None);
}

#[test]
fn path_argument_of_only_quotes_is_empty() {
    let args = vec!["\"'".to_string(), "\"".to_string()];
    assert_eq!(normalize_path_argument(&args), Some(String::new()));
}
