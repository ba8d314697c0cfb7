use trae_agent::text::{contains, lines, trim};

#[test]
fn contains_finds_what_stands_in_the_text() {
    assert!(contains("a git-ai b", "git-ai"));
    assert!(contains("abc", ""));
    assert!(contains("", ""));
    assert!(!contains("", "a"));
    assert!(!contains("git ai", "git-ai"));
    assert!(contains("aab", "ab"));
}

#[test]
fn trim_drops_white_space_at_both_ends() {
    assert_eq!(trim("  a b \n\t"), "a b");
    assert_eq!(trim("\u{3000}\u{a0}x\u{2003}"), "x");
    assert_eq!(trim(" \r\n "), "");
    assert_eq!(trim(""), "");
}

#[test]
fn trim_agrees_with_the_standard_library_on_every_character() {
    for code in 0..=0x10ffffu32 {
        if let Some(c) = char::from_u32(code) {
            assert_eq!(trae_agent::text::white_space(c), c.is_whitespace());
        }
    }
}

#[test]
fn lines_end_at_line_feeds() {
    assert_eq!(lines("a\nb"), vec!["a", "b"]);
    assert_eq!(lines("a\nb\n"), vec!["a", "b"]);
    assert_eq!(lines("a\n\nb"), vec!["a", "", "b"]);
    assert_eq!(lines("\n"), vec![""]);
    assert!(lines("").is_empty());
}

#[test]
fn text_that_ends_a_line_and_more_text_have_the_lines_of_both() {
    let mut both = lines("a\nb\n");
    both.extend(lines("c\nd"));
    assert_eq!(lines("a\nb\nc\nd"), both);
}
