use asmb::text::{
    char_index_at_byte, char_width, contains_char, remove_char, same_text, split_on,
    to_ascii_lower, trim, white_space,
};

#[test]
fn char_width_follows_utf8() {
    assert_eq!(char_width('a'), 1);
    assert_eq!(char_width('é'), 2);
    assert_eq!(char_width('€'), 3);
    assert_eq!(char_width('𝄞'), 4);
}

#[test]
fn char_index_at_byte_finds_starts() {
    // a:0, é:1..3, ' ':3, b:4
    assert_eq!(char_index_at_byte("aé b", 0), Some(0));
    assert_eq!(char_index_at_byte("aé b", 1), Some(1));
    assert_eq!(char_index_at_byte("aé b", 2), None);
    assert_eq!(char_index_at_byte("aé b", 3), Some(2));
    assert_eq!(char_index_at_byte("aé b", 5), Some(4));
    assert_eq!(char_index_at_byte("aé b", 6), None);
}

#[test]
fn trim_removes_unicode_white_space() {
    assert_eq!(trim("  hi there \n"), "hi there");
    assert_eq!(trim("\u{3000}x\u{85}"), "x");
    assert_eq!(trim(" \t "), "");
    assert_eq!(trim(""), "");
    assert!(white_space('\u{2028}'));
    assert!(!white_space('a'));
}

#[test]
fn split_on_keeps_empty_pieces() {
    assert_eq!(split_on("a\nb\n", '\n'), vec!["a", "b", ""]);
    assert_eq!(split_on("", '\n'), vec![""]);
    assert_eq!(split_on("abc", '\t'), vec!["abc"]);
    assert_eq!(split_on("\t\t", '\t'), vec!["", "", ""]);
}

#[test]
fn split_then_join_gives_text_back() {
    let text = "line one\nline two\n\nlast";
    let parts = split_on(text, '\n');
    assert_eq!(parts.join("\n"), text);
    assert!(parts.iter().all(|p| !p.contains('\n')));
}

#[test]
fn small_text_helpers() {
    assert_eq!(remove_char("4 8 6 5", ' '), "4865");
    assert_eq!(to_ascii_lower("ArM32É"), "arm32É");
    assert!(same_text("abc", "abc"));
    assert!(!same_text("abc", "abd"));
    assert!(!same_text("abc", "ab"));
    assert!(contains_char("a.b", '.'));
    assert!(!contains_char("ab", '.'));
}
