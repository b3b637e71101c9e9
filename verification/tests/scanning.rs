use rust_eval::scan::{
    blank, final_position, find_word, first_position, head, is_word, line_at, read_number,
    skip_blanks, strip_word, tail, trimmed,
};
use rust_eval::text::chars_of;

fn text(chars: &[char]) -> String {
    chars.iter().collect()
}

#[test]
fn chars_of_gives_the_characters_in_order() {
    assert_eq!(chars_of("añ✓"), vec!['a', 'ñ', '✓']);
    assert!(chars_of("").is_empty());
}

#[test]
fn blanks_are_space_tab_and_carriage_return() {
    assert!(blank(' ') && blank('\t') && blank('\r'));
    assert!(!blank('\n') && !blank('a') && !blank('\u{a0}'));
}

#[test]
fn trimming_removes_blanks_at_the_ends_only() {
    assert_eq!(text(trimmed(&chars_of(" \t a b \r "))), "a b");
    assert_eq!(text(trimmed(&chars_of("a"))), "a");
    assert_eq!(text(trimmed(&chars_of(" \t "))), "");
    assert_eq!(text(trimmed(&chars_of(""))), "");
    assert_eq!(text(trimmed(&chars_of("\na "))), "\na");
    assert_eq!(text(skip_blanks(&chars_of("  a  "))), "a  ");
    assert_eq!(text(skip_blanks(&chars_of("   "))), "");
}

#[test]
fn head_and_tail_split_a_text() {
    let s = chars_of("hello");
    assert_eq!(text(head(&s, 2)), "he");
    assert_eq!(text(tail(&s, 2)), "llo");
    assert_eq!(text(head(&s, 0)), "");
    assert_eq!(text(tail(&s, 5)), "");
}

#[test]
fn positions_of_a_character() {
    let s = chars_of("a:b:c");
    assert_eq!(first_position(&s, ':'), 1);
    assert_eq!(final_position(&s, ':'), Some(3));
    assert_eq!(first_position(&s, 'a'), 0);
    assert_eq!(final_position(&s, 'c'), Some(4));
    assert_eq!(first_position(&s, 'x'), 5);
    assert_eq!(final_position(&s, 'x'), None);
    assert_eq!(first_position(&[], 'x'), 0);
    assert_eq!(final_position(&[], 'x'), None);
}

#[test]
fn words_at_the_start_and_within() {
    let s = chars_of("test a ... ok");
    assert_eq!(strip_word(&s, "test ").map(text), Some("a ... ok".to_string()));
    assert_eq!(strip_word(&s, "tesT"), None);
    assert_eq!(strip_word(&s, "test a ... ok!"), None);
    assert_eq!(strip_word(&s, "").map(text), Some("test a ... ok".to_string()));
    assert_eq!(find_word(&s, " ... "), Some(6));
    assert_eq!(find_word(&s, "test"), Some(0));
    assert_eq!(find_word(&s, "ok"), Some(11));
    assert_eq!(find_word(&s, "okay"), None);
    assert_eq!(find_word(&s, ""), Some(0));
    assert_eq!(find_word(&chars_of("aab"), "ab"), Some(1));
    assert_eq!(find_word(&[], "a"), None);
    assert!(is_word(&chars_of("ok"), "ok"));
    assert!(!is_word(&chars_of("ok "), "ok"));
    assert!(!is_word(&chars_of("o"), "ok"));
    assert!(is_word(&[], ""));
}

#[test]
fn numbers_of_at_most_32_bits() {
    let read = |s: &str| read_number(&chars_of(s));
    assert_eq!(read("0"), Some(0));
    assert_eq!(read("007"), Some(7));
    assert_eq!(read("1234567890"), Some(1234567890));
    assert_eq!(read("4294967295"), Some(4294967295));
    assert_eq!(read("4294967296"), None);
    assert_eq!(read("42949672950"), None);
    assert_eq!(read("99999999999999999999999"), None);
    assert_eq!(read(""), None);
    assert_eq!(read("-1"), None);
    assert_eq!(read("+1"), None);
    assert_eq!(read("12a"), None);
    assert_eq!(read("4294967296a"), None);
    assert_eq!(read(" 1"), None);
    assert_eq!(read("١٢"), None);
}

#[test]
fn lines_end_at_newlines() {
    let s = chars_of("ab\n\ncd");
    assert_eq!(line_at(&s, 0), (2, 3));
    assert_eq!(line_at(&s, 1), (2, 3));
    assert_eq!(line_at(&s, 2), (2, 3));
    assert_eq!(line_at(&s, 3), (3, 4));
    assert_eq!(line_at(&s, 4), (6, 6));
    let t = chars_of("x\n");
    assert_eq!(line_at(&t, 0), (1, 2));
    assert_eq!(line_at(&t, 1), (1, 2));
}
