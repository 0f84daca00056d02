use precc::numerals::{
    dec_int_text, dec_text, push_aligned, push_copies, push_hex, push_padded, read_i32, read_i64,
};
use precc::text::{
    chars_of, class_has, cut, cuttable, find_text, first_word, has_text, joined,
    longer_than, replaced, same, space, split_at_char, split_lines, split_words, starts, strip,
    trimmed, trimmed_start, Class,
};

#[test]
fn trims_whitespace() {
    assert_eq!(trimmed("  a b\t\n"), "a b");
    assert_eq!(trimmed(" \u{a0}\u{3000}"), "");
    assert_eq!(trimmed_start("\u{2003} x "), "x ");
    assert!(space('\u{85}'));
    assert!(!space('\u{200b}'));
}

#[test]
fn whitespace_is_what_std_says() {
    let mut n: u32 = 0;
    while n < 0x11_0000 {
        if let Some(c) = char::from_u32(n) {
            assert_eq!(space(c), c.is_whitespace(), "U+{:04X}", n);
        }
        n += 1;
    }
}

#[test]
fn classes_hold_their_characters() {
    assert!(class_has(Class::Word, 'é'));
    assert!(class_has(Class::Word, '_'));
    assert!(!class_has(Class::Word, '.'));
    assert!(class_has(Class::Signed, '-'));
    assert!(!class_has(Class::Signed, '+'));
    assert!(class_has(Class::NotEither('a', 'b'), 'c'));
    assert!(!class_has(Class::NotEither('a', 'b'), 'b'));
}

#[test]
fn words_are_runs_of_non_space() {
    assert_eq!(split_words(" a  bc\u{2028}d "), vec!["a", "bc", "d"]);
    assert!(split_words("").is_empty());
    assert_eq!(first_word("  ls -la"), "ls");
    assert_eq!(first_word(" "), "");
}

#[test]
fn lines_are_those_of_std() {
    for s in ["", "\n", "a", "a\n", "a\r\nb", "a\r", "a\n\nb\n", "\r\n\r", "a\rb\n"] {
        let mine = split_lines(s);
        let theirs: Vec<&str> = s.lines().collect();
        assert_eq!(mine, theirs, "{:?}", s);
    }
}

#[test]
fn splits_and_joins() {
    assert_eq!(split_at_char("a;;b;", ';'), vec!["a", "", "b", ""]);
    assert_eq!(split_at_char("", ';'), vec![""]);
    let parts = vec!["a".to_string(), "".to_string(), "b".to_string()];
    assert_eq!(joined(&parts, "; "), "a; ; b");
    assert_eq!(joined(&Vec::new(), "; "), "");
}

#[test]
fn searches_text() {
    assert_eq!(find_text("ααb αb", "αb"), Some(1));
    assert_eq!(find_text("abc", "d"), None);
    assert_eq!(find_text("abc", ""), Some(0));
    assert!(has_text("a && b", "&&"));
    assert!(starts("cd /x", "cd "));
    assert!(!starts("c", "cd "));
    assert_eq!(strip("!Cargo.toml", "!"), Some("Cargo.toml"));
    assert_eq!(strip("Cargo.toml", "!"), None);
    assert!(same("añb", "añb"));
    assert!(!same("a", "b"));
    assert_eq!(chars_of("aé"), vec!['a', 'é']);
}

#[test]
fn replaces_from_the_left() {
    assert_eq!(replaced("aaa", "aa", "b"), "ba");
    assert_eq!(replaced("x-y-z", "-", "/"), "x/y/z");
    assert_eq!(replaced("abc", "d", "e"), "abc");
}

#[test]
fn cuts_at_bytes() {
    assert!(longer_than("éé", 3));
    assert!(!longer_than("éé", 4));
    assert!(cuttable("éé", 2));
    assert!(!cuttable("éé", 1));
    assert!(cuttable("éé", 9));
    assert_eq!(cut("ééa", 4), "éé");
}

#[test]
fn writes_and_reads_numbers() {
    assert_eq!(dec_text(0), "0");
    assert_eq!(dec_text(u64::MAX), "18446744073709551615");
    assert_eq!(dec_int_text(i64::MIN), "-9223372036854775808");
    assert_eq!(read_i64("-9223372036854775808"), Some(i64::MIN));
    assert_eq!(read_i64("9223372036854775808"), None);
    assert_eq!(read_i64("+7"), Some(7));
    assert_eq!(read_i64("-"), None);
    assert_eq!(read_i64(""), None);
    assert_eq!(read_i64("1 "), None);
    assert_eq!(read_i32("2147483647"), Some(i32::MAX));
    assert_eq!(read_i32("2147483648"), None);
    assert_eq!(read_i32("007"), Some(7));
}

#[test]
fn pads_columns() {
    let mut s = String::new();
    push_padded(&mut s, "é", 3);
    push_aligned(&mut s, "42", 4);
    push_aligned(&mut s, "12345", 4);
    push_copies(&mut s, '-', 2);
    push_hex(&mut s, 0xabcd_ef01, 4);
    assert_eq!(s, "é    4212345--ef01");
}
