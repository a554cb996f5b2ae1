use povertygres::text::{
    append_chars, begins_with, find_char_in, find_in, has_at, is_space_char, is_word,
    is_word_ignore_case, rfind_char_in, same_chars, same_ignore_case, str_eq, string_of,
    stripped_end, stripped_parens, subvec, to_lower, to_lower_char, trim_lo_of, trimmed_start,
};

fn chars(s: &str) -> Vec<char> {
    s.chars().collect()
}

fn text(v: &Vec<char>) -> String {
    v.iter().collect()
}

#[test]
fn texts_are_compared_and_cut() {
    assert!(str_eq("abc", "abc"));
    assert!(str_eq("", ""));
    assert!(!str_eq("abc", "abd"));
    assert!(!str_eq("abc", "ab"));
    assert!(str_eq("h\u{e9}", "h\u{e9}"));
    assert!(!str_eq("h\u{e9}", "he"));
    assert!(same_chars(&chars("ab"), &chars("ab")));
    assert!(!same_chars(&chars("ab"), &chars("aB")));
    assert!(!same_chars(&chars("ab"), &chars("abc")));
    assert_eq!(string_of(&chars("hello"), 1, 4), "ell");
    assert_eq!(string_of(&chars("hello"), 2, 2), "");
    assert_eq!(string_of(&chars("h\u{e9}llo"), 0, 2), "h\u{e9}");
    assert_eq!(text(&subvec(&chars("hello"), 0, 5)), "hello");
    assert_eq!(text(&subvec(&chars("hello"), 3, 5)), "lo");
    let mut dst = chars("ab");
    append_chars(&mut dst, &chars("cd"));
    append_chars(&mut dst, &chars(""));
    assert_eq!(text(&dst), "abcd");
}

#[test]
fn only_ascii_letters_change_their_case() {
    assert_eq!(to_lower_char('A'), 'a');
    assert_eq!(to_lower_char('Z'), 'z');
    assert_eq!(to_lower_char('a'), 'a');
    assert_eq!(to_lower_char('@'), '@');
    assert_eq!(to_lower_char('['), '[');
    assert_eq!(to_lower_char('\u{c9}'), '\u{c9}');
    assert_eq!(text(&to_lower(&chars("SeLeCT \u{c9}1"))), "select \u{c9}1");
    assert!(same_ignore_case(&chars("Where"), &chars("wHERE")));
    assert!(!same_ignore_case(&chars("Where"), &chars("wher")));
    assert!(!same_ignore_case(&chars("\u{c9}"), &chars("\u{e9}")));
    assert!(is_word(&chars("commit"), "commit"));
    assert!(!is_word(&chars("Commit"), "commit"));
    assert!(is_word_ignore_case(&chars("Commit"), "COMMIT"));
    assert!(!is_word_ignore_case(&chars("Commit "), "COMMIT"));
}

#[test]
fn white_space_is_that_of_unicode() {
    for c in [' ', '\t', '\n', '\r', '\u{b}', '\u{c}', '\u{85}', '\u{a0}', '\u{1680}', '\u{2000}',
        '\u{200a}', '\u{2028}', '\u{2029}', '\u{202f}', '\u{205f}', '\u{3000}']
    {
        assert!(is_space_char(c), "{:?}", c);
        assert!(c.is_whitespace());
    }
    for c in ['a', '0', '_', '\u{8}', '\u{e}', '\u{200b}', '\u{180e}', '\u{feff}'] {
        assert!(!is_space_char(c), "{:?}", c);
        assert!(!c.is_whitespace());
    }
    assert_eq!(trim_lo_of(&chars("  \ta ")), 3);
    assert_eq!(trim_lo_of(&chars("a")), 0);
    assert_eq!(trim_lo_of(&chars("   ")), 3);
    assert_eq!(text(&trimmed_start(&chars(" \n a b "))), "a b ");
    assert_eq!(text(&trimmed_start(&chars("  "))), "");
}

#[test]
fn ends_and_parentheses_are_stripped() {
    assert_eq!(text(&stripped_end(&chars("a;;"), ';')), "a");
    assert_eq!(text(&stripped_end(&chars("a;b"), ';')), "a;b");
    assert_eq!(text(&stripped_end(&chars(";;"), ';')), "");
    assert_eq!(text(&stripped_end(&chars(""), ';')), "");
    assert_eq!(text(&stripped_parens(&chars("((a, b))"))), "a, b");
    assert_eq!(text(&stripped_parens(&chars("(a)(b)"))), "a)(b");
    assert_eq!(text(&stripped_parens(&chars("id)"))), "id");
    assert_eq!(text(&stripped_parens(&chars("()"))), "");
    assert_eq!(text(&stripped_parens(&chars("id"))), "id");
}

#[test]
fn patterns_and_characters_are_found() {
    let s = chars("select a from t where a = \"from\"");
    assert_eq!(find_in(&s, &chars("from")), Some(9));
    assert_eq!(find_in(&s, &chars("where")), Some(16));
    assert_eq!(find_in(&s, &chars("select")), Some(0));
    assert_eq!(find_in(&s, &chars("\"from\"")), Some(26));
    assert_eq!(find_in(&s, &chars("into")), None);
    assert_eq!(find_in(&s, &chars("")), Some(0));
    assert_eq!(find_in(&chars("ab"), &chars("abc")), None);
    assert_eq!(find_in(&chars(""), &chars("")), Some(0));
    assert!(has_at(&s, &chars("from"), 9));
    assert!(!has_at(&s, &chars("from"), 8));
    assert!(!has_at(&s, &chars("from"), 30));
    assert!(!has_at(&s, &chars("from"), 300));
    assert!(has_at(&s, &chars(""), s.len()));
    assert!(begins_with(&s, &chars("select ")));
    assert!(!begins_with(&s, &chars("elect")));
    assert!(!begins_with(&chars("se"), &chars("select")));
    assert_eq!(find_char_in(&chars("a.b.c"), '.'), Some(1));
    assert_eq!(rfind_char_in(&chars("a.b.c"), '.'), Some(3));
    assert_eq!(find_char_in(&chars("abc"), '.'), None);
    assert_eq!(rfind_char_in(&chars("abc"), '.'), None);
    assert_eq!(find_char_in(&chars(""), '.'), None);
}
