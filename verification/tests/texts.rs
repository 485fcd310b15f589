use sheet_search::text::{
    char_is_control, char_is_kept, char_is_whitespace, clean_text, from_chars, same_text,
    str_contains, to_chars, tokenize, trim_chars,
};

#[test]
fn chars_round_trip() {
    let s = "héllo 世界";
    let v = to_chars(s);
    assert_eq!(v.len(), 8);
    assert_eq!(from_chars(&v), s);
}

#[test]
fn control_and_whitespace_agree_with_std() {
    for u in 0u32..0x3100 {
        if let Some(c) = char::from_u32(u) {
            assert_eq!(char_is_control(c), c.is_control(), "control {:x}", u);
            assert_eq!(char_is_whitespace(c), c.is_whitespace(), "space {:x}", u);
        }
    }
    for c in ['\u{feff}', '\u{10ffff}', '\u{e000}', '\u{d7ff}'] {
        assert_eq!(char_is_control(c), c.is_control());
        assert_eq!(char_is_whitespace(c), c.is_whitespace());
    }
}

#[test]
fn kept_characters() {
    assert!(!char_is_kept('\u{0}'));
    assert!(!char_is_kept('\u{feff}'));
    assert!(!char_is_kept('\u{200b}'));
    assert!(!char_is_kept('\u{200c}'));
    assert!(!char_is_kept('\u{200d}'));
    assert!(!char_is_kept('\u{1}'));
    assert!(!char_is_kept('\u{7f}'));
    assert!(char_is_kept('\t'));
    assert!(char_is_kept('\n'));
    assert!(char_is_kept(' '));
    assert!(char_is_kept('a'));
    assert!(char_is_kept('名'));
}

#[test]
fn clean_text_strips_and_trims() {
    assert_eq!(clean_text("  \u{feff}Na\u{0}me\u{200b} \t"), "Name");
    assert_eq!(clean_text("a\u{1}b"), "ab");
    assert_eq!(clean_text("a\tb"), "a\tb");
    assert_eq!(clean_text("\u{200d}\u{200c}"), "");
    assert_eq!(clean_text(""), "");
    assert_eq!(clean_text(" inner  space "), "inner  space");
    assert_eq!(clean_text("\u{3000}全角\u{a0}"), "全角");
}

#[test]
fn clean_text_agrees_with_std_steps() {
    for s in ["  x ", "\u{0}\u{0}", "a\u{85}", "\u{feff} k \u{feff}", "\r\nline\r\n", "plain"] {
        let expected: String = s
            .replace('\u{0}', "")
            .replace('\u{feff}', "")
            .replace('\u{200b}', "")
            .replace('\u{200c}', "")
            .replace('\u{200d}', "")
            .chars()
            .filter(|c| !c.is_control() || c.is_whitespace())
            .collect::<String>()
            .trim()
            .to_string();
        assert_eq!(clean_text(s), expected, "{:?}", s);
    }
}

#[test]
fn trim_chars_cuts_both_ends() {
    let v: Vec<char> = " \t ab c \n".chars().collect();
    let t: String = trim_chars(&v).into_iter().collect();
    assert_eq!(t, "ab c");
    let blank: Vec<char> = "   ".chars().collect();
    assert!(trim_chars(&blank).is_empty());
}

#[test]
fn tokenize_splits_at_white_space() {
    assert_eq!(tokenize("  alpha   beta\tgamma\n"), vec!["alpha", "beta", "gamma"]);
    assert_eq!(tokenize("one"), vec!["one"]);
    assert!(tokenize("").is_empty());
    assert!(tokenize(" \t\n ").is_empty());
    assert_eq!(tokenize("a\u{3000}b"), vec!["a", "b"]);
}

#[test]
fn tokenize_agrees_with_split_whitespace() {
    for s in ["", " ", "a", " a", "a ", "a b", "  a  b  ", "x\ty\nz", "多 语言 text"] {
        let expected: Vec<String> = s.split_whitespace().map(|w| w.to_string()).collect();
        assert_eq!(tokenize(s), expected, "{:?}", s);
    }
}

#[test]
fn substring_search() {
    assert!(str_contains("hello world", "lo w"));
    assert!(str_contains("hello", ""));
    assert!(str_contains("", ""));
    assert!(!str_contains("", "a"));
    assert!(!str_contains("abc", "abcd"));
    assert!(str_contains("abc", "abc"));
    assert!(str_contains("aab", "ab"));
    assert!(!str_contains("Alice", "alice"));
    assert!(str_contains("数据导入", "导入"));
}

#[test]
fn same_text_compares_contents() {
    assert!(same_text("abc", "abc"));
    assert!(!same_text("abc", "abd"));
    assert!(!same_text("abc", "ab"));
    assert!(same_text("", ""));
}
