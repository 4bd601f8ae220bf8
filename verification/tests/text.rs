use pdfdiff::text::{
    find_from, from_chars, has_suffix, is_white_space, same_text, stands_at, to_chars, trim,
    trim_leading, trim_range, trim_suffixes,
};

#[test]
fn white_space_is_what_std_takes_for_it() {
    for v in 0..=0x10ffffu32 {
        if let Some(c) = char::from_u32(v) {
            assert_eq!(is_white_space(c), c.is_whitespace(), "{:x}", v);
        }
    }
}

#[test]
fn trimming_agrees_with_std() {
    for s in ["", " ", "a", "  a b\t\n", "\u{a0}\u{3000}x\u{85}", "\r\n", "é ", " 越 "] {
        assert_eq!(trim(s), s.trim());
    }
}

#[test]
fn trimming_a_range() {
    let chars = to_chars("x  ab  y");
    assert_eq!(trim_range(&chars, 1, 7), (3, 5));
    assert_eq!(trim_range(&chars, 1, 3), (3, 3));
}

#[test]
fn searching_agrees_with_std() {
    for text in ["", "a", "abcabc", "aaab", "ééb", "\\input{x}"] {
        for pattern in ["", "a", "b", "ab", "aab", "éb", "{", "abcabcd"] {
            let found = find_from(&to_chars(text), &to_chars(pattern), 0);
            let expected = text.find(pattern).map(|i| text[..i].chars().count());
            assert_eq!(found, expected, "{:?} {:?}", text, pattern);
        }
    }
}

#[test]
fn searching_behind_a_position() {
    let text = to_chars("abcabc");
    assert_eq!(find_from(&text, &to_chars("bc"), 2), Some(4));
    assert_eq!(find_from(&text, &to_chars("bc"), 5), None);
    assert_eq!(find_from(&text, &to_chars(""), 6), Some(6));
    assert!(stands_at(&text, &to_chars("ca"), 2));
    assert!(!stands_at(&text, &to_chars("ca"), 5));
    assert!(!stands_at(&text, &to_chars("ca"), 50));
}

#[test]
fn characters_and_back() {
    let chars = to_chars("aé越b");
    assert_eq!(chars, vec!['a', 'é', '越', 'b']);
    assert_eq!(from_chars(&chars, 1, 3), "é越");
    assert_eq!(from_chars(&chars, 2, 2), "");
}

#[test]
fn leading_characters_agree_with_std() {
    for s in ["", "%", "%%a%", "a%%", " %a"] {
        assert_eq!(trim_leading(s, '%'), s.trim_start_matches('%'));
    }
}

#[test]
fn suffixes_agree_with_std() {
    for s in ["", ".bbl", "main.bbl", "main.bbl.bbl", "main", "bbl", ".bbl.bblx", "x.bbl.tex"] {
        assert_eq!(has_suffix(s, ".bbl"), s.ends_with(".bbl"));
        assert_eq!(trim_suffixes(s, ".bbl"), s.trim_end_matches(".bbl"));
    }
    assert_eq!(trim_suffixes("abc", ""), "abc");
    assert!(has_suffix("abc", ""));
}

#[test]
fn same_text_compares_characters() {
    assert!(same_text("tex", "tex"));
    assert!(!same_text("tex", "TEX"));
    assert!(!same_text("tex", "te"));
    assert!(!same_text("te", "tex"));
    assert!(same_text("", ""));
}
