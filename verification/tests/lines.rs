use pdfdiff::lines::{lines, parts};

#[test]
fn lines_of_text_agree_with_std() {
    for s in [
        "", "\n", "\n\n", "a", "a\n", "a\nb", "a\r\nb\r\n", "a\r", "\r", "\r\n", "a\n\r\nb\rc\r\r\n",
        "é\n越", "é\r\n越\r", "\u{8a}\n\u{8d}\u{10d}\n\u{10a0a}\u{d0a}",
    ] {
        let expected: Vec<String> = s.lines().map(|l| l.to_string()).collect();
        assert_eq!(lines(&s.as_bytes().to_vec()), expected, "{:?}", s);
    }
}

#[test]
fn text_is_one_part() {
    for s in ["", "a", "é越\u{10ffff}\u{fffd}", "\u{7f}\u{80}\u{7ff}\u{800}\u{d7ff}\u{e000}\u{10000}"] {
        assert_eq!(parts(&s.as_bytes().to_vec()), vec![s]);
    }
}

#[test]
fn line_is_cut_where_it_is_not_utf8() {
    assert_eq!(
        lines(&b"\\documentclass{article}\r\n%\xe9!\n\xc3\xa9".to_vec()),
        vec!["\\documentclass{article}", "%", "!", "é"]
    );
    assert_eq!(parts(&b"\xff".to_vec()), vec!["", ""]);
    assert_eq!(parts(&b"a\xc3(b".to_vec()), vec!["a", "(b"]);
    // Cut off, overlong, a surrogate, beyond the last character.
    assert_eq!(parts(&b"a\xe8\xb6".to_vec()), vec!["a", "", ""]);
    assert_eq!(parts(&b"\xc0\x80a".to_vec()), vec!["", "", "a"]);
    assert_eq!(parts(&b"\xed\xa0\x80a".to_vec()), vec!["", "", "", "a"]);
    assert_eq!(parts(&b"\xf4\x90\x80\x80a".to_vec()), vec!["", "", "", "", "a"]);
    assert_eq!(parts(&b"\xc3\xa9\xe9\xc3\xa9".to_vec()), vec!["é", "é"]);
}

#[test]
fn parts_stand_in_the_line() {
    let line = b"x\xff\xc3\xa9y\xe8\xb6z\xf0\x9f\x98\x80\xc3".to_vec();
    let texts = parts(&line);
    assert_eq!(texts, vec!["x", "éy", "", "z\u{1f600}", ""]);
    for text in texts {
        let bytes = text.as_bytes();
        assert!(bytes.is_empty() || line.windows(bytes.len()).any(|w| w == bytes));
    }
}
