use pdfdiff::bytes::{holds_text, part};

#[test]
fn searching_text_in_bytes_agrees_with_std() {
    for text in ["", "a", "abcabc", "aaab", "ééb", "\\input{x}", "越é"] {
        for pattern in ["", "a", "b", "ab", "aab", "éb", "{", "abcabcd", "é", "越"] {
            assert_eq!(
                holds_text(&text.as_bytes().to_vec(), pattern),
                text.contains(pattern),
                "{:?} {:?}",
                text,
                pattern
            );
        }
    }
}

#[test]
fn searching_does_not_need_text() {
    assert!(holds_text(&b"\xe9 \\bibdata{x} \xff".to_vec(), "\\bibdata"));
    assert!(!holds_text(&b"\\bib\xe9data".to_vec(), "\\bibdata"));
    assert!(holds_text(&b"\xff".to_vec(), ""));
    assert!(!holds_text(&Vec::new(), "x"));
}

#[test]
fn part_of_some_bytes() {
    let bytes = vec![1, 2, 3, 4];
    assert_eq!(part(&bytes, 1, 3), vec![2, 3]);
    assert_eq!(part(&bytes, 4, 4), Vec::<u8>::new());
}
