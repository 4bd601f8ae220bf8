use pdfdiff::latex::{extract_arg, inject_red, is_root_file, read_to_brace, RED_OVERRIDES};
use pdfdiff::text::to_chars;

fn arg_by_std(line: &str, cmd: &str) -> Option<String> {
    let search = format!("{cmd}{{");
    let start = line.find(&search)? + search.len();
    let end = line[start..].find('}')?;
    Some(line[start..start + end].trim().to_string())
}

#[test]
fn argument_between_braces() {
    assert_eq!(extract_arg("\\foo{bar}", "\\foo"), Some("bar".to_string()));
}

#[test]
fn bibliography_does_not_match_its_style() {
    assert_eq!(extract_arg("\\bibliographystyle{plain}", "\\bibliography"), None);
    assert_eq!(
        extract_arg("\\bibliographystyle{plain} \\bibliography{refs}", "\\bibliography"),
        Some("refs".to_string())
    );
}

#[test]
fn arguments_on_odd_lines() {
    for line in [
        "",
        "\\input",
        "\\input{",
        "\\input{}",
        "\\input{a",
        "x \\input{ a b } y}",
        "\\input {a}",
        "\\input{\\input{a}}",
        "}\\input{é\u{a0}}",
        "\\input{a}\\input{b}",
        "\\inputx{a}",
    ] {
        assert_eq!(extract_arg(line, "\\input"), arg_by_std(line, "\\input"), "{:?}", line);
        assert_eq!(extract_arg(line, ""), arg_by_std(line, ""), "{:?}", line);
    }
    assert_eq!(extract_arg("x \\input{ a b } y}", "\\input"), Some("a b".to_string()));
}

#[test]
fn overrides_go_in_front_of_the_document() {
    let out = inject_red("\\documentclass{a}\n\\begin{document}x\\begin{document}".to_string());
    assert_eq!(
        out,
        format!("\\documentclass{{a}}\n{}\\begin{{document}}x\\begin{{document}}", RED_OVERRIDES)
    );
    assert_eq!(
        out.find("\\begin{document}"),
        Some("\\documentclass{a}\n".len() + RED_OVERRIDES.len())
    );
    assert_eq!(out.replacen(RED_OVERRIDES, "", 1), "\\documentclass{a}\n\\begin{document}x\\begin{document}");
}

#[test]
fn overrides_go_to_the_start_without_a_document() {
    assert_eq!(inject_red("é".to_string()), format!("{}é", RED_OVERRIDES));
    assert_eq!(inject_red(String::new()), RED_OVERRIDES);
}

#[test]
fn overrides_make_additions_and_deletions_red() {
    let expected = concat_lines(&[
        "",
        "%% pdfdiff: force red for all tracked changes",
        "\\usepackage[normalem]{ulem}",
        "\\usepackage{color}",
        "\\renewcommand{\\DIFadd}[1]{{\\protect\\color{red}#1}}",
        "\\renewcommand{\\DIFdel}[1]{{\\protect\\color{red}\\sout{#1}}}",
        "\\providecommand{\\DIFadd}[1]{{\\protect\\color{red}#1}}",
        "\\providecommand{\\DIFdel}[1]{{\\protect\\color{red}\\sout{#1}}}",
    ]);
    assert_eq!(RED_OVERRIDES, expected);
}

fn concat_lines(lines: &[&str]) -> String {
    let mut s = String::new();
    for line in lines {
        s.push_str(line);
        s.push('\n');
    }
    s
}

#[test]
fn root_files() {
    assert!(is_root_file(&b"x\n\\documentclass{article}".to_vec()));
    assert!(!is_root_file(&b"\\section{x}".to_vec()));
    assert!(!is_root_file(
        &b"\\documentclass{a}\n%DIF PREAMBLE EXTENSION ADDED BY LATEXDIFF".to_vec()
    ));
    assert!(!is_root_file(&Vec::new()));
}

#[test]
fn root_file_need_not_be_utf8() {
    assert!(is_root_file(&b"\\documentclass{article}\n%\xE9\n".to_vec()));
    assert!(!is_root_file(
        &b"\xE9\\documentclass{a}%DIF PREAMBLE EXTENSION ADDED BY LATEXDIFF".to_vec()
    ));
    assert!(!is_root_file(&b"\\document\xE9class".to_vec()));
}

#[test]
fn marked_up_source_is_no_root() {
    let tex = "\\documentclass{a}\n%DIF PREAMBLE EXTENSION ADDED BY LATEXDIFF\n\\begin{document}";
    assert!(!is_root_file(&inject_red(tex.to_string()).into_bytes()));
}

#[test]
fn reading_up_to_a_brace() {
    let chars = to_chars("a{ b c } d }");
    assert_eq!(read_to_brace(&chars, 2), Some("b c".to_string()));
    assert_eq!(read_to_brace(&chars, 8), Some("d".to_string()));
    assert_eq!(read_to_brace(&chars, 11), Some(String::new()));
    assert_eq!(read_to_brace(&chars, 12), None);
}
