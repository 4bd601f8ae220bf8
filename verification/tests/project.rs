use pdfdiff::error::Failure;
use pdfdiff::latex::extract_arg;
use pdfdiff::project::{
    bbls_to_share, copy_dir, find_in_tex_files, find_main_tex, tex_lines, CopyJob, Entry, Placed,
    SHARE_DEPTH,
};

const ROOT: &str = "\\documentclass{article}";

fn entry(shown: &str, depth: usize, content: Option<&str>) -> Entry {
    Entry {
        shown: shown.to_string(),
        extension: shown.rsplit_once('.').map(|(_, e)| e.to_string()),
        depth,
        is_file: true,
        content: content.map(|c| c.as_bytes().to_vec()),
    }
}

fn directory(shown: &str, depth: usize) -> Entry {
    Entry {
        shown: shown.to_string(),
        extension: None,
        depth,
        is_file: false,
        content: None,
    }
}

#[test]
fn only_candidate_is_the_root_wherever_it_lies() {
    let entries = vec![
        directory("p", 0),
        entry("p/a.tex", 1, Some("\\section{x}")),
        entry("p/b.txt", 1, Some(ROOT)),
        entry("p/c.tex", 1, None),
        entry("p/s/d.tex", 2, Some(ROOT)),
    ];
    assert_eq!(find_main_tex("p", &entries), Ok(4));
}

#[test]
fn first_candidate_at_the_top_wins() {
    let entries = vec![
        entry("p/s/a.tex", 2, Some(ROOT)),
        entry("p/b.tex", 1, Some(ROOT)),
        entry("p/c.tex", 1, Some(ROOT)),
    ];
    assert_eq!(find_main_tex("p", &entries), Ok(1));
}

#[test]
fn generated_files_are_no_candidates() {
    let generated = "%DIF PREAMBLE EXTENSION ADDED BY LATEXDIFF\n\\documentclass{a}";
    let entries = vec![
        entry("p/diff.tex", 1, Some(generated)),
        entry("p/s/main.tex", 2, Some(ROOT)),
    ];
    assert_eq!(find_main_tex("p", &entries), Ok(1));
}

#[test]
fn no_candidate_is_an_error() {
    let e = find_main_tex("p", &vec![entry("p/a.tex", 1, Some("x"))]).unwrap_err();
    assert_eq!(e, Failure::NoMainTex { dir: "p".to_string() });
    assert_eq!(e.message(), "no .tex file with \\documentclass found in p");
    assert!(find_main_tex("p", &Vec::new()).is_err());
}

#[test]
fn several_deep_candidates_are_an_error() {
    let entries = vec![
        entry("p/s/a.tex", 2, Some(ROOT)),
        entry("p/t/b.tex", 2, Some(ROOT)),
        entry("p/t/c.tex", 2, Some(ROOT)),
    ];
    let e = find_main_tex("p", &entries).unwrap_err();
    assert_eq!(
        e.message(),
        "multiple root .tex files found — pass a specific file instead:\n  p/s/a.tex\n  p/t/b.tex\n  p/t/c.tex"
    );
}

#[test]
fn root_in_another_encoding_is_found() {
    let mut main = entry("p/main.tex", 1, None);
    main.content = Some(b"\\documentclass{article}\n%\xE9\n".to_vec());
    let entries = vec![directory("p", 0), entry("p/a.tex", 1, Some("x")), main];
    assert_eq!(find_main_tex("p", &entries), Ok(2));
}

#[test]
fn extension_has_to_match_exactly() {
    let e = entry("a.tex", 1, None);
    assert!(e.extension_is("tex"));
    assert!(!e.extension_is("te"));
    assert!(!e.extension_is("bbl"));
    assert!(!directory("tex", 1).extension_is("tex"));
}

fn placed(entry: Entry, place: &[&'static str]) -> Placed<&'static str> {
    Placed { entry, place: place.to_vec() }
}

fn job(from: usize, folder: &[&'static str], to: &[&'static str]) -> CopyJob<&'static str> {
    CopyJob { from, folder: Some(folder.to_vec()), to: to.to_vec() }
}

#[test]
fn regular_files_are_copied() {
    let items = vec![
        placed(directory("p", 0), &[]),
        placed(entry("p/a.tex", 1, None), &["a.tex"]),
        placed(directory("p/s", 1), &["s"]),
        placed(entry("p/s/b.png", 2, None), &["s", "b.png"]),
    ];
    assert_eq!(
        copy_dir(&items, &vec!["out"]),
        vec![
            job(1, &["out"], &["out", "a.tex"]),
            job(3, &["out", "s"], &["out", "s", "b.png"]),
        ]
    );
    assert_eq!(
        copy_dir(&items, &Vec::new()),
        vec![job(1, &[], &["a.tex"]), job(3, &["s"], &["s", "b.png"])]
    );
    assert_eq!(copy_dir(&Vec::new(), &vec!["out"]), Vec::new());
}

#[test]
fn whatever_leads_to_a_file_is_copied() {
    // A link to a picture leads to a regular file; one that leads nowhere does not.
    let mut dangling = entry("p/gone.png", 1, None);
    dangling.is_file = false;
    let items = vec![
        placed(entry("p/a.png", 1, None), &["a.png"]),
        placed(entry("p/fig.png", 1, None), &["fig.png"]),
        placed(dangling, &["gone.png"]),
    ];
    assert_eq!(
        copy_dir(&items, &vec!["out"]),
        vec![
            job(0, &["out"], &["out", "a.png"]),
            job(1, &["out"], &["out", "fig.png"]),
        ]
    );
}

#[test]
fn path_without_names_lies_in_no_directory() {
    let items = vec![placed(entry("p", 0, None), &[])];
    assert_eq!(
        copy_dir(&items, &Vec::new()),
        vec![CopyJob { from: 0, folder: None, to: Vec::new() }]
    );
    assert_eq!(copy_dir(&items, &vec!["a", "b"]), vec![job(0, &["a"], &["a", "b"])]);
}

#[test]
fn copies_do_not_collide() {
    let items = vec![
        placed(entry("p/a", 1, None), &["a"]),
        placed(entry("p/s/a", 2, None), &["s", "a"]),
        placed(entry("p/b", 1, None), &["b"]),
    ];
    let jobs = copy_dir(&items, &vec!["o"]);
    assert_ne!(jobs[0].to, jobs[1].to);
    assert_ne!(jobs[0].to, jobs[2].to);
    assert_ne!(jobs[1].to, jobs[2].to);
}

#[test]
fn bibliographies_are_shared_unless_they_exist() {
    let items = vec![
        placed(directory("o", 0), &[]),
        placed(entry("o/a.bbl", 1, None), &["a.bbl"]),
        placed(entry("o/b.bbl", 1, None), &["b.bbl"]),
        placed(entry("o/c.tex", 1, None), &["c.tex"]),
        placed(entry("o/s/t/d.bbl", 3, None), &["s", "t", "d.bbl"]),
        placed(entry("o/s/t/u/e.bbl", 4, None), &["s", "t", "u", "e.bbl"]),
    ];
    assert_eq!(SHARE_DEPTH, 3);
    assert_eq!(
        bbls_to_share(&items, &Vec::new(), &vec!["v1"]),
        vec![
            job(1, &["v1"], &["v1", "a.bbl"]),
            job(2, &["v1"], &["v1", "b.bbl"]),
            job(4, &["v1", "s", "t"], &["v1", "s", "t", "d.bbl"]),
        ]
    );
    let froms: Vec<usize> =
        bbls_to_share(&items, &vec![2], &vec!["v1"]).iter().map(|j| j.from).collect();
    assert_eq!(froms, vec![1, 4]);
}

#[test]
fn lines_of_readable_tex_files_in_order() {
    let entries = vec![
        entry("a.tex", 1, Some("1\r\n2")),
        entry("b.txt", 1, Some("x")),
        entry("c.tex", 1, None),
        entry("d.tex", 1, Some("\n3\n")),
    ];
    assert_eq!(tex_lines(&entries), vec!["1", "2", "", "3"]);
}

#[test]
fn files_in_another_encoding_are_searched() {
    let mut latin = entry("a.tex", 1, None);
    latin.content = Some(b"%\xE9\n\\x{1}\xE9\n\\y{2}".to_vec());
    let entries = vec![latin];
    assert_eq!(tex_lines(&entries), vec!["%", "", "\\x{1}", "", "\\y{2}"]);
    assert_eq!(find_in_tex_files(&entries, |l| extract_arg(l, "\\x")), Some("1".to_string()));
    assert_eq!(find_in_tex_files(&entries, |l| extract_arg(l, "\\y")), Some("2".to_string()));
}

#[test]
fn search_stops_at_the_first_hit() {
    let entries = vec![
        entry("a.txt", 1, Some("\\x{0}")),
        entry("b.tex", 1, Some("nothing")),
        entry("c.tex", 1, Some("-\n\\x{1}\n\\x{2}")),
        entry("d.tex", 1, Some("\\x{3}")),
    ];
    assert_eq!(find_in_tex_files(&entries, |l| extract_arg(l, "\\x")), Some("1".to_string()));
    assert_eq!(find_in_tex_files(&entries, |l| extract_arg(l, "\\y")), None);
}
