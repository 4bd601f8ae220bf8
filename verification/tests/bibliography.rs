use pdfdiff::bibliography::{
    aux_name, bbl_job, bbl_references, bcf_name, bibliography_database, bibliography_style,
    detect_bib_tool, generate_missing_bbls, missing_bbls, next_job, tool_call, BblPlan, BblReply,
    BblStep, BibTool, DirectoryItem, JobsReply, JobsStep,
};
use pdfdiff::command::{Call, Exit};
use pdfdiff::error::Failure;
use pdfdiff::project::Entry;

fn tex(content: &str) -> Entry {
    Entry {
        shown: "x.tex".to_string(),
        extension: Some("tex".to_string()),
        depth: 1,
        is_file: true,
        content: Some(content.as_bytes().to_vec()),
    }
}

fn item(extension: Option<&str>, stem: Option<&str>) -> DirectoryItem {
    DirectoryItem {
        extension: extension.map(|s| s.to_string()),
        stem: stem.map(|s| s.to_string()),
    }
}

#[test]
fn embedded_bibliographies_are_found() {
    let entries = vec![tex(
        "  \\input{main.bbl}\n\\input{intro}\n% \\input{ b.bbl }\n\\input{intro.tex} \\input{c.bbl}\n\\input{main.bbl}",
    )];
    assert_eq!(bbl_references(&entries), vec!["main.bbl", "b.bbl", "c.bbl", "main.bbl"]);
}

#[test]
fn every_reference_on_a_line_counts() {
    for (line, names) in [
        ("\\input{a.bbl}\\input{b.bbl}", vec!["a.bbl", "b.bbl"]),
        ("\\input{intro}\\input{main.bbl}", vec!["main.bbl"]),
        ("\\input{a.bbl} \\input{x} \\input{ b.bbl }", vec!["a.bbl", "b.bbl"]),
        ("\\input{a.bbl} \\input{b.bbl", vec!["a.bbl"]),
        ("\\input{} \\inputx{y.bbl} \\input {z.bbl} \\input{é.bbl}", vec!["é.bbl"]),
        ("\\input\\input{a.bbl}", vec!["a.bbl"]),
        ("\\input", vec![]),
    ] {
        assert_eq!(bbl_references(&vec![tex(line)]), names, "{:?}", line);
    }
}

#[test]
fn second_reference_on_a_line_is_generated() {
    let entries = vec![tex("\\bibliography{refs}\n\\input{intro}\\input{main.bbl}\n")];
    match generate_missing_bbls(&entries, &Vec::new(), &Vec::new()) {
        BblPlan::Generate(jobs) => {
            assert_eq!(jobs.len(), 1);
            assert_eq!(jobs[0].stem, "main");
        }
        plan => panic!("{:?}", plan),
    }
}

#[test]
fn missing_bibliographies_are_named_once() {
    let entries = vec![
        tex("\\input{b.bbl}\n\\input{a.bbl}\n\\input{b.bbl}"),
        tex("\\input{c.bbl}\n\\input{a.bbl}\n\\input{d.bbl}"),
    ];
    let existing = vec!["c.bbl".to_string()];
    assert_eq!(missing_bbls(&entries, &existing), vec!["b.bbl", "a.bbl", "d.bbl"]);
}

#[test]
fn style_is_the_first_or_plain() {
    let entries = vec![
        tex("x"),
        tex("\\bibliographystyle{ ACM-Reference-Format }\n\\bibliographystyle{alpha}"),
    ];
    assert_eq!(bibliography_style(&entries), "ACM-Reference-Format");
    assert_eq!(bibliography_style(&vec![tex("\\bibliography{x}")]), "plain");
}

#[test]
fn database_may_be_commented_out() {
    let entries = vec![tex("\\bibliographystyle{plain}\n  %% % \\bibliography{no}\n %%% \\bibliography{refs}")];
    // Only the percent signs at the start are taken off, with the white space around them.
    assert_eq!(bibliography_database(&entries, &Vec::new()), Some("no".to_string()));
    let entries = vec![tex(" %%% \\bibliography{refs}")];
    assert_eq!(bibliography_database(&entries, &Vec::new()), Some("refs".to_string()));
}

#[test]
fn database_falls_back_to_the_first_bib_file() {
    let items = vec![
        item(Some("tex"), Some("main")),
        item(None, Some("bib")),
        item(Some("bib"), None),
        item(Some("bib"), Some("refs")),
        item(Some("bib"), Some("more")),
    ];
    assert_eq!(bibliography_database(&vec![tex("x")], &items), Some("refs".to_string()));
    assert_eq!(
        bibliography_database(&vec![tex("\\bibliography{named}")], &items),
        Some("named".to_string())
    );
    assert_eq!(bibliography_database(&vec![tex("x")], &Vec::new()), None);
}

#[test]
fn nothing_missing_means_nothing_to_do() {
    let entries = vec![tex("\\bibliography{refs}\n\\input{a.bbl}")];
    let existing = vec!["a.bbl".to_string()];
    assert_eq!(generate_missing_bbls(&entries, &existing, &Vec::new()), BblPlan::Nothing);
}

#[test]
fn missing_database_is_a_warning() {
    let entries = vec![tex("\\input{a.bbl}\n\\input{b.bbl}")];
    match generate_missing_bbls(&entries, &Vec::new(), &Vec::new()) {
        BblPlan::NoDatabase { warning } => assert_eq!(
            warning,
            "warning: a.bbl, b.bbl missing but no .bib file found — bibliography will be empty"
        ),
        plan => panic!("{:?}", plan),
    }
}

#[test]
fn embedded_bibliography_is_generated() {
    let entries = vec![tex("\\bibliographystyle{alpha}\n%\\bibliography{refs}\n\\input{main.bbl}")];
    match generate_missing_bbls(&entries, &Vec::new(), &Vec::new()) {
        BblPlan::Generate(jobs) => {
            assert_eq!(jobs.len(), 1);
            assert_eq!(jobs[0].bbl, "main.bbl");
            assert_eq!(jobs[0].stem, "main");
            assert_eq!(jobs[0].aux_name, "main.aux");
            assert_eq!(
                jobs[0].aux,
                "\\relax\n\\bibdata{refs}\n\\bibstyle{alpha}\n\\citation{*}\n"
            );
            assert_eq!(
                jobs[0].announcement,
                "  generating main.bbl via bibtex (refs.bib / alpha)..."
            );
        }
        plan => panic!("{:?}", plan),
    }
}

#[test]
fn stem_loses_every_suffix() {
    assert_eq!(bbl_job("a.bbl.bbl", "d", "s").stem, "a");
    assert_eq!(bbl_job("sub/a.bbl", "d", "s").aux_name, "sub/a.aux");
}

#[test]
fn generated_file_is_the_missing_one() {
    for bbl in ["main.bbl", "sub/x.y.bbl", ".bbl"] {
        assert_eq!(format!("{}.bbl", bbl_job(bbl, "d", "s").stem), bbl);
    }
}

#[test]
fn steps_of_a_job() {
    let job = bbl_job("main.bbl", "refs", "plain");
    assert_eq!(
        job.next(BblReply::Started),
        BblStep::WriteStub {
            name: "main.aux".to_string(),
            content: "\\relax\n\\bibdata{refs}\n\\bibstyle{plain}\n\\citation{*}\n".to_string()
        }
    );
    assert_eq!(
        job.next(BblReply::Stub(true)),
        BblStep::RunBibtex(Call { args: vec!["main".to_string()], quiet: true })
    );
    assert_eq!(
        job.next(BblReply::Bibtex(Exit::Exited(true))),
        BblStep::RemoveStub { warning: None }
    );
    assert_eq!(
        job.next(BblReply::Bibtex(Exit::Exited(false))),
        BblStep::RemoveStub {
            warning: Some("warning: bibtex reported errors generating main.bbl".to_string())
        }
    );
    match job.next(BblReply::Stub(false)) {
        BblStep::Fail(e) => assert_eq!(e.message(), "writing stub main.aux"),
        step => panic!("{:?}", step),
    }
    assert_eq!(
        job.next(BblReply::Bibtex(Exit::NotRun)),
        BblStep::RemoveStubAndFail(Failure::BibtexNotRun)
    );
}

#[test]
fn tools_run_silently_on_a_stem() {
    assert_eq!(tool_call("main"), Call { args: vec!["main".to_string()], quiet: true });
}

/// The jobs that are carried out where these fail.
fn carried_out(count: usize, failing: &[usize]) -> (Vec<usize>, JobsStep<String>) {
    let jobs: Vec<_> = (0..count).map(|k| bbl_job(&format!("{k}.bbl"), "d", "s")).collect();
    let mut done = Vec::new();
    let mut reply = JobsReply::Started;
    loop {
        reply = match next_job(&jobs, reply) {
            JobsStep::Run(k) => {
                done.push(k);
                if failing.contains(&k) {
                    JobsReply::Failed(Failure::BibtexNotRun)
                } else {
                    JobsReply::Done(k)
                }
            }
            end => return (done, end),
        };
    }
}

#[test]
fn jobs_are_carried_out_in_order() {
    assert_eq!(carried_out(0, &[]), (Vec::new(), JobsStep::Done));
    assert_eq!(carried_out(1, &[]), (vec![0], JobsStep::Done));
    assert_eq!(carried_out(3, &[]), (vec![0, 1, 2], JobsStep::Done));
}

#[test]
fn first_failing_job_ends_it_all() {
    let end = || JobsStep::Fail(Failure::BibtexNotRun);
    assert_eq!(carried_out(3, &[1]), (vec![0, 1], end()));
    assert_eq!(carried_out(3, &[0, 2]), (vec![0], end()));
    assert_eq!(carried_out(3, &[2]), (vec![0, 1, 2], end()));
    assert_eq!(next_job(&Vec::new(), JobsReply::Done(usize::MAX)), JobsStep::Done);
}

fn latin(content: &[u8]) -> Entry {
    let mut entry = tex("");
    entry.content = Some(content.to_vec());
    entry
}

#[test]
fn argument_that_is_not_utf8_is_passed_over() {
    let items = vec![item(Some("bib"), Some("refs"))];
    let entries = vec![latin(b"\\bibliography{r\xE9fs}")];
    assert_eq!(bibliography_database(&entries, &items), Some("refs".to_string()));
    assert_eq!(bibliography_database(&entries, &Vec::new()), None);
    let entries = vec![latin(b"\\bibliographystyle{\xE9}"), tex("\\bibliographystyle{alpha}")];
    assert_eq!(bibliography_style(&entries), "alpha");
    assert_eq!(bibliography_style(&vec![latin(b"\\bibliographystyle{\xE9}")]), "plain");
    assert_eq!(bbl_references(&vec![latin(b"\\input{caf\xE9.bbl}")]), Vec::<String>::new());
    assert_eq!(
        generate_missing_bbls(&vec![latin(b"\\input{caf\xE9.bbl}")], &Vec::new(), &items),
        BblPlan::Nothing
    );
}

#[test]
fn argument_beside_broken_bytes_counts() {
    assert_eq!(
        bbl_references(&vec![latin(b"\xE9\\input{main.bbl}\xE9 \\input{\xE9.bbl}\\input{ \xC3\xA9.bbl }\xFF")]),
        vec!["main.bbl", "é.bbl"]
    );
    let entries = vec![latin(b"%\xE9 \\bibliography{refs} % \xE9")];
    assert_eq!(bibliography_database(&entries, &Vec::new()), Some("refs".to_string()));
}

#[test]
fn tools_are_told_apart() {
    let named = b"\\relax\n\\bibdata{x}".to_vec();
    let plain = b"\\relax".to_vec();
    assert_eq!(detect_bib_tool(true, Some(&named)), Some(BibTool::Biber));
    assert_eq!(detect_bib_tool(true, None), Some(BibTool::Biber));
    assert_eq!(detect_bib_tool(false, Some(&named)), Some(BibTool::Bibtex));
    assert_eq!(detect_bib_tool(false, Some(&plain)), None);
    assert_eq!(detect_bib_tool(false, None), None);
    let latin = b"\\@writefile{\xE9}\n\\bibdata{x}".to_vec();
    assert_eq!(detect_bib_tool(false, Some(&latin)), Some(BibTool::Bibtex));
    assert_eq!(BibTool::Biber.name(), "biber");
    assert_eq!(BibTool::Bibtex.name(), "bibtex");
}

#[test]
fn stub_is_for_bibtex() {
    let job = bbl_job("main.bbl", "", "}");
    assert_eq!(detect_bib_tool(false, Some(&job.aux.into_bytes())), Some(BibTool::Bibtex));
}

#[test]
fn names_of_side_files() {
    assert_eq!(aux_name("main"), "main.aux");
    assert_eq!(bcf_name("main"), "main.bcf");
}
