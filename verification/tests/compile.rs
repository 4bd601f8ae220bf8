use pdfdiff::bibliography::BibTool;
use pdfdiff::command::{Call, Exit, Pass};
use pdfdiff::compile::{
    compile_pdf, prebuild, prebuild_next, run_pdflatex, stem_or_fail, CompileReply, CompileStep,
    PrebuildReply, PrebuildStep, DIFF_PDF, DIFF_TEX,
};
use pdfdiff::error::Failure;

#[test]
fn watched_and_silent_runs() {
    let run = run_pdflatex("diff.tex", true);
    assert_eq!(run.args, vec!["-interaction=nonstopmode", "diff.tex"]);
    assert!(!run.quiet);
    let run = run_pdflatex("main.tex", false);
    assert_eq!(run.args, vec!["-interaction=batchmode", "main.tex"]);
    assert!(run.quiet);
}

#[test]
fn names_in_the_output_directory() {
    assert_eq!(DIFF_TEX, "diff.tex");
    assert_eq!(DIFF_PDF, "diff.pdf");
}

fn after(pass: Pass, exit: Exit, has_pdf: bool) -> CompileStep<String, Call<Vec<String>>> {
    compile_pdf("out", CompileReply::PassDone { pass, exit, has_pdf })
}

fn watched(pass: Pass, warning: Option<&str>) -> CompileStep<String, Call<Vec<String>>> {
    CompileStep::RunPass {
        pass,
        call: Call {
            args: vec!["-interaction=nonstopmode".to_string(), "diff.tex".to_string()],
            quiet: false,
        },
        warning: warning.map(|w| w.to_string()),
    }
}

#[test]
fn two_passes_when_all_is_well() {
    assert_eq!(compile_pdf("out", CompileReply::Started), watched(Pass::First, None));
    assert_eq!(after(Pass::First, Exit::Exited(true), false), watched(Pass::Second, None));
    assert_eq!(
        after(Pass::Second, Exit::Exited(true), true),
        CompileStep::Done { warning: None }
    );
}

#[test]
fn errors_with_a_pdf_are_warnings() {
    assert_eq!(
        after(Pass::First, Exit::Exited(false), true),
        watched(
            Pass::Second,
            Some("warning: pdflatex reported errors on pass 1 (see out/diff.log)")
        )
    );
    assert_eq!(
        after(Pass::Second, Exit::NotRun, true),
        CompileStep::Done {
            warning: Some(
                "warning: pdflatex reported errors on pass 2 (see out/diff.log)".to_string()
            ),
        }
    );
}

#[test]
fn errors_without_a_pdf_are_fatal() {
    match after(Pass::Second, Exit::Exited(false), false) {
        CompileStep::Fail(e) => assert_eq!(
            e.message(),
            "pdflatex failed on pass 2 and produced no output — see out/diff.log"
        ),
        step => panic!("{:?}", step),
    }
    assert_eq!(
        after(Pass::First, Exit::NotRun, false),
        CompileStep::Fail(Failure::NoPdf { pass: Pass::First, dir: "out".to_string() })
    );
}

#[test]
fn last_pass_has_to_leave_a_pdf() {
    assert_eq!(
        after(Pass::Second, Exit::Exited(true), false),
        CompileStep::Fail(Failure::NoPdf { pass: Pass::Second, dir: "out".to_string() })
    );
}

#[test]
fn stems_of_root_files() {
    for (name, stem) in [
        ("main.tex", "main"),
        ("main", "main"),
        ("a.b.tex", "a.b"),
        (".tex", ".tex"),
        (".a.tex", ".a"),
        ("...", ".."),
        ("..a", "."),
        ("main.", "main"),
        ("é.tex", "é"),
        ("sub/main.tex", "main"),
        ("a.b/main", "main"),
        ("/main.tex", "main"),
        ("a//b.c.tex", "b.c"),
        ("../main.tex", "main"),
        ("main.tex/", "main"),
        ("sub/main.tex//", "main"),
        ("sub/main.tex/.", "main"),
        ("./main.tex/./", "main"),
    ] {
        assert_eq!(prebuild(name), Ok(stem.to_string()), "{}", name);
    }
}

#[test]
fn no_stem_is_an_error() {
    assert_eq!(prebuild(""), Err(Failure::NoStem));
    for path in [".", "./", "./.", "..", "/", "/.", "a/..", "main.tex/../", "a/../."] {
        assert_eq!(prebuild(path), Err(Failure::NoStem), "{}", path);
    }
    assert_eq!(stem_or_fail(None).unwrap_err().message(), "main tex file has no stem");
    assert_eq!(stem_or_fail(Some("x".to_string())), Ok("x".to_string()));
}

type Step = PrebuildStep<String, Call<Vec<String>>>;

fn run(tool: Option<BibTool>, exit: Exit) -> Vec<Step> {
    let mut steps = Vec::new();
    let mut reply = PrebuildReply::Started;
    loop {
        let step = prebuild_next("main.tex", "main", reply);
        let next = match &step {
            PrebuildStep::GenerateBbls => Some(PrebuildReply::BblsReady),
            PrebuildStep::RunPass { pass, .. } => Some(PrebuildReply::PassDone(*pass)),
            PrebuildStep::DetectTool => Some(PrebuildReply::Detected(tool)),
            PrebuildStep::RunTool { tool, .. } => Some(PrebuildReply::ToolDone(*tool, exit)),
            _ => None,
        };
        steps.push(step);
        match next {
            Some(r) => reply = r,
            None => return steps,
        }
    }
}

fn silent(pass: Pass, warning: Option<&str>) -> Step {
    PrebuildStep::RunPass {
        pass,
        call: Call {
            args: vec!["-interaction=batchmode".to_string(), "main.tex".to_string()],
            quiet: true,
        },
        warning: warning.map(|w| w.to_string()),
    }
}

#[test]
fn failing_bibliographies_end_the_build() {
    assert_eq!(
        prebuild_next("main.tex", "main", PrebuildReply::BblsFailed(Failure::BibtexNotRun)),
        PrebuildStep::Fail(Failure::BibtexNotRun)
    );
}

#[test]
fn build_without_bibliography() {
    assert_eq!(
        run(None, Exit::NotRun),
        vec![
            PrebuildStep::GenerateBbls,
            silent(Pass::First, None),
            PrebuildStep::DetectTool,
            silent(Pass::Second, None),
            PrebuildStep::Done,
        ]
    );
}

#[test]
fn build_with_bibliography() {
    assert_eq!(
        run(Some(BibTool::Biber), Exit::Exited(true)),
        vec![
            PrebuildStep::GenerateBbls,
            silent(Pass::First, None),
            PrebuildStep::DetectTool,
            PrebuildStep::RunTool {
                tool: BibTool::Biber,
                call: Call { args: vec!["main".to_string()], quiet: true },
            },
            silent(Pass::Second, None),
            PrebuildStep::Done,
        ]
    );
    let steps = run(Some(BibTool::Bibtex), Exit::Exited(false));
    assert_eq!(
        steps[4],
        silent(
            Pass::Second,
            Some("warning: bibtex reported errors — bibliography may be incomplete")
        )
    );
}

#[test]
fn tool_that_cannot_be_run_stops_the_build() {
    let steps = run(Some(BibTool::Biber), Exit::NotRun);
    assert_eq!(steps.len(), 5);
    match &steps[4] {
        PrebuildStep::Fail(e) => assert_eq!(e.message(), "failed to run `biber`"),
        step => panic!("{:?}", step),
    }
}
