use pdfdiff::command::{archive_args, rev_parse_args, tar_args, Exit, Output};
use pdfdiff::error::Failure;
use pdfdiff::source::{
    archive_failure, detect_source, extract_git_branch, resolve_next, resolve_source, DetectStep,
    ExtractReply, ExtractStep, MainFile, ResolveReply, ResolveStep, Source, SourceReply, TarReply,
};

fn s(text: &str) -> String {
    text.to_string()
}

#[test]
fn file_goes_before_directory_before_branch() {
    assert_eq!(
        detect_source("x", SourceReply::File(true)),
        DetectStep::Found(Source::File(s("x")))
    );
    assert_eq!(detect_source("x", SourceReply::File(false)), DetectStep::AskDirectory);
    assert_eq!(
        detect_source("x", SourceReply::Directory(true)),
        DetectStep::Found(Source::Directory(s("x")))
    );
    assert_eq!(detect_source("x", SourceReply::Directory(false)), DetectStep::AskGit);
    assert_eq!(
        detect_source("x", SourceReply::Revision(Exit::Exited(true))),
        DetectStep::Found(Source::GitBranch(s("x")))
    );
}

#[test]
fn unknown_argument_is_refused() {
    match detect_source("x", SourceReply::Revision(Exit::Exited(false))) {
        DetectStep::Fail(e) => {
            assert_eq!(e.message(), "'x' is not a file, directory, or git branch")
        }
        step => panic!("{:?}", step),
    }
    assert_eq!(
        detect_source("x", SourceReply::Revision(Exit::NotRun)),
        DetectStep::Fail(Failure::GitNotRun)
    );
}

#[test]
fn arguments_of_git_and_tar() {
    assert_eq!(rev_parse_args("main"), vec!["rev-parse", "--verify", "main"]);
    assert_eq!(archive_args("main"), vec!["archive", "main"]);
    assert_eq!(tar_args("/tmp/x"), vec!["-x", "-C", "/tmp/x"]);
}

fn archive(success: bool, stderr: &[u8]) -> ExtractReply {
    ExtractReply::Archive(Output::Exited {
        success,
        stdout: vec![1, 2],
        stderr: stderr.to_vec(),
    })
}

#[test]
fn archive_is_unpacked() {
    assert_eq!(
        extract_git_branch("b", Some("/tmp/x"), ExtractReply::Started),
        ExtractStep::RunGit { args: vec![s("archive"), s("b")] }
    );
    assert_eq!(
        extract_git_branch("b", Some("/tmp/x"), archive(true, b"noise")),
        ExtractStep::RunTar { args: vec![s("-x"), s("-C"), s("/tmp/x")], input: vec![1, 2] }
    );
    assert_eq!(
        extract_git_branch("b", Some("/tmp/x"), ExtractReply::Tar(TarReply::Exited(true))),
        ExtractStep::Done
    );
}

#[test]
fn git_and_tar_run_once_each() {
    let mut runs = Vec::new();
    let mut reply = ExtractReply::Started;
    loop {
        reply = match extract_git_branch("b", Some("d"), reply) {
            ExtractStep::RunGit { args } => {
                runs.push((args, Vec::new()));
                ExtractReply::Archive(Output::Exited {
                    success: true,
                    stdout: vec![0xff, 0],
                    stderr: Vec::new(),
                })
            }
            ExtractStep::RunTar { args, input } => {
                runs.push((args, input));
                ExtractReply::Tar(TarReply::Exited(true))
            }
            ExtractStep::Done => break,
            step => panic!("{:?}", step),
        };
    }
    assert_eq!(
        runs,
        vec![
            (vec![s("archive"), s("b")], Vec::new()),
            (vec![s("-x"), s("-C"), s("d")], vec![0xff, 0]),
        ]
    );
}

#[test]
fn failing_archive_tells_why() {
    match extract_git_branch("b", Some("d"), archive(false, "  fatal: é\n".as_bytes())) {
        ExtractStep::Fail(e) => assert_eq!(e.message(), "git archive 'b' failed: fatal: é"),
        step => panic!("{:?}", step),
    }
    match extract_git_branch("b", None, archive(false, b" \xff \n")) {
        ExtractStep::Fail(e) => assert_eq!(e.message(), "git archive 'b' failed: \u{fffd}"),
        step => panic!("{:?}", step),
    }
    assert_eq!(archive_failure("b", " x ").message(), "git archive 'b' failed: x");
}

#[test]
fn each_way_unpacking_can_fail() {
    let cases = vec![
        (ExtractReply::Archive(Output::NotRun), "git archive failed for branch 'b'"),
        (archive(true, b""), "temp dir path is not valid UTF-8"),
        (ExtractReply::Tar(TarReply::NotSpawned), "failed to spawn tar"),
        (ExtractReply::Tar(TarReply::StdinMissing), "tar stdin not available"),
        (ExtractReply::Tar(TarReply::NotFed), "piping archive to tar"),
        (ExtractReply::Tar(TarReply::Exited(false)), "tar extraction failed"),
    ];
    for (reply, message) in cases {
        match extract_git_branch("b", None, reply) {
            ExtractStep::Fail(e) => assert_eq!(e.message(), message),
            step => panic!("{:?}", step),
        }
    }
}

#[test]
fn named_file_is_resolved_at_once() {
    assert_eq!(
        resolve_source(Source::File(s("a.tex")), "/tmp"),
        ResolveStep::Done { main: MainFile::Given(s("a.tex")), assets: None }
    );
}

#[test]
fn directory_is_searched() {
    let step = resolve_source(Source::Directory(s("p")), "/tmp");
    assert_eq!(step, ResolveStep::Search { dir: s("p") });
    assert_eq!(
        resolve_next(step, ResolveReply::Searched(3)),
        ResolveStep::Done { main: MainFile::Found(3), assets: Some(s("p")) }
    );
}

#[test]
fn branch_is_unpacked_and_searched() {
    let step = resolve_source(Source::GitBranch(s("b")), "/tmp");
    assert_eq!(step, ResolveStep::Extract { branch: s("b"), dest: s("/tmp") });
    let step = resolve_next(step, ResolveReply::Extracted);
    assert_eq!(step, ResolveStep::Search { dir: s("/tmp") });
    assert_eq!(
        resolve_next(step, ResolveReply::Searched(0)),
        ResolveStep::Done { main: MainFile::Found(0), assets: Some(s("/tmp")) }
    );
}

#[test]
fn failures_end_a_resolution() {
    let step = resolve_source(Source::GitBranch(s("b")), "/tmp");
    assert_eq!(
        resolve_next(step, ResolveReply::Failed(Failure::TarFailed)),
        ResolveStep::Fail(Failure::TarFailed)
    );
    let step: ResolveStep<String> = ResolveStep::Search { dir: s("p") };
    assert_eq!(
        resolve_next(step, ResolveReply::Extracted),
        ResolveStep::Search { dir: s("p") }
    );
}
