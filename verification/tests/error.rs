use pdfdiff::command::Pass;
use pdfdiff::error::{Error, Failure};

fn s(text: &str) -> String {
    text.to_string()
}

#[test]
fn every_failure_has_its_message() {
    let cases: Vec<(Error, &str)> = vec![
        (Failure::GitNotRun, "failed to run git — is it installed?"),
        (Failure::NotASource { arg: s("a") }, "'a' is not a file, directory, or git branch"),
        (Failure::ArchiveNotRun { branch: s("b") }, "git archive failed for branch 'b'"),
        (
            Failure::ArchiveFailed { branch: s("b"), detail: s("d") },
            "git archive 'b' failed: d",
        ),
        (Failure::TempDirNotUtf8, "temp dir path is not valid UTF-8"),
        (Failure::TarNotSpawned, "failed to spawn tar"),
        (Failure::TarStdinMissing, "tar stdin not available"),
        (Failure::TarNotFed, "piping archive to tar"),
        (Failure::TarFailed, "tar extraction failed"),
        (
            Failure::NoMainTex { dir: s("p") },
            "no .tex file with \\documentclass found in p",
        ),
        (
            Failure::ManyMainTex { listing: s("  a") },
            "multiple root .tex files found — pass a specific file instead:\n  a",
        ),
        (Failure::CopyFailed { path: s("p") }, "copying p"),
        (Failure::StubNotWritten { stem: s("m") }, "writing stub m.aux"),
        (Failure::BibtexNotRun, "failed to run bibtex"),
        (Failure::NoStem, "main tex file has no stem"),
        (Failure::ToolNotRun { tool: s("biber") }, "failed to run `biber`"),
        (Failure::LatexdiffNotRun, "failed to run `latexdiff`"),
        (Failure::LatexdiffFailed { detail: s("d") }, "latexdiff failed:\nd"),
        (Failure::DiffNotUtf8, "latexdiff output contains non-UTF-8 bytes"),
        (Failure::DiffNotWritten { path: s("p") }, "writing p"),
        (
            Failure::NoPdf { pass: Pass::First, dir: s("o") },
            "pdflatex failed on pass 1 and produced no output — see o/diff.log",
        ),
        (
            Failure::ToolMissing { tool: s("t") },
            "`t` not found in PATH — please install it",
        ),
        (Failure::TempDirNotCreated, "creating temp dir"),
        (Failure::OutputDirNotCreated { path: s("p") }, "creating output dir p"),
    ];
    for (failure, message) in cases {
        assert_eq!(failure.message(), message);
    }
}
