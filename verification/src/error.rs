//! What can go wrong, and how it is reported.

use crate::command::{pass_digit, Pass};
use vstd::prelude::*;

verus! {

/// Each way in which a run can fail. `S` is the type of the texts that a failure carries.
#[derive(Debug, PartialEq, Eq)]
pub enum Failure<S> {
    /// git could not be run to look a branch up.
    GitNotRun,
    /// An argument names nothing that can be compared.
    NotASource { arg: S },
    /// `git archive` could not be run.
    ArchiveNotRun { branch: S },
    /// `git archive` reported an error.
    ArchiveFailed { branch: S, detail: S },
    /// The directory to unpack into cannot be handed to tar.
    TempDirNotUtf8,
    /// tar could not be started.
    TarNotSpawned,
    /// tar takes no input.
    TarStdinMissing,
    /// The archive could not be written to tar.
    TarNotFed,
    /// tar reported an error.
    TarFailed,
    /// No file of a directory can be its root.
    NoMainTex { dir: S },
    /// Several files of a directory can be its root, and none lies at its top.
    ManyMainTex { listing: S },
    /// A file of the project could not be copied.
    CopyFailed { path: S },
    /// The stub for bibtex could not be written.
    StubNotWritten { stem: S },
    /// bibtex could not be run on a stub.
    BibtexNotRun,
    /// The root file's name has no stem.
    NoStem,
    /// The bibliography tool could not be run.
    ToolNotRun { tool: S },
    /// latexdiff could not be run.
    LatexdiffNotRun,
    /// latexdiff reported an error.
    LatexdiffFailed { detail: S },
    /// latexdiff wrote something that is no text.
    DiffNotUtf8,
    /// The marked-up source could not be written.
    DiffNotWritten { path: S },
    /// pdflatex left no PDF.
    NoPdf { pass: Pass, dir: S },
    /// A required program is not installed.
    ToolMissing { tool: S },
    /// A temporary directory could not be created.
    TempDirNotCreated,
    /// The output directory could not be created.
    OutputDirNotCreated { path: S },
}

/// A failure as it is returned.
pub type Error = Failure<String>;

impl View for Failure<String> {
    type V = Failure<Seq<char>>;

    open spec fn view(&self) -> Failure<Seq<char>> {
        match self {
            Failure::GitNotRun => Failure::GitNotRun,
            Failure::NotASource { arg } => Failure::NotASource { arg: arg@ },
            Failure::ArchiveNotRun { branch } => Failure::ArchiveNotRun { branch: branch@ },
            Failure::ArchiveFailed { branch, detail } => Failure::ArchiveFailed { branch: branch@, detail: detail@ },
            Failure::TempDirNotUtf8 => Failure::TempDirNotUtf8,
            Failure::TarNotSpawned => Failure::TarNotSpawned,
            Failure::TarStdinMissing => Failure::TarStdinMissing,
            Failure::TarNotFed => Failure::TarNotFed,
            Failure::TarFailed => Failure::TarFailed,
            Failure::NoMainTex { dir } => Failure::NoMainTex { dir: dir@ },
            Failure::ManyMainTex { listing } => Failure::ManyMainTex { listing: listing@ },
            Failure::CopyFailed { path } => Failure::CopyFailed { path: path@ },
            Failure::StubNotWritten { stem } => Failure::StubNotWritten { stem: stem@ },
            Failure::BibtexNotRun => Failure::BibtexNotRun,
            Failure::NoStem => Failure::NoStem,
            Failure::ToolNotRun { tool } => Failure::ToolNotRun { tool: tool@ },
            Failure::LatexdiffNotRun => Failure::LatexdiffNotRun,
            Failure::LatexdiffFailed { detail } => Failure::LatexdiffFailed { detail: detail@ },
            Failure::DiffNotUtf8 => Failure::DiffNotUtf8,
            Failure::DiffNotWritten { path } => Failure::DiffNotWritten { path: path@ },
            Failure::NoPdf { pass, dir } => Failure::NoPdf { pass: *pass, dir: dir@ },
            Failure::ToolMissing { tool } => Failure::ToolMissing { tool: tool@ },
            Failure::TempDirNotCreated => Failure::TempDirNotCreated,
            Failure::OutputDirNotCreated { path } => Failure::OutputDirNotCreated { path: path@ },
        }
    }
}

/// The line by which a failure is reported.
pub open spec fn message_of(failure: Failure<Seq<char>>) -> Seq<char> {
    match failure {
        Failure::GitNotRun => "failed to run git — is it installed?"@,
        Failure::NotASource { arg } => "'"@ + arg + "' is not a file, directory, or git branch"@,
        Failure::ArchiveNotRun { branch } => "git archive failed for branch '"@ + branch + "'"@,
        Failure::ArchiveFailed { branch, detail } => "git archive '"@ + branch + "' failed: "@ + detail,
        Failure::TempDirNotUtf8 => "temp dir path is not valid UTF-8"@,
        Failure::TarNotSpawned => "failed to spawn tar"@,
        Failure::TarStdinMissing => "tar stdin not available"@,
        Failure::TarNotFed => "piping archive to tar"@,
        Failure::TarFailed => "tar extraction failed"@,
        Failure::NoMainTex { dir } => "no .tex file with \\documentclass found in "@ + dir,
        Failure::ManyMainTex { listing } => "multiple root .tex files found — pass a specific file instead:\n"@ + listing,
        Failure::CopyFailed { path } => "copying "@ + path,
        Failure::StubNotWritten { stem } => "writing stub "@ + stem + ".aux"@,
        Failure::BibtexNotRun => "failed to run bibtex"@,
        Failure::NoStem => "main tex file has no stem"@,
        Failure::ToolNotRun { tool } => "failed to run `"@ + tool + "`"@,
        Failure::LatexdiffNotRun => "failed to run `latexdiff`"@,
        Failure::LatexdiffFailed { detail } => "latexdiff failed:\n"@ + detail,
        Failure::DiffNotUtf8 => "latexdiff output contains non-UTF-8 bytes"@,
        Failure::DiffNotWritten { path } => "writing "@ + path,
        Failure::NoPdf { pass, dir } => "pdflatex failed on pass "@ + pass_digit(pass) + " and produced no output — see "@ + dir + "/diff.log"@,
        Failure::ToolMissing { tool } => "`"@ + tool + "` not found in PATH — please install it"@,
        Failure::TempDirNotCreated => "creating temp dir"@,
        Failure::OutputDirNotCreated { path } => "creating output dir "@ + path,
    }
}

impl Failure<String> {
    /// The line by which the failure is reported.
    pub fn message(&self) -> (m: String)
        ensures
            m@ == message_of(self@),
    {
        match self {
            Failure::GitNotRun => "failed to run git — is it installed?".to_owned(),
            Failure::NotASource { arg } => {
                let mut m = "'".to_owned();
                m.append(arg.as_str());
                m.append("' is not a file, directory, or git branch");
                m
            },
            Failure::ArchiveNotRun { branch } => {
                let mut m = "git archive failed for branch '".to_owned();
                m.append(branch.as_str());
                m.append("'");
                m
            },
            Failure::ArchiveFailed { branch, detail } => {
                let mut m = "git archive '".to_owned();
                m.append(branch.as_str());
                m.append("' failed: ");
                m.append(detail.as_str());
                m
            },
            Failure::TempDirNotUtf8 => "temp dir path is not valid UTF-8".to_owned(),
            Failure::TarNotSpawned => "failed to spawn tar".to_owned(),
            Failure::TarStdinMissing => "tar stdin not available".to_owned(),
            Failure::TarNotFed => "piping archive to tar".to_owned(),
            Failure::TarFailed => "tar extraction failed".to_owned(),
            Failure::NoMainTex { dir } => {
                let mut m = "no .tex file with \\documentclass found in ".to_owned();
                m.append(dir.as_str());
                m
            },
            Failure::ManyMainTex { listing } => {
                let mut m = "multiple root .tex files found — pass a specific file instead:\n".to_owned();
                m.append(listing.as_str());
                m
            },
            Failure::CopyFailed { path } => {
                let mut m = "copying ".to_owned();
                m.append(path.as_str());
                m
            },
            Failure::StubNotWritten { stem } => {
                let mut m = "writing stub ".to_owned();
                m.append(stem.as_str());
                m.append(".aux");
                m
            },
            Failure::BibtexNotRun => "failed to run bibtex".to_owned(),
            Failure::NoStem => "main tex file has no stem".to_owned(),
            Failure::ToolNotRun { tool } => {
                let mut m = "failed to run `".to_owned();
                m.append(tool.as_str());
                m.append("`");
                m
            },
            Failure::LatexdiffNotRun => "failed to run `latexdiff`".to_owned(),
            Failure::LatexdiffFailed { detail } => {
                let mut m = "latexdiff failed:\n".to_owned();
                m.append(detail.as_str());
                m
            },
            Failure::DiffNotUtf8 => "latexdiff output contains non-UTF-8 bytes".to_owned(),
            Failure::DiffNotWritten { path } => {
                let mut m = "writing ".to_owned();
                m.append(path.as_str());
                m
            },
            Failure::NoPdf { pass, dir } => {
                let mut m = "pdflatex failed on pass ".to_owned();
                m.append(pass.digit());
                m.append(" and produced no output — see ");
                m.append(dir.as_str());
                m.append("/diff.log");
                m
            },
            Failure::ToolMissing { tool } => {
                let mut m = "`".to_owned();
                m.append(tool.as_str());
                m.append("` not found in PATH — please install it");
                m
            },
            Failure::TempDirNotCreated => "creating temp dir".to_owned(),
            Failure::OutputDirNotCreated { path } => {
                let mut m = "creating output dir ".to_owned();
                m.append(path.as_str());
                m
            },
        }
    }
}

/// Every failure is reported by its own message, with the names that it is about in it.
pub proof fn lemma_messages(
    arg: Seq<char>,
    branch: Seq<char>,
    detail: Seq<char>,
    dir: Seq<char>,
    listing: Seq<char>,
    pass: Pass,
    path: Seq<char>,
    stem: Seq<char>,
    tool: Seq<char>,
)
    ensures
        message_of(Failure::<Seq<char>>::GitNotRun) == "failed to run git — is it installed?"@,
        message_of(Failure::<Seq<char>>::NotASource { arg }) == "'"@ + arg + "' is not a file, directory, or git branch"@,
        message_of(Failure::<Seq<char>>::ArchiveNotRun { branch }) == "git archive failed for branch '"@ + branch + "'"@,
        message_of(Failure::<Seq<char>>::ArchiveFailed { branch, detail }) == "git archive '"@ + branch + "' failed: "@ + detail,
        message_of(Failure::<Seq<char>>::TempDirNotUtf8) == "temp dir path is not valid UTF-8"@,
        message_of(Failure::<Seq<char>>::TarNotSpawned) == "failed to spawn tar"@,
        message_of(Failure::<Seq<char>>::TarStdinMissing) == "tar stdin not available"@,
        message_of(Failure::<Seq<char>>::TarNotFed) == "piping archive to tar"@,
        message_of(Failure::<Seq<char>>::TarFailed) == "tar extraction failed"@,
        message_of(Failure::<Seq<char>>::NoMainTex { dir }) == "no .tex file with \\documentclass found in "@ + dir,
        message_of(Failure::<Seq<char>>::ManyMainTex { listing }) == "multiple root .tex files found — pass a specific file instead:\n"@ + listing,
        message_of(Failure::<Seq<char>>::CopyFailed { path }) == "copying "@ + path,
        message_of(Failure::<Seq<char>>::StubNotWritten { stem }) == "writing stub "@ + stem + ".aux"@,
        message_of(Failure::<Seq<char>>::BibtexNotRun) == "failed to run bibtex"@,
        message_of(Failure::<Seq<char>>::NoStem) == "main tex file has no stem"@,
        message_of(Failure::<Seq<char>>::ToolNotRun { tool }) == "failed to run `"@ + tool + "`"@,
        message_of(Failure::<Seq<char>>::LatexdiffNotRun) == "failed to run `latexdiff`"@,
        message_of(Failure::<Seq<char>>::LatexdiffFailed { detail }) == "latexdiff failed:\n"@ + detail,
        message_of(Failure::<Seq<char>>::DiffNotUtf8) == "latexdiff output contains non-UTF-8 bytes"@,
        message_of(Failure::<Seq<char>>::DiffNotWritten { path }) == "writing "@ + path,
        message_of(Failure::<Seq<char>>::NoPdf { pass, dir }) == "pdflatex failed on pass "@ + pass_digit(pass) + " and produced no output — see "@ + dir + "/diff.log"@,
        message_of(Failure::<Seq<char>>::ToolMissing { tool }) == "`"@ + tool + "` not found in PATH — please install it"@,
        message_of(Failure::<Seq<char>>::TempDirNotCreated) == "creating temp dir"@,
        message_of(Failure::<Seq<char>>::OutputDirNotCreated { path }) == "creating output dir "@ + path,
{
}

/// A failure carries the names that it was made with.
pub proof fn lemma_failure_view(
    arg: String,
    branch: String,
    detail: String,
    dir: String,
    listing: String,
    pass: Pass,
    path: String,
    stem: String,
    tool: String,
)
    ensures
        Failure::<String>::GitNotRun@ == Failure::<Seq<char>>::GitNotRun,
        (Failure::<String>::NotASource { arg })@ == (Failure::<Seq<char>>::NotASource { arg: arg@ }),
        (Failure::<String>::ArchiveNotRun { branch })@ == (Failure::<Seq<char>>::ArchiveNotRun { branch: branch@ }),
        (Failure::<String>::ArchiveFailed { branch, detail })@ == (Failure::<Seq<char>>::ArchiveFailed { branch: branch@, detail: detail@ }),
        Failure::<String>::TempDirNotUtf8@ == Failure::<Seq<char>>::TempDirNotUtf8,
        Failure::<String>::TarNotSpawned@ == Failure::<Seq<char>>::TarNotSpawned,
        Failure::<String>::TarStdinMissing@ == Failure::<Seq<char>>::TarStdinMissing,
        Failure::<String>::TarNotFed@ == Failure::<Seq<char>>::TarNotFed,
        Failure::<String>::TarFailed@ == Failure::<Seq<char>>::TarFailed,
        (Failure::<String>::NoMainTex { dir })@ == (Failure::<Seq<char>>::NoMainTex { dir: dir@ }),
        (Failure::<String>::ManyMainTex { listing })@ == (Failure::<Seq<char>>::ManyMainTex { listing: listing@ }),
        (Failure::<String>::CopyFailed { path })@ == (Failure::<Seq<char>>::CopyFailed { path: path@ }),
        (Failure::<String>::StubNotWritten { stem })@ == (Failure::<Seq<char>>::StubNotWritten { stem: stem@ }),
        Failure::<String>::BibtexNotRun@ == Failure::<Seq<char>>::BibtexNotRun,
        Failure::<String>::NoStem@ == Failure::<Seq<char>>::NoStem,
        (Failure::<String>::ToolNotRun { tool })@ == (Failure::<Seq<char>>::ToolNotRun { tool: tool@ }),
        Failure::<String>::LatexdiffNotRun@ == Failure::<Seq<char>>::LatexdiffNotRun,
        (Failure::<String>::LatexdiffFailed { detail })@ == (Failure::<Seq<char>>::LatexdiffFailed { detail: detail@ }),
        Failure::<String>::DiffNotUtf8@ == Failure::<Seq<char>>::DiffNotUtf8,
        (Failure::<String>::DiffNotWritten { path })@ == (Failure::<Seq<char>>::DiffNotWritten { path: path@ }),
        (Failure::<String>::NoPdf { pass, dir })@ == (Failure::<Seq<char>>::NoPdf { pass, dir: dir@ }),
        (Failure::<String>::ToolMissing { tool })@ == (Failure::<Seq<char>>::ToolMissing { tool: tool@ }),
        Failure::<String>::TempDirNotCreated@ == Failure::<Seq<char>>::TempDirNotCreated,
        (Failure::<String>::OutputDirNotCreated { path })@ == (Failure::<Seq<char>>::OutputDirNotCreated { path: path@ }),
{
}

} // verus!
