//! The two versions to compare: what an argument names, and how it becomes a root file.

use crate::bytes::{show_bytes, shown_bytes};
use crate::command::{archive_args, tar_args, Exit, Output};
use crate::error::{Error, Failure};
use crate::text::{opt_text, texts, trim, trimmed};
use vstd::prelude::*;

verus! {

/// A version to compare. `S` is the type of the names.
#[derive(Debug, PartialEq, Eq)]
pub enum Source<S> {
    GitBranch(S),
    File(S),
    Directory(S),
}

impl View for Source<String> {
    type V = Source<Seq<char>>;

    open spec fn view(&self) -> Source<Seq<char>> {
        match self {
            Source::GitBranch(branch) => Source::GitBranch(branch@),
            Source::File(path) => Source::File(path@),
            Source::Directory(path) => Source::Directory(path@),
        }
    }
}

/// What was learnt about an argument.
#[derive(Clone, Copy, Debug, PartialEq, Eq, Structural)]
pub enum SourceReply {
    /// It names a file, or does not.
    File(bool),
    /// It names a directory, or does not.
    Directory(bool),
    /// git was asked whether it names a revision.
    Revision(Exit),
}

/// What to do next to find out what an argument names.
#[derive(Debug, PartialEq, Eq)]
pub enum DetectStep<S> {
    /// See whether it names a directory.
    AskDirectory,
    /// Ask git whether it names a revision.
    AskGit,
    /// It is known.
    Found(Source<S>),
    /// It names nothing that can be compared, or git could not be asked.
    Fail(Failure<S>),
}

impl View for DetectStep<String> {
    type V = DetectStep<Seq<char>>;

    open spec fn view(&self) -> DetectStep<Seq<char>> {
        match self {
            DetectStep::AskDirectory => DetectStep::AskDirectory,
            DetectStep::AskGit => DetectStep::AskGit,
            DetectStep::Found(source) => DetectStep::Found(source@),
            DetectStep::Fail(failure) => DetectStep::Fail(failure@),
        }
    }
}

/// What to do about `arg` after `reply`.
pub open spec fn detect_step(arg: Seq<char>, reply: SourceReply) -> DetectStep<Seq<char>> {
    match reply {
        SourceReply::File(true) => DetectStep::Found(Source::File(arg)),
        SourceReply::File(false) => DetectStep::AskDirectory,
        SourceReply::Directory(true) => DetectStep::Found(Source::Directory(arg)),
        SourceReply::Directory(false) => DetectStep::AskGit,
        SourceReply::Revision(Exit::NotRun) => DetectStep::Fail(Failure::GitNotRun),
        SourceReply::Revision(Exit::Exited(true)) => DetectStep::Found(Source::GitBranch(arg)),
        SourceReply::Revision(Exit::Exited(false)) => DetectStep::Fail(Failure::NotASource { arg }),
    }
}

/// Decides what to do about `arg` after `reply`. The first thing to learn is whether it names a
/// file.
pub fn detect_source(arg: &str, reply: SourceReply) -> (step: DetectStep<String>)
    ensures
        step@ == detect_step(arg@, reply),
{
    match reply {
        SourceReply::File(true) => DetectStep::Found(Source::File(arg.to_owned())),
        SourceReply::File(false) => DetectStep::AskDirectory,
        SourceReply::Directory(true) => DetectStep::Found(Source::Directory(arg.to_owned())),
        SourceReply::Directory(false) => DetectStep::AskGit,
        SourceReply::Revision(Exit::NotRun) => DetectStep::Fail(Failure::GitNotRun),
        SourceReply::Revision(Exit::Exited(true)) => DetectStep::Found(
            Source::GitBranch(arg.to_owned()),
        ),
        SourceReply::Revision(Exit::Exited(false)) => DetectStep::Fail(
            Failure::NotASource { arg: arg.to_owned() },
        ),
    }
}

/// Where the questions about `arg` end, if these are the answers.
pub open spec fn detected(
    arg: Seq<char>,
    is_file: bool,
    is_directory: bool,
    git: Exit,
) -> DetectStep<Seq<char>> {
    match detect_step(arg, SourceReply::File(is_file)) {
        DetectStep::AskDirectory => match detect_step(arg, SourceReply::Directory(is_directory)) {
            DetectStep::AskGit => detect_step(arg, SourceReply::Revision(git)),
            step => step,
        },
        step => step,
    }
}

/// A file goes before a directory, and a directory before a branch; an argument is refused only
/// where it is none of them or git cannot tell.
pub proof fn lemma_source_precedence(
    arg: Seq<char>,
    is_file: bool,
    is_directory: bool,
    git: Exit,
)
    ensures
        detected(arg, is_file, is_directory, git) == (if is_file {
            DetectStep::Found(Source::File(arg))
        } else if is_directory {
            DetectStep::Found(Source::Directory(arg))
        } else if git == Exit::Exited(true) {
            DetectStep::Found(Source::GitBranch(arg))
        } else if git == Exit::NotRun {
            DetectStep::Fail(Failure::GitNotRun)
        } else {
            DetectStep::Fail(Failure::NotASource { arg })
        }),
{
}

/// What became of tar, to which an archive was to be fed.
#[derive(Clone, Copy, Debug, PartialEq, Eq, Structural)]
pub enum TarReply {
    /// It could not be started.
    NotSpawned,
    /// It takes no input.
    StdinMissing,
    /// The archive could not be written to it.
    NotFed,
    /// It ended, and reported success or not.
    Exited(bool),
}

/// What came of the last thing done to unpack a branch.
#[derive(Debug, PartialEq, Eq)]
pub enum ExtractReply {
    /// Nothing is done yet.
    Started,
    /// git was run for its output.
    Archive(Output),
    /// tar was run.
    Tar(TarReply),
}

/// What to do next to unpack a branch. `S` is the type of the texts that a step carries, `L` that
/// of a list of them, and `B` that of bytes.
#[derive(Debug, PartialEq, Eq)]
pub enum ExtractStep<S, L, B> {
    /// Run git for its output.
    RunGit { args: L },
    /// Run tar and feed it `input`.
    RunTar { args: L, input: B },
    /// The branch is unpacked.
    Done,
    /// Stop here.
    Fail(Failure<S>),
}

impl View for ExtractStep<String, Vec<String>, Vec<u8>> {
    type V = ExtractStep<Seq<char>, Seq<Seq<char>>, Seq<u8>>;

    open spec fn view(&self) -> ExtractStep<Seq<char>, Seq<Seq<char>>, Seq<u8>> {
        match self {
            ExtractStep::RunGit { args } => ExtractStep::RunGit { args: texts(args@) },
            ExtractStep::RunTar { args, input } => ExtractStep::RunTar {
                args: texts(args@),
                input: input@,
            },
            ExtractStep::Done => ExtractStep::Done,
            ExtractStep::Fail(failure) => ExtractStep::Fail(failure@),
        }
    }
}

/// The failure of `git archive` that its error output tells of.
pub open spec fn archive_failure_of(branch: Seq<char>, stderr: Seq<char>) -> Failure<Seq<char>> {
    Failure::ArchiveFailed { branch, detail: trimmed(stderr) }
}

/// The failure of `git archive` that its error output tells of.
pub fn archive_failure(branch: &str, stderr: &str) -> (failure: Error)
    ensures
        failure@ == archive_failure_of(branch@, stderr@),
{
    Failure::ArchiveFailed { branch: branch.to_owned(), detail: trim(stderr) }
}

/// Where the unpacking ends after tar was run.
pub open spec fn unpacked(tar: TarReply) -> ExtractStep<Seq<char>, Seq<Seq<char>>, Seq<u8>> {
    match tar {
        TarReply::NotSpawned => ExtractStep::Fail(Failure::TarNotSpawned),
        TarReply::StdinMissing => ExtractStep::Fail(Failure::TarStdinMissing),
        TarReply::NotFed => ExtractStep::Fail(Failure::TarNotFed),
        TarReply::Exited(true) => ExtractStep::Done,
        TarReply::Exited(false) => ExtractStep::Fail(Failure::TarFailed),
    }
}

/// What to do to unpack `branch` after `reply`, into the directory `dest`, whose name is `None`
/// where it is no text.
pub open spec fn extract_step(
    branch: Seq<char>,
    dest: Option<Seq<char>>,
    reply: ExtractReply,
) -> ExtractStep<Seq<char>, Seq<Seq<char>>, Seq<u8>> {
    match reply {
        ExtractReply::Started => ExtractStep::RunGit { args: seq!["archive"@, branch] },
        ExtractReply::Archive(Output::NotRun) => ExtractStep::Fail(
            Failure::ArchiveNotRun { branch },
        ),
        ExtractReply::Archive(Output::Exited { success, stdout, stderr }) => if !success {
            ExtractStep::Fail(archive_failure_of(branch, shown_bytes(stderr@)))
        } else {
            match dest {
                Some(d) => ExtractStep::RunTar { args: seq!["-x"@, "-C"@, d], input: stdout@ },
                None => ExtractStep::Fail(Failure::TempDirNotUtf8),
            }
        },
        ExtractReply::Tar(tar) => unpacked(tar),
    }
}

/// Decides what to do to unpack `branch` after `reply`, into the directory `dest`, whose name is
/// `None` where it is no text.
pub fn extract_git_branch(
    branch: &str,
    dest: Option<&str>,
    reply: ExtractReply,
) -> (step: ExtractStep<String, Vec<String>, Vec<u8>>)
    ensures
        step@ == extract_step(
            branch@,
            match dest {
                Some(d) => Some(d@),
                None => None,
            },
            reply,
        ),
{
    match reply {
        ExtractReply::Started => ExtractStep::RunGit { args: archive_args(branch) },
        ExtractReply::Archive(Output::NotRun) => ExtractStep::Fail(
            Failure::ArchiveNotRun { branch: branch.to_owned() },
        ),
        ExtractReply::Archive(Output::Exited { success, stdout, stderr }) => {
            if !success {
                let shown = show_bytes(&stderr);
                return ExtractStep::Fail(archive_failure(branch, shown.as_str()));
            }
            match dest {
                Some(d) => ExtractStep::RunTar { args: tar_args(d), input: stdout },
                None => ExtractStep::Fail(Failure::TempDirNotUtf8),
            }
        },
        ExtractReply::Tar(tar) => match tar {
            TarReply::NotSpawned => ExtractStep::Fail(Failure::TarNotSpawned),
            TarReply::StdinMissing => ExtractStep::Fail(Failure::TarStdinMissing),
            TarReply::NotFed => ExtractStep::Fail(Failure::TarNotFed),
            TarReply::Exited(success) => {
                if success {
                    ExtractStep::Done
                } else {
                    ExtractStep::Fail(Failure::TarFailed)
                }
            },
        },
    }
}

/// What a step brings, where `archive` is what becomes of git and `tar` what becomes of tar. After
/// the last step nothing more is brought.
pub open spec fn extract_reply(
    step: ExtractStep<Seq<char>, Seq<Seq<char>>, Seq<u8>>,
    archive: Output,
    tar: TarReply,
) -> Option<ExtractReply> {
    match step {
        ExtractStep::RunGit { .. } => Some(ExtractReply::Archive(archive)),
        ExtractStep::RunTar { .. } => Some(ExtractReply::Tar(tar)),
        ExtractStep::Done => None,
        ExtractStep::Fail(_) => None,
    }
}

/// The steps that follow `reply`, at most `fuel` of them.
pub open spec fn extract_run(
    branch: Seq<char>,
    dest: Option<Seq<char>>,
    archive: Output,
    tar: TarReply,
    reply: ExtractReply,
    fuel: nat,
) -> Seq<ExtractStep<Seq<char>, Seq<Seq<char>>, Seq<u8>>>
    decreases fuel,
{
    if fuel == 0 {
        seq![]
    } else {
        let step = extract_step(branch, dest, reply);
        match extract_reply(step, archive, tar) {
            Some(next) => seq![step] + extract_run(
                branch,
                dest,
                archive,
                tar,
                next,
                (fuel - 1) as nat,
            ),
            None => seq![step],
        }
    }
}

/// A branch is unpacked by one run of `git archive` and one of tar, which is fed exactly what git
/// wrote and unpacks it into `dest`. tar is run only where git succeeds and the directory can be
/// named, and the branch is unpacked exactly where tar is run and succeeds.
pub proof fn lemma_extraction(
    branch: Seq<char>,
    dest: Option<Seq<char>>,
    archive: Output,
    tar: TarReply,
    fuel: nat,
)
    requires
        fuel >= 3,
    ensures
        extract_run(branch, dest, archive, tar, ExtractReply::Started, fuel) == (match archive {
            Output::NotRun => seq![
                ExtractStep::RunGit { args: seq!["archive"@, branch] },
                ExtractStep::Fail(Failure::ArchiveNotRun { branch }),
            ],
            Output::Exited { success, stdout, stderr } => if !success {
                seq![
                    ExtractStep::RunGit { args: seq!["archive"@, branch] },
                    ExtractStep::Fail(archive_failure_of(branch, shown_bytes(stderr@))),
                ]
            } else {
                match dest {
                    None => seq![
                        ExtractStep::RunGit { args: seq!["archive"@, branch] },
                        ExtractStep::Fail(Failure::TempDirNotUtf8),
                    ],
                    Some(d) => seq![
                        ExtractStep::RunGit { args: seq!["archive"@, branch] },
                        ExtractStep::RunTar { args: seq!["-x"@, "-C"@, d], input: stdout@ },
                        unpacked(tar),
                    ],
                }
            },
        }),
        unpacked(tar) is Done <==> tar == TarReply::Exited(true),
        unpacked(tar) is Done || unpacked(tar) is Fail,
{
    reveal_with_fuel(extract_run, 4);
}

/// The root file of a version: the file that was named, or one that a search came to, by its
/// position among the entries that were searched.
#[derive(Debug, PartialEq, Eq)]
pub enum MainFile<S> {
    Given(S),
    Found(usize),
}

/// What came of the last thing done to resolve a source.
#[derive(Debug, PartialEq, Eq)]
pub enum ResolveReply<S> {
    /// The branch was unpacked.
    Extracted,
    /// The search for the root ended at this entry.
    Searched(usize),
    /// It failed.
    Failed(Failure<S>),
}

/// What to do next to resolve a source.
#[derive(Debug, PartialEq, Eq)]
pub enum ResolveStep<S> {
    /// Unpack the branch into the directory `dest`.
    Extract { branch: S, dest: S },
    /// Search the directory `dir` for the root.
    Search { dir: S },
    /// The source is resolved to a root file and, unless a file was named, the directory that its
    /// assets lie in.
    Done { main: MainFile<S>, assets: Option<S> },
    /// Stop here.
    Fail(Failure<S>),
}

impl View for MainFile<String> {
    type V = MainFile<Seq<char>>;

    open spec fn view(&self) -> MainFile<Seq<char>> {
        match self {
            MainFile::Given(path) => MainFile::Given(path@),
            MainFile::Found(i) => MainFile::Found(*i),
        }
    }
}

impl View for ResolveReply<String> {
    type V = ResolveReply<Seq<char>>;

    open spec fn view(&self) -> ResolveReply<Seq<char>> {
        match self {
            ResolveReply::Extracted => ResolveReply::Extracted,
            ResolveReply::Searched(i) => ResolveReply::Searched(*i),
            ResolveReply::Failed(failure) => ResolveReply::Failed(failure@),
        }
    }
}

impl View for ResolveStep<String> {
    type V = ResolveStep<Seq<char>>;

    open spec fn view(&self) -> ResolveStep<Seq<char>> {
        match self {
            ResolveStep::Extract { branch, dest } => ResolveStep::Extract {
                branch: branch@,
                dest: dest@,
            },
            ResolveStep::Search { dir } => ResolveStep::Search { dir: dir@ },
            ResolveStep::Done { main, assets } => ResolveStep::Done {
                main: main@,
                assets: opt_text(*assets),
            },
            ResolveStep::Fail(failure) => ResolveStep::Fail(failure@),
        }
    }
}

/// The first thing to do to resolve a source, with `tmp` as the directory to unpack into.
pub open spec fn resolve_start(
    source: Source<Seq<char>>,
    tmp: Seq<char>,
) -> ResolveStep<Seq<char>> {
    match source {
        Source::File(path) => ResolveStep::Done { main: MainFile::Given(path), assets: None },
        Source::Directory(dir) => ResolveStep::Search { dir },
        Source::GitBranch(branch) => ResolveStep::Extract { branch, dest: tmp },
    }
}

/// What to do to resolve a source after `step` was done and brought `reply`. A reply that does not
/// belong to the step changes nothing.
pub open spec fn resolve_step(
    step: ResolveStep<Seq<char>>,
    reply: ResolveReply<Seq<char>>,
) -> ResolveStep<Seq<char>> {
    match reply {
        ResolveReply::Failed(failure) => ResolveStep::Fail(failure),
        ResolveReply::Extracted => match step {
            ResolveStep::Extract { branch, dest } => ResolveStep::Search { dir: dest },
            _ => step,
        },
        ResolveReply::Searched(i) => match step {
            ResolveStep::Search { dir } => ResolveStep::Done {
                main: MainFile::Found(i),
                assets: Some(dir),
            },
            _ => step,
        },
    }
}

/// Decides the first thing to do to resolve a source, with `tmp` as the directory to unpack into.
pub fn resolve_source(source: Source<String>, tmp: &str) -> (step: ResolveStep<String>)
    ensures
        step@ == resolve_start(source@, tmp@),
{
    match source {
        Source::File(path) => ResolveStep::Done { main: MainFile::Given(path), assets: None },
        Source::Directory(dir) => ResolveStep::Search { dir },
        Source::GitBranch(branch) => ResolveStep::Extract { branch, dest: tmp.to_owned() },
    }
}

/// Decides what to do to resolve a source after `step` was done and brought `reply`.
pub fn resolve_next(
    step: ResolveStep<String>,
    reply: ResolveReply<String>,
) -> (next: ResolveStep<String>)
    ensures
        next@ == resolve_step(step@, reply@),
{
    match reply {
        ResolveReply::Failed(failure) => ResolveStep::Fail(failure),
        ResolveReply::Extracted => match step {
            ResolveStep::Extract { branch: _, dest } => ResolveStep::Search { dir: dest },
            _ => step,
        },
        ResolveReply::Searched(i) => match step {
            ResolveStep::Search { dir } => ResolveStep::Done {
                main: MainFile::Found(i),
                assets: Some(dir),
            },
            _ => step,
        },
    }
}

/// A named file is the root as it stands and brings no assets. A directory is searched for its
/// root and is itself the place of the assets. A branch is unpacked into the temporary directory,
/// which is then treated as a directory is.
pub proof fn lemma_resolution(name: Seq<char>, tmp: Seq<char>, i: usize)
    ensures
        resolve_start(Source::File(name), tmp) == (ResolveStep::Done {
            main: MainFile::Given(name),
            assets: None,
        }),
        resolve_step(
            resolve_start(Source::Directory(name), tmp),
            ResolveReply::Searched(i),
        ) == (ResolveStep::Done { main: MainFile::Found(i), assets: Some(name) }),
        resolve_start(Source::GitBranch(name), tmp) == (ResolveStep::Extract {
            branch: name,
            dest: tmp,
        }),
        resolve_step(
            resolve_start(Source::GitBranch(name), tmp),
            ResolveReply::Extracted,
        ) == resolve_start(Source::Directory(tmp), tmp),
{
}

/// A source carries the name that it was made with.
pub proof fn lemma_source_view(name: String)
    ensures
        Source::<String>::GitBranch(name)@ == Source::<Seq<char>>::GitBranch(name@),
        Source::<String>::File(name)@ == Source::<Seq<char>>::File(name@),
        Source::<String>::Directory(name)@ == Source::<Seq<char>>::Directory(name@),
{
}

/// An argument that names a file is that file. Otherwise it is the directory that it names, if it
/// does; otherwise git is asked, and it is a branch exactly where git says so.
pub proof fn lemma_detect_steps(arg: Seq<char>)
    ensures
        detect_step(arg, SourceReply::File(true)) == DetectStep::Found(Source::File(arg)),
        detect_step(arg, SourceReply::File(false)) is AskDirectory,
        detect_step(arg, SourceReply::Directory(true)) == DetectStep::Found(Source::Directory(arg)),
        detect_step(arg, SourceReply::Directory(false)) is AskGit,
        detect_step(arg, SourceReply::Revision(Exit::Exited(true))) == DetectStep::Found(
            Source::GitBranch(arg),
        ),
        detect_step(arg, SourceReply::Revision(Exit::Exited(false))) == DetectStep::Fail(
            Failure::NotASource { arg },
        ),
        detect_step(arg, SourceReply::Revision(Exit::NotRun)) == DetectStep::<Seq<char>>::Fail(
            Failure::GitNotRun,
        ),
{
}

/// A step of finding out what an argument names carries what it was made with.
pub proof fn lemma_detect_view(source: Source<String>, failure: Failure<String>)
    ensures
        DetectStep::<String>::AskDirectory@ is AskDirectory,
        DetectStep::<String>::AskGit@ is AskGit,
        DetectStep::<String>::Found(source)@ == DetectStep::<Seq<char>>::Found(source@),
        DetectStep::<String>::Fail(failure)@ == DetectStep::<Seq<char>>::Fail(failure@),
{
}

/// A failure of `git archive` names the branch and gives git's error output without the white space
/// around it.
pub proof fn lemma_archive_failure(branch: Seq<char>, stderr: Seq<char>)
    ensures
        archive_failure_of(branch, stderr) == (Failure::ArchiveFailed {
            branch,
            detail: trimmed(stderr),
        }),
{
}

/// A branch is unpacked by `git archive` on that branch and tar on that directory, which is fed
/// what git wrote, byte for byte. tar is run only where git succeeded and the directory can be
/// named, and what failed is what it ends with.
pub proof fn lemma_extract_steps(
    branch: Seq<char>,
    dest: Option<Seq<char>>,
    dir: Seq<char>,
    stdout: Vec<u8>,
    stderr: Vec<u8>,
)
    ensures
        extract_step(branch, dest, ExtractReply::Started) matches ExtractStep::RunGit { args }
            && args == seq!["archive"@, branch],
        extract_step(branch, dest, ExtractReply::Archive(Output::NotRun))
            matches ExtractStep::Fail(f) && f == (Failure::ArchiveNotRun { branch }),
        extract_step(
            branch,
            dest,
            ExtractReply::Archive(Output::Exited { success: false, stdout, stderr }),
        ) matches ExtractStep::Fail(f) && f == archive_failure_of(branch, shown_bytes(stderr@)),
        extract_step(
            branch,
            Some(dir),
            ExtractReply::Archive(Output::Exited { success: true, stdout, stderr }),
        ) matches ExtractStep::RunTar { args, input } && args == seq!["-x"@, "-C"@, dir] && input
            == stdout@,
        extract_step(
            branch,
            None,
            ExtractReply::Archive(Output::Exited { success: true, stdout, stderr }),
        ) matches ExtractStep::Fail(f) && f == Failure::<Seq<char>>::TempDirNotUtf8,
        extract_step(branch, dest, ExtractReply::Tar(TarReply::NotSpawned))
            matches ExtractStep::Fail(f) && f == Failure::<Seq<char>>::TarNotSpawned,
        extract_step(branch, dest, ExtractReply::Tar(TarReply::StdinMissing))
            matches ExtractStep::Fail(f) && f == Failure::<Seq<char>>::TarStdinMissing,
        extract_step(branch, dest, ExtractReply::Tar(TarReply::NotFed))
            matches ExtractStep::Fail(f) && f == Failure::<Seq<char>>::TarNotFed,
        extract_step(branch, dest, ExtractReply::Tar(TarReply::Exited(false)))
            matches ExtractStep::Fail(f) && f == Failure::<Seq<char>>::TarFailed,
        extract_step(branch, dest, ExtractReply::Tar(TarReply::Exited(true))) is Done,
{
}

/// A step of unpacking carries the arguments and the bytes that it was made with.
pub proof fn lemma_extract_view(args: Vec<String>, input: Vec<u8>, failure: Failure<String>)
    ensures
        (ExtractStep::<String, Vec<String>, Vec<u8>>::RunGit { args })@ == (ExtractStep::<
            Seq<char>,
            Seq<Seq<char>>,
            Seq<u8>,
        >::RunGit { args: texts(args@) }),
        (ExtractStep::<String, Vec<String>, Vec<u8>>::RunTar { args, input })@ == (ExtractStep::<
            Seq<char>,
            Seq<Seq<char>>,
            Seq<u8>,
        >::RunTar { args: texts(args@), input: input@ }),
        ExtractStep::<String, Vec<String>, Vec<u8>>::Done@ is Done,
        ExtractStep::<String, Vec<String>, Vec<u8>>::Fail(failure)@ == ExtractStep::<
            Seq<char>,
            Seq<Seq<char>>,
            Seq<u8>,
        >::Fail(failure@),
{
}

/// A named file is resolved at once, to itself. A directory is searched, and so is the temporary
/// directory once a branch is unpacked into it; what was searched is where the assets lie, and the
/// root is the one that the search came to. A failure ends it.
pub proof fn lemma_resolve_steps(
    name: Seq<char>,
    tmp: Seq<char>,
    i: usize,
    step: ResolveStep<Seq<char>>,
    failure: Failure<Seq<char>>,
)
    ensures
        resolve_start(Source::File(name), tmp) == (ResolveStep::Done {
            main: MainFile::Given(name),
            assets: None,
        }),
        resolve_start(Source::Directory(name), tmp) == (ResolveStep::Search { dir: name }),
        resolve_start(Source::GitBranch(name), tmp) == (ResolveStep::Extract {
            branch: name,
            dest: tmp,
        }),
        resolve_step(
            ResolveStep::Extract { branch: name, dest: tmp },
            ResolveReply::Extracted,
        ) == (ResolveStep::Search { dir: tmp }),
        resolve_step(ResolveStep::Search { dir: name }, ResolveReply::Searched(i)) == (
        ResolveStep::Done { main: MainFile::Found(i), assets: Some(name) }),
        resolve_step(step, ResolveReply::Failed(failure)) == ResolveStep::Fail(failure),
        !(step is Extract) ==> resolve_step(step, ResolveReply::Extracted) == step,
        !(step is Search) ==> resolve_step(step, ResolveReply::Searched(i)) == step,
{
}

/// Replies and steps of a resolution carry what they were made with.
pub proof fn lemma_resolve_view(
    a: String,
    b: String,
    i: usize,
    main: MainFile<String>,
    assets: Option<String>,
    failure: Failure<String>,
)
    ensures
        MainFile::<String>::Given(a)@ == MainFile::<Seq<char>>::Given(a@),
        MainFile::<String>::Found(i)@ == MainFile::<Seq<char>>::Found(i),
        ResolveReply::<String>::Extracted@ == ResolveReply::<Seq<char>>::Extracted,
        ResolveReply::<String>::Searched(i)@ == ResolveReply::<Seq<char>>::Searched(i),
        ResolveReply::<String>::Failed(failure)@ == ResolveReply::<Seq<char>>::Failed(failure@),
        (ResolveStep::<String>::Extract { branch: a, dest: b })@ == (ResolveStep::<
            Seq<char>,
        >::Extract { branch: a@, dest: b@ }),
        (ResolveStep::<String>::Search { dir: a })@ == (ResolveStep::<Seq<char>>::Search {
            dir: a@,
        }),
        (ResolveStep::<String>::Done { main, assets })@ == (ResolveStep::<Seq<char>>::Done {
            main: main@,
            assets: opt_text(assets),
        }),
        ResolveStep::<String>::Fail(failure)@ == ResolveStep::<Seq<char>>::Fail(failure@),
{
}

} // verus!
