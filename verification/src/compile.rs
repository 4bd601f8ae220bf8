//! The runs of pdflatex: the build of the modified version that comes first, and the build of the
//! marked-up source.

use crate::bibliography::{tool_call, tool_call_of, tool_name, BibTool};
use crate::command::{pass_digit, Call, Exit, Pass};
use crate::error::{Error, Failure};
use crate::text::{opt_text, texts};
use vstd::prelude::*;

verus! {

/// The name of the marked-up source in the output directory.
pub const DIFF_TEX: &'static str = "diff.tex";

/// The name of the PDF in the output directory.
pub const DIFF_PDF: &'static str = "diff.pdf";

/// How pdflatex is run on `tex_file`. A run that the user is to watch shows its output and does not
/// stop at errors; any other is silent.
pub open spec fn latex_call(tex_file: Seq<char>, interactive: bool) -> Call<Seq<Seq<char>>> {
    Call {
        args: seq![
            if interactive {
                "-interaction=nonstopmode"@
            } else {
                "-interaction=batchmode"@
            },
            tex_file,
        ],
        quiet: !interactive,
    }
}

/// How pdflatex is run on `tex_file`. A run that the user is to watch shows its output and does not
/// stop at errors; any other is silent.
pub fn run_pdflatex(tex_file: &str, interactive: bool) -> (call: Call<Vec<String>>)
    ensures
        call@ == latex_call(tex_file@, interactive),
        call.args@.len() == 2,
        call.args@.last()@ == tex_file@,
        call.quiet == !interactive,
{
    let mode = if interactive {
        "-interaction=nonstopmode"
    } else {
        "-interaction=batchmode"
    };
    let args = vec![mode.to_owned(), tex_file.to_owned()];
    assert(texts(args@) =~= seq![mode@, tex_file@]);
    Call { args, quiet: !interactive }
}

/// What came of the last thing done to build the marked-up source.
#[derive(Clone, Copy, Debug, PartialEq, Eq, Structural)]
pub enum CompileReply {
    /// Nothing is done yet.
    Started,
    /// pdflatex was run; `has_pdf` is whether there is a PDF after it.
    PassDone { pass: Pass, exit: Exit, has_pdf: bool },
}

/// What to do next to build the marked-up source. `S` is the type of the texts that a step carries,
/// `C` that of a call.
#[derive(Debug, PartialEq, Eq)]
pub enum CompileStep<S, C> {
    /// Warn if there is a warning, then run pdflatex.
    RunPass { pass: Pass, call: C, warning: Option<S> },
    /// Warn if there is a warning; the PDF is ready.
    Done { warning: Option<S> },
    /// Stop here.
    Fail(Failure<S>),
}

impl View for CompileStep<String, Call<Vec<String>>> {
    type V = CompileStep<Seq<char>, Call<Seq<Seq<char>>>>;

    open spec fn view(&self) -> CompileStep<Seq<char>, Call<Seq<Seq<char>>>> {
        match self {
            CompileStep::RunPass { pass, call, warning } => CompileStep::RunPass {
                pass: *pass,
                call: call@,
                warning: opt_text(*warning),
            },
            CompileStep::Done { warning } => CompileStep::Done { warning: opt_text(*warning) },
            CompileStep::Fail(failure) => CompileStep::Fail(failure@),
        }
    }
}

/// The warning about a pass that reported errors but left a PDF.
pub open spec fn pass_warning(pass: Pass, dir: Seq<char>) -> Seq<char> {
    "warning: pdflatex reported errors on pass "@ + pass_digit(pass) + " (see "@ + dir
        + "/diff.log)"@
}

/// What to do after `reply` to build the marked-up source in the output directory `dir`. A pass
/// that fails has to leave a PDF, and so has the last one whether it fails or not.
pub open spec fn compile_step(
    dir: Seq<char>,
    reply: CompileReply,
) -> CompileStep<Seq<char>, Call<Seq<Seq<char>>>> {
    match reply {
        CompileReply::Started => CompileStep::RunPass {
            pass: Pass::First,
            call: latex_call(DIFF_TEX@, true),
            warning: None,
        },
        CompileReply::PassDone { pass, exit, has_pdf } => if !has_pdf && (exit != Exit::Exited(true)
            || pass == Pass::Second) {
            CompileStep::Fail(Failure::NoPdf { pass, dir })
        } else {
            let warning = if exit == Exit::Exited(true) {
                None
            } else {
                Some(pass_warning(pass, dir))
            };
            match pass {
                Pass::First => CompileStep::RunPass {
                    pass: Pass::Second,
                    call: latex_call(DIFF_TEX@, true),
                    warning,
                },
                Pass::Second => CompileStep::Done { warning },
            }
        },
    }
}

/// Decides what to do after `reply` to build the marked-up source in the output directory `dir`.
pub fn compile_pdf(
    dir: &str,
    reply: CompileReply,
) -> (step: CompileStep<String, Call<Vec<String>>>)
    ensures
        step@ == compile_step(dir@, reply),
{
    let (pass, exit, has_pdf) = match reply {
        CompileReply::Started => {
            return CompileStep::RunPass {
                pass: Pass::First,
                call: run_pdflatex(DIFF_TEX, true),
                warning: None,
            };
        },
        CompileReply::PassDone { pass, exit, has_pdf } => (pass, exit, has_pdf),
    };
    let ok = match exit {
        Exit::Exited(success) => success,
        Exit::NotRun => false,
    };
    let last = match pass {
        Pass::First => false,
        Pass::Second => true,
    };
    if !has_pdf && (!ok || last) {
        return CompileStep::Fail(Failure::NoPdf { pass, dir: dir.to_owned() });
    }
    let warning = if ok {
        None
    } else {
        let mut text = "warning: pdflatex reported errors on pass ".to_owned();
        text.append(pass.digit());
        text.append(" (see ");
        text.append(dir);
        text.append("/diff.log)");
        Some(text)
    };
    match pass {
        Pass::First => CompileStep::RunPass {
            pass: Pass::Second,
            call: run_pdflatex(DIFF_TEX, true),
            warning,
        },
        Pass::Second => CompileStep::Done { warning },
    }
}

/// What a step brings, where `first` and `second` are what becomes of the two passes and the flags
/// are whether there is a PDF after them. After the last step nothing more is brought.
pub open spec fn compile_reply(
    step: CompileStep<Seq<char>, Call<Seq<Seq<char>>>>,
    first: (Exit, bool),
    second: (Exit, bool),
) -> Option<CompileReply> {
    match step {
        CompileStep::RunPass { pass, .. } => {
            let (exit, has_pdf) = match pass {
                Pass::First => first,
                Pass::Second => second,
            };
            Some(CompileReply::PassDone { pass, exit, has_pdf })
        },
        CompileStep::Done { .. } => None,
        CompileStep::Fail(_) => None,
    }
}

/// The steps of a build that follow `reply`, at most `fuel` of them.
pub open spec fn compile_run(
    dir: Seq<char>,
    first: (Exit, bool),
    second: (Exit, bool),
    reply: CompileReply,
    fuel: nat,
) -> Seq<CompileStep<Seq<char>, Call<Seq<Seq<char>>>>>
    decreases fuel,
{
    if fuel == 0 {
        seq![]
    } else {
        let step = compile_step(dir, reply);
        match compile_reply(step, first, second) {
            Some(next) => seq![step] + compile_run(dir, first, second, next, (fuel - 1) as nat),
            None => seq![step],
        }
    }
}

/// The marked-up source is compiled exactly twice, for the user to watch, unless the first pass
/// fails and leaves no PDF. The build succeeds exactly where the second pass is reached and there
/// is a PDF after it; a pass that reported errors brings a warning.
pub proof fn lemma_two_passes(
    dir: Seq<char>,
    first: (Exit, bool),
    second: (Exit, bool),
    fuel: nat,
)
    requires
        fuel >= 3,
    ensures
        compile_run(dir, first, second, CompileReply::Started, fuel) == (if first.0 != Exit::Exited(
            true,
        ) && !first.1 {
            seq![
                CompileStep::RunPass {
                    pass: Pass::First,
                    call: latex_call(DIFF_TEX@, true),
                    warning: None,
                },
                CompileStep::Fail(Failure::NoPdf { pass: Pass::First, dir }),
            ]
        } else {
            seq![
                CompileStep::RunPass {
                    pass: Pass::First,
                    call: latex_call(DIFF_TEX@, true),
                    warning: None,
                },
                CompileStep::RunPass {
                    pass: Pass::Second,
                    call: latex_call(DIFF_TEX@, true),
                    warning: if first.0 == Exit::Exited(true) {
                        None
                    } else {
                        Some(pass_warning(Pass::First, dir))
                    },
                },
                if !second.1 {
                    CompileStep::Fail(Failure::NoPdf { pass: Pass::Second, dir })
                } else {
                    CompileStep::Done {
                        warning: if second.0 == Exit::Exited(true) {
                            None
                        } else {
                            Some(pass_warning(Pass::Second, dir))
                        },
                    }
                },
            ]
        }),
{
    reveal_with_fuel(compile_run, 4);
}

/// A path that is taken apart in the same way everywhere, at `/` and nowhere else: no character
/// that some system takes for another separator, and no `//` at the start, which some system takes
/// for the name of a share.
pub open spec fn portable_path(path: Seq<char>) -> bool {
    &&& !path.contains('\\')
    &&& !path.contains(':')
    &&& !(path.len() >= 2 && path[0] == '/' && path[1] == '/')
}

/// What stands behind the last `/` of a path.
pub open spec fn last_part(path: Seq<char>) -> Seq<char>
    decreases path.len(),
{
    if path.len() == 0 || path.last() == '/' {
        seq![]
    } else {
        last_part(path.drop_last()).push(path.last())
    }
}

/// The part of a path that can name a file: the last one, where `/` and `/.` at the end of the path
/// do not count.
pub open spec fn file_part(path: Seq<char>) -> Seq<char>
    decreases path.len(),
{
    let last = last_part(path);
    if last.len() < path.len() && (last.len() == 0 || last == "."@) {
        file_part(path.take(path.len() - last.len() - 1))
    } else {
        last
    }
}

/// A file name up to its last dot; a name whose only dot is its first character has no such part
/// and is its own stem.
pub open spec fn name_stem(name: Seq<char>) -> Seq<char> {
    if exists|i: int| last_dot(name, i) {
        name.take(choose|i: int| last_dot(name, i))
    } else {
        name
    }
}

/// The last dot of a name stands at `i`, and something stands in front of it.
pub open spec fn last_dot(name: Seq<char>, i: int) -> bool {
    &&& 0 < i < name.len()
    &&& name[i] == '.'
    &&& forall|j: int| i < j < name.len() ==> name[j] != '.'
}

/// The stem of the file that a path names, if it names one.
pub open spec fn stem_of_path(path: Seq<char>) -> Option<Seq<char>> {
    let name = file_part(path);
    if name.len() == 0 || name == "."@ || name == ".."@ {
        None
    } else {
        Some(name_stem(name))
    }
}

/// `std::path::Path::file_stem` gives the stem of a path's last component, for which repeated and
/// trailing separators and `.` components do not count, and none where no component names a file:
/// there is none, or the last one is `.` or `..`. What separates components differs between
/// systems: nothing is stated of paths that hold `\` or `:` or begin with `//`.
#[verifier::external_body]
fn file_stem(path: &str) -> (stem: Option<String>)
    ensures
        portable_path(path@) ==> opt_text(stem) == stem_of_path(path@),
{
    std::path::Path::new(path).file_stem().and_then(|s| s.to_str()).map(|s| s.to_string())
}

/// The stem of the root file, or the failure where there is none.
pub fn stem_or_fail(stem: Option<String>) -> (result: Result<String, Error>)
    ensures
        match result {
            Ok(s) => opt_text(stem) == Some(s@),
            Err(e) => stem is None && e@ == Failure::<Seq<char>>::NoStem,
        },
{
    match stem {
        Some(s) => Ok(s),
        None => Err(Failure::NoStem),
    }
}

/// Begins the build of the modified version, whose root file in the output directory is
/// `main_tex`: finds the stem under which pdflatex and the bibliography tools keep their files.
pub fn prebuild(main_tex: &str) -> (stem: Result<String, Error>)
    ensures
        portable_path(main_tex@) ==> match stem {
            Ok(s) => stem_of_path(main_tex@) == Some(s@),
            Err(_) => stem_of_path(main_tex@) is None,
        },
        stem matches Err(e) ==> e@ == Failure::<Seq<char>>::NoStem,
{
    stem_or_fail(file_stem(main_tex))
}

/// What stands behind the last `/` is what follows one and holds none.
proof fn lemma_last_part(dir: Seq<char>, name: Seq<char>)
    requires
        !name.contains('/'),
    ensures
        last_part(name) == name,
        last_part(dir + seq!['/'] + name) == name,
    decreases name.len(),
{
    let path = dir + seq!['/'] + name;
    if name.len() > 0 {
        let shorter = name.drop_last();
        assert forall|c: char| shorter.contains(c) implies name.contains(c) by {
            let i = choose|i: int| 0 <= i < shorter.len() && shorter[i] == c;
            assert(name[i] == c);
        }
        lemma_last_part(dir, shorter);
        assert(name[name.len() - 1] != '/');
        assert(path.drop_last() =~= dir + seq!['/'] + shorter);
        assert(shorter.push(name.last()) =~= name);
    } else {
        assert(path.last() == '/');
    }
}

/// A file name is the file that it names, and so is one behind a directory: neither the directory
/// nor a `/` or `/.` behind the name changes the stem.
pub proof fn lemma_stem_of_file(dir: Seq<char>, name: Seq<char>)
    requires
        name.len() > 0,
        !name.contains('/'),
        name != "."@,
        name != ".."@,
    ensures
        stem_of_path(name) == Some(name_stem(name)),
        stem_of_path(dir + seq!['/'] + name) == Some(name_stem(name)),
        stem_of_path(dir + seq!['/'] + name + seq!['/']) == Some(name_stem(name)),
        stem_of_path(dir + seq!['/'] + name + seq!['/', '.']) == Some(name_stem(name)),
{
    reveal_strlit(".");
    let path = dir + seq!['/'] + name;
    lemma_last_part(dir, name);
    assert(!Seq::<char>::empty().contains('/'));
    lemma_last_part(path, Seq::<char>::empty());
    assert(path + seq!['/'] =~= path + seq!['/'] + Seq::<char>::empty());
    assert((path + seq!['/']).take(path.len() as int) =~= path);
    assert(!seq!['.'].contains('/'));
    lemma_last_part(path, seq!['.']);
    assert(path + seq!['/', '.'] =~= path + seq!['/'] + seq!['.']);
    assert((path + seq!['/', '.']).take(path.len() as int) =~= path);
    assert("."@ =~= seq!['.']);
}

/// What came of the last thing done to build the modified version. `S` is the type of the texts
/// that a failure carries.
#[derive(Debug, PartialEq, Eq)]
pub enum PrebuildReply<S> {
    /// The stem is known; nothing is done yet.
    Started,
    /// The missing bibliographies were dealt with.
    BblsReady,
    /// A missing bibliography could not be dealt with.
    BblsFailed(Failure<S>),
    /// pdflatex was run; whether it succeeded does not matter.
    PassDone(Pass),
    /// The bibliography tool of the project was looked for.
    Detected(Option<BibTool>),
    /// The bibliography tool was run.
    ToolDone(BibTool, Exit),
}

/// What to do next to build the modified version. `S` is the type of the texts that a step carries,
/// `C` that of a call.
#[derive(Debug, PartialEq, Eq)]
pub enum PrebuildStep<S, C> {
    /// Generate the bibliographies that are missing.
    GenerateBbls,
    /// Warn if there is a warning, then run pdflatex.
    RunPass { pass: Pass, call: C, warning: Option<S> },
    /// Look for the bibliography tool that the project uses.
    DetectTool,
    /// Run the bibliography tool.
    RunTool { tool: BibTool, call: C },
    /// Everything is built.
    Done,
    /// Stop here.
    Fail(Failure<S>),
}

impl View for PrebuildReply<String> {
    type V = PrebuildReply<Seq<char>>;

    open spec fn view(&self) -> PrebuildReply<Seq<char>> {
        match self {
            PrebuildReply::Started => PrebuildReply::Started,
            PrebuildReply::BblsReady => PrebuildReply::BblsReady,
            PrebuildReply::BblsFailed(failure) => PrebuildReply::BblsFailed(failure@),
            PrebuildReply::PassDone(pass) => PrebuildReply::PassDone(*pass),
            PrebuildReply::Detected(tool) => PrebuildReply::Detected(*tool),
            PrebuildReply::ToolDone(tool, exit) => PrebuildReply::ToolDone(*tool, *exit),
        }
    }
}

impl View for PrebuildStep<String, Call<Vec<String>>> {
    type V = PrebuildStep<Seq<char>, Call<Seq<Seq<char>>>>;

    open spec fn view(&self) -> PrebuildStep<Seq<char>, Call<Seq<Seq<char>>>> {
        match self {
            PrebuildStep::GenerateBbls => PrebuildStep::GenerateBbls,
            PrebuildStep::RunPass { pass, call, warning } => PrebuildStep::RunPass {
                pass: *pass,
                call: call@,
                warning: opt_text(*warning),
            },
            PrebuildStep::DetectTool => PrebuildStep::DetectTool,
            PrebuildStep::RunTool { tool, call } => PrebuildStep::RunTool {
                tool: *tool,
                call: call@,
            },
            PrebuildStep::Done => PrebuildStep::Done,
            PrebuildStep::Fail(failure) => PrebuildStep::Fail(failure@),
        }
    }
}

/// The warning about a bibliography tool that reported errors.
pub open spec fn tool_warning(tool: BibTool) -> Seq<char> {
    "warning: "@ + tool_name(tool) + " reported errors — bibliography may be incomplete"@
}

/// The pass over the root file `main_tex`, which is silent.
pub open spec fn build_pass(
    main_tex: Seq<char>,
    pass: Pass,
    warning: Option<Seq<char>>,
) -> PrebuildStep<Seq<char>, Call<Seq<Seq<char>>>> {
    PrebuildStep::RunPass { pass, call: latex_call(main_tex, false), warning }
}

/// What to do after `reply` to build the modified version, whose root file is `main_tex` with the
/// stem `stem`.
pub open spec fn prebuild_step(
    main_tex: Seq<char>,
    stem: Seq<char>,
    reply: PrebuildReply<Seq<char>>,
) -> PrebuildStep<Seq<char>, Call<Seq<Seq<char>>>> {
    match reply {
        PrebuildReply::Started => PrebuildStep::GenerateBbls,
        PrebuildReply::BblsReady => build_pass(main_tex, Pass::First, None),
        PrebuildReply::BblsFailed(failure) => PrebuildStep::Fail(failure),
        PrebuildReply::PassDone(Pass::First) => PrebuildStep::DetectTool,
        PrebuildReply::Detected(Some(tool)) => PrebuildStep::RunTool {
            tool,
            call: tool_call_of(stem),
        },
        PrebuildReply::Detected(None) => build_pass(main_tex, Pass::Second, None),
        PrebuildReply::ToolDone(tool, Exit::NotRun) => PrebuildStep::Fail(
            Failure::ToolNotRun { tool: tool_name(tool) },
        ),
        PrebuildReply::ToolDone(tool, Exit::Exited(true)) => build_pass(
            main_tex,
            Pass::Second,
            None,
        ),
        PrebuildReply::ToolDone(tool, Exit::Exited(false)) => build_pass(
            main_tex,
            Pass::Second,
            Some(tool_warning(tool)),
        ),
        PrebuildReply::PassDone(Pass::Second) => PrebuildStep::Done,
    }
}

/// Decides what to do after `reply` to build the modified version, whose root file is `main_tex`
/// with the stem `stem`.
pub fn prebuild_next(
    main_tex: &str,
    stem: &str,
    reply: PrebuildReply<String>,
) -> (step: PrebuildStep<String, Call<Vec<String>>>)
    ensures
        step@ == prebuild_step(main_tex@, stem@, reply@),
{
    match reply {
        PrebuildReply::Started => PrebuildStep::GenerateBbls,
        PrebuildReply::BblsReady => PrebuildStep::RunPass {
            pass: Pass::First,
            call: run_pdflatex(main_tex, false),
            warning: None,
        },
        PrebuildReply::BblsFailed(failure) => PrebuildStep::Fail(failure),
        PrebuildReply::PassDone(Pass::First) => PrebuildStep::DetectTool,
        PrebuildReply::Detected(Some(tool)) => PrebuildStep::RunTool {
            tool,
            call: tool_call(stem),
        },
        PrebuildReply::Detected(None) => PrebuildStep::RunPass {
            pass: Pass::Second,
            call: run_pdflatex(main_tex, false),
            warning: None,
        },
        PrebuildReply::ToolDone(tool, Exit::NotRun) => PrebuildStep::Fail(
            Failure::ToolNotRun { tool: tool.name().to_owned() },
        ),
        PrebuildReply::ToolDone(_, Exit::Exited(true)) => PrebuildStep::RunPass {
            pass: Pass::Second,
            call: run_pdflatex(main_tex, false),
            warning: None,
        },
        PrebuildReply::ToolDone(tool, Exit::Exited(false)) => {
            let mut text = "warning: ".to_owned();
            text.append(tool.name());
            text.append(" reported errors — bibliography may be incomplete");
            PrebuildStep::RunPass {
                pass: Pass::Second,
                call: run_pdflatex(main_tex, false),
                warning: Some(text),
            }
        },
        PrebuildReply::PassDone(Pass::Second) => PrebuildStep::Done,
    }
}

/// What a step brings, where `bbls` is how the missing bibliographies fail, if they do, `tool` is
/// the project's tool and `exit` is what becomes of it. After the last step nothing more is
/// brought.
pub open spec fn prebuild_reply(
    step: PrebuildStep<Seq<char>, Call<Seq<Seq<char>>>>,
    bbls: Option<Failure<Seq<char>>>,
    tool: Option<BibTool>,
    exit: Exit,
) -> Option<PrebuildReply<Seq<char>>> {
    match step {
        PrebuildStep::GenerateBbls => match bbls {
            Some(failure) => Some(PrebuildReply::BblsFailed(failure)),
            None => Some(PrebuildReply::BblsReady),
        },
        PrebuildStep::RunPass { pass, .. } => Some(PrebuildReply::PassDone(pass)),
        PrebuildStep::DetectTool => Some(PrebuildReply::Detected(tool)),
        PrebuildStep::RunTool { tool: t, .. } => Some(PrebuildReply::ToolDone(t, exit)),
        PrebuildStep::Done => None,
        PrebuildStep::Fail(_) => None,
    }
}

/// The steps of a build that follow `reply`, at most `fuel` of them.
pub open spec fn prebuild_run(
    main_tex: Seq<char>,
    stem: Seq<char>,
    bbls: Option<Failure<Seq<char>>>,
    tool: Option<BibTool>,
    exit: Exit,
    reply: PrebuildReply<Seq<char>>,
    fuel: nat,
) -> Seq<PrebuildStep<Seq<char>, Call<Seq<Seq<char>>>>>
    decreases fuel,
{
    if fuel == 0 {
        seq![]
    } else {
        let step = prebuild_step(main_tex, stem, reply);
        match prebuild_reply(step, bbls, tool, exit) {
            Some(next) => seq![step] + prebuild_run(
                main_tex,
                stem,
                bbls,
                tool,
                exit,
                next,
                (fuel - 1) as nat,
            ),
            None => seq![step],
        }
    }
}

/// The build generates the bibliographies that are missing, runs pdflatex, then the bibliography
/// tool on the stem if the project uses one, then pdflatex once more to resolve the references, all
/// of them silently. Only a bibliography that cannot be dealt with and a tool that cannot be run
/// stop it; a tool that reports errors brings a warning.
pub proof fn lemma_prebuild_order(
    main_tex: Seq<char>,
    stem: Seq<char>,
    bbls: Option<Failure<Seq<char>>>,
    tool: Option<BibTool>,
    exit: Exit,
    fuel: nat,
)
    requires
        fuel >= 6,
    ensures
        prebuild_run(
            main_tex,
            stem,
            bbls,
            tool,
            exit,
            PrebuildReply::Started,
            fuel,
        ) == (match (bbls, tool) {
            (Some(failure), _) => seq![PrebuildStep::GenerateBbls, PrebuildStep::Fail(failure)],
            (None, None) => seq![
                PrebuildStep::GenerateBbls,
                build_pass(main_tex, Pass::First, None),
                PrebuildStep::DetectTool,
                build_pass(main_tex, Pass::Second, None),
                PrebuildStep::Done,
            ],
            (None, Some(t)) => if exit == Exit::NotRun {
                seq![
                    PrebuildStep::GenerateBbls,
                    build_pass(main_tex, Pass::First, None),
                    PrebuildStep::DetectTool,
                    PrebuildStep::RunTool { tool: t, call: tool_call_of(stem) },
                    PrebuildStep::Fail(Failure::ToolNotRun { tool: tool_name(t) }),
                ]
            } else {
                seq![
                    PrebuildStep::GenerateBbls,
                    build_pass(main_tex, Pass::First, None),
                    PrebuildStep::DetectTool,
                    PrebuildStep::RunTool { tool: t, call: tool_call_of(stem) },
                    build_pass(
                        main_tex,
                        Pass::Second,
                        if exit == Exit::Exited(true) {
                            None
                        } else {
                            Some(tool_warning(t))
                        },
                    ),
                    PrebuildStep::Done,
                ]
            },
        }),
{
    reveal_with_fuel(prebuild_run, 7);
}

/// pdflatex is always run on the file that it is called for, behind one flag that says whether it
/// is watched, and is silent exactly where it is not.
pub proof fn lemma_latex_call(tex_file: Seq<char>, interactive: bool)
    ensures
        latex_call(tex_file, interactive).args.len() == 2,
        latex_call(tex_file, interactive).args.last() == tex_file,
        latex_call(tex_file, true).args[0] == "-interaction=nonstopmode"@,
        latex_call(tex_file, false).args[0] == "-interaction=batchmode"@,
        latex_call(tex_file, interactive).quiet <==> !interactive,
{
}

/// The warnings name the pass and the directory, and the tool, that they are about.
pub proof fn lemma_warnings(pass: Pass, dir: Seq<char>, tool: BibTool)
    ensures
        pass_warning(pass, dir) == "warning: pdflatex reported errors on pass "@ + pass_digit(pass)
            + " (see "@ + dir + "/diff.log)"@,
        tool_warning(tool) == "warning: "@ + tool_name(tool)
            + " reported errors — bibliography may be incomplete"@,
{
}

/// The marked-up source is what both passes run on, for the user to watch. The first pass comes
/// first; it is followed by the second unless it fails and leaves no PDF, and the second is followed
/// by success exactly where there is a PDF. A pass that failed is warned of.
pub proof fn lemma_compile_steps(dir: Seq<char>, exit: Exit, has_pdf: bool)
    ensures
        compile_step(dir, CompileReply::Started) matches CompileStep::RunPass {
            pass,
            call,
            warning,
        } && pass == Pass::First && call.args == seq!["-interaction=nonstopmode"@, "diff.tex"@]
            && !call.quiet && warning is None,
        exit == Exit::Exited(true) || has_pdf ==> (compile_step(
            dir,
            CompileReply::PassDone { pass: Pass::First, exit, has_pdf },
        ) matches CompileStep::RunPass { pass, call, warning } && pass == Pass::Second && call.args
            == seq!["-interaction=nonstopmode"@, "diff.tex"@] && !call.quiet && warning == (
        if exit == Exit::Exited(true) {
            None
        } else {
            Some(pass_warning(Pass::First, dir))
        })),
        exit != Exit::Exited(true) && !has_pdf ==> (compile_step(
            dir,
            CompileReply::PassDone { pass: Pass::First, exit, has_pdf },
        ) matches CompileStep::Fail(failure) && failure == (Failure::NoPdf {
            pass: Pass::First,
            dir,
        })),
        has_pdf ==> (compile_step(
            dir,
            CompileReply::PassDone { pass: Pass::Second, exit, has_pdf },
        ) matches CompileStep::Done { warning } && warning == (if exit == Exit::Exited(true) {
            None
        } else {
            Some(pass_warning(Pass::Second, dir))
        })),
        !has_pdf ==> (compile_step(
            dir,
            CompileReply::PassDone { pass: Pass::Second, exit, has_pdf },
        ) matches CompileStep::Fail(failure) && failure == (Failure::NoPdf {
            pass: Pass::Second,
            dir,
        })),
{
    let step = compile_step(dir, CompileReply::Started);
    assert(latex_call(DIFF_TEX@, true).args =~= seq!["-interaction=nonstopmode"@, "diff.tex"@]);
}

/// A step of the build of the marked-up source carries what it was made with.
pub proof fn lemma_compile_view(
    pass: Pass,
    call: Call<Vec<String>>,
    warning: Option<String>,
    failure: Failure<String>,
)
    ensures
        (CompileStep::<String, Call<Vec<String>>>::RunPass { pass, call, warning })@ == (
        CompileStep::<Seq<char>, Call<Seq<Seq<char>>>>::RunPass {
            pass,
            call: call@,
            warning: opt_text(warning),
        }),
        (CompileStep::<String, Call<Vec<String>>>::Done { warning })@ == (CompileStep::<
            Seq<char>,
            Call<Seq<Seq<char>>>,
        >::Done { warning: opt_text(warning) }),
        CompileStep::<String, Call<Vec<String>>>::Fail(failure)@ == CompileStep::<
            Seq<char>,
            Call<Seq<Seq<char>>>,
        >::Fail(failure@),
{
}

/// The only paths that are not the same everywhere are those that hold a backslash or a colon or
/// begin with two slashes.
pub proof fn lemma_portable_path(path: Seq<char>)
    ensures
        portable_path(path) <==> !path.contains('\\') && !path.contains(':') && !seq![
            '/',
            '/',
        ].is_prefix_of(path),
{
    if path.len() >= 2 && path[0] == '/' && path[1] == '/' {
        assert(path.subrange(0, 2) =~= seq!['/', '/']);
    }
    if seq!['/', '/'].is_prefix_of(path) {
        assert(path.subrange(0, 2)[0] == path[0]);
        assert(path.subrange(0, 2)[1] == path[1]);
    }
}

/// The stem of a file name is what stands in front of its last dot; a name without a dot, or with
/// one only at its start, is its own stem.
pub proof fn lemma_name_stem(stem: Seq<char>, extension: Seq<char>)
    requires
        !extension.contains('.'),
    ensures
        stem.len() > 0 ==> name_stem(stem + seq!['.'] + extension) == stem,
        name_stem(seq!['.'] + extension) == seq!['.'] + extension,
        name_stem(extension) == extension,
{
    let name = stem + seq!['.'] + extension;
    let n = stem.len() as int;
    assert forall|j: int| n < j < name.len() implies name[j] != '.' by {
        assert(name[j] == extension[j - n - 1]);
    }
    if n > 0 {
        assert(last_dot(name, n));
        let i = choose|i: int| last_dot(name, i);
        assert(last_dot(name, i));
        if i < n {
            assert(name[n] != '.');
        }
        assert(name.take(n) =~= stem);
    }
    let hidden = seq!['.'] + extension;
    assert forall|i: int| !last_dot(hidden, i) by {
        if last_dot(hidden, i) {
            assert(hidden[i] == extension[i - 1]);
        }
    }
    assert forall|i: int| !last_dot(extension, i) by {
        if last_dot(extension, i) {
            assert(extension.contains(extension[i]));
        }
    }
}

/// A path names a file by its last part; a `/` or `/.` behind it changes nothing, and an empty path,
/// `.` and `..` name none, whatever stands in front.
pub proof fn lemma_path_stem(path: Seq<char>, name: Seq<char>)
    requires
        name.len() > 0,
        !name.contains('/'),
    ensures
        stem_of_path(Seq::<char>::empty()) is None,
        stem_of_path("."@) is None,
        stem_of_path(".."@) is None,
        stem_of_path(path + seq!['/', '.', '.']) is None,
        stem_of_path(path + seq!['/']) == stem_of_path(path),
        stem_of_path(path + seq!['/', '.']) == stem_of_path(path),
        name != "."@ && name != ".."@ ==> stem_of_path(name) == Some(name_stem(name)),
        name != "."@ && name != ".."@ ==> stem_of_path(path + seq!['/'] + name) == Some(
            name_stem(name),
        ),
{
    reveal_strlit(".");
    reveal_strlit("..");
    assert("."@ =~= seq!['.']);
    assert(".."@ =~= seq!['.', '.']);
    assert(!seq!['.'].contains('/'));
    assert(!seq!['.', '.'].contains('/'));
    assert(!Seq::<char>::empty().contains('/'));
    lemma_last_part(path, seq!['.']);
    lemma_last_part(path, seq!['.', '.']);
    lemma_last_part(path, Seq::<char>::empty());
    assert(path + seq!['/'] + Seq::<char>::empty() =~= path + seq!['/']);
    assert(path + seq!['/'] + seq!['.'] =~= path + seq!['/', '.']);
    assert(path + seq!['/'] + seq!['.', '.'] =~= path + seq!['/', '.', '.']);
    assert((path + seq!['/']).take(path.len() as int) =~= path);
    assert((path + seq!['/', '.']).take(path.len() as int) =~= path);
    if name != "."@ && name != ".."@ {
        lemma_stem_of_file(path, name);
    }
}

/// The build goes on with a silent pass over the root file itself when the bibliographies are
/// ready, looks for the tool, runs it silently on the stem, and ends behind a second such pass,
/// which comes after the tool or where there is none. What failed is what it ends with.
pub proof fn lemma_prebuild_steps(
    main_tex: Seq<char>,
    stem: Seq<char>,
    failure: Failure<Seq<char>>,
    tool: BibTool,
)
    ensures
        prebuild_step(main_tex, stem, PrebuildReply::Started) is GenerateBbls,
        prebuild_step(main_tex, stem, PrebuildReply::BblsReady) matches PrebuildStep::RunPass {
            pass,
            call,
            warning,
        } && pass == Pass::First && call.args == seq!["-interaction=batchmode"@, main_tex]
            && call.quiet && warning is None,
        prebuild_step(main_tex, stem, PrebuildReply::BblsFailed(failure)) matches PrebuildStep::Fail(
            f,
        ) && f == failure,
        prebuild_step(main_tex, stem, PrebuildReply::PassDone(Pass::First)) is DetectTool,
        prebuild_step(main_tex, stem, PrebuildReply::Detected(Some(tool)))
            matches PrebuildStep::RunTool { tool: t, call } && t == tool && call.args == seq![stem]
            && call.quiet,
        prebuild_step(main_tex, stem, PrebuildReply::Detected(None)) matches PrebuildStep::RunPass {
            pass,
            call,
            warning,
        } && pass == Pass::Second && call.args == seq!["-interaction=batchmode"@, main_tex]
            && call.quiet && warning is None,
        prebuild_step(main_tex, stem, PrebuildReply::ToolDone(tool, Exit::Exited(true)))
            matches PrebuildStep::RunPass { pass, call, warning } && pass == Pass::Second && call.args
            == seq!["-interaction=batchmode"@, main_tex] && call.quiet && warning is None,
        prebuild_step(main_tex, stem, PrebuildReply::ToolDone(tool, Exit::Exited(false)))
            matches PrebuildStep::RunPass { pass, call, warning } && pass == Pass::Second && call.args
            == seq!["-interaction=batchmode"@, main_tex] && call.quiet && warning == Some(
            tool_warning(tool),
        ),
        prebuild_step(main_tex, stem, PrebuildReply::ToolDone(tool, Exit::NotRun))
            matches PrebuildStep::Fail(f) && f == (Failure::ToolNotRun { tool: tool_name(tool) }),
        prebuild_step(main_tex, stem, PrebuildReply::PassDone(Pass::Second)) is Done,
{
    assert(latex_call(main_tex, false).args =~= seq!["-interaction=batchmode"@, main_tex]);
    assert(tool_call_of(stem).args =~= seq![stem]);
}

/// Replies and steps of the build of the modified version carry what they were made with.
pub proof fn lemma_prebuild_view(
    pass: Pass,
    call: Call<Vec<String>>,
    warning: Option<String>,
    failure: Failure<String>,
    tool: BibTool,
    found: Option<BibTool>,
    exit: Exit,
)
    ensures
        PrebuildReply::<String>::Started@ == PrebuildReply::<Seq<char>>::Started,
        PrebuildReply::<String>::BblsReady@ == PrebuildReply::<Seq<char>>::BblsReady,
        PrebuildReply::<String>::BblsFailed(failure)@ == PrebuildReply::<Seq<char>>::BblsFailed(
            failure@,
        ),
        PrebuildReply::<String>::PassDone(pass)@ == PrebuildReply::<Seq<char>>::PassDone(pass),
        PrebuildReply::<String>::Detected(found)@ == PrebuildReply::<Seq<char>>::Detected(found),
        PrebuildReply::<String>::ToolDone(tool, exit)@ == PrebuildReply::<Seq<char>>::ToolDone(
            tool,
            exit,
        ),
        PrebuildStep::<String, Call<Vec<String>>>::GenerateBbls@ is GenerateBbls,
        (PrebuildStep::<String, Call<Vec<String>>>::RunPass { pass, call, warning })@ == (
        PrebuildStep::<Seq<char>, Call<Seq<Seq<char>>>>::RunPass {
            pass,
            call: call@,
            warning: opt_text(warning),
        }),
        PrebuildStep::<String, Call<Vec<String>>>::DetectTool@ is DetectTool,
        (PrebuildStep::<String, Call<Vec<String>>>::RunTool { tool, call })@ == (PrebuildStep::<
            Seq<char>,
            Call<Seq<Seq<char>>>,
        >::RunTool { tool, call: call@ }),
        PrebuildStep::<String, Call<Vec<String>>>::Done@ is Done,
        PrebuildStep::<String, Call<Vec<String>>>::Fail(failure)@ == PrebuildStep::<
            Seq<char>,
            Call<Seq<Seq<char>>>,
        >::Fail(failure@),
{
}

} // verus!
