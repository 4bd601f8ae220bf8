//! The run of latexdiff and what is made of its output.

use crate::bytes::{read_utf8, show_bytes, shown_bytes};
use crate::command::Output;
use crate::error::{Error, Failure};
use crate::latex::{inject_red, with_overrides};
use crate::text::opt_text;
use vstd::prelude::*;
use vstd::utf8::{
    decode_utf8, encode_utf8, encode_utf8_decode_utf8, encode_utf8_valid_utf8, valid_utf8,
};

verus! {

/// The warning where `latexpand` is not installed.
pub const NO_LATEXPAND: &'static str = "warning: `latexpand` not found; \\input/\\include directives will not be inlined.\nInstall it (usually shipped with TeX Live) for full multi-file support.";

/// The flag with which latexdiff inlines `\input` and `\include`.
pub const FLATTEN: &'static str = "--flatten";

/// An argument of latexdiff: a flag, or one of the two root files. `P` is the type of the paths.
#[derive(Debug, PartialEq, Eq)]
pub enum DiffArg<P> {
    Flag(&'static str),
    File(P),
}

/// The arguments of latexdiff: the root of the original goes before that of the modified version.
/// Where `latexpand` is installed, `\input` and `\include` are inlined, so that the result stands
/// alone.
pub fn latexdiff_args<P>(has_latexpand: bool, old_tex: P, new_tex: P) -> (args: Vec<DiffArg<P>>)
    ensures
        args@ == (if has_latexpand {
            seq![DiffArg::Flag(FLATTEN), DiffArg::File(old_tex), DiffArg::File(new_tex)]
        } else {
            seq![DiffArg::File(old_tex), DiffArg::File(new_tex)]
        }),
{
    let mut args: Vec<DiffArg<P>> = Vec::new();
    if has_latexpand {
        args.push(DiffArg::Flag(FLATTEN));
    }
    args.push(DiffArg::File(old_tex));
    args.push(DiffArg::File(new_tex));
    args
}

/// The warning to give before latexdiff is run, where something is missing that it would be better
/// with.
pub fn latexpand_warning(has_latexpand: bool) -> (warning: Option<String>)
    ensures
        opt_text(warning) == (if has_latexpand {
            None
        } else {
            Some(NO_LATEXPAND@)
        }),
{
    if has_latexpand {
        None
    } else {
        Some(NO_LATEXPAND.to_owned())
    }
}

/// The failure of latexdiff that its error output tells of.
pub fn latexdiff_failure(stderr: &str) -> (failure: Error)
    ensures
        failure@ == (Failure::LatexdiffFailed { detail: stderr@ }),
{
    Failure::LatexdiffFailed { detail: stderr.to_owned() }
}

/// The marked-up source to write, from what latexdiff brought.
pub open spec fn diff_of(output: Output) -> Result<Seq<char>, Failure<Seq<char>>> {
    match output {
        Output::NotRun => Err(Failure::LatexdiffNotRun),
        Output::Exited { success, stdout, stderr } => if !success {
            Err(Failure::LatexdiffFailed { detail: shown_bytes(stderr@) })
        } else if valid_utf8(stdout@) {
            Ok(with_overrides(decode_utf8(stdout@)))
        } else {
            Err(Failure::DiffNotUtf8)
        },
    }
}

/// Makes the marked-up source to write out of what latexdiff brought: its output with the colour
/// overrides in it.
pub fn run_latexdiff(output: Output) -> (diff: Result<String, Error>)
    ensures
        match diff {
            Ok(text) => diff_of(output) == Ok::<Seq<char>, Failure<Seq<char>>>(text@),
            Err(e) => diff_of(output) == Err::<Seq<char>, Failure<Seq<char>>>(e@),
        },
{
    match output {
        Output::NotRun => Err(Failure::LatexdiffNotRun),
        Output::Exited { success, stdout, stderr } => {
            if !success {
                let shown = show_bytes(&stderr);
                return Err(latexdiff_failure(shown.as_str()));
            }
            match read_utf8(stdout) {
                Some(text) => Ok(inject_red(text)),
                None => Err(Failure::DiffNotUtf8),
            }
        },
    }
}

/// A run of latexdiff brings a marked-up source exactly where it succeeds and writes text, and then
/// the overrides are put into that very text. Otherwise it fails, with its own error output where
/// it reported an error.
pub proof fn lemma_diff(text: Seq<char>, stdout: Vec<u8>, stderr: Vec<u8>)
    ensures
        diff_of(Output::NotRun) == Err::<Seq<char>, Failure<Seq<char>>>(Failure::LatexdiffNotRun),
        diff_of(Output::Exited { success: false, stdout, stderr }) == Err::<
            Seq<char>,
            Failure<Seq<char>>,
        >(Failure::LatexdiffFailed { detail: shown_bytes(stderr@) }),
        stdout@ == encode_utf8(text) ==> diff_of(
            Output::Exited { success: true, stdout, stderr },
        ) == Ok::<Seq<char>, Failure<Seq<char>>>(with_overrides(text)),
        !valid_utf8(stdout@) ==> diff_of(Output::Exited { success: true, stdout, stderr }) == Err::<
            Seq<char>,
            Failure<Seq<char>>,
        >(Failure::DiffNotUtf8),
{
    encode_utf8_valid_utf8(text);
    encode_utf8_decode_utf8(text);
}

} // verus!
