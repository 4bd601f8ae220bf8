//! The programs that are run: their arguments, and what becomes of them.

use crate::text::texts;
use vstd::prelude::*;

verus! {

/// One of the two runs of pdflatex.
#[derive(Clone, Copy, Debug, PartialEq, Eq, Structural)]
pub enum Pass {
    First,
    Second,
}

/// The number of a pass.
pub open spec fn pass_digit(pass: Pass) -> Seq<char> {
    match pass {
        Pass::First => "1"@,
        Pass::Second => "2"@,
    }
}

impl Pass {
    /// The number of the pass.
    pub fn digit(self) -> (s: &'static str)
        ensures
            s@ == pass_digit(self),
    {
        match self {
            Pass::First => "1",
            Pass::Second => "2",
        }
    }
}

/// What became of a program that was run for its effect: it could not be run, or it ended and
/// reported success or not.
#[derive(Clone, Copy, Debug, PartialEq, Eq, Structural)]
pub enum Exit {
    NotRun,
    Exited(bool),
}

/// What became of a program that was run for its output.
#[derive(Debug, PartialEq, Eq)]
pub enum Output {
    NotRun,
    Exited { success: bool, stdout: Vec<u8>, stderr: Vec<u8> },
}

/// How a program is run: its arguments, and whether its output is thrown away. `L` is the type of
/// the list of arguments.
#[derive(Debug, PartialEq, Eq)]
pub struct Call<L> {
    pub args: L,
    pub quiet: bool,
}

impl View for Call<Vec<String>> {
    type V = Call<Seq<Seq<char>>>;

    open spec fn view(&self) -> Call<Seq<Seq<char>>> {
        Call { args: texts(self.args@), quiet: self.quiet }
    }
}

/// The arguments with which git is asked whether `arg` names a revision.
pub fn rev_parse_args(arg: &str) -> (args: Vec<String>)
    ensures
        texts(args@) == seq!["rev-parse"@, "--verify"@, arg@],
{
    let args = vec!["rev-parse".to_owned(), "--verify".to_owned(), arg.to_owned()];
    assert(texts(args@) =~= seq!["rev-parse"@, "--verify"@, arg@]);
    args
}

/// The arguments with which git writes a branch as an archive.
pub fn archive_args(branch: &str) -> (args: Vec<String>)
    ensures
        texts(args@) == seq!["archive"@, branch@],
{
    let args = vec!["archive".to_owned(), branch.to_owned()];
    assert(texts(args@) =~= seq!["archive"@, branch@]);
    args
}

/// The arguments with which tar unpacks an archive into `dest`.
pub fn tar_args(dest: &str) -> (args: Vec<String>)
    ensures
        texts(args@) == seq!["-x"@, "-C"@, dest@],
{
    let args = vec!["-x".to_owned(), "-C".to_owned(), dest.to_owned()];
    assert(texts(args@) =~= seq!["-x"@, "-C"@, dest@]);
    args
}

/// A call carries the arguments it was made with, in their order, and whether it is silent.
pub proof fn lemma_call_view(call: Call<Vec<String>>)
    ensures
        call@.args.len() == call.args@.len(),
        forall|k: int| 0 <= k < call.args@.len() ==> #[trigger] call@.args[k] == call.args@[k]@,
        call@.quiet == call.quiet,
{
}

/// The passes are counted from one.
pub proof fn lemma_pass_digits()
    ensures
        pass_digit(Pass::First) == "1"@,
        pass_digit(Pass::Second) == "2"@,
{
}

} // verus!
