//! The run as a whole: which stage follows which.

use crate::error::{Error, Failure};
use crate::text::opt_text;
use vstd::prelude::*;

verus! {

/// Checks that a program that the run cannot do without was found.
pub fn require(tool: &str, found: bool) -> (result: Result<(), Error>)
    ensures
        result is Ok <==> found,
        result matches Err(e) ==> e@ == (Failure::ToolMissing { tool: tool@ }),
{
    if found {
        Ok(())
    } else {
        Err(Failure::ToolMissing { tool: tool.to_owned() })
    }
}

/// The directory in which the original version looks for bibliographies: that of its assets, or
/// else the one its root file lies in.
pub fn original_dir(assets: Option<String>, parent: Option<String>) -> (dir: Option<String>)
    ensures
        opt_text(dir) == (if assets is Some {
            opt_text(assets)
        } else {
            opt_text(parent)
        }),
{
    match assets {
        Some(dir) => Some(dir),
        None => parent,
    }
}

/// A stage of the run. Each ends the run where it fails.
#[derive(Clone, Copy, Debug, PartialEq, Eq, Structural)]
pub enum Stage {
    /// See that latexdiff is installed.
    RequireLatexdiff,
    /// See that pdflatex is installed.
    RequirePdflatex,
    /// Create the two directories that branches are unpacked into.
    CreateTempDirs,
    /// Find out what the first argument names.
    DetectOriginal,
    /// Find out what the second argument names.
    DetectModified,
    /// Find the root of the original version.
    ResolveOriginal,
    /// Find the root of the modified version.
    ResolveModified,
    /// Create the output directory.
    CreateOutput,
    /// Copy the modified project into it, so that all relative paths hold.
    CopyAssets,
    /// Build the modified version there, so that everything it refers to exists.
    Prebuild,
    /// Copy the bibliographies next to the original version.
    ShareBbls,
    /// Write the marked-up source.
    Latexdiff,
    /// Compile it.
    Compile,
}

/// What the resolved sources are like.
#[derive(Clone, Copy, Debug, PartialEq, Eq, Structural)]
pub struct Facts {
    /// The modified version has a directory of assets.
    pub has_assets: bool,
    /// The modified version's root file has a name that is text.
    pub has_main_name: bool,
    /// The original version has a directory to look for bibliographies in.
    pub has_original_dir: bool,
}

/// Whether a stage takes part in a run with these facts.
pub open spec fn takes_part(stage: Stage, facts: Facts) -> bool {
    match stage {
        Stage::CopyAssets => facts.has_assets,
        Stage::Prebuild => facts.has_main_name,
        Stage::ShareBbls => facts.has_original_dir,
        _ => true,
    }
}

/// All stages in their order.
pub open spec fn all_stages() -> Seq<Stage> {
    seq![
        Stage::RequireLatexdiff,
        Stage::RequirePdflatex,
        Stage::CreateTempDirs,
        Stage::DetectOriginal,
        Stage::DetectModified,
        Stage::ResolveOriginal,
        Stage::ResolveModified,
        Stage::CreateOutput,
        Stage::CopyAssets,
        Stage::Prebuild,
        Stage::ShareBbls,
        Stage::Latexdiff,
        Stage::Compile,
    ]
}

/// The first stage from position `i` on that takes part in the run.
pub open spec fn stage_from(i: int, facts: Facts) -> Option<Stage>
    decreases all_stages().len() - i,
{
    if i < 0 || i >= all_stages().len() {
        None
    } else if takes_part(all_stages()[i], facts) {
        Some(all_stages()[i])
    } else {
        stage_from(i + 1, facts)
    }
}

/// The position of a stage in the order of all stages.
pub open spec fn position(stage: Stage) -> int {
    match stage {
        Stage::RequireLatexdiff => 0,
        Stage::RequirePdflatex => 1,
        Stage::CreateTempDirs => 2,
        Stage::DetectOriginal => 3,
        Stage::DetectModified => 4,
        Stage::ResolveOriginal => 5,
        Stage::ResolveModified => 6,
        Stage::CreateOutput => 7,
        Stage::CopyAssets => 8,
        Stage::Prebuild => 9,
        Stage::ShareBbls => 10,
        Stage::Latexdiff => 11,
        Stage::Compile => 12,
    }
}

/// Decides which stage follows `stage` in a run with these facts; after the last there is none. A
/// run begins with looking for latexdiff.
pub fn next_stage(stage: Stage, facts: Facts) -> (next: Option<Stage>)
    ensures
        next == stage_from(position(stage) + 1, facts),
{
    proof {
        reveal_with_fuel(stage_from, 5);
    }
    match stage {
        Stage::RequireLatexdiff => Some(Stage::RequirePdflatex),
        Stage::RequirePdflatex => Some(Stage::CreateTempDirs),
        Stage::CreateTempDirs => Some(Stage::DetectOriginal),
        Stage::DetectOriginal => Some(Stage::DetectModified),
        Stage::DetectModified => Some(Stage::ResolveOriginal),
        Stage::ResolveOriginal => Some(Stage::ResolveModified),
        Stage::ResolveModified => Some(Stage::CreateOutput),
        Stage::CreateOutput => {
            if facts.has_assets {
                Some(Stage::CopyAssets)
            } else if facts.has_main_name {
                Some(Stage::Prebuild)
            } else if facts.has_original_dir {
                Some(Stage::ShareBbls)
            } else {
                Some(Stage::Latexdiff)
            }
        },
        Stage::CopyAssets => {
            if facts.has_main_name {
                Some(Stage::Prebuild)
            } else if facts.has_original_dir {
                Some(Stage::ShareBbls)
            } else {
                Some(Stage::Latexdiff)
            }
        },
        Stage::Prebuild => {
            if facts.has_original_dir {
                Some(Stage::ShareBbls)
            } else {
                Some(Stage::Latexdiff)
            }
        },
        Stage::ShareBbls => Some(Stage::Latexdiff),
        Stage::Latexdiff => Some(Stage::Compile),
        Stage::Compile => None,
    }
}

/// The stages of a run from `stage` on, at most `fuel` of them.
pub open spec fn run_from(stage: Option<Stage>, facts: Facts, fuel: nat) -> Seq<Stage>
    decreases fuel,
{
    match stage {
        Some(s) => if fuel == 0 {
            seq![]
        } else {
            seq![s] + run_from(stage_from(position(s) + 1, facts), facts, (fuel - 1) as nat)
        },
        None => seq![],
    }
}

/// Every stage stands at its position, and no other does.
proof fn lemma_positions(stage: Stage, i: int)
    requires
        0 <= i < all_stages().len(),
    ensures
        0 <= position(stage) < all_stages().len(),
        all_stages()[position(stage)] == stage,
        position(all_stages()[i]) == i,
{
}

/// The stages from position `i` on that take part are run, in their order.
proof fn lemma_run_from(i: int, facts: Facts, fuel: nat)
    requires
        0 <= i <= all_stages().len(),
        fuel >= all_stages().len() - i,
    ensures
        ({
            let run = run_from(stage_from(i, facts), facts, fuel);
            &&& forall|a: int, b: int|
                0 <= a < b < run.len() ==> position(run[a]) < position(run[b])
            &&& forall|stage: Stage|
                run.contains(stage) <==> takes_part(stage, facts) && position(stage) >= i
        }),
    decreases all_stages().len() - i,
{
    let run = run_from(stage_from(i, facts), facts, fuel);
    if i == all_stages().len() {
        assert forall|stage: Stage| position(stage) < i by {
            lemma_positions(stage, 0);
        }
    } else {
        let here = all_stages()[i];
        lemma_positions(here, i);
        if takes_part(here, facts) {
            let rest = run_from(stage_from(i + 1, facts), facts, (fuel - 1) as nat);
            lemma_run_from(i + 1, facts, (fuel - 1) as nat);
            assert(run =~= seq![here] + rest);
            assert forall|stage: Stage|
                run.contains(stage) <==> takes_part(stage, facts) && position(stage) >= i by {
                lemma_positions(stage, i);
                if run.contains(stage) {
                    let a = choose|a: int| 0 <= a < run.len() && run[a] == stage;
                    if a > 0 {
                        assert(rest[a - 1] == stage);
                        assert(rest.contains(stage));
                    }
                }
                if rest.contains(stage) {
                    let a = choose|a: int| 0 <= a < rest.len() && rest[a] == stage;
                    assert(run[a + 1] == stage);
                }
                if stage == here {
                    assert(run[0] == stage);
                }
            }
            assert forall|a: int, b: int| 0 <= a < b < run.len() implies position(run[a])
                < position(run[b]) by {
                assert(run[b] == rest[b - 1]);
                assert(rest.contains(rest[b - 1]));
                if a > 0 {
                    assert(run[a] == rest[a - 1]);
                }
            }
        } else {
            lemma_run_from(i + 1, facts, fuel);
            assert forall|stage: Stage|
                run.contains(stage) <==> takes_part(stage, facts) && position(stage) >= i by {
                lemma_positions(stage, i);
            }
        }
    }
}

/// A run goes through exactly the stages that take part in it, each once and in their order: the
/// sources are resolved before anything is written, the modified project is copied before it is
/// built, it is built before the sources are compared, and the comparison is compiled last.
pub proof fn lemma_run_order(facts: Facts)
    ensures
        ({
            let run = run_from(Some(Stage::RequireLatexdiff), facts, all_stages().len());
            &&& forall|a: int, b: int|
                0 <= a < b < run.len() ==> position(run[a]) < position(run[b])
            &&& forall|stage: Stage| run.contains(stage) <==> takes_part(stage, facts)
        }),
{
    assert(stage_from(0, facts) == Some(Stage::RequireLatexdiff));
    lemma_run_from(0, facts, all_stages().len());
    assert forall|stage: Stage| position(stage) >= 0 by {
        lemma_positions(stage, 0);
    }
}

/// The stages follow one another in one order, whatever the sources are like; only the copying of
/// assets, the build and the sharing of bibliographies are passed over, each exactly where there is
/// nothing to copy, to build or to share with.
pub proof fn lemma_stage_order(facts: Facts)
    ensures
        stage_from(position(Stage::RequireLatexdiff) + 1, facts) == Some(Stage::RequirePdflatex),
        stage_from(position(Stage::RequirePdflatex) + 1, facts) == Some(Stage::CreateTempDirs),
        stage_from(position(Stage::CreateTempDirs) + 1, facts) == Some(Stage::DetectOriginal),
        stage_from(position(Stage::DetectOriginal) + 1, facts) == Some(Stage::DetectModified),
        stage_from(position(Stage::DetectModified) + 1, facts) == Some(Stage::ResolveOriginal),
        stage_from(position(Stage::ResolveOriginal) + 1, facts) == Some(Stage::ResolveModified),
        stage_from(position(Stage::ResolveModified) + 1, facts) == Some(Stage::CreateOutput),
        facts.has_assets ==> stage_from(position(Stage::CreateOutput) + 1, facts) == Some(
            Stage::CopyAssets,
        ),
        !facts.has_assets ==> stage_from(position(Stage::CreateOutput) + 1, facts) == stage_from(
            position(Stage::CopyAssets) + 1,
            facts,
        ),
        facts.has_main_name ==> stage_from(position(Stage::CopyAssets) + 1, facts) == Some(
            Stage::Prebuild,
        ),
        !facts.has_main_name ==> stage_from(position(Stage::CopyAssets) + 1, facts) == stage_from(
            position(Stage::Prebuild) + 1,
            facts,
        ),
        facts.has_original_dir ==> stage_from(position(Stage::Prebuild) + 1, facts) == Some(
            Stage::ShareBbls,
        ),
        !facts.has_original_dir ==> stage_from(position(Stage::Prebuild) + 1, facts) == stage_from(
            position(Stage::ShareBbls) + 1,
            facts,
        ),
        stage_from(position(Stage::ShareBbls) + 1, facts) == Some(Stage::Latexdiff),
        stage_from(position(Stage::Latexdiff) + 1, facts) == Some(Stage::Compile),
        stage_from(position(Stage::Compile) + 1, facts) is None,
{
    reveal_with_fuel(stage_from, 5);
}

} // verus!
