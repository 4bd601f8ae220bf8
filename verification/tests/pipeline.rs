use pdfdiff::pipeline::{next_stage, original_dir, require, Facts, Stage};

fn run(facts: Facts) -> Vec<Stage> {
    let mut stages = vec![Stage::RequireLatexdiff];
    while let Some(next) = next_stage(stages[stages.len() - 1], facts) {
        stages.push(next);
    }
    stages
}

#[test]
fn full_run() {
    let facts = Facts { has_assets: true, has_main_name: true, has_original_dir: true };
    assert_eq!(
        run(facts),
        vec![
            Stage::RequireLatexdiff,
            Stage::RequirePdflatex,
            Stage::CreateTempDirs,
            Stage::DetectOriginal,
            Stage::DetectModified,
            Stage::ResolveOriginal,
            Stage::ResolveModified,
            Stage::CreateOutput,
            Stage::CopyAssets,
            Stage::Prebuild,
            Stage::ShareBbls,
            Stage::Latexdiff,
            Stage::Compile,
        ]
    );
}

#[test]
fn stages_that_do_not_apply_are_left_out() {
    for n in 0..8 {
        let facts = Facts {
            has_assets: n & 1 != 0,
            has_main_name: n & 2 != 0,
            has_original_dir: n & 4 != 0,
        };
        let stages = run(facts);
        assert_eq!(stages.contains(&Stage::CopyAssets), facts.has_assets);
        assert_eq!(stages.contains(&Stage::Prebuild), facts.has_main_name);
        assert_eq!(stages.contains(&Stage::ShareBbls), facts.has_original_dir);
        assert_eq!(&stages[stages.len() - 2..], &[Stage::Latexdiff, Stage::Compile]);
        assert_eq!(stages[7], Stage::CreateOutput);
    }
}

#[test]
fn required_programs() {
    assert!(require("latexdiff", true).is_ok());
    assert_eq!(
        require("latexdiff", false).unwrap_err().message(),
        "`latexdiff` not found in PATH — please install it"
    );
}

#[test]
fn directory_of_the_original() {
    let dir = |s: &str| Some(s.to_string());
    assert_eq!(original_dir(dir("a"), dir("p")), dir("a"));
    assert_eq!(original_dir(None, dir("p")), dir("p"));
    assert_eq!(original_dir(None, None), None);
}
