use pdfdiff::command::Output;
use pdfdiff::diff::{
    latexdiff_args, latexdiff_failure, latexpand_warning, run_latexdiff, DiffArg, FLATTEN,
};
use pdfdiff::error::Failure;
use pdfdiff::latex::RED_OVERRIDES;

fn exited(success: bool, stdout: &[u8], stderr: &[u8]) -> Output {
    Output::Exited { success, stdout: stdout.to_vec(), stderr: stderr.to_vec() }
}

#[test]
fn original_goes_before_modified() {
    assert_eq!(FLATTEN, "--flatten");
    assert_eq!(
        latexdiff_args(true, "old.tex", "new.tex"),
        vec![DiffArg::Flag("--flatten"), DiffArg::File("old.tex"), DiffArg::File("new.tex")]
    );
    assert_eq!(
        latexdiff_args(false, "old.tex", "new.tex"),
        vec![DiffArg::File("old.tex"), DiffArg::File("new.tex")]
    );
}

#[test]
fn missing_latexpand_is_a_warning() {
    assert_eq!(latexpand_warning(true), None);
    assert_eq!(
        latexpand_warning(false),
        Some(
            "warning: `latexpand` not found; \\input/\\include directives will not be inlined.\n\
             Install it (usually shipped with TeX Live) for full multi-file support."
                .to_string()
        )
    );
}

#[test]
fn output_gets_the_overrides() {
    let diff = run_latexdiff(exited(true, "é\\begin{document}".as_bytes(), b"noise"));
    assert_eq!(diff, Ok(format!("é{}\\begin{{document}}", RED_OVERRIDES)));
}

#[test]
fn each_way_latexdiff_can_fail() {
    assert_eq!(run_latexdiff(Output::NotRun), Err(Failure::LatexdiffNotRun));
    assert_eq!(run_latexdiff(exited(true, b"\xff", b"")), Err(Failure::DiffNotUtf8));
    let e = run_latexdiff(exited(false, b"x", b" bad\n")).unwrap_err();
    assert_eq!(e.message(), "latexdiff failed:\n bad\n");
    let e = run_latexdiff(exited(false, b"x", b"a\xffb")).unwrap_err();
    assert_eq!(e.message(), "latexdiff failed:\na\u{fffd}b");
    assert_eq!(latexdiff_failure("x").message(), "latexdiff failed:\nx");
}
