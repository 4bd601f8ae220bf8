//! What is read from and written into LaTeX sources.

use crate::bytes::{holds_text, lemma_occurs_encoded, lemma_search_in_utf8};
use crate::lines::{lemma_nothing_is_made_up, text_parts};
use crate::text::{
    find_from, find_in, first_at, from_chars, lemma_find, lemma_find_iff_occurs,
    lemma_find_is_first, lemma_first_at, lemma_occurs, lemma_occurs_in_whole, lemma_trimmed, occurs,
    occurs_at, opt_text, to_chars, trim_range, trimmed, white_space,
};
use vstd::prelude::*;
use vstd::utf8::encode_utf8;

verus! {

/// Put in front of `\begin{document}` to override the colours of the change markup: additions and
/// deletions both become red, and deletions are struck through with ulem's `\sout`.
pub const RED_OVERRIDES: &'static str = "\n%% pdfdiff: force red for all tracked changes\n\\usepackage[normalem]{ulem}\n\\usepackage{color}\n\\renewcommand{\\DIFadd}[1]{{\\protect\\color{red}#1}}\n\\renewcommand{\\DIFdel}[1]{{\\protect\\color{red}\\sout{#1}}}\n\\providecommand{\\DIFadd}[1]{{\\protect\\color{red}#1}}\n\\providecommand{\\DIFdel}[1]{{\\protect\\color{red}\\sout{#1}}}\n";

/// The start of a document's body.
pub const BEGIN_DOCUMENT: &'static str = "\\begin{document}";

/// The command that only a root file holds.
pub const DOCUMENTCLASS: &'static str = "\\documentclass";

/// The comment by which a file that latexdiff wrote is known.
pub const LATEXDIFF_MARK: &'static str = "%DIF PREAMBLE EXTENSION ADDED BY LATEXDIFF";

/// What stands in front of the first `}` of `rest`, without the white space around it.
pub open spec fn up_to_brace(rest: Seq<char>) -> Option<Seq<char>> {
    match find_in(rest, seq!['}']) {
        Some(end) => Some(trimmed(rest.take(end))),
        None => None,
    }
}

/// What stands between the braces directly behind the first `cmd{` of a line, up to the next `}`,
/// without the white space around it.
pub open spec fn argument_of(line: Seq<char>, cmd: Seq<char>) -> Option<Seq<char>> {
    let search = cmd + seq!['{'];
    match find_in(line, search) {
        Some(i) => up_to_brace(line.skip(i + search.len())),
        None => None,
    }
}

/// What stands from `start` up to the next `}`, without the white space around it.
pub fn read_to_brace(chars: &Vec<char>, start: usize) -> (arg: Option<String>)
    requires
        start <= chars.len(),
    ensures
        opt_text(arg) == up_to_brace(chars@.skip(start as int)),
{
    let brace: Vec<char> = vec!['}'];
    assert(brace@ =~= seq!['}']);
    match find_from(chars, &brace, start) {
        Some(end) => {
            let (a, b) = trim_range(chars, start, end);
            assert(chars@.subrange(start as int, end as int) =~= chars@.skip(start as int).take(
                end - start,
            ));
            Some(from_chars(chars, a, b))
        },
        None => None,
    }
}

/// Extracts the argument of a LaTeX command: `\foo{bar}` gives `bar`. The brace has to follow the
/// command directly, so that `\bibliography` does not match `\bibliographystyle`.
pub fn extract_arg(line: &str, cmd: &str) -> (arg: Option<String>)
    ensures
        match arg {
            Some(a) => argument_of(line@, cmd@) == Some(a@),
            None => argument_of(line@, cmd@) is None,
        },
{
    let chars = to_chars(line);
    let mut search = to_chars(cmd);
    search.push('{');
    assert(search@ =~= cmd@ + seq!['{']);
    assert(chars@.skip(0) =~= line@);
    match find_from(&chars, &search, 0) {
        Some(i) => read_to_brace(&chars, i + search.len()),
        None => None,
    }
}

/// What stands in front of a `}` stands in the text.
pub proof fn lemma_up_to_brace(text: Seq<char>, from: int, arg: Seq<char>)
    requires
        0 <= from <= text.len(),
        up_to_brace(text.skip(from)) == Some(arg),
    ensures
        occurs(text, arg),
{
    let rest = text.skip(from);
    lemma_find_iff_occurs(rest, seq!['}']);
    let end = find_in(rest, seq!['}'])->Some_0;
    let raw = rest.take(end);
    assert(text.subrange(from, from + raw.len()) =~= raw);
    assert(occurs_at(text, raw, from));
    lemma_trimmed(raw);
    lemma_occurs_in_whole(text, raw, arg);
}

/// An argument that is read from a line of a file stands in that line, byte for byte.
pub proof fn lemma_argument_stands_in_line(
    line: Seq<u8>,
    k: int,
    cmd: Seq<char>,
    arg: Seq<char>,
)
    requires
        0 <= k < text_parts(line, seq![]).len(),
        argument_of(text_parts(line, seq![])[k], cmd) == Some(arg),
    ensures
        occurs(line, encode_utf8(arg)),
{
    let part = text_parts(line, seq![])[k];
    let search = cmd + seq!['{'];
    lemma_find_iff_occurs(part, search);
    lemma_up_to_brace(part, find_in(part, search)->Some_0 + search.len(), arg);
    lemma_occurs_encoded(part, arg);
    lemma_nothing_is_made_up(line, k);
    lemma_occurs_in_whole(line, encode_utf8(part), encode_utf8(arg));
}

/// A text with the colour overrides directly in front of its first `\begin{document}`, or at its
/// very start where there is none.
pub open spec fn with_overrides(tex: Seq<char>) -> Seq<char> {
    match find_in(tex, BEGIN_DOCUMENT@) {
        Some(i) => tex.take(i) + RED_OVERRIDES@ + tex.skip(i),
        None => RED_OVERRIDES@ + tex,
    }
}

/// Puts the colour overrides directly in front of the first `\begin{document}`, or at the very
/// start where there is none.
pub fn inject_red(tex: String) -> (out: String)
    ensures
        out@ == with_overrides(tex@),
{
    let chars = to_chars(tex.as_str());
    let begin = to_chars(BEGIN_DOCUMENT);
    assert(chars@.skip(0) =~= tex@);
    match find_from(&chars, &begin, 0) {
        Some(i) => {
            let mut out = from_chars(&chars, 0, i);
            out.append(RED_OVERRIDES);
            let rest = from_chars(&chars, i, chars.len());
            out.append(rest.as_str());
            assert(chars@.subrange(0, i as int) =~= tex@.take(i as int));
            assert(chars@.subrange(i as int, chars.len() as int) =~= tex@.skip(i as int));
            out
        },
        None => {
            let mut out = RED_OVERRIDES.to_owned();
            out.append(tex.as_str());
            out
        },
    }
}

/// A text that holds `\documentclass` and was not written by latexdiff.
pub open spec fn root_text(content: Seq<char>) -> bool {
    !occurs(content, LATEXDIFF_MARK@) && occurs(content, DOCUMENTCLASS@)
}

/// A file that holds `\documentclass` and was not written by latexdiff, whatever its encoding.
pub open spec fn root_file(content: Seq<u8>) -> bool {
    !occurs(content, encode_utf8(LATEXDIFF_MARK@)) && occurs(content, encode_utf8(DOCUMENTCLASS@))
}

/// Whether a file holds `\documentclass` and was not written by latexdiff.
pub fn is_root_file(content: &Vec<u8>) -> (yes: bool)
    ensures
        yes == root_file(content@),
{
    !holds_text(content, LATEXDIFF_MARK) && holds_text(content, DOCUMENTCLASS)
}

/// A UTF-8 file can be a root exactly where its text can.
pub proof fn lemma_root_of_utf8(content: Seq<char>)
    ensures
        root_file(encode_utf8(content)) == root_text(content),
{
    reveal_strlit("%DIF PREAMBLE EXTENSION ADDED BY LATEXDIFF");
    reveal_strlit("\\documentclass");
    lemma_search_in_utf8(content, LATEXDIFF_MARK@);
    lemma_search_in_utf8(content, DOCUMENTCLASS@);
}

/// The first brace of the argument has to follow the command directly: without `cmd{` in the line
/// there is no argument.
pub proof fn lemma_brace_follows_command(line: Seq<char>, cmd: Seq<char>)
    requires
        !occurs(line, cmd + seq!['{']),
    ensures
        argument_of(line, cmd) is None,
{
    lemma_find_iff_occurs(line, cmd + seq!['{']);
}

/// A line with a bibliography style names no bibliography.
pub proof fn lemma_style_is_no_bibliography(style: Seq<char>)
    requires
        !style.contains('\\'),
    ensures
        argument_of("\\bibliographystyle{"@ + style + "}"@, "\\bibliography"@) is None,
{
    reveal_strlit("\\bibliographystyle{");
    reveal_strlit("\\bibliography");
    reveal_strlit("}");
    let line = "\\bibliographystyle{"@ + style + "}"@;
    let search = "\\bibliography"@ + seq!['{'];
    assert forall|i: int| !occurs_at(line, search, i) by {
        if occurs_at(line, search, i) {
            let found = line.subrange(i, i + search.len());
            assert(found[0] == line[i]);
            assert(search[0] == '\\');
            if i == 0 {
                assert(found[13] == line[13]);
                assert(search[13] == '{');
            } else if i < 19 {
                assert(line[i] == "\\bibliographystyle{"@[i]);
            } else {
                assert(line[i] == style[i - 19]);
            }
        }
    }
    lemma_brace_follows_command(line, "\\bibliography"@);
}

/// A command's argument is found behind whatever stands in front of it, up to its first closing
/// brace.
pub proof fn lemma_argument_found(
    before: Seq<char>,
    cmd: Seq<char>,
    arg: Seq<char>,
    after: Seq<char>,
)
    requires
        first_at(before + cmd + seq!['{'] + arg + seq!['}'] + after, cmd + seq!['{'], before.len() as int),
        !arg.contains('}'),
    ensures
        argument_of(before + cmd + seq!['{'] + arg + seq!['}'] + after, cmd) == Some(trimmed(arg)),
{
    let line = before + cmd + seq!['{'] + arg + seq!['}'] + after;
    let search = cmd + seq!['{'];
    lemma_find_is_first(line, search, before.len() as int);
    let rest = line.skip((before.len() + search.len()) as int);
    assert(rest =~= arg + seq!['}'] + after);
    assert(rest.subrange(arg.len() as int, arg.len() as int + 1) =~= seq!['}']);
    assert forall|j: int| j < arg.len() implies !occurs_at(rest, seq!['}'], j) by {
        if occurs_at(rest, seq!['}'], j) {
            assert(rest.subrange(j, j + 1)[0] == arg[j]);
        }
    }
    lemma_find_is_first(rest, seq!['}'], arg.len() as int);
    assert(rest.take(arg.len() as int) =~= arg);
}

/// An argument holds no closing brace and has no white space at its ends.
pub proof fn lemma_argument_is_clean(line: Seq<char>, cmd: Seq<char>)
    ensures
        argument_of(line, cmd) matches Some(arg) ==> {
            &&& !arg.contains('}')
            &&& arg.len() > 0 ==> !white_space(arg[0]) && !white_space(arg.last())
        },
{
    let search = cmd + seq!['{'];
    lemma_find_iff_occurs(line, search);
    if let Some(i) = find_in(line, search) {
        let rest = line.skip(i + search.len());
        lemma_find_iff_occurs(rest, seq!['}']);
        if let Some(end) = find_in(rest, seq!['}']) {
            let raw = rest.take(end);
            lemma_trimmed(raw);
            assert forall|k: int| 0 <= k < raw.len() implies raw[k] != '}' by {
                assert(!occurs_at(rest, seq!['}'], k));
                if raw[k] == '}' {
                    assert(rest.subrange(k, k + 1) =~= seq!['}']);
                }
            }
            assert(!raw.contains('}'));
        }
    }
}

/// The overrides begin and end with a line feed and open no document.
proof fn lemma_overrides_open_no_document()
    ensures
        RED_OVERRIDES@.len() > 1,
        RED_OVERRIDES@[0] == '\n',
        RED_OVERRIDES@.last() == '\n',
        forall|i: int|
            0 <= i < RED_OVERRIDES@.len() - 1 ==> !(RED_OVERRIDES@[i] == '\\' && (
            #[trigger] RED_OVERRIDES@[i + 1]) == 'b'),
        BEGIN_DOCUMENT@.len() == 16,
        BEGIN_DOCUMENT@[0] == '\\',
        BEGIN_DOCUMENT@[1] == 'b',
        !BEGIN_DOCUMENT@.contains('\n'),
{
    reveal_strlit("\n%% pdfdiff: force red for all tracked changes\n\\usepackage[normalem]{ulem}\n\\usepackage{color}\n\\renewcommand{\\DIFadd}[1]{{\\protect\\color{red}#1}}\n\\renewcommand{\\DIFdel}[1]{{\\protect\\color{red}\\sout{#1}}}\n\\providecommand{\\DIFadd}[1]{{\\protect\\color{red}#1}}\n\\providecommand{\\DIFdel}[1]{{\\protect\\color{red}\\sout{#1}}}\n");
    reveal_strlit("\\begin{document}");
}

/// The overrides stand directly in front of the first `\begin{document}` of the result, and do not
/// bring one of their own.
pub proof fn lemma_overrides_precede_document(tex: Seq<char>)
    ensures
        match find_in(tex, BEGIN_DOCUMENT@) {
            Some(i) => {
                &&& find_in(with_overrides(tex), BEGIN_DOCUMENT@) == Some(i + RED_OVERRIDES@.len())
                &&& occurs_at(with_overrides(tex), RED_OVERRIDES@, i)
            },
            None => {
                &&& find_in(with_overrides(tex), BEGIN_DOCUMENT@) is None
                &&& occurs_at(with_overrides(tex), RED_OVERRIDES@, 0)
            },
        },
{
    let begin = BEGIN_DOCUMENT@;
    let red = RED_OVERRIDES@;
    let out = with_overrides(tex);
    lemma_overrides_open_no_document();
    lemma_find_iff_occurs(tex, begin);
    let cut = match find_in(tex, begin) {
        Some(i) => i,
        None => 0,
    };
    assert(out =~= tex.take(cut) + red + tex.skip(cut));
    assert(out.subrange(cut, cut + red.len()) =~= red);
    assert forall|j: int| occurs_at(out, begin, j) implies cut + red.len() <= j && occurs_at(
        tex,
        begin,
        j - red.len(),
    ) by {
        let found = out.subrange(j, j + begin.len());
        assert(found[0] == out[j] && found[1] == out[j + 1]);
        if j < cut + red.len() {
            // The overrides begin and end with a line feed, which the pattern does not hold.
            if j + begin.len() <= cut {
                assert(tex.subrange(j, j + begin.len()) =~= found);
                assert(occurs_at(tex, begin, j));
            } else if j <= cut {
                assert(found[cut - j] == '\n');
                assert(begin.contains('\n'));
            } else if cut + red.len() - 1 < j + begin.len() {
                assert(found[cut + red.len() - 1 - j] == '\n');
                assert(begin.contains('\n'));
            } else {
                assert(out[j] == red[j - cut]);
                assert(out[j + 1] == red[j - cut + 1]);
            }
        } else {
            assert(tex.subrange(j - red.len(), j - red.len() + begin.len()) =~= found);
        }
    }
    match find_in(tex, begin) {
        Some(i) => {
            assert(out.subrange(i + red.len(), i + red.len() + begin.len()) =~= tex.subrange(
                i,
                i + begin.len(),
            ));
            assert(first_at(out, begin, i + red.len()));
            lemma_find_is_first(out, begin, i + red.len());
        },
        None => {
            lemma_find_iff_occurs(out, begin);
        },
    }
}

/// The overrides change nothing else: two texts that become the same are the same.
pub proof fn lemma_overrides_keep_text(a: Seq<char>, b: Seq<char>)
    requires
        with_overrides(a) == with_overrides(b),
    ensures
        a == b,
{
    let begin = BEGIN_DOCUMENT@;
    let red = RED_OVERRIDES@;
    let out = with_overrides(a);
    lemma_overrides_precede_document(a);
    lemma_overrides_precede_document(b);
    lemma_find_iff_occurs(a, begin);
    lemma_find_iff_occurs(b, begin);
    match find_in(out, begin) {
        Some(k) => {
            let i = k - red.len();
            assert(a =~= out.take(i) + out.skip(k));
            assert(b =~= out.take(i) + out.skip(k));
        },
        None => {
            assert(a =~= out.skip(red.len() as int));
            assert(b =~= out.skip(red.len() as int));
        },
    }
}

/// A source that latexdiff wrote is still known as such with the overrides in it, and so the file
/// that it is written to is never taken for the root of a project.
pub proof fn lemma_marked_up_source_is_no_root(tex: Seq<char>)
    requires
        occurs(tex, LATEXDIFF_MARK@),
    ensures
        !root_file(encode_utf8(with_overrides(tex))),
{
    lemma_root_of_utf8(with_overrides(tex));
    reveal_strlit("%DIF PREAMBLE EXTENSION ADDED BY LATEXDIFF");
    reveal_strlit("\\begin{document}");
    let mark = LATEXDIFF_MARK@;
    let red = RED_OVERRIDES@;
    let out = with_overrides(tex);
    let i = choose|i: int| occurs_at(tex, mark, i);
    lemma_find_iff_occurs(tex, BEGIN_DOCUMENT@);
    let cut = match find_in(tex, BEGIN_DOCUMENT@) {
        Some(c) => c,
        None => 0,
    };
    assert(out =~= tex.take(cut) + red + tex.skip(cut));
    if i + mark.len() <= cut {
        assert(out.subrange(i, i + mark.len()) =~= tex.subrange(i, i + mark.len()));
        assert(occurs_at(out, mark, i));
    } else if cut <= i {
        let j = i + red.len();
        assert(out.subrange(j, j + mark.len()) =~= tex.subrange(i, i + mark.len()));
        assert(occurs_at(out, mark, j));
    } else {
        // The mark holds no backslash, so the document does not begin in the middle of it.
        assert(tex.subrange(cut, cut + BEGIN_DOCUMENT@.len())[0] == tex[cut]);
        assert(tex.subrange(i, i + mark.len())[cut - i] == tex[cut]);
        assert(mark[cut - i] != '\\');
    }
}

/// The argument of the first `cmd{` is what stands up to the next `}`, without the white space
/// around it.
pub proof fn lemma_argument_of_first(
    before: Seq<char>,
    cmd: Seq<char>,
    arg: Seq<char>,
    after: Seq<char>,
)
    requires
        forall|j: int|
            0 <= j < before.len() ==> !(cmd + seq!['{']).is_prefix_of(
                #[trigger] (before + cmd + seq!['{'] + arg + seq!['}'] + after).skip(j),
            ),
        !arg.contains('}'),
    ensures
        argument_of(before + cmd + seq!['{'] + arg + seq!['}'] + after, cmd) == Some(trimmed(arg)),
{
    let line = before + cmd + seq!['{'] + arg + seq!['}'] + after;
    let n = before.len() as int;
    assert(line.skip(n).subrange(0, (cmd + seq!['{']).len() as int) =~= cmd + seq!['{']);
    lemma_first_at(line, cmd + seq!['{'], n);
    lemma_argument_found(before, cmd, arg, after);
}

/// A `cmd{` that is not closed has no argument.
pub proof fn lemma_argument_unclosed(before: Seq<char>, cmd: Seq<char>, rest: Seq<char>)
    requires
        forall|j: int|
            0 <= j < before.len() ==> !(cmd + seq!['{']).is_prefix_of(
                #[trigger] (before + cmd + seq!['{'] + rest).skip(j),
            ),
        !rest.contains('}'),
    ensures
        argument_of(before + cmd + seq!['{'] + rest, cmd) is None,
{
    let search = cmd + seq!['{'];
    let line = before + cmd + seq!['{'] + rest;
    let n = before.len() as int;
    assert(line.skip(n).subrange(0, search.len() as int) =~= search);
    lemma_first_at(line, search, n);
    lemma_find_is_first(line, search, n);
    assert(line.skip(n + search.len()) =~= rest);
    lemma_find_iff_occurs(rest, seq!['}']);
    assert forall|j: int| !occurs_at(rest, seq!['}'], j) by {
        if occurs_at(rest, seq!['}'], j) {
            assert(rest.subrange(j, j + 1)[0] == rest[j]);
        }
    }
}

/// Without `cmd{` there is no argument.
pub proof fn lemma_argument_absent(line: Seq<char>, cmd: Seq<char>)
    requires
        forall|j: int|
            0 <= j <= line.len() ==> !(cmd + seq!['{']).is_prefix_of(#[trigger] line.skip(j)),
    ensures
        argument_of(line, cmd) is None,
{
    lemma_find(line, cmd + seq!['{']);
}

/// What stands up to the next `}` is what is read, without the white space around it, and nothing
/// is read where there is none.
pub proof fn lemma_brace_ends_argument(arg: Seq<char>, after: Seq<char>)
    requires
        !arg.contains('}'),
    ensures
        up_to_brace(arg + seq!['}'] + after) == Some(trimmed(arg)),
        up_to_brace(arg) is None,
{
    let rest = arg + seq!['}'] + after;
    let n = arg.len() as int;
    assert(rest.subrange(n, n + 1) =~= seq!['}']);
    assert forall|j: int| j < n implies !occurs_at(rest, seq!['}'], j) by {
        if occurs_at(rest, seq!['}'], j) {
            assert(rest.subrange(j, j + 1)[0] == arg[j]);
        }
    }
    lemma_find_is_first(rest, seq!['}'], n);
    assert(rest.take(n) =~= arg);
    lemma_find_iff_occurs(arg, seq!['}']);
    assert forall|j: int| !occurs_at(arg, seq!['}'], j) by {
        if occurs_at(arg, seq!['}'], j) {
            assert(arg.subrange(j, j + 1)[0] == arg[j]);
        }
    }
}

/// What is read up to a `}` is followed by it, and holds none.
pub proof fn lemma_brace_splits(rest: Seq<char>) -> (end: int)
    requires
        rest.contains('}') || up_to_brace(rest) is Some,
    ensures
        0 <= end < rest.len(),
        rest == rest.take(end) + seq!['}'] + rest.skip(end + 1),
        !rest.take(end).contains('}'),
        up_to_brace(rest) == Some(trimmed(rest.take(end))),
{
    lemma_find(rest, seq!['}']);
    if find_in(rest, seq!['}']) is None {
        let k = choose|k: int| 0 <= k < rest.len() && rest[k] == '}';
        assert(seq!['}'] =~= rest.skip(k).subrange(0, 1));
        assert(seq!['}'].is_prefix_of(rest.skip(k)));
    }
    let end = find_in(rest, seq!['}'])->Some_0;
    let arg = rest.take(end);
    assert(rest.skip(end).subrange(0, 1)[0] == rest[end]);
    if arg.contains('}') {
        let k = choose|k: int| 0 <= k < arg.len() && arg[k] == '}';
        assert(seq!['}'] =~= rest.skip(k).subrange(0, 1));
        assert(seq!['}'].is_prefix_of(rest.skip(k)));
    }
    assert(rest =~= arg + seq!['}'] + rest.skip(end + 1));
    end
}

/// The overrides are put in and nothing else changes: taking them out of the result gives the text
/// back. They stand where the document begins, or at the start where it begins nowhere.
pub proof fn lemma_overrides_are_put_in(tex: Seq<char>, i: int)
    requires
        0 <= i <= tex.len(),
        forall|j: int|
            0 <= j < i ==> !"\\begin{document}"@.is_prefix_of(#[trigger] tex.skip(j)),
        "\\begin{document}"@.is_prefix_of(tex.skip(i)) || (i == 0 && forall|j: int|
            0 <= j <= tex.len() ==> !"\\begin{document}"@.is_prefix_of(#[trigger] tex.skip(j))),
    ensures
        with_overrides(tex).take(i) + with_overrides(tex).skip(i + RED_OVERRIDES@.len()) == tex,
        with_overrides(tex).subrange(i, i + RED_OVERRIDES@.len()) == RED_OVERRIDES@,
        with_overrides(tex).len() == tex.len() + RED_OVERRIDES@.len(),
{
    let out = with_overrides(tex);
    let red = RED_OVERRIDES@;
    lemma_find(tex, BEGIN_DOCUMENT@);
    if BEGIN_DOCUMENT@.is_prefix_of(tex.skip(i)) {
        lemma_first_at(tex, BEGIN_DOCUMENT@, i);
        lemma_find_is_first(tex, BEGIN_DOCUMENT@, i);
    }
    assert(out =~= tex.take(i) + red + tex.skip(i));
    assert(out.subrange(i, i + red.len()) =~= red);
    assert(out.take(i) + out.skip(i + red.len()) =~= tex);
}

/// A file can be a root exactly where it holds `\documentclass` and does not hold the comment that
/// latexdiff leaves; nothing else that it holds matters.
pub proof fn lemma_root_file(content: Seq<u8>)
    ensures
        root_file(content) <==> (exists|before: Seq<u8>, after: Seq<u8>|
            content == #[trigger] (before + encode_utf8("\\documentclass"@) + after)) && !(exists|
            before: Seq<u8>,
            after: Seq<u8>,
        |
            content == #[trigger] (before + encode_utf8(
                "%DIF PREAMBLE EXTENSION ADDED BY LATEXDIFF"@,
            ) + after)),
{
    lemma_occurs(content, encode_utf8(DOCUMENTCLASS@));
    lemma_occurs(content, encode_utf8(LATEXDIFF_MARK@));
}

/// The same of a text.
pub proof fn lemma_root_text(content: Seq<char>)
    ensures
        root_text(content) <==> (exists|before: Seq<char>, after: Seq<char>|
            content == #[trigger] (before + "\\documentclass"@ + after)) && !(exists|
            before: Seq<char>,
            after: Seq<char>,
        |
            content == #[trigger] (before + "%DIF PREAMBLE EXTENSION ADDED BY LATEXDIFF"@ + after)),
{
    lemma_occurs(content, DOCUMENTCLASS@);
    lemma_occurs(content, LATEXDIFF_MARK@);
}

/// `\documentclass` put anywhere into a file makes it one that can be a root, unless latexdiff
/// wrote it, and the comment of latexdiff put anywhere into a file makes it one that cannot.
pub proof fn lemma_what_makes_a_root(before: Seq<u8>, after: Seq<u8>)
    ensures
        root_file(before + encode_utf8("\\documentclass"@) + after) <==> !occurs(
            before + encode_utf8("\\documentclass"@) + after,
            encode_utf8("%DIF PREAMBLE EXTENSION ADDED BY LATEXDIFF"@),
        ),
        !root_file(
            before + encode_utf8("%DIF PREAMBLE EXTENSION ADDED BY LATEXDIFF"@) + after,
        ),
{
    let class = before + encode_utf8("\\documentclass"@) + after;
    let mark = before + encode_utf8("%DIF PREAMBLE EXTENSION ADDED BY LATEXDIFF"@) + after;
    lemma_occurs(class, encode_utf8(DOCUMENTCLASS@));
    lemma_occurs(mark, encode_utf8(LATEXDIFF_MARK@));
}

} // verus!
