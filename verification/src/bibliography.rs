//! Bibliographies that have to be generated, and the tools that generate them.

use crate::bytes::{holds_text, lemma_occurs_encoded, lemma_search_in_utf8};
use crate::command::{Call, Exit};
use crate::error::Failure;
use crate::latex::{
    argument_of, extract_arg, lemma_argument_of_first, lemma_brace_ends_argument,
    lemma_brace_splits, lemma_up_to_brace, read_to_brace, up_to_brace,
};
use crate::lines::{
    lemma_every_text_is_read, lemma_nothing_is_made_up, text_lines, text_parts,
};
use crate::project::{
    find_in_tex_files, first_hit, lemma_every_tex_file_is_searched, lemma_first_hit,
    lemma_search_gives_first_hit, tex_lines, tex_lines_of, Entry,
};
use crate::text::{
    ends_with, find_from, find_in, has_suffix, lemma_ends_with, lemma_find_ends_before,
    lemma_find_iff_occurs, lemma_find_is_first, lemma_find_passes_over, lemma_first_at,
    lemma_occurrence_splits, lemma_occurs, lemma_occurs_at, lemma_occurs_in_whole,
    lemma_trim_splits, lemma_without_suffixes, occurs, occurs_at, opt_text, same_text, texts,
    to_chars, trim, trim_leading, trim_suffixes, trimmed, white_space, without_leading,
    without_suffixes,
};
use vstd::prelude::*;
use vstd::utf8::encode_utf8;

verus! {

/// An entry of the working directory itself, by the two parts of its name.
#[derive(Debug, PartialEq, Eq)]
pub struct DirectoryItem {
    /// What follows the last dot of the name.
    pub extension: Option<String>,
    /// The rest of the name, where it is text.
    pub stem: Option<String>,
}

/// How a line pulls in another file.
pub const INPUT: &'static str = "\\input{";

/// At `i` a line pulls in the bibliography `name`: only explicit `.bbl` names count.
pub open spec fn pulls_in(line: Seq<char>, i: int, name: Seq<char>) -> bool {
    &&& occurs_at(line, INPUT@, i)
    &&& up_to_brace(line.skip(i + INPUT@.len())) == Some(name)
    &&& ends_with(name, ".bbl"@)
}

/// The bibliographies that a line pulls in, from left to right: of every `\input{..}` the argument,
/// if it is a `.bbl` name.
pub open spec fn references_in(line: Seq<char>) -> Seq<Seq<char>>
    decreases line.len(),
{
    match find_in(line, INPUT@) {
        Some(i) => {
            proof {
                reveal_strlit("\\input{");
            }
            let rest = line.skip(i + INPUT@.len());
            match up_to_brace(rest) {
                Some(name) => if ends_with(name, ".bbl"@) {
                    seq![name] + references_in(rest)
                } else {
                    references_in(rest)
                },
                None => references_in(rest),
            }
        },
        None => seq![],
    }
}

/// The bibliographies that some lines pull in, in their order.
pub open spec fn references_of(lines: Seq<Seq<char>>) -> Seq<Seq<char>>
    decreases lines.len(),
{
    if lines.len() == 0 {
        seq![]
    } else {
        references_of(lines.drop_last()) + references_in(lines.last())
    }
}

/// The names in `references` that are not among `existing`, each at its first place only.
pub open spec fn missing_of(
    references: Seq<Seq<char>>,
    existing: Seq<Seq<char>>,
) -> Seq<Seq<char>>
    decreases references.len(),
{
    if references.len() == 0 {
        seq![]
    } else {
        let before = missing_of(references.drop_last(), existing);
        let last = references.last();
        if existing.contains(last) || before.contains(last) {
            before
        } else {
            before.push(last)
        }
    }
}

/// The bibliographies that the `.tex` files among `entries` pull in and that are not among
/// `existing`.
pub open spec fn missing_bbls_of(entries: Seq<Entry>, existing: Seq<Seq<char>>) -> Seq<Seq<char>> {
    missing_of(references_of(tex_lines_of(entries)), existing)
}

/// Whether a list holds a text.
fn lists(list: &Vec<String>, s: &str) -> (yes: bool)
    ensures
        yes == texts(list@).contains(s@),
{
    let mut k: usize = 0;
    while k < list.len()
        invariant
            k <= list.len(),
            forall|j: int| 0 <= j < k ==> texts(list@)[j] != s@,
        decreases list.len() - k,
    {
        if same_text(list[k].as_str(), s) {
            assert(texts(list@)[k as int] == s@);
            return true;
        }
        k += 1;
    }
    false
}

/// The bibliographies that a line pulls in, from left to right.
fn line_references(line: &str) -> (names: Vec<String>)
    ensures
        texts(names@) == references_in(line@),
{
    let chars = to_chars(line);
    let search = to_chars(INPUT);
    let mut names: Vec<String> = Vec::new();
    let mut from: usize = 0;
    proof {
        reveal_strlit("\\input{");
        assert(chars@.skip(0) =~= line@);
        assert(texts(names@) =~= seq![]);
    }
    loop
        invariant_except_break
            from <= chars.len(),
            search@ == INPUT@,
            search.len() == 7,
            texts(names@) + references_in(chars@.skip(from as int)) =~= references_in(line@),
        ensures
            texts(names@) == references_in(line@),
        decreases chars.len() - from,
    {
        let ghost before = names@;
        let ghost rest = chars@.skip(from as int);
        match find_from(&chars, &search, from) {
            Some(i) => {
                let next: usize = i + search.len();
                assert(rest.skip(i - from + 7) =~= chars@.skip(next as int));
                if let Some(name) = read_to_brace(&chars, next) {
                    if has_suffix(name.as_str(), ".bbl") {
                        names.push(name);
                        assert(texts(names@) =~= texts(before) + seq![name@]);
                    }
                }
                from = next;
            },
            None => {
                break;
            },
        }
    }
    names
}

/// The bibliographies that the `.tex` files pull in by `\input`, in their order, as often as they
/// do.
pub fn bbl_references(entries: &Vec<Entry>) -> (names: Vec<String>)
    ensures
        texts(names@) == references_of(tex_lines_of(entries@)),
{
    let list = tex_lines(entries);
    let ghost all = texts(list@);
    let mut names: Vec<String> = Vec::new();
    let mut k: usize = 0;
    assert(texts(names@) =~= references_of(all.take(0)));
    while k < list.len()
        invariant
            k <= list.len(),
            all == texts(list@),
            texts(names@) == references_of(all.take(k as int)),
        decreases list.len() - k,
    {
        let ghost before = names@;
        assert(all.take(k + 1).drop_last() =~= all.take(k as int));
        assert(all.take(k + 1).last() == list@[k as int]@);
        let mut more = line_references(list[k].as_str());
        let ghost found = more@;
        names.append(&mut more);
        assert(texts(names@) =~= texts(before) + texts(found));
        k += 1;
    }
    assert(all.take(k as int) =~= all);
    names
}

/// The bibliographies that the `.tex` files pull in by `\input` and that are not among `existing`,
/// in the order in which they first occur.
pub fn missing_bbls(entries: &Vec<Entry>, existing: &Vec<String>) -> (missing: Vec<String>)
    ensures
        texts(missing@) == missing_bbls_of(entries@, texts(existing@)),
{
    let names = bbl_references(entries);
    let ghost all = texts(names@);
    let mut missing: Vec<String> = Vec::new();
    let mut k: usize = 0;
    assert(texts(missing@) =~= missing_of(all.take(0), texts(existing@)));
    while k < names.len()
        invariant
            k <= names.len(),
            all == texts(names@),
            texts(missing@) == missing_of(all.take(k as int), texts(existing@)),
        decreases names.len() - k,
    {
        let ghost before = missing@;
        assert(all.take(k + 1).drop_last() =~= all.take(k as int));
        assert(all.take(k + 1).last() == names@[k as int]@);
        let name = names[k].as_str();
        if !lists(existing, name) && !lists(&missing, name) {
            missing.push(name.to_owned());
            assert(texts(missing@) =~= texts(before).push(name@));
        }
        k += 1;
    }
    assert(all.take(k as int) =~= all);
    missing
}

/// What is missing is pulled in somewhere and does not exist, nothing that is pulled in and does
/// not exist is left out, and nothing is named twice.
proof fn lemma_missing(references: Seq<Seq<char>>, existing: Seq<Seq<char>>)
    ensures
        forall|name: Seq<char>|
            #![trigger missing_of(references, existing).contains(name)]
            missing_of(references, existing).contains(name) <==> references.contains(name)
                && !existing.contains(name),
        missing_of(references, existing).no_duplicates(),
    decreases references.len(),
{
    if references.len() > 0 {
        let before = missing_of(references.drop_last(), existing);
        let now = missing_of(references, existing);
        let last = references.last();
        lemma_missing(references.drop_last(), existing);
        assert forall|name: Seq<char>|
            now.contains(name) <==> references.contains(name) && !existing.contains(name) by {
            if before.contains(name) {
                let a = choose|a: int| 0 <= a < before.len() && before[a] == name;
                assert(now[a] == name);
            }
            if references.contains(name) && name != last {
                let a = choose|a: int| 0 <= a < references.len() && references[a] == name;
                assert(references.drop_last()[a] == name);
            }
            if references.drop_last().contains(name) {
                let a = choose|a: int|
                    0 <= a < references.drop_last().len() && references.drop_last()[a] == name;
                assert(references[a] == name);
            }
            if name == last {
                assert(references[references.len() - 1] == name);
                if now.len() > before.len() {
                    assert(now[before.len() as int] == name);
                }
            }
        }
    }
}

/// Nothing that a line pulls in is left out, wherever in the line it stands, and nothing is added.
pub proof fn lemma_references_in(line: Seq<char>)
    ensures
        forall|name: Seq<char>|
            #![trigger references_in(line).contains(name)]
            references_in(line).contains(name) <==> exists|i: int| pulls_in(line, i, name),
    decreases line.len(),
{
    reveal_strlit("\\input{");
    lemma_find_iff_occurs(line, INPUT@);
    let now = references_in(line);
    match find_in(line, INPUT@) {
        Some(first) => {
            let rest = line.skip(first + 7);
            let later = references_in(rest);
            lemma_references_in(rest);
            assert forall|i: int, name: Seq<char>| #[trigger]
                pulls_in(rest, i, name) implies pulls_in(line, first + 7 + i, name) by {
                assert(rest.subrange(i, i + 7) =~= line.subrange(first + 7 + i, first + 14 + i));
                assert(rest.skip(i + 7) =~= line.skip(first + 14 + i));
            }
            assert forall|i: int, name: Seq<char>|
                #[trigger] pulls_in(line, i, name) && i != first implies pulls_in(
                rest,
                i - first - 7,
                name,
            ) by {
                assert(i > first);
                if i < first + 7 {
                    // Only the first character of the pattern is a backslash.
                    assert(line.subrange(i, i + 7)[0] == line[i]);
                    assert(line.subrange(first, first + 7)[i - first] == line[i]);
                }
                let j = i - first - 7;
                assert(rest.subrange(j, j + 7) =~= line.subrange(i, i + 7));
                assert(rest.skip(j + 7) =~= line.skip(i + 7));
            }
            assert forall|name: Seq<char>|
                #![trigger now.contains(name)]
                now.contains(name) <==> exists|i: int| pulls_in(line, i, name) by {
                if now.contains(name) {
                    let a = choose|a: int| 0 <= a < now.len() && now[a] == name;
                    if now.len() == later.len() {
                        assert(later[a] == name);
                    } else if a > 0 {
                        assert(later[a - 1] == name);
                    } else {
                        assert(pulls_in(line, first, name));
                    }
                    if later.contains(name) {
                        let i = choose|i: int| pulls_in(rest, i, name);
                        assert(pulls_in(line, first + 7 + i, name));
                    }
                }
                if exists|i: int| pulls_in(line, i, name) {
                    let i = choose|i: int| pulls_in(line, i, name);
                    if i == first {
                        assert(now[0] == name);
                    } else {
                        assert(pulls_in(rest, i - first - 7, name));
                        assert(later.contains(name));
                        let a = choose|a: int| 0 <= a < later.len() && later[a] == name;
                        assert(now[a + (now.len() - later.len())] == name);
                    }
                }
            }
        },
        None => {
            assert forall|i: int, name: Seq<char>| !#[trigger] pulls_in(line, i, name) by {
                assert(!occurs_at(line, INPUT@, i));
            }
        },
    }
}

/// A `.bbl` name that a line pulls in is found wherever it stands and whatever bytes stand around
/// it, in whatever encoding they are.
pub proof fn lemma_reference_is_found(before: Seq<u8>, inner: Seq<char>, after: Seq<u8>)
    requires
        !inner.contains('}'),
        ends_with(trimmed(inner), ".bbl"@),
    ensures
        ({
            let line = before + encode_utf8(INPUT@ + inner + seq!['}']) + after;
            exists|k: int|
                0 <= k < text_parts(line, seq![]).len() && references_in(
                    #[trigger] text_parts(line, seq![])[k],
                ).contains(trimmed(inner))
        }),
{
    let text = INPUT@ + inner + seq!['}'];
    let line = before + encode_utf8(text) + after;
    let all = text_parts(line, seq![]);
    reveal_strlit("\\input{");
    lemma_every_text_is_read(before, text, after, seq![]);
    let k = choose|k: int| 0 <= k < all.len() && occurs(#[trigger] all[k], text);
    let part = all[k];
    let i = choose|i: int| occurs_at(part, text, i);
    let found = part.subrange(i, i + text.len());
    assert(part.subrange(i, i + 7) =~= found.subrange(0, 7));
    assert(text.subrange(0, 7) =~= INPUT@);
    let rest = part.skip(i + 7);
    let n = inner.len() as int;
    assert(rest.take(n) =~= found.subrange(7, 7 + n));
    assert(text.subrange(7, 7 + n) =~= inner);
    assert(rest[n] == found[7 + n]);
    assert(rest.subrange(n, n + 1) =~= seq!['}']);
    assert forall|j: int| j < n implies !occurs_at(rest, seq!['}'], j) by {
        if occurs_at(rest, seq!['}'], j) {
            assert(rest.subrange(j, j + 1)[0] == rest.take(n)[j]);
            assert(inner[j] == '}');
        }
    }
    lemma_find_is_first(rest, seq!['}'], n);
    assert(pulls_in(part, i, trimmed(inner)));
    lemma_references_in(part);
}

/// A name that is read from a line stands in it, byte for byte.
pub proof fn lemma_reference_stands_in_line(line: Seq<u8>, k: int, i: int, name: Seq<char>)
    requires
        0 <= k < text_parts(line, seq![]).len(),
        pulls_in(text_parts(line, seq![])[k], i, name),
    ensures
        occurs(line, encode_utf8(name)),
{
    let part = text_parts(line, seq![])[k];
    lemma_up_to_brace(part, i + INPUT@.len(), name);
    lemma_occurs_encoded(part, name);
    lemma_nothing_is_made_up(line, k);
    lemma_occurs_in_whole(line, encode_utf8(part), encode_utf8(name));
}

/// The bibliographies that some lines pull in are those that each line on its own does.
proof fn lemma_references(lines: Seq<Seq<char>>)
    ensures
        forall|name: Seq<char>|
            #![trigger references_of(lines).contains(name)]
            references_of(lines).contains(name) <==> exists|k: int|
                0 <= k < lines.len() && references_in(#[trigger] lines[k]).contains(name),
    decreases lines.len(),
{
    if lines.len() > 0 {
        let front = lines.drop_last();
        let before = references_of(front);
        let last = references_in(lines.last());
        let now = references_of(lines);
        lemma_references(front);
        assert forall|name: Seq<char>|
            #![trigger now.contains(name)]
            now.contains(name) <==> exists|k: int|
                0 <= k < lines.len() && references_in(#[trigger] lines[k]).contains(name) by {
            if now.contains(name) {
                let a = choose|a: int| 0 <= a < now.len() && now[a] == name;
                if a < before.len() {
                    assert(before[a] == name);
                    assert(before.contains(name));
                    let k = choose|k: int|
                        0 <= k < front.len() && references_in(#[trigger] front[k]).contains(name);
                    assert(references_in(lines[k]).contains(name));
                } else {
                    assert(last[a - before.len()] == name);
                    assert(references_in(lines[lines.len() - 1]).contains(name));
                }
            }
            if exists|k: int|
                0 <= k < lines.len() && references_in(#[trigger] lines[k]).contains(name) {
                let k = choose|k: int|
                    0 <= k < lines.len() && references_in(#[trigger] lines[k]).contains(name);
                if k < front.len() {
                    assert(references_in(front[k]).contains(name));
                    assert(before.contains(name));
                    let a = choose|a: int| 0 <= a < before.len() && before[a] == name;
                    assert(now[a] == name);
                } else {
                    let a = choose|a: int| 0 <= a < last.len() && last[a] == name;
                    assert(now[before.len() + a] == name);
                }
            }
        }
    }
}

/// The bibliographies to generate are exactly those that some `.tex` line pulls in by
/// `\input{..bbl}`, at whatever place, and that do not exist, each named once.
pub proof fn lemma_missing_bbls(entries: Seq<Entry>, existing: Seq<Seq<char>>)
    ensures
        missing_bbls_of(entries, existing).no_duplicates(),
        forall|name: Seq<char>|
            #![trigger missing_bbls_of(entries, existing).contains(name)]
            missing_bbls_of(entries, existing).contains(name) <==> !existing.contains(name) && (
            exists|k: int, i: int|
                0 <= k < tex_lines_of(entries).len() && #[trigger] pulls_in(
                    tex_lines_of(entries)[k],
                    i,
                    name,
                )),
{
    let lines = tex_lines_of(entries);
    lemma_references(lines);
    lemma_missing(references_of(lines), existing);
    assert forall|name: Seq<char>|
        #![trigger missing_bbls_of(entries, existing).contains(name)]
        missing_bbls_of(entries, existing).contains(name) <==> !existing.contains(name) && (exists|
            k: int,
            i: int,
        |
            0 <= k < lines.len() && #[trigger] pulls_in(lines[k], i, name)) by {
        assert(missing_of(references_of(lines), existing).contains(name) <==> references_of(
            lines,
        ).contains(name) && !existing.contains(name));
        if references_of(lines).contains(name) {
            let k = choose|k: int|
                0 <= k < lines.len() && references_in(#[trigger] lines[k]).contains(name);
            lemma_references_in(lines[k]);
            let i = choose|i: int| pulls_in(lines[k], i, name);
            assert(pulls_in(lines[k], i, name));
        }
        if exists|k: int, i: int| 0 <= k < lines.len() && #[trigger] pulls_in(lines[k], i, name) {
            let (k, i) = choose|k: int, i: int|
                0 <= k < lines.len() && #[trigger] pulls_in(lines[k], i, name);
            lemma_references_in(lines[k]);
            assert(references_in(lines[k]).contains(name));
        }
    }
}

/// The style that the project asks for: the first `\bibliographystyle{..}`, or `plain`.
pub open spec fn style_of(entries: Seq<Entry>) -> Seq<char> {
    match first_hit(tex_lines_of(entries), |l: Seq<char>| argument_of(l, "\\bibliographystyle"@)) {
        Some(style) => style,
        None => "plain"@,
    }
}

/// The style that the project asks for: the first `\bibliographystyle{..}`, or `plain`.
pub fn bibliography_style(entries: &Vec<Entry>) -> (style: String)
    ensures
        style@ == style_of(entries@),
{
    let predicate = |l: &str| -> (r: Option<String>)
        ensures
            opt_text(r) == argument_of(l@, "\\bibliographystyle"@),
        { extract_arg(l, "\\bibliographystyle") };
    let hit = find_in_tex_files(entries, predicate);
    proof {
        lemma_search_gives_first_hit(
            predicate,
            |l: Seq<char>| argument_of(l, "\\bibliographystyle"@),
            tex_lines_of(entries@),
            hit,
        );
    }
    match hit {
        Some(style) => style,
        None => "plain".to_owned(),
    }
}

/// The database that a line names by `\bibliography{..}`, which may be commented out.
pub open spec fn named_database(line: Seq<char>) -> Option<Seq<char>> {
    argument_of(trimmed(without_leading(trimmed(line), '%')), "\\bibliography"@)
}

/// The stem of the first `.bib` file whose stem is text.
pub open spec fn first_bib(items: Seq<DirectoryItem>) -> Option<Seq<char>>
    decreases items.len(),
{
    if items.len() == 0 {
        None
    } else if opt_text(items[0].extension) == Some("bib"@) && items[0].stem is Some {
        opt_text(items[0].stem)
    } else {
        first_bib(items.skip(1))
    }
}

/// The database to use: the first that a `.tex` file names, or else the first `.bib` file of the
/// working directory.
pub open spec fn database_of(entries: Seq<Entry>, items: Seq<DirectoryItem>) -> Option<Seq<char>> {
    match first_hit(tex_lines_of(entries), |l: Seq<char>| named_database(l)) {
        Some(name) => Some(name),
        None => first_bib(items),
    }
}

/// The stem of the first `.bib` file whose stem is text.
fn find_bib(items: &Vec<DirectoryItem>) -> (stem: Option<String>)
    ensures
        opt_text(stem) == first_bib(items@),
{
    let mut k: usize = 0;
    assert(items@.skip(0) =~= items@);
    while k < items.len()
        invariant
            k <= items.len(),
            first_bib(items@.skip(k as int)) == first_bib(items@),
        decreases items.len() - k,
    {
        let item = &items[k];
        assert(items@.skip(k as int)[0] == *item);
        assert(items@.skip(k as int).skip(1) =~= items@.skip(k + 1));
        if let Some(extension) = &item.extension {
            if same_text(extension.as_str(), "bib") {
                if let Some(stem) = &item.stem {
                    return Some(stem.clone());
                }
            }
        }
        k += 1;
    }
    None
}

/// The database to use: the first that a `.tex` file names, or else the first `.bib` file of the
/// working directory, whose entries are `items`.
pub fn bibliography_database(
    entries: &Vec<Entry>,
    items: &Vec<DirectoryItem>,
) -> (database: Option<String>)
    ensures
        opt_text(database) == database_of(entries@, items@),
{
    let predicate = |l: &str| -> (r: Option<String>)
        ensures
            opt_text(r) == named_database(l@),
        {
            let line = trim(l);
            let uncommented = trim_leading(line.as_str(), '%');
            let stripped = trim(uncommented.as_str());
            extract_arg(stripped.as_str(), "\\bibliography")
        };
    let hit = find_in_tex_files(entries, predicate);
    proof {
        lemma_search_gives_first_hit(
            predicate,
            |l: Seq<char>| named_database(l),
            tex_lines_of(entries@),
            hit,
        );
    }
    match hit {
        Some(name) => Some(name),
        None => find_bib(items),
    }
}

/// Some texts in a row, with `separator` between them.
pub open spec fn joined(list: Seq<Seq<char>>, separator: Seq<char>) -> Seq<char>
    decreases list.len(),
{
    if list.len() == 0 {
        seq![]
    } else if list.len() == 1 {
        list[0]
    } else {
        joined(list.drop_last(), separator) + separator + list.last()
    }
}

/// Some texts in a row, with `separator` between them.
fn join(list: &Vec<String>, separator: &str) -> (text: String)
    ensures
        text@ == joined(texts(list@), separator@),
{
    let ghost all = texts(list@);
    let mut text = String::new();
    let mut k: usize = 0;
    assert(text@ =~= joined(all.take(0), separator@));
    while k < list.len()
        invariant
            k <= list.len(),
            all == texts(list@),
            text@ == joined(all.take(k as int), separator@),
        decreases list.len() - k,
    {
        assert(all.take(k + 1).drop_last() =~= all.take(k as int));
        assert(all.take(k + 1).last() == list@[k as int]@);
        if k > 0 {
            text.append(separator);
        }
        text.append(list[k].as_str());
        assert(text@ =~= joined(all.take(k + 1), separator@));
        k += 1;
    }
    assert(all.take(k as int) =~= all);
    text
}

/// The stub that tells bibtex which database and style to use, and to cite every entry.
pub open spec fn stub_of(database: Seq<char>, style: Seq<char>) -> Seq<char> {
    "\\relax\n\\bibdata{"@ + database + "}\n\\bibstyle{"@ + style + "}\n\\citation{*}\n"@
}

/// The name without `.bbl`, under which bibtex is asked for a bibliography.
pub open spec fn stem_of(bbl: Seq<char>) -> Seq<char> {
    without_suffixes(bbl, ".bbl"@)
}

/// The name of the file in which pdflatex keeps what it learnt about a source, and from which
/// bibtex reads what it has to do.
pub fn aux_name(stem: &str) -> (name: String)
    ensures
        name@ == stem@ + ".aux"@,
{
    let mut name = stem.to_owned();
    name.append(".aux");
    name
}

/// The name of the control file that pdflatex leaves for biber.
pub fn bcf_name(stem: &str) -> (name: String)
    ensures
        name@ == stem@ + ".bcf"@,
{
    let mut name = stem.to_owned();
    name.append(".bcf");
    name
}

/// One bibliography that bibtex is to generate.
#[derive(Debug, PartialEq, Eq)]
pub struct BblJob {
    /// The bibliography's name as it is pulled in.
    pub bbl: String,
    /// The name under which bibtex is asked for it.
    pub stem: String,
    /// The name of the stub.
    pub aux_name: String,
    /// What the stub holds.
    pub aux: String,
    /// The line by which the job is announced.
    pub announcement: String,
}

/// `job` generates the bibliography `bbl` from a database in a style.
pub open spec fn generates(
    job: BblJob,
    bbl: Seq<char>,
    database: Seq<char>,
    style: Seq<char>,
) -> bool {
    &&& job.bbl@ == bbl
    &&& job.stem@ == stem_of(bbl)
    &&& job.aux_name@ == stem_of(bbl) + ".aux"@
    &&& job.aux@ == stub_of(database, style)
    &&& job.announcement@ == "  generating "@ + bbl + " via bibtex ("@ + database + ".bib / "@
        + style + ")..."@
}

/// The job that generates the bibliography `bbl` from a database in a style.
pub fn bbl_job(bbl: &str, database: &str, style: &str) -> (job: BblJob)
    ensures
        generates(job, bbl@, database@, style@),
{
    let stem = trim_suffixes(bbl, ".bbl");
    let mut aux = "\\relax\n\\bibdata{".to_owned();
    aux.append(database);
    aux.append("}\n\\bibstyle{");
    aux.append(style);
    aux.append("}\n\\citation{*}\n");
    let mut announcement = "  generating ".to_owned();
    announcement.append(bbl);
    announcement.append(" via bibtex (");
    announcement.append(database);
    announcement.append(".bib / ");
    announcement.append(style);
    announcement.append(")...");
    BblJob { bbl: bbl.to_owned(), aux_name: aux_name(stem.as_str()), stem, aux, announcement }
}

/// What has to be done about missing bibliographies.
#[derive(Debug, PartialEq, Eq)]
pub enum BblPlan {
    /// None is missing.
    Nothing,
    /// Some are missing, but there is no database to generate them from.
    NoDatabase { warning: String },
    /// Each of these is to be generated, in this order.
    Generate(Vec<BblJob>),
}

/// Decides how to come by the bibliographies that the `.tex` files pull in and that are not among
/// `existing`. `items` are the entries of the working directory itself.
pub fn generate_missing_bbls(
    entries: &Vec<Entry>,
    existing: &Vec<String>,
    items: &Vec<DirectoryItem>,
) -> (plan: BblPlan)
    ensures
        ({
            let missing = missing_bbls_of(entries@, texts(existing@));
            let database = database_of(entries@, items@);
            match plan {
                BblPlan::Nothing => missing.len() == 0,
                BblPlan::NoDatabase { warning } => {
                    &&& missing.len() > 0
                    &&& database is None
                    &&& warning@ == "warning: "@ + joined(missing, ", "@)
                        + " missing but no .bib file found — bibliography will be empty"@
                },
                BblPlan::Generate(jobs) => {
                    &&& missing.len() > 0
                    &&& database is Some
                    &&& jobs@.len() == missing.len()
                    &&& forall|k: int|
                        0 <= k < missing.len() ==> generates(
                            #[trigger] jobs@[k],
                            missing[k],
                            database->Some_0,
                            style_of(entries@),
                        )
                },
            }
        }),
{
    let missing = missing_bbls(entries, existing);
    let ghost all = texts(missing@);
    if missing.len() == 0 {
        return BblPlan::Nothing;
    }
    let style = bibliography_style(entries);
    let database = match bibliography_database(entries, items) {
        Some(database) => database,
        None => {
            let mut warning = "warning: ".to_owned();
            let names = join(&missing, ", ");
            warning.append(names.as_str());
            warning.append(" missing but no .bib file found — bibliography will be empty");
            return BblPlan::NoDatabase { warning };
        },
    };
    let mut jobs: Vec<BblJob> = Vec::new();
    let mut k: usize = 0;
    while k < missing.len()
        invariant
            k <= missing.len(),
            jobs@.len() == k,
            all == texts(missing@),
            forall|j: int|
                0 <= j < k ==> generates(#[trigger] jobs@[j], all[j], database@, style@),
        decreases missing.len() - k,
    {
        assert(all[k as int] == missing@[k as int]@);
        jobs.push(bbl_job(missing[k].as_str(), database.as_str(), style.as_str()));
        k += 1;
    }
    BblPlan::Generate(jobs)
}

/// How a bibliography tool is run, bibtex as well as biber: on a stem, and silently.
pub open spec fn tool_call_of(stem: Seq<char>) -> Call<Seq<Seq<char>>> {
    Call { args: seq![stem], quiet: true }
}

/// How a bibliography tool is run, bibtex as well as biber: on a stem, and silently.
pub fn tool_call(stem: &str) -> (call: Call<Vec<String>>)
    ensures
        call@ == tool_call_of(stem@),
{
    let args = vec![stem.to_owned()];
    assert(texts(args@) =~= seq![stem@]);
    Call { args, quiet: true }
}

/// What came of the last thing done for a job.
#[derive(Clone, Copy, Debug, PartialEq, Eq, Structural)]
pub enum BblReply {
    /// Nothing is done yet.
    Started,
    /// The stub was written, or could not be.
    Stub(bool),
    /// bibtex was run on it.
    Bibtex(Exit),
}

/// What a job has to do next. `S` is the type of the texts that a step carries, `C` that of a call.
#[derive(Debug, PartialEq, Eq)]
pub enum BblStep<S, C> {
    /// Write the stub.
    WriteStub { name: S, content: S },
    /// Run bibtex on the stub.
    RunBibtex(C),
    /// Remove the stub, so that it does not stand in the way of the real build, and warn if there
    /// is a warning. The job is then done.
    RemoveStub { warning: Option<S> },
    /// Remove the stub and stop.
    RemoveStubAndFail(Failure<S>),
    /// Stop here; there is no stub.
    Fail(Failure<S>),
}

impl View for BblStep<String, Call<Vec<String>>> {
    type V = BblStep<Seq<char>, Call<Seq<Seq<char>>>>;

    open spec fn view(&self) -> BblStep<Seq<char>, Call<Seq<Seq<char>>>> {
        match self {
            BblStep::WriteStub { name, content } => BblStep::WriteStub {
                name: name@,
                content: content@,
            },
            BblStep::RunBibtex(call) => BblStep::RunBibtex(call@),
            BblStep::RemoveStub { warning } => BblStep::RemoveStub { warning: opt_text(*warning) },
            BblStep::RemoveStubAndFail(failure) => BblStep::RemoveStubAndFail(failure@),
            BblStep::Fail(failure) => BblStep::Fail(failure@),
        }
    }
}

/// What a job has to do after `reply`.
pub open spec fn bbl_step(
    job: BblJob,
    reply: BblReply,
) -> BblStep<Seq<char>, Call<Seq<Seq<char>>>> {
    match reply {
        BblReply::Started => BblStep::WriteStub { name: job.aux_name@, content: job.aux@ },
        BblReply::Stub(true) => BblStep::RunBibtex(tool_call_of(job.stem@)),
        BblReply::Stub(false) => BblStep::Fail(Failure::StubNotWritten { stem: job.stem@ }),
        BblReply::Bibtex(Exit::NotRun) => BblStep::RemoveStubAndFail(Failure::BibtexNotRun),
        BblReply::Bibtex(Exit::Exited(true)) => BblStep::RemoveStub { warning: None },
        BblReply::Bibtex(Exit::Exited(false)) => BblStep::RemoveStub {
            warning: Some("warning: bibtex reported errors generating "@ + job.bbl@),
        },
    }
}

impl BblJob {
    /// What the job has to do after `reply`.
    pub fn next(&self, reply: BblReply) -> (step: BblStep<String, Call<Vec<String>>>)
        ensures
            step@ == bbl_step(*self, reply),
    {
        match reply {
            BblReply::Started => BblStep::WriteStub {
                name: self.aux_name.clone(),
                content: self.aux.clone(),
            },
            BblReply::Stub(true) => BblStep::RunBibtex(tool_call(self.stem.as_str())),
            BblReply::Stub(false) => BblStep::Fail(
                Failure::StubNotWritten { stem: self.stem.clone() },
            ),
            BblReply::Bibtex(Exit::NotRun) => BblStep::RemoveStubAndFail(Failure::BibtexNotRun),
            BblReply::Bibtex(Exit::Exited(true)) => BblStep::RemoveStub { warning: None },
            BblReply::Bibtex(Exit::Exited(false)) => {
                let mut warning = "warning: bibtex reported errors generating ".to_owned();
                warning.append(self.bbl.as_str());
                BblStep::RemoveStub { warning: Some(warning) }
            },
        }
    }
}

/// bibtex is run on a stub exactly where one was written, and whatever comes of it the stub is
/// removed again, so that it does not stand in the way of the real build. The job fails where
/// bibtex could not be run at all.
pub proof fn lemma_stub_is_removed(job: BblJob, written: bool, exit: Exit)
    ensures
        bbl_step(job, BblReply::Stub(written)) is RunBibtex <==> written,
        bbl_step(job, BblReply::Stub(written)) is Fail <==> !written,
        bbl_step(job, BblReply::Bibtex(exit)) is RemoveStub <==> exit != Exit::NotRun,
        bbl_step(job, BblReply::Bibtex(exit)) is RemoveStubAndFail <==> exit == Exit::NotRun,
{
}

/// What came of the last thing done about a list of jobs.
#[derive(Debug, PartialEq, Eq)]
pub enum JobsReply<S> {
    /// Nothing is done yet.
    Started,
    /// The job at this position is done, with a warning or without one.
    Done(usize),
    /// A job failed.
    Failed(Failure<S>),
}

/// What to do next about a list of jobs.
#[derive(Debug, PartialEq, Eq)]
pub enum JobsStep<S> {
    /// Carry out the job at this position.
    Run(usize),
    /// All of them are done.
    Done,
    /// Stop here.
    Fail(Failure<S>),
}

impl View for JobsReply<String> {
    type V = JobsReply<Seq<char>>;

    open spec fn view(&self) -> JobsReply<Seq<char>> {
        match self {
            JobsReply::Started => JobsReply::Started,
            JobsReply::Done(k) => JobsReply::Done(*k),
            JobsReply::Failed(failure) => JobsReply::Failed(failure@),
        }
    }
}

impl View for JobsStep<String> {
    type V = JobsStep<Seq<char>>;

    open spec fn view(&self) -> JobsStep<Seq<char>> {
        match self {
            JobsStep::Run(k) => JobsStep::Run(*k),
            JobsStep::Done => JobsStep::Done,
            JobsStep::Fail(failure) => JobsStep::Fail(failure@),
        }
    }
}

/// What to do about `count` jobs after `reply`: each is carried out in its turn, and the first that
/// fails ends it all.
pub open spec fn jobs_step(count: nat, reply: JobsReply<Seq<char>>) -> JobsStep<Seq<char>> {
    match reply {
        JobsReply::Started => if count == 0 {
            JobsStep::Done
        } else {
            JobsStep::Run(0)
        },
        JobsReply::Done(k) => if k + 1 < count {
            JobsStep::Run((k + 1) as usize)
        } else {
            JobsStep::Done
        },
        JobsReply::Failed(failure) => JobsStep::Fail(failure),
    }
}

/// Decides what to do about a list of jobs after `reply`.
pub fn next_job(jobs: &Vec<BblJob>, reply: JobsReply<String>) -> (step: JobsStep<String>)
    ensures
        step@ == jobs_step(jobs@.len(), reply@),
{
    match reply {
        JobsReply::Started => {
            if jobs.len() == 0 {
                JobsStep::Done
            } else {
                JobsStep::Run(0)
            }
        },
        JobsReply::Done(k) => {
            if k < jobs.len() && k + 1 < jobs.len() {
                JobsStep::Run(k + 1)
            } else {
                JobsStep::Done
            }
        },
        JobsReply::Failed(failure) => JobsStep::Fail(failure),
    }
}

/// How a job fails, if it does: `written` is whether its stub can be written, and `exit` what
/// becomes of bibtex.
pub open spec fn job_failure(job: BblJob, written: bool, exit: Exit) -> Option<Failure<Seq<char>>> {
    match bbl_step(job, BblReply::Stub(written)) {
        BblStep::RunBibtex(_) => match bbl_step(job, BblReply::Bibtex(exit)) {
            BblStep::RemoveStubAndFail(failure) => Some(failure),
            _ => None,
        },
        BblStep::Fail(failure) => Some(failure),
        _ => None,
    }
}

/// The steps that follow `reply`, at most `fuel` of them, where `outcomes` tells of each job
/// whether its stub can be written and what becomes of bibtex.
pub open spec fn jobs_run(
    jobs: Seq<BblJob>,
    outcomes: Seq<(bool, Exit)>,
    reply: JobsReply<Seq<char>>,
    fuel: nat,
) -> Seq<JobsStep<Seq<char>>>
    decreases fuel,
{
    if fuel == 0 {
        seq![]
    } else {
        let step = jobs_step(jobs.len(), reply);
        match step {
            JobsStep::Run(k) => {
                let (written, exit) = outcomes[k as int];
                let next = match job_failure(jobs[k as int], written, exit) {
                    Some(failure) => JobsReply::Failed(failure),
                    None => JobsReply::Done(k),
                };
                seq![step] + jobs_run(jobs, outcomes, next, (fuel - 1) as nat)
            },
            _ => seq![step],
        }
    }
}

/// The steps that carry out the jobs from `from` up to `to`.
pub open spec fn in_turn(from: int, to: int) -> Seq<JobsStep<Seq<char>>> {
    Seq::new((to - from) as nat, |i: int| JobsStep::Run((from + i) as usize))
}

/// How a list of jobs ends whose first failing job stands at `stop`; none fails where that is the
/// list's end.
pub open spec fn jobs_end(
    jobs: Seq<BblJob>,
    outcomes: Seq<(bool, Exit)>,
    stop: int,
) -> JobsStep<Seq<char>> {
    if stop < jobs.len() {
        JobsStep::Fail(job_failure(jobs[stop], outcomes[stop].0, outcomes[stop].1)->Some_0)
    } else {
        JobsStep::Done
    }
}

/// From the job at `from` on, the jobs are carried out in turn up to the first that fails.
proof fn lemma_jobs_from(
    jobs: Seq<BblJob>,
    outcomes: Seq<(bool, Exit)>,
    reply: JobsReply<Seq<char>>,
    from: int,
    stop: int,
    fuel: nat,
)
    requires
        jobs.len() <= usize::MAX,
        0 <= from <= stop <= jobs.len(),
        jobs_step(jobs.len(), reply) == (if from < jobs.len() {
            JobsStep::<Seq<char>>::Run(from as usize)
        } else {
            JobsStep::Done
        }),
        forall|j: int|
            from <= j < stop ==> job_failure(
                #[trigger] jobs[j],
                outcomes[j].0,
                outcomes[j].1,
            ) is None,
        stop < jobs.len() ==> job_failure(jobs[stop], outcomes[stop].0, outcomes[stop].1) is Some,
        fuel >= stop - from + 2,
    ensures
        jobs_run(jobs, outcomes, reply, fuel) == in_turn(
            from,
            if stop < jobs.len() {
                stop + 1
            } else {
                stop
            },
        ).push(jobs_end(jobs, outcomes, stop)),
    decreases stop - from,
{
    let less = (fuel - 1) as nat;
    let run = jobs_run(jobs, outcomes, reply, fuel);
    if from == jobs.len() {
        assert(run =~= in_turn(from, stop).push(JobsStep::Done));
    } else if from == stop {
        let failure = job_failure(jobs[stop], outcomes[stop].0, outcomes[stop].1)->Some_0;
        let failed = JobsReply::Failed(failure);
        assert(jobs_run(jobs, outcomes, failed, less) =~= seq![JobsStep::Fail(failure)]);
        assert(run =~= in_turn(from, stop + 1).push(JobsStep::Fail(failure)));
    } else {
        let done = JobsReply::<Seq<char>>::Done(from as usize);
        assert(job_failure(jobs[from], outcomes[from].0, outcomes[from].1) is None);
        lemma_jobs_from(jobs, outcomes, done, from + 1, stop, less);
        let end = if stop < jobs.len() {
            stop + 1
        } else {
            stop
        };
        assert(run =~= in_turn(from, end).push(jobs_end(jobs, outcomes, stop)));
    }
}

/// The jobs are carried out in their order, each once, up to and with the first that fails, whose
/// failure then ends it all; where none fails, all of them are. A job fails only where its stub
/// cannot be written or bibtex cannot be run: one that ends with a warning is followed by the next.
pub proof fn lemma_jobs_in_order(
    jobs: Seq<BblJob>,
    outcomes: Seq<(bool, Exit)>,
    stop: int,
    fuel: nat,
)
    requires
        jobs.len() <= usize::MAX,
        0 <= stop <= jobs.len(),
        forall|j: int|
            0 <= j < stop ==> job_failure(#[trigger] jobs[j], outcomes[j].0, outcomes[j].1) is None,
        stop < jobs.len() ==> job_failure(jobs[stop], outcomes[stop].0, outcomes[stop].1) is Some,
        fuel >= stop + 2,
    ensures
        jobs_run(jobs, outcomes, JobsReply::Started, fuel) == in_turn(
            0,
            if stop < jobs.len() {
                stop + 1
            } else {
                stop
            },
        ).push(jobs_end(jobs, outcomes, stop)),
        forall|job: BblJob, written: bool, exit: Exit| #[trigger]
            job_failure(job, written, exit) == (if !written {
                Some(Failure::StubNotWritten { stem: job.stem@ })
            } else if exit == Exit::NotRun {
                Some(Failure::BibtexNotRun)
            } else {
                None
            }),
{
    lemma_jobs_from(jobs, outcomes, JobsReply::Started, 0, stop, fuel);
}

/// A program that turns a database into a bibliography.
#[derive(Clone, Copy, Debug, PartialEq, Eq, Structural)]
pub enum BibTool {
    Bibtex,
    Biber,
}

/// The name under which a tool is run.
pub open spec fn tool_name(tool: BibTool) -> Seq<char> {
    match tool {
        BibTool::Bibtex => "bibtex"@,
        BibTool::Biber => "biber"@,
    }
}

impl BibTool {
    /// The name under which the tool is run.
    pub fn name(self) -> (name: &'static str)
        ensures
            name@ == tool_name(self),
    {
        match self {
            BibTool::Bibtex => "bibtex",
            BibTool::Biber => "biber",
        }
    }
}

/// The tool that a project uses: biber where pdflatex left a control file for it, else bibtex where
/// the `.aux` file names a database.
pub open spec fn tool_of(has_bcf: bool, aux: Option<Seq<u8>>) -> Option<BibTool> {
    if has_bcf {
        Some(BibTool::Biber)
    } else {
        match aux {
            Some(content) => if occurs(content, encode_utf8("\\bibdata"@)) {
                Some(BibTool::Bibtex)
            } else {
                None
            },
            None => None,
        }
    }
}

/// Detects which bibliography tool a project uses from what a run of pdflatex left: whether there
/// is a `.bcf` file, and what the `.aux` file holds, where it can be read.
pub fn detect_bib_tool(has_bcf: bool, aux: Option<&Vec<u8>>) -> (tool: Option<BibTool>)
    ensures
        tool == tool_of(
            has_bcf,
            match aux {
                Some(content) => Some(content@),
                None => None,
            },
        ),
        has_bcf ==> tool == Some(BibTool::Biber),
        !has_bcf ==> (tool == Some(BibTool::Bibtex) <==> (aux matches Some(content) && occurs(
            content@,
            encode_utf8("\\bibdata"@),
        ))),
        !has_bcf ==> tool != Some(BibTool::Biber),
{
    if has_bcf {
        return Some(BibTool::Biber);
    }
    if let Some(content) = aux {
        if holds_text(content, "\\bibdata") {
            return Some(BibTool::Bibtex);
        }
    }
    None
}

/// A stub is one that bibtex can work on, whatever the database and the style.
pub proof fn lemma_stub_is_for_bibtex(database: Seq<char>, style: Seq<char>)
    ensures
        tool_of(false, Some(encode_utf8(stub_of(database, style)))) == Some(BibTool::Bibtex),
{
    reveal_strlit("\\relax\n\\bibdata{");
    reveal_strlit("\\bibdata");
    let stub = stub_of(database, style);
    assert(stub.subrange(7, 15) =~= "\\bibdata"@);
    assert(occurs_at(stub, "\\bibdata"@, 7));
    lemma_search_in_utf8(stub, "\\bibdata"@);
}

/// The stem of a bibliography is a start of its name and does not end in `.bbl` itself.
pub proof fn lemma_stem(bbl: Seq<char>)
    ensures
        stem_of(bbl).len() <= bbl.len(),
        stem_of(bbl) == bbl.take(stem_of(bbl).len() as int),
        !ends_with(stem_of(bbl), ".bbl"@),
    decreases bbl.len(),
{
    reveal_strlit(".bbl");
    if ends_with(bbl, ".bbl"@) {
        let shorter = bbl.take(bbl.len() - 4);
        lemma_stem(shorter);
        assert(shorter.take(stem_of(bbl).len() as int) =~= bbl.take(stem_of(bbl).len() as int));
    } else {
        assert(bbl.take(bbl.len() as int) =~= bbl);
    }
}

/// bibtex writes `.bbl` behind the stem it is given, and so generates the very file that is
/// missing, unless its name ends in `.bbl` twice.
pub proof fn lemma_generated_file_is_the_missing_one(bbl: Seq<char>)
    requires
        ends_with(bbl, ".bbl"@),
        !ends_with(bbl, ".bbl.bbl"@),
    ensures
        stem_of(bbl) + ".bbl"@ == bbl,
{
    reveal_strlit(".bbl");
    reveal_strlit(".bbl.bbl");
    let shorter = bbl.take(bbl.len() - 4);
    if ends_with(shorter, ".bbl"@) {
        let end = bbl.subrange(bbl.len() - 8, bbl.len() as int);
        let first = shorter.subrange(shorter.len() - 4, shorter.len() as int);
        let second = bbl.subrange(bbl.len() - 4, bbl.len() as int);
        assert(end =~= first + second);
        assert(end =~= ".bbl.bbl"@);
    }
    assert(without_suffixes(shorter, ".bbl"@) == shorter);
    assert(shorter + ".bbl"@ =~= bbl) by {
        assert(bbl =~= shorter + bbl.subrange(bbl.len() - 4, bbl.len() as int));
    }
}

/// Where a line pulls in a bibliography, `\input{..}` stands around the name.
proof fn lemma_pulled_in(line: Seq<char>, i: int, name: Seq<char>)
    requires
        pulls_in(line, i, name),
    ensures
        exists|raw: Seq<char>, after: Seq<char>|
            line.skip(i) == #[trigger] ("\\input{"@ + raw + seq!['}'] + after) && !raw.contains('}')
                && name == trimmed(raw),
{
    let n = INPUT@.len() as int;
    let rest = line.skip(i + n);
    let end = lemma_brace_splits(rest);
    let raw = rest.take(end);
    let after = rest.skip(end + 1);
    lemma_occurrence_splits(line, INPUT@, i);
    assert(line.skip(i) =~= INPUT@ + rest);
    assert(line.skip(i) =~= "\\input{"@ + raw + seq!['}'] + after);
}

/// Where `\input{..}` stands around a `.bbl` name, the line pulls it in.
proof fn lemma_does_pull_in(line: Seq<char>, i: int, raw: Seq<char>, after: Seq<char>)
    requires
        0 <= i <= line.len(),
        line.skip(i) == "\\input{"@ + raw + seq!['}'] + after,
        !raw.contains('}'),
        ".bbl"@.is_suffix_of(trimmed(raw)),
    ensures
        pulls_in(line, i, trimmed(raw)),
{
    let n = INPUT@.len() as int;
    lemma_ends_with(trimmed(raw), ".bbl"@);
    lemma_occurs_at(line, INPUT@, i);
    assert(line.skip(i).subrange(0, n) =~= INPUT@);
    assert(line.skip(i + n) =~= line.skip(i).skip(n));
    assert(line.skip(i).skip(n) =~= raw + seq!['}'] + after);
    lemma_brace_ends_argument(raw, after);
}

/// A line pulls in a bibliography where it holds `\input{..}` around a name that ends in `.bbl`,
/// with white space around the name or without; nothing else about the line matters.
pub proof fn lemma_pulls_in(line: Seq<char>, i: int, name: Seq<char>)
    ensures
        pulls_in(line, i, name) <==> 0 <= i <= line.len() && ".bbl"@.is_suffix_of(name) && exists|
            raw: Seq<char>,
            after: Seq<char>,
        |
            line.skip(i) == #[trigger] ("\\input{"@ + raw + seq!['}'] + after) && !raw.contains('}')
                && name == trimmed(raw),
{
    lemma_ends_with(name, ".bbl"@);
    if pulls_in(line, i, name) {
        lemma_pulled_in(line, i, name);
    }
    if 0 <= i <= line.len() && ".bbl"@.is_suffix_of(name) && exists|
        raw: Seq<char>,
        after: Seq<char>,
    |
        line.skip(i) == #[trigger] ("\\input{"@ + raw + seq!['}'] + after) && !raw.contains('}')
            && name == trimmed(raw) {
        let (raw, after) = choose|raw: Seq<char>, after: Seq<char>|
            line.skip(i) == #[trigger] ("\\input{"@ + raw + seq!['}'] + after) && !raw.contains('}')
                && name == trimmed(raw);
        lemma_does_pull_in(line, i, raw, after);
    }
}

/// References are listed from left to right: what the first `\input{..}` of a line pulls in comes
/// before what the rest of the line does, and a line without one pulls in nothing.
pub proof fn lemma_references_in_order(before: Seq<char>, raw: Seq<char>, after: Seq<char>)
    requires
        forall|j: int|
            0 <= j < before.len() ==> !"\\input{"@.is_prefix_of(
                #[trigger] (before + "\\input{"@ + raw + seq!['}'] + after).skip(j),
            ),
        !raw.contains('}'),
    ensures
        references_in(before + "\\input{"@ + raw + seq!['}'] + after) == (if ".bbl"@.is_suffix_of(
            trimmed(raw),
        ) {
            seq![trimmed(raw)]
        } else {
            Seq::<Seq<char>>::empty()
        }) + references_in(raw + seq!['}'] + after),
{
    reveal_strlit("\\input{");
    let line = before + "\\input{"@ + raw + seq!['}'] + after;
    let n = before.len() as int;
    let rest = raw + seq!['}'] + after;
    assert(line.skip(n).subrange(0, 7) =~= INPUT@);
    lemma_first_at(line, INPUT@, n);
    lemma_find_is_first(line, INPUT@, n);
    assert(line.skip(n + 7) =~= rest);
    lemma_brace_ends_argument(raw, after);
    lemma_ends_with(trimmed(raw), ".bbl"@);
    assert(Seq::<Seq<char>>::empty() + references_in(rest) =~= references_in(rest));
}

/// A line that holds no `\input{`, or closes none, pulls in nothing.
pub proof fn lemma_no_references(line: Seq<char>)
    requires
        !line.contains('}') || forall|j: int|
            0 <= j <= line.len() ==> !"\\input{"@.is_prefix_of(#[trigger] line.skip(j)),
    ensures
        references_in(line) == Seq::<Seq<char>>::empty(),
{
    let all = references_in(line);
    lemma_references_in(line);
    if all.len() > 0 {
        assert(all.contains(all[0]));
        let i = choose|i: int| pulls_in(line, i, all[0]);
        lemma_pulls_in(line, i, all[0]);
        let (raw, after) = choose|raw: Seq<char>, after: Seq<char>|
            line.skip(i) == #[trigger] ("\\input{"@ + raw + seq!['}'] + after) && !raw.contains('}')
                && all[0] == trimmed(raw);
        let k = ("\\input{"@ + raw).len() as int;
        assert(line.skip(i)[k] == '}');
        assert(line[i + k] == '}');
        assert("\\input{"@ =~= line.skip(i).subrange(0, "\\input{"@.len() as int));
        assert("\\input{"@.is_prefix_of(line.skip(i)));
    }
}

/// The references of some lines are those of the first of them and then those of the rest.
pub proof fn lemma_references_split(first: Seq<Seq<char>>, rest: Seq<Seq<char>>, line: Seq<char>)
    ensures
        references_of(Seq::<Seq<char>>::empty()) == Seq::<Seq<char>>::empty(),
        references_of(seq![line]) == references_in(line),
        references_of(first + rest) == references_of(first) + references_of(rest),
    decreases rest.len(),
{
    assert(seq![line].drop_last() =~= seq![]);
    assert(references_of(seq![line].drop_last()) =~= seq![]);
    assert(references_of(seq![line]) =~= references_in(line));
    if rest.len() == 0 {
        assert(first + rest =~= first);
        assert(references_of(first) + references_of(rest) =~= references_of(first));
    } else {
        lemma_references_split(first, rest.drop_last(), line);
        assert((first + rest).drop_last() =~= first + rest.drop_last());
        assert(references_of(first + rest) =~= references_of(first) + references_of(rest));
    }
}

/// A name is missing where it first occurs, unless it exists; later on it changes nothing.
pub proof fn lemma_missing_in_order(
    references: Seq<Seq<char>>,
    existing: Seq<Seq<char>>,
    name: Seq<char>,
)
    ensures
        missing_of(Seq::<Seq<char>>::empty(), existing) == Seq::<Seq<char>>::empty(),
        missing_of(references.push(name), existing) == (if existing.contains(name)
            || references.contains(name) {
            missing_of(references, existing)
        } else {
            missing_of(references, existing).push(name)
        }),
{
    assert(references.push(name).drop_last() =~= references);
    lemma_missing(references, existing);
    assert(missing_of(references, existing).contains(name) <==> references.contains(name)
        && !existing.contains(name));
}

/// What is missing is worked out from the lines of all `.tex` files.
pub proof fn lemma_missing_bbls_of(entries: Seq<Entry>, existing: Seq<Seq<char>>)
    ensures
        missing_bbls_of(entries, existing) == missing_of(
            references_of(tex_lines_of(entries)),
            existing,
        ),
{
}

/// A bibliography that a line of any `.tex` file pulls in and that does not exist is generated, and
/// so is every other such one, whatever else the files hold.
pub proof fn lemma_embedded_bbl_is_missing(
    entries: Seq<Entry>,
    existing: Seq<Seq<char>>,
    i: int,
    k: int,
    raw: Seq<char>,
    before: Seq<char>,
    after: Seq<char>,
)
    requires
        0 <= i < entries.len(),
        entries[i].extension matches Some(e) && e@ == "tex"@,
        entries[i].content matches Some(content) && 0 <= k < text_lines(content@).len()
            && text_lines(content@)[k] == before + "\\input{"@ + raw + seq!['}'] + after,
        !raw.contains('}'),
        ".bbl"@.is_suffix_of(trimmed(raw)),
        !existing.contains(trimmed(raw)),
    ensures
        missing_bbls_of(entries, existing).contains(trimmed(raw)),
{
    let line = before + "\\input{"@ + raw + seq!['}'] + after;
    let lines = tex_lines_of(entries);
    lemma_every_tex_file_is_searched(entries, i, k);
    let a = choose|a: int| 0 <= a < lines.len() && lines[a] == line;
    let n = before.len() as int;
    assert(line.skip(n) =~= "\\input{"@ + raw + seq!['}'] + after);
    lemma_pulls_in(line, n, trimmed(raw));
    assert(pulls_in(lines[a], n, trimmed(raw)));
    lemma_missing_bbls(entries, existing);
}

/// The style is that of the first line of a `.tex` file that names one, and `plain` where none
/// does.
pub proof fn lemma_style(entries: Seq<Entry>, k: int)
    requires
        0 <= k <= tex_lines_of(entries).len(),
        forall|j: int|
            0 <= j < k ==> argument_of(
                #[trigger] tex_lines_of(entries)[j],
                "\\bibliographystyle"@,
            ) is None,
        k < tex_lines_of(entries).len() ==> argument_of(
            tex_lines_of(entries)[k],
            "\\bibliographystyle"@,
        ) is Some,
    ensures
        style_of(entries) == (if k < tex_lines_of(entries).len() {
            argument_of(tex_lines_of(entries)[k], "\\bibliographystyle"@)->Some_0
        } else {
            "plain"@
        }),
{
    lemma_first_hit(
        tex_lines_of(entries),
        |l: Seq<char>| argument_of(l, "\\bibliographystyle"@),
        k,
    );
}

/// What stands in front of a command and cannot begin it does not change its argument.
proof fn lemma_argument_behind(front: Seq<char>, line: Seq<char>, cmd: Seq<char>)
    requires
        cmd.len() > 0,
        !front.contains(cmd[0]),
    ensures
        argument_of(front + line, cmd) == argument_of(line, cmd),
{
    let search = cmd + seq!['{'];
    lemma_find_passes_over(front, line, search);
    lemma_find_iff_occurs(line, search);
    if let Some(i) = find_in(line, search) {
        assert((front + line).skip(front.len() + i + search.len()) =~= line.skip(i + search.len()));
    }
}

/// What stands behind a command and holds no brace does not change its argument.
proof fn lemma_argument_in_front(line: Seq<char>, back: Seq<char>, cmd: Seq<char>)
    requires
        !back.contains('{'),
        !back.contains('}'),
    ensures
        argument_of(line + back, cmd) == argument_of(line, cmd),
{
    let search = cmd + seq!['{'];
    lemma_find_ends_before(line, back, search);
    lemma_find_iff_occurs(line, search);
    if let Some(i) = find_in(line, search) {
        let rest = line.skip(i + search.len());
        lemma_brace_in_front(rest, back);
        assert((line + back).skip(i + search.len()) =~= rest + back);
    }
}

/// What holds no closing brace does not change what is read up to one.
proof fn lemma_brace_in_front(rest: Seq<char>, back: Seq<char>)
    requires
        !back.contains('}'),
    ensures
        up_to_brace(rest + back) == up_to_brace(rest),
{
    if rest.contains('}') {
        let end = lemma_brace_splits(rest);
        let arg = rest.take(end);
        let after = rest.skip(end + 1);
        lemma_brace_ends_argument(arg, after + back);
        assert(rest + back =~= arg + seq!['}'] + (after + back));
    } else {
        let all = rest + back;
        if all.contains('}') {
            let k = choose|k: int| 0 <= k < all.len() && all[k] == '}';
            if k < rest.len() {
                assert(rest[k] == '}');
            } else {
                assert(back[k - rest.len()] == '}');
            }
        }
        lemma_brace_ends_argument(rest, seq![]);
        lemma_brace_ends_argument(all, seq![]);
    }
}

/// White space around a line does not change the argument of a command in it.
proof fn lemma_argument_in_trimmed(line: Seq<char>, cmd: Seq<char>)
    requires
        cmd.len() > 0,
        cmd[0] == '\\',
    ensures
        argument_of(trimmed(line), cmd) == argument_of(line, cmd),
{
    lemma_trim_splits(line);
    let (a, b) = choose|a: int, b: int|
        0 <= a <= b <= line.len() && trimmed(line) == #[trigger] line.subrange(a, b) && (forall|
            k: int,
        |
            0 <= k < a || b <= k < line.len() ==> white_space(#[trigger] line[k])) && (a < b
            ==> !white_space(line[a]) && !white_space(line[b - 1]));
    let front = line.take(a);
    let core = line.subrange(a, b);
    let back = line.skip(b);
    assert forall|k: int| 0 <= k < front.len() implies front[k] != '\\' by {
        assert(white_space(line[k]));
    }
    assert forall|k: int| 0 <= k < back.len() implies back[k] != '{' && back[k] != '}' by {
        assert(white_space(line[b + k]));
    }
    assert(line =~= front + (core + back));
    lemma_argument_behind(front, core + back, cmd);
    lemma_argument_in_front(core, back, cmd);
}

/// Percent signs in front of a line do not change the argument of a command in it.
proof fn lemma_argument_in_comment(line: Seq<char>, cmd: Seq<char>)
    requires
        cmd.len() > 0,
        cmd[0] == '\\',
    ensures
        argument_of(without_leading(line, '%'), cmd) == argument_of(line, cmd),
    decreases line.len(),
{
    if line.len() > 0 && line[0] == '%' {
        lemma_argument_in_comment(line.skip(1), cmd);
        assert(!seq!['%'].contains('\\'));
        lemma_argument_behind(seq!['%'], line.skip(1), cmd);
        assert(line =~= seq!['%'] + line.skip(1));
    }
}

/// A line names the database that is the argument of its `\bibliography`, whether it is commented
/// out or not.
pub proof fn lemma_named_database(line: Seq<char>)
    ensures
        named_database(line) == argument_of(line, "\\bibliography"@),
        named_database(seq!['%'] + line) == named_database(line),
{
    let cmd = "\\bibliography"@;
    reveal_strlit("\\bibliography");
    lemma_argument_in_trimmed(line, cmd);
    lemma_argument_in_comment(trimmed(line), cmd);
    lemma_argument_in_trimmed(without_leading(trimmed(line), '%'), cmd);
    let commented = seq!['%'] + line;
    lemma_argument_in_trimmed(commented, cmd);
    lemma_argument_in_comment(trimmed(commented), cmd);
    lemma_argument_in_trimmed(without_leading(trimmed(commented), '%'), cmd);
    assert(!seq!['%'].contains('\\'));
    lemma_argument_behind(seq!['%'], line, cmd);
}

/// The first `.bib` file whose stem is text is the one that is fallen back on.
pub proof fn lemma_first_bib(item: DirectoryItem, items: Seq<DirectoryItem>)
    ensures
        first_bib(Seq::<DirectoryItem>::empty()) is None,
        first_bib(seq![item] + items) == (if item.extension is Some && item.extension->Some_0@
            == "bib"@ && item.stem is Some {
            Some(item.stem->Some_0@)
        } else {
            first_bib(items)
        }),
{
    assert((seq![item] + items).skip(1) =~= items);
}

/// The database is that of the first line of a `.tex` file that names one, commented out or not,
/// and the first `.bib` file of the working directory where none does.
pub proof fn lemma_database(entries: Seq<Entry>, items: Seq<DirectoryItem>, k: int)
    requires
        0 <= k <= tex_lines_of(entries).len(),
        forall|j: int|
            0 <= j < k ==> argument_of(
                #[trigger] tex_lines_of(entries)[j],
                "\\bibliography"@,
            ) is None,
        k < tex_lines_of(entries).len() ==> argument_of(
            tex_lines_of(entries)[k],
            "\\bibliography"@,
        ) is Some,
    ensures
        database_of(entries, items) == (if k < tex_lines_of(entries).len() {
            argument_of(tex_lines_of(entries)[k], "\\bibliography"@)
        } else {
            first_bib(items)
        }),
{
    let lines = tex_lines_of(entries);
    assert forall|j: int| 0 <= j < k implies named_database(#[trigger] lines[j]) is None by {
        lemma_named_database(lines[j]);
    }
    if k < lines.len() {
        lemma_named_database(lines[k]);
    }
    lemma_first_hit(lines, |l: Seq<char>| named_database(l), k);
}

/// Texts in a row stand as they are, with the separator between each two.
pub proof fn lemma_joined(list: Seq<Seq<char>>, separator: Seq<char>, text: Seq<char>)
    ensures
        joined(Seq::<Seq<char>>::empty(), separator) == Seq::<char>::empty(),
        joined(seq![text], separator) == text,
        list.len() > 0 ==> joined(list.push(text), separator) == joined(list, separator) + separator
            + text,
{
    assert(list.push(text).drop_last() =~= list);
}

/// A stub names the database and the style that it is made for, and asks for every entry.
pub proof fn lemma_stub(database: Seq<char>, style: Seq<char>)
    ensures
        stub_of(database, style) == "\\relax\n\\bibdata{"@ + database + "}\n\\bibstyle{"@ + style
            + "}\n\\citation{*}\n"@,
        !database.contains('}') ==> argument_of(stub_of(database, style), "\\bibdata"@) == Some(
            trimmed(database),
        ),
{
    reveal_strlit("\\relax\n\\bibdata{");
    reveal_strlit("\\relax\n");
    reveal_strlit("\\bibdata");
    reveal_strlit("}\n\\bibstyle{");
    let before = "\\relax\n"@;
    let search = "\\bibdata"@ + seq!['{'];
    let tail = "}\n\\bibstyle{"@ + style + "}\n\\citation{*}\n"@;
    let after = tail.skip(1);
    let stub = stub_of(database, style);
    let line = before + "\\bibdata"@ + seq!['{'] + database + seq!['}'] + after;
    assert(stub =~= line);
    assert forall|j: int| 0 <= j < before.len() implies !search.is_prefix_of(
        #[trigger] line.skip(j),
    ) by {
        if search.is_prefix_of(line.skip(j)) {
            assert(search[0] == line.skip(j).subrange(0, search.len() as int)[0]);
            assert(search[1] == line.skip(j).subrange(0, search.len() as int)[1]);
            assert(line[j] == before[j]);
            assert(line[j + 1] == (before + "\\bibdata"@)[j + 1]);
        }
    }
    if !database.contains('}') {
        lemma_argument_of_first(before, "\\bibdata"@, database, after);
    }
}

/// A bibliography's stem is its name without `.bbl`, however often that stands at the end.
pub proof fn lemma_stem_without_suffix(bbl: Seq<char>)
    ensures
        stem_of(bbl + ".bbl"@) == stem_of(bbl),
        !".bbl"@.is_suffix_of(bbl) ==> stem_of(bbl) == bbl,
{
    lemma_without_suffixes(bbl, ".bbl"@);
}

/// A job is for the bibliography, database and style that it is made for: bibtex is asked for the
/// stem, the stub lies beside it, and all three are announced.
pub proof fn lemma_job(job: BblJob, bbl: Seq<char>, database: Seq<char>, style: Seq<char>)
    requires
        generates(job, bbl, database, style),
    ensures
        job.bbl@ == bbl,
        job.stem@ == stem_of(bbl),
        job.aux_name@ == job.stem@ + ".aux"@,
        job.aux@ == "\\relax\n\\bibdata{"@ + database + "}\n\\bibstyle{"@ + style
            + "}\n\\citation{*}\n"@,
        job.announcement@ == "  generating "@ + bbl + " via bibtex ("@ + database + ".bib / "@
            + style + ")..."@,
{
    lemma_stub(database, style);
}

/// A bibliography tool gets the stem as its only argument, and is silent.
pub proof fn lemma_tool_call(stem: Seq<char>)
    ensures
        tool_call_of(stem).args.len() == 1,
        tool_call_of(stem).args[0] == stem,
        tool_call_of(stem).quiet,
{
}

/// A job writes its own stub, has bibtex run on its own stem where the stub was written, removes
/// the stub whatever became of bibtex, warns of its own bibliography where bibtex reported errors,
/// and fails where there is no stub or no bibtex.
pub proof fn lemma_job_steps(job: BblJob)
    ensures
        bbl_step(job, BblReply::Started) == (BblStep::<Seq<char>, Call<Seq<Seq<char>>>>::WriteStub {
            name: job.aux_name@,
            content: job.aux@,
        }),
        bbl_step(job, BblReply::Stub(true)) == BblStep::<Seq<char>, Call<Seq<Seq<char>>>>::RunBibtex(
            Call { args: seq![job.stem@], quiet: true },
        ),
        bbl_step(job, BblReply::Stub(false)) == BblStep::<Seq<char>, Call<Seq<Seq<char>>>>::Fail(
            Failure::StubNotWritten { stem: job.stem@ },
        ),
        bbl_step(job, BblReply::Bibtex(Exit::NotRun)) == BblStep::<
            Seq<char>,
            Call<Seq<Seq<char>>>,
        >::RemoveStubAndFail(Failure::BibtexNotRun),
        bbl_step(job, BblReply::Bibtex(Exit::Exited(true))) == (BblStep::<Seq<char>, Call<Seq<Seq<char>>>>::RemoveStub {
            warning: None,
        }),
        bbl_step(job, BblReply::Bibtex(Exit::Exited(false))) == (BblStep::<Seq<char>, Call<Seq<Seq<char>>>>::RemoveStub {
            warning: Some("warning: bibtex reported errors generating "@ + job.bbl@),
        }),
{
}

/// A step carries the texts and the call that it was made with.
pub proof fn lemma_job_step_view(
    name: String,
    content: String,
    call: Call<Vec<String>>,
    warning: Option<String>,
    failure: Failure<String>,
)
    ensures
        (BblStep::<String, Call<Vec<String>>>::WriteStub { name, content })@ == (
        BblStep::<Seq<char>, Call<Seq<Seq<char>>>>::WriteStub { name: name@, content: content@ }),
        BblStep::<String, Call<Vec<String>>>::RunBibtex(call)@ == BblStep::<
            Seq<char>,
            Call<Seq<Seq<char>>>,
        >::RunBibtex(call@),
        (BblStep::<String, Call<Vec<String>>>::RemoveStub { warning })@ == (BblStep::<Seq<char>, Call<Seq<Seq<char>>>>::RemoveStub {
            warning: opt_text(warning),
        }),
        BblStep::<String, Call<Vec<String>>>::RemoveStubAndFail(failure)@ == BblStep::<
            Seq<char>,
            Call<Seq<Seq<char>>>,
        >::RemoveStubAndFail(failure@),
        BblStep::<String, Call<Vec<String>>>::Fail(failure)@ == BblStep::<
            Seq<char>,
            Call<Seq<Seq<char>>>,
        >::Fail(failure@),
{
}

/// A list of jobs begins with the first, goes on with the next where one is done, ends behind the
/// last, and stops with the failure of one that fails.
pub proof fn lemma_jobs_steps(count: nat, k: usize, failure: Failure<Seq<char>>)
    ensures
        jobs_step(0, JobsReply::Started) == JobsStep::<Seq<char>>::Done,
        count > 0 ==> jobs_step(count, JobsReply::Started) == JobsStep::<Seq<char>>::Run(0),
        k + 1 < count && k < usize::MAX ==> jobs_step(count, JobsReply::Done(k)) == JobsStep::<
            Seq<char>,
        >::Run((k + 1) as usize),
        k + 1 >= count ==> jobs_step(count, JobsReply::Done(k)) == JobsStep::<Seq<char>>::Done,
        jobs_step(count, JobsReply::Failed(failure)) == JobsStep::Fail(failure),
{
}

/// Replies and steps about a list of jobs carry what they were made with.
pub proof fn lemma_jobs_view(k: usize, failure: Failure<String>)
    ensures
        JobsReply::<String>::Started@ == JobsReply::<Seq<char>>::Started,
        JobsReply::<String>::Done(k)@ == JobsReply::<Seq<char>>::Done(k),
        JobsReply::<String>::Failed(failure)@ == JobsReply::<Seq<char>>::Failed(failure@),
        JobsStep::<String>::Run(k)@ == JobsStep::<Seq<char>>::Run(k),
        JobsStep::<String>::Done@ == JobsStep::<Seq<char>>::Done,
        JobsStep::<String>::Fail(failure)@ == JobsStep::<Seq<char>>::Fail(failure@),
{
}

/// The two tools go by their own names.
pub proof fn lemma_tool_names()
    ensures
        tool_name(BibTool::Bibtex) == "bibtex"@,
        tool_name(BibTool::Biber) == "biber"@,
{
}

/// A control file alone decides for biber, whatever the `.aux` file holds. Without one, bibtex is
/// used exactly where the `.aux` file can be read and holds `\bibdata` somewhere.
pub proof fn lemma_tool(aux: Option<Seq<u8>>, content: Seq<u8>)
    ensures
        tool_of(true, aux) == Some(BibTool::Biber),
        tool_of(false, None) is None,
        tool_of(false, Some(content)) == Some(BibTool::Bibtex) <==> exists|
            before: Seq<u8>,
            after: Seq<u8>,
        | content == #[trigger] (before + encode_utf8("\\bibdata"@) + after),
        tool_of(false, Some(content)) != Some(BibTool::Biber),
{
    lemma_occurs(content, encode_utf8("\\bibdata"@));
}

} // verus!
