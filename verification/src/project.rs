//! The files of a LaTeX project, and which of them matter.

use crate::error::{Error, Failure};
use crate::latex::{is_root_file, lemma_root_file, root_file};
use crate::lines::{lines, text_lines};
use crate::text::{opt_text, same_text, texts};
use vstd::prelude::*;
use vstd::utf8::encode_utf8;

verus! {

/// A file or directory that a walk through a project came to. The walk's own directory has depth
/// 0, what lies directly in it has depth 1.
#[derive(Debug, PartialEq, Eq)]
pub struct Entry {
    /// The path as it is shown to the user.
    pub shown: String,
    /// What follows the last dot of the name.
    pub extension: Option<String>,
    /// How many steps below the walk's directory the entry lies.
    pub depth: usize,
    /// Whether the path leads to a regular file, links followed.
    pub is_file: bool,
    /// The bytes that it holds, where they could be read.
    pub content: Option<Vec<u8>>,
}

/// How deep in the output directory bibliographies are looked for.
pub const SHARE_DEPTH: usize = 3;

/// The name of an entry ends in a dot and `ext`.
pub open spec fn has_extension(entry: Entry, ext: Seq<char>) -> bool {
    opt_text(entry.extension) == Some(ext)
}

impl Entry {
    /// Whether the name of the entry ends in a dot and `ext`.
    pub fn extension_is(&self, ext: &str) -> (yes: bool)
        ensures
            yes == has_extension(*self, ext@),
    {
        match &self.extension {
            Some(x) => same_text(x.as_str(), ext),
            None => false,
        }
    }
}

/// The numbers below `n` that satisfy `p`, in ascending order.
pub open spec fn picked(n: nat, p: spec_fn(int) -> bool) -> Seq<int>
    decreases n,
{
    if n == 0 {
        seq![]
    } else {
        let before = picked((n - 1) as nat, p);
        if p(n - 1) {
            before.push(n - 1)
        } else {
            before
        }
    }
}

/// The numbers that a list of machine numbers holds.
pub open spec fn numbers(list: Seq<usize>) -> Seq<int> {
    list.map_values(|i: usize| i as int)
}

/// What is picked is in ascending order, and is everything that satisfies the condition.
pub proof fn lemma_picked(n: nat, p: spec_fn(int) -> bool)
    ensures
        forall|i: int| picked(n, p).contains(i) <==> 0 <= i < n && p(i),
        forall|a: int, b: int| 0 <= a < b < picked(n, p).len() ==> picked(n, p)[a] < picked(n, p)[b],
    decreases n,
{
    if n > 0 {
        let before = picked((n - 1) as nat, p);
        lemma_picked((n - 1) as nat, p);
        assert forall|a: int| 0 <= a < before.len() implies before[a] < n - 1 by {
            assert(before.contains(before[a]));
        }
        assert forall|i: int| picked(n, p).contains(i) <==> 0 <= i < n && p(i) by {
            if before.contains(i) {
                let a = choose|a: int| 0 <= a < before.len() && before[a] == i;
                assert(picked(n, p)[a] == i);
            }
            if p(n - 1) && i == n - 1 {
                assert(picked(n, p)[before.len() as int] == i);
            }
        }
    }
}

/// An entry that can be the root of a project: a `.tex` file with `\documentclass` that latexdiff
/// did not write.
pub open spec fn root_candidate(entry: Entry) -> bool {
    has_extension(entry, "tex"@) && (entry.content matches Some(content) && root_file(content@))
}

/// The positions of the entries that can be the root.
pub open spec fn candidates(entries: Seq<Entry>) -> Seq<int> {
    picked(entries.len(), |i: int| root_candidate(entries[i]))
}

/// The first of the given entries that lies directly in the walk's directory.
pub open spec fn first_at_top(entries: Seq<Entry>, among: Seq<int>) -> Option<int>
    decreases among.len(),
{
    if among.len() == 0 {
        None
    } else if entries[among[0]].depth == 1 {
        Some(among[0])
    } else {
        first_at_top(entries, among.skip(1))
    }
}

/// The given entries' paths, one to a line, each behind two blanks.
pub open spec fn listing_of(entries: Seq<Entry>, among: Seq<int>) -> Seq<char>
    decreases among.len(),
{
    if among.len() == 0 {
        seq![]
    } else if among.len() == 1 {
        "  "@ + entries[among[0]].shown@
    } else {
        listing_of(entries, among.drop_last()) + "\n"@ + "  "@ + entries[among.last()].shown@
    }
}

/// The root of a project: its only candidate, or of several the first that lies directly in the
/// project's directory.
pub open spec fn main_tex_of(dir: Seq<char>, entries: Seq<Entry>) -> Result<
    int,
    Failure<Seq<char>>,
> {
    let found = candidates(entries);
    if found.len() == 0 {
        Err(Failure::NoMainTex { dir })
    } else if found.len() == 1 {
        Ok(found[0])
    } else {
        match first_at_top(entries, found) {
            Some(i) => Ok(i),
            None => Err(Failure::ManyMainTex { listing: listing_of(entries, found) }),
        }
    }
}

/// The positions of the entries that can be the root, as machine numbers.
fn find_candidates(entries: &Vec<Entry>) -> (found: Vec<usize>)
    ensures
        numbers(found@) == candidates(entries@),
{
    let ghost p = |i: int| root_candidate(entries@[i]);
    let mut found: Vec<usize> = Vec::new();
    let mut i: usize = 0;
    assert(numbers(found@) =~= picked(0, p));
    while i < entries.len()
        invariant
            i <= entries.len(),
            p == (|i: int| root_candidate(entries@[i])),
            numbers(found@) == picked(i as nat, p),
        decreases entries.len() - i,
    {
        let ghost before = found@;
        let entry = &entries[i];
        let root = entry.extension_is("tex") && match &entry.content {
            Some(content) => is_root_file(content),
            None => false,
        };
        if root {
            found.push(i);
            assert(numbers(found@) =~= numbers(before).push(i as int));
        }
        i += 1;
    }
    found
}

/// The given entries' paths, one to a line, each behind two blanks.
fn listing(entries: &Vec<Entry>, among: &Vec<usize>) -> (text: String)
    requires
        forall|k: int| 0 <= k < among.len() ==> among@[k] < entries.len(),
    ensures
        text@ == listing_of(entries@, numbers(among@)),
{
    let mut text = String::new();
    let mut k: usize = 0;
    assert(text@ =~= listing_of(entries@, numbers(among@).take(0)));
    while k < among.len()
        invariant
            k <= among.len(),
            forall|k: int| 0 <= k < among.len() ==> among@[k] < entries.len(),
            text@ == listing_of(entries@, numbers(among@).take(k as int)),
        decreases among.len() - k,
    {
        let ghost next = numbers(among@).take(k + 1);
        assert(next.drop_last() =~= numbers(among@).take(k as int));
        if k > 0 {
            text.append("\n");
        }
        text.append("  ");
        text.append(entries[among[k]].shown.as_str());
        assert(text@ =~= listing_of(entries@, next));
        k += 1;
    }
    assert(numbers(among@).take(k as int) =~= numbers(among@));
    text
}

/// Finds the root of the project in directory `dir`, among the entries that a walk through it came
/// to, in their order. The result is a position in `entries`.
pub fn find_main_tex(dir: &str, entries: &Vec<Entry>) -> (main: Result<usize, Error>)
    ensures
        match main {
            Ok(i) => main_tex_of(dir@, entries@) == Ok::<int, Failure<Seq<char>>>(i as int),
            Err(e) => main_tex_of(dir@, entries@) == Err::<int, Failure<Seq<char>>>(e@),
        },
{
    let found = find_candidates(entries);
    let ghost all = numbers(found@);
    proof {
        lemma_picked(entries@.len(), |i: int| root_candidate(entries@[i]));
        assert forall|k: int| 0 <= k < found.len() implies found@[k] < entries.len() by {
            assert(candidates(entries@).contains(all[k]));
        }
    }
    if found.len() == 0 {
        return Err(Failure::NoMainTex { dir: dir.to_owned() });
    }
    if found.len() == 1 {
        return Ok(found[0]);
    }
    let mut k: usize = 0;
    assert(all.skip(0) =~= all);
    while k < found.len()
        invariant
            k <= found.len(),
            all == numbers(found@),
            all == candidates(entries@),
            all.len() > 1,
            forall|k: int| 0 <= k < found.len() ==> found@[k] < entries.len(),
            first_at_top(entries@, all.skip(k as int)) == first_at_top(entries@, all),
        decreases found.len() - k,
    {
        assert(all.skip(k as int)[0] == found@[k as int]);
        assert(all.skip(k as int).skip(1) =~= all.skip(k + 1));
        if entries[found[k]].depth == 1 {
            return Ok(found[k]);
        }
        k += 1;
    }
    Err(Failure::ManyMainTex { listing: listing(entries, &found) })
}

/// The first of the given entries that lies at the top is one of them, and there is one exactly
/// where some entry among them lies there.
proof fn lemma_first_at_top(entries: Seq<Entry>, among: Seq<int>)
    ensures
        match first_at_top(entries, among) {
            Some(i) => exists|k: int|
                #![trigger among[k]]
                0 <= k < among.len() && among[k] == i && entries[i].depth == 1 && (forall|j: int|
                    0 <= j < k ==> entries[among[j]].depth != 1),
            None => forall|k: int| 0 <= k < among.len() ==> entries[among[k]].depth != 1,
        },
    decreases among.len(),
{
    if among.len() > 0 && entries[among[0]].depth != 1 {
        let rest = among.skip(1);
        lemma_first_at_top(entries, rest);
        match first_at_top(entries, rest) {
            Some(i) => {
                let k = choose|k: int|
                    #![trigger rest[k]]
                    0 <= k < rest.len() && rest[k] == i && entries[i].depth == 1 && (forall|j: int|
                        0 <= j < k ==> entries[rest[j]].depth != 1);
                assert(among[k + 1] == i);
                assert forall|j: int| 0 <= j < k + 1 implies entries[among[j]].depth != 1 by {
                    if j > 0 {
                        assert(rest[j - 1] == among[j]);
                    }
                }
            },
            None => {
                assert forall|k: int| 0 <= k < among.len() implies entries[among[k]].depth != 1 by {
                    if k > 0 {
                        assert(rest[k - 1] == among[k]);
                    }
                }
            },
        }
    }
}

/// A root that is found holds `\documentclass`, was not written by latexdiff, and is either the
/// only candidate or lies directly in the project's directory with no candidate in front of it that
/// does.
pub proof fn lemma_main_tex_is_root(dir: Seq<char>, entries: Seq<Entry>)
    ensures
        main_tex_of(dir, entries) matches Ok(i) ==> {
            &&& 0 <= i < entries.len()
            &&& root_candidate(entries[i])
            &&& entries[i].depth == 1 || (forall|j: int|
                0 <= j < entries.len() && root_candidate(entries[j]) ==> j == i)
            &&& entries[i].depth == 1 ==> (forall|j: int|
                0 <= j < i && root_candidate(entries[j]) ==> entries[j].depth != 1)
        },
{
    let p = |i: int| root_candidate(entries[i]);
    let found = candidates(entries);
    lemma_picked(entries.len(), p);
    lemma_first_at_top(entries, found);
    if let Ok(i) = main_tex_of(dir, entries) {
        let k = if found.len() == 1 {
            0
        } else {
            choose|k: int|
                #![trigger found[k]]
                0 <= k < found.len() && found[k] == i && entries[i].depth == 1 && (forall|j: int|
                    0 <= j < k ==> entries[found[j]].depth != 1)
        };
        assert(found[k] == i);
        assert(found.contains(i));
        assert(p(i));
        assert forall|j: int|
            0 <= j < entries.len() && #[trigger] root_candidate(entries[j]) implies found.contains(j)
            && (found.len() == 1 ==> j == i) && (j < i ==> found.len() > 1 && entries[j].depth
            != 1) by {
            assert(p(j));
            assert(found.contains(j));
            let a = choose|a: int| 0 <= a < found.len() && found[a] == j;
            if j < i && a >= k {
                assert(a == k || found[k] < found[a]);
            }
        }
    }
}

/// A root is found exactly where there is one candidate, or one among several lies directly in the
/// project's directory.
pub proof fn lemma_main_tex_found(dir: Seq<char>, entries: Seq<Entry>)
    ensures
        main_tex_of(dir, entries) is Ok <==> candidates(entries).len() == 1 || (exists|i: int|
            0 <= i < entries.len() && root_candidate(entries[i]) && (
            #[trigger] entries[i]).depth == 1),
{
    let p = |i: int| root_candidate(entries[i]);
    let found = candidates(entries);
    lemma_picked(entries.len(), p);
    lemma_first_at_top(entries, found);
    lemma_main_tex_is_root(dir, entries);
    if exists|i: int|
        0 <= i < entries.len() && root_candidate(entries[i]) && (#[trigger] entries[i]).depth == 1 {
        let i = choose|i: int|
            0 <= i < entries.len() && root_candidate(entries[i]) && (
            #[trigger] entries[i]).depth == 1;
        assert(p(i));
        assert(found.contains(i));
    }
}

/// An entry with its place: the names that lead to it from the walk's directory. `N` is the type
/// of a name.
#[derive(Debug, PartialEq, Eq)]
pub struct Placed<N> {
    pub entry: Entry,
    pub place: Vec<N>,
}

/// A file to copy: which entry it is, the directory that has to exist for it, and where it goes.
#[derive(Debug, PartialEq, Eq)]
pub struct CopyJob<N> {
    pub from: usize,
    pub folder: Option<Vec<N>>,
    pub to: Vec<N>,
}

/// The directory that a path lies in.
pub open spec fn folder_of<N>(path: Seq<N>) -> Option<Seq<N>> {
    if path.len() > 0 {
        Some(path.drop_last())
    } else {
        None
    }
}

/// `job` copies entry `i` from its place to the same place below `dest`.
pub open spec fn copies<N>(job: CopyJob<N>, i: int, dest: Seq<N>, place: Seq<N>) -> bool {
    &&& job.from == i
    &&& job.to@ == dest + place
    &&& match job.folder {
        Some(folder) => folder_of(dest + place) == Some(folder@),
        None => folder_of(dest + place) is None,
    }
}

/// `jobs` copy the chosen entries, in their order, each to the same place below `dest`.
pub open spec fn copy_all<N>(
    jobs: Seq<CopyJob<N>>,
    chosen: Seq<int>,
    items: Seq<Placed<N>>,
    dest: Seq<N>,
) -> bool {
    &&& jobs.len() == chosen.len()
    &&& forall|k: int|
        0 <= k < jobs.len() ==> copies(#[trigger] jobs[k], chosen[k], dest, items[chosen[k]].place@)
}

/// The job that copies entry `i` from its place to the same place below `dest`.
fn copy_job<N: Copy>(i: usize, dest: &Vec<N>, place: &Vec<N>) -> (job: CopyJob<N>)
    ensures
        copies(job, i as int, dest@, place@),
{
    let ghost path = dest@ + place@;
    let mut to: Vec<N> = Vec::new();
    let mut folder: Vec<N> = Vec::new();
    let mut k: usize = 0;
    while k < dest.len()
        invariant
            k <= dest.len(),
            to@ == dest@.take(k as int),
            k > 0 ==> folder@ == to@.drop_last(),
            k == 0 ==> folder@.len() == 0,
        decreases dest.len() - k,
    {
        if k > 0 {
            folder.push(dest[k - 1]);
        }
        to.push(dest[k]);
        k += 1;
    }
    let mut k: usize = 0;
    assert(to@ =~= dest@ + place@.take(0));
    while k < place.len()
        invariant
            k <= place.len(),
            to@ == dest@ + place@.take(k as int),
            to@.len() > 0 ==> folder@ == to@.drop_last(),
            to@.len() == 0 ==> folder@.len() == 0,
        decreases place.len() - k,
    {
        let ghost before = to@;
        if to.len() > 0 {
            folder.push(to[to.len() - 1]);
        }
        to.push(place[k]);
        assert(to@ =~= dest@ + place@.take(k + 1));
        assert(to@.drop_last() =~= before);
        k += 1;
    }
    assert(to@ =~= path);
    let folder = if to.len() > 0 {
        Some(folder)
    } else {
        None
    };
    CopyJob { from: i, folder, to }
}

/// The positions of the entries that lead to a regular file, which are what a copy of the project
/// takes over.
pub open spec fn copied<N>(items: Seq<Placed<N>>) -> Seq<int> {
    picked(items.len(), |i: int| items[i].entry.is_file)
}

/// Plans the copy of a project into the directory `dest`: every entry that leads to a regular file,
/// be it directly or by a link, in the order of the walk, each to the place below `dest` that it
/// has in the project.
pub fn copy_dir<N: Copy>(items: &Vec<Placed<N>>, dest: &Vec<N>) -> (jobs: Vec<CopyJob<N>>)
    ensures
        copy_all(jobs@, copied(items@), items@, dest@),
{
    let ghost p = |i: int| items@[i].entry.is_file;
    let mut jobs: Vec<CopyJob<N>> = Vec::new();
    let mut i: usize = 0;
    while i < items.len()
        invariant
            i <= items.len(),
            p == (|i: int| items@[i].entry.is_file),
            copy_all(jobs@, picked(i as nat, p), items@, dest@),
        decreases items.len() - i,
    {
        if items[i].entry.is_file {
            jobs.push(copy_job(i, dest, &items[i].place));
        }
        i += 1;
    }
    jobs
}

/// The positions of the bibliographies in the output directory that the original version lacks:
/// the `.bbl` entries at most three steps deep that are not among `existing`.
pub open spec fn shared<N>(items: Seq<Placed<N>>, existing: Seq<usize>) -> Seq<int> {
    picked(
        items.len(),
        |i: int|
            items[i].entry.depth <= SHARE_DEPTH && has_extension(items[i].entry, "bbl"@)
                && !numbers(existing).contains(i),
    )
}

/// Whether a list holds a number.
fn holds(list: &Vec<usize>, n: usize) -> (yes: bool)
    ensures
        yes == numbers(list@).contains(n as int),
{
    let mut k: usize = 0;
    while k < list.len()
        invariant
            k <= list.len(),
            forall|j: int| 0 <= j < k ==> list@[j] != n,
        decreases list.len() - k,
    {
        if list[k] == n {
            assert(numbers(list@)[k as int] == n as int);
            return true;
        }
        k += 1;
    }
    false
}

/// Plans which bibliographies of the output directory are copied next to the original version in
/// the directory `dest`, so that both versions inline the same one. `existing` are the positions of
/// the entries that the original version already has at the same place.
pub fn bbls_to_share<N: Copy>(
    items: &Vec<Placed<N>>,
    existing: &Vec<usize>,
    dest: &Vec<N>,
) -> (jobs: Vec<CopyJob<N>>)
    ensures
        copy_all(jobs@, shared(items@, existing@), items@, dest@),
{
    let ghost p = |i: int|
        items@[i].entry.depth <= SHARE_DEPTH && has_extension(items@[i].entry, "bbl"@)
            && !numbers(existing@).contains(i);
    let mut jobs: Vec<CopyJob<N>> = Vec::new();
    let mut i: usize = 0;
    while i < items.len()
        invariant
            i <= items.len(),
            p == (|i: int|
                items@[i].entry.depth <= SHARE_DEPTH && has_extension(items@[i].entry, "bbl"@)
                    && !numbers(existing@).contains(i)),
            copy_all(jobs@, picked(i as nat, p), items@, dest@),
        decreases items.len() - i,
    {
        let entry = &items[i].entry;
        if entry.depth <= SHARE_DEPTH && entry.extension_is("bbl") && !holds(existing, i) {
            jobs.push(copy_job(i, dest, &items[i].place));
        }
        i += 1;
    }
    jobs
}

/// No copy overwrites another: where the entries have different places, the copies have different
/// targets.
pub proof fn lemma_copies_do_not_collide<N>(
    jobs: Seq<CopyJob<N>>,
    items: Seq<Placed<N>>,
    dest: Seq<N>,
)
    requires
        copy_all(jobs, copied(items), items, dest),
        forall|i: int, j: int|
            0 <= i < j < items.len() ==> (#[trigger] items[i]).place@ != (
            #[trigger] items[j]).place@,
    ensures
        forall|a: int, b: int|
            0 <= a < b < jobs.len() ==> (#[trigger] jobs[a]).to@ != (#[trigger] jobs[b]).to@,
{
    let chosen = copied(items);
    lemma_picked(items.len(), |i: int| items[i].entry.is_file);
    assert forall|a: int, b: int| 0 <= a < b < jobs.len() implies (#[trigger] jobs[a]).to@ != (
    #[trigger] jobs[b]).to@ by {
        assert(chosen.contains(chosen[a]) && chosen.contains(chosen[b]));
        let left = items[chosen[a]].place@;
        let right = items[chosen[b]].place@;
        if jobs[a].to@ == jobs[b].to@ {
            assert((dest + left).skip(dest.len() as int) =~= left);
            assert((dest + right).skip(dest.len() as int) =~= right);
        }
    }
}

/// The lines of an entry as far as they are text, where it is a `.tex` file that could be read.
pub open spec fn entry_lines(entry: Entry) -> Seq<Seq<char>> {
    match entry.content {
        Some(content) => if has_extension(entry, "tex"@) {
            text_lines(content@)
        } else {
            seq![]
        },
        None => seq![],
    }
}

/// The lines of all `.tex` files that could be read, as far as they are text, in the order of the
/// walk.
pub open spec fn tex_lines_of(entries: Seq<Entry>) -> Seq<Seq<char>>
    decreases entries.len(),
{
    if entries.len() == 0 {
        seq![]
    } else {
        tex_lines_of(entries.drop_last()) + entry_lines(entries.last())
    }
}

/// The lines of all `.tex` files that could be read, as far as they are text, in the order of the
/// walk.
pub fn tex_lines(entries: &Vec<Entry>) -> (list: Vec<String>)
    ensures
        texts(list@) == tex_lines_of(entries@),
{
    let mut list: Vec<String> = Vec::new();
    let mut i: usize = 0;
    assert(texts(list@) =~= tex_lines_of(entries@.take(0)));
    while i < entries.len()
        invariant
            i <= entries.len(),
            texts(list@) == tex_lines_of(entries@.take(i as int)),
        decreases entries.len() - i,
    {
        let ghost before = list@;
        let entry = &entries[i];
        assert(entries@.take(i + 1).drop_last() =~= entries@.take(i as int));
        if entry.extension_is("tex") {
            if let Some(content) = &entry.content {
                let mut more = lines(content);
                let ghost added = more@;
                list.append(&mut more);
                assert(texts(list@) =~= texts(before) + texts(added));
            }
        }
        assert(texts(list@) =~= texts(before) + entry_lines(*entry));
        i += 1;
    }
    assert(entries@.take(i as int) =~= entries@);
    list
}

/// What `f` makes of the first line on which it finds anything.
pub open spec fn first_hit(
    list: Seq<Seq<char>>,
    f: spec_fn(Seq<char>) -> Option<Seq<char>>,
) -> Option<Seq<char>>
    decreases list.len(),
{
    if list.len() == 0 {
        None
    } else {
        match f(list[0]) {
            Some(hit) => Some(hit),
            None => first_hit(list.skip(1), f),
        }
    }
}

/// `f` was asked about a string with the characters of `line`, and returned `answer`.
pub open spec fn answered<F: Fn(&str) -> Option<String>>(
    f: F,
    line: Seq<char>,
    answer: Option<String>,
) -> bool {
    exists|l: &str| l@ == line && call_ensures(f, (l,), answer)
}

/// Asks `predicate` about the lines of all `.tex` files in turn, and returns what it makes of the
/// first line on which it finds anything.
pub fn find_in_tex_files<F: Fn(&str) -> Option<String>>(
    entries: &Vec<Entry>,
    predicate: F,
) -> (hit: Option<String>)
    requires
        forall|l: &str| call_requires(predicate, (l,)),
    ensures
        match hit {
            Some(_) => exists|k: int|
                #![trigger tex_lines_of(entries@)[k]]
                0 <= k < tex_lines_of(entries@).len() && answered(
                    predicate,
                    tex_lines_of(entries@)[k],
                    hit,
                ) && (forall|j: int|
                    0 <= j < k ==> answered(predicate, #[trigger] tex_lines_of(entries@)[j], None)),
            None => forall|j: int|
                0 <= j < tex_lines_of(entries@).len() ==> answered(
                    predicate,
                    #[trigger] tex_lines_of(entries@)[j],
                    None,
                ),
        },
{
    let list = tex_lines(entries);
    let ghost all = tex_lines_of(entries@);
    let mut k: usize = 0;
    while k < list.len()
        invariant
            k <= list.len(),
            all == texts(list@),
            all == tex_lines_of(entries@),
            forall|l: &str| call_requires(predicate, (l,)),
            forall|j: int| 0 <= j < k ==> answered(predicate, #[trigger] all[j], None),
        decreases list.len() - k,
    {
        let line = list[k].as_str();
        let hit = predicate(line);
        assert(line@ == all[k as int]);
        assert(answered(predicate, all[k as int], hit));
        if hit.is_some() {
            return hit;
        }
        k += 1;
    }
    None
}

/// Where `predicate` computes `f`, the search gives the first hit of `f`.
pub proof fn lemma_search_gives_first_hit<F: Fn(&str) -> Option<String>>(
    predicate: F,
    f: spec_fn(Seq<char>) -> Option<Seq<char>>,
    list: Seq<Seq<char>>,
    hit: Option<String>,
)
    requires
        forall|l: &str, r: Option<String>|
            call_ensures(predicate, (l,), r) ==> opt_text(r) == f(l@),
        match hit {
            Some(_) => exists|k: int|
                #![trigger list[k]]
                0 <= k < list.len() && answered(predicate, list[k], hit) && (forall|j: int|
                    0 <= j < k ==> answered(predicate, #[trigger] list[j], None)),
            None => forall|j: int|
                0 <= j < list.len() ==> answered(predicate, #[trigger] list[j], None),
        },
    ensures
        opt_text(hit) == first_hit(list, f),
{
    let k = match hit {
        Some(_) => choose|k: int|
            #![trigger list[k]]
            0 <= k < list.len() && answered(predicate, list[k], hit) && (forall|j: int|
                0 <= j < k ==> answered(predicate, #[trigger] list[j], None)),
        None => list.len() as int,
    };
    lemma_first_hit(list, f, k);
}

/// The first hit is the one on the first line that gives one.
pub proof fn lemma_first_hit(
    list: Seq<Seq<char>>,
    f: spec_fn(Seq<char>) -> Option<Seq<char>>,
    k: int,
)
    requires
        0 <= k <= list.len(),
        forall|j: int| 0 <= j < k ==> f(#[trigger] list[j]) is None,
        k < list.len() ==> f(list[k]) is Some,
    ensures
        first_hit(list, f) == (if k < list.len() {
            f(list[k])
        } else {
            None
        }),
    decreases list.len(),
{
    if list.len() > 0 && k > 0 {
        let rest = list.skip(1);
        assert forall|j: int| 0 <= j < k - 1 implies f(#[trigger] rest[j]) is None by {
            assert(rest[j] == list[j + 1]);
        }
        lemma_first_hit(rest, f, k - 1);
        assert(f(list[0]) is None);
    }
}

/// An entry has the extension that its name ends with, and no other.
pub proof fn lemma_has_extension(entry: Entry, ext: Seq<char>)
    ensures
        has_extension(entry, ext) <==> (entry.extension matches Some(e) && e@ == ext),
{
}

/// An entry can be the root exactly where it is a `.tex` file that could be read, holds
/// `\documentclass`, and does not hold the comment that latexdiff leaves. Nothing else about it
/// matters.
pub proof fn lemma_root_candidate(entry: Entry)
    ensures
        root_candidate(entry) <==> {
            &&& entry.extension matches Some(e) && e@ == "tex"@
            &&& entry.content matches Some(content) && (exists|before: Seq<u8>, after: Seq<u8>|
                content@ == #[trigger] (before + encode_utf8("\\documentclass"@) + after)) && !(
            exists|before: Seq<u8>, after: Seq<u8>|
                content@ == #[trigger] (before + encode_utf8(
                    "%DIF PREAMBLE EXTENSION ADDED BY LATEXDIFF"@,
                ) + after))
        },
{
    if let Some(content) = entry.content {
        lemma_root_file(content@);
    }
}

/// The machine numbers in a list are the numbers that it holds.
pub proof fn lemma_numbers(list: Seq<usize>)
    ensures
        numbers(list).len() == list.len(),
        forall|k: int| 0 <= k < list.len() ==> #[trigger] numbers(list)[k] == list[k] as int,
{
}

/// The candidates are exactly the entries that can be the root, in the order of the walk.
pub proof fn lemma_candidates(entries: Seq<Entry>)
    ensures
        forall|i: int|
            #![trigger candidates(entries).contains(i)]
            candidates(entries).contains(i) <==> 0 <= i < entries.len() && root_candidate(
                entries[i],
            ),
        forall|a: int, b: int|
            0 <= a < b < candidates(entries).len() ==> candidates(entries)[a] < candidates(
                entries,
            )[b],
{
    let p = |i: int| root_candidate(entries[i]);
    lemma_picked(entries.len(), p);
    assert forall|i: int|
        #![trigger candidates(entries).contains(i)]
        candidates(entries).contains(i) <==> 0 <= i < entries.len() && root_candidate(
            entries[i],
        ) by {
        assert(picked(entries.len(), p).contains(i) <==> 0 <= i < entries.len() && p(i));
    }
}

/// An only candidate is the root, wherever it lies and whatever else it holds.
pub proof fn lemma_only_candidate(dir: Seq<char>, entries: Seq<Entry>, i: int)
    requires
        0 <= i < entries.len(),
        root_candidate(entries[i]),
        forall|j: int|
            0 <= j < entries.len() && root_candidate(#[trigger] entries[j]) ==> j == i,
    ensures
        main_tex_of(dir, entries) == Ok::<int, Failure<Seq<char>>>(i),
{
    let found = candidates(entries);
    lemma_candidates(entries);
    assert(found.contains(i));
    let a = choose|a: int| 0 <= a < found.len() && found[a] == i;
    assert forall|b: int| 0 <= b < found.len() implies found[b] == i by {
        assert(found.contains(found[b]));
        assert(root_candidate(entries[found[b]]));
    }
    if found.len() > 1 {
        assert(found[0] < found[1]);
    }
}

/// The first candidate that lies directly in the project's directory is the root, whatever other
/// candidates there are.
pub proof fn lemma_candidate_at_top(dir: Seq<char>, entries: Seq<Entry>, i: int)
    requires
        0 <= i < entries.len(),
        root_candidate(entries[i]),
        entries[i].depth == 1,
        forall|j: int|
            0 <= j < i && root_candidate(#[trigger] entries[j]) ==> entries[j].depth != 1,
    ensures
        main_tex_of(dir, entries) == Ok::<int, Failure<Seq<char>>>(i),
{
    lemma_main_tex_found(dir, entries);
    lemma_main_tex_is_root(dir, entries);
    let found = main_tex_of(dir, entries)->Ok_0;
    if entries[found].depth == 1 {
        if found < i {
            assert(root_candidate(entries[found]));
        } else if i < found {
            assert(entries[i].depth != 1);
        }
    }
}

/// A project without a candidate has no root, and the directory is named.
pub proof fn lemma_no_candidate(dir: Seq<char>, entries: Seq<Entry>)
    requires
        forall|j: int| 0 <= j < entries.len() ==> !root_candidate(#[trigger] entries[j]),
    ensures
        main_tex_of(dir, entries) == Err::<int, Failure<Seq<char>>>(Failure::NoMainTex { dir }),
{
    let found = candidates(entries);
    lemma_candidates(entries);
    if found.len() > 0 {
        assert(found.contains(found[0]));
        assert(!root_candidate(entries[found[0]]));
    }
}

/// Several candidates of which none lies directly in the project's directory leave the root open,
/// and all of them are listed.
pub proof fn lemma_open_choice(dir: Seq<char>, entries: Seq<Entry>, i: int, k: int)
    requires
        0 <= i < k < entries.len(),
        root_candidate(entries[i]),
        root_candidate(entries[k]),
        forall|j: int|
            0 <= j < entries.len() && root_candidate(#[trigger] entries[j]) ==> entries[j].depth
                != 1,
    ensures
        main_tex_of(dir, entries) == Err::<int, Failure<Seq<char>>>(
            Failure::ManyMainTex { listing: listing_of(entries, candidates(entries)) },
        ),
{
    let found = candidates(entries);
    lemma_candidates(entries);
    assert(found.contains(i) && found.contains(k));
    lemma_first_at_top(entries, found);
    if let Some(t) = first_at_top(entries, found) {
        let a = choose|a: int|
            #![trigger found[a]]
            0 <= a < found.len() && found[a] == t && entries[t].depth == 1 && (forall|j: int|
                0 <= j < a ==> entries[found[j]].depth != 1);
        assert(found.contains(found[a]));
        assert(root_candidate(entries[t]));
    }
}

/// A listing names one path to a line, each behind two blanks, in the order given.
pub proof fn lemma_listing(entries: Seq<Entry>, among: Seq<int>, i: int)
    ensures
        listing_of(entries, Seq::<int>::empty()) == Seq::<char>::empty(),
        listing_of(entries, seq![i]) == "  "@ + entries[i].shown@,
        among.len() > 0 ==> listing_of(entries, among.push(i)) == listing_of(entries, among) + "\n"@
            + "  "@ + entries[i].shown@,
{
    assert(among.push(i).drop_last() =~= among);
}

/// A job copies the entry that it names from its place to the same place below the target, and
/// names the directory that has to exist for it.
pub proof fn lemma_copies<N>(job: CopyJob<N>, i: int, dest: Seq<N>, place: Seq<N>)
    ensures
        copies(job, i, dest, place) <==> {
            &&& job.from == i
            &&& job.to@ == dest + place
            &&& job.to@.len() > 0 ==> (job.folder matches Some(folder) && folder@.push(
                job.to@.last(),
            ) == job.to@)
            &&& job.to@.len() == 0 ==> job.folder is None
        },
{
    let path = dest + place;
    if job.to@ == path && path.len() > 0 {
        assert(path.drop_last().push(path.last()) =~= path);
        if let Some(folder) = job.folder {
            assert(folder@.push(path.last()).drop_last() =~= folder@);
        }
    }
}

/// A copy of a project takes over every entry that leads to a regular file, however deep it lies
/// and whatever it is called, and no other; each goes to the same place below the target, in the
/// order of the walk.
pub proof fn lemma_copy_is_complete<N>(
    jobs: Seq<CopyJob<N>>,
    items: Seq<Placed<N>>,
    dest: Seq<N>,
)
    requires
        copy_all(jobs, copied(items), items, dest),
    ensures
        forall|k: int|
            0 <= k < jobs.len() ==> (#[trigger] jobs[k]).from < items.len()
                && items[jobs[k].from as int].entry.is_file && jobs[k].to@ == dest
                + items[jobs[k].from as int].place@ && (jobs[k].to@.len() > 0 ==> (
            jobs[k].folder matches Some(folder) && folder@ == jobs[k].to@.drop_last())) && (
            jobs[k].to@.len() == 0 ==> jobs[k].folder is None),
        forall|a: int, b: int|
            0 <= a < b < jobs.len() ==> (#[trigger] jobs[a]).from < (#[trigger] jobs[b]).from,
        forall|i: int|
            0 <= i < items.len() && (#[trigger] items[i]).entry.is_file ==> exists|k: int|
                0 <= k < jobs.len() && (#[trigger] jobs[k]).from == i,
{
    let p = |i: int| items[i].entry.is_file;
    let chosen = copied(items);
    lemma_picked(items.len(), p);
    assert forall|k: int| 0 <= k < jobs.len() implies (#[trigger] jobs[k]).from < items.len()
        && items[jobs[k].from as int].entry.is_file && jobs[k].to@ == dest
        + items[jobs[k].from as int].place@ && (jobs[k].to@.len() > 0 ==> (
    jobs[k].folder matches Some(folder) && folder@ == jobs[k].to@.drop_last())) && (
    jobs[k].to@.len() == 0 ==> jobs[k].folder is None) by {
        assert(copies(jobs[k], chosen[k], dest, items[chosen[k]].place@));
        assert(chosen.contains(chosen[k]));
        assert(p(chosen[k]));
    }
    assert forall|a: int, b: int| 0 <= a < b < jobs.len() implies (#[trigger] jobs[a]).from < (
    #[trigger] jobs[b]).from by {
        assert(copies(jobs[a], chosen[a], dest, items[chosen[a]].place@));
        assert(copies(jobs[b], chosen[b], dest, items[chosen[b]].place@));
    }
    assert forall|i: int| 0 <= i < items.len() && (#[trigger] items[i]).entry.is_file implies exists|
        k: int,
    | 0 <= k < jobs.len() && (#[trigger] jobs[k]).from == i by {
        assert(p(i));
        assert(chosen.contains(i));
        let k = choose|k: int| 0 <= k < chosen.len() && chosen[k] == i;
        assert(copies(jobs[k], chosen[k], dest, items[chosen[k]].place@));
    }
}

/// What is shared with the original version is every `.bbl` entry at most three steps deep that it
/// lacks, and nothing else; each goes to the same place, in the order of the walk.
pub proof fn lemma_sharing_is_complete<N>(
    jobs: Seq<CopyJob<N>>,
    items: Seq<Placed<N>>,
    existing: Seq<usize>,
    dest: Seq<N>,
)
    requires
        copy_all(jobs, shared(items, existing), items, dest),
        items.len() <= usize::MAX,
    ensures
        forall|k: int|
            0 <= k < jobs.len() ==> {
                let item = items[(#[trigger] jobs[k]).from as int];
                &&& jobs[k].from < items.len()
                &&& item.entry.depth <= 3
                &&& item.entry.extension matches Some(e) && e@ == "bbl"@
                &&& !existing.contains(jobs[k].from)
                &&& jobs[k].to@ == dest + item.place@
                &&& jobs[k].to@.len() > 0 ==> (jobs[k].folder matches Some(folder) && folder@
                    == jobs[k].to@.drop_last())
                &&& jobs[k].to@.len() == 0 ==> jobs[k].folder is None
            },
        forall|a: int, b: int|
            0 <= a < b < jobs.len() ==> (#[trigger] jobs[a]).from < (#[trigger] jobs[b]).from,
        forall|i: int|
            0 <= i < items.len() && (#[trigger] items[i]).entry.depth <= 3 && (
            items[i].entry.extension matches Some(e) && e@ == "bbl"@) && !existing.contains(
                i as usize,
            ) ==> exists|k: int| 0 <= k < jobs.len() && (#[trigger] jobs[k]).from == i,
{
    let p = |i: int|
        items[i].entry.depth <= SHARE_DEPTH && has_extension(items[i].entry, "bbl"@) && !numbers(
            existing,
        ).contains(i);
    let chosen = shared(items, existing);
    lemma_picked(items.len(), p);
    assert forall|i: int| 0 <= i < items.len() implies (numbers(existing).contains(i)
        <==> #[trigger] existing.contains(i as usize)) by {
        if numbers(existing).contains(i) {
            let a = choose|a: int| 0 <= a < existing.len() && numbers(existing)[a] == i;
            assert(existing[a] == i as usize);
        }
        if existing.contains(i as usize) {
            let a = choose|a: int| 0 <= a < existing.len() && existing[a] == i as usize;
            assert(numbers(existing)[a] == i);
        }
    }
    assert forall|k: int| 0 <= k < jobs.len() implies {
        let item = items[(#[trigger] jobs[k]).from as int];
        &&& jobs[k].from < items.len()
        &&& item.entry.depth <= 3
        &&& item.entry.extension matches Some(e) && e@ == "bbl"@
        &&& !existing.contains(jobs[k].from)
        &&& jobs[k].to@ == dest + item.place@
        &&& jobs[k].to@.len() > 0 ==> (jobs[k].folder matches Some(folder) && folder@
            == jobs[k].to@.drop_last())
        &&& jobs[k].to@.len() == 0 ==> jobs[k].folder is None
    } by {
        assert(copies(jobs[k], chosen[k], dest, items[chosen[k]].place@));
        assert(chosen.contains(chosen[k]));
        assert(p(chosen[k]));
        assert(chosen[k] as usize == jobs[k].from);
    }
    assert forall|a: int, b: int| 0 <= a < b < jobs.len() implies (#[trigger] jobs[a]).from < (
    #[trigger] jobs[b]).from by {
        assert(copies(jobs[a], chosen[a], dest, items[chosen[a]].place@));
        assert(copies(jobs[b], chosen[b], dest, items[chosen[b]].place@));
    }
    assert forall|i: int|
        0 <= i < items.len() && (#[trigger] items[i]).entry.depth <= 3 && (
        items[i].entry.extension matches Some(e) && e@ == "bbl"@) && !existing.contains(
            i as usize,
        ) implies exists|k: int| 0 <= k < jobs.len() && (#[trigger] jobs[k]).from == i by {
        assert(p(i));
        assert(chosen.contains(i));
        let k = choose|k: int| 0 <= k < chosen.len() && chosen[k] == i;
        assert(copies(jobs[k], chosen[k], dest, items[chosen[k]].place@));
    }
}

/// A `.tex` file that could be read adds all its lines to those that are searched, however deep it
/// lies, and anything else adds none.
pub proof fn lemma_tex_lines_grow(entries: Seq<Entry>, entry: Entry)
    ensures
        tex_lines_of(Seq::<Entry>::empty()) == Seq::<Seq<char>>::empty(),
        tex_lines_of(entries.push(entry)) == tex_lines_of(entries) + (if entry.extension is Some
            && entry.extension->Some_0@ == "tex"@ && entry.content is Some {
            text_lines(entry.content->Some_0@)
        } else {
            Seq::<Seq<char>>::empty()
        }),
{
    assert(entries.push(entry).drop_last() =~= entries);
}

/// The lines of a walk are those of its first part and then those of the rest.
pub proof fn lemma_tex_lines_split(first: Seq<Entry>, rest: Seq<Entry>)
    ensures
        tex_lines_of(first + rest) == tex_lines_of(first) + tex_lines_of(rest),
    decreases rest.len(),
{
    if rest.len() == 0 {
        assert(first + rest =~= first);
        assert(tex_lines_of(first) + tex_lines_of(rest) =~= tex_lines_of(first));
    } else {
        lemma_tex_lines_split(first, rest.drop_last());
        assert((first + rest).drop_last() =~= first + rest.drop_last());
        assert(tex_lines_of(first + rest) =~= tex_lines_of(first) + tex_lines_of(rest));
    }
}

/// Every line of every `.tex` file that could be read is searched, wherever the file lies.
pub proof fn lemma_every_tex_file_is_searched(entries: Seq<Entry>, i: int, k: int)
    requires
        0 <= i < entries.len(),
        entries[i].extension matches Some(e) && e@ == "tex"@,
        entries[i].content matches Some(content) && 0 <= k < text_lines(content@).len(),
    ensures
        tex_lines_of(entries).contains(text_lines(entries[i].content->Some_0@)[k]),
{
    let before = entries.take(i);
    let after = entries.skip(i + 1);
    let own = text_lines(entries[i].content->Some_0@);
    lemma_tex_lines_grow(before, entries[i]);
    lemma_tex_lines_split(before.push(entries[i]), after);
    assert(before.push(entries[i]) + after =~= entries);
    assert(tex_lines_of(entries)[tex_lines_of(before).len() + k] == own[k]);
}

/// Only lines of `.tex` files that could be read are searched.
pub proof fn lemma_only_tex_files_are_searched(entries: Seq<Entry>, line: Seq<char>)
    requires
        tex_lines_of(entries).contains(line),
    ensures
        exists|i: int|
            0 <= i < entries.len() && (#[trigger] entries[i]).extension is Some
                && entries[i].extension->Some_0@ == "tex"@ && entries[i].content is Some
                && text_lines(entries[i].content->Some_0@).contains(line),
    decreases entries.len(),
{
    let all = tex_lines_of(entries);
    let before = tex_lines_of(entries.drop_last());
    let a = choose|a: int| 0 <= a < all.len() && all[a] == line;
    if a < before.len() {
        assert(before[a] == line);
        lemma_only_tex_files_are_searched(entries.drop_last(), line);
        let front = entries.drop_last();
        let i = choose|i: int|
            0 <= i < front.len() && (#[trigger] front[i]).extension is Some
                && front[i].extension->Some_0@ == "tex"@ && front[i].content is Some && text_lines(
                front[i].content->Some_0@,
            ).contains(line);
        assert(entries[i] == front[i]);
    } else {
        let last = entries[entries.len() - 1];
        lemma_tex_lines_grow(entries.drop_last(), last);
        assert(entries.drop_last().push(last) =~= entries);
        assert(text_lines(last.content->Some_0@)[a - before.len()] == line);
    }
}

/// A predicate was asked about a line exactly where it was called on a string that holds the line.
pub proof fn lemma_answered<F: Fn(&str) -> Option<String>>(
    f: F,
    line: Seq<char>,
    answer: Option<String>,
)
    ensures
        answered(f, line, answer) <==> exists|l: &str|
            l@ == line && #[trigger] call_ensures(f, (l,), answer),
{
}

/// A search goes on past the lines that give nothing and ends with the first that gives something.
pub proof fn lemma_search_order(
    first: Seq<char>,
    rest: Seq<Seq<char>>,
    f: spec_fn(Seq<char>) -> Option<Seq<char>>,
)
    ensures
        first_hit(Seq::<Seq<char>>::empty(), f) is None,
        f(first) is Some ==> first_hit(seq![first] + rest, f) == f(first),
        f(first) is None ==> first_hit(seq![first] + rest, f) == first_hit(rest, f),
{
    assert((seq![first] + rest).skip(1) =~= rest);
}

} // verus!
