//! Text as sequences of characters: searching and trimming; and what the lines of a text are.

use vstd::prelude::*;

verus! {

/// `String::push` appends one character to the end of the string.
pub assume_specification[ String::push ](s: &mut String, ch: char)
    ensures
        final(s)@ == old(s)@.push(ch),
;

/// The characters held by each string of a list.
pub open spec fn texts(list: Seq<String>) -> Seq<Seq<char>> {
    list.map_values(|s: String| s@)
}

/// The characters held by an optional string.
pub open spec fn opt_text(s: Option<String>) -> Option<Seq<char>> {
    match s {
        Some(s) => Some(s@),
        None => None,
    }
}

/// `pattern` stands in `text` at position `i`.
pub open spec fn occurs_at<T>(text: Seq<T>, pattern: Seq<T>, i: int) -> bool {
    &&& 0 <= i
    &&& i + pattern.len() <= text.len()
    &&& text.subrange(i, i + pattern.len()) == pattern
}

/// `pattern` stands somewhere in `text`.
pub open spec fn occurs<T>(text: Seq<T>, pattern: Seq<T>) -> bool {
    exists|i: int| occurs_at(text, pattern, i)
}

/// `i` is the leftmost position at which `pattern` stands in `text`.
pub open spec fn first_at<T>(text: Seq<T>, pattern: Seq<T>, i: int) -> bool {
    &&& occurs_at(text, pattern, i)
    &&& forall|j: int| j < i ==> !occurs_at(text, pattern, j)
}

/// The leftmost position of `pattern` in `text`, if there is one.
pub open spec fn find_in<T>(text: Seq<T>, pattern: Seq<T>) -> Option<int> {
    if exists|i: int| first_at(text, pattern, i) {
        Some(choose|i: int| first_at(text, pattern, i))
    } else {
        None
    }
}

/// A leftmost position is the one that `find_in` gives.
pub proof fn lemma_find_is_first<T>(text: Seq<T>, pattern: Seq<T>, i: int)
    requires
        first_at(text, pattern, i),
    ensures
        find_in(text, pattern) == Some(i),
{
    let k = choose|k: int| first_at(text, pattern, k);
    assert(first_at(text, pattern, k));
    if k < i {
        assert(!occurs_at(text, pattern, k));
    } else if i < k {
        assert(!occurs_at(text, pattern, i));
    }
}

/// Where the pattern occurs there is a leftmost occurrence.
proof fn lemma_occurrence_has_first<T>(text: Seq<T>, pattern: Seq<T>, i: int)
    requires
        occurs_at(text, pattern, i),
    ensures
        exists|k: int| first_at(text, pattern, k),
    decreases i,
{
    if exists|j: int| j < i && occurs_at(text, pattern, j) {
        let j = choose|j: int| j < i && occurs_at(text, pattern, j);
        lemma_occurrence_has_first(text, pattern, j);
    } else {
        assert(first_at(text, pattern, i));
    }
}

/// Searching succeeds exactly where the pattern occurs.
pub proof fn lemma_find_iff_occurs<T>(text: Seq<T>, pattern: Seq<T>)
    ensures
        find_in(text, pattern) is Some <==> occurs(text, pattern),
        find_in(text, pattern) matches Some(i) ==> first_at(text, pattern, i),
{
    if occurs(text, pattern) {
        let i = choose|i: int| occurs_at(text, pattern, i);
        lemma_occurrence_has_first(text, pattern, i);
    }
}

/// What stands in a text splits it.
pub proof fn lemma_occurrence_splits<T>(text: Seq<T>, pattern: Seq<T>, i: int)
    requires
        occurs_at(text, pattern, i),
    ensures
        text == text.take(i) + (pattern + text.skip(i + pattern.len())),
{
    assert forall|k: int| i <= k < i + pattern.len() implies text[k] == pattern[k - i] by {
        assert(text.subrange(i, i + pattern.len())[k - i] == text[k]);
    }
    assert(text =~= text.take(i) + (pattern + text.skip(i + pattern.len())));
}

/// What stands between two other parts of a text stands in the text.
pub proof fn lemma_occurs_between<T>(before: Seq<T>, pattern: Seq<T>, after: Seq<T>)
    ensures
        occurs(before + (pattern + after), pattern),
{
    let text = before + (pattern + after);
    let i = before.len() as int;
    assert(text.subrange(i, i + pattern.len()) =~= pattern);
    assert(occurs_at(text, pattern, i));
}

/// What stands in a part of something stands in the whole.
pub proof fn lemma_occurs_in_whole<T>(whole: Seq<T>, part: Seq<T>, pattern: Seq<T>)
    requires
        occurs(whole, part),
        occurs(part, pattern),
    ensures
        occurs(whole, pattern),
{
    let i = choose|i: int| occurs_at(whole, part, i);
    let j = choose|j: int| occurs_at(part, pattern, j);
    assert(whole.subrange(i + j, i + j + pattern.len()) =~= whole.subrange(
        i,
        i + part.len(),
    ).subrange(j, j + pattern.len()));
    assert(occurs_at(whole, pattern, i + j));
}

/// The characters of a string, in order.
pub fn to_chars(s: &str) -> (chars: Vec<char>)
    ensures
        chars@ == s@,
{
    let mut chars: Vec<char> = Vec::new();
    for c in it: s.chars()
        invariant
            chars@ == s@.take(it.index() as int),
            it.seq() == s@,
    {
        chars.push(c);
    }
    chars
}

/// The string that holds `chars[from..to]`.
pub fn from_chars(chars: &Vec<char>, from: usize, to: usize) -> (s: String)
    requires
        from <= to <= chars.len(),
    ensures
        s@ == chars@.subrange(from as int, to as int),
{
    let mut s = String::new();
    let mut i: usize = from;
    while i < to
        invariant
            from <= i <= to <= chars.len(),
            s@ == chars@.subrange(from as int, i as int),
        decreases to - i,
    {
        s.push(chars[i]);
        i += 1;
    }
    s
}

/// Searching behind position `from` is searching in what follows it.
proof fn lemma_occurs_at_skip(text: Seq<char>, pattern: Seq<char>, from: int, i: int)
    requires
        0 <= from <= text.len(),
        0 <= i,
    ensures
        occurs_at(text.skip(from), pattern, i) == occurs_at(text, pattern, from + i),
{
    if i + pattern.len() <= text.len() - from {
        assert(text.skip(from).subrange(i, i + pattern.len()) =~= text.subrange(
            from + i,
            from + i + pattern.len(),
        ));
    }
}

/// Whether `pattern` stands in `text` at position `i`.
pub fn stands_at(text: &Vec<char>, pattern: &Vec<char>, i: usize) -> (found: bool)
    ensures
        found == occurs_at(text@, pattern@, i as int),
{
    if i > text.len() || pattern.len() > text.len() - i {
        return false;
    }
    let mut k: usize = 0;
    while k < pattern.len()
        invariant
            0 <= k <= pattern.len(),
            i + pattern.len() <= text.len(),
            forall|j: int| 0 <= j < k ==> text@[i + j] == pattern@[j],
        decreases pattern.len() - k,
    {
        if text[i + k] != pattern[k] {
            assert(text@.subrange(i as int, i + pattern.len())[k as int] != pattern@[k as int]);
            return false;
        }
        k += 1;
    }
    assert(text@.subrange(i as int, i + pattern.len()) =~= pattern@);
    true
}

/// The leftmost position of `pattern` in `text` that is not left of `from`.
pub fn find_from(text: &Vec<char>, pattern: &Vec<char>, from: usize) -> (found: Option<usize>)
    requires
        from <= text.len(),
    ensures
        match found {
            Some(k) => from <= k && k + pattern.len() <= text.len() && find_in(
                text@.skip(from as int),
                pattern@,
            ) == Some(k - from),
            None => find_in(text@.skip(from as int), pattern@) is None,
        },
{
    let ghost rest = text@.skip(from as int);
    let mut k: usize = from;
    loop
        invariant
            from <= k <= text.len(),
            rest == text@.skip(from as int),
            forall|j: int| j < k - from ==> !occurs_at(rest, pattern@, j),
        ensures
            forall|j: int| !occurs_at(rest, pattern@, j),
        decreases text.len() - k,
    {
        proof {
            lemma_occurs_at_skip(text@, pattern@, from as int, k - from);
        }
        if stands_at(text, pattern, k) {
            proof {
                lemma_find_is_first(rest, pattern@, k - from);
            }
            return Some(k);
        }
        if k == text.len() {
            break;
        }
        k += 1;
    }
    proof {
        lemma_find_iff_occurs(rest, pattern@);
    }
    None
}

/// Whether two strings hold the same characters.
pub fn same_text(a: &str, b: &str) -> (same: bool)
    ensures
        same == (a@ == b@),
{
    let left = to_chars(a);
    let right = to_chars(b);
    if left.len() != right.len() {
        return false;
    }
    assert(left@.subrange(0, left.len() as int) =~= left@);
    stands_at(&left, &right, 0)
}

/// The characters with the Unicode property `White_Space`.
pub open spec fn white_space(c: char) -> bool {
    let v = c as u32;
    ||| 0x9 <= v <= 0xd
    ||| v == 0x20
    ||| v == 0x85
    ||| v == 0xa0
    ||| v == 0x1680
    ||| 0x2000 <= v <= 0x200a
    ||| v == 0x2028
    ||| v == 0x2029
    ||| v == 0x202f
    ||| v == 0x205f
    ||| v == 0x3000
}

/// Whether `c` has the Unicode property `White_Space`.
pub fn is_white_space(c: char) -> (yes: bool)
    ensures
        yes == white_space(c),
{
    let v: u32 = c as u32;
    (0x9 <= v && v <= 0xd) || v == 0x20 || v == 0x85 || v == 0xa0 || v == 0x1680 || (0x2000 <= v
        && v <= 0x200a) || v == 0x2028 || v == 0x2029 || v == 0x202f || v == 0x205f || v == 0x3000
}

/// `s` without its leading white space.
pub open spec fn trim_start(s: Seq<char>) -> Seq<char>
    decreases s.len(),
{
    if s.len() > 0 && white_space(s[0]) {
        trim_start(s.skip(1))
    } else {
        s
    }
}

/// `s` without its trailing white space.
pub open spec fn trim_end(s: Seq<char>) -> Seq<char>
    decreases s.len(),
{
    if s.len() > 0 && white_space(s.last()) {
        trim_end(s.drop_last())
    } else {
        s
    }
}

/// `s` without its leading and trailing white space.
pub open spec fn trimmed(s: Seq<char>) -> Seq<char> {
    trim_end(trim_start(s))
}

/// What is left of `s` without its leading white space is an end of it, and does not begin with
/// white space.
proof fn lemma_trim_start(s: Seq<char>)
    ensures
        trim_start(s).len() <= s.len(),
        trim_start(s) == s.skip(s.len() - trim_start(s).len()),
        trim_start(s).len() > 0 ==> !white_space(trim_start(s)[0]),
    decreases s.len(),
{
    if s.len() > 0 && white_space(s[0]) {
        lemma_trim_start(s.skip(1));
    }
}

/// What is left of `s` without its trailing white space is a start of it, and does not end with
/// white space.
proof fn lemma_trim_end(s: Seq<char>)
    ensures
        trim_end(s).len() <= s.len(),
        trim_end(s) == s.take(trim_end(s).len() as int),
        trim_end(s).len() > 0 ==> !white_space(trim_end(s).last()),
    decreases s.len(),
{
    if s.len() > 0 && white_space(s.last()) {
        lemma_trim_end(s.drop_last());
    }
}

/// A trimmed text is a part of the text, with no white space at either end.
pub proof fn lemma_trimmed(s: Seq<char>)
    ensures
        forall|c: char| trimmed(s).contains(c) ==> s.contains(c),
        occurs(s, trimmed(s)),
        trimmed(s).len() > 0 ==> !white_space(trimmed(s)[0]) && !white_space(trimmed(s).last()),
{
    lemma_trim_start(s);
    lemma_trim_end(trim_start(s));
    let offset = s.len() - trim_start(s).len();
    assert forall|i: int| 0 <= i < trimmed(s).len() implies trimmed(s)[i] == s[i + offset] by {
        assert(trimmed(s)[i] == trim_start(s)[i]);
    }
    assert(s.subrange(offset, offset + trimmed(s).len()) =~= trimmed(s));
    assert(occurs_at(s, trimmed(s), offset));
}

/// The part of `chars[from..to]` that is left without leading and trailing white space.
pub fn trim_range(chars: &Vec<char>, from: usize, to: usize) -> (range: (usize, usize))
    requires
        from <= to <= chars.len(),
    ensures
        from <= range.0 <= range.1 <= to,
        chars@.subrange(range.0 as int, range.1 as int) == trimmed(
            chars@.subrange(from as int, to as int),
        ),
{
    let ghost whole = chars@.subrange(from as int, to as int);
    let mut a: usize = from;
    while a < to && is_white_space(chars[a])
        invariant
            from <= a <= to <= chars.len(),
            trim_start(chars@.subrange(a as int, to as int)) == trim_start(whole),
        ensures
            from <= a <= to <= chars.len(),
            chars@.subrange(a as int, to as int) == trim_start(whole),
        decreases to - a,
    {
        assert(chars@.subrange(a as int, to as int).skip(1) =~= chars@.subrange(
            a + 1,
            to as int,
        ));
        a += 1;
    }
    let mut b: usize = to;
    while b > a && is_white_space(chars[b - 1])
        invariant
            from <= a <= b <= to <= chars.len(),
            trim_end(chars@.subrange(a as int, b as int)) == trimmed(whole),
        ensures
            from <= a <= b <= to <= chars.len(),
            chars@.subrange(a as int, b as int) == trimmed(whole),
        decreases b - a,
    {
        assert(chars@.subrange(a as int, b as int).drop_last() =~= chars@.subrange(
            a as int,
            b - 1,
        ));
        b -= 1;
    }
    (a, b)
}

/// `s` without its leading and trailing white space.
pub fn trim(s: &str) -> (t: String)
    ensures
        t@ == trimmed(s@),
{
    let chars = to_chars(s);
    let (a, b) = trim_range(&chars, 0, chars.len());
    assert(chars@.subrange(0, chars.len() as int) =~= s@);
    from_chars(&chars, a, b)
}

/// A line without the carriage return `ret` that may stand at its end.
pub open spec fn without_return<T>(line: Seq<T>, ret: T) -> Seq<T> {
    if line.len() > 0 && line.last() == ret {
        line.drop_last()
    } else {
        line
    }
}

/// The lines of a text: each ends at a line feed `feed`, which may follow a carriage return `ret`,
/// and neither belongs to the line. What follows the last line feed is a line if it is not empty.
pub open spec fn lines_of<T>(text: Seq<T>, feed: T, ret: T) -> Seq<Seq<T>>
    decreases text.len(),
{
    if text.len() == 0 {
        seq![]
    } else {
        match find_in(text, seq![feed]) {
            Some(i) => seq![without_return(text.take(i), ret)] + lines_of(
                text.skip(i + 1),
                feed,
                ret,
            ),
            None => seq![text],
        }
    }
}

/// `s` without the characters `c` at its start.
pub open spec fn without_leading(s: Seq<char>, c: char) -> Seq<char>
    decreases s.len(),
{
    if s.len() > 0 && s[0] == c {
        without_leading(s.skip(1), c)
    } else {
        s
    }
}

/// `s` without the characters `c` at its start.
pub fn trim_leading(s: &str, c: char) -> (t: String)
    ensures
        t@ == without_leading(s@, c),
{
    let chars = to_chars(s);
    let mut a: usize = 0;
    assert(chars@.skip(0) =~= s@);
    while a < chars.len() && chars[a] == c
        invariant
            chars@ == s@,
            a <= chars.len(),
            without_leading(chars@.skip(a as int), c) == without_leading(s@, c),
        ensures
            a <= chars.len(),
            chars@.skip(a as int) == without_leading(s@, c),
        decreases chars.len() - a,
    {
        assert(chars@.skip(a as int).skip(1) =~= chars@.skip(a + 1));
        a += 1;
    }
    assert(chars@.subrange(a as int, chars.len() as int) =~= chars@.skip(a as int));
    from_chars(&chars, a, chars.len())
}

/// `suffix` stands at the end of `s`.
pub open spec fn ends_with(s: Seq<char>, suffix: Seq<char>) -> bool {
    occurs_at(s, suffix, s.len() - suffix.len())
}

/// Whether `suffix` stands at the end of `s`.
pub fn has_suffix(s: &str, suffix: &str) -> (yes: bool)
    ensures
        yes == ends_with(s@, suffix@),
{
    let chars = to_chars(s);
    let tail = to_chars(suffix);
    if tail.len() > chars.len() {
        false
    } else {
        stands_at(&chars, &tail, chars.len() - tail.len())
    }
}

/// `s` with `suffix` taken off its end for as long as it stands there.
pub open spec fn without_suffixes(s: Seq<char>, suffix: Seq<char>) -> Seq<char>
    decreases s.len(),
{
    if suffix.len() > 0 && ends_with(s, suffix) {
        without_suffixes(s.take(s.len() - suffix.len()), suffix)
    } else {
        s
    }
}

/// `s` with `suffix` taken off its end for as long as it stands there.
pub fn trim_suffixes(s: &str, suffix: &str) -> (t: String)
    ensures
        t@ == without_suffixes(s@, suffix@),
{
    let chars = to_chars(s);
    let tail = to_chars(suffix);
    let mut b: usize = chars.len();
    assert(chars@.take(b as int) =~= s@);
    loop
        invariant
            chars@ == s@,
            tail@ == suffix@,
            b <= chars.len(),
            without_suffixes(chars@.take(b as int), suffix@) == without_suffixes(s@, suffix@),
        ensures
            b <= chars.len(),
            chars@.take(b as int) == without_suffixes(s@, suffix@),
        decreases b,
    {
        proof {
            if tail.len() <= b {
                lemma_suffix_of_prefix(chars@, tail@, b as int);
            }
        }
        if tail.len() == 0 || tail.len() > b || !stands_at(&chars, &tail, b - tail.len()) {
            break;
        }
        assert(chars@.take(b as int).take(b - tail.len()) =~= chars@.take(b - tail.len()));
        b -= tail.len();
    }
    assert(chars@.subrange(0, b as int) =~= chars@.take(b as int));
    from_chars(&chars, 0, b)
}

/// The end of a prefix holds what the text holds there.
proof fn lemma_suffix_of_prefix(text: Seq<char>, suffix: Seq<char>, end: int)
    requires
        suffix.len() <= end <= text.len(),
    ensures
        ends_with(text.take(end), suffix) == occurs_at(text, suffix, end - suffix.len()),
{
    assert(text.take(end).subrange(end - suffix.len(), end) =~= text.subrange(
        end - suffix.len(),
        end,
    ));
}

/// A list of strings holds what each of its strings holds.
pub proof fn lemma_texts(list: Seq<String>)
    ensures
        texts(list).len() == list.len(),
        forall|k: int| 0 <= k < list.len() ==> #[trigger] texts(list)[k] == list[k]@,
{
}

/// An optional string holds what the string holds, where there is one.
pub proof fn lemma_opt_text(s: String)
    ensures
        opt_text(Some(s)) == Some(s@),
        opt_text(None) is None,
{
}

/// A pattern stands exactly where the rest of the text begins with it.
pub proof fn lemma_occurs_at<T>(text: Seq<T>, pattern: Seq<T>, i: int)
    ensures
        occurs_at(text, pattern, i) <==> 0 <= i <= text.len() && pattern.is_prefix_of(text.skip(i)),
{
    if 0 <= i <= text.len() {
        if i + pattern.len() <= text.len() {
            assert(text.skip(i).subrange(0, pattern.len() as int) =~= text.subrange(
                i,
                i + pattern.len(),
            ));
        }
        if pattern.is_prefix_of(text.skip(i)) {
            assert(text.subrange(i, i + pattern.len()) =~= pattern);
        }
    }
}

/// A text holds a pattern exactly where it can be split around it.
pub proof fn lemma_occurs<T>(text: Seq<T>, pattern: Seq<T>)
    ensures
        occurs(text, pattern) <==> exists|before: Seq<T>, after: Seq<T>|
            text == #[trigger] (before + pattern + after),
{
    if occurs(text, pattern) {
        let i = choose|i: int| occurs_at(text, pattern, i);
        lemma_occurrence_splits(text, pattern, i);
        let before = text.take(i);
        let after = text.skip(i + pattern.len());
        assert(text =~= before + pattern + after);
    }
    if exists|before: Seq<T>, after: Seq<T>| text == #[trigger] (before + pattern + after) {
        let (before, after) = choose|before: Seq<T>, after: Seq<T>|
            text == #[trigger] (before + pattern + after);
        lemma_occurs_between(before, pattern, after);
        assert(text =~= before + (pattern + after));
    }
}

/// The leftmost position of a pattern is one where it stands and in front of which it stands
/// nowhere.
pub proof fn lemma_first_at<T>(text: Seq<T>, pattern: Seq<T>, i: int)
    ensures
        first_at(text, pattern, i) <==> {
            &&& 0 <= i <= text.len()
            &&& pattern.is_prefix_of(text.skip(i))
            &&& forall|j: int| 0 <= j < i ==> !pattern.is_prefix_of(#[trigger] text.skip(j))
        },
{
    lemma_occurs_at(text, pattern, i);
    assert forall|j: int| #[trigger] occurs_at(text, pattern, j) <==> 0 <= j <= text.len()
        && pattern.is_prefix_of(text.skip(j)) by {
        lemma_occurs_at(text, pattern, j);
    }
    if 0 <= i <= text.len() && (forall|j: int|
        0 <= j < i ==> !pattern.is_prefix_of(#[trigger] text.skip(j))) {
        assert forall|j: int| j < i implies !occurs_at(text, pattern, j) by {
            if 0 <= j {
                assert(!pattern.is_prefix_of(text.skip(j)));
            }
        }
    }
    if first_at(text, pattern, i) {
        assert forall|j: int| 0 <= j < i implies !pattern.is_prefix_of(#[trigger] text.skip(j)) by {
            assert(!occurs_at(text, pattern, j));
        }
    }
}

/// A search gives the leftmost position of the pattern, and none only where the pattern stands
/// nowhere.
pub proof fn lemma_find<T>(text: Seq<T>, pattern: Seq<T>)
    ensures
        match find_in(text, pattern) {
            Some(i) => {
                &&& 0 <= i <= text.len()
                &&& pattern.is_prefix_of(text.skip(i))
                &&& forall|j: int| 0 <= j < i ==> !pattern.is_prefix_of(#[trigger] text.skip(j))
            },
            None => forall|j: int|
                0 <= j <= text.len() ==> !pattern.is_prefix_of(#[trigger] text.skip(j)),
        },
{
    lemma_find_iff_occurs(text, pattern);
    match find_in(text, pattern) {
        Some(i) => {
            lemma_first_at(text, pattern, i);
        },
        None => {
            assert forall|j: int| 0 <= j <= text.len() implies !pattern.is_prefix_of(
                #[trigger] text.skip(j),
            ) by {
                lemma_occurs_at(text, pattern, j);
                assert(!occurs_at(text, pattern, j));
            }
        },
    }
}

/// Trimming takes off white space and nothing else, and leaves none at the ends.
pub proof fn lemma_trim_splits(s: Seq<char>)
    ensures
        exists|a: int, b: int|
            0 <= a <= b <= s.len() && trimmed(s) == #[trigger] s.subrange(a, b) && (forall|k: int|
                0 <= k < a || b <= k < s.len() ==> white_space(#[trigger] s[k])) && (a < b
                ==> !white_space(s[a]) && !white_space(s[b - 1])),
{
    lemma_trimmed_off(s);
    lemma_trim_start(s);
    lemma_trim_end(trim_start(s));
    let rest = trim_start(s);
    lemma_trimmed_off(rest);
    let a = s.len() - rest.len();
    let b = a + trim_end(rest).len();
    assert(trimmed(s) =~= s.subrange(a, b));
    assert forall|k: int| 0 <= k < a || b <= k < s.len() implies white_space(#[trigger] s[k]) by {
        if b <= k {
            assert(rest[k - a] == s[k]);
        }
    }
    if a < b {
        assert(trimmed(s)[0] == s[a]);
        assert(rest[0] == s[a]);
        assert(trimmed(s).last() == s[b - 1]);
    }
}

/// Only white space is taken off at either end.
proof fn lemma_trimmed_off(s: Seq<char>)
    ensures
        trim_start(s).len() <= s.len(),
        trim_end(s).len() <= s.len(),
        forall|k: int| 0 <= k < s.len() - trim_start(s).len() ==> white_space(#[trigger] s[k]),
        forall|k: int| trim_end(s).len() <= k < s.len() ==> white_space(#[trigger] s[k]),
    decreases s.len(),
{
    if s.len() > 0 {
        let tail = s.skip(1);
        let front = s.drop_last();
        lemma_trimmed_off(tail);
        lemma_trimmed_off(front);
        assert forall|k: int| 0 <= k < s.len() - trim_start(s).len() implies white_space(
            #[trigger] s[k],
        ) by {
            if k > 0 {
                assert(tail[k - 1] == s[k]);
            }
        }
        assert forall|k: int| trim_end(s).len() <= k < s.len() implies white_space(
            #[trigger] s[k],
        ) by {
            if k < s.len() - 1 {
                assert(front[k] == s[k]);
            }
        }
    }
}

/// What stands in front of the first line feed is the first line, without a carriage return
/// directly in front of the feed; what follows the feed has its own lines. Without a feed there is
/// one line, or none where there is nothing.
pub proof fn lemma_lines<T>(line: Seq<T>, rest: Seq<T>, feed: T, ret: T)
    requires
        !line.contains(feed),
        feed != ret,
    ensures
        lines_of(Seq::<T>::empty(), feed, ret) == Seq::<Seq<T>>::empty(),
        line.len() > 0 ==> lines_of(line, feed, ret) == seq![line],
        line.len() == 0 || line.last() != ret ==> lines_of(line + seq![feed] + rest, feed, ret)
            == seq![line] + lines_of(rest, feed, ret),
        lines_of(line + seq![ret, feed] + rest, feed, ret) == seq![line] + lines_of(
            rest,
            feed,
            ret,
        ),
{
    lemma_find_iff_occurs(line, seq![feed]);
    assert forall|j: int| !occurs_at(line, seq![feed], j) by {
        if occurs_at(line, seq![feed], j) {
            assert(line.subrange(j, j + 1)[0] == line[j]);
        }
    }
    lemma_feed_behind(line, rest, feed);
    let longer = line.push(ret);
    assert forall|k: int| 0 <= k < longer.len() implies longer[k] != feed by {
        if k < line.len() {
            assert(line.contains(line[k]));
        }
    }
    lemma_feed_behind(longer, rest, feed);
    assert(line + seq![ret, feed] + rest =~= longer + seq![feed] + rest);
    assert(longer.drop_last() =~= line);
}

/// The first line feed stands behind what holds none.
proof fn lemma_feed_behind<T>(line: Seq<T>, rest: Seq<T>, feed: T)
    requires
        !line.contains(feed),
    ensures
        find_in(line + seq![feed] + rest, seq![feed]) == Some(line.len() as int),
        (line + seq![feed] + rest).take(line.len() as int) == line,
        (line + seq![feed] + rest).skip(line.len() as int + 1) == rest,
{
    let all = line + seq![feed] + rest;
    let n = line.len() as int;
    assert(all.subrange(n, n + 1) =~= seq![feed]);
    assert forall|j: int| j < n implies !occurs_at(all, seq![feed], j) by {
        if occurs_at(all, seq![feed], j) {
            assert(all.subrange(j, j + 1)[0] == line[j]);
        }
    }
    assert(first_at(all, seq![feed], n));
    lemma_find_is_first(all, seq![feed], n);
    assert(all.take(n) =~= line);
    assert(all.skip(n + 1) =~= rest);
}

/// A leading character is taken off as often as it stands there, and nothing else is.
pub proof fn lemma_without_leading(s: Seq<char>, c: char)
    ensures
        without_leading(seq![c] + s, c) == without_leading(s, c),
        s.len() == 0 || s[0] != c ==> without_leading(s, c) == s,
{
    assert((seq![c] + s).skip(1) =~= s);
}

/// A text ends with exactly what stands at its end.
pub proof fn lemma_ends_with(s: Seq<char>, suffix: Seq<char>)
    ensures
        ends_with(s, suffix) <==> suffix.is_suffix_of(s),
{
    if suffix.len() <= s.len() {
        let tail = s.subrange(s.len() - suffix.len(), s.len() as int);
        assert(ends_with(s, suffix) <==> tail == suffix);
    }
}

/// A suffix is taken off as often as it stands there, and nothing else is.
pub proof fn lemma_without_suffixes(s: Seq<char>, suffix: Seq<char>)
    ensures
        without_suffixes(s + suffix, suffix) == without_suffixes(s, suffix),
        suffix.len() == 0 || !suffix.is_suffix_of(s) ==> without_suffixes(s, suffix) == s,
{
    lemma_ends_with(s, suffix);
    if suffix.len() == 0 {
        assert(s + suffix =~= s);
    } else {
        let longer = s + suffix;
        assert(longer.subrange(longer.len() - suffix.len(), longer.len() as int) =~= suffix);
        assert(longer.take(longer.len() - suffix.len()) =~= s);
    }
}

/// What does not begin in front of a text stands in the whole where it stands in the text.
proof fn lemma_occurs_behind(front: Seq<char>, text: Seq<char>, pattern: Seq<char>, j: int)
    requires
        pattern.len() > 0,
        !front.contains(pattern[0]),
    ensures
        occurs_at(front + text, pattern, j) <==> occurs_at(text, pattern, j - front.len()),
{
    let all = front + text;
    let n = front.len() as int;
    if occurs_at(all, pattern, j) {
        assert(all.subrange(j, j + pattern.len())[0] == all[j]);
        if j < n {
            assert(front.contains(front[j]));
        }
        assert(text.subrange(j - n, j - n + pattern.len()) =~= all.subrange(j, j + pattern.len()));
    }
    if occurs_at(text, pattern, j - n) {
        assert(all.subrange(j, j + pattern.len()) =~= text.subrange(j - n, j - n + pattern.len()));
    }
}

/// A search passes over what stands in front of a text and cannot begin the pattern.
pub proof fn lemma_find_passes_over(front: Seq<char>, text: Seq<char>, pattern: Seq<char>)
    requires
        pattern.len() > 0,
        !front.contains(pattern[0]),
    ensures
        find_in(front + text, pattern) == (match find_in(text, pattern) {
            Some(i) => Some(front.len() + i),
            None => None,
        }),
{
    let all = front + text;
    lemma_find_iff_occurs(all, pattern);
    lemma_find_iff_occurs(text, pattern);
    match find_in(text, pattern) {
        Some(i) => {
            let k = front.len() + i;
            lemma_occurs_behind(front, text, pattern, k);
            assert forall|j: int| j < k implies !occurs_at(all, pattern, j) by {
                lemma_occurs_behind(front, text, pattern, j);
                assert(!occurs_at(text, pattern, j - front.len()));
            }
            lemma_find_is_first(all, pattern, k);
        },
        None => {
            if occurs(all, pattern) {
                let j = choose|j: int| occurs_at(all, pattern, j);
                lemma_occurs_behind(front, text, pattern, j);
            }
        },
    }
}

/// What does not end behind a text stands in the whole where it stands in the text.
proof fn lemma_occurs_in_front(text: Seq<char>, back: Seq<char>, pattern: Seq<char>, j: int)
    requires
        pattern.len() > 0,
        !back.contains(pattern.last()),
    ensures
        occurs_at(text + back, pattern, j) <==> occurs_at(text, pattern, j),
{
    let all = text + back;
    let n = pattern.len() as int;
    if occurs_at(all, pattern, j) {
        assert(all.subrange(j, j + n)[n - 1] == all[j + n - 1]);
        if j + n > text.len() {
            assert(back.contains(back[j + n - 1 - text.len()]));
        }
        assert(text.subrange(j, j + n) =~= all.subrange(j, j + n));
    }
    if occurs_at(text, pattern, j) {
        assert(all.subrange(j, j + n) =~= text.subrange(j, j + n));
    }
}

/// A search does not mind what stands behind a text and cannot end the pattern.
pub proof fn lemma_find_ends_before(text: Seq<char>, back: Seq<char>, pattern: Seq<char>)
    requires
        pattern.len() > 0,
        !back.contains(pattern.last()),
    ensures
        find_in(text + back, pattern) == find_in(text, pattern),
{
    let all = text + back;
    lemma_find_iff_occurs(all, pattern);
    lemma_find_iff_occurs(text, pattern);
    match find_in(text, pattern) {
        Some(i) => {
            lemma_occurs_in_front(text, back, pattern, i);
            assert forall|j: int| j < i implies !occurs_at(all, pattern, j) by {
                lemma_occurs_in_front(text, back, pattern, j);
                assert(!occurs_at(text, pattern, j));
            }
            lemma_find_is_first(all, pattern, i);
        },
        None => {
            if occurs(all, pattern) {
                let j = choose|j: int| occurs_at(all, pattern, j);
                lemma_occurs_in_front(text, back, pattern, j);
            }
        },
    }
}

} // verus!
