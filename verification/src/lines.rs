//! The lines of a file, as far as they are text.

use crate::bytes::{
    lemma_encode_concat, lemma_same_char, lemma_scalar_bytes, lemma_search_in_utf8, part,
    read_utf8,
};
use crate::text::{
    find_in, first_at, lemma_find_iff_occurs, lemma_find_is_first, lemma_lines, lines_of, occurs,
    occurs_at, texts, without_return,
};
use vstd::prelude::*;
use vstd::utf8::{
    char_u32_cast, decode_first_scalar, decode_utf8, decode_utf8_first_scalar, encode_scalar,
    encode_utf8, encode_utf8_decode_utf8, encode_utf8_first_scalar, encode_utf8_valid_utf8,
    is_ascii_chars, is_ascii_chars_encode_utf8, length_of_first_scalar, pop_first_scalar,
    take_first_scalar, valid_first_scalar, valid_utf8,
};

verus! {

/// The texts that stand in a row of bytes behind the text `begun`: wherever no character begins, a
/// text ends, one byte is passed over, and another text begins.
pub open spec fn text_parts(bytes: Seq<u8>, begun: Seq<char>) -> Seq<Seq<char>>
    decreases bytes.len(),
{
    if bytes.len() == 0 {
        seq![begun]
    } else if valid_first_scalar(bytes) {
        text_parts(pop_first_scalar(bytes), begun.push(decode_first_scalar(bytes) as char))
    } else {
        seq![begun] + text_parts(bytes.skip(1), seq![])
    }
}

/// The texts that stand in some lines, in their order.
pub open spec fn parts_of(lines: Seq<Seq<u8>>) -> Seq<Seq<char>>
    decreases lines.len(),
{
    if lines.len() == 0 {
        seq![]
    } else {
        text_parts(lines[0], seq![]) + parts_of(lines.skip(1))
    }
}

/// The lines of a file, as far as they are text: a line is cut wherever it is not UTF-8, so that
/// nothing is read across a byte that means nothing.
pub open spec fn text_lines(bytes: Seq<u8>) -> Seq<Seq<char>> {
    parts_of(lines_of(bytes, 10u8, 13u8))
}

/// How many bytes a character takes that begins with `first`; 0 where none does.
pub open spec fn char_width(first: u8) -> int {
    if first < 0x80 {
        1
    } else if 0xc0 <= first < 0xe0 {
        2
    } else if 0xe0 <= first < 0xf0 {
        3
    } else if 0xf0 <= first < 0xf8 {
        4
    } else {
        0
    }
}

/// A character begins where as many bytes as its first one asks for are UTF-8.
proof fn lemma_first_char(bytes: Seq<u8>)
    requires
        bytes.len() > 0,
    ensures
        ({
            let w = char_width(bytes[0]);
            &&& valid_first_scalar(bytes) <==> 0 < w <= bytes.len() && valid_utf8(bytes.take(w))
            &&& valid_first_scalar(bytes) ==> {
                &&& pop_first_scalar(bytes) == bytes.skip(w)
                &&& decode_utf8(bytes.take(w)) == seq![decode_first_scalar(bytes) as char]
            }
        }),
{
    let w = char_width(bytes[0]);
    if 0 < w <= bytes.len() {
        let head = bytes.take(w);
        assert(head[0] == bytes[0]);
        assert(valid_first_scalar(head) == valid_first_scalar(bytes));
        assert(decode_first_scalar(head) == decode_first_scalar(bytes));
        assert(pop_first_scalar(head) =~= seq![]);
        assert(valid_utf8(Seq::<u8>::empty()));
        assert(decode_utf8(Seq::<u8>::empty()) =~= seq![]);
        assert(pop_first_scalar(bytes) =~= bytes.skip(w));
        if valid_first_scalar(bytes) {
            assert(decode_utf8(head) =~= seq![decode_first_scalar(bytes) as char]);
        }
    }
}

/// Where everything is UTF-8, it is one text.
pub proof fn lemma_parts_of_utf8(bytes: Seq<u8>, begun: Seq<char>)
    requires
        valid_utf8(bytes),
    ensures
        text_parts(bytes, begun) == seq![begun + decode_utf8(bytes)],
    decreases bytes.len(),
{
    if bytes.len() == 0 {
        assert(begun + decode_utf8(bytes) =~= begun);
    } else {
        let c = decode_first_scalar(bytes) as char;
        let rest = pop_first_scalar(bytes);
        lemma_parts_of_utf8(rest, begun.push(c));
        assert(begun.push(c) + decode_utf8(rest) =~= begun + (seq![c] + decode_utf8(rest)));
    }
}

/// How many bytes a character takes that begins with `first`; 0 where none does.
fn width(first: u8) -> (w: usize)
    ensures
        w == char_width(first),
{
    if first < 0x80 {
        1
    } else if 0xc0 <= first && first < 0xe0 {
        2
    } else if 0xe0 <= first && first < 0xf0 {
        3
    } else if 0xf0 <= first && first < 0xf8 {
        4
    } else {
        0
    }
}

/// The character that begins at `i`, as a string, and where it ends.
fn char_at(bytes: &Vec<u8>, i: usize) -> (found: Option<(String, usize)>)
    requires
        i < bytes.len(),
    ensures
        match found {
            Some((c, end)) => {
                let rest = bytes@.skip(i as int);
                &&& i < end <= bytes.len()
                &&& valid_first_scalar(rest)
                &&& c@ == seq![decode_first_scalar(rest) as char]
                &&& pop_first_scalar(rest) == bytes@.skip(end as int)
            },
            None => !valid_first_scalar(bytes@.skip(i as int)),
        },
{
    let w = width(bytes[i]);
    let ghost rest = bytes@.skip(i as int);
    proof {
        lemma_first_char(rest);
    }
    if w == 0 || w > bytes.len() - i {
        return None;
    }
    assert(rest.take(w as int) =~= bytes@.subrange(i as int, i + w));
    assert(rest.skip(w as int) =~= bytes@.skip(i + w));
    match read_utf8(part(bytes, i, i + w)) {
        Some(c) => Some((c, i + w)),
        None => None,
    }
}

/// The texts that stand in a line.
pub fn parts(line: &Vec<u8>) -> (list: Vec<String>)
    ensures
        texts(list@) == text_parts(line@, seq![]),
{
    let mut list: Vec<String> = Vec::new();
    let mut begun = String::new();
    let mut i: usize = 0;
    proof {
        assert(line@.skip(0) =~= line@);
        assert(begun@ =~= seq![]);
        assert(texts(list@) =~= seq![]);
    }
    while i < line.len()
        invariant
            i <= line.len(),
            texts(list@) + text_parts(line@.skip(i as int), begun@) =~= text_parts(line@, seq![]),
        decreases line.len() - i,
    {
        let ghost before = list@;
        let ghost rest = line@.skip(i as int);
        let ghost so_far = begun@;
        match char_at(line, i) {
            Some((c, end)) => {
                begun.append(c.as_str());
                assert(begun@ =~= so_far.push(decode_first_scalar(rest) as char));
                i = end;
            },
            None => {
                list.push(begun);
                assert(texts(list@) =~= texts(before).push(so_far));
                begun = String::new();
                assert(begun@ =~= seq![]);
                assert(rest.skip(1) =~= line@.skip(i + 1));
                i += 1;
            },
        }
    }
    let ghost before = list@;
    let ghost so_far = begun@;
    list.push(begun);
    proof {
        assert(line@.skip(i as int).len() == 0);
        assert(texts(list@) =~= texts(before).push(so_far));
    }
    list
}

/// The position of the next line feed, or the end.
fn next_feed(bytes: &Vec<u8>, from: usize) -> (k: usize)
    requires
        from <= bytes.len(),
    ensures
        from <= k <= bytes.len(),
        k < bytes.len() ==> find_in(bytes@.skip(from as int), seq![10u8]) == Some(k - from),
        k == bytes.len() ==> find_in(bytes@.skip(from as int), seq![10u8]) is None,
{
    let ghost rest = bytes@.skip(from as int);
    let ghost feed = seq![10u8];
    let mut k: usize = from;
    while k < bytes.len() && bytes[k] != 10
        invariant
            from <= k <= bytes.len(),
            rest == bytes@.skip(from as int),
            forall|j: int| 0 <= j < k - from ==> rest[j] != 10,
        decreases bytes.len() - k,
    {
        k += 1;
    }
    proof {
        assert forall|j: int| j < k - from implies !occurs_at(rest, feed, j) by {
            if occurs_at(rest, feed, j) {
                assert(rest.subrange(j, j + 1)[0] == rest[j]);
            }
        }
        if k < bytes.len() {
            assert(rest.subrange(k - from, k - from + 1) =~= feed);
            lemma_find_is_first(rest, feed, k - from);
        } else {
            lemma_find_iff_occurs(rest, feed);
        }
    }
    k
}

/// The texts of a line come before those of the lines that follow.
proof fn lemma_parts_of_first(line: Seq<u8>, others: Seq<Seq<u8>>)
    ensures
        parts_of(seq![line] + others) == text_parts(line, seq![]) + parts_of(others),
{
    assert((seq![line] + others).skip(1) =~= others);
}

/// The lines of a file, as far as they are text.
pub fn lines(bytes: &Vec<u8>) -> (list: Vec<String>)
    ensures
        texts(list@) == text_lines(bytes@),
{
    let mut list: Vec<String> = Vec::new();
    let mut start: usize = 0;
    proof {
        assert(bytes@.skip(0) =~= bytes@);
        assert(texts(list@) =~= seq![]);
    }
    while start < bytes.len()
        invariant
            start <= bytes.len(),
            texts(list@) + text_lines(bytes@.skip(start as int)) =~= text_lines(bytes@),
        decreases bytes.len() - start,
    {
        let ghost rest = bytes@.skip(start as int);
        let ghost before = list@;
        let k = next_feed(bytes, start);
        let mut end: usize = k;
        if k < bytes.len() && k > start && bytes[k - 1] == 13 {
            end = k - 1;
        }
        let next: usize = if k < bytes.len() {
            k + 1
        } else {
            k
        };
        let line = part(bytes, start, end);
        let mut more = parts(&line);
        let ghost found = more@;
        list.append(&mut more);
        proof {
            let others = lines_of(bytes@.skip(next as int), 10u8, 13u8);
            assert(rest.take(k - start) =~= bytes@.subrange(start as int, k as int));
            if k < bytes.len() {
                assert(line@ =~= without_return(rest.take(k - start), 13u8));
                assert(rest.skip(k - start + 1) =~= bytes@.skip(k + 1));
            } else {
                assert(line@ =~= rest);
                assert(others =~= seq![]);
            }
            assert(lines_of(rest, 10u8, 13u8) =~= seq![line@] + others);
            lemma_parts_of_first(line@, others);
            assert(texts(list@) =~= texts(before) + texts(found));
        }
        start = next;
    }
    assert(text_lines(bytes@.skip(start as int)) =~= seq![]);
    list
}

/// A first text begins with what was begun.
proof fn lemma_begun(bytes: Seq<u8>, begun: Seq<char>)
    ensures
        text_parts(bytes, begun).len() > 0,
        begun.len() <= text_parts(bytes, begun)[0].len(),
        text_parts(bytes, begun)[0].take(begun.len() as int) == begun,
    decreases bytes.len(),
{
    if bytes.len() == 0 {
        assert(begun.take(begun.len() as int) =~= begun);
    } else if valid_first_scalar(bytes) {
        let c = decode_first_scalar(bytes) as char;
        let rest = pop_first_scalar(bytes);
        lemma_begun(rest, begun.push(c));
        let first = text_parts(rest, begun.push(c))[0];
        assert(first.take(begun.len() as int) =~= first.take(begun.len() as int + 1).drop_last());
        assert(begun.push(c).drop_last() =~= begun);
    } else {
        assert(begun.take(begun.len() as int) =~= begun);
    }
}

/// A text is read as it stands, whatever follows it.
proof fn lemma_text_is_read(text: Seq<char>, after: Seq<u8>, begun: Seq<char>)
    ensures
        text_parts(encode_utf8(text) + after, begun) == text_parts(after, begun + text),
    decreases text.len(),
{
    let bytes = encode_utf8(text) + after;
    if text.len() == 0 {
        assert(bytes =~= after);
        assert(begun + text =~= begun);
    } else {
        let own = encode_utf8(text);
        let rest = text.drop_first();
        encode_utf8_first_scalar(text);
        char_u32_cast(text[0], decode_first_scalar(own));
        assert(bytes[0] == own[0]);
        assert(valid_first_scalar(bytes));
        assert(decode_first_scalar(bytes) == decode_first_scalar(own));
        assert(pop_first_scalar(bytes) =~= encode_utf8(rest) + after);
        lemma_text_is_read(rest, after, begun.push(text[0]));
        assert(begun.push(text[0]) + rest =~= begun + text);
    }
}

/// Whatever text stands in a line stands in one of the texts that are read from it, whatever bytes
/// stand around it.
pub proof fn lemma_every_text_is_read(
    before: Seq<u8>,
    text: Seq<char>,
    after: Seq<u8>,
    begun: Seq<char>,
)
    requires
        text.len() > 0,
    ensures
        exists|k: int|
            0 <= k < text_parts(before + encode_utf8(text) + after, begun).len() && occurs(
                #[trigger] text_parts(before + encode_utf8(text) + after, begun)[k],
                text,
            ),
    decreases before.len(),
{
    let bytes = before + encode_utf8(text) + after;
    let all = text_parts(bytes, begun);
    if before.len() == 0 {
        assert(bytes =~= encode_utf8(text) + after);
        lemma_text_is_read(text, after, begun);
        lemma_begun(after, begun + text);
        let n = begun.len() as int;
        let m = (begun + text).len() as int;
        assert(all[0].subrange(n, m) =~= all[0].take(m).subrange(n, m));
        assert((begun + text).subrange(n, m) =~= text);
        assert(occurs_at(all[0], text, n));
    } else if valid_first_scalar(bytes) {
        let c = decode_first_scalar(bytes) as char;
        let w = length_of_first_scalar(bytes);
        encode_utf8_first_scalar(text);
        assert(bytes[before.len() as int] == encode_utf8(text)[0]);
        assert(w <= before.len());
        assert(pop_first_scalar(bytes) =~= before.skip(w) + encode_utf8(text) + after);
        lemma_every_text_is_read(before.skip(w), text, after, begun.push(c));
    } else {
        let later = text_parts(bytes.skip(1), seq![]);
        assert(bytes.skip(1) =~= before.skip(1) + encode_utf8(text) + after);
        lemma_every_text_is_read(before.skip(1), text, after, seq![]);
        let k = choose|k: int| 0 <= k < later.len() && occurs(#[trigger] later[k], text);
        assert(all[k + 1] == later[k]);
    }
}

/// What is read from a line stands in it, byte for byte: `before` and the text `begun` in front of
/// the bytes are the part of the line that is read already.
proof fn lemma_read_stands(before: Seq<u8>, bytes: Seq<u8>, begun: Seq<char>, k: int)
    requires
        0 <= k < text_parts(bytes, begun).len(),
    ensures
        occurs(
            before + encode_utf8(begun) + bytes,
            encode_utf8(text_parts(bytes, begun)[k]),
        ),
    decreases bytes.len(),
{
    let line = before + encode_utf8(begun) + bytes;
    let all = text_parts(bytes, begun);
    let own = encode_utf8(begun);
    assert(line.subrange(before.len() as int, before.len() as int + own.len()) =~= own);
    assert(occurs_at(line, own, before.len() as int));
    if bytes.len() == 0 {
    } else if valid_first_scalar(bytes) {
        let c = decode_first_scalar(bytes) as char;
        let rest = pop_first_scalar(bytes);
        let w = length_of_first_scalar(bytes);
        lemma_first_char(bytes);
        assert(bytes.take(w)[0] == bytes[0]);
        decode_utf8_first_scalar(bytes.take(w));
        assert(take_first_scalar(bytes.take(w)) =~= bytes.take(w));
        lemma_encode_concat(begun, seq![c]);
        assert(begun + seq![c] =~= begun.push(c));
        lemma_encode_one(c);
        assert(encode_scalar(c as u32) == bytes.take(w));
        assert(before + encode_utf8(begun.push(c)) + rest =~= line);
        lemma_read_stands(before, rest, begun.push(c), k);
    } else if k > 0 {
        let rest = bytes.skip(1);
        let done = before + own + bytes.take(1);
        assert(encode_utf8(Seq::<char>::empty()) =~= seq![]);
        assert(done + encode_utf8(Seq::<char>::empty()) + rest =~= line);
        lemma_read_stands(done, rest, seq![], k - 1);
        assert(all[k] == text_parts(rest, seq![])[k - 1]);
    }
}

/// What is read from a line stands in it, byte for byte: nothing is read across a byte that is not
/// UTF-8, and none is replaced.
pub proof fn lemma_nothing_is_made_up(line: Seq<u8>, k: int)
    requires
        0 <= k < text_parts(line, seq![]).len(),
    ensures
        occurs(line, encode_utf8(text_parts(line, seq![])[k])),
{
    lemma_read_stands(seq![], line, seq![], k);
    assert(encode_utf8(Seq::<char>::empty()) =~= seq![]);
    assert(Seq::<u8>::empty() + encode_utf8(Seq::<char>::empty()) + line =~= line);
}

/// The encoding of one character.
proof fn lemma_encode_one(c: char)
    ensures
        encode_utf8(seq![c]) == encode_scalar(c as u32),
{
    assert(seq![c].drop_first() =~= seq![]);
    reveal_with_fuel(encode_utf8, 2);
    assert(encode_utf8(seq![c]) =~= encode_scalar(c as u32));
}

/// The encoding of a text ends with the encoding of its last character.
proof fn lemma_last_char(text: Seq<char>)
    requires
        text.len() > 0,
    ensures
        encode_utf8(text) == encode_utf8(text.drop_last()) + encode_scalar(text.last() as u32),
{
    assert(text =~= text.drop_last() + seq![text.last()]);
    lemma_encode_concat(text.drop_last(), seq![text.last()]);
    lemma_encode_one(text.last());
}

/// What is found splits a row in two, and does not stand in the first part.
proof fn lemma_find_splits<T>(all: Seq<T>, x: T, i: int)
    requires
        find_in(all, seq![x]) == Some(i),
    ensures
        0 <= i < all.len(),
        all == all.take(i) + (seq![x] + all.skip(i + 1)),
        !occurs(all.take(i), seq![x]),
{
    let head = all.take(i);
    lemma_find_iff_occurs(all, seq![x]);
    assert(all.subrange(i, i + 1)[0] == all[i]);
    assert(all =~= head + (seq![x] + all.skip(i + 1)));
    if occurs(head, seq![x]) {
        let j = choose|j: int| occurs_at(head, seq![x], j);
        assert(all.subrange(j, j + 1) =~= head.subrange(j, j + 1));
        assert(occurs_at(all, seq![x], j));
    }
}

/// The first `x` stands behind what holds no `x`.
proof fn lemma_find_behind<T>(head: Seq<T>, x: T, tail: Seq<T>)
    requires
        !occurs(head, seq![x]),
    ensures
        find_in(head + (seq![x] + tail), seq![x]) == Some(head.len() as int),
        (head + (seq![x] + tail)).take(head.len() as int) == head,
        (head + (seq![x] + tail)).skip(head.len() as int + 1) == tail,
{
    let all = head + (seq![x] + tail);
    let at = head.len() as int;
    assert(all.subrange(at, at + 1) =~= seq![x]);
    assert forall|j: int| j < at implies !occurs_at(all, seq![x], j) by {
        if occurs_at(all, seq![x], j) {
            assert(head.subrange(j, j + 1) =~= all.subrange(j, j + 1));
            assert(occurs_at(head, seq![x], j));
        }
    }
    assert(first_at(all, seq![x], at));
    lemma_find_is_first(all, seq![x], at);
    assert(all.take(at) =~= head);
    assert(all.skip(at + 1) =~= tail);
}

/// A line feed is one byte.
proof fn lemma_feed()
    ensures
        is_ascii_chars(seq!['\n']),
        encode_utf8(seq!['\n']) == seq![10u8],
{
    is_ascii_chars_encode_utf8(seq!['\n']);
    assert(encode_utf8(seq!['\n']) =~= seq![10u8]);
}

/// The bytes of two texts with a line feed between them.
proof fn lemma_encode_around_feed(line: Seq<char>, rest: Seq<char>)
    ensures
        encode_utf8(line + (seq!['\n'] + rest)) == encode_utf8(line) + (seq![10u8] + encode_utf8(
            rest,
        )),
{
    lemma_feed();
    lemma_encode_concat(seq!['\n'], rest);
    lemma_encode_concat(line, seq!['\n'] + rest);
}

/// In a UTF-8 file the first line ends where the first line of the text ends.
proof fn lemma_first_line(text: Seq<char>, i: int)
    requires
        find_in(text, seq!['\n']) == Some(i),
    ensures
        0 <= i < text.len(),
        encode_utf8(text).len() > 0,
        find_in(encode_utf8(text), seq![10u8]) == Some(encode_utf8(text.take(i)).len() as int),
        encode_utf8(text).take(encode_utf8(text.take(i)).len() as int) == encode_utf8(text.take(i)),
        encode_utf8(text).skip(encode_utf8(text.take(i)).len() as int + 1) == encode_utf8(
            text.skip(i + 1),
        ),
{
    let line = text.take(i);
    let rest = text.skip(i + 1);
    lemma_find_splits(text, '\n', i);
    lemma_encode_around_feed(line, rest);
    lemma_feed();
    lemma_search_in_utf8(line, seq!['\n']);
    lemma_find_behind(encode_utf8(line), 10u8, encode_utf8(rest));
}

/// A carriage return at the end of a line is one at the end of its bytes.
proof fn lemma_return(line: Seq<char>)
    ensures
        without_return(encode_utf8(line), 13u8) == encode_utf8(without_return(line, '\r')),
{
    if line.len() > 0 {
        lemma_last_char(line);
        lemma_scalar_bytes(line.last());
        lemma_same_char(line.last(), '\r');
        let end = encode_scalar(line.last() as u32);
        assert(encode_utf8(line).last() == end.last());
        if line.last() == '\r' {
            assert(encode_utf8(line).drop_last() =~= encode_utf8(line.drop_last()));
        } else {
            assert(end[end.len() - 1] != 13);
        }
    }
}

/// A UTF-8 line is one text.
proof fn lemma_line_is_read(line: Seq<char>)
    ensures
        text_parts(encode_utf8(line), seq![]) == seq![line],
{
    encode_utf8_valid_utf8(line);
    encode_utf8_decode_utf8(line);
    lemma_parts_of_utf8(encode_utf8(line), seq![]);
    assert(Seq::<char>::empty() + line =~= line);
}

/// The lines of a UTF-8 file are the lines of its text.
pub proof fn lemma_lines_of_utf8(text: Seq<char>)
    ensures
        text_lines(encode_utf8(text)) == lines_of(text, '\n', '\r'),
    decreases text.len(),
{
    let bytes = encode_utf8(text);
    if text.len() == 0 {
        assert(text_lines(bytes) =~= lines_of(text, '\n', '\r'));
    } else {
        match find_in(text, seq!['\n']) {
            None => {
                lemma_feed();
                lemma_find_iff_occurs(text, seq!['\n']);
                lemma_find_iff_occurs(bytes, seq![10u8]);
                lemma_search_in_utf8(text, seq!['\n']);
                lemma_scalar_bytes(text[0]);
                lemma_line_is_read(text);
                assert(lines_of(bytes, 10u8, 13u8) =~= seq![bytes] + seq![]);
                lemma_parts_of_first(bytes, seq![]);
                assert(text_lines(bytes) =~= seq![text]);
            },
            Some(i) => {
                let rest = text.skip(i + 1);
                let clean = without_return(text.take(i), '\r');
                let others = lines_of(encode_utf8(rest), 10u8, 13u8);
                lemma_first_line(text, i);
                lemma_return(text.take(i));
                lemma_lines_of_utf8(rest);
                lemma_line_is_read(clean);
                assert(lines_of(bytes, 10u8, 13u8) == seq![encode_utf8(clean)] + others);
                lemma_parts_of_first(encode_utf8(clean), others);
            },
        }
    }
}

/// A text in a line is read as it stands, and where no character begins a text ends: it is read
/// before what follows, and one byte is passed over.
pub proof fn lemma_parts_in_order(text: Seq<char>, begun: Seq<char>, after: Seq<u8>)
    ensures
        text_parts(encode_utf8(text), begun) == seq![begun + text],
        text_parts(encode_utf8(text) + after, begun) == text_parts(after, begun + text),
        after.len() > 0 && !valid_first_scalar(after) ==> text_parts(after, begun) == seq![begun]
            + text_parts(after.skip(1), seq![]),
{
    encode_utf8_valid_utf8(text);
    encode_utf8_decode_utf8(text);
    lemma_parts_of_utf8(encode_utf8(text), begun);
    lemma_text_is_read(text, after, begun);
}

/// What a line holds is read before what the lines behind it hold, and every line is read.
pub proof fn lemma_lines_in_order(line: Seq<u8>, rest: Seq<u8>)
    requires
        !line.contains(10u8),
    ensures
        text_lines(Seq::<u8>::empty()) == Seq::<Seq<char>>::empty(),
        line.len() > 0 ==> text_lines(line) == text_parts(line, seq![]),
        line.len() == 0 || line.last() != 13 ==> text_lines(line + seq![10u8] + rest)
            == text_parts(line, seq![]) + text_lines(rest),
        text_lines(line + seq![13u8, 10u8] + rest) == text_parts(line, seq![]) + text_lines(rest),
{
    lemma_lines(line, rest, 10u8, 13u8);
    lemma_parts_of_first(line, lines_of(rest, 10u8, 13u8));
    lemma_parts_of_first(line, seq![]);
    assert(seq![line] + Seq::<Seq<u8>>::empty() =~= seq![line]);
    assert(text_parts(line, seq![]) + parts_of(seq![]) =~= text_parts(line, seq![]));
}

} // verus!
