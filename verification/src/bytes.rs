//! What files and programs hold, as bytes: decoding them and searching them.

use crate::text::{lemma_occurrence_splits, lemma_occurs_between, occurs, occurs_at};
use vstd::prelude::*;
use vstd::utf8::{
    decode_utf8, encode_scalar, encode_utf8, is_ascii_chars, is_ascii_chars_encode_utf8,
    valid_utf8,
};

verus! {

/// The text that `String::from_utf8_lossy` makes of bytes that are not UTF-8.
pub uninterp spec fn replaced_utf8(bytes: Seq<u8>) -> Seq<char>;

/// The text that bytes are shown as.
pub open spec fn shown_bytes(bytes: Seq<u8>) -> Seq<char> {
    if valid_utf8(bytes) {
        decode_utf8(bytes)
    } else {
        replaced_utf8(bytes)
    }
}

/// `String::from_utf8_lossy` decodes UTF-8. Bytes that are not UTF-8 it turns into a text that
/// depends on nothing else; that each broken part becomes a replacement character is not stated.
#[verifier::external_body]
pub(crate) fn show_bytes(bytes: &Vec<u8>) -> (text: String)
    ensures
        valid_utf8(bytes@) ==> text@ == decode_utf8(bytes@),
        !valid_utf8(bytes@) ==> text@ == replaced_utf8(bytes@),
{
    String::from_utf8_lossy(bytes).into_owned()
}

/// `String::from_utf8` decodes UTF-8 and refuses everything else.
#[verifier::external_body]
pub(crate) fn read_utf8(bytes: Vec<u8>) -> (text: Option<String>)
    ensures
        match text {
            Some(s) => valid_utf8(bytes@) && s@ == decode_utf8(bytes@),
            None => !valid_utf8(bytes@),
        },
{
    String::from_utf8(bytes).ok()
}

/// Whether some bytes hold the UTF-8 encoding of `pattern`.
pub fn holds_text(bytes: &Vec<u8>, pattern: &str) -> (found: bool)
    ensures
        found == occurs(bytes@, encode_utf8(pattern@)),
{
    let needle = pattern.as_bytes();
    let mut i: usize = 0;
    while i <= bytes.len() && needle.len() <= bytes.len() - i
        invariant
            i <= bytes.len(),
            needle@ == encode_utf8(pattern@),
            forall|j: int| j < i ==> !occurs_at(bytes@, needle@, j),
        decreases bytes.len() - i,
    {
        let mut k: usize = 0;
        while k < needle.len() && bytes[i + k] == needle[k]
            invariant
                k <= needle.len(),
                i + needle.len() <= bytes.len(),
                forall|j: int| 0 <= j < k ==> bytes@[i + j] == needle@[j],
            decreases needle.len() - k,
        {
            k += 1;
        }
        if k == needle.len() {
            assert(bytes@.subrange(i as int, i + needle@.len()) =~= needle@);
            assert(occurs_at(bytes@, needle@, i as int));
            return true;
        }
        assert(bytes@.subrange(i as int, i + needle@.len())[k as int] != needle@[k as int]);
        if i == bytes.len() {
            return false;
        }
        i += 1;
    }
    false
}

/// The bytes `bytes[from..to]`.
pub fn part(bytes: &Vec<u8>, from: usize, to: usize) -> (out: Vec<u8>)
    requires
        from <= to <= bytes.len(),
    ensures
        out@ == bytes@.subrange(from as int, to as int),
{
    let mut out: Vec<u8> = Vec::new();
    let mut i: usize = from;
    while i < to
        invariant
            from <= i <= to <= bytes.len(),
            out@ == bytes@.subrange(from as int, i as int),
        decreases to - i,
    {
        out.push(bytes[i]);
        i += 1;
    }
    out
}

/// A character's encoding is the character's own number where it is ASCII, and is made of bytes
/// beyond ASCII where it is not.
pub proof fn lemma_scalar_bytes(c: char)
    ensures
        encode_scalar(c as u32).len() >= 1,
        (c as u32) < 0x80 ==> {
            &&& encode_scalar(c as u32).len() == 1
            &&& encode_scalar(c as u32)[0] as u32 == c as u32
        },
        (c as u32) >= 0x80 ==> forall|i: int|
            0 <= i < encode_scalar(c as u32).len()
                ==> #[trigger] encode_scalar(c as u32)[i] >= 0x80,
{
    let v = c as u32;
    assert(v < 0x80 ==> ((v & 0x7F) as u8) as u32 == v) by (bit_vector);
    assert((0xC0u8 | ((v >> 6) & 0x1F) as u8) >= 0x80) by (bit_vector);
    assert((0xE0u8 | ((v >> 12) & 0x0F) as u8) >= 0x80) by (bit_vector);
    assert((0xF0u8 | ((v >> 18) & 0x7) as u8) >= 0x80) by (bit_vector);
    assert((0x80u8 | (v & 0x3F) as u8) >= 0x80) by (bit_vector);
    assert((0x80u8 | ((v >> 6) & 0x3F) as u8) >= 0x80) by (bit_vector);
    assert((0x80u8 | ((v >> 12) & 0x3F) as u8) >= 0x80) by (bit_vector);
}

/// Characters with the same number are the same.
pub proof fn lemma_same_char(a: char, b: char)
    ensures
        a as u32 == b as u32 ==> a == b,
{
}

/// The encoding of two texts in a row is the two encodings in a row.
pub proof fn lemma_encode_concat(a: Seq<char>, b: Seq<char>)
    ensures
        encode_utf8(a + b) == encode_utf8(a) + encode_utf8(b),
    decreases a.len(),
{
    if a.len() == 0 {
        assert(a + b =~= b);
        assert(encode_utf8(a) + encode_utf8(b) =~= encode_utf8(b));
    } else {
        assert((a + b).drop_first() =~= a.drop_first() + b);
        lemma_encode_concat(a.drop_first(), b);
        assert(encode_utf8(a + b) =~= encode_utf8(a) + encode_utf8(b));
    }
}

/// Where the encoding of a text begins with that of an ASCII text, the text begins with it.
proof fn lemma_ascii_prefix(text: Seq<char>, pattern: Seq<char>)
    requires
        is_ascii_chars(pattern),
        occurs_at(encode_utf8(text), encode_utf8(pattern), 0),
    ensures
        occurs_at(text, pattern, 0),
    decreases pattern.len(),
{
    if pattern.len() == 0 {
        assert(text.subrange(0, 0) =~= pattern);
    } else {
        let whole = encode_utf8(text);
        let part = encode_utf8(pattern);
        is_ascii_chars_encode_utf8(pattern);
        assert(whole.subrange(0, part.len() as int)[0] == part[0]);
        assert(text.len() > 0);
        lemma_scalar_bytes(text[0]);
        lemma_scalar_bytes(pattern[0]);
        assert('\0' <= pattern[0] <= '\u{7f}');
        assert(whole[0] == encode_scalar(text[0] as u32)[0]);
        assert(part[0] == encode_scalar(pattern[0] as u32)[0]);
        lemma_same_char(text[0], pattern[0]);
        assert(text[0] == pattern[0]);
        let rest = encode_utf8(text.drop_first());
        let more = encode_utf8(pattern.drop_first());
        assert(is_ascii_chars(pattern.drop_first()));
        assert(rest.subrange(0, more.len() as int) =~= more) by {
            assert forall|i: int| 0 <= i < more.len() implies rest[i] == more[i] by {
                assert(whole.subrange(0, part.len() as int)[i + 1] == part[i + 1]);
            }
        }
        lemma_ascii_prefix(text.drop_first(), pattern.drop_first());
        assert forall|i: int| 0 <= i < pattern.len() implies text[i] == pattern[i] by {
            if i > 0 {
                assert(text.drop_first().subrange(0, pattern.len() - 1)[i - 1]
                    == pattern.drop_first()[i - 1]);
            }
        }
        assert(text.subrange(0, pattern.len() as int) =~= pattern);
    }
}

/// Where the encoding of an ASCII text stands in that of a text, it stands in the text.
proof fn lemma_ascii_occurrence(text: Seq<char>, pattern: Seq<char>, i: int)
    requires
        is_ascii_chars(pattern),
        pattern.len() > 0,
        occurs_at(encode_utf8(text), encode_utf8(pattern), i),
    ensures
        occurs(text, pattern),
    decreases text.len(),
{
    let whole = encode_utf8(text);
    let part = encode_utf8(pattern);
    is_ascii_chars_encode_utf8(pattern);
    let c = text[0];
    lemma_scalar_bytes(c);
    let first = encode_scalar(c as u32);
    assert(whole.subrange(i, i + part.len())[0] == whole[i]);
    assert('\0' <= pattern[0] <= '\u{7f}');
    if i >= first.len() {
        let rest = text.drop_first();
        assert(encode_utf8(rest).subrange(i - first.len(), i - first.len() + part.len())
            =~= whole.subrange(i, i + part.len()));
        lemma_ascii_occurrence(rest, pattern, i - first.len());
        let j = choose|j: int| occurs_at(rest, pattern, j);
        assert(text.subrange(j + 1, j + 1 + pattern.len()) =~= rest.subrange(
            j,
            j + pattern.len(),
        ));
        assert(occurs_at(text, pattern, j + 1));
    } else {
        assert(whole[i] == first[i]);
        lemma_ascii_prefix(text, pattern);
    }
}

/// What stands in a text stands in its encoding.
pub proof fn lemma_occurs_encoded(text: Seq<char>, pattern: Seq<char>)
    requires
        occurs(text, pattern),
    ensures
        occurs(encode_utf8(text), encode_utf8(pattern)),
{
    let i = choose|i: int| occurs_at(text, pattern, i);
    let before = text.take(i);
    let after = text.skip(i + pattern.len());
    lemma_occurrence_splits(text, pattern, i);
    lemma_encode_concat(pattern, after);
    lemma_encode_concat(before, pattern + after);
    lemma_occurs_between(encode_utf8(before), encode_utf8(pattern), encode_utf8(after));
}

/// An ASCII text is found in the bytes of a UTF-8 file exactly where it is found in the file's
/// text.
pub proof fn lemma_search_in_utf8(text: Seq<char>, pattern: Seq<char>)
    requires
        is_ascii_chars(pattern),
        pattern.len() > 0,
    ensures
        occurs(encode_utf8(text), encode_utf8(pattern)) <==> occurs(text, pattern),
{
    if occurs(text, pattern) {
        lemma_occurs_encoded(text, pattern);
    }
    if occurs(encode_utf8(text), encode_utf8(pattern)) {
        let i = choose|i: int| occurs_at(encode_utf8(text), encode_utf8(pattern), i);
        lemma_ascii_occurrence(text, pattern, i);
    }
}

/// Text is shown as it is; anything else as `String::from_utf8_lossy` shows it.
pub proof fn lemma_shown(bytes: Seq<u8>)
    ensures
        valid_utf8(bytes) ==> shown_bytes(bytes) == decode_utf8(bytes),
        !valid_utf8(bytes) ==> shown_bytes(bytes) == replaced_utf8(bytes),
{
}

} // verus!
