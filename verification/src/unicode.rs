use std::ops::Range;
use vstd::prelude::*;
use vstd::string::StringSliceAdditionalSpecFns;
use vstd::utf8::{decode_utf8, encode_utf8, is_char_boundary};

verus! {

broadcast use vstd::string::group_string_axioms;

/// The characters of `text`, in order.
pub fn chars_of(text: &str) -> (chars: Vec<char>)
    ensures
        chars@ == text@,
{
    let mut chars: Vec<char> = Vec::new();
    for c in it: text.chars()
        invariant
            chars@ == it.seq().take(it.index()),
    {
        chars.push(c);
    }
    chars
}

/// Trusted: `String::push` appends one character to the string.
pub assume_specification[ String::push ](string: &mut String, ch: char)
    ensures
        final(string)@ == old(string)@.push(ch),
;

/// Trusted: the derived `Clone` of `Range` clones its two bounds.
pub assume_specification<Idx: Clone>[ <Range<Idx> as Clone>::clone ](range: &Range<Idx>) -> (copy: Range<Idx>)
    ensures
        cloned::<Idx>(range.start, copy.start),
        cloned::<Idx>(range.end, copy.end),
;

/// Number of bytes in the UTF-8 encoding of `s`.
pub open spec fn utf8_len_of(s: Seq<char>) -> nat {
    vstd::utf8::encode_utf8(s).len()
}

/// Trusted: `String::len` returns the length in bytes of the string's UTF-8
/// encoding.
pub assume_specification[ String::len ](string: &String) -> (len: usize)
    ensures
        len == utf8_len_of(string@),
;

/// Trusted: `str::len`, the length of `text` in bytes; the contract claims
/// that this length is the length of its UTF-8 encoding, which fits in a
/// `usize` as every string's length does.
#[verifier::external_body]
pub(crate) fn str_byte_len(text: &str) -> (len: usize)
    ensures
        len == text.spec_bytes().len(),
{
    text.len()
}

/// Trusted: `&text[start..end]`, the bytes `start..end` of `text`, which must
/// both be character boundaries with `start <= end`.
#[verifier::external_body]
pub(crate) fn byte_slice(text: &str, start: usize, end: usize) -> (slice: &str)
    requires
        start <= end <= text.spec_bytes().len(),
        is_char_boundary(text.spec_bytes(), start as int),
        is_char_boundary(text.spec_bytes(), end as int),
    ensures
        slice.spec_bytes() == text.spec_bytes().subrange(start as int, end as int),
{
    &text[start..end]
}

/// The characters of `text` between the byte positions `start` and `end`.
pub open spec fn chars_between(text: Seq<char>, start: int, end: int) -> Seq<char> {
    decode_utf8(encode_utf8(text).subrange(start, end))
}

/// An owned copy of the bytes `start..end` of `text`.
pub fn substring(text: &str, start: usize, end: usize) -> (piece: String)
    requires
        start <= end <= text.spec_bytes().len(),
        is_char_boundary(text.spec_bytes(), start as int),
        is_char_boundary(text.spec_bytes(), end as int),
    ensures
        piece@ == chars_between(text@, start as int, end as int),
{
    let slice = byte_slice(text, start, end);
    proof {
        vstd::utf8::encode_utf8_decode_utf8(slice@);
    }
    String::from_str(slice)
}

/// Whether `c` has the Unicode `White_Space` property, as `char::is_whitespace`
/// documents it.
pub open spec fn is_whitespace(c: char) -> bool {
    ||| '\u{9}' <= c <= '\u{d}'
    ||| c == ' '
    ||| c == '\u{85}'
    ||| c == '\u{a0}'
    ||| c == '\u{1680}'
    ||| '\u{2000}' <= c <= '\u{200a}'
    ||| c == '\u{2028}'
    ||| c == '\u{2029}'
    ||| c == '\u{202f}'
    ||| c == '\u{205f}'
    ||| c == '\u{3000}'
}

/// Whether `c` is whitespace, as `char::is_whitespace` decides it (see
/// [`is_whitespace`]).
pub(crate) fn char_is_whitespace(c: char) -> (r: bool)
    ensures
        r == is_whitespace(c),
{
    ('\u{9}' <= c && c <= '\u{d}') || c == ' ' || c == '\u{85}' || c == '\u{a0}' || c == '\u{1680}'
        || ('\u{2000}' <= c && c <= '\u{200a}') || c == '\u{2028}' || c == '\u{2029}' || c == '\u{202f}'
        || c == '\u{205f}' || c == '\u{3000}'
}

/// What `char::is_alphanumeric` returns: whether `c` has the Unicode
/// `Alphabetic` property or is in a Numeric general category.
pub uninterp spec fn is_alphanumeric(c: char) -> bool;

/// Trusted: calls `char::is_alphanumeric`, whose result depends on `c` alone.
#[verifier::external_body]
pub(crate) fn char_is_alphanumeric(c: char) -> (r: bool)
    ensures
        r == is_alphanumeric(c),
{
    c.is_alphanumeric()
}

/// What `char::to_lowercase` yields for `c`: its full Unicode lowercase
/// mapping, one or more characters.
pub uninterp spec fn lowercase(c: char) -> Seq<char>;

/// Trusted: collects `char::to_lowercase`. The contract claims the named
/// result and, as the documentation states, that it yields at least one
/// character.
#[verifier::external_body]
pub(crate) fn char_to_lowercase(c: char) -> (lower: Vec<char>)
    ensures
        lower@ == lowercase(c),
        lower@.len() > 0,
{
    c.to_lowercase().collect()
}

/// `s` without trailing whitespace.
pub open spec fn trim_end(s: Seq<char>) -> Seq<char>
    decreases s.len(),
{
    if s.len() > 0 && is_whitespace(s.last()) {
        trim_end(s.drop_last())
    } else {
        s
    }
}

/// `s` without leading whitespace.
pub open spec fn trim_start(s: Seq<char>) -> Seq<char>
    decreases s.len(),
{
    if s.len() > 0 && is_whitespace(s[0]) {
        trim_start(s.drop_first())
    } else {
        s
    }
}

/// End of `chars[start..end]` without its trailing whitespace.
pub fn trimmed_end(chars: &Vec<char>, start: usize, end: usize) -> (e: usize)
    requires
        start <= end <= chars@.len(),
    ensures
        start <= e <= end,
        trim_end(chars@.subrange(start as int, end as int)) == chars@.subrange(start as int, e as int),
{
    let mut e = end;
    while e > start && char_is_whitespace(chars[e - 1])
        invariant
            start <= e <= end <= chars@.len(),
            trim_end(chars@.subrange(start as int, end as int)) == trim_end(
                chars@.subrange(start as int, e as int),
            ),
        decreases e,
    {
        assert(chars@.subrange(start as int, e as int).drop_last() =~= chars@.subrange(
            start as int,
            e - 1,
        ));
        e -= 1;
    }
    e
}

/// Start of `chars[start..end]` without its leading whitespace.
pub fn trimmed_start(chars: &Vec<char>, start: usize, end: usize) -> (s: usize)
    requires
        start <= end <= chars@.len(),
    ensures
        start <= s <= end,
        trim_start(chars@.subrange(start as int, end as int)) == chars@.subrange(s as int, end as int),
{
    let mut s = start;
    while s < end && char_is_whitespace(chars[s])
        invariant
            start <= s <= end <= chars@.len(),
            trim_start(chars@.subrange(start as int, end as int)) == trim_start(
                chars@.subrange(s as int, end as int),
            ),
        decreases end - s,
    {
        assert(chars@.subrange(s as int, end as int).drop_first() =~= chars@.subrange(
            s + 1,
            end as int,
        ));
        s += 1;
    }
    s
}

} // verus!
