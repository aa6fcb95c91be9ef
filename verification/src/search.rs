use std::ops::Range;
use vstd::prelude::*;

use crate::unicode::{char_to_lowercase, chars_of, lowercase, str_byte_len};
use vstd::utf8::{encode_scalar, encode_utf8};
use vstd::string::StringSliceAdditionalSpecFns;

verus! {

/// Number of bytes in the UTF-8 encoding of `c`.
pub open spec fn utf8_len(c: char) -> nat {
    if (c as u32) < 0x80 {
        1
    } else if (c as u32) < 0x800 {
        2
    } else if (c as u32) < 0x10000 {
        3
    } else {
        4
    }
}

/// Computes `char::len_utf8`, the width of `c` in UTF-8.
pub fn utf8_width(c: char) -> (width: usize)
    ensures
        width == utf8_len(c),
{
    let code = c as u32;
    if code < 0x80 {
        1
    } else if code < 0x800 {
        2
    } else if code < 0x10000 {
        3
    } else {
        4
    }
}

/// Byte offset of character `j` of `s` in its UTF-8 encoding.
pub open spec fn byte_offset(s: Seq<char>, j: int) -> nat
    decreases j,
{
    if j <= 0 || j > s.len() {
        0
    } else {
        byte_offset(s, j - 1) + utf8_len(s[j - 1])
    }
}

/// Byte length of the UTF-8 encoding of `s`.
pub open spec fn byte_len(s: Seq<char>) -> nat {
    byte_offset(s, s.len() as int)
}

/// One copy of `range` per UTF-8 byte of each character of `lower`.
pub open spec fn repeated_ranges(lower: Seq<char>, range: Range<usize>) -> Seq<Range<usize>>
    decreases lower.len(),
{
    if lower.len() == 0 {
        Seq::empty()
    } else {
        repeated_ranges(lower.drop_last(), range) + Seq::new(utf8_len(lower.last()), |_i: int| range)
    }
}

/// The full lowercase mapping of `s`, character by character.
pub open spec fn folded_text(s: Seq<char>) -> Seq<char>
    decreases s.len(),
{
    if s.len() == 0 {
        Seq::empty()
    } else {
        folded_text(s.drop_last()) + lowercase(s.last())
    }
}

/// For each byte of [`folded_text`], the source byte range of the character it came from.
pub open spec fn folded_ranges(s: Seq<char>) -> Seq<Range<usize>>
    decreases s.len(),
{
    if s.len() == 0 {
        Seq::empty()
    } else {
        let j = s.len() - 1;
        let start = byte_offset(s, j);
        folded_ranges(s.drop_last()) + repeated_ranges(
            lowercase(s.last()),
            (start as usize)..((start + utf8_len(s.last())) as usize),
        )
    }
}

proof fn lemma_byte_offset_prefix(s: Seq<char>, k: int, j: int)
    requires
        0 <= j <= k <= s.len(),
    ensures
        byte_offset(s.take(k), j) == byte_offset(s, j),
    decreases j,
{
    if j > 0 {
        lemma_byte_offset_prefix(s, k, j - 1);
    }
}

proof fn lemma_byte_offset_mono(s: Seq<char>, j: int, k: int)
    requires
        0 <= j <= k <= s.len(),
    ensures
        byte_offset(s, j) <= byte_offset(s, k),
    decreases k,
{
    if j < k {
        lemma_byte_offset_mono(s, j, k - 1);
    }
}

proof fn lemma_repeated_ranges_len(lower: Seq<char>, range: Range<usize>)
    ensures
        repeated_ranges(lower, range).len() == byte_len(lower),
    decreases lower.len(),
{
    if lower.len() > 0 {
        lemma_repeated_ranges_len(lower.drop_last(), range);
        lemma_byte_offset_prefix(lower, lower.len() - 1, lower.len() - 1);
        assert(lower.take(lower.len() - 1) =~= lower.drop_last());
    }
}

proof fn lemma_byte_len_step(x: Seq<char>)
    requires
        x.len() > 0,
    ensures
        byte_len(x) == byte_len(x.drop_last()) + utf8_len(x.last()),
{
    lemma_byte_offset_prefix(x, x.len() - 1, x.len() - 1);
    assert(x.take(x.len() - 1) =~= x.drop_last());
}

proof fn lemma_byte_len_concat(a: Seq<char>, b: Seq<char>)
    ensures
        byte_len(a + b) == byte_len(a) + byte_len(b),
    decreases b.len(),
{
    if b.len() == 0 {
        assert(a + b =~= a);
    } else {
        lemma_byte_len_concat(a, b.drop_last());
        assert((a + b).drop_last() =~= a + b.drop_last());
        lemma_byte_len_step(a + b);
        lemma_byte_len_step(b);
    }
}

proof fn lemma_scalar_width(c: char)
    ensures
        encode_scalar(c as u32).len() == utf8_len(c),
{
    vstd::utf8::char_is_scalar(c);
}

/// The byte length counted character by character is the length of the
/// UTF-8 encoding.
pub proof fn lemma_byte_len_is_encoding_len(s: Seq<char>)
    ensures
        byte_len(s) == encode_utf8(s).len(),
    decreases s.len(),
{
    if s.len() > 0 {
        lemma_byte_len_is_encoding_len(s.drop_first());
        assert(s =~= seq![s[0]] + s.drop_first());
        lemma_byte_len_concat(seq![s[0]], s.drop_first());
        lemma_byte_len_step(seq![s[0]]);
        assert(seq![s[0]].drop_last() =~= Seq::<char>::empty());
        lemma_scalar_width(s[0]);
    }
}

/// Every UTF-8 byte of the lowercase text has exactly one source range:
/// the range list is as long as the lowercase text's encoding.
pub proof fn lemma_folded_ranges_cover_folded_bytes(s: Seq<char>)
    ensures
        folded_ranges(s).len() == byte_len(folded_text(s)),
    decreases s.len(),
{
    if s.len() > 0 {
        lemma_folded_ranges_cover_folded_bytes(s.drop_last());
        let start = byte_offset(s, s.len() - 1);
        lemma_repeated_ranges_len(
            lowercase(s.last()),
            (start as usize)..((start + utf8_len(s.last())) as usize),
        );
        lemma_byte_len_concat(folded_text(s.drop_last()), lowercase(s.last()));
    }
}

/// Lowercase `source` while recording, for every byte of the lowercase text,
/// the byte range of the source character that produced it.
pub fn lowercase_with_source_ranges(source: &str) -> (folded: (String, Vec<Range<usize>>))
    ensures
        folded.0@ == folded_text(source@),
        folded.1@ == folded_ranges(source@),
{
    let _ = str_byte_len(source);
    proof {
        lemma_byte_len_is_encoding_len(source@);
    }
    let chars = chars_of(source);
    let ghost s = source@;
    let mut folded = String::new();
    let mut ranges: Vec<Range<usize>> = Vec::new();
    let mut start: usize = 0;
    let mut j: usize = 0;
    while j < chars.len()
        invariant
            chars@ == s,
            j <= s.len(),
            byte_len(s) <= usize::MAX,
            start == byte_offset(s, j as int),
            folded@ == folded_text(s.take(j as int)),
            ranges@ == folded_ranges(s.take(j as int)),
        decreases chars.len() - j,
    {
        let character = chars[j];
        proof {
            lemma_byte_offset_mono(s, j + 1, s.len() as int);
        }
        let end = start + utf8_width(character);
        let source_range = start..end;
        let lower = char_to_lowercase(character);
        let ghost folded_before = folded@;
        let ghost ranges_before = ranges@;
        let mut k: usize = 0;
        while k < lower.len()
            invariant
                k <= lower@.len(),
                source_range == (start..end),
                folded@ == folded_before + lower@.take(k as int),
                ranges@ == ranges_before + repeated_ranges(lower@.take(k as int), source_range),
            decreases lower.len() - k,
        {
            let l = lower[k];
            folded.push(l);
            let width = utf8_width(l);
            let ghost ranges_mid = ranges@;
            let mut w: usize = 0;
            while w < width
                invariant
                    w <= width,
                    source_range == (start..end),
                    ranges@ == ranges_mid + Seq::new(w as nat, |_i: int| source_range),
                decreases width - w,
            {
                ranges.push(start..end);
                w += 1;
                assert(ranges@ =~= ranges_mid + Seq::new(w as nat, |_i: int| source_range));
            }
            proof {
                assert(lower@.take(k + 1).drop_last() =~= lower@.take(k as int));
                assert(folded@ =~= folded_before + lower@.take(k + 1));
                assert(ranges@ =~= ranges_before + repeated_ranges(lower@.take(k + 1), source_range));
            }
            k += 1;
        }
        proof {
            assert(lower@.take(k as int) =~= lower@);
            let t = s.take(j + 1);
            assert(t.drop_last() =~= s.take(j as int));
            assert(t.last() == character);
            lemma_byte_offset_prefix(s, j + 1, j as int);
            assert(folded@ =~= folded_text(t));
            assert(ranges@ =~= folded_ranges(t));
        }
        start = end;
        j += 1;
    }
    proof {
        assert(s.take(j as int) =~= s);
    }
    (folded, ranges)
}


/// Whether `needle` occurs in `hay` at byte `i`.
pub open spec fn occurs_at(hay: Seq<u8>, needle: Seq<u8>, i: int) -> bool {
    0 <= i && i + needle.len() <= hay.len() && hay.subrange(i, i + needle.len()) == needle
}

/// The first byte, at or after `from`, where `needle` occurs in `hay`.
pub open spec fn first_occurrence(hay: Seq<u8>, needle: Seq<u8>, from: int) -> Option<int>
    decreases hay.len() + 1 - from,
{
    if from < 0 || from + needle.len() > hay.len() {
        None
    } else if occurs_at(hay, needle, from) {
        Some(from)
    } else {
        first_occurrence(hay, needle, from + 1)
    }
}

/// The first occurrence found from `from` on is at or after `from` and is
/// an occurrence.
pub proof fn lemma_first_occurrence_at_or_after(hay: Seq<u8>, needle: Seq<u8>, from: int)
    ensures
        first_occurrence(hay, needle, from) matches Some(i) ==> from <= i && occurs_at(hay, needle, i),
    decreases hay.len() + 1 - from,
{
    if !(from < 0 || from + needle.len() > hay.len()) && !occurs_at(hay, needle, from) {
        lemma_first_occurrence_at_or_after(hay, needle, from + 1);
    }
}

/// The starts of the non-overlapping occurrences of a non-empty `needle` in
/// `hay` from byte `from` on, left to right.
pub open spec fn occurrences(hay: Seq<u8>, needle: Seq<u8>, from: int) -> Seq<int>
    decreases hay.len() - from,
{
    if needle.len() == 0 {
        Seq::empty()
    } else {
        match first_occurrence(hay, needle, from) {
            Some(i) => {
                proof {
                    lemma_first_occurrence_at_or_after(hay, needle, from);
                }
                seq![i] + occurrences(hay, needle, i + needle.len())
            },
            None => Seq::empty(),
        }
    }
}

/// Every start that `occurrences` lists is at or after `from` and is an
/// occurrence of `needle`, and each occurrence ends before the next one
/// starts.
pub proof fn lemma_occurrences_are_ordered_matches(hay: Seq<u8>, needle: Seq<u8>, from: int)
    ensures
        forall|k: int|
            0 <= k < occurrences(hay, needle, from).len() ==> from <= #[trigger] occurrences(hay, needle, from)[k]
                && occurs_at(hay, needle, occurrences(hay, needle, from)[k]),
        forall|k: int|
            0 <= k < occurrences(hay, needle, from).len() - 1 ==> #[trigger] occurrences(hay, needle, from)[k]
                + needle.len() <= occurrences(hay, needle, from)[k + 1],
    decreases hay.len() - from,
{
    if needle.len() > 0 {
        lemma_first_occurrence_at_or_after(hay, needle, from);
        match first_occurrence(hay, needle, from) {
            Some(i) => {
                let rest = occurrences(hay, needle, i + needle.len());
                lemma_occurrences_are_ordered_matches(hay, needle, i + needle.len());
                let occ = occurrences(hay, needle, from);
                assert(occ == seq![i] + rest);
                assert forall|k: int| 0 <= k < occ.len() implies from <= #[trigger] occ[k] && occurs_at(
                    hay,
                    needle,
                    occ[k],
                ) by {
                    if k > 0 {
                        assert(occ[k] == rest[k - 1]);
                    }
                }
                assert forall|k: int| 0 <= k < occ.len() - 1 implies #[trigger] occ[k] + needle.len() <= occ[k
                    + 1] by {
                    if k > 0 {
                        assert(occ[k] == rest[k - 1]);
                        assert(occ[k + 1] == rest[k]);
                    } else {
                        assert(occ[1] == rest[0]);
                    }
                }
            },
            None => {},
        }
    }
}

/// The lowercase of a text as `str::to_lowercase` computes it.
pub uninterp spec fn lowercase_text(text: Seq<char>) -> Seq<char>;

/// Trusted: `str::to_lowercase`. The contract names the result and claims
/// what the documentation of `char::to_lowercase`, which it maps over the
/// text, gives: every character lowers to at least one character.
#[verifier::external_body]
fn str_to_lowercase(text: &str) -> (lower: String)
    ensures
        lower@ == lowercase_text(text@),
        text@.len() > 0 ==> lower@.len() > 0,
{
    text.to_lowercase()
}

/// The source ranges of the literal matches of `query` in `source`: byte
/// for byte when case-sensitive; else the matches of the lowercased query
/// in the lowercased source, each mapped back to the source characters it
/// came from.
pub open spec fn search_ranges(source: Seq<char>, query: Seq<char>, case_sensitive: bool) -> Seq<Range<usize>> {
    if query.len() == 0 {
        Seq::empty()
    } else if case_sensitive {
        let n = encode_utf8(query).len();
        occurrences(encode_utf8(source), encode_utf8(query), 0).map_values(
            |i: int| (i as usize)..((i + n) as usize),
        )
    } else {
        folded_matches(source, encode_utf8(lowercase_text(query)))
    }
}

/// A case-sensitive search finds the query itself: every range holds
/// exactly the bytes of the query, and the ranges come left to right
/// without overlapping.
pub proof fn lemma_search_finds_the_query(source: Seq<char>, query: Seq<char>)
    requires
        encode_utf8(source).len() <= usize::MAX,
    ensures
        forall|k: int|
            0 <= k < search_ranges(source, query, true).len() ==> ({
                let r = #[trigger] search_ranges(source, query, true)[k];
                &&& r.start <= r.end <= encode_utf8(source).len()
                &&& encode_utf8(source).subrange(r.start as int, r.end as int) == encode_utf8(query)
            }),
        forall|k: int|
            0 <= k < search_ranges(source, query, true).len() - 1 ==> (#[trigger] search_ranges(
                source,
                query,
                true,
            )[k]).end <= search_ranges(source, query, true)[k + 1].start,
{
    if query.len() > 0 {
        let hay = encode_utf8(source);
        let needle = encode_utf8(query);
        lemma_occurrences_are_ordered_matches(hay, needle, 0);
        let occ = occurrences(hay, needle, 0);
        let r = search_ranges(source, query, true);
        assert forall|k: int| 0 <= k < r.len() implies ({
            let x = #[trigger] r[k];
            &&& x.start <= x.end <= hay.len()
            &&& hay.subrange(x.start as int, x.end as int) == needle
        }) by {
            assert(occurs_at(hay, needle, occ[k]));
        }
        assert forall|k: int| 0 <= k < r.len() - 1 implies (#[trigger] r[k]).end <= r[k + 1].start by {
            assert(occurs_at(hay, needle, occ[k]));
            assert(occurs_at(hay, needle, occ[k + 1]));
        }
    }
}

/// The matches of `needle` in the lowercase text of `source`, mapped back to
/// source ranges.
pub open spec fn folded_matches(source: Seq<char>, needle: Seq<u8>) -> Seq<Range<usize>> {
    let ranges = folded_ranges(source);
    occurrences(encode_utf8(folded_text(source)), needle, 0).filter(
        |i: int| i + needle.len() - 1 < ranges.len(),
    ).map_values(|i: int| ranges[i].start..ranges[i + needle.len() - 1].end)
}

fn occurs_at_exec(hay: &[u8], needle: &[u8], i: usize) -> (found: bool)
    requires
        i + needle@.len() <= hay@.len(),
    ensures
        found == occurs_at(hay@, needle@, i as int),
{
    let hay_len = hay.len();
    let mut k: usize = 0;
    while k < needle.len()
        invariant
            k <= needle@.len(),
            i + needle@.len() <= hay@.len(),
            hay_len == hay@.len(),
            forall|j: int| 0 <= j < k ==> hay@[i + j] == needle@[j],
        decreases needle.len() - k,
    {
        if hay[i + k] != needle[k] {
            assert(hay@.subrange(i as int, i + needle@.len())[k as int] != needle@[k as int]);
            return false;
        }
        k += 1;
    }
    assert(hay@.subrange(i as int, i + needle@.len()) =~= needle@);
    true
}

pub(crate) fn find_from(hay: &[u8], needle: &[u8], from: usize) -> (found: Option<usize>)
    requires
        needle@.len() > 0,
    ensures
        found == match first_occurrence(hay@, needle@, from as int) {
            Some(i) => Some(i as usize),
            None => None,
        },
        found matches Some(i) ==> i + needle@.len() <= hay@.len(),
{
    if needle.len() > hay.len() {
        return None;
    }
    let last = hay.len() - needle.len();
    let mut i = from;
    while i <= last
        invariant
            from <= i,
            needle@.len() > 0,
            last < usize::MAX,
            last + needle@.len() == hay@.len(),
            first_occurrence(hay@, needle@, from as int) == first_occurrence(hay@, needle@, i as int),
        decreases last + 1 - i,
    {
        if occurs_at_exec(hay, needle, i) {
            return Some(i);
        }
        i += 1;
    }
    None
}

/// The source ranges of the literal matches of `query` in `source` (see
/// [`search_ranges`]); a view highlights them and counts them.
pub fn search_source(source: &str, query: &str, case_sensitive: bool) -> (ranges: Vec<Range<usize>>)
    ensures
        ranges@ == search_ranges(source@, query@, case_sensitive),
{
    let mut ranges: Vec<Range<usize>> = Vec::new();
    if query.unicode_len() == 0 {
        return ranges;
    }
    if case_sensitive {
        let hay = source.as_bytes();
        let needle = query.as_bytes();
        let hay_len = hay.len();
        let ghost n = needle@.len() as int;
        let ghost all = occurrences(hay@, needle@, 0);
        proof {
            vstd::utf8::encode_utf8_first_scalar(query@);
        }
        assert(needle@.len() > 0);
        let mut offset: usize = 0;
        loop
            invariant
                needle@.len() > 0,
                n == needle@.len(),
                offset <= hay@.len(),
                hay_len == hay@.len(),
                hay@ == encode_utf8(source@),
                needle@ == encode_utf8(query@),
                query@.len() > 0,
                case_sensitive,
                all == occurrences(hay@, needle@, 0),
                ranges@ + occurrences(hay@, needle@, offset as int).map_values(
                    |i: int| (i as usize)..((i + n) as usize),
                ) == all.map_values(|i: int| (i as usize)..((i + n) as usize)),
            decreases hay@.len() - offset,
        {
            match find_from(hay, needle, offset) {
                Some(start) => {
                    proof {
                        lemma_first_occurrence_at_or_after(hay@, needle@, offset as int);
                    }
                    let ghost before = ranges@;
                    let ghost rest = occurrences(hay@, needle@, start + n);
                    ranges.push(start..start + needle.len());
                    proof {
                        assert(occurrences(hay@, needle@, offset as int) == seq![start as int] + rest);
                        assert(ranges@ + rest.map_values(|i: int| (i as usize)..((i + n) as usize))
                            =~= before + occurrences(hay@, needle@, offset as int).map_values(
                            |i: int| (i as usize)..((i + n) as usize),
                        ));
                    }
                    offset = start + needle.len();
                },
                None => {
                    proof {
                        assert(ranges@ =~= ranges@ + occurrences(hay@, needle@, offset as int).map_values(
                            |i: int| (i as usize)..((i + n) as usize),
                        ));
                    }
                    return ranges;
                },
            }
        }
    } else {
        let (folded, source_ranges) = lowercase_with_source_ranges(source);
        let lowered = str_to_lowercase(query);
        let hay = folded.as_str().as_bytes();
        let needle = lowered.as_str().as_bytes();
        let hay_len = hay.len();
        proof {
            vstd::utf8::encode_utf8_first_scalar(lowered@);
        }
        let ghost n = needle@.len() as int;
        let ghost all = occurrences(hay@, needle@, 0);
        let ghost keep = |i: int| i + n - 1 < source_ranges@.len();
        let ghost to_range = |i: int| source_ranges@[i].start..source_ranges@[i + n - 1].end;
        let mut offset: usize = 0;
        loop
            invariant
                needle@.len() > 0,
                n == needle@.len(),
                offset <= hay@.len(),
                hay_len == hay@.len(),
                hay@ == encode_utf8(folded_text(source@)),
                needle@ == encode_utf8(lowercase_text(query@)),
                source_ranges@ == folded_ranges(source@),
                query@.len() > 0,
                !case_sensitive,
                all == occurrences(hay@, needle@, 0),
                keep == (|i: int| i + n - 1 < source_ranges@.len()),
                to_range == (|i: int| source_ranges@[i].start..source_ranges@[i + n - 1].end),
                ranges@ + occurrences(hay@, needle@, offset as int).filter(keep).map_values(to_range)
                    == all.filter(keep).map_values(to_range),
            decreases hay@.len() - offset,
        {
            match find_from(hay, needle, offset) {
                Some(start) => {
                    proof {
                        lemma_first_occurrence_at_or_after(hay@, needle@, offset as int);
                    }
                    let end = start + needle.len();
                    let ghost before = ranges@;
                    let ghost rest = occurrences(hay@, needle@, end as int);
                    proof {
                        assert(occurrences(hay@, needle@, offset as int) == seq![start as int] + rest);
                        rest.lemma_filter_prepend(start as int, keep);
                    }
                    if end - 1 < source_ranges.len() {
                        let range = source_ranges[start].start..source_ranges[end - 1].end;
                        ranges.push(range);
                    }
                    proof {
                        assert(ranges@ + rest.filter(keep).map_values(to_range) =~= before
                            + occurrences(hay@, needle@, offset as int).filter(keep).map_values(to_range));
                    }
                    offset = end;
                },
                None => {
                    proof {
                        assert(ranges@ =~= ranges@ + occurrences(hay@, needle@, offset as int).filter(keep).map_values(to_range));
                    }
                    return ranges;
                },
            }
        }
    }
}

/// The byte ranges that `regex` finds for `query` taken literally in
/// `text`, case-insensitively when asked; `None` when the pattern is not
/// accepted.
pub uninterp spec fn literal_regex_matches(text: Seq<char>, query: Seq<char>, case_insensitive: bool) -> Option<
    Seq<Range<usize>>,
>;

/// Escapes `query` with `regex::escape`, builds it with
/// `regex::RegexBuilder` (case-insensitive when asked) and collects the
/// ranges of `Regex::find_iter` over `text`; `None` when `build` fails. The
/// contract claims only that the result is a function of the three
/// arguments: the matching rules are `regex`'s own.
#[verifier::external_body]
pub(crate) fn find_literal_matches(text: &str, query: &str, case_insensitive: bool) -> (found: Option<Vec<Range<usize>>>)
    ensures
        match found {
            Some(v) => literal_regex_matches(text@, query@, case_insensitive) == Some(v@),
            None => literal_regex_matches(text@, query@, case_insensitive) is None,
        },
{
    let pattern = regex::escape(query);
    match regex::RegexBuilder::new(&pattern).case_insensitive(case_insensitive).build() {
        Ok(found) => Some(found.find_iter(text).map(|m| m.range()).collect()),
        Err(_) => None,
    }
}

} // verus!
