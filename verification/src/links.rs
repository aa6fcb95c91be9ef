use linkify::{LinkFinder, LinkKind};
use std::ops::Range;
use vstd::prelude::*;
use vstd::string::StringSliceAdditionalSpecFns;
use vstd::utf8::is_char_boundary;

use crate::renderer::{InlineFlags, ParsedLink, ParsedTextBlock, TextBlockKind, TextSegment};
use crate::unicode::{chars_between, str_byte_len, substring};

verus! {

broadcast use {
    vstd::string::group_string_axioms,
    vstd::utf8::encode_utf8_valid_utf8,
    vstd::utf8::is_char_boundary_start_end_of_seq,
};

/// The byte ranges of the URLs that `linkify` finds in a text, in order.
pub uninterp spec fn url_links(text: Seq<char>) -> Seq<Range<usize>>;

/// Trusted: runs a `linkify::LinkFinder` restricted to `LinkKind::Url` over
/// `text` and returns each link's `start()..end()`. The contract claims the
/// named result and what the crate's `Links` iterator shows: links come in
/// order without overlapping, each within the text, on character boundaries
/// (they are slices of the text).
#[verifier::external_body]
pub(crate) fn find_url_links(text: &str) -> (links: Vec<Range<usize>>)
    ensures
        links@ == url_links(text@),
        forall|i: int|
            0 <= i < links@.len() ==> (#[trigger] links@[i]).start <= links@[i].end
                <= text.spec_bytes().len() && is_char_boundary(
                text.spec_bytes(),
                links@[i].start as int,
            ) && is_char_boundary(text.spec_bytes(), links@[i].end as int),
        forall|i: int| 0 < i < links@.len() ==> links@[i - 1].end <= (#[trigger] links@[i]).start,
{
    let mut finder = LinkFinder::new();
    finder.kinds(&[LinkKind::Url]);
    finder.links(text).map(|link| link.start()..link.end()).collect()
}

pub open spec fn plain_flags() -> InlineFlags {
    InlineFlags {
        strong: false,
        emphasis: false,
        strike: false,
        underline: false,
        code: false,
        link: false,
        soft_break: false,
    }
}

pub open spec fn link_flags() -> InlineFlags {
    InlineFlags { link: true, ..plain_flags() }
}

/// A segment seen as its text, source range and flags.
pub open spec fn segment_view(segment: TextSegment) -> (Seq<char>, Range<usize>, InlineFlags) {
    (segment.text@, segment.source, segment.flags)
}

/// A link seen as its source range and destination.
pub open spec fn link_view(link: ParsedLink) -> (Range<usize>, Seq<char>) {
    (link.source, link.destination@)
}

/// The plain segment over bytes `start..end` of `text`, if not empty.
pub open spec fn plain_segment(text: Seq<char>, start: int, end: int) -> Seq<
    (Seq<char>, Range<usize>, InlineFlags),
> {
    if start < end {
        seq![(chars_between(text, start, end), (start as usize)..(end as usize), plain_flags())]
    } else {
        Seq::empty()
    }
}

/// Segments of `text` from byte `cursor` on, with the links from index `j`
/// on marked as links and the text around them plain.
pub open spec fn links_only_segments(
    text: Seq<char>,
    links: Seq<Range<usize>>,
    j: int,
    cursor: int,
) -> Seq<(Seq<char>, Range<usize>, InlineFlags)>
    decreases links.len() - j,
{
    if j < 0 || j >= links.len() {
        plain_segment(text, cursor, vstd::utf8::encode_utf8(text).len() as int)
    } else {
        let link = links[j];
        plain_segment(text, cursor, link.start as int) + seq![
            (chars_between(text, link.start as int, link.end as int), link, link_flags()),
        ] + links_only_segments(text, links, j + 1, link.end as int)
    }
}

/// The block that links-only parsing makes of `source`: one paragraph whose
/// URLs are links and whose other text is plain.
pub fn links_only_block(source: &str) -> (block: ParsedTextBlock)
    ensures
        block.kind == TextBlockKind::Paragraph,
        block.source == (0..source.spec_bytes().len() as usize),
        block.segments@.map_values(|s: TextSegment| segment_view(s)) == links_only_segments(
            source@,
            url_links(source@),
            0,
            0,
        ),
        block.links@.map_values(|l: ParsedLink| link_view(l)) == url_links(source@).map_values(
            |r: Range<usize>| (r, chars_between(source@, r.start as int, r.end as int)),
        ),
        block.images@.len() == 0,
{
    let found = find_url_links(source);
    let len = str_byte_len(source);
    let ghost b = source.spec_bytes();
    let ghost text = source@;
    assert(len == b.len());
    let mut segments: Vec<TextSegment> = Vec::new();
    let mut links: Vec<ParsedLink> = Vec::new();
    let mut cursor: usize = 0;
    let mut j: usize = 0;
    while j < found.len()
        invariant
            j <= found@.len(),
            found@ == url_links(text),
            text == source@,
            b == source.spec_bytes(),
            len == b.len(),
            cursor <= len,
            is_char_boundary(b, cursor as int),
            j < found@.len() ==> cursor <= found@[j as int].start,
            forall|i: int|
                0 <= i < found@.len() ==> (#[trigger] found@[i]).start <= found@[i].end <= b.len()
                    && is_char_boundary(b, found@[i].start as int) && is_char_boundary(
                    b,
                    found@[i].end as int,
                ),
            forall|i: int| 0 < i < found@.len() ==> found@[i - 1].end <= (#[trigger] found@[i]).start,
            segments@.map_values(|s: TextSegment| segment_view(s)) + links_only_segments(
                text,
                found@,
                j as int,
                cursor as int,
            ) == links_only_segments(text, found@, 0, 0),
            links@.map_values(|l: ParsedLink| link_view(l)) == found@.take(j as int).map_values(
                |r: Range<usize>| (r, chars_between(text, r.start as int, r.end as int)),
            ),
        decreases found.len() - j,
    {
        let link = &found[j];
        let ghost before = segments@.map_values(|s: TextSegment| segment_view(s));
        let ghost links_before = links@.map_values(|l: ParsedLink| link_view(l));
        if cursor < link.start {
            segments.push(
                TextSegment {
                    text: substring(source, cursor, link.start),
                    source: cursor..link.start,
                    flags: InlineFlags::default(),
                },
            );
        }
        let link_text = substring(source, link.start, link.end);
        let destination = substring(source, link.start, link.end);
        segments.push(
            TextSegment {
                text: link_text,
                source: link.start..link.end,
                flags: InlineFlags { link: true, ..InlineFlags::default() },
            },
        );
        let ghost links_old = links@;
        links.push(ParsedLink { source: link.start..link.end, destination });
        proof {
            assert(links@ == links_old.push(links@.last()));
            assert(link_view(links@.last()) == (found@[j as int], chars_between(text, found@[j as int].start as int, found@[j as int].end as int)));
            assert(links@.map_values(|l: ParsedLink| link_view(l)) =~= links_before.push(link_view(links@.last())));
            assert(segments@.map_values(|s: TextSegment| segment_view(s)) + links_only_segments(
                text,
                found@,
                j + 1,
                link.end as int,
            ) =~= before + links_only_segments(text, found@, j as int, cursor as int));
            assert(found@.take(j + 1) =~= found@.take(j as int).push(found@[j as int]));
            assert(links@.map_values(|l: ParsedLink| link_view(l)) =~= found@.take(j + 1).map_values(
                |r: Range<usize>| (r, chars_between(text, r.start as int, r.end as int)),
            ));
        }
        cursor = link.end;
        j += 1;
    }
    let ghost before = segments@.map_values(|s: TextSegment| segment_view(s));
    if cursor < len {
        proof {
            vstd::utf8::is_char_boundary_start_end_of_seq(b);
        }
        segments.push(
            TextSegment {
                text: substring(source, cursor, len),
                source: cursor..len,
                flags: InlineFlags::default(),
            },
        );
    }
    proof {
        assert(segments@.map_values(|s: TextSegment| segment_view(s)) =~= before
            + links_only_segments(text, found@, j as int, cursor as int));
        assert(found@.take(j as int) =~= found@);
    }
    ParsedTextBlock {
        kind: TextBlockKind::Paragraph,
        source: 0..len,
        segments,
        links,
        images: Vec::new(),
    }
}

} // verus!
