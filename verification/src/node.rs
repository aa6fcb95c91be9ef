use std::ops::Range;
use ropey::Rope;
use vstd::prelude::*;
use vstd::string::StringSliceAdditionalSpecFns;
use vstd::utf8::{encode_utf8, is_char_boundary};

use crate::unicode::{
    char_is_whitespace, chars_of, is_whitespace, trim_start, trimmed_start, utf8_len_of,
};

verus! {

/// A link attached to inline text.
#[derive(Debug, Default, PartialEq)]
pub struct LinkMark {
    pub url: String,
    /// Optional identifier for footnotes.
    pub identifier: Option<String>,
    pub title: Option<String>,
}

/// Inline text styles. `highlight` is the background color of `<mark>` text,
/// as a packed `0xRRGGBBAA` value; `None` means the text is not highlighted.
#[derive(Debug, PartialEq)]
pub struct TextMark {
    pub bold: bool,
    pub italic: bool,
    pub strikethrough: bool,
    pub underline: bool,
    pub code: bool,
    pub footnote_reference: bool,
    pub highlight: Option<u32>,
    pub link: Option<LinkMark>,
}

pub fn clone_text(text: &Option<String>) -> (cloned: Option<String>)
    ensures
        cloned == *text,
{
    match text {
        Some(t) => Some(t.clone()),
        None => None,
    }
}

impl Clone for LinkMark {
    fn clone(&self) -> (cloned: Self)
        ensures
            cloned == *self,
    {
        LinkMark {
            url: self.url.clone(),
            identifier: clone_text(&self.identifier),
            title: clone_text(&self.title),
        }
    }
}

impl Clone for TextMark {
    fn clone(&self) -> (cloned: Self)
        ensures
            cloned == *self,
    {
        TextMark {
            link: match &self.link {
                Some(link) => Some(link.clone()),
                None => None,
            },
            ..*self
        }
    }
}

/// The mark without any style.
pub open spec fn plain_mark() -> TextMark {
    TextMark {
        bold: false,
        italic: false,
        strikethrough: false,
        underline: false,
        code: false,
        footnote_reference: false,
        highlight: None,
        link: None,
    }
}

/// `base` with `other` layered over it: flags accumulate, and `other`'s
/// highlight and link replace `base`'s when present.
pub open spec fn merged(base: TextMark, other: TextMark) -> TextMark {
    TextMark {
        bold: base.bold || other.bold,
        italic: base.italic || other.italic,
        strikethrough: base.strikethrough || other.strikethrough,
        underline: base.underline || other.underline,
        code: base.code || other.code,
        footnote_reference: base.footnote_reference || other.footnote_reference,
        highlight: if other.highlight is Some {
            other.highlight
        } else {
            base.highlight
        },
        link: if other.link is Some {
            other.link
        } else {
            base.link
        },
    }
}

impl Default for TextMark {
    fn default() -> (mark: Self)
        ensures
            mark == plain_mark(),
    {
        TextMark {
            bold: false,
            italic: false,
            strikethrough: false,
            underline: false,
            code: false,
            footnote_reference: false,
            highlight: None,
            link: None,
        }
    }
}

impl TextMark {
    pub fn bold(self) -> (mark: Self)
        ensures
            mark == (TextMark { bold: true, ..self }),
    {
        TextMark { bold: true, ..self }
    }

    pub fn italic(self) -> (mark: Self)
        ensures
            mark == (TextMark { italic: true, ..self }),
    {
        TextMark { italic: true, ..self }
    }

    pub fn strikethrough(self) -> (mark: Self)
        ensures
            mark == (TextMark { strikethrough: true, ..self }),
    {
        TextMark { strikethrough: true, ..self }
    }

    pub fn underline(self) -> (mark: Self)
        ensures
            mark == (TextMark { underline: true, ..self }),
    {
        TextMark { underline: true, ..self }
    }

    pub fn code(self) -> (mark: Self)
        ensures
            mark == (TextMark { code: true, ..self }),
    {
        TextMark { code: true, ..self }
    }

    /// Mark the text as highlighted (`<mark>`) with the given background color.
    pub fn highlight(self, color: u32) -> (mark: Self)
        ensures
            mark == (TextMark { highlight: Some(color), ..self }),
    {
        TextMark { highlight: Some(color), ..self }
    }

    pub fn link(self, link: LinkMark) -> (mark: Self)
        ensures
            mark == (TextMark { link: Some(link), ..self }),
    {
        TextMark { link: Some(link), ..self }
    }

    /// Layer `other` over this mark.
    pub fn merge(&mut self, other: TextMark)
        ensures
            *final(self) == merged(*old(self), other),
    {
        self.bold = self.bold || other.bold;
        self.italic = self.italic || other.italic;
        self.strikethrough = self.strikethrough || other.strikethrough;
        self.underline = self.underline || other.underline;
        self.code = self.code || other.code;
        self.footnote_reference = self.footnote_reference || other.footnote_reference;
        if other.highlight.is_some() {
            self.highlight = other.highlight;
        }
        if other.link.is_some() {
            self.link = other.link;
        }
    }
}

/// Layering marks is associative, so folding overlapping marks in order does
/// not depend on how the fold is grouped.
pub proof fn lemma_merge_associative(a: TextMark, b: TextMark, c: TextMark)
    ensures
        merged(merged(a, b), c) == merged(a, merged(b, c)),
{
}

/// The plain mark is neutral on both sides of a merge.
pub proof fn lemma_merge_plain_is_neutral(a: TextMark)
    ensures
        merged(plain_mark(), a) == a,
        merged(a, plain_mark()) == a,
{
}

/// Merging a mark into itself changes nothing.
pub proof fn lemma_merge_idempotent(a: TextMark)
    ensures
        merged(a, a) == a,
{
}

/// A byte span of canonical source.
#[derive(Debug, Default, Copy, Clone, PartialEq)]
pub struct Span {
    pub start: usize,
    pub end: usize,
}

/// An inline image. Its explicit width and height are layout lengths of the
/// renderer and are not part of this model.
#[derive(Debug, Default, Clone, PartialEq)]
pub struct ImageNode {
    pub url: String,
    pub link: Option<LinkMark>,
    pub title: Option<String>,
    pub alt: Option<String>,
}

impl ImageNode {
    /// The tooltip of the image: its title, else its alt text, else empty.
    pub fn title(&self) -> (title: String)
        ensures
            title@ == match self.title {
                Some(t) => t@,
                None => match self.alt {
                    Some(a) => a@,
                    None => Seq::<char>::empty(),
                },
            },
    {
        match &self.title {
            Some(title) => title.clone(),
            None => match &self.alt {
                Some(alt) => alt.clone(),
                None => String::new(),
            },
        }
    }
}

/// One inline run of rendered text with its marks and canonical source range.
#[derive(Debug, Default, Clone)]
pub struct InlineNode {
    /// The rendered text.
    pub text: String,
    pub image: Option<ImageNode>,
    /// Text styles, each over a byte range of `text`.
    pub marks: Vec<(Range<usize>, TextMark)>,
    /// The canonical source bytes this node was produced from.
    pub source_range: Option<Range<usize>>,
}

/// The source range that a rendered range `rendered` of a node maps to:
/// offset into the node's source when the source and the text have the same
/// length, the whole source range otherwise; nothing for an empty rendered
/// range in that case, or without a source range.
pub open spec fn mapped_source_range(
    source: Option<Range<usize>>,
    text_len: nat,
    rendered: Range<usize>,
) -> Seq<Range<usize>> {
    match source {
        None => Seq::empty(),
        Some(src) => if (if src.end >= src.start {
            src.end - src.start
        } else {
            0
        }) == text_len {
            seq![((src.start + rendered.start) as usize)..((src.start + rendered.end) as usize)]
        } else if rendered.start < rendered.end {
            seq![src]
        } else {
            Seq::empty()
        },
    }
}

/// Append the source range of `rendered` bytes of `node`.
pub fn push_mapped_source_range(ranges: &mut Vec<Range<usize>>, node: &InlineNode, rendered: Range<usize>)
    requires
        rendered.start <= rendered.end,
        node.source_range matches Some(src) ==> src.start + rendered.end <= usize::MAX,
    ensures
        final(ranges)@ == old(ranges)@ + mapped_source_range(
            node.source_range,
            utf8_len_of(node.text@),
            rendered,
        ),
{
    let source = match &node.source_range {
        Some(source) => source,
        None => {
            proof {
                assert(old(ranges)@ + Seq::<Range<usize>>::empty() =~= old(ranges)@);
            }
            return ;
        },
    };
    let source_len = if source.end >= source.start {
        source.end - source.start
    } else {
        0
    };
    let text_len = node.text.len();
    if source_len == text_len {
        ranges.push((source.start + rendered.start)..(source.start + rendered.end));
    } else if rendered.start < rendered.end {
        ranges.push(source.start..source.end);
    }
    proof {
        assert(final(ranges)@ =~= old(ranges)@ + mapped_source_range(
            node.source_range,
            utf8_len_of(node.text@),
            rendered,
        ));
    }
}

pub open spec fn clamp_to(x: int, lo: int, hi: int) -> int {
    if x < lo {
        lo
    } else if x > hi {
        hi
    } else {
        x
    }
}

/// Source ranges of a paragraph-level selection over the rendered text of
/// `children`, the first of which starts at rendered offset `offset`.
pub open spec fn selection_source_ranges(
    children: Seq<InlineNode>,
    selection: Range<usize>,
    offset: int,
) -> Seq<Range<usize>>
    decreases children.len(),
{
    if children.len() == 0 {
        Seq::empty()
    } else {
        let child = children[0];
        let child_end = offset + utf8_len_of(child.text@);
        let start = if child_end < offset { child_end } else { clamp_to(selection.start as int, offset, child_end) };
        let end = if child_end < offset { child_end } else { clamp_to(selection.end as int, offset, child_end) };
        (if start < end {
            mapped_source_range(
                child.source_range,
                utf8_len_of(child.text@),
                ((start - offset) as usize)..((end - offset) as usize),
            )
        } else {
            Seq::empty()
        }) + selection_source_ranges(children.drop_first(), selection, child_end)
    }
}

/// Total rendered length of `children`.
pub open spec fn rendered_len(children: Seq<InlineNode>) -> nat
    decreases children.len(),
{
    if children.len() == 0 {
        0
    } else {
        utf8_len_of(children[0].text@) + rendered_len(children.drop_first())
    }
}

/// Append the canonical source ranges that the paragraph-level `selection`
/// covers in `children`.
pub fn push_selection_source_ranges(
    ranges: &mut Vec<Range<usize>>,
    children: &Vec<InlineNode>,
    selection: Range<usize>,
)
    requires
        rendered_len(children@) <= usize::MAX,
        forall|i: int|
            0 <= i < children@.len() ==> ((#[trigger] children@[i]).source_range matches Some(src)
                ==> src.start + utf8_len_of(children@[i].text@) <= usize::MAX),
    ensures
        final(ranges)@ == old(ranges)@ + selection_source_ranges(children@, selection, 0),
{
    let mut offset: usize = 0;
    let mut i: usize = 0;
    proof {
        assert(children@.skip(0) =~= children@);
        assert(old(ranges)@ + Seq::<Range<usize>>::empty() =~= old(ranges)@);
    }
    while i < children.len()
        invariant
            i <= children@.len(),
            offset + rendered_len(children@.skip(i as int)) == rendered_len(children@),
            rendered_len(children@) <= usize::MAX,
            forall|j: int|
                0 <= j < children@.len() ==> ((#[trigger] children@[j]).source_range matches Some(src)
                    ==> src.start + utf8_len_of(children@[j].text@) <= usize::MAX),
            ranges@ + selection_source_ranges(children@.skip(i as int), selection, offset as int)
                == old(ranges)@ + selection_source_ranges(children@, selection, 0),
        decreases children.len() - i,
    {
        let child = &children[i];
        let ghost rest = children@.skip(i as int);
        assert(rest[0] == *child);
        assert(rest.drop_first() =~= children@.skip(i + 1));
        let child_len = child.text.len();
        let child_end = offset + child_len;
        let start = if selection.start < offset {
            offset
        } else if selection.start > child_end {
            child_end
        } else {
            selection.start
        };
        let end = if selection.end < offset {
            offset
        } else if selection.end > child_end {
            child_end
        } else {
            selection.end
        };
        let ghost before = ranges@;
        if start < end {
            push_mapped_source_range(ranges, child, (start - offset)..(end - offset));
        }
        proof {
            if start < end {
                assert(ranges@ + selection_source_ranges(children@.skip(i + 1), selection, child_end as int)
                    =~= before + selection_source_ranges(rest, selection, offset as int));
            } else {
                assert(ranges@ + selection_source_ranges(children@.skip(i + 1), selection, child_end as int)
                    =~= before + selection_source_ranges(rest, selection, offset as int));
            }
        }
        offset = child_end;
        i += 1;
    }
    proof {
        assert(children@.skip(i as int) =~= Seq::<InlineNode>::empty());
        assert(ranges@ =~= ranges@ + selection_source_ranges(children@.skip(i as int), selection, offset as int));
    }
}

/// For each canonical search range overlapping `source`, the rendered range of
/// a node with `text_len` bytes it highlights, and whether it is the active match.
pub open spec fn search_highlights(
    source: Range<usize>,
    text_len: nat,
    matches: Seq<Range<usize>>,
    active: Option<usize>,
    from: int,
) -> Seq<(Range<usize>, bool)>
    decreases matches.len() - from,
{
    if from < 0 || from >= matches.len() {
        Seq::empty()
    } else {
        let matched = matches[from];
        let start = if source.start >= matched.start { source.start } else { matched.start };
        let end = if source.end <= matched.end { source.end } else { matched.end };
        let source_len = if source.end >= source.start { source.end - source.start } else { 0 };
        let here = if start >= end {
            Seq::empty()
        } else if source_len == text_len {
            seq![(((start - source.start) as usize)..((end - source.start) as usize), active == Some(from as usize))]
        } else {
            seq![((0usize)..(text_len as usize), active == Some(from as usize))]
        };
        here + search_highlights(source, text_len, matches, active, from + 1)
    }
}

/// Map canonical-source search ranges into one rendered inline text node.
pub fn mapped_search_ranges(
    inline_node: &InlineNode,
    search_matches: &Vec<Range<usize>>,
    active_search_match: Option<usize>,
) -> (mapped: Vec<(Range<usize>, bool)>)
    ensures
        mapped@ == match inline_node.source_range {
            None => Seq::empty(),
            Some(source) => search_highlights(
                source,
                utf8_len_of(inline_node.text@),
                search_matches@,
                active_search_match,
                0,
            ),
        },
{
    let source = match &inline_node.source_range {
        Some(source) => source,
        None => return Vec::new(),
    };
    let source_len = if source.end >= source.start {
        source.end - source.start
    } else {
        0
    };
    let text_len = inline_node.text.len();
    let mut mapped: Vec<(Range<usize>, bool)> = Vec::new();
    let mut index: usize = 0;
    while index < search_matches.len()
        invariant
            index <= search_matches@.len(),
            text_len == utf8_len_of(inline_node.text@),
            source_len == if source.end >= source.start { source.end - source.start } else { 0 },
            mapped@ + search_highlights(*source, text_len as nat, search_matches@, active_search_match, index as int)
                == search_highlights(*source, text_len as nat, search_matches@, active_search_match, 0),
        decreases search_matches.len() - index,
    {
        let matched = &search_matches[index];
        let start = if source.start >= matched.start {
            source.start
        } else {
            matched.start
        };
        let end = if source.end <= matched.end {
            source.end
        } else {
            matched.end
        };
        let ghost before = mapped@;
        if start < end {
            let is_active = match active_search_match {
                Some(active) => active == index,
                None => false,
            };
            if source_len == text_len {
                mapped.push(((start - source.start)..(end - source.start), is_active));
            } else {
                mapped.push((0..text_len, is_active));
            }
        }
        proof {
            assert(mapped@ + search_highlights(*source, text_len as nat, search_matches@, active_search_match, index + 1)
                =~= before + search_highlights(*source, text_len as nat, search_matches@, active_search_match, index as int));
        }
        index += 1;
    }
    proof {
        assert(mapped@ =~= mapped@ + search_highlights(*source, text_len as nat, search_matches@, active_search_match, index as int));
    }
    mapped
}

/// Mermaid diagram kinds that the renderer supports.
pub open spec fn mermaid_kinds() -> Seq<Seq<char>> {
    seq![
        "flowchart"@,
        "graph"@,
        "sequenceDiagram"@,
        "classDiagram"@,
        "stateDiagram"@,
        "stateDiagram-v2"@,
        "erDiagram"@,
        "gantt"@,
        "pie"@,
        "gitGraph"@,
        "mindmap"@,
        "timeline"@,
        "quadrantChart"@,
        "xychart-beta"@,
        "journey"@,
    ]
}

/// `c` with ASCII uppercase letters mapped to lowercase.
pub open spec fn ascii_lower(c: char) -> char {
    if 'A' <= c <= 'Z' {
        ((c as u32) + 32) as char
    } else {
        c
    }
}

/// Whether `a` and `b` are equal ignoring ASCII case.
pub open spec fn eq_ignore_ascii_case(a: Seq<char>, b: Seq<char>) -> bool {
    a.len() == b.len() && forall|i: int| 0 <= i < a.len() ==> ascii_lower(#[trigger] a[i]) == ascii_lower(b[i])
}

/// The characters of `s` before its first whitespace.
pub open spec fn first_token(s: Seq<char>) -> Seq<char>
    decreases s.len(),
{
    if s.len() == 0 || is_whitespace(s[0]) {
        Seq::empty()
    } else {
        seq![s[0]] + first_token(s.drop_first())
    }
}

pub(crate) fn ascii_lowercase(c: char) -> (lower: char)
    ensures
        lower == ascii_lower(c),
{
    if 'A' <= c && c <= 'Z' {
        let code = c as u8;
        (code + 32) as char
    } else {
        c
    }
}

/// The character of the standard base64 alphabet (RFC 4648) for the
/// six-bit value `v`.
pub open spec fn base64_digit(v: int) -> char {
    if v < 26 {
        ('A' as int + v) as char
    } else if v < 52 {
        ('a' as int + v - 26) as char
    } else if v < 62 {
        ('0' as int + v - 52) as char
    } else if v == 62 {
        '+'
    } else {
        '/'
    }
}

/// The standard base64 encoding of `bytes` with `=` padding: each group of
/// three bytes becomes four characters, a final group of one or two bytes
/// becomes two or three characters followed by padding to four.
pub open spec fn standard_base64(bytes: Seq<u8>) -> Seq<char>
    decreases bytes.len(),
{
    if bytes.len() == 0 {
        Seq::empty()
    } else if bytes.len() == 1 {
        let b0 = bytes[0] as int;
        seq![base64_digit(b0 / 4), base64_digit((b0 % 4) * 16), '=', '=']
    } else if bytes.len() == 2 {
        let b0 = bytes[0] as int;
        let b1 = bytes[1] as int;
        seq![base64_digit(b0 / 4), base64_digit((b0 % 4) * 16 + b1 / 16), base64_digit((b1 % 16) * 4), '=']
    } else {
        let b0 = bytes[0] as int;
        let b1 = bytes[1] as int;
        let b2 = bytes[2] as int;
        seq![
            base64_digit(b0 / 4),
            base64_digit((b0 % 4) * 16 + b1 / 16),
            base64_digit((b1 % 16) * 4 + b2 / 64),
            base64_digit(b2 % 64),
        ] + standard_base64(bytes.skip(3))
    }
}

/// Encodes the UTF-8 bytes of `text` with `base64`'s `STANDARD` engine
/// (`Engine::encode`): the RFC 4648 alphabet with `=` padding, as
/// [`standard_base64`] states it. The engine panics only when the encoded
/// length overflows a `usize`, which the bound rules out.
#[verifier::external_body]
fn base64_encode(text: &str) -> (encoded: String)
    requires
        encode_utf8(text@).len() <= usize::MAX / 2,
    ensures
        encoded@ == standard_base64(encode_utf8(text@)),
{
    base64::Engine::encode(&base64::engine::general_purpose::STANDARD, text)
}

/// The `data:` URI of an SVG image whose markup is `svg`, base64-encoded.
pub fn svg_data_uri(svg: &str) -> (uri: String)
    requires
        encode_utf8(svg@).len() <= usize::MAX / 2,
    ensures
        uri@ == "data:image/svg+xml;base64,"@ + standard_base64(encode_utf8(svg@)),
{
    let encoded = base64_encode(svg);
    let mut uri = String::from_str("data:image/svg+xml;base64,");
    uri.append(encoded.as_str());
    uri
}

/// Restrict Mermaid rendering to the diagram types the renderer supports:
/// the first whitespace-separated token of the source must name one,
/// ignoring ASCII case.
pub fn is_supported_mermaid_diagram(source: &str) -> (supported: bool)
    ensures
        supported == exists|k: int|
            0 <= k < mermaid_kinds().len() && eq_ignore_ascii_case(
                first_token(trim_start(source@)),
                #[trigger] mermaid_kinds()[k],
            ),
{
    let kinds: [&str; 15] = [
        "flowchart",
        "graph",
        "sequenceDiagram",
        "classDiagram",
        "stateDiagram",
        "stateDiagram-v2",
        "erDiagram",
        "gantt",
        "pie",
        "gitGraph",
        "mindmap",
        "timeline",
        "quadrantChart",
        "xychart-beta",
        "journey",
    ];
    let chars = chars_of(source);
    let start = trimmed_start(&chars, 0, chars.len());
    assert(chars@.subrange(0, chars@.len() as int) =~= chars@);
    let mut end = start;
    while end < chars.len() && !char_is_whitespace(chars[end])
        invariant
            start <= end <= chars@.len(),
            first_token(chars@.subrange(start as int, chars@.len() as int)) == chars@.subrange(
                start as int,
                end as int,
            ) + first_token(chars@.subrange(end as int, chars@.len() as int)),
        decreases chars.len() - end,
    {
        assert(chars@.subrange(end as int, chars@.len() as int).drop_first() =~= chars@.subrange(
            end + 1,
            chars@.len() as int,
        ));
        assert(chars@.subrange(start as int, end + 1) =~= chars@.subrange(start as int, end as int)
            + seq![chars@[end as int]]);
        end += 1;
    }
    let ghost token = chars@.subrange(start as int, end as int);
    assert(token =~= first_token(trim_start(source@))) by {
        assert(first_token(chars@.subrange(end as int, chars@.len() as int)) =~= Seq::<char>::empty());
    }
    assert(kinds@.map_values(|k: &str| k@) =~= mermaid_kinds());
    let mut k: usize = 0;
    while k < 15
        invariant
            k <= 15,
            kinds@.map_values(|k: &str| k@) == mermaid_kinds(),
            token == chars@.subrange(start as int, end as int),
            token == first_token(trim_start(source@)),
            start <= end <= chars@.len(),
            forall|j: int| 0 <= j < k ==> !eq_ignore_ascii_case(token, #[trigger] mermaid_kinds()[j]),
        decreases 15 - k,
    {
        let kind = kinds[k];
        assert(kind@ == mermaid_kinds()[k as int]);
        let n = kind.unicode_len();
        if n == end - start {
            let mut i: usize = 0;
            let mut same = true;
            while i < n
                invariant
                    i <= n == kind@.len() == end - start,
                    start <= end <= chars@.len(),
                    token == chars@.subrange(start as int, end as int),
                    same == forall|m: int| 0 <= m < i ==> ascii_lower(#[trigger] token[m]) == ascii_lower(kind@[m]),
                decreases n - i,
            {
                assert(chars@[start + i] == token[i as int]);
                if ascii_lowercase(chars[start + i]) != ascii_lowercase(kind.get_char(i)) {
                    same = false;
                }
                i += 1;
            }
            if same {
                assert(eq_ignore_ascii_case(token, mermaid_kinds()[k as int]));
                return true;
            }
        }
        k += 1;
    }
    false
}

#[verifier::external_type_specification]
#[verifier::external_body]
pub struct ExRope(ropey::Rope);

/// The text a rope holds.
pub uninterp spec fn rope_contents(rope: Rope) -> Seq<char>;

/// Trusted: renders the rope with `Rope`'s `Display` (`to_string`), which
/// writes its chunks in order, that is, the text the rope holds.
#[verifier::external_body]
fn rope_text(rope: &Rope) -> (text: String)
    ensures
        text@ == rope_contents(*rope),
{
    rope.to_string()
}

/// Length of the longest run of equal leading bytes of `a` and `b`, from `k` on.
pub open spec fn matching_prefix(a: Seq<u8>, b: Seq<u8>, k: int) -> int
    decreases a.len() - k,
{
    if k < 0 || k >= a.len() || k >= b.len() || a[k] != b[k] {
        k
    } else {
        matching_prefix(a, b, k + 1)
    }
}

/// The largest `k <= n` that is a character boundary of both `a` and `b`, or 0.
pub open spec fn common_boundary_at_most(a: Seq<u8>, b: Seq<u8>, n: int) -> int
    decreases n,
{
    if n <= 0 || (is_char_boundary(a, n) && is_char_boundary(b, n)) {
        if n <= 0 { 0 } else { n }
    } else {
        common_boundary_at_most(a, b, n - 1)
    }
}

/// Return the longest shared prefix, ending on a UTF-8 boundary of both
/// texts, between cached and current code, in bytes.
pub fn common_prefix_len(previous: &Rope, current: &str) -> (len: usize)
    ensures
        len == common_boundary_at_most(
            encode_utf8(rope_contents(*previous)),
            current.spec_bytes(),
            matching_prefix(encode_utf8(rope_contents(*previous)), current.spec_bytes(), 0),
        ),
{
    let previous = rope_text(previous);
    let left = previous.as_str().as_bytes();
    let right = current.as_bytes();
    let mut prefix: usize = 0;
    while prefix < left.len() && prefix < right.len() && left[prefix] == right[prefix]
        invariant
            prefix <= left@.len(),
            prefix <= right@.len(),
            matching_prefix(left@, right@, 0) == matching_prefix(left@, right@, prefix as int),
        decreases left.len() - prefix,
    {
        prefix += 1;
    }
    let ghost matched = prefix;
    while prefix > 0 && (!previous.as_str().is_char_boundary(prefix) || !current.is_char_boundary(prefix))
        invariant
            prefix <= matched,
            left@ == encode_utf8(previous@),
            right@ == current.spec_bytes(),
            common_boundary_at_most(left@, right@, matched as int) == common_boundary_at_most(
                left@,
                right@,
                prefix as int,
            ),
        decreases prefix,
    {
        prefix -= 1;
    }
    prefix
}

} // verus!
