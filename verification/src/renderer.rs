use std::ops::Range;
use vstd::prelude::*;
use vstd::string::StringSliceAdditionalSpecFns;
use vstd::utf8::is_char_boundary;

use crate::node::TextMark;
use crate::unicode::{
    char_is_alphanumeric, char_is_whitespace, char_to_lowercase, chars_of, is_alphanumeric,
    is_whitespace, lowercase, trim_end, trim_start, trimmed_end, trimmed_start,
};

verus! {

broadcast use vstd::string::group_string_axioms;

/// What one character of a heading contributes to its slug: itself in
/// lowercase when alphanumeric, `-` or `_`; a `-` for whitespace; nothing else.
pub open spec fn slug_char(c: char) -> Seq<char> {
    if is_alphanumeric(c) || c == '-' || c == '_' {
        seq![lowercase(c)[0]]
    } else if is_whitespace(c) {
        seq!['-']
    } else {
        Seq::empty()
    }
}

/// The slug of the characters `s`.
pub open spec fn slug_of(s: Seq<char>) -> Seq<char>
    decreases s.len(),
{
    if s.len() == 0 {
        Seq::empty()
    } else {
        slug_of(s.drop_last()) + slug_char(s.last())
    }
}

/// Anchor slug of a heading: the trimmed text, lowercased, with whitespace
/// turned into `-` and other punctuation dropped.
pub fn heading_slug(text: &str) -> (slug: String)
    ensures
        slug@ == slug_of(trim_start(trim_end(text@))),
{
    let chars = chars_of(text);
    let end = trimmed_end(&chars, 0, chars.len());
    let start = trimmed_start(&chars, 0, end);
    proof {
        assert(chars@.subrange(0, chars@.len() as int) =~= chars@);
    }
    let ghost trimmed = chars@.subrange(start as int, end as int);
    let mut slug = String::new();
    let mut j = start;
    while j < end
        invariant
            start <= j <= end <= chars@.len(),
            trimmed == chars@.subrange(start as int, end as int),
            slug@ == slug_of(chars@.subrange(start as int, j as int)),
        decreases end - j,
    {
        let c = chars[j];
        if char_is_alphanumeric(c) || c == '-' || c == '_' {
            let lower = char_to_lowercase(c);
            slug.push(lower[0]);
        } else if char_is_whitespace(c) {
            slug.push('-');
        }
        proof {
            let next = chars@.subrange(start as int, j + 1);
            assert(next.drop_last() =~= chars@.subrange(start as int, j as int));
            assert(next.last() == c);
            assert(slug@ =~= slug_of(next));
        }
        j += 1;
    }
    slug
}

/// The slug of a text is the slug of its first part followed by that of the
/// rest: each character contributes on its own.
pub proof fn lemma_slug_of_concat(a: Seq<char>, b: Seq<char>)
    ensures
        slug_of(a + b) == slug_of(a) + slug_of(b),
    decreases b.len(),
{
    if b.len() == 0 {
        assert(a + b =~= a);
        assert(slug_of(a) + Seq::<char>::empty() =~= slug_of(a));
    } else {
        assert((a + b).drop_last() =~= a + b.drop_last());
        assert((a + b).last() == b.last());
        lemma_slug_of_concat(a, b.drop_last());
        assert(slug_of(a) + (slug_of(b.drop_last()) + slug_char(b.last())) =~= (slug_of(a) + slug_of(
            b.drop_last(),
        )) + slug_char(b.last()));
    }
}

/// Slug of a single character.
proof fn lemma_slug_of_one(c: char)
    ensures
        slug_of(seq![c]) == slug_char(c),
{
    assert(seq![c].drop_last() =~= Seq::<char>::empty());
    assert(seq![c].last() == c);
    assert(slug_of(Seq::<char>::empty()) =~= Seq::<char>::empty());
    assert(slug_of(seq![c]) == slug_of(Seq::<char>::empty()) + slug_char(c));
    assert(Seq::<char>::empty() + slug_char(c) =~= slug_char(c));
}

/// Between two parts of a heading, a character that is neither alphanumeric,
/// `-`, `_` nor whitespace (punctuation such as `,` or `!`) leaves no trace in
/// the slug; whitespace becomes exactly one `-`; an alphanumeric character,
/// `-` or `_` is kept as the first character of its lowercase form.
pub proof fn lemma_slug_of_character_between(a: Seq<char>, c: char, b: Seq<char>)
    ensures
        !is_alphanumeric(c) && c != '-' && c != '_' && !is_whitespace(c) ==> slug_of(a + seq![c] + b)
            == slug_of(a + b),
        !is_alphanumeric(c) && is_whitespace(c) ==> slug_of(a + seq![c] + b) == slug_of(a) + seq!['-']
            + slug_of(b),
        is_alphanumeric(c) || c == '-' || c == '_' ==> slug_of(a + seq![c] + b) == slug_of(a) + seq![
            lowercase(c)[0],
        ] + slug_of(b),
{
    lemma_slug_of_concat(a + seq![c], b);
    lemma_slug_of_concat(a, seq![c]);
    lemma_slug_of_concat(a, b);
    lemma_slug_of_one(c);
    if !is_alphanumeric(c) && c != '-' && c != '_' && !is_whitespace(c) {
        assert(slug_of(a) + Seq::<char>::empty() =~= slug_of(a));
    }
}

/// How a pointer selection extends.
#[derive(Clone, Copy, Debug, Default, PartialEq, Eq)]
pub enum SelectionMode {
    #[default]
    Character,
    Word,
    Line,
    All,
}

/// A selection between two canonical source offsets.
#[derive(Clone, Debug, Default, PartialEq, Eq)]
pub struct Selection {
    pub anchor: usize,
    pub head: usize,
    pub pending: bool,
    pub mode: SelectionMode,
}

impl Selection {
    /// The selected offsets, ordered.
    pub fn range(&self) -> (range: Range<usize>)
        ensures
            range.start == if self.anchor <= self.head { self.anchor } else { self.head },
            range.end == if self.anchor <= self.head { self.head } else { self.anchor },
    {
        let start = if self.anchor <= self.head {
            self.anchor
        } else {
            self.head
        };
        let end = if self.anchor <= self.head {
            self.head
        } else {
            self.anchor
        };
        start..end
    }
}

/// Removes only the terminal newline introduced before a Markdown closing fence.
pub fn code_block_display_text(code: &str) -> (display: String)
    ensures
        display@ == if code@.len() > 0 && code@.last() == '\n' {
            code@.drop_last()
        } else {
            code@
        },
{
    let n = code.unicode_len();
    if n > 0 && code.get_char(n - 1) == '\n' {
        String::from_str(code.substring_char(0, n - 1))
    } else {
        String::from_str(code)
    }
}

/// Assigns deterministic canonical ranges to visible HTML content: each
/// allocation continues where the previous one ended, stays inside the
/// block's range and the source, and ends on a character boundary.
pub struct HtmlSourceAllocator<'a> {
    source: &'a str,
    range: Range<usize>,
    next: usize,
}

/// Where an allocation of `requested` bytes from `start` ends: clamped to
/// `limit` and moved down to a character boundary, never below `start`.
pub open spec fn allocation_end(b: Seq<u8>, start: int, requested: int, limit: int) -> int
    decreases requested,
{
    let want = if start + requested < limit {
        start + requested
    } else {
        limit
    };
    allocation_floor(b, start, want)
}

/// The largest character boundary in `start..=end`, or `start`.
pub open spec fn allocation_floor(b: Seq<u8>, start: int, end: int) -> int
    decreases end - start,
{
    if end <= start || is_char_boundary(b, end) {
        end
    } else {
        allocation_floor(b, start, end - 1)
    }
}

/// The style runs of a code block's text of `len` bytes from highlight
/// number `i` on, the text before `cursor` already covered: each highlight,
/// clamped to the text, is preceded by a plain run over any gap and gives a
/// run of its own when not empty; a plain run covers what is left after the
/// last.
pub open spec fn code_runs_from<T>(len: usize, highlights: Seq<(Range<usize>, T)>, i: int, cursor: usize) -> Seq<
    (usize, Option<T>),
>
    decreases highlights.len() - i,
{
    if i < 0 || i >= highlights.len() {
        if cursor < len {
            seq![((len - cursor) as usize, None)]
        } else {
            Seq::empty()
        }
    } else {
        let start = if highlights[i].0.start < len {
            highlights[i].0.start
        } else {
            len
        };
        let end = if highlights[i].0.end < len {
            highlights[i].0.end
        } else {
            len
        };
        let gap = if cursor < start {
            seq![((start - cursor) as usize, None)]
        } else {
            Seq::empty()
        };
        let run = if start < end {
            seq![((end - start) as usize, Some(highlights[i].1))]
        } else {
            Seq::empty()
        };
        gap + run + code_runs_from(
            len,
            highlights,
            i + 1,
            if cursor < end {
                end
            } else {
                cursor
            },
        )
    }
}

/// The style runs of a code block's text of `len` bytes under
/// `highlights`, each a length with its highlight (`None` for plain text);
/// one plain run over the whole text when there would be none.
pub open spec fn code_runs<T>(len: usize, highlights: Seq<(Range<usize>, T)>) -> Seq<(usize, Option<T>)> {
    let runs = code_runs_from(len, highlights, 0, 0);
    if runs.len() == 0 {
        seq![(len, None)]
    } else {
        runs
    }
}

/// Splits a code block's text of `len` bytes into style runs under its
/// syntax highlights (see [`code_runs`]).
pub fn code_block_runs<T: Copy>(len: usize, highlights: &Vec<(Range<usize>, T)>) -> (runs: Vec<(usize, Option<T>)>)
    ensures
        runs@ == code_runs(len, highlights@),
{
    let mut runs: Vec<(usize, Option<T>)> = Vec::new();
    let mut cursor: usize = 0;
    let mut i: usize = 0;
    while i < highlights.len()
        invariant
            i <= highlights@.len(),
            runs@ + code_runs_from(len, highlights@, i as int, cursor) == code_runs_from(len, highlights@, 0, 0),
        decreases highlights.len() - i,
    {
        let range = &highlights[i].0;
        let start = if range.start < len { range.start } else { len };
        let end = if range.end < len { range.end } else { len };
        let ghost before = runs@;
        let ghost c0 = cursor;
        if cursor < start {
            runs.push((start - cursor, None));
        }
        if start < end {
            runs.push((end - start, Some(highlights[i].1)));
        }
        if cursor < end {
            cursor = end;
        }
        proof {
            assert(runs@ + code_runs_from(len, highlights@, i + 1, cursor) =~= before + code_runs_from(
                len,
                highlights@,
                i as int,
                c0,
            ));
        }
        i += 1;
    }
    if cursor < len {
        runs.push((len - cursor, None));
    }
    proof {
        assert(runs@ =~= code_runs_from(len, highlights@, 0, 0));
    }
    if runs.len() == 0 {
        runs.push((len, None));
        proof {
            assert(runs@ =~= seq![(len, None::<T>)]);
        }
    }
    runs
}

/// The largest character boundary in `start..=end` is in that range, and
/// is a boundary unless it is `start`; nothing after it up to `end` is one.
pub proof fn lemma_allocation_floor(b: Seq<u8>, start: int, end: int)
    requires
        start <= end,
    ensures
        start <= allocation_floor(b, start, end) <= end,
        allocation_floor(b, start, end) == start || is_char_boundary(b, allocation_floor(b, start, end)),
        forall|j: int| allocation_floor(b, start, end) < j <= end ==> !is_char_boundary(b, j),
    decreases end - start,
{
    if !(end <= start || is_char_boundary(b, end)) {
        lemma_allocation_floor(b, start, end - 1);
    }
}

/// Where an allocator's allocations stop: the end of its block, or of its
/// source if that comes first.
pub open spec fn allocator_limit<'a>(a: HtmlSourceAllocator<'a>) -> int {
    if a.block().end <= a.source_text().len() {
        a.block().end as int
    } else {
        a.source_text().len() as int
    }
}

/// What `allocate(requested)` does: the range from where the allocator
/// stands to the largest character boundary within the request and the
/// limit, after which the allocator stands at its end.
pub open spec fn allocate_rel<'a>(
    before: HtmlSourceAllocator<'a>,
    after: HtmlSourceAllocator<'a>,
    requested: usize,
    allocated: Range<usize>,
) -> bool {
    &&& after.source_text() == before.source_text()
    &&& after.block() == before.block()
    &&& allocated.start == before.next_offset()
    &&& allocated.end == allocation_end(
        before.source_text().spec_bytes(),
        before.next_offset() as int,
        requested as int,
        allocator_limit(before),
    )
    &&& after.next_offset() == allocated.end
}

/// Whether `states` are an allocator before and after each allocation of
/// `requests`, which returned `ranges`.
pub open spec fn is_allocation_trace<'a>(
    states: Seq<HtmlSourceAllocator<'a>>,
    requests: Seq<usize>,
    ranges: Seq<Range<usize>>,
) -> bool {
    &&& states.len() == requests.len() + 1
    &&& ranges.len() == requests.len()
    &&& forall|i: int| 0 <= i < requests.len() ==> allocate_rel(states[i], states[i + 1], #[trigger] requests[i], ranges[i])
}

proof fn lemma_allocation_states<'a>(
    states: Seq<HtmlSourceAllocator<'a>>,
    requests: Seq<usize>,
    ranges: Seq<Range<usize>>,
    n: int,
)
    requires
        is_allocation_trace(states, requests, ranges),
        0 <= n <= requests.len(),
        states[0].block().start <= states[0].next_offset() <= allocator_limit(states[0]),
        is_char_boundary(states[0].source_text().spec_bytes(), states[0].next_offset() as int),
    ensures
        states[n].source_text() == states[0].source_text(),
        states[n].block() == states[0].block(),
        states[0].next_offset() <= states[n].next_offset() <= allocator_limit(states[0]),
        is_char_boundary(states[0].source_text().spec_bytes(), states[n].next_offset() as int),
    decreases n,
{
    if n > 0 {
        lemma_allocation_states(states, requests, ranges, n - 1);
        let a = states[n - 1];
        assert(allocate_rel(a, states[n], requests[n - 1], ranges[n - 1]));
        let start = a.next_offset() as int;
        let limit = allocator_limit(a);
        let want = if start + requests[n - 1] < limit {
            start + requests[n - 1]
        } else {
            limit
        };
        lemma_allocation_floor(a.source_text().spec_bytes(), start, want);
    }
}

/// Successive allocations from a new allocator are contiguous: the first
/// starts where the block does and each starts where the one before ended;
/// all lie inside the block and the source, and each ends on a character
/// boundary, the largest one its request allows.
pub proof fn lemma_allocations_are_contiguous<'a>(
    states: Seq<HtmlSourceAllocator<'a>>,
    requests: Seq<usize>,
    ranges: Seq<Range<usize>>,
)
    requires
        is_allocation_trace(states, requests, ranges),
        states[0].next_offset() == states[0].block().start,
        states[0].block().start <= allocator_limit(states[0]),
        is_char_boundary(states[0].source_text().spec_bytes(), states[0].block().start as int),
    ensures
        ranges.len() > 0 ==> ranges[0].start == states[0].block().start,
        forall|k: int| 0 <= k < ranges.len() - 1 ==> (#[trigger] ranges[k]).end == ranges[k + 1].start,
        forall|k: int|
            0 <= k < ranges.len() ==> states[0].block().start <= (#[trigger] ranges[k]).start <= ranges[k].end
                <= allocator_limit(states[0]),
        forall|k: int|
            0 <= k < ranges.len() ==> is_char_boundary(
                states[0].source_text().spec_bytes(),
                (#[trigger] ranges[k]).end as int,
            ),
        forall|k: int|
            0 <= k < ranges.len() ==> (#[trigger] ranges[k]).end == allocation_end(
                states[0].source_text().spec_bytes(),
                ranges[k].start as int,
                requests[k] as int,
                allocator_limit(states[0]),
            ),
{
    assert forall|k: int| 0 <= k < ranges.len() implies ({
        &&& states[0].block().start <= (#[trigger] ranges[k]).start <= ranges[k].end <= allocator_limit(states[0])
        &&& is_char_boundary(states[0].source_text().spec_bytes(), ranges[k].end as int)
        &&& ranges[k].start == states[k].next_offset()
        &&& ranges[k].end == states[k + 1].next_offset()
        &&& ranges[k].end == allocation_end(
            states[0].source_text().spec_bytes(),
            ranges[k].start as int,
            requests[k] as int,
            allocator_limit(states[0]),
        )
    }) by {
        lemma_allocation_states(states, requests, ranges, k);
        lemma_allocation_states(states, requests, ranges, k + 1);
        assert(allocate_rel(states[k], states[k + 1], requests[k], ranges[k]));
        assert(allocator_limit(states[k]) == allocator_limit(states[0]));
        assert(ranges[k].start == states[k].next_offset());
        assert(ranges[k].end == states[k + 1].next_offset());
        assert(states[0].block().start <= ranges[k].start);
        let start = ranges[k].start as int;
        let limit = allocator_limit(states[0]);
        let want = if start + requests[k] < limit {
            start + requests[k]
        } else {
            limit
        };
        lemma_allocation_floor(states[0].source_text().spec_bytes(), start, want);
        assert(ranges[k].start <= ranges[k].end);
        assert(ranges[k].end <= allocator_limit(states[0]));
    }
    assert forall|k: int| 0 <= k < ranges.len() - 1 implies (#[trigger] ranges[k]).end == ranges[k + 1].start by {
        assert(allocate_rel(states[k], states[k + 1], requests[k], ranges[k]));
        assert(allocate_rel(states[k + 1], states[k + 2], requests[k + 1], ranges[k + 1]));
    }
    if ranges.len() > 0 {
        assert(allocate_rel(states[0], states[1], requests[0], ranges[0]));
    }
}

impl<'a> HtmlSourceAllocator<'a> {
    /// The source that ranges index into.
    pub closed spec fn source_text(self) -> &'a str {
        self.source
    }

    /// The block range that allocations stay inside.
    pub closed spec fn block(self) -> Range<usize> {
        self.range
    }

    /// Where the next allocation starts.
    pub closed spec fn next_offset(self) -> usize {
        self.next
    }

    pub fn new(source: &'a str, range: Range<usize>) -> (allocator: Self)
        ensures
            allocator.source_text() == source,
            allocator.block() == range,
            allocator.next_offset() == range.start,
    {
        HtmlSourceAllocator { source, next: range.start, range }
    }

    /// Where the next allocation starts.
    pub fn next(&self) -> (next: usize)
        ensures
            next == self.next_offset(),
    {
        self.next
    }

    /// Reserve up to `requested_len` bytes of canonical source.
    pub fn allocate(&mut self, requested_len: usize) -> (allocated: Range<usize>)
        ensures
            final(self).source_text() == old(self).source_text(),
            final(self).block() == old(self).block(),
            allocated.start == old(self).next_offset(),
            allocated.end == allocation_end(
                old(self).source_text().spec_bytes(),
                old(self).next_offset() as int,
                requested_len as int,
                if old(self).block().end <= old(self).source_text().len() {
                    old(self).block().end as int
                } else {
                    old(self).source_text().len() as int
                },
            ),
            final(self).next_offset() == allocated.end,
            allocate_rel(*old(self), *final(self), requested_len, allocated),
    {
        let start = self.next;
        let source_len = self.source.len();
        let limit = if self.range.end <= source_len {
            self.range.end
        } else {
            source_len
        };
        let mut end = if requested_len < limit && start < limit - requested_len {
            start + requested_len
        } else {
            limit
        };
        assert(end == if start + requested_len < limit { start + requested_len } else { limit as int });
        let ghost want = end;
        while end > start && !self.source.is_char_boundary(end)
            invariant
                end <= want,
                start == old(self).next,
                self.source == old(self).source,
                allocation_floor(self.source.spec_bytes(), start as int, want as int)
                    == allocation_floor(self.source.spec_bytes(), start as int, end as int),
            decreases end,
        {
            end -= 1;
        }
        self.next = end;
        start..end
    }
}

/// Inline styles of one rendered text segment.
#[derive(Clone, Copy, Debug, PartialEq, Eq)]
pub struct InlineFlags {
    pub strong: bool,
    pub emphasis: bool,
    pub strike: bool,
    pub underline: bool,
    pub code: bool,
    pub link: bool,
    pub soft_break: bool,
}

impl Default for InlineFlags {
    fn default() -> (flags: Self)
        ensures
            !flags.strong && !flags.emphasis && !flags.strike && !flags.underline && !flags.code
                && !flags.link && !flags.soft_break,
    {
        InlineFlags {
            strong: false,
            emphasis: false,
            strike: false,
            underline: false,
            code: false,
            link: false,
            soft_break: false,
        }
    }
}

/// The inline flags that an HTML text mark stands for.
pub fn html_inline_flags(mark: &TextMark) -> (flags: InlineFlags)
    ensures
        flags == (InlineFlags {
            strong: mark.bold,
            emphasis: mark.italic,
            strike: mark.strikethrough,
            underline: mark.underline,
            code: mark.code,
            link: mark.link is Some,
            soft_break: false,
        }),
{
    InlineFlags {
        strong: mark.bold,
        emphasis: mark.italic,
        strike: mark.strikethrough,
        underline: mark.underline,
        code: mark.code,
        link: mark.link.is_some(),
        soft_break: false,
    }
}

/// Rendered text with the canonical source it came from.
#[derive(Clone, Debug, PartialEq)]
pub struct TextSegment {
    pub text: String,
    pub source: Range<usize>,
    pub flags: InlineFlags,
}

/// A link over a canonical source range.
#[derive(Clone, Debug, PartialEq)]
pub struct ParsedLink {
    pub source: Range<usize>,
    pub destination: String,
}

/// Callout kinds of GitHub-style block quotes.
#[derive(Clone, Copy, Debug, PartialEq, Eq)]
pub enum CalloutKind {
    Note,
    Tip,
    Important,
    Warning,
    Caution,
}

/// Horizontal alignment of a table cell.
#[derive(Clone, Copy, Debug, PartialEq, Eq)]
pub enum CellAlign {
    Left,
    Center,
    Right,
}

/// What a text block renders as.
#[derive(Clone, Copy, Debug, PartialEq, Eq)]
pub enum TextBlockKind {
    Paragraph,
    /// A heading of level 1 to 6.
    Heading(u8),
    BlockQuote(Option<CalloutKind>),
    ListItem { depth: usize },
    HtmlTableCell { header: bool, alignment: CellAlign },
    Footnote,
    Html,
    Metadata,
}

/// An image shown inline: the placeholder segment that stands for it, its
/// source range, destination, title and alternative text.
#[derive(Clone, Debug, PartialEq)]
pub struct ParsedInlineImage {
    pub segment_index: usize,
    pub source: Range<usize>,
    pub destination: String,
    pub title: String,
    pub alt: String,
}

/// A block of source-mapped text segments, links and inline images.
#[derive(Clone, Debug, PartialEq)]
pub struct ParsedTextBlock {
    pub kind: TextBlockKind,
    pub source: Range<usize>,
    pub segments: Vec<TextSegment>,
    pub links: Vec<ParsedLink>,
    pub images: Vec<ParsedInlineImage>,
}

} // verus!
