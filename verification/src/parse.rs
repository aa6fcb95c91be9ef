use std::ops::Range;
use vstd::prelude::*;
use vstd::utf8::{encode_utf8, is_char_boundary};

use crate::document::{
    assoc_map, block_view, decimal, text_block_view, BlockView, CellView, CodeBlockView, ImageView,
    HtmlBlockView, HtmlImage, MarkdownOptions, ParsedHtml, ParsedBlock, ParsedMarkdown, ParsedTableKind, TableView, TextBlockView,
};
use crate::events::{markdown_events, markdown_events_of, ParserExtensions};
use crate::links::{links_only_block, links_only_segments, url_links};
use crate::parser::{counts_bounded, state_view, ParseState};
use crate::unicode::str_byte_len;
use vstd::string::StringSliceAdditionalSpecFns;
use crate::events::{ColumnAlignment, MarkdownEvent, MarkdownTag, MarkdownTagEnd};
use crate::renderer::ParsedTextBlock;
use crate::inline_flow::InlineImageSizing;
use crate::block::BlockNode;
use crate::html_convert::convert_nodes;
use crate::unicode::{chars_of, trimmed_end, trimmed_start};
use crate::links::plain_flags;
use crate::node::{ascii_lower, first_token};
use crate::renderer::{CalloutKind, CellAlign, InlineFlags, TextBlockKind, slug_of};
use crate::unicode::{chars_between, is_whitespace, trim_end, trim_start};

verus! {

/// A text block being built, seen as plain values.
#[verifier::ext_equal]
pub struct BuilderView {
    pub kind: TextBlockKind,
    pub source_start: usize,
    pub source_end: usize,
    pub segments: Seq<(Seq<char>, Range<usize>, InlineFlags)>,
    pub links: Seq<(Range<usize>, Seq<char>)>,
    pub images: Seq<ImageView>,
    pub flags: InlineFlags,
    /// Links opened and not yet closed: where each starts, and its destination.
    pub active_links: Seq<(usize, Seq<char>)>,
}

/// A code block being read.
#[verifier::ext_equal]
pub struct CodeDraft {
    pub start: usize,
    pub text: Seq<char>,
    pub language: Option<Seq<char>>,
    pub info: Option<Seq<char>>,
    pub source_path: Option<Seq<char>>,
}

/// An image being read.
#[verifier::ext_equal]
pub struct ImageDraft {
    pub start: usize,
    pub destination: Seq<char>,
    pub title: Seq<char>,
    pub alt: Seq<char>,
}

/// A table being read.
#[verifier::ext_equal]
pub struct TableDraft {
    pub source_start: usize,
    pub alignments: Seq<ColumnAlignment>,
    pub rows: Seq<Seq<CellView>>,
    pub current_row: Seq<CellView>,
    pub in_header: bool,
}

/// The state of a parse between two events.
#[verifier::ext_equal]
pub struct ParseView {
    pub blocks: Seq<BlockView>,
    pub root_starts: Seq<usize>,
    pub headings: Map<Seq<char>, usize>,
    pub heading_counts: Map<Seq<char>, usize>,
    pub footnotes: Map<Seq<char>, usize>,
    pub current: Option<BuilderView>,
    pub code: Option<CodeDraft>,
    pub image: Option<ImageDraft>,
    /// The open lists, innermost last, each with the number of its next item
    /// when it is ordered.
    pub lists: Seq<Option<u64>>,
    pub quote_kind: Option<Option<CalloutKind>>,
    pub heading_text: Seq<char>,
    pub heading_start: Option<usize>,
    pub table: Option<TableDraft>,
    pub in_html_block: bool,
}

/// A parsed document seen as plain values.
#[verifier::ext_equal]
pub struct MarkdownView {
    pub source: Seq<char>,
    pub blocks: Seq<BlockView>,
    pub root_block_starts: Seq<usize>,
    pub headings: Map<Seq<char>, usize>,
    pub footnotes: Map<Seq<char>, usize>,
}

pub open spec fn max_usize(a: usize, b: usize) -> usize {
    if a >= b {
        a
    } else {
        b
    }
}

pub open spec fn new_builder(kind: TextBlockKind, start: usize) -> BuilderView {
    BuilderView {
        kind,
        source_start: start,
        source_end: start,
        segments: Seq::empty(),
        links: Seq::empty(),
        images: Seq::empty(),
        flags: plain_flags(),
        active_links: Seq::empty(),
    }
}

/// Appends a segment with the builder's current flags; empty text adds nothing.
pub open spec fn builder_push(b: BuilderView, text: Seq<char>, source: Range<usize>) -> BuilderView {
    if text.len() == 0 {
        b
    } else {
        BuilderView {
            source_end: max_usize(b.source_end, source.end),
            segments: b.segments.push((text, source, b.flags)),
            ..b
        }
    }
}

/// The character that stands for an inline image in rendered text.
pub open spec fn object_replacement() -> Seq<char> {
    seq!['\u{fffc}']
}

/// Appends an image: a placeholder segment, and the image pointing at it.
pub open spec fn builder_push_image(
    b: BuilderView,
    source: Range<usize>,
    destination: Seq<char>,
    title: Seq<char>,
    alt: Seq<char>,
) -> BuilderView {
    let pushed = builder_push(b, object_replacement(), source);
    BuilderView {
        images: pushed.images.push(
            ImageView {
                segment_index: b.segments.len() as usize,
                source,
                destination,
                title,
                alt,
            },
        ),
        ..pushed
    }
}

/// The block a builder makes when its element ends at `end`.
pub open spec fn builder_finish(b: BuilderView, end: usize) -> TextBlockView {
    TextBlockView {
        kind: b.kind,
        source: b.source_start..max_usize(b.source_end, end),
        segments: b.segments,
        links: b.links,
        images: b.images,
    }
}

pub open spec fn with_flags(b: BuilderView, flags: InlineFlags) -> BuilderView {
    BuilderView { flags, ..b }
}

pub open spec fn initial_parse() -> ParseView {
    ParseView {
        blocks: Seq::empty(),
        root_starts: Seq::empty(),
        headings: Map::empty(),
        heading_counts: Map::empty(),
        footnotes: Map::empty(),
        current: None,
        code: None,
        image: None,
        lists: Seq::empty(),
        quote_kind: None,
        heading_text: Seq::empty(),
        heading_start: None,
        table: None,
        in_html_block: false,
    }
}

/// The open text block, or a new one of `kind` from `start`.
pub open spec fn current_or(s: ParseView, kind: TextBlockKind, start: usize) -> BuilderView {
    match s.current {
        Some(b) => b,
        None => new_builder(kind, start),
    }
}

pub open spec fn with_current(s: ParseView, b: BuilderView) -> ParseView {
    ParseView { current: Some(b), ..s }
}

/// Ends the open text block, if any, at `end`: it becomes a top-level block.
pub open spec fn flush_current(s: ParseView, end: usize) -> ParseView {
    match s.current {
        Some(b) => ParseView {
            current: None,
            root_starts: s.root_starts.push(b.source_start),
            blocks: s.blocks.push(BlockView::Text(builder_finish(b, end))),
            ..s
        },
        None => s,
    }
}

/// Appends text to the open block, or to a new paragraph from `source.start`.
pub open spec fn push_text(s: ParseView, text: Seq<char>, source: Range<usize>) -> ParseView {
    with_current(s, builder_push(current_or(s, TextBlockKind::Paragraph, source.start), text, source))
}

/// What a new paragraph is inside the current block quote or list.
pub open spec fn paragraph_kind(s: ParseView) -> TextBlockKind {
    match s.quote_kind {
        Some(kind) => TextBlockKind::BlockQuote(kind),
        None => if s.lists.len() > 0 {
            TextBlockKind::ListItem { depth: s.lists.len() as usize }
        } else {
            TextBlockKind::Paragraph
        },
    }
}

pub open spec fn start_paragraph(s: ParseView, r: Range<usize>) -> ParseView {
    if s.table is Some && s.current is Some {
        s
    } else if s.current matches Some(b) && b.kind is ListItem {
        s
    } else {
        with_current(s, new_builder(paragraph_kind(s), r.start))
    }
}

/// The anchor slug of a heading whose text is `text`.
pub open spec fn heading_base(text: Seq<char>) -> Seq<char> {
    slug_of(trim_start(trim_end(text)))
}

/// Records the anchor of the heading that just ended: its slug, numbered
/// after the first heading with the same base slug.
pub open spec fn record_heading(s: ParseView, at: usize) -> ParseView {
    let base = heading_base(s.heading_text);
    let count: usize = if s.heading_counts.dom().contains(base) {
        s.heading_counts[base]
    } else {
        0
    };
    let slug = if count == 0 {
        base
    } else {
        base + seq!['-'] + decimal(count as nat)
    };
    let start = match s.heading_start {
        Some(h) => h,
        None => at,
    };
    ParseView {
        heading_counts: s.heading_counts.insert(base, (count + 1) as usize),
        headings: s.headings.insert(slug, start),
        heading_start: None,
        ..s
    }
}

/// The characters of `s` from its first non-whitespace one.
pub open spec fn after_whitespace(s: Seq<char>) -> Seq<char> {
    trim_start(s)
}

/// The first whitespace-separated word of `s`, if there is one.
pub open spec fn first_word(s: Seq<char>) -> Option<Seq<char>> {
    let rest = trim_start(s);
    if rest.len() == 0 {
        None
    } else {
        Some(first_token(rest))
    }
}

/// Whether `w` holds a path separator.
pub open spec fn has_separator(w: Seq<char>) -> bool {
    w.contains('/') || w.contains('\\')
}

/// Trimming leading whitespace keeps a suffix of the text that starts with
/// no whitespace.
pub proof fn lemma_trim_start_shape(s: Seq<char>)
    ensures
        trim_start(s).len() <= s.len(),
        trim_start(s).len() > 0 ==> !is_whitespace(trim_start(s)[0]),
        trim_start(s) == s.subrange(s.len() - trim_start(s).len(), s.len() as int),
    decreases s.len(),
{
    if s.len() > 0 && is_whitespace(s[0]) {
        lemma_trim_start_shape(s.drop_first());
        assert(s.drop_first().subrange(
            s.drop_first().len() - trim_start(s).len(),
            s.drop_first().len() as int,
        ) =~= s.subrange(s.len() - trim_start(s).len(), s.len() as int));
    } else {
        assert(s.subrange(0, s.len() as int) =~= s);
    }
}

/// The first token of a text is a prefix of it, not empty when the text
/// starts with no whitespace.
pub proof fn lemma_first_token_shape(s: Seq<char>)
    ensures
        first_token(s).len() <= s.len(),
        s.len() > 0 && !is_whitespace(s[0]) ==> first_token(s).len() >= 1,
        first_token(s) == s.subrange(0, first_token(s).len() as int),
    decreases s.len(),
{
    if s.len() > 0 && !is_whitespace(s[0]) {
        lemma_first_token_shape(s.drop_first());
        assert(seq![s[0]] + s.drop_first().subrange(0, first_token(s.drop_first()).len() as int)
            =~= s.subrange(0, first_token(s).len() as int));
    }
}

/// The first whitespace-separated word of `s` that holds a path separator.
pub open spec fn first_path_word(s: Seq<char>) -> Option<Seq<char>>
    decreases s.len(),
{
    let rest = trim_start(s);
    if rest.len() == 0 {
        None
    } else {
        let word = first_token(rest);
        if has_separator(word) {
            Some(word)
        } else {
            proof {
                lemma_trim_start_shape(s);
                lemma_first_token_shape(rest);
            }
            first_path_word(rest.subrange(word.len() as int, rest.len() as int))
        }
    }
}

pub open spec fn start_code_block(s: ParseView, info: Option<Seq<char>>, r: Range<usize>) -> ParseView {
    let info = match info {
        Some(i) => if i.len() > 0 {
            Some(i)
        } else {
            None
        },
        None => None,
    };
    let language = match info {
        Some(i) => first_word(i),
        None => None,
    };
    let source_path = match info {
        Some(i) => first_path_word(i),
        None => None,
    };
    ParseView {
        code: Some(CodeDraft { start: r.start, text: Seq::empty(), language, info, source_path }),
        ..s
    }
}

pub open spec fn mermaid_word() -> Seq<char> {
    "mermaid"@
}

/// The code without the newline that precedes a closing fence.
pub open spec fn display_code(code: Seq<char>) -> Seq<char> {
    if code.len() > 0 && code.last() == '\n' {
        code.drop_last()
    } else {
        code
    }
}

pub open spec fn end_code_block(s: ParseView, r: Range<usize>, options: MarkdownOptions) -> ParseView {
    match s.code {
        Some(c) => ParseView {
            code: None,
            root_starts: s.root_starts.push(c.start),
            blocks: s.blocks.push(
                BlockView::Code(
                    CodeBlockView {
                        source: c.start..r.end,
                        code: c.text,
                        display_code: display_code(c.text),
                        language: c.language,
                        info: c.info,
                        source_path: c.source_path,
                        mermaid: options.render_mermaid_diagrams && c.language == Some(
                            mermaid_word(),
                        ),
                    },
                ),
            ),
            ..s
        },
        None => s,
    }
}

/// The prefix of a new list item and the lists after numbering it.
pub open spec fn item_prefix(lists: Seq<Option<u64>>) -> (Seq<Option<u64>>, Seq<char>) {
    if lists.len() > 0 {
        match lists.last() {
            Some(n) => (
                lists.update(lists.len() - 1, Some(if n < u64::MAX { (n + 1) as u64 } else { 0 })),
                decimal(n as nat) + seq!['.', ' '],
            ),
            None => (lists, seq!['\u{2022}', ' ']),
        }
    } else {
        (lists, seq!['\u{2022}', ' '])
    }
}

pub open spec fn start_item(s: ParseView, r: Range<usize>) -> ParseView {
    let (lists, prefix) = item_prefix(s.lists);
    ParseView {
        lists,
        current: Some(
            builder_push(
                new_builder(TextBlockKind::ListItem { depth: lists.len() as usize }, r.start),
                prefix,
                r.start..r.start,
            ),
        ),
        ..s
    }
}

/// The current row, if not empty, closed into the table's rows.
pub open spec fn flush_row(t: TableDraft) -> TableDraft {
    if t.current_row.len() > 0 {
        TableDraft { rows: t.rows.push(t.current_row), current_row: Seq::empty(), ..t }
    } else {
        t
    }
}

/// Alignment of the next cell of the current row.
pub open spec fn table_alignment(t: TableDraft) -> CellAlign {
    if t.current_row.len() < t.alignments.len() {
        match t.alignments[t.current_row.len() as int] {
            ColumnAlignment::Center => CellAlign::Center,
            ColumnAlignment::Right => CellAlign::Right,
            _ => CellAlign::Left,
        }
    } else {
        CellAlign::Left
    }
}

/// The table, if any, with the current row closed.
pub open spec fn table_row_edge(s: ParseView) -> ParseView {
    match s.table {
        Some(t) => ParseView { table: Some(flush_row(t)), ..s },
        None => s,
    }
}

/// The table, if any, reading header cells.
pub open spec fn table_head_start(s: ParseView) -> ParseView {
    match s.table {
        Some(t) => ParseView { table: Some(TableDraft { in_header: true, ..t }), ..s },
        None => s,
    }
}

pub open spec fn end_table(s: ParseView, r: Range<usize>) -> ParseView {
    match s.table {
        Some(t) => ParseView {
            table: None,
            root_starts: s.root_starts.push(t.source_start),
            blocks: s.blocks.push(
                BlockView::HtmlTable(
                    TableView {
                        source: t.source_start..r.end,
                        rows: flush_row(t).rows,
                        kind: ParsedTableKind::Markdown,
                    },
                ),
            ),
            ..s
        },
        None => s,
    }
}

pub open spec fn start_table_cell(s: ParseView, r: Range<usize>) -> ParseView {
    match s.table {
        Some(t) => with_current(
            s,
            new_builder(
                TextBlockKind::HtmlTableCell { header: t.in_header, alignment: table_alignment(t) },
                r.start,
            ),
        ),
        None => s,
    }
}

pub open spec fn end_table_cell(s: ParseView, r: Range<usize>) -> ParseView {
    match (s.table, s.current) {
        (Some(t), Some(b)) => ParseView {
            current: None,
            table: Some(
                TableDraft {
                    current_row: t.current_row.push(
                        CellView {
                            content: builder_finish(b, r.end),
                            col_span: 1,
                            row_span: 1,
                            is_header: t.in_header,
                            alignment: table_alignment(t),
                        },
                    ),
                    ..t
                },
            ),
            ..s
        },
        _ => ParseView { current: None, ..s },
    }
}

/// The table, if any, with its header row closed.
pub open spec fn table_head_end(s: ParseView) -> ParseView {
    match s.table {
        Some(t) => ParseView { table: Some(TableDraft { in_header: false, ..flush_row(t) }), ..s },
        None => s,
    }
}

pub open spec fn start_footnote(s: ParseView, label: Seq<char>, r: Range<usize>) -> ParseView {
    ParseView {
        footnotes: s.footnotes.insert(label, r.start),
        current: Some(
            builder_push(
                new_builder(TextBlockKind::Footnote, r.start),
                seq!['['] + label + seq![']', ' '],
                r.start..r.start,
            ),
        ),
        ..s
    }
}

/// Whether `r` is a range of whole characters of `source`.
pub open spec fn valid_range(source: Seq<char>, r: Range<usize>) -> bool {
    &&& r.start <= r.end <= encode_utf8(source).len()
    &&& is_char_boundary(encode_utf8(source), r.start as int)
    &&& is_char_boundary(encode_utf8(source), r.end as int)
}

/// Parsed HTML seen as plain values: each piece with the HTML text it was
/// parsed from.
#[verifier::ext_equal]
pub struct HtmlView {
    pub blocks: Seq<(Seq<char>, Seq<BlockNode>)>,
    /// Each image with its URL, title and alternative text.
    pub images: Seq<(Seq<char>, (Seq<char>, Seq<char>, Seq<char>))>,
    pub links: Seq<(Seq<char>, Seq<char>)>,
}

pub open spec fn html_view(h: ParsedHtml) -> HtmlView {
    HtmlView {
        blocks: h.blocks@.map_values(|e: (String, Vec<BlockNode>)| (e.0@, e.1@)),
        images: h.images@.map_values(|e: (String, HtmlImage)| (e.0@, (e.1.url@, e.1.title@, e.1.alt@))),
        links: h.links@.map_values(|e: (String, String)| (e.0@, e.1@)),
    }
}

/// No parsed HTML at all.
pub open spec fn no_html() -> HtmlView {
    HtmlView { blocks: Seq::empty(), images: Seq::empty(), links: Seq::empty() }
}

/// The value given for the HTML text `text`: that of the first entry for
/// it.
pub open spec fn parsed_for<T>(entries: Seq<(Seq<char>, T)>, text: Seq<char>) -> Option<T>
    decreases entries.len(),
{
    if entries.len() == 0 {
        None
    } else if entries[0].0 == text {
        Some(entries[0].1)
    } else {
        parsed_for(entries.drop_first(), text)
    }
}

/// The first entry for a text is the value of the first entry whose key it
/// is; there is none when no key is the text.
pub proof fn lemma_parsed_for<T>(entries: Seq<(Seq<char>, T)>, text: Seq<char>, k: int)
    requires
        0 <= k <= entries.len(),
        forall|j: int| 0 <= j < k ==> (#[trigger] entries[j]).0 != text,
        k < entries.len() ==> entries[k].0 == text,
    ensures
        parsed_for(entries, text) == if k < entries.len() {
            Some(entries[k].1)
        } else {
            None::<T>
        },
    decreases k,
{
    if k > 0 {
        assert(entries[0].0 != text);
        assert forall|j: int| 0 <= j < k - 1 implies (#[trigger] entries.drop_first()[j]).0 != text by {
            assert(entries.drop_first()[j] == entries[j + 1]);
        }
        if k < entries.len() {
            assert(entries.drop_first()[k - 1] == entries[k]);
        }
        lemma_parsed_for(entries.drop_first(), text, k - 1);
    }
}

/// The block that the HTML block at `r` becomes: when its HTML was parsed,
/// the blocks its nodes convert to, each node in turn from the block's
/// start; otherwise its literal source text.
pub open spec fn html_block(source: Seq<char>, r: Range<usize>, html: HtmlView) -> BlockView {
    let raw = chars_between(source, r.start as int, r.end as int);
    match parsed_for(html.blocks, raw) {
        Some(nodes) => BlockView::Html(
            HtmlBlockView {
                source: r,
                raw_source: raw,
                blocks: convert_nodes(nodes, 0, None, 1, encode_utf8(source), r.end as int, r.start as int).0,
            },
        ),
        None => BlockView::Text(builder_finish(builder_push(new_builder(TextBlockKind::Html, r.start), raw, r), r.end)),
    }
}

/// An HTML block (see [`html_block`]); the events up to its end are
/// skipped.
pub open spec fn start_html_block(s: ParseView, source: Seq<char>, r: Range<usize>, html: HtmlView) -> ParseView {
    let s = ParseView { in_html_block: true, ..s };
    if valid_range(source, r) {
        ParseView {
            root_starts: s.root_starts.push(r.start),
            blocks: s.blocks.push(html_block(source, r, html)),
            ..s
        }
    } else {
        s
    }
}

/// The inline styles that tags turn on and off.
#[derive(Clone, Copy, Debug, PartialEq, Eq)]
pub enum Style {
    Strong,
    Emphasis,
    Strike,
    Underline,
    Code,
}

pub open spec fn set_style(f: InlineFlags, style: Style, on: bool) -> InlineFlags {
    match style {
        Style::Strong => InlineFlags { strong: on, ..f },
        Style::Emphasis => InlineFlags { emphasis: on, ..f },
        Style::Strike => InlineFlags { strike: on, ..f },
        Style::Underline => InlineFlags { underline: on, ..f },
        Style::Code => InlineFlags { code: on, ..f },
    }
}

pub open spec fn set_link(f: InlineFlags, on: bool) -> InlineFlags {
    InlineFlags { link: on, ..f }
}

pub open spec fn set_soft_break(f: InlineFlags, on: bool) -> InlineFlags {
    InlineFlags { soft_break: on, ..f }
}

/// Turns a style on in the open block, or in a new paragraph from `r.start`.
pub open spec fn open_style(s: ParseView, r: Range<usize>, style: Style) -> ParseView {
    let b = current_or(s, TextBlockKind::Paragraph, r.start);
    with_current(s, with_flags(b, set_style(b.flags, style, true)))
}

/// Turns a style off in the open block, if any.
pub open spec fn close_style(s: ParseView, style: Style) -> ParseView {
    match s.current {
        Some(b) => with_current(s, with_flags(b, set_style(b.flags, style, false))),
        None => s,
    }
}

pub open spec fn open_link(b: BuilderView, start: usize, destination: Seq<char>) -> BuilderView {
    BuilderView {
        flags: set_link(b.flags, true),
        active_links: b.active_links.push((start, destination)),
        ..b
    }
}

/// Closes the innermost open link at `end`.
pub open spec fn close_link(b: BuilderView, end: usize) -> BuilderView {
    let b = BuilderView { flags: set_link(b.flags, false), ..b };
    if b.active_links.len() > 0 {
        let link = b.active_links.last();
        BuilderView {
            active_links: b.active_links.drop_last(),
            links: b.links.push(((link.0)..end, link.1)),
            ..b
        }
    } else {
        b
    }
}

pub open spec fn on_text(s: ParseView, text: Seq<char>, r: Range<usize>) -> ParseView {
    match s.code {
        Some(c) => ParseView { code: Some(CodeDraft { text: c.text + text, ..c }), ..s },
        None => match s.image {
            Some(i) => ParseView { image: Some(ImageDraft { alt: i.alt + text, ..i }), ..s },
            None => {
                let s = if s.heading_start is Some {
                    ParseView { heading_text: s.heading_text + text, ..s }
                } else {
                    s
                };
                push_text(s, text, r)
            },
        },
    }
}

pub open spec fn on_code(s: ParseView, text: Seq<char>, r: Range<usize>) -> ParseView {
    let b = current_or(s, TextBlockKind::Paragraph, r.start);
    let pushed = builder_push(with_flags(b, set_style(b.flags, Style::Code, true)), text, r);
    with_current(s, with_flags(pushed, set_style(pushed.flags, Style::Code, b.flags.code)))
}

pub open spec fn on_soft_break(s: ParseView, r: Range<usize>) -> ParseView {
    let b = current_or(s, TextBlockKind::Paragraph, r.start);
    let pushed = builder_push(with_flags(b, set_soft_break(b.flags, true)), seq!['\n'], r);
    with_current(s, with_flags(pushed, set_soft_break(pushed.flags, false)))
}

pub open spec fn on_task_marker(s: ParseView, checked: bool, r: Range<usize>) -> ParseView {
    let b = current_or(s, TextBlockKind::ListItem { depth: s.lists.len() as usize }, r.start);
    let marker = if checked {
        seq!['\u{2611}', ' ']
    } else {
        seq!['\u{2610}', ' ']
    };
    with_current(s, builder_push(b, marker, r))
}

pub open spec fn ascii_lowercase_of(s: Seq<char>) -> Seq<char> {
    s.map_values(|c: char| ascii_lower(c))
}

/// Whether `c` is ASCII whitespace, as `char::is_ascii_whitespace` says.
pub open spec fn is_ascii_space(c: char) -> bool {
    c == ' ' || c == '\t' || c == '\n' || c == '\u{c}' || c == '\r'
}

/// `s` without its leading `/` characters.
pub open spec fn skip_slashes(s: Seq<char>) -> Seq<char>
    decreases s.len(),
{
    if s.len() > 0 && s[0] == '/' {
        skip_slashes(s.drop_first())
    } else {
        s
    }
}

/// The characters of `s` before its first ASCII whitespace or `/`.
pub open spec fn tag_name_prefix(s: Seq<char>) -> Seq<char>
    decreases s.len(),
{
    if s.len() == 0 || is_ascii_space(s[0]) || s[0] == '/' {
        Seq::empty()
    } else {
        seq![s[0]] + tag_name_prefix(s.drop_first())
    }
}

/// Whether `t` is a whole tag: it starts with `<` and ends with `>`.
pub open spec fn is_bracketed(t: Seq<char>) -> bool {
    t.len() >= 2 && t[0] == '<' && t.last() == '>'
}

/// What a standalone inline HTML tag does to the text around it.
pub enum TagEffect {
    /// Not a tag, or one the document model does not know.
    Unknown,
    /// A tag with no visible effect.
    Ignored,
    /// Turns a style on or off.
    Styles(Style, bool),
    /// An opening `<a>` tag.
    OpenLink,
    CloseLink,
}

/// The effect of the inline HTML `text`.
pub open spec fn tag_effect(text: Seq<char>) -> TagEffect {
    let tag = trim_start(trim_end(text));
    if !is_bracketed(tag) {
        TagEffect::Unknown
    } else {
        let inner = tag.subrange(1, tag.len() - 1);
        if inner.len() > 0 && (inner[0] == '!' || inner[0] == '?') {
            TagEffect::Ignored
        } else {
            let opening = !(inner.len() > 0 && inner[0] == '/');
            let name = ascii_lowercase_of(tag_name_prefix(skip_slashes(inner)));
            if name == "strong"@ || name == "b"@ {
                TagEffect::Styles(Style::Strong, opening)
            } else if name == "em"@ || name == "i"@ {
                TagEffect::Styles(Style::Emphasis, opening)
            } else if name == "del"@ || name == "s"@ {
                TagEffect::Styles(Style::Strike, opening)
            } else if name == "u"@ || name == "ins"@ {
                TagEffect::Styles(Style::Underline, opening)
            } else if name == "code"@ {
                TagEffect::Styles(Style::Code, opening)
            } else if name == "a"@ {
                if opening {
                    TagEffect::OpenLink
                } else {
                    TagEffect::CloseLink
                }
            } else if name == "span"@ || name == "small"@
                || name == "sub"@ || name == "sup"@ || name == "mark"@ {
                TagEffect::Ignored
            } else {
                TagEffect::Unknown
            }
        }
    }
}

/// The builder after a tag with `effect` at `r`.
pub open spec fn apply_tag_effect(b: BuilderView, effect: TagEffect, r: Range<usize>) -> BuilderView {
    match effect {
        TagEffect::Styles(style, on) => with_flags(b, set_style(b.flags, style, on)),
        TagEffect::CloseLink => close_link(b, r.end),
        _ => b,
    }
}

pub open spec fn is_line_break_tag(text: Seq<char>) -> bool {
    let t = ascii_lowercase_of(trim_start(text));
    t.len() >= 3 && t[0] == '<' && t[1] == 'b' && t[2] == 'r'
}

/// Inline HTML when HTML is parsed: an image fragment becomes an inline
/// image, a `<br>` breaks the line, an opening `<a>` with a destination
/// opens a link, a known tag styles the text after it, other markup is
/// dropped, and anything else is kept as text.
pub open spec fn on_inline_html(s: ParseView, text: Seq<char>, r: Range<usize>, html: HtmlView) -> ParseView {
    let b = current_or(s, TextBlockKind::Paragraph, r.start);
    match parsed_for(html.images, text) {
        Some(image) => with_current(s, builder_push_image(b, r, image.0, image.1, image.2)),
        None => if is_line_break_tag(text) {
            with_current(s, builder_push(b, seq!['\n'], r))
        } else {
            let effect = tag_effect(text);
            if effect is Unknown {
                if is_bracketed(trim_start(trim_end(text))) {
                    with_current(s, b)
                } else {
                    with_current(s, builder_push(b, text, r))
                }
            } else if effect is OpenLink {
                match parsed_for(html.links, text) {
                    Some(destination) => with_current(s, open_link(b, r.start, destination)),
                    None => with_current(s, b),
                }
            } else {
                with_current(s, apply_tag_effect(b, effect, r))
            }
        },
    }
}

pub open spec fn on_start(
    s: ParseView,
    tag: MarkdownTag,
    r: Range<usize>,
    source: Seq<char>,
    options: MarkdownOptions,
    html: HtmlView,
) -> ParseView {
    match tag {
        MarkdownTag::Paragraph => start_paragraph(s, r),
        MarkdownTag::Heading(level) => ParseView {
            current: Some(new_builder(TextBlockKind::Heading(level), r.start)),
            heading_text: Seq::empty(),
            heading_start: Some(r.start),
            ..s
        },
        MarkdownTag::BlockQuote(kind) => ParseView { quote_kind: Some(kind), ..s },
        MarkdownTag::CodeBlock(info) => start_code_block(
            s,
            match info {
                Some(i) => Some(i@),
                None => None,
            },
            r,
        ),
        MarkdownTag::HtmlBlock => if options.parse_html {
            start_html_block(s, source, r, html)
        } else {
            s
        },
        MarkdownTag::List(first) => ParseView { lists: s.lists.push(first), ..s },
        MarkdownTag::Item => start_item(s, r),
        MarkdownTag::FootnoteDefinition(label) => start_footnote(s, label@, r),
        MarkdownTag::Table(alignments) => ParseView {
            table: Some(
                TableDraft {
                    source_start: r.start,
                    alignments: alignments@,
                    rows: Seq::empty(),
                    current_row: Seq::empty(),
                    in_header: false,
                },
            ),
            ..s
        },
        MarkdownTag::TableHead => table_head_start(s),
        MarkdownTag::TableRow => table_row_edge(s),
        MarkdownTag::TableCell => start_table_cell(s, r),
        MarkdownTag::Emphasis => open_style(s, r, Style::Emphasis),
        MarkdownTag::Strong => open_style(s, r, Style::Strong),
        MarkdownTag::Strikethrough => open_style(s, r, Style::Strike),
        MarkdownTag::Link { destination, .. } => with_current(
            s,
            open_link(current_or(s, TextBlockKind::Paragraph, r.start), r.start, destination@),
        ),
        MarkdownTag::Image { destination, title } => ParseView {
            current: Some(current_or(s, TextBlockKind::Paragraph, r.start)),
            image: Some(
                ImageDraft {
                    start: r.start,
                    destination: destination@,
                    title: title@,
                    alt: Seq::empty(),
                },
            ),
            ..s
        },
        MarkdownTag::MetadataBlock(_) => if options.render_metadata_blocks {
            with_current(s, new_builder(TextBlockKind::Metadata, r.start))
        } else {
            s
        },
        MarkdownTag::DefinitionList | MarkdownTag::DefinitionListTitle | MarkdownTag::DefinitionListDefinition
        | MarkdownTag::Superscript | MarkdownTag::Subscript => s,
    }
}

pub open spec fn on_end(s: ParseView, tag: MarkdownTagEnd, r: Range<usize>, options: MarkdownOptions) -> ParseView {
    match tag {
        MarkdownTagEnd::Paragraph => flush_current(s, r.end),
        MarkdownTagEnd::Heading => {
            let s = flush_current(s, r.end);
            if options.parse_heading_slugs {
                record_heading(s, r.start)
            } else {
                s
            }
        },
        MarkdownTagEnd::BlockQuote => ParseView { quote_kind: None, ..s },
        MarkdownTagEnd::CodeBlock => end_code_block(s, r, options),
        MarkdownTagEnd::List => ParseView {
            lists: if s.lists.len() > 0 {
                s.lists.drop_last()
            } else {
                s.lists
            },
            ..s
        },
        MarkdownTagEnd::Item => flush_current(s, r.end),
        MarkdownTagEnd::FootnoteDefinition => flush_current(s, r.end),
        MarkdownTagEnd::Table => end_table(s, r),
        MarkdownTagEnd::TableHead => table_head_end(s),
        MarkdownTagEnd::TableRow => table_row_edge(s),
        MarkdownTagEnd::TableCell => end_table_cell(s, r),
        MarkdownTagEnd::Emphasis => close_style(s, Style::Emphasis),
        MarkdownTagEnd::Strong => close_style(s, Style::Strong),
        MarkdownTagEnd::Strikethrough => close_style(s, Style::Strike),
        MarkdownTagEnd::Link => match s.current {
            Some(b) => with_current(s, close_link(b, r.end)),
            None => s,
        },
        MarkdownTagEnd::Image => match s.image {
            Some(i) => ParseView {
                image: None,
                current: Some(
                    builder_push_image(
                        current_or(s, TextBlockKind::Paragraph, i.start),
                        i.start..r.end,
                        i.destination,
                        i.title,
                        i.alt,
                    ),
                ),
                ..s
            },
            None => s,
        },
        MarkdownTagEnd::MetadataBlock(_) => if options.render_metadata_blocks {
            flush_current(s, r.end)
        } else {
            s
        },
        _ => s,
    }
}

/// The state after one event at `r`.
pub open spec fn parse_step(
    s: ParseView,
    event: MarkdownEvent,
    r: Range<usize>,
    source: Seq<char>,
    options: MarkdownOptions,
    html: HtmlView,
) -> ParseView {
    if s.in_html_block {
        if event == MarkdownEvent::End(MarkdownTagEnd::HtmlBlock) {
            ParseView { in_html_block: false, ..s }
        } else {
            s
        }
    } else {
        match event {
            MarkdownEvent::Start(tag) => on_start(s, tag, r, source, options, html),
            MarkdownEvent::End(tag) => on_end(s, tag, r, options),
            MarkdownEvent::Text(text) => on_text(s, text@, r),
            MarkdownEvent::Code(text) => on_code(s, text@, r),
            MarkdownEvent::Html(text) => if options.parse_html {
                on_inline_html(s, text@, r, html)
            } else {
                push_text(s, text@, r)
            },
            MarkdownEvent::InlineHtml(text) => if options.parse_html {
                on_inline_html(s, text@, r, html)
            } else {
                push_text(s, text@, r)
            },
            MarkdownEvent::FootnoteReference(label) => push_text(
                s,
                seq!['['] + label@ + seq![']'],
                r,
            ),
            MarkdownEvent::SoftBreak => on_soft_break(s, r),
            MarkdownEvent::HardBreak => push_text(s, seq!['\n'], r),
            MarkdownEvent::Rule => ParseView {
                root_starts: s.root_starts.push(r.start),
                blocks: s.blocks.push(BlockView::Rule(r)),
                ..s
            },
            MarkdownEvent::TaskListMarker(checked) => on_task_marker(s, checked, r),
            MarkdownEvent::InlineMath(text) => push_text(s, text@, r),
            MarkdownEvent::DisplayMath(text) => push_text(s, text@, r),
        }
    }
}

/// A task list marker shows the item's state: a checked box `☑` and a space
/// when the task is done, an empty box `☐` and a space when it is not. The
/// two characters are appended, with the marker's range, to the open text
/// block (or to a new list item at the current list depth), and no block is
/// closed.
pub proof fn lemma_task_marker_shows_its_state(
    s: ParseView,
    checked: bool,
    r: Range<usize>,
    source: Seq<char>,
    options: MarkdownOptions,
    html: HtmlView,
)
    requires
        !s.in_html_block,
    ensures
        ({
            let after = parse_step(s, MarkdownEvent::TaskListMarker(checked), r, source, options, html);
            let open = current_or(s, TextBlockKind::ListItem { depth: s.lists.len() as usize }, r.start);
            &&& after.blocks == s.blocks
            &&& after.current is Some
            &&& after.current->0.segments.len() == open.segments.len() + 1
            &&& after.current->0.segments.drop_last() == open.segments
            &&& after.current->0.segments.last().0.len() == 2
            &&& after.current->0.segments.last().0[0] == if checked {
                '\u{2611}'
            } else {
                '\u{2610}'
            }
            &&& after.current->0.segments.last().0[1] == ' '
            &&& after.current->0.segments.last().1 == r
        }),
{
    let open = current_or(s, TextBlockKind::ListItem { depth: s.lists.len() as usize }, r.start);
    let after = parse_step(s, MarkdownEvent::TaskListMarker(checked), r, source, options, html);
    assert(after == on_task_marker(s, checked, r));
    assert(after.current->0.segments.drop_last() =~= open.segments);
}

/// The state after `events`, from the empty state.
pub open spec fn parse_events(
    events: Seq<(MarkdownEvent, Range<usize>)>,
    source: Seq<char>,
    options: MarkdownOptions,
    html: HtmlView,
) -> ParseView
    decreases events.len(),
{
    if events.len() == 0 {
        initial_parse()
    } else {
        parse_step(
            parse_events(events.drop_last(), source, options, html),
            events.last().0,
            events.last().1,
            source,
            options,
            html,
        )
    }
}

/// The document that `events` make of `source`: the open block, if any,
/// ends with the source.
pub open spec fn document_of(
    events: Seq<(MarkdownEvent, Range<usize>)>,
    source: Seq<char>,
    options: MarkdownOptions,
    html: HtmlView,
) -> MarkdownView {
    let s = flush_current(
        parse_events(events, source, options, html),
        encode_utf8(source).len() as usize,
    );
    MarkdownView {
        source,
        blocks: s.blocks,
        root_block_starts: s.root_starts,
        headings: s.headings,
        footnotes: s.footnotes,
    }
}


/// A parsed document seen as plain values.
pub open spec fn markdown_view(parsed: ParsedMarkdown) -> MarkdownView {
    MarkdownView {
        source: parsed.source@,
        blocks: parsed.blocks@.map_values(|b: ParsedBlock| block_view(b)),
        root_block_starts: parsed.root_block_starts@,
        headings: assoc_map(parsed.headings@),
        footnotes: assoc_map(parsed.footnotes@),
    }
}

/// Builds the document model of `source` from its parse events: each event
/// updates the state by [`parse_step`], and the block still open at the end
/// ends with the source. `html` holds the node tree of each HTML block whose
/// HTML was parsed, keyed by where the block starts.
pub fn parse_markdown_events(
    source: &str,
    events: &Vec<(MarkdownEvent, Range<usize>)>,
    options: MarkdownOptions,
    html: &ParsedHtml,
) -> (parsed: ParsedMarkdown)
    ensures
        markdown_view(parsed) == document_of(events@, source@, options, html_view(*html)),
{
    let mut state = ParseState::new();
    let mut i: usize = 0;
    while i < events.len()
        invariant
            i <= events@.len(),
            state_view(state) == parse_events(events@.take(i as int), source@, options, html_view(*html)),
            counts_bounded(state_view(state), i as int),
        decreases events.len() - i,
    {
        let r = events[i].1.clone();
        state.apply(&events[i].0, r, source, options, html, i);
        proof {
            assert(events@.take(i + 1).drop_last() =~= events@.take(i as int));
        }
        i += 1;
    }
    proof {
        assert(events@.take(i as int) =~= events@);
    }
    let len = str_byte_len(source);
    state.flush_current(len);
    let parsed = ParsedMarkdown {
        source: String::from_str(source),
        blocks: state.blocks,
        root_block_starts: state.root_starts,
        headings: state.headings,
        footnotes: state.footnotes,
    };
    proof {
        assert(markdown_view(parsed) =~= document_of(events@, source@, options, html_view(*html)));
    }
    parsed
}

/// The document that links-only parsing makes of `source`: one paragraph,
/// from the source's start, whose URLs are links and whose other text is
/// plain.
pub open spec fn links_only_document(source: Seq<char>) -> MarkdownView {
    MarkdownView {
        source,
        blocks: seq![
            BlockView::Text(
                TextBlockView {
                    kind: TextBlockKind::Paragraph,
                    source: 0..encode_utf8(source).len() as usize,
                    segments: links_only_segments(source, url_links(source), 0, 0),
                    links: url_links(source).map_values(
                        |r: Range<usize>| (r, chars_between(source, r.start as int, r.end as int)),
                    ),
                    images: Seq::empty(),
                },
            ),
        ],
        root_block_starts: seq![0],
        headings: Map::empty(),
        footnotes: Map::empty(),
    }
}

/// Parses `source` with links only: no Markdown syntax, URLs become links.
pub fn parse_links_only(source: &str) -> (parsed: ParsedMarkdown)
    ensures
        markdown_view(parsed) == links_only_document(source@),
{
    let block = links_only_block(source);
    let mut blocks: Vec<ParsedBlock> = Vec::new();
    blocks.push(ParsedBlock::Text(block));
    let mut root_block_starts: Vec<usize> = Vec::new();
    root_block_starts.push(0);
    let parsed = ParsedMarkdown {
        source: String::from_str(source),
        blocks,
        root_block_starts,
        headings: Vec::new(),
        footnotes: Vec::new(),
    };
    proof {
        assert(text_block_view(block).images =~= Seq::empty());
        assert(parsed.headings@ =~= Seq::empty());
        assert(parsed.footnotes@ =~= Seq::empty());
        assert(markdown_view(parsed) =~= links_only_document(source@));
    }
    parsed
}

/// The syntax extensions the renderer's parse reads: metadata blocks of both
/// kinds when they are rendered.
pub open spec fn renderer_extensions(options: MarkdownOptions) -> ParserExtensions {
    ParserExtensions {
        document_syntax: false,
        yaml_metadata: options.render_metadata_blocks,
        pluses_metadata: options.render_metadata_blocks,
    }
}

/// Converts `source` into the render model: links only when asked for,
/// else the document its GFM parse events make, each HTML block whose node
/// tree `html` holds converted from it and any other kept as literal text.
pub fn parse_markdown_with_html(source: &str, options: MarkdownOptions, html: &ParsedHtml) -> (parsed: ParsedMarkdown)
    ensures
        markdown_view(parsed) == if options.parse_links_only {
            links_only_document(source@)
        } else {
            document_of(markdown_events_of(source@, renderer_extensions(options)), source@, options, html_view(*html))
        },
{
    if options.parse_links_only {
        return parse_links_only(source);
    }
    let extensions = ParserExtensions {
        document_syntax: false,
        yaml_metadata: options.render_metadata_blocks,
        pluses_metadata: options.render_metadata_blocks,
    };
    let events = markdown_events(source, extensions);
    parse_markdown_events(source, &events, options, html)
}

/// Converts `source` into the render model with no parsed HTML: every HTML
/// block is kept as literal text (see [`parse_markdown_with_html`]).
pub fn parse_markdown(source: &str, options: MarkdownOptions) -> (parsed: ParsedMarkdown)
    ensures
        markdown_view(parsed) == if options.parse_links_only {
            links_only_document(source@)
        } else {
            document_of(markdown_events_of(source@, renderer_extensions(options)), source@, options, no_html())
        },
{
    let html = ParsedHtml { blocks: Vec::new(), images: Vec::new(), links: Vec::new() };
    proof {
        assert(html_view(html) =~= no_html());
    }
    parse_markdown_with_html(source, options, &html)
}


/// Whether every segment of `block` is an image placeholder or blank.
pub open spec fn image_only(block: TextBlockView) -> bool {
    forall|i: int|
        0 <= i < block.segments.len() ==> (exists|j: int|
            0 <= j < block.images.len() && block.images[j].segment_index == i) || trim_start(
            trim_end(#[trigger] block.segments[i].0),
        ).len() == 0
}

/// A paragraph of images alone shows them at their own size; images among
/// text are drawn compact.
pub fn image_sizing_for_block(block: &ParsedTextBlock) -> (sizing: InlineImageSizing)
    ensures
        sizing == if image_only(text_block_view(*block)) {
            InlineImageSizing::Intrinsic
        } else {
            InlineImageSizing::Compact
        },
{
    let ghost v = text_block_view(*block);
    let mut i: usize = 0;
    while i < block.segments.len()
        invariant
            i <= block.segments@.len(),
            v == text_block_view(*block),
            forall|k: int|
                0 <= k < i ==> (exists|j: int|
                    0 <= j < v.images.len() && v.images[j].segment_index == k) || trim_start(
                    trim_end(#[trigger] v.segments[k].0),
                ).len() == 0,
        decreases block.segments.len() - i,
    {
        let mut has_image = false;
        let mut j: usize = 0;
        while j < block.images.len()
            invariant
                i < block.segments@.len(),
                j <= block.images@.len(),
                v == text_block_view(*block),
                has_image == exists|m: int| 0 <= m < j && v.images[m].segment_index == i,
            decreases block.images.len() - j,
        {
            assert(v.images[j as int].segment_index == block.images@[j as int].segment_index);
            if block.images[j].segment_index == i {
                has_image = true;
            }
            j += 1;
        }
        if !has_image {
            let chars = chars_of(block.segments[i].text.as_str());
            let n = chars.len();
            proof {
                assert(chars@.subrange(0, n as int) =~= chars@);
            }
            let end = trimmed_end(&chars, 0, n);
            let start = trimmed_start(&chars, 0, end);
            if start < end {
                proof {
                    assert(v.segments[i as int].0 == chars@);
                    assert(trim_start(trim_end(v.segments[i as int].0)).len() > 0);
                }
                return InlineImageSizing::Compact;
            }
        }
        i += 1;
    }
    InlineImageSizing::Intrinsic
}


/// Where a block starts in the source.
pub open spec fn block_start(b: BlockView) -> usize {
    match b {
        BlockView::Text(t) => t.source.start,
        BlockView::Code(c) => c.source.start,
        BlockView::Html(h) => h.source.start,
        BlockView::HtmlTable(t) => t.source.start,
        BlockView::Rule(r) => r.start,
    }
}

/// Whether `starts` holds, for each block, where it starts.
pub open spec fn starts_follow(blocks: Seq<BlockView>, starts: Seq<usize>) -> bool {
    &&& starts.len() == blocks.len()
    &&& forall|k: int| 0 <= k < blocks.len() ==> starts[k] == block_start(#[trigger] blocks[k])
}

proof fn lemma_push_block(blocks: Seq<BlockView>, starts: Seq<usize>, b: BlockView, start: usize)
    requires
        starts_follow(blocks, starts),
        block_start(b) == start,
    ensures
        starts_follow(blocks.push(b), starts.push(start)),
{
    assert forall|k: int| 0 <= k < blocks.push(b).len() implies starts.push(start)[k] == block_start(
        #[trigger] blocks.push(b)[k],
    ) by {
        if k < blocks.len() {
            assert(blocks.push(b)[k] == blocks[k]);
        }
    }
}

proof fn lemma_flush_keeps_starts(s: ParseView, end: usize)
    requires
        starts_follow(s.blocks, s.root_starts),
    ensures
        starts_follow(flush_current(s, end).blocks, flush_current(s, end).root_starts),
{
    if let Some(b) = s.current {
        lemma_push_block(s.blocks, s.root_starts, BlockView::Text(builder_finish(b, end)), b.source_start);
    }
}

proof fn lemma_start_keeps_starts(
    s: ParseView,
    tag: MarkdownTag,
    r: Range<usize>,
    source: Seq<char>,
    options: MarkdownOptions,
    html: HtmlView,
)
    requires
        starts_follow(s.blocks, s.root_starts),
    ensures
        starts_follow(
            on_start(s, tag, r, source, options, html).blocks,
            on_start(s, tag, r, source, options, html).root_starts,
        ),
{
    if tag is HtmlBlock && options.parse_html && valid_range(source, r) {
        lemma_push_block(s.blocks, s.root_starts, html_block(source, r, html), r.start);
    }
}

proof fn lemma_end_keeps_starts(s: ParseView, tag: MarkdownTagEnd, r: Range<usize>, options: MarkdownOptions)
    requires
        starts_follow(s.blocks, s.root_starts),
    ensures
        starts_follow(on_end(s, tag, r, options).blocks, on_end(s, tag, r, options).root_starts),
{
    lemma_flush_keeps_starts(s, r.end);
    match tag {
        MarkdownTagEnd::CodeBlock => {
            if let Some(c) = s.code {
                let e = end_code_block(s, r, options);
                lemma_push_block(s.blocks, s.root_starts, e.blocks.last(), c.start);
                assert(e.blocks =~= s.blocks.push(e.blocks.last()));
            }
        },
        MarkdownTagEnd::Table => {
            if let Some(t) = s.table {
                let e = end_table(s, r);
                lemma_push_block(s.blocks, s.root_starts, e.blocks.last(), t.source_start);
                assert(e.blocks =~= s.blocks.push(e.blocks.last()));
            }
        },
        _ => {},
    }
}

proof fn lemma_step_keeps_starts(
    s: ParseView,
    event: MarkdownEvent,
    r: Range<usize>,
    source: Seq<char>,
    options: MarkdownOptions,
    html: HtmlView,
)
    requires
        starts_follow(s.blocks, s.root_starts),
    ensures
        starts_follow(
            parse_step(s, event, r, source, options, html).blocks,
            parse_step(s, event, r, source, options, html).root_starts,
        ),
{
    if !s.in_html_block {
        match event {
            MarkdownEvent::Start(tag) => lemma_start_keeps_starts(s, tag, r, source, options, html),
            MarkdownEvent::End(tag) => lemma_end_keeps_starts(s, tag, r, options),
            MarkdownEvent::Rule => lemma_push_block(s.blocks, s.root_starts, BlockView::Rule(r), r.start),
            _ => {},
        }
    }
}

proof fn lemma_events_keep_starts(
    events: Seq<(MarkdownEvent, Range<usize>)>,
    source: Seq<char>,
    options: MarkdownOptions,
    html: HtmlView,
)
    ensures
        starts_follow(
            parse_events(events, source, options, html).blocks,
            parse_events(events, source, options, html).root_starts,
        ),
    decreases events.len(),
{
    if events.len() > 0 {
        lemma_events_keep_starts(events.drop_last(), source, options, html);
        lemma_step_keeps_starts(
            parse_events(events.drop_last(), source, options, html),
            events.last().0,
            events.last().1,
            source,
            options,
            html,
        );
    }
}

/// Whatever the events, a parsed document has one root start per block,
/// and each root start is where its block starts in the source.
pub proof fn lemma_root_starts_follow_blocks(
    events: Seq<(MarkdownEvent, Range<usize>)>,
    source: Seq<char>,
    options: MarkdownOptions,
    html: HtmlView,
)
    ensures
        starts_follow(
            document_of(events, source, options, html).blocks,
            document_of(events, source, options, html).root_block_starts,
        ),
{
    lemma_events_keep_starts(events, source, options, html);
    lemma_flush_keeps_starts(parse_events(events, source, options, html), encode_utf8(source).len() as usize);
}

/// A links-only document, too, has one root start per block, each where its
/// block starts.
pub proof fn lemma_links_only_root_starts(source: Seq<char>)
    ensures
        starts_follow(links_only_document(source).blocks, links_only_document(source).root_block_starts),
{
}

} // verus!
