use std::ops::Range;
use vstd::prelude::*;

use crate::block::{
    node_span, LinkView, MarkView,
    fenced_lang, inline_view, inlines_text, mark_view, node_text, node_view, nodes_view,
    paragraph_view, plain_text_node, table_node_view, table_row_view, text_opt, trimmed, BlockNode,
    CellNodeView, CodeBlock, CodeNodeView, ColumnumnAlign, InlineView, NodeView, Paragraph,
    ParagraphView, Table, TableCell, TableNodeView, TableRow,
};
use crate::document::{assoc_lookup, assoc_map, decimal, push_decimal, MarkdownOptions};
use crate::events::{
    markdown_events, markdown_events_of, ColumnAlignment, MarkdownEvent, MarkdownTag, MarkdownTagEnd,
    MetadataKind, ParserExtensions,
};
use crate::node::{merged, plain_mark, ImageNode, InlineNode, LinkMark, Span, TextMark};
use crate::outline::{heading_slug, outline_slug_of, source_event_kind, MarkdownSourceEventKind};
use crate::node::ascii_lower;
use crate::parser::collect_chars;
use crate::renderer::CalloutKind;
use crate::search::{find_from, first_occurrence};
use crate::theme::MarkdownStyleProfile;
use crate::links::{find_url_links, url_links};
use crate::unicode::{
    char_is_whitespace, chars_between, chars_of, is_whitespace, str_byte_len, substring, trim_end,
    trim_start, trimmed_end, trimmed_start,
};
use vstd::string::StringSliceAdditionalSpecFns;
use vstd::utf8::{encode_utf8, is_char_boundary};

verus! {

broadcast use {
    vstd::string::group_string_axioms,
    vstd::utf8::encode_utf8_valid_utf8,
    vstd::utf8::is_char_boundary_start_end_of_seq,
};

/// Why the frame stack could not take an event.
#[derive(Clone, Copy, Debug, PartialEq, Eq)]
pub enum BuildError {
    /// A closing event with no open element.
    Unbalanced,
    /// A closing event for the document root itself.
    ClosedRoot,
    /// A table row closed outside a table.
    RowOutsideTable,
    /// A table cell closed outside a row.
    CellOutsideRow,
    /// Inline content outside any element that holds text.
    OutsideText,
    /// The document root was gone when the parse finished.
    MissingRoot,
    /// A parse event whose absolute positions would not fit in a `usize`.
    PositionOverflow,
}

/// An image whose alt text is being collected.
#[derive(Debug)]
pub struct ImageCapture {
    pub url: String,
    pub title: Option<String>,
    pub alt: String,
}

/// One open element of the document being built.
#[derive(Debug)]
pub enum Frame {
    Root(Vec<BlockNode>),
    Paragraph { paragraph: Paragraph, span: Span },
    Heading { level: u8, paragraph: Paragraph, span: Span },
    Blockquote { children: Vec<BlockNode>, kind: Option<CalloutKind>, span: Span },
    List { children: Vec<BlockNode>, ordered: bool, start: Option<u64>, span: Span },
    /// A list item: its blocks, and the inline text of a tight item.
    Item { children: Vec<BlockNode>, inline: Paragraph, checked: Option<bool>, span: Span },
    /// A code block: its trimmed info string when fenced.
    CodeBlock { code: String, info: Option<String>, span: Span },
    HtmlBlock { html: String, span: Span },
    Metadata { text: String, kind: MetadataKind, span: Span },
    Footnote { label: String, children: Vec<BlockNode>, span: Span },
    Table { table: Table, span: Span },
    TableRow(TableRow),
    TableCell(Paragraph),
}

/// One parse event with its absolute source range.
#[derive(Clone, Debug)]
pub struct MarkdownSourceEvent {
    pub range: Range<usize>,
    pub kind: MarkdownSourceEventKind,
}

/// An image capture seen as plain values.
pub struct CaptureView {
    pub url: Seq<char>,
    pub title: Option<Seq<char>>,
    pub alt: Seq<char>,
}

/// An open element seen as plain values.
pub enum FrameView {
    Root(Seq<NodeView>),
    Paragraph { paragraph: ParagraphView, span: Span },
    Heading { level: u8, paragraph: ParagraphView, span: Span },
    Blockquote { children: Seq<NodeView>, kind: Option<CalloutKind>, span: Span },
    List { children: Seq<NodeView>, ordered: bool, start: Option<u64>, span: Span },
    Item { children: Seq<NodeView>, inline: ParagraphView, checked: Option<bool>, span: Span },
    CodeBlock { code: Seq<char>, info: Option<Seq<char>>, span: Span },
    HtmlBlock { html: Seq<char>, span: Span },
    Metadata { text: Seq<char>, kind: MetadataKind, span: Span },
    Footnote { label: Seq<char>, children: Seq<NodeView>, span: Span },
    Table { table: TableNodeView, span: Span },
    TableRow(Seq<CellNodeView>),
    TableCell(ParagraphView),
}

pub open spec fn capture_view(c: ImageCapture) -> CaptureView {
    CaptureView { url: c.url@, title: text_opt(c.title), alt: c.alt@ }
}

pub open spec fn frame_view(f: Frame) -> FrameView {
    match f {
        Frame::Root(children) => FrameView::Root(nodes_view(children)),
        Frame::Paragraph { paragraph, span } => FrameView::Paragraph { paragraph: paragraph_view(paragraph), span },
        Frame::Heading { level, paragraph, span } => FrameView::Heading {
            level,
            paragraph: paragraph_view(paragraph),
            span,
        },
        Frame::Blockquote { children, kind, span } => FrameView::Blockquote {
            children: nodes_view(children),
            kind,
            span,
        },
        Frame::List { children, ordered, start, span } => FrameView::List {
            children: nodes_view(children),
            ordered,
            start,
            span,
        },
        Frame::Item { children, inline, checked, span } => FrameView::Item {
            children: nodes_view(children),
            inline: paragraph_view(inline),
            checked,
            span,
        },
        Frame::CodeBlock { code, info, span } => FrameView::CodeBlock { code: code@, info: text_opt(info), span },
        Frame::HtmlBlock { html, span } => FrameView::HtmlBlock { html: html@, span },
        Frame::Metadata { text, kind, span } => FrameView::Metadata { text: text@, kind, span },
        Frame::Footnote { label, children, span } => FrameView::Footnote {
            label: label@,
            children: nodes_view(children),
            span,
        },
        Frame::Table { table, span } => FrameView::Table { table: table_node_view(table), span },
        Frame::TableRow(row) => FrameView::TableRow(table_row_view(row)),
        Frame::TableCell(p) => FrameView::TableCell(paragraph_view(p)),
    }
}

pub open spec fn frames_view(frames: Seq<Frame>) -> Seq<FrameView> {
    frames.map_values(|f: Frame| frame_view(f))
}

/// Association-list entries seen by their keys' text.
pub open spec fn entries_view(entries: Seq<(String, usize)>) -> Seq<(Seq<char>, usize)> {
    entries.map_values(|e: (String, usize)| (e.0@, e.1))
}

pub open spec fn event_view(e: MarkdownSourceEvent) -> (Range<usize>, MarkdownSourceEventKind) {
    (e.range, e.kind)
}

/// Whether an open element takes blocks.
pub open spec fn takes_blocks(f: FrameView) -> bool {
    ||| f is Root
    ||| f is Blockquote
    ||| f is List
    ||| f is Item
    ||| f is Footnote
}

/// Whether an open element takes inline text.
pub open spec fn takes_text(f: FrameView) -> bool {
    ||| f is Paragraph
    ||| f is Heading
    ||| f is TableCell
    ||| f is Item
}

/// The innermost open element that takes blocks.
pub open spec fn block_frame(frames: Seq<FrameView>) -> Option<int>
    decreases frames.len(),
{
    if frames.len() == 0 {
        None
    } else if takes_blocks(frames.last()) {
        Some(frames.len() - 1)
    } else {
        block_frame(frames.drop_last())
    }
}

/// The innermost open element that takes inline text.
pub open spec fn text_frame(frames: Seq<FrameView>) -> Option<int>
    decreases frames.len(),
{
    if frames.len() == 0 {
        None
    } else if takes_text(frames.last()) {
        Some(frames.len() - 1)
    } else {
        text_frame(frames.drop_last())
    }
}

/// `f` with `block` appended to its blocks.
pub open spec fn with_block(f: FrameView, block: NodeView) -> FrameView {
    match f {
        FrameView::Root(c) => FrameView::Root(c.push(block)),
        FrameView::Blockquote { children, kind, span } => FrameView::Blockquote {
            children: children.push(block),
            kind,
            span,
        },
        FrameView::List { children, ordered, start, span } => FrameView::List {
            children: children.push(block),
            ordered,
            start,
            span,
        },
        FrameView::Item { children, inline, checked, span } => FrameView::Item {
            children: children.push(block),
            inline,
            checked,
            span,
        },
        FrameView::Footnote { label, children, span } => FrameView::Footnote {
            label,
            children: children.push(block),
            span,
        },
        _ => f,
    }
}

pub open spec fn pushed_inline(p: ParagraphView, node: InlineView) -> ParagraphView {
    ParagraphView { children: p.children.push(node), ..p }
}

/// `f` with `node` appended to its inline text.
pub open spec fn with_inline(f: FrameView, node: InlineView) -> FrameView {
    match f {
        FrameView::Paragraph { paragraph, span } => FrameView::Paragraph {
            paragraph: pushed_inline(paragraph, node),
            span,
        },
        FrameView::Heading { level, paragraph, span } => FrameView::Heading {
            level,
            paragraph: pushed_inline(paragraph, node),
            span,
        },
        FrameView::TableCell(p) => FrameView::TableCell(pushed_inline(p, node)),
        FrameView::Item { children, inline, checked, span } => FrameView::Item {
            children,
            inline: pushed_inline(inline, node),
            checked,
            span,
        },
        _ => f,
    }
}

/// The frames with `block` appended to the innermost element that takes
/// blocks; unchanged where none does.
pub open spec fn frames_with_block(frames: Seq<FrameView>, block: NodeView) -> Seq<FrameView> {
    match block_frame(frames) {
        Some(i) => frames.update(i, with_block(frames[i], block)),
        None => frames,
    }
}

/// The frames with `node` appended to the innermost element that takes
/// text; `None` where none does.
pub open spec fn frames_with_inline(frames: Seq<FrameView>, node: InlineView) -> Option<Seq<FrameView>> {
    match text_frame(frames) {
        Some(i) => Some(frames.update(i, with_inline(frames[i], node))),
        None => None,
    }
}

/// The marks of the open inline elements layered in order over the plain
/// mark.
pub open spec fn combined(marks: Seq<TextMark>) -> TextMark
    decreases marks.len(),
{
    if marks.len() == 0 {
        plain_mark()
    } else {
        merged(combined(marks.drop_last()), marks.last())
    }
}

proof fn lemma_block_frame_bounds(frames: Seq<FrameView>)
    ensures
        block_frame(frames) matches Some(i) ==> 0 <= i < frames.len() && takes_blocks(frames[i]),
    decreases frames.len(),
{
    if frames.len() > 0 && !takes_blocks(frames.last()) {
        lemma_block_frame_bounds(frames.drop_last());
    }
}

proof fn lemma_text_frame_bounds(frames: Seq<FrameView>)
    ensures
        text_frame(frames) matches Some(i) ==> 0 <= i < frames.len() && takes_text(frames[i]),
    decreases frames.len(),
{
    if frames.len() > 0 && !takes_text(frames.last()) {
        lemma_text_frame_bounds(frames.drop_last());
    }
}

proof fn lemma_nodes_view_push(before: Vec<BlockNode>, after: Vec<BlockNode>, block: BlockNode)
    requires
        after@ == before@.push(block),
    ensures
        nodes_view(after) == nodes_view(before).push(node_view(block)),
{
    assert forall|j: int| 0 <= j < after@.len() implies nodes_view(after)[j] == nodes_view(before).push(
        node_view(block),
    )[j] by {
        crate::block::lemma_nodes_view_index(after, j);
        if j < before@.len() {
            crate::block::lemma_nodes_view_index(before, j);
        }
    }
    assert(nodes_view(after) =~= nodes_view(before).push(node_view(block)));
}

fn frame_takes_blocks(frame: &Frame) -> (b: bool)
    ensures
        b == takes_blocks(frame_view(*frame)),
{
    match frame {
        Frame::Root(_) | Frame::Blockquote { .. } | Frame::List { .. } | Frame::Item { .. } | Frame::Footnote {
            ..
        } => true,
        _ => false,
    }
}

fn frame_takes_text(frame: &Frame) -> (b: bool)
    ensures
        b == takes_text(frame_view(*frame)),
{
    match frame {
        Frame::Paragraph { .. } | Frame::Heading { .. } | Frame::TableCell(_) | Frame::Item { .. } => true,
        _ => false,
    }
}

/// Appends `block` to the blocks of `frame`, which takes blocks.
fn push_child(frame: &mut Frame, block: BlockNode)
    ensures
        frame_view(*final(frame)) == with_block(frame_view(*old(frame)), node_view(block)),
{
    match frame {
        Frame::Root(children) => {
            let ghost before = *children;
            children.push(block);
            proof {
                lemma_nodes_view_push(before, *children, block);
            }
        },
        Frame::Blockquote { children, .. } => {
            let ghost before = *children;
            children.push(block);
            proof {
                lemma_nodes_view_push(before, *children, block);
            }
        },
        Frame::List { children, .. } => {
            let ghost before = *children;
            children.push(block);
            proof {
                lemma_nodes_view_push(before, *children, block);
            }
        },
        Frame::Item { children, .. } => {
            let ghost before = *children;
            children.push(block);
            proof {
                lemma_nodes_view_push(before, *children, block);
            }
        },
        Frame::Footnote { children, .. } => {
            let ghost before = *children;
            children.push(block);
            proof {
                lemma_nodes_view_push(before, *children, block);
            }
        },
        _ => {},
    }
}

/// Appends `node` to the inline text of `frame`, which takes text.
fn push_inline_node(frame: &mut Frame, node: InlineNode)
    ensures
        frame_view(*final(frame)) == with_inline(frame_view(*old(frame)), crate::block::inline_view(node)),
{
    match frame {
        Frame::Paragraph { paragraph, .. } => paragraph.push(node),
        Frame::Heading { paragraph, .. } => paragraph.push(node),
        Frame::TableCell(paragraph) => paragraph.push(node),
        Frame::Item { inline, .. } => inline.push(node),
        _ => {},
    }
}

/// Appends `block` to the innermost frame of `frames` that takes blocks.
pub fn push_block(frames: &mut Vec<Frame>, block: BlockNode)
    ensures
        frames_view(final(frames)@) == frames_with_block(frames_view(old(frames)@), node_view(block)),
{
    let ghost view = frames_view(frames@);
    let mut i: usize = frames.len();
    proof {
        assert(view.take(i as int) =~= view);
    }
    while i > 0 && !frame_takes_blocks(&frames[i - 1])
        invariant
            i <= frames@.len(),
            view == frames_view(frames@),
            block_frame(view.take(i as int)) == block_frame(view),
        decreases i,
    {
        proof {
            assert(view.take(i as int).drop_last() =~= view.take(i - 1));
        }
        i -= 1;
    }
    if i == 0 {
        proof {
            assert(view.take(0) =~= Seq::<FrameView>::empty());
        }
        return;
    }
    let index = i - 1;
    proof {
        assert(view.take(i as int).last() == view[index as int]);
    }
    push_child(&mut frames[index], block);
    proof {
        assert(frames_view(frames@) =~= view.update(index as int, with_block(view[index as int], node_view(block))));
    }
}

/// Appends `node` to the innermost frame of `frames` that takes text;
/// fails, changing nothing, where none does.
pub fn push_inline(frames: &mut Vec<Frame>, node: InlineNode) -> (result: Result<(), BuildError>)
    ensures
        match frames_with_inline(frames_view(old(frames)@), crate::block::inline_view(node)) {
            Some(f) => result == Ok::<(), BuildError>(()) && frames_view(final(frames)@) == f,
            None => result == Err::<(), BuildError>(BuildError::OutsideText) && final(frames)@ == old(frames)@,
        },
{
    let ghost view = frames_view(frames@);
    let mut i: usize = frames.len();
    proof {
        assert(view.take(i as int) =~= view);
    }
    while i > 0 && !frame_takes_text(&frames[i - 1])
        invariant
            i <= frames@.len(),
            view == frames_view(frames@),
            text_frame(view.take(i as int)) == text_frame(view),
        decreases i,
    {
        proof {
            assert(view.take(i as int).drop_last() =~= view.take(i - 1));
        }
        i -= 1;
    }
    if i == 0 {
        proof {
            assert(view.take(0) =~= Seq::<FrameView>::empty());
        }
        return Err(BuildError::OutsideText);
    }
    let index = i - 1;
    proof {
        assert(view.take(i as int).last() == view[index as int]);
    }
    push_inline_node(&mut frames[index], node);
    proof {
        assert(frames_view(frames@) =~= view.update(
            index as int,
            with_inline(view[index as int], crate::block::inline_view(node)),
        ));
    }
    Ok(())
}

/// The marks layered in order over the plain mark.
pub fn combined_mark(marks: &Vec<TextMark>) -> (mark: TextMark)
    ensures
        mark == combined(marks@),
{
    let mut mark = TextMark::default();
    let mut k: usize = 0;
    while k < marks.len()
        invariant
            k <= marks@.len(),
            mark == combined(marks@.take(k as int)),
        decreases marks@.len() - k,
    {
        proof {
            assert(marks@.take(k + 1).drop_last() =~= marks@.take(k as int));
        }
        mark.merge(marks[k].clone());
        k += 1;
    }
    proof {
        assert(marks@.take(k as int) =~= marks@);
    }
    mark
}

/// The fixed inputs of a build: the source text, the absolute offset of its
/// first byte, the parse options and the style profile.
pub struct BuildConfig {
    pub source: Seq<char>,
    pub offset: usize,
    pub options: MarkdownOptions,
    pub profile: MarkdownStyleProfile,
}

/// The state of a build seen as plain values.
#[verifier::ext_equal]
pub struct BuildState {
    pub frames: Seq<FrameView>,
    pub marks: Seq<TextMark>,
    pub image: Option<CaptureView>,
    pub events: Seq<(Range<usize>, MarkdownSourceEventKind)>,
    pub footnotes: Seq<(Seq<char>, usize)>,
    pub slugs: Seq<(Seq<char>, usize)>,
    pub slug_counts: Seq<(Seq<char>, usize)>,
}

/// Builds the document model from the events of one Markdown parse.
pub struct DocumentBuilder<'a> {
    pub source: &'a str,
    pub offset: usize,
    pub options: MarkdownOptions,
    pub profile: MarkdownStyleProfile,
    pub frames: Vec<Frame>,
    pub marks: Vec<TextMark>,
    pub image: Option<ImageCapture>,
    pub events: Vec<MarkdownSourceEvent>,
    pub footnote_definitions: Vec<(String, usize)>,
    pub heading_slugs: Vec<(String, usize)>,
    pub heading_slug_counts: Vec<(String, usize)>,
}

impl DocumentBuilder<'_> {
    pub open spec fn config(&self) -> BuildConfig {
        BuildConfig { source: self.source@, offset: self.offset, options: self.options, profile: self.profile }
    }

    pub open spec fn state(&self) -> BuildState {
        BuildState {
            frames: frames_view(self.frames@),
            marks: self.marks@,
            image: match self.image {
                Some(c) => Some(capture_view(c)),
                None => None,
            },
            events: self.events@.map_values(|e: MarkdownSourceEvent| event_view(e)),
            footnotes: entries_view(self.footnote_definitions@),
            slugs: entries_view(self.heading_slugs@),
            slug_counts: entries_view(self.heading_slug_counts@),
        }
    }
}

/// The value of the last entry for `key`, or 0.
pub open spec fn count_of(entries: Seq<(Seq<char>, usize)>, key: Seq<char>) -> usize
    decreases entries.len(),
{
    if entries.len() == 0 {
        0
    } else if entries.last().0 == key {
        entries.last().1
    } else {
        count_of(entries.drop_last(), key)
    }
}

/// The absolute offset that a heading's slug points at: where the heading's
/// text first occurs in the source bytes of its span, or the span's start
/// where those bytes are not a slice of the source or do not hold the text.
pub open spec fn heading_offset(source: Seq<char>, offset: usize, span: Span, text: Seq<char>) -> usize {
    let rs: int = if span.start >= offset {
        span.start - offset
    } else {
        0
    };
    let re: int = if span.end >= offset {
        span.end - offset
    } else {
        0
    };
    let bytes = encode_utf8(source);
    if rs <= re <= bytes.len() && is_char_boundary(bytes, rs) && is_char_boundary(bytes, re) {
        match first_occurrence(bytes.subrange(rs, re), encode_utf8(text), 0) {
            Some(o) => (span.start + o) as usize,
            None => span.start,
        }
    } else {
        span.start
    }
}

/// The slug of the `count`-th earlier heading with slug base `base`.
pub open spec fn numbered_slug(base: Seq<char>, count: usize) -> Seq<char> {
    if count == 0 {
        base
    } else {
        base + seq!['-'] + decimal(count as nat)
    }
}

/// The state after a heading with `paragraph` over `span` closes: with slugs
/// on, its slug base counted once more, and its slug recorded when not empty
/// and among the first 128 of its base.
pub open spec fn heading_slug_step(cfg: BuildConfig, s: BuildState, paragraph: ParagraphView, span: Span) -> BuildState {
    if !cfg.options.parse_heading_slugs {
        s
    } else {
        let text = inlines_text(paragraph.children);
        let base = outline_slug_of(trim_start(trim_end(text)));
        let count = count_of(s.slug_counts, base);
        let slug = numbered_slug(base, count);
        let next: usize = if count < usize::MAX {
            (count + 1) as usize
        } else {
            count
        };
        let s1 = BuildState { slug_counts: s.slug_counts.push((base, next)), ..s };
        if slug.len() > 0 && next <= 128 {
            BuildState { slugs: s1.slugs.push((slug, heading_offset(cfg.source, cfg.offset, span, text))), ..s1 }
        } else {
            s1
        }
    }
}

/// The code block of a fenced block with info string `info`.
pub open spec fn fenced_code_view(code: Seq<char>, info: Seq<char>, span: Option<Span>) -> CodeNodeView {
    CodeNodeView {
        lang: fenced_lang(info),
        info: if trimmed(info).len() > 0 {
            Some(trimmed(info))
        } else {
            None
        },
        source_path: if trimmed(info).contains('/') {
            Some(trimmed(info))
        } else {
            None
        },
        code,
        span,
    }
}

/// Whether a paragraph shows nothing.
pub open spec fn paragraph_blank(p: ParagraphView) -> bool {
    forall|i: int| 0 <= i < p.children.len() ==> (#[trigger] p.children[i]).text.len() == 0 && p.children[i].image is None
}

/// A text node marked over all of it with `mark`.
pub open spec fn marked_text(text: Seq<char>, mark: TextMark) -> InlineView {
    InlineView {
        text,
        image: None,
        marks: seq![(0..encode_utf8(text).len() as usize, mark_view(mark))],
        source_range: None,
    }
}

/// The italic `[label]: ` that opens a footnote.
pub open spec fn footnote_prefix(label: Seq<char>) -> InlineView {
    marked_text(seq!['['] + label + seq![']', ':', ' '], TextMark { italic: true, ..plain_mark() })
}

/// The text of each block that has some, without trailing whitespace, as
/// plain nodes.
pub open spec fn footnote_nodes(children: Seq<NodeView>) -> Seq<InlineView>
    decreases children.len(),
{
    if children.len() == 0 {
        Seq::empty()
    } else {
        let text = node_text(children.last());
        footnote_nodes(children.drop_last()) + if text.len() > 0 {
            seq![marked_text(trim_end(text), plain_mark())]
        } else {
            Seq::empty()
        }
    }
}

/// The cell that a table cell element closes into.
pub open spec fn closed_cell(p: ParagraphView) -> CellNodeView {
    CellNodeView { children: p, col_span: 1, row_span: 1, is_header: false, alignment: ColumnumnAlign::Left }
}

pub open spec fn with_block_state(s: BuildState, block: NodeView) -> BuildState {
    BuildState { frames: frames_with_block(s.frames, block), ..s }
}

/// The block that an open element closes into.
pub open spec fn closed_node(f: FrameView) -> NodeView {
    match f {
        FrameView::Paragraph { paragraph, span } => NodeView::Paragraph(ParagraphView { span: Some(span), ..paragraph }),
        FrameView::Heading { level, paragraph, span } => NodeView::Heading {
            level,
            children: ParagraphView { span: Some(span), ..paragraph },
            span: Some(span),
        },
        FrameView::Blockquote { children, kind, span } => NodeView::Blockquote { children, kind, span: Some(span) },
        FrameView::List { children, ordered, start, span } => NodeView::List {
            children,
            ordered,
            start,
            span: Some(span),
        },
        FrameView::Item { children, inline, checked, span } => NodeView::ListItem {
            children: if paragraph_blank(inline) {
                children
            } else {
                seq![NodeView::Paragraph(ParagraphView { span: Some(span), ..inline })] + children
            },
            spread: false,
            checked,
            span: Some(span),
        },
        FrameView::CodeBlock { code, info, span } => NodeView::CodeBlock(
            match info {
                Some(i) => fenced_code_view(code, i, Some(span)),
                None => CodeNodeView { lang: None, info: None, source_path: None, code, span: Some(span) },
            },
        ),
        FrameView::HtmlBlock { html, span } => NodeView::Paragraph(
            ParagraphView { span: Some(span), children: seq![plain_text_node(html)] },
        ),
        FrameView::Metadata { text, kind, span } => {
            let lang = match kind {
                MetadataKind::YamlStyle => seq!['y', 'a', 'm', 'l'],
                MetadataKind::PlusesStyle => seq!['t', 'o', 'm', 'l'],
            };
            NodeView::CodeBlock(CodeNodeView { lang: Some(lang), info: Some(lang), source_path: None, code: text, span: Some(span) })
        },
        FrameView::Footnote { label, children, span } => NodeView::Paragraph(
            ParagraphView { span: Some(span), children: seq![footnote_prefix(label)] + footnote_nodes(children) },
        ),
        FrameView::Table { table, span } => NodeView::Table(TableNodeView { span: Some(span), ..table }),
        _ => NodeView::Unknown,
    }
}

/// The state after the innermost open element closes, and whether it could:
/// a block element becomes a block of the element around it, a row joins
/// the table around it and a cell the row around it.
pub open spec fn close_step(cfg: BuildConfig, s: BuildState) -> (BuildState, Result<(), BuildError>) {
    if s.frames.len() == 0 {
        (s, Err(BuildError::Unbalanced))
    } else {
        let f = s.frames.last();
        let s1 = BuildState { frames: s.frames.drop_last(), ..s };
        match f {
            FrameView::Root(_) => (s1, Err(BuildError::ClosedRoot)),
            FrameView::Heading { paragraph, span, .. } => (
                with_block_state(heading_slug_step(cfg, s1, paragraph, span), closed_node(f)),
                Ok(()),
            ),
            FrameView::Footnote { label, span, .. } => (
                with_block_state(BuildState { footnotes: s1.footnotes.push((label, span.start)), ..s1 }, closed_node(f)),
                Ok(()),
            ),
            FrameView::TableRow(row) => {
                let rest = s1.frames;
                if rest.len() > 0 && rest.last() is Table {
                    let table = rest.last()->Table_table;
                    let tspan = rest.last()->Table_span;
                    (
                        BuildState {
                            frames: rest.update(
                                rest.len() - 1,
                                FrameView::Table { table: TableNodeView { rows: table.rows.push(row), ..table }, span: tspan },
                            ),
                            ..s1
                        },
                        Ok(()),
                    )
                } else {
                    (s1, Err(BuildError::RowOutsideTable))
                }
            },
            FrameView::TableCell(p) => {
                let rest = s1.frames;
                if rest.len() > 0 && rest.last() is TableRow {
                    let row = rest.last()->TableRow_0;
                    (
                        BuildState {
                            frames: rest.update(rest.len() - 1, FrameView::TableRow(row.push(closed_cell(p)))),
                            ..s1
                        },
                        Ok(()),
                    )
                } else {
                    (s1, Err(BuildError::CellOutsideRow))
                }
            },
            _ => (with_block_state(s1, closed_node(f)), Ok(())),
        }
    }
}

/// The value of the last entry for `key`, or 0.
fn count_for(entries: &Vec<(String, usize)>, key: &String) -> (count: usize)
    ensures
        count == count_of(entries_view(entries@), key@),
{
    let ghost view = entries_view(entries@);
    let mut k = entries.len();
    proof {
        assert(view.take(k as int) =~= view);
    }
    while k > 0
        invariant
            k <= entries@.len(),
            view == entries_view(entries@),
            count_of(view.take(k as int), key@) == count_of(view, key@),
        decreases k,
    {
        proof {
            assert(view.take(k as int).drop_last() =~= view.take(k - 1));
        }
        if entries[k - 1].0 == *key {
            return entries[k - 1].1;
        }
        k -= 1;
    }
    0
}

/// Where `text` first occurs in the source bytes of `span` (see
/// [`heading_offset`]).
fn find_heading_offset(source: &str, offset: usize, span: Span, text: &str) -> (off: usize)
    ensures
        off == heading_offset(source@, offset, span, text@),
{
    let rs = if span.start >= offset {
        span.start - offset
    } else {
        0
    };
    let re = if span.end >= offset {
        span.end - offset
    } else {
        0
    };
    let bytes = source.as_bytes();
    if rs <= re && re <= bytes.len() && source.is_char_boundary(rs) && source.is_char_boundary(re) {
        let mut hay: Vec<u8> = Vec::new();
        let mut k = rs;
        while k < re
            invariant
                rs <= k <= re <= bytes@.len(),
                hay@ == bytes@.subrange(rs as int, k as int),
            decreases re - k,
        {
            hay.push(bytes[k]);
            proof {
                assert(hay@ =~= bytes@.subrange(rs as int, k + 1));
            }
            k += 1;
        }
        let needle = text.as_bytes();
        proof {
            assert(hay@ == encode_utf8(source@).subrange(rs as int, re as int));
            assert(needle@ == encode_utf8(text@));
        }
        if needle.len() == 0 {
            proof {
                assert(hay@.subrange(0, 0) =~= needle@);
            }
            return span.start;
        }
        let found = find_from(hay.as_slice(), needle, 0);
        proof {
            crate::search::lemma_first_occurrence_at_or_after(hay@, needle@, 0);
            assert(found == match first_occurrence(hay@, needle@, 0) { Some(i) => Some(i as usize), None => None });
        }
        match found {
            Some(o) => {
                proof {
                    assert(first_occurrence(hay@, needle@, 0) == Some(o as int));
                    assert(heading_offset(source@, offset, span, text@) == (span.start + o) as usize);
                }
                span.start + o
            },
            None => span.start,
        }
    } else {
        proof {
            assert(!(rs <= re && re <= encode_utf8(source@).len() && is_char_boundary(encode_utf8(source@), rs as int) && is_char_boundary(encode_utf8(source@), re as int)));
        }
        span.start
    }
}

proof fn lemma_nodes_view_prepend(before: Vec<BlockNode>, after: Vec<BlockNode>, block: BlockNode)
    requires
        after@ == seq![block] + before@,
    ensures
        nodes_view(after) == seq![node_view(block)] + nodes_view(before),
{
    assert forall|j: int| 0 <= j < after@.len() implies nodes_view(after)[j] == (seq![node_view(block)] + nodes_view(
        before,
    ))[j] by {
        crate::block::lemma_nodes_view_index(after, j);
        if j > 0 {
            crate::block::lemma_nodes_view_index(before, j - 1);
        }
    }
    assert(nodes_view(after) =~= seq![node_view(block)] + nodes_view(before));
}

/// The footnote paragraph's nodes: the prefix, then the text of each block.
fn footnote_paragraph(label: &String, children: &Vec<BlockNode>) -> (p: Paragraph)
    ensures
        paragraph_view(p) == (ParagraphView {
            span: None,
            children: seq![footnote_prefix(label@)] + footnote_nodes(nodes_view(*children)),
        }),
{
    let ghost views = nodes_view(*children);
    let mut paragraph = Paragraph { span: None, children: Vec::new() };
    let mut prefix = String::new();
    prefix.push('[');
    prefix.append(label.as_str());
    prefix.push(']');
    prefix.push(':');
    prefix.push(' ');
    let n = prefix.len();
    let mut marks: Vec<(Range<usize>, TextMark)> = Vec::new();
    marks.push((0..n, TextMark::default().italic()));
    let node = InlineNode { text: prefix, image: None, marks, source_range: None };
    proof {
        assert(prefix@ =~= seq!['['] + label@ + seq![']', ':', ' ']);
        assert(inline_view(node) =~= footnote_prefix(label@));
    }
    paragraph.push(node);
    proof {
        assert(views.len() == children@.len()) by {
            if children@.len() > 0 {
                crate::block::lemma_nodes_view_index(*children, 0);
            }
        }
        assert(views.take(0) =~= Seq::<NodeView>::empty());
        assert(paragraph_view(paragraph).children =~= seq![footnote_prefix(label@)] + footnote_nodes(views.take(0)));
    }
    let mut k: usize = 0;
    while k < children.len()
        invariant
            k <= children@.len(),
            views == nodes_view(*children),
            views.len() == children@.len(),
            paragraph_view(paragraph) == (ParagraphView {
                span: None,
                children: seq![footnote_prefix(label@)] + footnote_nodes(views.take(k as int)),
            }),
        decreases children@.len() - k,
    {
        proof {
            crate::block::lemma_nodes_view_index(*children, k as int);
            assert(views.take(k + 1).drop_last() =~= views.take(k as int));
            assert(views.take(k + 1).last() == node_view(children@[k as int]));
        }
        let t = children[k].text();
        if !t.as_str().is_empty() {
            let chars = chars_of(t.as_str());
            let e = trimmed_end(&chars, 0, chars.len());
            let tt = collect_chars(&chars, 0, e);
            proof {
                assert(chars@.subrange(0, chars@.len() as int) =~= chars@);
            }
            let ghost before = paragraph_view(paragraph);
            paragraph.push_str(tt.as_str());
            proof {
                assert(paragraph_view(paragraph).children =~= seq![footnote_prefix(label@)] + footnote_nodes(
                    views.take(k + 1),
                ));
            }
        } else {
            proof {
                assert(paragraph_view(paragraph).children =~= seq![footnote_prefix(label@)] + footnote_nodes(
                    views.take(k + 1),
                ));
            }
        }
        k += 1;
    }
    proof {
        assert(views.take(k as int) =~= views);
    }
    paragraph
}

impl<'a> DocumentBuilder<'a> {
    /// Counts a closing heading's slug base and records its slug.
    fn record_heading_slug(&mut self, paragraph: &Paragraph, span: Span)
        requires
            old(self).options.parse_heading_slugs,
        ensures
            final(self).config() == old(self).config(),
            final(self).state() == heading_slug_step(
                old(self).config(),
                old(self).state(),
                paragraph_view(*paragraph),
                span,
            ),
    {
        let ghost s0 = self.state();
        let text = paragraph.text();
        let base = heading_slug(text.as_str());
        let count = count_for(&self.heading_slug_counts, &base);
        let mut slug = base.clone();
        if count != 0 {
            slug.push('-');
            push_decimal(&mut slug, count as u64);
        }
        proof {
            assert(slug@ =~= numbered_slug(base@, count));
        }
        let next = if count < usize::MAX {
            count + 1
        } else {
            count
        };
        self.heading_slug_counts.push((base, next));
        proof {
            assert(entries_view(self.heading_slug_counts@) =~= s0.slug_counts.push((base@, next)));
        }
        if !slug.as_str().is_empty() && next <= 128 {
            let off = find_heading_offset(self.source, self.offset, span, text.as_str());
            let ghost slug_view = slug@;
            self.heading_slugs.push((slug, off));
            proof {
                assert(entries_view(self.heading_slugs@) =~= s0.slugs.push((slug_view, off)));
            }
        }
        proof {
            assert(self.state() =~= heading_slug_step(self.config(), s0, paragraph_view(*paragraph), span));
        }
    }

    /// Closes the innermost open element into the block it makes, given to
    /// the element around it (see [`close_step`]).
    pub fn close_frame(&mut self) -> (result: Result<(), BuildError>)
        ensures
            final(self).config() == old(self).config(),
            (final(self).state(), result) == close_step(old(self).config(), old(self).state()),
    {
        let ghost s0 = self.state();
        let ghost cfg = self.config();
        let frame = match self.frames.pop() {
            Some(f) => f,
            None => return Err(BuildError::Unbalanced),
        };
        let ghost s1 = BuildState { frames: s0.frames.drop_last(), ..s0 };
        proof {
            assert(frames_view(self.frames@) =~= s0.frames.drop_last());
            assert(self.state() =~= s1);
        }
        match frame {
            Frame::Root(_) => Err(BuildError::ClosedRoot),
            Frame::TableRow(row) => self.attach_row(row),
            Frame::TableCell(paragraph) => self.attach_cell(paragraph),
            _ => {
                match &frame {
                    Frame::Heading { paragraph, span, .. } => {
                        if self.options.parse_heading_slugs {
                            self.record_heading_slug(paragraph, *span);
                        }
                    },
                    Frame::Footnote { label, span, .. } => {
                        let key = label.clone();
                        self.footnote_definitions.push((key, span.start));
                        proof {
                            assert(entries_view(self.footnote_definitions@) =~= s1.footnotes.push((label@, span.start)));
                        }
                    },
                    _ => {},
                }
                let ghost s2 = self.state();
                let block = close_block(frame);
                push_block(&mut self.frames, block);
                proof {
                    assert(self.state() =~= with_block_state(s2, closed_node(frame_view(frame))));
                }
                Ok(())
            },
        }
    }

    /// Adds a closed row to the table around it.
    fn attach_row(&mut self, row: TableRow) -> (result: Result<(), BuildError>)
        ensures
            final(self).config() == old(self).config(),
            (final(self).state(), result) == ({
                let s1 = old(self).state();
                let rest = s1.frames;
                if rest.len() > 0 && rest.last() is Table {
                    let table = rest.last()->Table_table;
                    let tspan = rest.last()->Table_span;
                    (
                        BuildState {
                            frames: rest.update(
                                rest.len() - 1,
                                FrameView::Table {
                                    table: TableNodeView { rows: table.rows.push(table_row_view(row)), ..table },
                                    span: tspan,
                                },
                            ),
                            ..s1
                        },
                        Ok(()),
                    )
                } else {
                    (s1, Err(BuildError::RowOutsideTable))
                }
            }),
    {
        let ghost s1 = self.state();
        let n = self.frames.len();
        if n == 0 {
            return Err(BuildError::RowOutsideTable);
        }
        match &mut self.frames[n - 1] {
            Frame::Table { table, .. } => {
                let ghost rows0 = table.children@;
                table.children.push(row);
                proof {
                    assert(table.children@.map_values(|r: TableRow| table_row_view(r)) =~= rows0.map_values(
                        |r: TableRow| table_row_view(r),
                    ).push(table_row_view(row)));
                }
            },
            _ => {
                return Err(BuildError::RowOutsideTable);
            },
        }
        proof {
            assert(self.state().frames =~= s1.frames.update(
                n - 1,
                FrameView::Table {
                    table: TableNodeView {
                        rows: s1.frames.last()->Table_table.rows.push(table_row_view(row)),
                        ..s1.frames.last()->Table_table
                    },
                    span: s1.frames.last()->Table_span,
                },
            ));
            assert(self.state() =~= BuildState { frames: self.state().frames, ..s1 });
        }
        Ok(())
    }

    /// Adds a closed cell to the row around it.
    fn attach_cell(&mut self, paragraph: Paragraph) -> (result: Result<(), BuildError>)
        ensures
            final(self).config() == old(self).config(),
            (final(self).state(), result) == ({
                let s1 = old(self).state();
                let rest = s1.frames;
                if rest.len() > 0 && rest.last() is TableRow {
                    let row = rest.last()->TableRow_0;
                    (
                        BuildState {
                            frames: rest.update(
                                rest.len() - 1,
                                FrameView::TableRow(row.push(closed_cell(paragraph_view(paragraph)))),
                            ),
                            ..s1
                        },
                        Ok(()),
                    )
                } else {
                    (s1, Err(BuildError::CellOutsideRow))
                }
            }),
    {
        let ghost s1 = self.state();
        let n = self.frames.len();
        if n == 0 {
            return Err(BuildError::CellOutsideRow);
        }
        match &mut self.frames[n - 1] {
            Frame::TableRow(row) => {
                let ghost cells0 = row.children@;
                let cell = TableCell {
                    children: paragraph,
                    col_span: 1,
                    row_span: 1,
                    is_header: false,
                    alignment: ColumnumnAlign::Left,
                };
                row.children.push(cell);
                proof {
                    assert(table_row_view(*row) =~= cells0.map_values(|c: TableCell| crate::block::cell_node_view(c)).push(
                        crate::block::cell_node_view(cell),
                    ));
                }
            },
            _ => {
                return Err(BuildError::CellOutsideRow);
            },
        }
        proof {
            assert(self.state().frames =~= s1.frames.update(
                n - 1,
                FrameView::TableRow(s1.frames.last()->TableRow_0.push(closed_cell(paragraph_view(paragraph)))),
            ));
            assert(self.state() =~= BuildState { frames: self.state().frames, ..s1 });
        }
        Ok(())
    }
}

/// The block that a closed element becomes (see [`closed_node`]).
fn close_block(frame: Frame) -> (block: BlockNode)
    ensures
        node_view(block) == closed_node(frame_view(frame)),
{
    match frame {
        Frame::Paragraph { mut paragraph, span } => {
            paragraph.set_span(span);
            BlockNode::Paragraph(paragraph)
        },
        Frame::Heading { level, mut paragraph, span } => {
            paragraph.set_span(span);
            BlockNode::Heading { level, children: paragraph, span: Some(span) }
        },
        Frame::Blockquote { children, kind, span } => BlockNode::Blockquote { children, kind, span: Some(span) },
        Frame::List { children, ordered, start, span } => BlockNode::List { children, ordered, start, span: Some(span) },
        Frame::Item { children, inline, checked, span } => close_item(children, inline, checked, span),
        Frame::CodeBlock { code, info, span } => {
            let block = match info {
                Some(info) => CodeBlock::new_fenced(code, info.as_str(), Some(span)),
                None => CodeBlock::new(code, None, Some(span)),
            };
            BlockNode::CodeBlock(block)
        },
        Frame::HtmlBlock { html, span } => {
            let mut paragraph = Paragraph::new(html);
            paragraph.set_span(span);
            BlockNode::Paragraph(paragraph)
        },
        Frame::Metadata { text, kind, span } => {
            let lang = match kind {
                MetadataKind::YamlStyle => {
                    proof {
                        reveal_strlit("yaml");
                    }
                    String::from_str("yaml")
                },
                MetadataKind::PlusesStyle => {
                    proof {
                        reveal_strlit("toml");
                    }
                    String::from_str("toml")
                },
            };
            proof {
                assert(lang@ =~= match kind {
                    MetadataKind::YamlStyle => seq!['y', 'a', 'm', 'l'],
                    MetadataKind::PlusesStyle => seq!['t', 'o', 'm', 'l'],
                });
            }
            BlockNode::CodeBlock(CodeBlock::new(text, Some(lang), Some(span)))
        },
        Frame::Footnote { label, children, span } => {
            let mut paragraph = footnote_paragraph(&label, &children);
            paragraph.set_span(span);
            BlockNode::Paragraph(paragraph)
        },
        Frame::Table { mut table, span } => {
            table.span = Some(span);
            BlockNode::Table(table)
        },
        _ => BlockNode::Unknown,
    }
}

/// The list item that a closed item element becomes: its inline text, when
/// it shows something, as a first paragraph over the item's span.
fn close_item(children: Vec<BlockNode>, inline: Paragraph, checked: Option<bool>, span: Span) -> (block: BlockNode)
    ensures
        node_view(block) == closed_node(
            FrameView::Item { children: nodes_view(children), inline: paragraph_view(inline), checked, span },
        ),
{
    let mut children = children;
    let mut inline = inline;
    let ghost inline_view0 = paragraph_view(inline);
    let ghost children0 = children;
    let blank = inline.is_empty();
    proof {
        if !blank {
            let i = choose|i: int|
                0 <= i < inline.children@.len() && !((#[trigger] inline.children@[i]).text@.len() == 0
                    && inline.children@[i].image is None);
            assert(inline_view0.children[i] == inline_view(inline.children@[i]));
        } else {
            assert forall|i: int| 0 <= i < inline_view0.children.len() implies (
            #[trigger] inline_view0.children[i]).text.len() == 0 && inline_view0.children[i].image is None by {
                assert(inline_view0.children[i] == inline_view(inline.children@[i]));
            }
        }
        assert(blank == paragraph_blank(inline_view0));
    }
    if !blank {
        inline.set_span(span);
        let block = BlockNode::Paragraph(inline);
        children.insert(0, block);
        proof {
            assert(children@ =~= seq![block] + children0@);
            lemma_nodes_view_prepend(children0, children, block);
        }
    }
    BlockNode::ListItem { children, spread: false, checked, span: Some(span) }
}

/// The absolute span of a parse event's range.
pub open spec fn span_of(cfg: BuildConfig, range: Range<usize>) -> Span {
    Span { start: (cfg.offset + range.start) as usize, end: (cfg.offset + range.end) as usize }
}

pub open spec fn empty_paragraph() -> ParagraphView {
    ParagraphView { span: None, children: Seq::empty() }
}

/// The column alignment of the document model for a parsed one.
pub open spec fn align_of(a: ColumnAlignment) -> ColumnumnAlign {
    match a {
        ColumnAlignment::Center => ColumnumnAlign::Center,
        ColumnAlignment::Right => ColumnumnAlign::Right,
        _ => ColumnumnAlign::Left,
    }
}

/// Each parsed column alignment keeps its meaning in the document model: a
/// right-aligned column (`--:`) stays right-aligned, a centred one (`:-:`)
/// stays centred, and a column aligned left or not at all is left-aligned.
pub proof fn lemma_align_of_keeps_alignment(a: ColumnAlignment)
    ensures
        align_of(a) == ColumnumnAlign::Right <==> a == ColumnAlignment::Right,
        align_of(a) == ColumnumnAlign::Center <==> a == ColumnAlignment::Center,
        align_of(a) == ColumnumnAlign::Left <==> (a == ColumnAlignment::Left || a
            == ColumnAlignment::Unspecified),
{
}

/// When a table opens, the builder pushes one table frame, with no rows yet
/// and one alignment per column of the delimiter row, each keeping its
/// meaning: right stays right, centre stays centre, and left or unspecified
/// becomes left.
pub proof fn lemma_table_start_keeps_column_alignments(
    cfg: BuildConfig,
    s: BuildState,
    aligns: Vec<ColumnAlignment>,
    range: Range<usize>,
)
    ensures
        ({
            let (after, result) = apply_step(cfg, s, MarkdownEvent::Start(MarkdownTag::Table(aligns)), range);
            &&& result is Ok
            &&& after.frames.drop_last() == s.frames
            &&& after.frames.last() matches FrameView::Table { table, span } && {
                &&& span == span_of(cfg, range)
                &&& table.rows.len() == 0
                &&& table.column_aligns.len() == aligns@.len()
                &&& forall|k: int|
                    0 <= k < aligns@.len() ==> {
                        &&& (table.column_aligns[k] == ColumnumnAlign::Right <==> aligns@[k]
                            == ColumnAlignment::Right)
                        &&& (table.column_aligns[k] == ColumnumnAlign::Center <==> aligns@[k]
                            == ColumnAlignment::Center)
                        &&& (table.column_aligns[k] == ColumnumnAlign::Left <==> (aligns@[k]
                            == ColumnAlignment::Left || aligns@[k] == ColumnAlignment::Unspecified))
                    }
            }
        }),
{
    let (after, result) = apply_step(cfg, s, MarkdownEvent::Start(MarkdownTag::Table(aligns)), range);
    assert(after.frames.drop_last() =~= s.frames);
}

/// A title, or nothing when it is empty.
pub open spec fn nonempty_title(title: String) -> Option<String> {
    if title@.len() == 0 {
        None
    } else {
        Some(title)
    }
}

pub open spec fn with_frame(s: BuildState, f: FrameView) -> BuildState {
    BuildState { frames: s.frames.push(f), ..s }
}

pub open spec fn with_mark(s: BuildState, m: TextMark) -> BuildState {
    BuildState { marks: s.marks.push(m), ..s }
}

/// The state after an element opens over `range`.
pub open spec fn start_step(cfg: BuildConfig, s: BuildState, tag: MarkdownTag, range: Range<usize>) -> BuildState {
    let span = span_of(cfg, range);
    match tag {
        MarkdownTag::Paragraph => with_frame(s, FrameView::Paragraph { paragraph: empty_paragraph(), span }),
        MarkdownTag::Heading(level) => with_frame(s, FrameView::Heading { level, paragraph: empty_paragraph(), span }),
        MarkdownTag::BlockQuote(kind) => with_frame(s, FrameView::Blockquote { children: Seq::empty(), kind, span }),
        MarkdownTag::List(start) => with_frame(
            s,
            FrameView::List { children: Seq::empty(), ordered: start is Some, start, span },
        ),
        MarkdownTag::Item => with_frame(
            s,
            FrameView::Item { children: Seq::empty(), inline: empty_paragraph(), checked: None, span },
        ),
        MarkdownTag::CodeBlock(info) => with_frame(
            s,
            FrameView::CodeBlock {
                code: Seq::empty(),
                info: match info {
                    Some(i) => Some(trimmed(i@)),
                    None => None,
                },
                span,
            },
        ),
        MarkdownTag::HtmlBlock => with_frame(s, FrameView::HtmlBlock { html: Seq::empty(), span }),
        MarkdownTag::MetadataBlock(kind) => with_frame(s, FrameView::Metadata { text: Seq::empty(), kind, span }),
        MarkdownTag::FootnoteDefinition(label) => with_frame(
            s,
            FrameView::Footnote { label: label@, children: Seq::empty(), span },
        ),
        MarkdownTag::Table(aligns) => with_frame(
            s,
            FrameView::Table {
                table: TableNodeView {
                    rows: Seq::empty(),
                    column_aligns: aligns@.map_values(|a: ColumnAlignment| align_of(a)),
                    span: None,
                },
                span,
            },
        ),
        MarkdownTag::TableHead | MarkdownTag::TableRow => with_frame(s, FrameView::TableRow(Seq::empty())),
        MarkdownTag::TableCell => with_frame(s, FrameView::TableCell(empty_paragraph())),
        MarkdownTag::Emphasis => with_mark(s, TextMark { italic: true, ..plain_mark() }),
        MarkdownTag::Strong => with_mark(s, TextMark { bold: true, ..plain_mark() }),
        MarkdownTag::Strikethrough => with_mark(s, TextMark { strikethrough: true, ..plain_mark() }),
        MarkdownTag::Link { destination, title } => with_mark(
            s,
            TextMark {
                link: Some(LinkMark { url: destination, identifier: None, title: nonempty_title(title) }),
                ..plain_mark()
            },
        ),
        MarkdownTag::Image { destination, title } => BuildState {
            image: Some(
                CaptureView {
                    url: destination@,
                    title: if title@.len() == 0 {
                        None
                    } else {
                        Some(title@)
                    },
                    alt: Seq::empty(),
                },
            ),
            ..s
        },
        MarkdownTag::DefinitionList | MarkdownTag::DefinitionListTitle | MarkdownTag::DefinitionListDefinition
        | MarkdownTag::Superscript | MarkdownTag::Subscript => s,
    }
}

/// The inline node of a captured image, linked as the text around it is.
pub open spec fn image_inline(c: CaptureView, marks: Seq<TextMark>) -> InlineView {
    InlineView {
        text: Seq::empty(),
        image: Some(
            crate::block::ImageNodeView {
                url: c.url,
                link: crate::block::link_opt_view(combined(marks).link),
                title: c.title,
                alt: Some(c.alt),
            },
        ),
        marks: Seq::empty(),
        source_range: None,
    }
}

/// The state after an element closes, and whether it could: an inline
/// style's mark is dropped, a captured image joins the text, and a block
/// element closes (see [`close_step`]).
pub open spec fn end_step(cfg: BuildConfig, s: BuildState, tag: MarkdownTagEnd) -> (BuildState, Result<(), BuildError>) {
    match tag {
        MarkdownTagEnd::Emphasis | MarkdownTagEnd::Strong | MarkdownTagEnd::Strikethrough | MarkdownTagEnd::Link => (
            BuildState {
                marks: if s.marks.len() > 0 {
                    s.marks.drop_last()
                } else {
                    s.marks
                },
                ..s
            },
            Ok(()),
        ),
        MarkdownTagEnd::Image => match s.image {
            Some(c) => {
                let s1 = BuildState { image: None, ..s };
                match frames_with_inline(s.frames, image_inline(c, s.marks)) {
                    Some(f) => (BuildState { frames: f, ..s1 }, Ok(())),
                    None => (s1, Err(BuildError::OutsideText)),
                }
            },
            None => (s, Ok(())),
        },
        MarkdownTagEnd::DefinitionList | MarkdownTagEnd::DefinitionListTitle
        | MarkdownTagEnd::DefinitionListDefinition | MarkdownTagEnd::Superscript | MarkdownTagEnd::Subscript => (
            s,
            Ok(()),
        ),
        _ => close_step(cfg, s),
    }
}

fn trimmed_info(info: &String) -> (t: String)
    ensures
        t@ == trimmed(info@),
{
    let chars = chars_of(info.as_str());
    let n = chars.len();
    let e = trimmed_end(&chars, 0, n);
    let st = trimmed_start(&chars, 0, e);
    proof {
        assert(chars@.subrange(0, n as int) =~= chars@);
    }
    collect_chars(&chars, st, e)
}

fn column_aligns(aligns: &Vec<ColumnAlignment>) -> (out: Vec<ColumnumnAlign>)
    ensures
        out@ == aligns@.map_values(|a: ColumnAlignment| align_of(a)),
{
    let mut out: Vec<ColumnumnAlign> = Vec::new();
    let mut k: usize = 0;
    while k < aligns.len()
        invariant
            k <= aligns@.len(),
            out@ == aligns@.take(k as int).map_values(|a: ColumnAlignment| align_of(a)),
        decreases aligns@.len() - k,
    {
        let a = match aligns[k] {
            ColumnAlignment::Center => ColumnumnAlign::Center,
            ColumnAlignment::Right => ColumnumnAlign::Right,
            _ => ColumnumnAlign::Left,
        };
        out.push(a);
        proof {
            assert(out@ =~= aligns@.take(k + 1).map_values(|a: ColumnAlignment| align_of(a)));
        }
        k += 1;
    }
    proof {
        assert(aligns@.take(k as int) =~= aligns@);
    }
    out
}

impl<'a> DocumentBuilder<'a> {
    /// Opens an element over `range` (see [`start_step`]).
    pub fn start(&mut self, tag: MarkdownTag, range: Range<usize>)
        requires
            old(self).offset + range.end <= usize::MAX,
            range.start <= range.end,
        ensures
            final(self).config() == old(self).config(),
            final(self).state() == start_step(old(self).config(), old(self).state(), tag, range),
    {
        let ghost s0 = self.state();
        let span = Span { start: self.offset + range.start, end: self.offset + range.end };
        let empty = Paragraph { span: None, children: Vec::new() };
        let children: Vec<BlockNode> = Vec::new();
        proof {
            assert(paragraph_view(empty) =~= empty_paragraph());
            assert(nodes_view(children) =~= Seq::<NodeView>::empty());
        }
        match tag {
            MarkdownTag::Paragraph => self.frames.push(Frame::Paragraph { paragraph: empty, span }),
            MarkdownTag::Heading(level) => self.frames.push(Frame::Heading { level, paragraph: empty, span }),
            MarkdownTag::BlockQuote(kind) => self.frames.push(Frame::Blockquote { children, kind, span }),
            MarkdownTag::List(start) => self.frames.push(
                Frame::List { children, ordered: start.is_some(), start, span },
            ),
            MarkdownTag::Item => self.frames.push(
                Frame::Item { children, inline: empty, checked: None, span },
            ),
            MarkdownTag::CodeBlock(info) => {
                let info = match &info {
                    Some(i) => Some(trimmed_info(i)),
                    None => None,
                };
                self.frames.push(Frame::CodeBlock { code: String::new(), info, span });
            },
            MarkdownTag::HtmlBlock => self.frames.push(Frame::HtmlBlock { html: String::new(), span }),
            MarkdownTag::MetadataBlock(kind) => self.frames.push(Frame::Metadata { text: String::new(), kind, span }),
            MarkdownTag::FootnoteDefinition(label) => self.frames.push(
                Frame::Footnote { label, children, span },
            ),
            MarkdownTag::Table(aligns) => {
                let table = Table { children: Vec::new(), column_aligns: column_aligns(&aligns), span: None };
                proof {
                    assert(table_node_view(table) =~= TableNodeView {
                        rows: Seq::empty(),
                        column_aligns: aligns@.map_values(|a: ColumnAlignment| align_of(a)),
                        span: None,
                    });
                }
                self.frames.push(Frame::Table { table, span });
            },
            MarkdownTag::TableHead | MarkdownTag::TableRow => {
                let row = TableRow { children: Vec::new() };
                proof {
                    assert(table_row_view(row) =~= Seq::<CellNodeView>::empty());
                }
                self.frames.push(Frame::TableRow(row));
            },
            MarkdownTag::TableCell => self.frames.push(Frame::TableCell(empty)),
            MarkdownTag::Emphasis => self.marks.push(TextMark::default().italic()),
            MarkdownTag::Strong => self.marks.push(TextMark::default().bold()),
            MarkdownTag::Strikethrough => self.marks.push(TextMark::default().strikethrough()),
            MarkdownTag::Link { destination, title } => {
                let title = if title.as_str().is_empty() {
                    None
                } else {
                    Some(title)
                };
                let link = LinkMark { url: destination, identifier: None, title };
                self.marks.push(TextMark::default().link(link));
            },
            MarkdownTag::Image { destination, title } => {
                let title = if title.as_str().is_empty() {
                    None
                } else {
                    Some(title)
                };
                self.image = Some(ImageCapture { url: destination, title, alt: String::new() });
            },
            MarkdownTag::DefinitionList | MarkdownTag::DefinitionListTitle | MarkdownTag::DefinitionListDefinition
            | MarkdownTag::Superscript | MarkdownTag::Subscript => {},
        }
        proof {
            assert(self.state() =~= start_step(self.config(), s0, tag, range));
        }
    }

    /// Closes an element (see [`end_step`]).
    pub fn end(&mut self, tag: MarkdownTagEnd) -> (result: Result<(), BuildError>)
        ensures
            final(self).config() == old(self).config(),
            (final(self).state(), result) == end_step(old(self).config(), old(self).state(), tag),
    {
        let ghost s0 = self.state();
        match tag {
            MarkdownTagEnd::Emphasis | MarkdownTagEnd::Strong | MarkdownTagEnd::Strikethrough | MarkdownTagEnd::Link => {
                self.marks.pop();
                proof {
                    assert(self.state() =~= end_step(self.config(), s0, tag).0);
                }
                Ok(())
            },
            MarkdownTagEnd::Image => {
                let mut captured: Option<ImageCapture> = None;
                std::mem::swap(&mut captured, &mut self.image);
                match captured {
                    Some(c) => {
                        let mark = combined_mark(&self.marks);
                        let image = ImageNode { url: c.url, link: mark.link, title: c.title, alt: Some(c.alt) };
                        let node = InlineNode::image(image);
                        let ghost s1 = self.state();
                        let result = push_inline(&mut self.frames, node);
                        proof {
                            assert(inline_view(node) =~= image_inline(capture_view(c), s0.marks));
                            assert(self.state() =~= end_step(self.config(), s0, tag).0);
                        }
                        result
                    },
                    None => Ok(()),
                }
            },
            MarkdownTagEnd::DefinitionList | MarkdownTagEnd::DefinitionListTitle
            | MarkdownTagEnd::DefinitionListDefinition | MarkdownTagEnd::Superscript | MarkdownTagEnd::Subscript => Ok(
                (),
            ),
            _ => self.close_frame(),
        }
    }
}

/// The text node of `text` marked over all of it with `mark`, over the
/// absolute source range of `range` when it has one.
pub open spec fn text_node(cfg: BuildConfig, text: Seq<char>, mark: MarkView, range: Option<Range<usize>>) -> InlineView {
    InlineView {
        text,
        image: None,
        marks: seq![(0..encode_utf8(text).len() as usize, mark)],
        source_range: match range {
            Some(r) => Some(((cfg.offset + r.start) as usize)..((cfg.offset + r.end) as usize)),
            None => None,
        },
    }
}

/// The state after a run of text joins the innermost element that takes
/// text; nothing happens for empty text.
pub open spec fn push_inline_text_step(
    cfg: BuildConfig,
    s: BuildState,
    text: Seq<char>,
    mark: MarkView,
    range: Option<Range<usize>>,
) -> (BuildState, Result<(), BuildError>) {
    if text.len() == 0 {
        (s, Ok(()))
    } else {
        match frames_with_inline(s.frames, text_node(cfg, text, mark, range)) {
            Some(f) => (BuildState { frames: f, ..s }, Ok(())),
            None => (s, Err(BuildError::OutsideText)),
        }
    }
}

/// The state after each piece joins the text in turn, stopping at the
/// first that cannot.
pub open spec fn push_pieces(
    cfg: BuildConfig,
    s: BuildState,
    pieces: Seq<(Seq<char>, MarkView, Option<Range<usize>>)>,
) -> (BuildState, Result<(), BuildError>)
    decreases pieces.len(),
{
    if pieces.len() == 0 {
        (s, Ok(()))
    } else {
        let (s1, r) = push_pieces(cfg, s, pieces.drop_last());
        if r is Err {
            (s1, r)
        } else {
            push_inline_text_step(cfg, s1, pieces.last().0, pieces.last().1, pieces.last().2)
        }
    }
}

/// The part `a..b` of a source range that starts at byte 0 of a text.
pub open spec fn sub_range(range: Option<Range<usize>>, a: int, b: int) -> Option<Range<usize>> {
    match range {
        Some(r) => Some(((r.start + a) as usize)..((r.start + b) as usize)),
        None => None,
    }
}

/// `mark` linking to `url`.
pub open spec fn link_mark_view(mark: MarkView, url: Seq<char>) -> MarkView {
    MarkView { link: Some(LinkView { url, identifier: None, title: None }), ..mark }
}

pub type Piece = (Seq<char>, MarkView, Option<Range<usize>>);

/// The plain piece of bytes `a..b` of `text`, if not empty.
pub open spec fn gap_piece(text: Seq<char>, mark: MarkView, range: Option<Range<usize>>, a: int, b: int) -> Seq<Piece> {
    if a < b {
        seq![(chars_between(text, a, b), mark, sub_range(range, a, b))]
    } else {
        Seq::empty()
    }
}

/// The plain piece from byte `c` to the end of `text`, if not empty; its
/// source range ends where the whole text's does.
pub open spec fn tail_piece(text: Seq<char>, mark: MarkView, range: Option<Range<usize>>, c: int) -> Seq<Piece> {
    let n = encode_utf8(text).len() as int;
    if c < n {
        seq![
            (chars_between(text, c, n), mark, match range {
                Some(r) => Some(((r.start + c) as usize)..r.end),
                None => None,
            }),
        ]
    } else {
        Seq::empty()
    }
}

/// The pieces of `text` from byte `cursor` on, with the links from index
/// `j` on marked as links to themselves and the text around them plain.
pub open spec fn url_pieces_from(
    text: Seq<char>,
    mark: MarkView,
    range: Option<Range<usize>>,
    links: Seq<Range<usize>>,
    j: int,
    cursor: int,
) -> Seq<Piece>
    decreases links.len() - j,
{
    if j < 0 || j >= links.len() {
        tail_piece(text, mark, range, cursor)
    } else {
        let l = links[j];
        let url = chars_between(text, l.start as int, l.end as int);
        gap_piece(text, mark, range, cursor, l.start as int) + seq![
            (url, link_mark_view(mark, url), sub_range(range, l.start as int, l.end as int)),
        ] + url_pieces_from(text, mark, range, links, j + 1, l.end as int)
    }
}

/// The pieces that plain text splits into around the URLs in it.
pub open spec fn url_pieces(text: Seq<char>, mark: MarkView, range: Option<Range<usize>>) -> Seq<Piece> {
    url_pieces_from(text, mark, range, url_links(text), 0, 0)
}

/// Whether every character of `text` is whitespace.
pub open spec fn blank(text: Seq<char>) -> bool {
    forall|i: int| 0 <= i < text.len() ==> is_whitespace(#[trigger] text[i])
}

/// Whether an open element collects raw text.
pub open spec fn collects_raw(f: FrameView) -> bool {
    ||| f is CodeBlock
    ||| f is HtmlBlock
    ||| f is Metadata
}

/// `f` with `text` appended to the raw text it collects.
pub open spec fn with_raw(f: FrameView, text: Seq<char>) -> FrameView {
    match f {
        FrameView::CodeBlock { code, info, span } => FrameView::CodeBlock { code: code + text, info, span },
        FrameView::HtmlBlock { html, span } => FrameView::HtmlBlock { html: html + text, span },
        FrameView::Metadata { text: t, kind, span } => FrameView::Metadata { text: t + text, kind, span },
        _ => f,
    }
}

/// The state after text arrives over `range`: it joins an image's alt text
/// while one is open, the raw text of a code, HTML or metadata block, or
/// else the inline text, split around its URLs unless it is blank or inside
/// a link or code.
pub open spec fn push_text_step(cfg: BuildConfig, s: BuildState, text: Seq<char>, range: Option<Range<usize>>) -> (
    BuildState,
    Result<(), BuildError>,
) {
    match s.image {
        Some(c) => (BuildState { image: Some(CaptureView { alt: c.alt + text, ..c }), ..s }, Ok(())),
        None => if s.frames.len() > 0 && collects_raw(s.frames.last()) {
            (BuildState { frames: s.frames.update(s.frames.len() - 1, with_raw(s.frames.last(), text)), ..s }, Ok(()))
        } else {
            let mark = combined(s.marks);
            if mark.link is Some || mark.code || blank(text) {
                push_inline_text_step(cfg, s, text, mark_view(mark), range)
            } else {
                push_pieces(cfg, s, url_pieces(text, mark_view(mark), range))
            }
        },
    }
}

proof fn lemma_push_pieces_stops(cfg: BuildConfig, s: BuildState, p: Seq<Piece>, q: Seq<Piece>)
    requires
        push_pieces(cfg, s, p).1 is Err,
    ensures
        push_pieces(cfg, s, p + q) == push_pieces(cfg, s, p),
    decreases q.len(),
{
    if q.len() > 0 {
        lemma_push_pieces_stops(cfg, s, p, q.drop_last());
        assert((p + q).drop_last() =~= p + q.drop_last());
    } else {
        assert(p + q =~= p);
    }
}

/// The largest source position that the pieces of a text of `n` bytes over
/// `range` reach.
pub open spec fn piece_bound(range: Option<Range<usize>>, n: int) -> int {
    match range {
        Some(r) => if r.start + n >= r.end {
            r.start + n
        } else {
            r.end as int
        },
        None => 0,
    }
}

pub open spec fn piece_view(p: (String, TextMark, Option<Range<usize>>)) -> Piece {
    (p.0@, mark_view(p.1), p.2)
}

/// Whether the source range of a piece lies within `bound`.
pub open spec fn piece_within(p: Option<Range<usize>>, bound: int) -> bool {
    p matches Some(q) ==> q.start <= bound && q.end <= bound
}

fn copy_range(range: &Option<Range<usize>>) -> (copy: Option<Range<usize>>)
    ensures
        copy == *range,
{
    match range {
        Some(r) => Some(r.start..r.end),
        None => None,
    }
}

/// The pieces that `text` splits into around its URLs (see [`url_pieces`]).
fn url_text_pieces(text: &str, mark: &TextMark, range: &Option<Range<usize>>) -> (pieces: Vec<
    (String, TextMark, Option<Range<usize>>),
>)
    requires
        range matches Some(r) ==> r.start + encode_utf8(text@).len() <= usize::MAX && r.end <= usize::MAX,
    ensures
        pieces@.map_values(|p: (String, TextMark, Option<Range<usize>>)| piece_view(p)) == url_pieces(
            text@,
            mark_view(*mark),
            *range,
        ),
        forall|i: int|
            0 <= i < pieces@.len() ==> piece_within(
                (#[trigger] pieces@[i]).2,
                piece_bound(*range, encode_utf8(text@).len() as int),
            ),
{
    let found = find_url_links(text);
    let len = str_byte_len(text);
    let ghost b = text.spec_bytes();
    let ghost mv = mark_view(*mark);
    let ghost bound: int = piece_bound(*range, b.len() as int);
    let mut pieces: Vec<(String, TextMark, Option<Range<usize>>)> = Vec::new();
    let mut cursor: usize = 0;
    let mut j: usize = 0;
    while j < found.len()
        invariant
            j <= found@.len(),
            found@ == url_links(text@),
            b == text.spec_bytes(),
            len == b.len(),
            mv == mark_view(*mark),
            bound == piece_bound(*range, b.len() as int),
            range matches Some(r) ==> r.start + b.len() <= usize::MAX,
            cursor <= len,
            is_char_boundary(b, cursor as int),
            j < found@.len() ==> cursor <= found@[j as int].start,
            forall|i: int|
                0 <= i < found@.len() ==> (#[trigger] found@[i]).start <= found@[i].end <= b.len()
                    && is_char_boundary(b, found@[i].start as int) && is_char_boundary(b, found@[i].end as int),
            forall|i: int| 0 < i < found@.len() ==> found@[i - 1].end <= (#[trigger] found@[i]).start,
            pieces@.map_values(|p: (String, TextMark, Option<Range<usize>>)| piece_view(p)) + url_pieces_from(
                text@,
                mv,
                *range,
                found@,
                j as int,
                cursor as int,
            ) == url_pieces_from(text@, mv, *range, found@, 0, 0),
            forall|i: int| 0 <= i < pieces@.len() ==> piece_within((#[trigger] pieces@[i]).2, bound),
        decreases found.len() - j,
    {
        let start = found[j].start;
        let end = found[j].end;
        let ghost before = pieces@.map_values(|p: (String, TextMark, Option<Range<usize>>)| piece_view(p));
        if cursor < start {
            let piece_range = match range {
                Some(r) => Some((r.start + cursor)..(r.start + start)),
                None => None,
            };
            pieces.push((substring(text, cursor, start), mark.clone(), piece_range));
        }
        let url = substring(text, start, end);
        let link = LinkMark { url: url.clone(), identifier: None, title: None };
        let link_mark = mark.clone().link(link);
        let link_range = match range {
            Some(r) => Some((r.start + start)..(r.start + end)),
            None => None,
        };
        pieces.push((url, link_mark, link_range));
        proof {
            assert(pieces@.map_values(|p: (String, TextMark, Option<Range<usize>>)| piece_view(p)) + url_pieces_from(
                text@,
                mv,
                *range,
                found@,
                j + 1,
                end as int,
            ) =~= before + url_pieces_from(text@, mv, *range, found@, j as int, cursor as int));
        }
        cursor = end;
        j += 1;
    }
    let ghost before = pieces@.map_values(|p: (String, TextMark, Option<Range<usize>>)| piece_view(p));
    if cursor < len {
        proof {
            vstd::utf8::is_char_boundary_start_end_of_seq(b);
        }
        let tail_range = match range {
            Some(r) => Some((r.start + cursor)..r.end),
            None => None,
        };
        pieces.push((substring(text, cursor, len), mark.clone(), tail_range));
    }
    proof {
        assert(pieces@.map_values(|p: (String, TextMark, Option<Range<usize>>)| piece_view(p)) =~= before
            + url_pieces_from(text@, mv, *range, found@, j as int, cursor as int));
    }
    pieces
}

/// Whether every character of `text` is whitespace.
fn is_blank(text: &str) -> (b: bool)
    ensures
        b == blank(text@),
{
    let chars = chars_of(text);
    let mut k: usize = 0;
    while k < chars.len()
        invariant
            k <= chars@.len(),
            chars@ == text@,
            forall|i: int| 0 <= i < k ==> is_whitespace(#[trigger] chars@[i]),
        decreases chars@.len() - k,
    {
        if !char_is_whitespace(chars[k]) {
            return false;
        }
        k += 1;
    }
    true
}

impl<'a> DocumentBuilder<'a> {
    /// Adds a run of text to the innermost element that takes text (see
    /// [`push_inline_text_step`]).
    pub fn push_inline_text_at(&mut self, text: &str, mark: TextMark, source_range: Option<Range<usize>>) -> (result:
        Result<(), BuildError>)
        requires
            source_range matches Some(r) ==> old(self).offset + r.start <= usize::MAX && old(self).offset + r.end
                <= usize::MAX,
        ensures
            final(self).config() == old(self).config(),
            (final(self).state(), result) == push_inline_text_step(
                old(self).config(),
                old(self).state(),
                text@,
                mark_view(mark),
                source_range,
            ),
    {
        let ghost s0 = self.state();
        if text.is_empty() {
            return Ok(());
        }
        let len = str_byte_len(text);
        let mut marks: Vec<(Range<usize>, TextMark)> = Vec::new();
        marks.push((0..len, mark));
        let node_range = match source_range {
            Some(r) => Some((self.offset + r.start)..(self.offset + r.end)),
            None => None,
        };
        let node = InlineNode { text: String::from_str(text), image: None, marks, source_range: node_range };
        proof {
            assert(inline_view(node) =~= text_node(self.config(), text@, mark_view(mark), source_range));
        }
        let result = push_inline(&mut self.frames, node);
        proof {
            assert(self.state() =~= push_inline_text_step(self.config(), s0, text@, mark_view(mark), source_range).0);
        }
        result
    }

    /// Adds pieces of text in turn (see [`push_pieces`]).
    fn push_piece_list(&mut self, pieces: Vec<(String, TextMark, Option<Range<usize>>)>, bound: Ghost<int>) -> (result:
        Result<(), BuildError>)
        requires
            old(self).offset + bound@ <= usize::MAX,
            forall|i: int| 0 <= i < pieces@.len() ==> piece_within((#[trigger] pieces@[i]).2, bound@),
        ensures
            final(self).config() == old(self).config(),
            (final(self).state(), result) == push_pieces(
                old(self).config(),
                old(self).state(),
                pieces@.map_values(|p: (String, TextMark, Option<Range<usize>>)| piece_view(p)),
            ),
    {
        let ghost s0 = self.state();
        let ghost cfg = self.config();
        let ghost all = pieces@.map_values(|p: (String, TextMark, Option<Range<usize>>)| piece_view(p));
        let mut k: usize = 0;
        proof {
            assert(all.take(0) =~= Seq::<Piece>::empty());
        }
        while k < pieces.len()
            invariant
                k <= pieces@.len(),
                cfg == self.config(),
                cfg == old(self).config(),
                s0 == old(self).state(),
                all == pieces@.map_values(|p: (String, TextMark, Option<Range<usize>>)| piece_view(p)),
                self.offset + bound@ <= usize::MAX,
                forall|i: int| 0 <= i < pieces@.len() ==> piece_within((#[trigger] pieces@[i]).2, bound@),
                push_pieces(cfg, s0, all.take(k as int)) == (self.state(), Ok::<(), BuildError>(())),
            decreases pieces@.len() - k,
        {
            let text = pieces[k].0.clone();
            let mark = pieces[k].1.clone();
            let range = copy_range(&pieces[k].2);
            proof {
                assert(piece_within(pieces@[k as int].2, bound@));
                assert(all.take(k + 1).drop_last() =~= all.take(k as int));
                assert(all.take(k + 1).last() == piece_view(pieces@[k as int]));
            }
            let result = self.push_inline_text_at(text.as_str(), mark, range);
            if result.is_err() {
                proof {
                    lemma_push_pieces_stops(cfg, s0, all.take(k + 1), all.skip(k + 1));
                    assert(all.take(k + 1) + all.skip(k + 1) =~= all);
                }
                return result;
            }
            k += 1;
        }
        proof {
            assert(all.take(k as int) =~= all);
        }
        Ok(())
    }

    /// Adds text that arrived over `source_range` (see [`push_text_step`]).
    pub fn push_text_at(&mut self, text: &str, source_range: Option<Range<usize>>) -> (result: Result<(), BuildError>)
        requires
            source_range matches Some(r) ==> old(self).offset + r.start <= usize::MAX && old(self).offset + r.end
                <= usize::MAX && (blank(text@) || old(self).offset + r.start + encode_utf8(text@).len()
                <= usize::MAX),
        ensures
            final(self).config() == old(self).config(),
            (final(self).state(), result) == push_text_step(old(self).config(), old(self).state(), text@, source_range),
    {
        let ghost s0 = self.state();
        match &mut self.image {
            Some(image) => {
                image.alt.append(text);
                proof {
                    assert(self.state() =~= push_text_step(self.config(), s0, text@, source_range).0);
                }
                return Ok(());
            },
            None => {},
        }
        let n = self.frames.len();
        if n > 0 {
            let raw = match &mut self.frames[n - 1] {
                Frame::CodeBlock { code, .. } => {
                    code.append(text);
                    true
                },
                Frame::HtmlBlock { html, .. } => {
                    html.append(text);
                    true
                },
                Frame::Metadata { text: collected, .. } => {
                    collected.append(text);
                    true
                },
                _ => false,
            };
            if raw {
                proof {
                    assert(self.state().frames =~= s0.frames.update(n - 1, with_raw(s0.frames.last(), text@)));
                    assert(self.state() =~= push_text_step(self.config(), s0, text@, source_range).0);
                }
                return Ok(());
            }
            proof {
                assert(self.frames@ =~= old(self).frames@);
            }
        }
        let mark = combined_mark(&self.marks);
        if mark.link.is_some() || mark.code || is_blank(text) {
            return self.push_inline_text_at(text, mark, source_range);
        }
        let ghost bound: int = piece_bound(source_range, encode_utf8(text@).len() as int);
        let pieces = url_text_pieces(text, &mark, &source_range);
        self.push_piece_list(pieces, Ghost(bound))
    }
}

/// The category of a parse event.
pub open spec fn event_kind(event: MarkdownEvent) -> MarkdownSourceEventKind {
    match event {
        MarkdownEvent::Start(_) => MarkdownSourceEventKind::Start,
        MarkdownEvent::End(_) => MarkdownSourceEventKind::End,
        MarkdownEvent::Text(_) => MarkdownSourceEventKind::Text,
        MarkdownEvent::Code(_) => MarkdownSourceEventKind::Code,
        MarkdownEvent::Html(_) | MarkdownEvent::InlineHtml(_) => MarkdownSourceEventKind::Html,
        MarkdownEvent::SoftBreak => MarkdownSourceEventKind::SoftBreak,
        MarkdownEvent::HardBreak => MarkdownSourceEventKind::HardBreak,
        MarkdownEvent::Rule => MarkdownSourceEventKind::Rule,
        MarkdownEvent::TaskListMarker(_) => MarkdownSourceEventKind::TaskListMarker,
        MarkdownEvent::FootnoteReference(_) => MarkdownSourceEventKind::FootnoteReference,
        MarkdownEvent::InlineMath(_) | MarkdownEvent::DisplayMath(_) => MarkdownSourceEventKind::Math,
    }
}

/// Whether HTML is a line break tag: `<br`, in any case, after leading
/// whitespace.
pub open spec fn starts_with_br(html: Seq<char>) -> bool {
    let t = trim_start(html);
    t.len() >= 3 && t[0] == '<' && ascii_lower(t[1]) == 'b' && ascii_lower(t[2]) == 'r'
}

/// The state after inline HTML arrives: a line break tag is a line break,
/// other HTML stays literal text.
pub open spec fn push_inline_html_step(cfg: BuildConfig, s: BuildState, html: Seq<char>) -> (BuildState, Result<(), BuildError>) {
    if starts_with_br(html) {
        push_text_step(cfg, s, seq!['\n'], None)
    } else {
        push_text_step(cfg, s, html, None)
    }
}

/// The state after block HTML arrives: it joins an open HTML block, or is
/// taken as inline HTML.
pub open spec fn push_html_step(cfg: BuildConfig, s: BuildState, html: Seq<char>) -> (BuildState, Result<(), BuildError>) {
    if s.frames.len() > 0 && s.frames.last() is HtmlBlock {
        (BuildState { frames: s.frames.update(s.frames.len() - 1, with_raw(s.frames.last(), html)), ..s }, Ok(()))
    } else {
        push_inline_html_step(cfg, s, html)
    }
}

/// The innermost open list item.
pub open spec fn item_frame(frames: Seq<FrameView>) -> Option<int>
    decreases frames.len(),
{
    if frames.len() == 0 {
        None
    } else if frames.last() is Item {
        Some(frames.len() - 1)
    } else {
        item_frame(frames.drop_last())
    }
}

/// The frames with the innermost list item marked as a task.
pub open spec fn with_task(frames: Seq<FrameView>, checked: bool) -> Seq<FrameView> {
    match item_frame(frames) {
        Some(i) => frames.update(
            i,
            match frames[i] {
                FrameView::Item { children, inline, span, .. } => FrameView::Item {
                    children,
                    inline,
                    checked: Some(checked),
                    span,
                },
                f => f,
            },
        ),
        None => frames,
    }
}

/// The mark of a footnote reference: italic, linking to the footnote.
pub open spec fn footnote_mark(marks: Seq<TextMark>, label: Seq<char>) -> MarkView {
    MarkView {
        italic: true,
        footnote_reference: true,
        link: Some(LinkView { url: seq!['#', 'f', 'n', '-'] + label, identifier: Some(label), title: None }),
        ..mark_view(combined(marks))
    }
}

/// Whether the absolute positions of an event fit in a `usize`.
pub open spec fn event_fits(offset: usize, event: MarkdownEvent, range: Range<usize>) -> bool {
    &&& range.start <= range.end
    &&& offset + range.end <= usize::MAX
    &&& (event matches MarkdownEvent::Text(t) ==> offset + range.start + encode_utf8(t@).len() <= usize::MAX)
}

/// The state after one parse event over `range`, and whether the frame
/// stack could take it. The event is recorded with its absolute range in
/// any case.
pub open spec fn consume_step(cfg: BuildConfig, s0: BuildState, event: MarkdownEvent, range: Range<usize>) -> (
    BuildState,
    Result<(), BuildError>,
) {
    apply_step(cfg, recorded(cfg, s0, event, range), event, range)
}

/// The state with an event recorded with its absolute range.
pub open spec fn recorded(cfg: BuildConfig, s: BuildState, event: MarkdownEvent, range: Range<usize>) -> BuildState {
    BuildState {
        events: s.events.push(
            (((cfg.offset + range.start) as usize)..((cfg.offset + range.end) as usize), event_kind(event)),
        ),
        ..s
    }
}

/// The state after the frame stack takes one parse event over `range`, and
/// whether it could.
pub open spec fn apply_step(cfg: BuildConfig, s: BuildState, event: MarkdownEvent, range: Range<usize>) -> (
    BuildState,
    Result<(), BuildError>,
) {
    match event {
        MarkdownEvent::Start(tag) => (start_step(cfg, s, tag, range), Ok(())),
        MarkdownEvent::End(tag) => end_step(cfg, s, tag),
        MarkdownEvent::Text(t) => push_text_step(cfg, s, t@, Some(range)),
        MarkdownEvent::Code(t) | MarkdownEvent::InlineMath(t) => push_inline_text_step(
            cfg,
            s,
            t@,
            mark_view(TextMark { code: true, ..combined(s.marks) }),
            Some(range),
        ),
        MarkdownEvent::DisplayMath(t) => {
            let math = seq!['m', 'a', 't', 'h'];
            (
                with_block_state(
                    s,
                    NodeView::CodeBlock(
                        CodeNodeView {
                            lang: Some(math),
                            info: Some(math),
                            source_path: None,
                            code: t@,
                            span: Some(span_of(cfg, range)),
                        },
                    ),
                ),
                Ok(()),
            )
        },
        MarkdownEvent::Html(t) => if cfg.options.parse_html {
            push_html_step(cfg, s, t@)
        } else {
            push_text_step(cfg, s, t@, None)
        },
        MarkdownEvent::InlineHtml(t) => if cfg.options.parse_html {
            push_inline_html_step(cfg, s, t@)
        } else {
            push_text_step(cfg, s, t@, None)
        },
        MarkdownEvent::SoftBreak => push_text_step(
            cfg,
            s,
            if cfg.profile == MarkdownStyleProfile::Agent {
                seq!['\n']
            } else {
                seq![' ']
            },
            Some(range),
        ),
        MarkdownEvent::HardBreak => push_text_step(cfg, s, seq!['\n'], Some(range)),
        MarkdownEvent::Rule => (with_block_state(s, NodeView::HorizontalRule { span: Some(span_of(cfg, range)) }), Ok(())),
        MarkdownEvent::TaskListMarker(checked) => (BuildState { frames: with_task(s.frames, checked), ..s }, Ok(())),
        MarkdownEvent::FootnoteReference(label) => push_inline_text_step(
            cfg,
            s,
            seq!['['] + label@ + seq![']'],
            footnote_mark(s.marks, label@),
            Some(range),
        ),
    }
}

fn frame_is_item(frame: &Frame) -> (b: bool)
    ensures
        b == (frame_view(*frame) is Item),
{
    match frame {
        Frame::Item { .. } => true,
        _ => false,
    }
}

/// Marks the innermost open list item as a task.
fn mark_task(frames: &mut Vec<Frame>, checked: bool)
    ensures
        frames_view(final(frames)@) == with_task(frames_view(old(frames)@), checked),
{
    let ghost view = frames_view(frames@);
    let mut i: usize = frames.len();
    proof {
        assert(view.take(i as int) =~= view);
    }
    while i > 0 && !frame_is_item(&frames[i - 1])
        invariant
            i <= frames@.len(),
            view == frames_view(frames@),
            item_frame(view.take(i as int)) == item_frame(view),
        decreases i,
    {
        proof {
            assert(view.take(i as int).drop_last() =~= view.take(i - 1));
        }
        i -= 1;
    }
    if i == 0 {
        proof {
            assert(view.take(0) =~= Seq::<FrameView>::empty());
        }
        return;
    }
    let index = i - 1;
    proof {
        assert(view.take(i as int).last() == view[index as int]);
    }
    match &mut frames[index] {
        Frame::Item { checked: c, .. } => {
            *c = Some(checked);
        },
        _ => {},
    }
    proof {
        assert(frames_view(frames@) =~= with_task(view, checked));
    }
}

fn is_br_tag(html: &str) -> (b: bool)
    ensures
        b == starts_with_br(html@),
{
    let chars = chars_of(html);
    let n = chars.len();
    let st = trimmed_start(&chars, 0, n);
    proof {
        assert(chars@.subrange(0, n as int) =~= chars@);
    }
    if n - st < 3 {
        return false;
    }
    let b = chars[st + 1];
    let r = chars[st + 2];
    chars[st] == '<' && (b == 'b' || b == 'B') && (r == 'r' || r == 'R')
}

impl<'a> DocumentBuilder<'a> {
    /// Takes inline HTML (see [`push_inline_html_step`]).
    fn push_inline_html(&mut self, html: &str) -> (result: Result<(), BuildError>)
        ensures
            final(self).config() == old(self).config(),
            (final(self).state(), result) == push_inline_html_step(old(self).config(), old(self).state(), html@),
    {
        if is_br_tag(html) {
            proof {
                reveal_strlit("\n");
                assert("\n"@ =~= seq!['\n']);
            }
            self.push_text_at("\n", None)
        } else {
            self.push_text_at(html, None)
        }
    }

    /// Takes block HTML (see [`push_html_step`]).
    fn push_html(&mut self, html: &str) -> (result: Result<(), BuildError>)
        ensures
            final(self).config() == old(self).config(),
            (final(self).state(), result) == push_html_step(old(self).config(), old(self).state(), html@),
    {
        let ghost s0 = self.state();
        let n = self.frames.len();
        if n > 0 {
            let appended = match &mut self.frames[n - 1] {
                Frame::HtmlBlock { html: collected, .. } => {
                    collected.append(html);
                    true
                },
                _ => false,
            };
            if appended {
                proof {
                    assert(self.state() =~= push_html_step(self.config(), s0, html@).0);
                }
                return Ok(());
            }
            proof {
                assert(self.frames@ =~= old(self).frames@);
            }
        }
        self.push_inline_html(html)
    }

    /// Takes one parse event over `range` (see [`consume_step`]).
    pub fn consume(&mut self, event: MarkdownEvent, range: Range<usize>) -> (result: Result<(), BuildError>)
        requires
            event_fits(old(self).offset, event, range),
        ensures
            final(self).config() == old(self).config(),
            (final(self).state(), result) == consume_step(old(self).config(), old(self).state(), event, range),
    {
        let ghost s0 = self.state();
        let kind = source_event_kind(&event);
        self.events.push(MarkdownSourceEvent { range: (self.offset + range.start)..(self.offset + range.end), kind });
        proof {
            assert(self.state() =~= recorded(self.config(), s0, event, range));
        }
        self.apply(event, range)
    }

    /// Lets the frame stack take one parse event (see [`apply_step`]).
    fn apply(&mut self, event: MarkdownEvent, range: Range<usize>) -> (result: Result<(), BuildError>)
        requires
            event_fits(old(self).offset, event, range),
        ensures
            final(self).config() == old(self).config(),
            (final(self).state(), result) == apply_step(old(self).config(), old(self).state(), event, range),
    {
        match event {
            MarkdownEvent::Start(tag) => {
                self.start(tag, range);
                Ok(())
            },
            MarkdownEvent::End(tag) => self.end(tag),
            MarkdownEvent::Text(t) => self.push_text_at(t.as_str(), Some(range)),
            MarkdownEvent::Code(t) | MarkdownEvent::InlineMath(t) => {
                let mut mark = combined_mark(&self.marks);
                mark.code = true;
                self.push_inline_text_at(t.as_str(), mark, Some(range))
            },
            MarkdownEvent::DisplayMath(t) => {
                self.push_display_math(t, range);
                Ok(())
            },
            MarkdownEvent::Html(t) => if self.options.parse_html {
                self.push_html(t.as_str())
            } else {
                self.push_text_at(t.as_str(), None)
            },
            MarkdownEvent::InlineHtml(t) => if self.options.parse_html {
                self.push_inline_html(t.as_str())
            } else {
                self.push_text_at(t.as_str(), None)
            },
            MarkdownEvent::SoftBreak => {
                let newline = match self.profile {
                    MarkdownStyleProfile::Agent => true,
                    _ => false,
                };
                self.push_break(newline, range)
            },
            MarkdownEvent::HardBreak => self.push_break(true, range),
            MarkdownEvent::Rule => {
                let span = Span { start: self.offset + range.start, end: self.offset + range.end };
                push_block(&mut self.frames, BlockNode::HorizontalRule { span: Some(span) });
                Ok(())
            },
            MarkdownEvent::TaskListMarker(checked) => {
                mark_task(&mut self.frames, checked);
                Ok(())
            },
            MarkdownEvent::FootnoteReference(label) => self.push_footnote_reference(label, range),
        }
    }

    /// A display formula becomes a code block in the language `math`.
    fn push_display_math(&mut self, t: String, range: Range<usize>)
        requires
            range.start <= range.end,
            old(self).offset + range.end <= usize::MAX,
        ensures
            final(self).config() == old(self).config(),
            final(self).state() == apply_step(old(self).config(), old(self).state(), MarkdownEvent::DisplayMath(t), range).0,
    {
        let ghost s0 = self.state();
        proof {
            reveal_strlit("math");
        }
        let lang = String::from_str("math");
        let span = Span { start: self.offset + range.start, end: self.offset + range.end };
        push_block(&mut self.frames, BlockNode::CodeBlock(CodeBlock::new(t, Some(lang), Some(span))));
        proof {
            assert(lang@ =~= seq!['m', 'a', 't', 'h']);
            assert(self.state() =~= apply_step(self.config(), s0, MarkdownEvent::DisplayMath(t), range).0);
        }
    }

    /// A line break: a newline, or a space where `newline` is false.
    fn push_break(&mut self, newline: bool, range: Range<usize>) -> (result: Result<(), BuildError>)
        requires
            range.start <= range.end,
            old(self).offset + range.end <= usize::MAX,
        ensures
            final(self).config() == old(self).config(),
            (final(self).state(), result) == push_text_step(
                old(self).config(),
                old(self).state(),
                if newline {
                    seq!['\n']
                } else {
                    seq![' ']
                },
                Some(range),
            ),
    {
        proof {
            reveal_strlit("\n");
            reveal_strlit(" ");
            assert("\n"@ =~= seq!['\n']);
            assert(" "@ =~= seq![' ']);
            assert(blank(seq!['\n']));
            assert(blank(seq![' ']));
        }
        let text = if newline {
            "\n"
        } else {
            " "
        };
        self.push_text_at(text, Some(range))
    }

    /// A footnote reference becomes its italic `[label]`, linking to the
    /// footnote.
    fn push_footnote_reference(&mut self, label: String, range: Range<usize>) -> (result: Result<(), BuildError>)
        requires
            range.start <= range.end,
            old(self).offset + range.end <= usize::MAX,
        ensures
            final(self).config() == old(self).config(),
            (final(self).state(), result) == push_inline_text_step(
                old(self).config(),
                old(self).state(),
                seq!['['] + label@ + seq![']'],
                footnote_mark(old(self).state().marks, label@),
                Some(range),
            ),
    {
        let mut text = String::new();
        text.push('[');
        text.append(label.as_str());
        text.push(']');
        let mut url = String::new();
        url.push('#');
        url.push('f');
        url.push('n');
        url.push('-');
        url.append(label.as_str());
        let base = combined_mark(&self.marks);
        let link = LinkMark { url, identifier: Some(label.clone()), title: None };
        let mark = TextMark { italic: true, footnote_reference: true, link: Some(link), ..base };
        proof {
            assert(text@ =~= seq!['['] + label@ + seq![']']);
            assert(link.url@ =~= seq!['#', 'f', 'n', '-'] + label@);
            assert(mark_view(mark) =~= footnote_mark(self.marks@, label@));
        }
        self.push_inline_text_at(text.as_str(), mark, Some(range))
    }
}

/// A parsed document: its source, its blocks, the parse events with their
/// absolute ranges, where each top-level block starts, and where each
/// heading slug and footnote label points.
#[derive(Debug)]
pub struct ParsedDocument {
    pub source: String,
    pub blocks: Vec<BlockNode>,
    pub events: Vec<MarkdownSourceEvent>,
    pub root_block_starts: Vec<usize>,
    pub heading_slugs: Vec<(String, usize)>,
    pub footnote_definitions: Vec<(String, usize)>,
}

/// A parsed document seen as plain values.
#[verifier::ext_equal]
pub struct DocumentView {
    pub source: Seq<char>,
    pub blocks: Seq<NodeView>,
    pub events: Seq<(Range<usize>, MarkdownSourceEventKind)>,
    pub root_block_starts: Seq<usize>,
    pub heading_slugs: Seq<(Seq<char>, usize)>,
    pub footnote_definitions: Seq<(Seq<char>, usize)>,
}

pub open spec fn document_view(d: ParsedDocument) -> DocumentView {
    DocumentView {
        source: d.source@,
        blocks: nodes_view(d.blocks),
        events: d.events@.map_values(|e: MarkdownSourceEvent| event_view(e)),
        root_block_starts: d.root_block_starts@,
        heading_slugs: entries_view(d.heading_slugs@),
        footnote_definitions: entries_view(d.footnote_definitions@),
    }
}

/// The starts of the blocks that have a span, in order.
pub open spec fn block_starts(nodes: Seq<NodeView>) -> Seq<usize>
    decreases nodes.len(),
{
    if nodes.len() == 0 {
        Seq::empty()
    } else {
        block_starts(nodes.drop_last()) + match node_span(nodes.last()) {
            Some(sp) => seq![sp.start],
            None => Seq::empty(),
        }
    }
}

/// Closing an element removes exactly one open element.
pub proof fn lemma_close_step_len(cfg: BuildConfig, s: BuildState)
    requires
        s.frames.len() > 0,
    ensures
        close_step(cfg, s).0.frames.len() == s.frames.len() - 1,
{
    let s1 = BuildState { frames: s.frames.drop_last(), ..s };
    lemma_block_frame_bounds(s1.frames);
    lemma_block_frame_bounds(heading_slug_step(cfg, s1, ParagraphView { span: None, children: Seq::empty() }, Span { start: 0, end: 0 }).frames);
}

/// The state after every open element but the root closes, stopping at
/// the first that cannot.
pub open spec fn close_all(cfg: BuildConfig, s: BuildState) -> (BuildState, Result<(), BuildError>)
    decreases s.frames.len(),
{
    if s.frames.len() <= 1 {
        (s, Ok(()))
    } else {
        let (s1, r) = close_step(cfg, s);
        if r is Err {
            (s1, r)
        } else {
            proof {
                lemma_close_step_len(cfg, s);
            }
            close_all(cfg, s1)
        }
    }
}

/// The state after the build finishes, and the document when it can: every
/// open element closes and the root's blocks make the document.
pub open spec fn finish_step(cfg: BuildConfig, s: BuildState) -> (BuildState, Result<DocumentView, BuildError>) {
    let (s1, r) = close_all(cfg, s);
    if r is Err {
        (s1, Err(r->Err_0))
    } else if s1.frames.len() == 0 {
        (s1, Err(BuildError::MissingRoot))
    } else {
        let s2 = BuildState { frames: s1.frames.drop_last(), ..s1 };
        match s1.frames.last() {
            FrameView::Root(children) => (
                BuildState { events: Seq::empty(), slugs: Seq::empty(), footnotes: Seq::empty(), ..s2 },
                Ok(
                    DocumentView {
                        source: cfg.source,
                        blocks: children,
                        events: s1.events,
                        root_block_starts: block_starts(children),
                        heading_slugs: s1.slugs,
                        footnote_definitions: s1.footnotes,
                    },
                ),
            ),
            _ => (s2, Err(BuildError::MissingRoot)),
        }
    }
}

/// The document of a source taken literally: one plain paragraph over the
/// whole source.
pub open spec fn literal_document(cfg: BuildConfig, events: Seq<(Range<usize>, MarkdownSourceEventKind)>) -> DocumentView {
    DocumentView {
        source: cfg.source,
        blocks: seq![
            NodeView::Paragraph(
                ParagraphView {
                    span: Some(Span { start: cfg.offset, end: (cfg.offset + encode_utf8(cfg.source).len()) as usize }),
                    children: seq![plain_text_node(cfg.source)],
                },
            ),
        ],
        events,
        root_block_starts: Seq::empty(),
        heading_slugs: Seq::empty(),
        footnote_definitions: Seq::empty(),
    }
}

/// The document a finished build makes: its own when it can finish, the
/// literal one otherwise.
pub open spec fn finished_document(cfg: BuildConfig, s: BuildState) -> DocumentView {
    let (s1, r) = finish_step(cfg, s);
    match r {
        Ok(d) => d,
        Err(_) => literal_document(cfg, s1.events),
    }
}

/// The state of a new build: an open root and nothing else.
pub open spec fn initial_state() -> BuildState {
    BuildState {
        frames: seq![FrameView::Root(Seq::empty())],
        marks: Seq::empty(),
        image: None,
        events: Seq::empty(),
        footnotes: Seq::empty(),
        slugs: Seq::empty(),
        slug_counts: Seq::empty(),
    }
}

/// The state after each event in turn.
pub open spec fn run_events(cfg: BuildConfig, s: BuildState, events: Seq<(MarkdownEvent, Range<usize>)>) -> BuildState
    decreases events.len(),
{
    if events.len() == 0 {
        s
    } else {
        consume_step(cfg, run_events(cfg, s, events.drop_last()), events.last().0, events.last().1).0
    }
}

/// The document that a parse with events `events` makes.
pub open spec fn document_of(cfg: BuildConfig, events: Seq<(MarkdownEvent, Range<usize>)>) -> DocumentView {
    finished_document(cfg, run_events(cfg, initial_state(), events))
}

impl<'a> DocumentBuilder<'a> {
    /// A build of `source`, whose first byte is at absolute `offset`.
    pub fn new(source: &'a str, offset: usize, options: MarkdownOptions, profile: MarkdownStyleProfile) -> (builder: Self)
        ensures
            builder.config() == (BuildConfig { source: source@, offset, options, profile }),
            builder.state() == initial_state(),
    {
        let root: Vec<BlockNode> = Vec::new();
        let mut frames: Vec<Frame> = Vec::new();
        frames.push(Frame::Root(root));
        let builder = DocumentBuilder {
            source,
            offset,
            options,
            profile,
            frames,
            marks: Vec::new(),
            image: None,
            events: Vec::new(),
            footnote_definitions: Vec::new(),
            heading_slugs: Vec::new(),
            heading_slug_counts: Vec::new(),
        };
        proof {
            assert(nodes_view(root) =~= Seq::<NodeView>::empty());
            assert(builder.state().frames =~= seq![FrameView::Root(Seq::empty())]);
            assert(builder.state() =~= initial_state());
        }
        builder
    }

    /// Closes every open element and makes the document of the root's
    /// blocks (see [`finish_step`]).
    pub fn finish(&mut self) -> (result: Result<ParsedDocument, BuildError>)
        ensures
            final(self).config() == old(self).config(),
            final(self).state() == finish_step(old(self).config(), old(self).state()).0,
            match result {
                Ok(d) => finish_step(old(self).config(), old(self).state()).1 == Ok::<DocumentView, BuildError>(
                    document_view(d),
                ),
                Err(e) => finish_step(old(self).config(), old(self).state()).1 == Err::<DocumentView, BuildError>(e),
            },
    {
        let ghost s0 = self.state();
        let ghost cfg = self.config();
        while self.frames.len() > 1
            invariant
                cfg == self.config(),
                cfg == old(self).config(),
                s0 == old(self).state(),
                close_all(cfg, s0) == close_all(cfg, self.state()),
            decreases self.frames@.len(),
        {
            let ghost before = self.state();
            let r = self.close_frame();
            proof {
                lemma_close_step_len(cfg, before);
            }
            if r.is_err() {
                let e = match r {
                    Err(e) => e,
                    Ok(_) => BuildError::Unbalanced,
                };
                return Err(e);
            }
        }
        let ghost s1 = self.state();
        if self.frames.len() == 0 {
            return Err(BuildError::MissingRoot);
        }
        let frame = self.frames.pop();
        proof {
            assert(frames_view(self.frames@) =~= s1.frames.drop_last());
        }
        match frame {
            Some(Frame::Root(children)) => {
                let mut starts: Vec<usize> = Vec::new();
                let ghost views = nodes_view(children);
                let mut k: usize = 0;
                proof {
                    assert(views.take(0) =~= Seq::<NodeView>::empty());
                }
                while k < children.len()
                    invariant
                        k <= children@.len(),
                        views == nodes_view(children),
                        views.len() == children@.len(),
                        starts@ == block_starts(views.take(k as int)),
                    decreases children@.len() - k,
                {
                    proof {
                        crate::block::lemma_nodes_view_index(children, k as int);
                        assert(views.take(k + 1).drop_last() =~= views.take(k as int));
                    }
                    match children[k].span() {
                        Some(sp) => starts.push(sp.start),
                        None => {},
                    }
                    proof {
                        assert(starts@ =~= block_starts(views.take(k + 1)));
                    }
                    k += 1;
                }
                proof {
                    assert(views.take(k as int) =~= views);
                }
                let mut events: Vec<MarkdownSourceEvent> = Vec::new();
                std::mem::swap(&mut events, &mut self.events);
                let mut heading_slugs: Vec<(String, usize)> = Vec::new();
                std::mem::swap(&mut heading_slugs, &mut self.heading_slugs);
                let mut footnote_definitions: Vec<(String, usize)> = Vec::new();
                std::mem::swap(&mut footnote_definitions, &mut self.footnote_definitions);
                let doc = ParsedDocument {
                    source: String::from_str(self.source),
                    blocks: children,
                    events,
                    root_block_starts: starts,
                    heading_slugs,
                    footnote_definitions,
                };
                proof {
                    assert(entries_view(self.heading_slugs@) =~= Seq::<(Seq<char>, usize)>::empty());
                    assert(entries_view(self.footnote_definitions@) =~= Seq::<(Seq<char>, usize)>::empty());
                    assert(self.events@.map_values(|e: MarkdownSourceEvent| event_view(e)) =~= Seq::<
                        (Range<usize>, MarkdownSourceEventKind),
                    >::empty());
                    assert(self.state() =~= finish_step(cfg, s0).0);
                    assert(document_view(doc) =~= finish_step(cfg, s0).1->Ok_0);
                }
                Ok(doc)
            },
            _ => {
                proof {
                    assert(self.state() =~= finish_step(cfg, s0).0);
                }
                Err(BuildError::MissingRoot)
            },
        }
    }

    /// The document of the build, or the literal one where the build cannot
    /// finish (see [`finished_document`]).
    pub fn finish_or_literal(self) -> (doc: ParsedDocument)
        requires
            self.offset + encode_utf8(self.source@).len() <= usize::MAX,
        ensures
            document_view(doc) == finished_document(self.config(), self.state()),
    {
        let mut builder = self;
        let ghost cfg = builder.config();
        let ghost s0 = builder.state();
        match builder.finish() {
            Ok(doc) => doc,
            Err(_) => {
                let len = str_byte_len(builder.source);
                let mut paragraph = Paragraph::new(String::from_str(builder.source));
                paragraph.set_span(Span { start: builder.offset, end: builder.offset + len });
                let mut blocks: Vec<BlockNode> = Vec::new();
                blocks.push(BlockNode::Paragraph(paragraph));
                let mut events: Vec<MarkdownSourceEvent> = Vec::new();
                std::mem::swap(&mut events, &mut builder.events);
                let doc = ParsedDocument {
                    source: String::from_str(builder.source),
                    blocks,
                    events,
                    root_block_starts: Vec::new(),
                    heading_slugs: Vec::new(),
                    footnote_definitions: Vec::new(),
                };
                proof {
                    crate::block::lemma_nodes_view_index(blocks, 0);
                    assert(nodes_view(blocks) =~= literal_document(cfg, finish_step(cfg, s0).0.events).blocks);
                    assert(entries_view(doc.heading_slugs@) =~= Seq::<(Seq<char>, usize)>::empty());
                    assert(entries_view(doc.footnote_definitions@) =~= Seq::<(Seq<char>, usize)>::empty());
                    assert(document_view(doc) =~= literal_document(cfg, finish_step(cfg, s0).0.events));
                }
                doc
            },
        }
    }
}

/// The parser extensions a document parse reads: the document syntax,
/// `+++` metadata, and `---` metadata where metadata blocks are rendered.
pub open spec fn document_extensions(options: MarkdownOptions) -> ParserExtensions {
    ParserExtensions { document_syntax: true, yaml_metadata: options.render_metadata_blocks, pluses_metadata: true }
}

/// Whether the absolute positions of every event fit in a `usize`.
pub open spec fn all_fit(offset: usize, events: Seq<(MarkdownEvent, Range<usize>)>) -> bool {
    forall|i: int| 0 <= i < events.len() ==> event_fits(offset, #[trigger] events[i].0, events[i].1)
}

/// The nodes of a text whose URLs, from link `j` and byte `cursor` on, are
/// links to themselves and whose other text is plain.
pub open spec fn link_only_nodes(text: Seq<char>, links: Seq<Range<usize>>, j: int, cursor: int) -> Seq<InlineView>
    decreases links.len() - j,
{
    let n = encode_utf8(text).len() as int;
    if j < 0 || j >= links.len() {
        if cursor < n {
            seq![plain_text_node(chars_between(text, cursor, n))]
        } else {
            Seq::empty()
        }
    } else {
        let l = links[j];
        let url = chars_between(text, l.start as int, l.end as int);
        (if cursor < l.start {
            seq![plain_text_node(chars_between(text, cursor, l.start as int))]
        } else {
            Seq::empty()
        }) + seq![
            InlineView {
                text: url,
                image: None,
                marks: seq![(0..encode_utf8(url).len() as usize, link_mark_view(mark_view(plain_mark()), url))],
                source_range: None,
            },
        ] + link_only_nodes(text, links, j + 1, l.end as int)
    }
}

/// The document of a links-only parse: one paragraph over the whole source
/// whose URLs are links.
pub open spec fn links_only_document(source: Seq<char>, offset: usize) -> DocumentView {
    DocumentView {
        source,
        blocks: seq![
            NodeView::Paragraph(
                ParagraphView {
                    span: Some(Span { start: offset, end: (offset + encode_utf8(source).len()) as usize }),
                    children: link_only_nodes(source, url_links(source), 0, 0),
                },
            ),
        ],
        events: Seq::empty(),
        root_block_starts: Seq::empty(),
        heading_slugs: Seq::empty(),
        footnote_definitions: Seq::empty(),
    }
}

/// The links-only document of `source` (see [`links_only_document`]).
#[verifier::rlimit(40)]
pub fn parse_links_only_document(source: &str, offset: usize) -> (doc: ParsedDocument)
    requires
        offset + encode_utf8(source@).len() <= usize::MAX,
    ensures
        document_view(doc) == links_only_document(source@, offset),
{
    let found = find_url_links(source);
    let len = str_byte_len(source);
    let ghost b = source.spec_bytes();
    let ghost text = source@;
    let mut paragraph = Paragraph { span: None, children: Vec::new() };
    let mut cursor: usize = 0;
    let mut j: usize = 0;
    while j < found.len()
        invariant
            j <= found@.len(),
            found@ == url_links(text),
            text == source@,
            b == source.spec_bytes(),
            len == b.len(),
            cursor <= len,
            is_char_boundary(b, cursor as int),
            j < found@.len() ==> cursor <= found@[j as int].start,
            forall|i: int|
                0 <= i < found@.len() ==> (#[trigger] found@[i]).start <= found@[i].end <= b.len()
                    && is_char_boundary(b, found@[i].start as int) && is_char_boundary(b, found@[i].end as int),
            forall|i: int| 0 < i < found@.len() ==> found@[i - 1].end <= (#[trigger] found@[i]).start,
            paragraph_view(paragraph).span == None::<Span>,
            paragraph_view(paragraph).children + link_only_nodes(text, found@, j as int, cursor as int)
                == link_only_nodes(text, found@, 0, 0),
        decreases found.len() - j,
    {
        let start = found[j].start;
        let end = found[j].end;
        let ghost before = paragraph_view(paragraph).children;
        if cursor < start {
            paragraph.push(InlineNode::new(substring(source, cursor, start)));
        }
        let url = substring(source, start, end);
        let url_len = str_byte_len(url.as_str());
        let link = LinkMark { url: url.clone(), identifier: None, title: None };
        let mut marks: Vec<(Range<usize>, TextMark)> = Vec::new();
        marks.push((0..url_len, TextMark::default().link(link)));
        let node = InlineNode { text: url, image: None, marks, source_range: None };
        let ghost url_view = chars_between(text, start as int, end as int);
        proof {
            assert(node.marks@.map_values(|m: (Range<usize>, TextMark)| (m.0, mark_view(m.1))) =~= seq![
                (0..encode_utf8(url_view).len() as usize, link_mark_view(mark_view(plain_mark()), url_view)),
            ]);
            assert(inline_view(node) == InlineView {
                text: url_view,
                image: None,
                marks: seq![(0..encode_utf8(url_view).len() as usize, link_mark_view(mark_view(plain_mark()), url_view))],
                source_range: None,
            });
        }
        let ghost mid = paragraph_view(paragraph).children;
        paragraph.push(node);
        proof {
            assert(link_only_nodes(text, found@, j as int, cursor as int) == (if cursor < start {
                seq![plain_text_node(chars_between(text, cursor as int, start as int))]
            } else {
                Seq::<InlineView>::empty()
            }) + seq![inline_view(node)] + link_only_nodes(text, found@, j + 1, end as int));
            assert(mid =~= before + if cursor < start {
                seq![plain_text_node(chars_between(text, cursor as int, start as int))]
            } else {
                Seq::<InlineView>::empty()
            });
            assert(paragraph_view(paragraph).children + link_only_nodes(text, found@, j + 1, end as int) =~= before
                + link_only_nodes(text, found@, j as int, cursor as int));
        }
        cursor = end;
        j += 1;
    }
    let ghost before = paragraph_view(paragraph).children;
    if cursor < len {
        proof {
            vstd::utf8::is_char_boundary_start_end_of_seq(b);
        }
        paragraph.push(InlineNode::new(substring(source, cursor, len)));
    }
    proof {
        assert(paragraph_view(paragraph).children =~= before + link_only_nodes(text, found@, j as int, cursor as int));
    }
    paragraph.set_span(Span { start: offset, end: offset + len });
    let mut blocks: Vec<BlockNode> = Vec::new();
    blocks.push(BlockNode::Paragraph(paragraph));
    let doc = ParsedDocument {
        source: String::from_str(source),
        blocks,
        events: Vec::new(),
        root_block_starts: Vec::new(),
        heading_slugs: Vec::new(),
        footnote_definitions: Vec::new(),
    };
    proof {
        crate::block::lemma_nodes_view_index(blocks, 0);
        assert(nodes_view(blocks) =~= links_only_document(source@, offset).blocks);
        assert(entries_view(doc.heading_slugs@) =~= Seq::<(Seq<char>, usize)>::empty());
        assert(entries_view(doc.footnote_definitions@) =~= Seq::<(Seq<char>, usize)>::empty());
        assert(document_view(doc) =~= links_only_document(source@, offset));
    }
    doc
}

/// Whether the absolute positions of an event fit in a `usize` (see
/// [`event_fits`]).
fn fits(offset: usize, event: &MarkdownEvent, range: &Range<usize>) -> (b: bool)
    ensures
        b == event_fits(offset, *event, *range),
{
    let room = usize::MAX - offset;
    if range.start > range.end || range.end > room {
        return false;
    }
    match event {
        MarkdownEvent::Text(t) => str_byte_len(t.as_str()) <= room - range.start,
        _ => true,
    }
}

/// The document that the parse events `events` of `source` make, or
/// `PositionOverflow` where an event's absolute positions would not fit in
/// a `usize`.
pub fn build_document(
    source: &str,
    offset: usize,
    options: MarkdownOptions,
    profile: MarkdownStyleProfile,
    events: Vec<(MarkdownEvent, Range<usize>)>,
) -> (result: Result<ParsedDocument, BuildError>)
    ensures
        match result {
            Ok(d) => offset + encode_utf8(source@).len() <= usize::MAX && all_fit(offset, events@) && document_view(d)
                == document_of(BuildConfig { source: source@, offset, options, profile }, events@),
            Err(e) => e == BuildError::PositionOverflow && !(offset + encode_utf8(source@).len() <= usize::MAX
                && all_fit(offset, events@)),
        },
{
    let len = str_byte_len(source);
    if len > usize::MAX - offset {
        return Err(BuildError::PositionOverflow);
    }
    let mut k: usize = 0;
    while k < events.len()
        invariant
            k <= events@.len(),
            forall|i: int| 0 <= i < k ==> event_fits(offset, #[trigger] events@[i].0, events@[i].1),
        decreases events@.len() - k,
    {
        if !fits(offset, &events[k].0, &events[k].1) {
            return Err(BuildError::PositionOverflow);
        }
        k += 1;
    }
    let ghost all = events@;
    let mut pending = events;
    let mut reversed: Vec<(MarkdownEvent, Range<usize>)> = Vec::new();
    while pending.len() > 0
        invariant
            pending@.len() + reversed@.len() == all.len(),
            pending@ == all.take(pending@.len() as int),
            forall|i: int| 0 <= i < reversed@.len() ==> #[trigger] reversed@[i] == all[all.len() - 1 - i],
        decreases pending@.len(),
    {
        let ghost n = pending@.len();
        let item = pending.pop().unwrap();
        proof {
            assert(item == all[n - 1]);
            assert(pending@ =~= all.take(n - 1));
        }
        reversed.push(item);
    }
    let mut builder = DocumentBuilder::new(source, offset, options, profile);
    let ghost cfg = builder.config();
    let mut done: usize = 0;
    assert(all.len() <= usize::MAX);
    proof {
        assert(all.take(0) =~= Seq::<(MarkdownEvent, Range<usize>)>::empty());
    }
    while reversed.len() > 0
        invariant
            cfg == builder.config(),
            cfg == (BuildConfig { source: source@, offset, options, profile }),
            all_fit(offset, all),
            reversed@.len() + done == all.len(),
            all.len() <= usize::MAX,
            forall|i: int| 0 <= i < reversed@.len() ==> #[trigger] reversed@[i] == all[all.len() - 1 - i],
            builder.state() == run_events(cfg, initial_state(), all.take(done as int)),
        decreases reversed@.len(),
    {
        let ghost n = reversed@.len();
        let (event, range) = reversed.pop().unwrap();
        proof {
            assert(all[done as int] == (event, range));
            assert(event_fits(offset, all[done as int].0, all[done as int].1));
            assert(all.take(done + 1).drop_last() =~= all.take(done as int));
        }
        let _ = builder.consume(event, range);
        done += 1;
    }
    proof {
        assert(all.take(done as int) =~= all);
    }
    Ok(builder.finish_or_literal())
}

/// The document that a parse of `source`, whose first byte is at absolute
/// `offset`, makes: with `parse_links_only`, one paragraph whose URLs are
/// links; otherwise the document of its parse events. `None` where a
/// position would not fit in a `usize`.
pub open spec fn parse_result(source: Seq<char>, offset: usize, options: MarkdownOptions, profile: MarkdownStyleProfile) -> Option<
    DocumentView,
> {
    if offset + encode_utf8(source).len() > usize::MAX {
        None
    } else if options.parse_links_only {
        Some(links_only_document(source, offset))
    } else {
        let events = markdown_events_of(source, document_extensions(options));
        if all_fit(offset, events) {
            Some(document_of(BuildConfig { source, offset, options, profile }, events))
        } else {
            None
        }
    }
}

/// Parses `source`, whose first byte is at absolute `offset`, into the
/// document model (see [`parse_result`]); `PositionOverflow` where a
/// position would not fit in a `usize`.
pub fn parse_document(source: &str, offset: usize, options: MarkdownOptions, profile: MarkdownStyleProfile) -> (result:
    Result<ParsedDocument, BuildError>)
    ensures
        match result {
            Ok(d) => parse_result(source@, offset, options, profile) == Some(document_view(d)),
            Err(e) => e == BuildError::PositionOverflow && parse_result(source@, offset, options, profile) is None,
        },
        offset + encode_utf8(source@).len() + isize::MAX <= usize::MAX ==> result is Ok,
{
    if options.parse_links_only {
        let len = str_byte_len(source);
        if len > usize::MAX - offset {
            return Err(BuildError::PositionOverflow);
        }
        return Ok(parse_links_only_document(source, offset));
    }
    let extensions = ParserExtensions {
        document_syntax: true,
        yaml_metadata: options.render_metadata_blocks,
        pluses_metadata: true,
    };
    let events = markdown_events(source, extensions);
    proof {
        if offset + encode_utf8(source@).len() + isize::MAX <= usize::MAX {
            assert forall|i: int| 0 <= i < events@.len() implies event_fits(
                offset,
                #[trigger] events@[i].0,
                events@[i].1,
            ) by {
                assert(events@[i].1.start <= events@[i].1.end <= encode_utf8(source@).len());
            }
        }
    }
    build_document(source, offset, options, profile, events)
}

impl ParsedDocument {
    /// The plain text of the document: each block's text in order.
    pub fn text(&self) -> (text: String)
        ensures
            text@ == crate::block::nodes_text(nodes_view(self.blocks)),
    {
        crate::block::children_text(&self.blocks)
    }

    /// Where the heading with slug `slug` starts, if there is one.
    pub fn heading_start(&self, slug: &str) -> (found: Option<usize>)
        ensures
            found == if assoc_map(self.heading_slugs@).dom().contains(slug@) {
                Some(assoc_map(self.heading_slugs@)[slug@])
            } else {
                None
            },
    {
        assoc_lookup(&self.heading_slugs, &String::from_str(slug))
    }

    /// Where the footnote with label `label` is defined, if it is.
    pub fn footnote_start(&self, label: &str) -> (found: Option<usize>)
        ensures
            found == if assoc_map(self.footnote_definitions@).dom().contains(label@) {
                Some(assoc_map(self.footnote_definitions@)[label@])
            } else {
                None
            },
    {
        assoc_lookup(&self.footnote_definitions, &String::from_str(label))
    }
}

/// The record a build keeps of one parse event: its absolute range and its
/// category.
pub open spec fn event_record(cfg: BuildConfig, e: (MarkdownEvent, Range<usize>)) -> (Range<usize>, MarkdownSourceEventKind) {
    (((cfg.offset + e.1.start) as usize)..((cfg.offset + e.1.end) as usize), event_kind(e.0))
}

proof fn lemma_push_pieces_keeps_events(cfg: BuildConfig, s: BuildState, pieces: Seq<Piece>)
    ensures
        push_pieces(cfg, s, pieces).0.events == s.events,
    decreases pieces.len(),
{
    if pieces.len() > 0 {
        lemma_push_pieces_keeps_events(cfg, s, pieces.drop_last());
    }
}

proof fn lemma_push_text_keeps_events(cfg: BuildConfig, s: BuildState, text: Seq<char>, range: Option<Range<usize>>)
    ensures
        push_text_step(cfg, s, text, range).0.events == s.events,
{
    let mark = combined(s.marks);
    lemma_push_pieces_keeps_events(cfg, s, url_pieces(text, mark_view(mark), range));
}

proof fn lemma_apply_keeps_events(cfg: BuildConfig, s: BuildState, event: MarkdownEvent, range: Range<usize>)
    ensures
        apply_step(cfg, s, event, range).0.events == s.events,
{
    match event {
        MarkdownEvent::Text(t) => lemma_push_text_keeps_events(cfg, s, t@, Some(range)),
        MarkdownEvent::Html(t) => {
            lemma_push_text_keeps_events(cfg, s, t@, None);
            lemma_push_text_keeps_events(cfg, s, seq!['\n'], None);
        },
        MarkdownEvent::InlineHtml(t) => {
            lemma_push_text_keeps_events(cfg, s, t@, None);
            lemma_push_text_keeps_events(cfg, s, seq!['\n'], None);
        },
        MarkdownEvent::SoftBreak => {
            lemma_push_text_keeps_events(cfg, s, seq!['\n'], Some(range));
            lemma_push_text_keeps_events(cfg, s, seq![' '], Some(range));
        },
        MarkdownEvent::HardBreak => lemma_push_text_keeps_events(cfg, s, seq!['\n'], Some(range)),
        _ => {},
    }
}

proof fn lemma_close_all_keeps_events(cfg: BuildConfig, s: BuildState)
    ensures
        close_all(cfg, s).0.events == s.events,
    decreases s.frames.len(),
{
    if s.frames.len() > 1 {
        let (s1, r) = close_step(cfg, s);
        if !(r is Err) {
            lemma_close_step_len(cfg, s);
            lemma_close_all_keeps_events(cfg, s1);
        }
    }
}

proof fn lemma_run_events_records(cfg: BuildConfig, s: BuildState, events: Seq<(MarkdownEvent, Range<usize>)>)
    ensures
        run_events(cfg, s, events).events == s.events + events.map_values(
            |e: (MarkdownEvent, Range<usize>)| event_record(cfg, e),
        ),
    decreases events.len(),
{
    if events.len() == 0 {
        assert(s.events + events.map_values(|e: (MarkdownEvent, Range<usize>)| event_record(cfg, e)) =~= s.events);
    } else {
        lemma_run_events_records(cfg, s, events.drop_last());
        let before = run_events(cfg, s, events.drop_last());
        lemma_apply_keeps_events(cfg, recorded(cfg, before, events.last().0, events.last().1), events.last().0, events.last().1);
        assert(events.map_values(|e: (MarkdownEvent, Range<usize>)| event_record(cfg, e)) =~= events.drop_last().map_values(
            |e: (MarkdownEvent, Range<usize>)| event_record(cfg, e),
        ).push(event_record(cfg, events.last())));
    }
}

/// A parsed document keeps a record of every parse event, in order, with
/// its absolute range and category, whether or not the build could take
/// the event.
pub proof fn lemma_document_records_every_event(cfg: BuildConfig, events: Seq<(MarkdownEvent, Range<usize>)>)
    ensures
        document_of(cfg, events).events == events.map_values(|e: (MarkdownEvent, Range<usize>)| event_record(cfg, e)),
{
    lemma_run_events_records(cfg, initial_state(), events);
    let s = run_events(cfg, initial_state(), events);
    lemma_close_all_keeps_events(cfg, s);
    assert(initial_state().events + events.map_values(|e: (MarkdownEvent, Range<usize>)| event_record(cfg, e))
        =~= events.map_values(|e: (MarkdownEvent, Range<usize>)| event_record(cfg, e)));
}

/// A parse keeps the source it was given, whichever way the document is
/// made.
pub proof fn lemma_parse_keeps_source(source: Seq<char>, offset: usize, options: MarkdownOptions, profile: MarkdownStyleProfile)
    ensures
        parse_result(source, offset, options, profile) matches Some(d) ==> d.source == source,
{
}

} // verus!
