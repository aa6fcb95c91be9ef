use std::ops::Range;
use vstd::prelude::*;

use crate::node::{ImageNode, InlineNode, LinkMark, Span, TextMark};
use crate::renderer::CalloutKind;
use crate::theme::{heading_level_of, MarkdownBlockKind, MarkdownHeadingLevel, MarkdownInlineKind};
use crate::node::plain_mark;
use crate::parse::is_ascii_space;
use crate::unicode::{
    chars_between, chars_of, str_byte_len, substring, trim_end, trim_start, trimmed_end,
    trimmed_start,
};
use vstd::utf8::{encode_utf8, is_char_boundary};
use crate::parser::collect_chars;

verus! {

/// A paragraph of inline nodes, with the canonical source span it came from.
#[derive(Debug, Default)]
pub struct Paragraph {
    pub span: Option<Span>,
    pub children: Vec<InlineNode>,
}

/// A code block of the document model.
#[derive(Debug)]
pub struct CodeBlock {
    pub lang: Option<String>,
    pub info: Option<String>,
    pub source_path: Option<String>,
    pub code: String,
    pub span: Option<Span>,
}

/// Horizontal alignment of a table column.
#[derive(Debug, Copy, Clone, PartialEq, Eq)]
pub enum ColumnumnAlign {
    Left,
    Center,
    Right,
}

/// One cell of a document table.
#[derive(Debug)]
pub struct TableCell {
    pub children: Paragraph,
    pub col_span: usize,
    pub row_span: usize,
    pub is_header: bool,
    pub alignment: ColumnumnAlign,
}

/// One row of a document table.
#[derive(Debug)]
pub struct TableRow {
    pub children: Vec<TableCell>,
}

/// A document table.
#[derive(Debug)]
pub struct Table {
    pub children: Vec<TableRow>,
    pub column_aligns: Vec<ColumnumnAlign>,
    pub span: Option<Span>,
}

/// The block-level nodes of the document model.
#[derive(Debug)]
pub enum BlockNode {
    /// A container of blocks, like a `div`.
    Root { children: Vec<BlockNode>, span: Option<Span> },
    Paragraph(Paragraph),
    Heading { level: u8, children: Paragraph, span: Option<Span> },
    Blockquote { children: Vec<BlockNode>, kind: Option<CalloutKind>, span: Option<Span> },
    /// A list; only its `ListItem` children are list items.
    List { children: Vec<BlockNode>, ordered: bool, start: Option<u64>, span: Option<Span> },
    /// A list item; `checked` is `None` when it is not a task.
    ListItem { children: Vec<BlockNode>, spread: bool, checked: Option<bool>, span: Option<Span> },
    CodeBlock(CodeBlock),
    Table(Table),
    Break { html: bool, span: Option<Span> },
    HorizontalRule { span: Option<Span> },
    Definition { identifier: String, url: String, title: Option<String>, span: Option<Span> },
    Unknown,
}


/// A link mark seen as plain values.
#[verifier::ext_equal]
pub struct LinkView {
    pub url: Seq<char>,
    pub identifier: Option<Seq<char>>,
    pub title: Option<Seq<char>>,
}

/// A text mark seen as plain values.
#[verifier::ext_equal]
pub struct MarkView {
    pub bold: bool,
    pub italic: bool,
    pub strikethrough: bool,
    pub underline: bool,
    pub code: bool,
    pub footnote_reference: bool,
    pub highlight: Option<u32>,
    pub link: Option<LinkView>,
}

/// An image node seen as plain values.
#[verifier::ext_equal]
pub struct ImageNodeView {
    pub url: Seq<char>,
    pub link: Option<LinkView>,
    pub title: Option<Seq<char>>,
    pub alt: Option<Seq<char>>,
}

/// An inline node seen as plain values.
#[verifier::ext_equal]
pub struct InlineView {
    pub text: Seq<char>,
    pub image: Option<ImageNodeView>,
    pub marks: Seq<(Range<usize>, MarkView)>,
    pub source_range: Option<Range<usize>>,
}

/// A paragraph seen as plain values.
#[verifier::ext_equal]
pub struct ParagraphView {
    pub span: Option<Span>,
    pub children: Seq<InlineView>,
}

/// A code block seen as plain values.
#[verifier::ext_equal]
pub struct CodeNodeView {
    pub lang: Option<Seq<char>>,
    pub info: Option<Seq<char>>,
    pub source_path: Option<Seq<char>>,
    pub code: Seq<char>,
    pub span: Option<Span>,
}

/// A table cell seen as plain values.
#[verifier::ext_equal]
pub struct CellNodeView {
    pub children: ParagraphView,
    pub col_span: usize,
    pub row_span: usize,
    pub is_header: bool,
    pub alignment: ColumnumnAlign,
}

/// A table seen as plain values.
#[verifier::ext_equal]
pub struct TableNodeView {
    pub rows: Seq<Seq<CellNodeView>>,
    pub column_aligns: Seq<ColumnumnAlign>,
    pub span: Option<Span>,
}

/// A block node seen as plain values.
pub enum NodeView {
    Root { children: Seq<NodeView>, span: Option<Span> },
    Paragraph(ParagraphView),
    Heading { level: u8, children: ParagraphView, span: Option<Span> },
    Blockquote { children: Seq<NodeView>, kind: Option<CalloutKind>, span: Option<Span> },
    List { children: Seq<NodeView>, ordered: bool, start: Option<u64>, span: Option<Span> },
    ListItem { children: Seq<NodeView>, spread: bool, checked: Option<bool>, span: Option<Span> },
    CodeBlock(CodeNodeView),
    Table(TableNodeView),
    Break { html: bool, span: Option<Span> },
    HorizontalRule { span: Option<Span> },
    Definition { identifier: Seq<char>, url: Seq<char>, title: Option<Seq<char>>, span: Option<Span> },
    Unknown,
}

pub open spec fn text_opt(s: Option<String>) -> Option<Seq<char>> {
    match s {
        Some(s) => Some(s@),
        None => None,
    }
}

pub open spec fn link_view_of(l: LinkMark) -> LinkView {
    LinkView { url: l.url@, identifier: text_opt(l.identifier), title: text_opt(l.title) }
}

pub open spec fn link_opt_view(l: Option<LinkMark>) -> Option<LinkView> {
    match l {
        Some(l) => Some(link_view_of(l)),
        None => None,
    }
}

pub open spec fn mark_view(m: TextMark) -> MarkView {
    MarkView {
        bold: m.bold,
        italic: m.italic,
        strikethrough: m.strikethrough,
        underline: m.underline,
        code: m.code,
        footnote_reference: m.footnote_reference,
        highlight: m.highlight,
        link: link_opt_view(m.link),
    }
}

pub open spec fn image_node_view(i: ImageNode) -> ImageNodeView {
    ImageNodeView {
        url: i.url@,
        link: link_opt_view(i.link),
        title: text_opt(i.title),
        alt: text_opt(i.alt),
    }
}

pub open spec fn inline_view(n: InlineNode) -> InlineView {
    InlineView {
        text: n.text@,
        image: match n.image {
            Some(i) => Some(image_node_view(i)),
            None => None,
        },
        marks: n.marks@.map_values(|m: (Range<usize>, TextMark)| (m.0, mark_view(m.1))),
        source_range: n.source_range,
    }
}

pub open spec fn paragraph_view(p: Paragraph) -> ParagraphView {
    ParagraphView { span: p.span, children: p.children@.map_values(|n: InlineNode| inline_view(n)) }
}

pub open spec fn code_node_view(c: CodeBlock) -> CodeNodeView {
    CodeNodeView {
        lang: text_opt(c.lang),
        info: text_opt(c.info),
        source_path: text_opt(c.source_path),
        code: c.code@,
        span: c.span,
    }
}

pub open spec fn cell_node_view(c: TableCell) -> CellNodeView {
    CellNodeView {
        children: paragraph_view(c.children),
        col_span: c.col_span,
        row_span: c.row_span,
        is_header: c.is_header,
        alignment: c.alignment,
    }
}

pub open spec fn table_row_view(r: TableRow) -> Seq<CellNodeView> {
    r.children@.map_values(|c: TableCell| cell_node_view(c))
}

pub open spec fn table_node_view(t: Table) -> TableNodeView {
    TableNodeView {
        rows: t.children@.map_values(|r: TableRow| table_row_view(r)),
        column_aligns: t.column_aligns@,
        span: t.span,
    }
}

/// The views of `nodes`, in order.
pub open spec fn nodes_view(nodes: Vec<BlockNode>) -> Seq<NodeView>
    decreases nodes, 1int,
{
    Seq::new(
        nodes@.len(),
        |i: int|
            if 0 <= i < nodes@.len() {
                proof {
                    assert(decreases_to!(nodes => nodes@));
                    assert(decreases_to!(nodes@ => nodes@[i]));
                }
                node_view(nodes@[i])
            } else {
                NodeView::Unknown
            },
    )
}

/// A block node seen as plain values.
pub open spec fn node_view(node: BlockNode) -> NodeView
    decreases node, 0int,
{
    match node {
        BlockNode::Root { children, span } => NodeView::Root { children: nodes_view(children), span },
        BlockNode::Paragraph(p) => NodeView::Paragraph(paragraph_view(p)),
        BlockNode::Heading { level, children, span } => NodeView::Heading {
            level,
            children: paragraph_view(children),
            span,
        },
        BlockNode::Blockquote { children, kind, span } => NodeView::Blockquote {
            children: nodes_view(children),
            kind,
            span,
        },
        BlockNode::List { children, ordered, start, span } => NodeView::List {
            children: nodes_view(children),
            ordered,
            start,
            span,
        },
        BlockNode::ListItem { children, spread, checked, span } => NodeView::ListItem {
            children: nodes_view(children),
            spread,
            checked,
            span,
        },
        BlockNode::CodeBlock(c) => NodeView::CodeBlock(code_node_view(c)),
        BlockNode::Table(t) => NodeView::Table(table_node_view(t)),
        BlockNode::Break { html, span } => NodeView::Break { html, span },
        BlockNode::HorizontalRule { span } => NodeView::HorizontalRule { span },
        BlockNode::Definition { identifier, url, title, span } => NodeView::Definition {
            identifier: identifier@,
            url: url@,
            title: text_opt(title),
            span,
        },
        BlockNode::Unknown => NodeView::Unknown,
    }
}


/// `s` without leading and trailing whitespace.
pub open spec fn trimmed(s: Seq<char>) -> Seq<char> {
    trim_start(trim_end(s))
}

/// The characters of `s` before its first ASCII whitespace.
pub open spec fn ascii_word(s: Seq<char>) -> Seq<char>
    decreases s.len(),
{
    if s.len() == 0 || is_ascii_space(s[0]) {
        Seq::empty()
    } else {
        seq![s[0]] + ascii_word(s.drop_first())
    }
}

/// The text of inline nodes, in order.
pub open spec fn inlines_text(nodes: Seq<InlineView>) -> Seq<char>
    decreases nodes.len(),
{
    if nodes.len() == 0 {
        Seq::empty()
    } else {
        inlines_text(nodes.drop_last()) + nodes.last().text
    }
}

pub open spec fn plain_text_node(text: Seq<char>) -> InlineView {
    InlineView { text, image: None, marks: Seq::empty(), source_range: None }
}

impl InlineNode {
    /// A node of plain text.
    pub fn new(text: String) -> (node: Self)
        ensures
            inline_view(node) == plain_text_node(text@),
    {
        let node = InlineNode { text, image: None, marks: Vec::new(), source_range: None };
        proof {
            assert(inline_view(node) =~= plain_text_node(text@));
        }
        node
    }

    /// A node that shows an image.
    pub fn image(image: ImageNode) -> (node: Self)
        ensures
            inline_view(node) == (InlineView {
                text: Seq::empty(),
                image: Some(image_node_view(image)),
                marks: Seq::empty(),
                source_range: None,
            }),
    {
        let node = InlineNode { text: String::new(), image: Some(image), marks: Vec::new(), source_range: None };
        proof {
            assert(inline_view(node) =~= InlineView {
                text: Seq::empty(),
                image: Some(image_node_view(image)),
                marks: Seq::empty(),
                source_range: None,
            });
        }
        node
    }
}

impl Paragraph {
    /// A paragraph of one plain text node.
    pub fn new(text: String) -> (p: Self)
        ensures
            paragraph_view(p) == (ParagraphView { span: None, children: seq![plain_text_node(text@)] }),
    {
        let mut children = Vec::new();
        children.push(InlineNode::new(text));
        let p = Paragraph { span: None, children };
        proof {
            assert(paragraph_view(p) =~= ParagraphView { span: None, children: seq![plain_text_node(text@)] });
        }
        p
    }

    /// Moves the paragraph out, leaving an empty one without a span.
    pub fn take(&mut self) -> (taken: Paragraph)
        ensures
            taken == *old(self),
            paragraph_view(*final(self)) == (ParagraphView { span: None, children: Seq::empty() }),
    {
        let mut taken = Paragraph { span: None, children: Vec::new() };
        std::mem::swap(self, &mut taken);
        proof {
            assert(paragraph_view(*self) =~= ParagraphView { span: None, children: Seq::empty() });
        }
        taken
    }

    pub fn set_span(&mut self, span: Span)
        ensures
            paragraph_view(*final(self)) == (ParagraphView { span: Some(span), ..paragraph_view(*old(self)) }),
    {
        self.span = Some(span);
    }

    pub fn push(&mut self, node: InlineNode)
        ensures
            paragraph_view(*final(self)) == (ParagraphView {
                children: paragraph_view(*old(self)).children.push(inline_view(node)),
                ..paragraph_view(*old(self))
            }),
    {
        let ghost before = self.children@;
        self.children.push(node);
        proof {
            assert(self.children@.map_values(|n: InlineNode| inline_view(n)) =~= before.map_values(
                |n: InlineNode| inline_view(n),
            ).push(inline_view(node)));
        }
    }

    /// Appends plain text marked, over all of it, with the empty mark.
    pub fn push_str(&mut self, text: &str)
        ensures
            paragraph_view(*final(self)) == (ParagraphView {
                children: paragraph_view(*old(self)).children.push(
                    InlineView {
                        text: text@,
                        image: None,
                        marks: seq![(0..vstd::utf8::encode_utf8(text@).len() as usize, mark_view(plain_mark()))],
                        source_range: None,
                    },
                ),
                ..paragraph_view(*old(self))
            }),
    {
        let len = crate::unicode::str_byte_len(text);
        let mut marks = Vec::new();
        marks.push((0..len, TextMark::default()));
        let node = InlineNode { text: String::from_str(text), image: None, marks, source_range: None };
        proof {
            assert(node.marks@.map_values(|m: (Range<usize>, TextMark)| (m.0, mark_view(m.1))) =~= seq![
                (0..vstd::utf8::encode_utf8(text@).len() as usize, mark_view(plain_mark())),
            ]);
        }
        self.push(node);
    }

    pub fn push_image(&mut self, image: ImageNode)
        ensures
            paragraph_view(*final(self)) == (ParagraphView {
                children: paragraph_view(*old(self)).children.push(
                    InlineView {
                        text: Seq::empty(),
                        image: Some(image_node_view(image)),
                        marks: Seq::empty(),
                        source_range: None,
                    },
                ),
                ..paragraph_view(*old(self))
            }),
    {
        self.push(InlineNode::image(image));
    }

    /// Whether the paragraph shows nothing: no node, or only empty text.
    pub fn is_empty(&self) -> (empty: bool)
        ensures
            empty == forall|i: int|
                0 <= i < self.children@.len() ==> (#[trigger] self.children@[i]).text@.len() == 0
                    && self.children@[i].image is None,
    {
        let mut i: usize = 0;
        while i < self.children.len()
            invariant
                i <= self.children@.len(),
                forall|j: int|
                    0 <= j < i ==> (#[trigger] self.children@[j]).text@.len() == 0 && self.children@[j].image is None,
            decreases self.children@.len() - i,
        {
            let node = &self.children[i];
            if !node.text.as_str().is_empty() || node.image.is_some() {
                return false;
            }
            i += 1;
        }
        true
    }

    /// The text of the paragraph: its nodes' text, in order.
    pub fn text(&self) -> (text: String)
        ensures
            text@ == inlines_text(paragraph_view(*self).children),
    {
        let ghost nodes = paragraph_view(*self).children;
        let mut text = String::new();
        let mut i: usize = 0;
        while i < self.children.len()
            invariant
                i <= self.children@.len(),
                nodes == paragraph_view(*self).children,
                text@ == inlines_text(nodes.take(i as int)),
            decreases self.children@.len() - i,
        {
            text.append(self.children[i].text.as_str());
            proof {
                assert(nodes.take(i + 1).drop_last() =~= nodes.take(i as int));
            }
            i += 1;
        }
        proof {
            assert(nodes.take(i as int) =~= nodes);
        }
        text
    }

    /// Appends the nodes of `other`.
    pub fn merge(&mut self, other: Paragraph)
        ensures
            paragraph_view(*final(self)) == (ParagraphView {
                children: paragraph_view(*old(self)).children + paragraph_view(other).children,
                ..paragraph_view(*old(self))
            }),
    {
        let mut other = other;
        let ghost before = self.children@;
        let ghost added = other.children@;
        self.children.append(&mut other.children);
        proof {
            assert(self.children@.map_values(|n: InlineNode| inline_view(n)) =~= before.map_values(
                |n: InlineNode| inline_view(n),
            ) + added.map_values(|n: InlineNode| inline_view(n)));
        }
    }
}

/// The language a fenced info string names: its first ASCII word, unless
/// the info string holds a `/`.
pub open spec fn fenced_lang(info: Seq<char>) -> Option<Seq<char>> {
    if trimmed(info).contains('/') {
        None
    } else {
        Some(ascii_word(trimmed(info)))
    }
}

/// The kind under which the host may draw a node with its own renderer;
/// nodes of no such kind are always drawn by the view.
pub open spec fn renderer_kind_of(node: NodeView) -> Option<MarkdownBlockKind> {
    match node {
        NodeView::Paragraph(_) => Some(MarkdownBlockKind::Paragraph),
        NodeView::Heading { .. } => Some(MarkdownBlockKind::Heading),
        NodeView::Blockquote { .. } => Some(MarkdownBlockKind::Blockquote),
        NodeView::List { ordered, .. } => if ordered {
            Some(MarkdownBlockKind::OrderedList)
        } else {
            Some(MarkdownBlockKind::UnorderedList)
        },
        NodeView::ListItem { checked, .. } => if checked is Some {
            Some(MarkdownBlockKind::TaskListItem)
        } else {
            Some(MarkdownBlockKind::ListItem)
        },
        NodeView::CodeBlock(_) => Some(MarkdownBlockKind::CodeBlock),
        NodeView::Table(_) => Some(MarkdownBlockKind::Table),
        NodeView::HorizontalRule { .. } => Some(MarkdownBlockKind::HorizontalRule),
        _ => None,
    }
}

/// What a host's renderer for one block is given, besides the element the
/// view would draw.
#[derive(Debug)]
pub struct MarkdownBlockRenderContext {
    pub kind: MarkdownBlockKind,
    /// The canonical source bytes of the block.
    pub source_range: Option<Range<usize>>,
    /// The source text of those bytes, empty when they are not a valid
    /// range of the source.
    pub source: String,
    /// The plain text of the block without trailing whitespace.
    pub text: String,
    pub heading_level: Option<MarkdownHeadingLevel>,
    pub code_language: Option<String>,
    pub code_info: Option<String>,
    pub code_source_path: Option<String>,
    pub task_checked: Option<bool>,
}

/// The text of the bytes of `span` in `source`: empty unless they are a
/// range of the source between character boundaries.
pub open spec fn span_source(source: Seq<char>, span: Option<Span>) -> Seq<char> {
    match span {
        Some(s) => {
            let bytes = encode_utf8(source);
            if s.start <= s.end && s.end <= bytes.len() && is_char_boundary(bytes, s.start as int)
                && is_char_boundary(bytes, s.end as int) {
                chars_between(source, s.start as int, s.end as int)
            } else {
                Seq::empty()
            }
        },
        None => Seq::empty(),
    }
}

/// Whether `c` describes `node` drawn over `source` as a block of kind
/// `kind`.
pub open spec fn describes(c: MarkdownBlockRenderContext, node: NodeView, source: Seq<char>, kind: MarkdownBlockKind) -> bool {
    &&& c.kind == kind
    &&& c.source_range == match node_span(node) {
        Some(s) => Some(s.start..s.end),
        None => None,
    }
    &&& c.source@ == span_source(source, node_span(node))
    &&& c.text@ == trim_end(node_text(node))
    &&& c.heading_level == match node {
        NodeView::Heading { level, .. } => Some(heading_level_of(level)),
        _ => None,
    }
    &&& text_opt(c.code_language) == match node {
        NodeView::CodeBlock(code) => code.lang,
        _ => None,
    }
    &&& text_opt(c.code_info) == match node {
        NodeView::CodeBlock(code) => code.info,
        _ => None,
    }
    &&& text_opt(c.code_source_path) == match node {
        NodeView::CodeBlock(code) => code.source_path,
        _ => None,
    }
    &&& c.task_checked == match node {
        NodeView::ListItem { checked, .. } => checked,
        _ => None,
    }
}

impl BlockNode {
    /// The kind under which the host may draw this node (see
    /// [`renderer_kind_of`]).
    pub fn renderer_kind(&self) -> (kind: Option<MarkdownBlockKind>)
        ensures
            kind == renderer_kind_of(node_view(*self)),
    {
        match self {
            BlockNode::Paragraph(_) => Some(MarkdownBlockKind::Paragraph),
            BlockNode::Heading { .. } => Some(MarkdownBlockKind::Heading),
            BlockNode::Blockquote { .. } => Some(MarkdownBlockKind::Blockquote),
            BlockNode::List { ordered, .. } => if *ordered {
                Some(MarkdownBlockKind::OrderedList)
            } else {
                Some(MarkdownBlockKind::UnorderedList)
            },
            BlockNode::ListItem { checked, .. } => if checked.is_some() {
                Some(MarkdownBlockKind::TaskListItem)
            } else {
                Some(MarkdownBlockKind::ListItem)
            },
            BlockNode::CodeBlock(_) => Some(MarkdownBlockKind::CodeBlock),
            BlockNode::Table(_) => Some(MarkdownBlockKind::Table),
            BlockNode::HorizontalRule { .. } => Some(MarkdownBlockKind::HorizontalRule),
            _ => None,
        }
    }

    /// What a host's renderer for this node over `source` is given; nothing
    /// when the node is of no kind a host renderer takes.
    pub fn render_context(&self, source: &str) -> (context: Option<MarkdownBlockRenderContext>)
        ensures
            match renderer_kind_of(node_view(*self)) {
                Some(kind) => context matches Some(c) && describes(c, node_view(*self), source@, kind),
                None => context is None,
            },
    {
        let kind = match self.renderer_kind() {
            Some(kind) => kind,
            None => return None,
        };
        let span = self.span();
        let source_range = match span {
            Some(s) => Some(s.start..s.end),
            None => None,
        };
        let source_text = match span {
            Some(s) => {
                let len = str_byte_len(source);
                if s.start <= s.end && s.end <= len && source.is_char_boundary(s.start) && source.is_char_boundary(
                    s.end,
                ) {
                    substring(source, s.start, s.end)
                } else {
                    String::new()
                }
            },
            None => String::new(),
        };
        let text = self.text();
        let chars = chars_of(text.as_str());
        let end = trimmed_end(&chars, 0, chars.len());
        proof {
            assert(chars@.subrange(0, chars@.len() as int) =~= chars@);
        }
        let trimmed_text = collect_chars(&chars, 0, end);
        let (heading_level, code_language, code_info, code_source_path, task_checked) = match self {
            BlockNode::Heading { level, .. } => (Some(MarkdownHeadingLevel::from_depth(*level)), None, None, None, None),
            BlockNode::CodeBlock(code) => (None, code.lang(), code.info(), code.source_path(), None),
            BlockNode::ListItem { checked, .. } => (None, None, None, None, *checked),
            _ => (None, None, None, None, None),
        };
        Some(
            MarkdownBlockRenderContext {
                kind,
                source_range,
                source: source_text,
                text: trimmed_text,
                heading_level,
                code_language,
                code_info,
                code_source_path,
                task_checked,
            },
        )
    }
}

/// Whether two optional texts are equal.
fn same_text(a: &Option<String>, b: &Option<String>) -> (same: bool)
    ensures
        same == (text_opt(*a) == text_opt(*b)),
{
    match (a, b) {
        (Some(x), Some(y)) => *x == *y,
        (None, None) => true,
        _ => false,
    }
}

/// Whether two optional spans are equal.
fn same_span(a: Option<Span>, b: Option<Span>) -> (same: bool)
    ensures
        same == (a == b),
{
    match (a, b) {
        (Some(x), Some(y)) => x.start == y.start && x.end == y.end,
        (None, None) => true,
        _ => false,
    }
}

impl PartialEq for CodeBlock {
    fn eq(&self, other: &Self) -> (same: bool) {
        same_text(&self.lang, &other.lang) && self.code == other.code && same_span(self.span, other.span)
            && same_text(&self.info, &other.info) && same_text(&self.source_path, &other.source_path)
    }
}

/// Two code blocks are equal when their language, code, span, info string
/// and source path are.
impl vstd::std_specs::cmp::PartialEqSpecImpl for CodeBlock {
    open spec fn obeys_eq_spec() -> bool {
        true
    }

    open spec fn eq_spec(&self, other: &Self) -> bool {
        code_node_view(*self) == code_node_view(*other)
    }
}

impl CodeBlock {
    /// A code block whose info string is its language.
    pub fn new(code: String, lang: Option<String>, span: Option<Span>) -> (block: Self)
        ensures
            code_node_view(block) == (CodeNodeView {
                lang: text_opt(lang),
                info: text_opt(lang),
                source_path: None,
                code: code@,
                span,
            }),
    {
        let info = match &lang {
            Some(l) => Some(l.clone()),
            None => None,
        };
        CodeBlock { lang, info, source_path: None, code, span }
    }

    /// A fenced code block: the trimmed info string, the path it names when
    /// it holds a `/`, else its first word as the language.
    pub fn new_fenced(code: String, info: &str, span: Option<Span>) -> (block: Self)
        ensures
            code_node_view(block) == (CodeNodeView {
                lang: fenced_lang(info@),
                info: if trimmed(info@).len() > 0 {
                    Some(trimmed(info@))
                } else {
                    None
                },
                source_path: if trimmed(info@).contains('/') {
                    Some(trimmed(info@))
                } else {
                    None
                },
                code: code@,
                span,
            }),
    {
        let chars = chars_of(info);
        let n = chars.len();
        proof {
            assert(chars@.subrange(0, n as int) =~= chars@);
        }
        let end = trimmed_end(&chars, 0, n);
        let start = trimmed_start(&chars, 0, end);
        let ghost t = chars@.subrange(start as int, end as int);
        let mut has_slash = false;
        let mut k = start;
        while k < end
            invariant
                start <= k <= end <= chars@.len(),
                t == chars@.subrange(start as int, end as int),
                has_slash == exists|j: int| start <= j < k && chars@[j] == '/',
            decreases end - k,
        {
            if chars[k] == '/' {
                has_slash = true;
            }
            k += 1;
        }
        proof {
            if has_slash {
                let j = choose|j: int| start <= j < k && chars@[j] == '/';
                assert(t[j - start] == '/');
            }
            if t.contains('/') {
                let j = choose|j: int| 0 <= j < t.len() && t[j] == '/';
                assert(chars@[start + j] == '/');
            }
        }
        let trimmed_info = collect_chars(&chars, start, end);
        let source_path = if has_slash {
            Some(collect_chars(&chars, start, end))
        } else {
            None
        };
        let lang = if has_slash {
            None
        } else {
            let mut w = start;
            while w < end && !(chars[w] == ' ' || chars[w] == '\t' || chars[w] == '\n' || chars[w] == '\u{c}' || chars[w] == '\r')
                invariant
                    start <= w <= end <= chars@.len(),
                    ascii_word(chars@.subrange(start as int, end as int)) == chars@.subrange(start as int, w as int)
                        + ascii_word(chars@.subrange(w as int, end as int)),
                decreases end - w,
            {
                assert(chars@.subrange(w as int, end as int).drop_first() =~= chars@.subrange(w + 1, end as int));
                assert(chars@.subrange(start as int, w + 1) =~= chars@.subrange(start as int, w as int) + seq![chars@[w as int]]);
                w += 1;
            }
            assert(ascii_word(chars@.subrange(w as int, end as int)) =~= Seq::<char>::empty());
            assert(chars@.subrange(start as int, w as int) + Seq::<char>::empty() =~= chars@.subrange(start as int, w as int));
            Some(collect_chars(&chars, start, w))
        };
        let info = if end > start {
            Some(trimmed_info)
        } else {
            None
        };
        CodeBlock { lang, info, source_path, code, span }
    }

    /// The language of the code block.
    pub fn lang(&self) -> (lang: Option<String>)
        ensures
            text_opt(lang) == text_opt(self.lang),
    {
        match &self.lang {
            Some(l) => Some(l.clone()),
            None => None,
        }
    }

    /// The whole trimmed info string of a fenced block.
    pub fn info(&self) -> (info: Option<String>)
        ensures
            text_opt(info) == text_opt(self.info),
    {
        match &self.info {
            Some(i) => Some(i.clone()),
            None => None,
        }
    }

    /// The source path that the info string names, if any.
    pub fn source_path(&self) -> (path: Option<String>)
        ensures
            text_opt(path) == text_opt(self.source_path),
    {
        match &self.source_path {
            Some(p) => Some(p.clone()),
            None => None,
        }
    }

    /// The code of the block.
    pub fn code(&self) -> (code: String)
        ensures
            code@ == self.code@,
    {
        self.code.clone()
    }
}


/// `s`, followed by a newline when not empty.
pub open spec fn with_newline(s: Seq<char>) -> Seq<char> {
    if s.len() > 0 {
        s.push('\n')
    } else {
        s
    }
}

/// The texts of a row's cells, separated by spaces.
pub open spec fn row_text(cells: Seq<CellNodeView>) -> Seq<char>
    decreases cells.len(),
{
    if cells.len() == 0 {
        Seq::empty()
    } else if cells.len() == 1 {
        inlines_text(cells[0].children.children)
    } else {
        row_text(cells.drop_last()) + seq![' '] + inlines_text(cells.last().children.children)
    }
}

/// The text of a table's rows: each row with cells as a line.
pub open spec fn table_text(rows: Seq<Seq<CellNodeView>>) -> Seq<char>
    decreases rows.len(),
{
    if rows.len() == 0 {
        Seq::empty()
    } else {
        table_text(rows.drop_last()) + if rows.last().len() > 0 {
            row_text(rows.last()).push('\n')
        } else {
            Seq::empty()
        }
    }
}

/// The text of nodes, in order.
pub open spec fn nodes_text(nodes: Seq<NodeView>) -> Seq<char>
    decreases nodes, 0int,
{
    if nodes.len() == 0 {
        Seq::empty()
    } else {
        proof {
            assert(decreases_to!(nodes => nodes[nodes.len() - 1]));
            assert(decreases_to!(nodes => nodes.subrange(0, nodes.len() - 1)));
        }
        nodes_text(nodes.subrange(0, nodes.len() - 1)) + node_text(nodes[nodes.len() - 1])
    }
}

/// The plain text of a node: block texts each followed by a newline, lists
/// and items as their children's text, and nothing for rules, breaks and
/// definitions.
pub open spec fn node_text(node: NodeView) -> Seq<char>
    decreases node, 1int,
{
    match node {
        NodeView::Root { children, .. } => with_newline(nodes_text(children)),
        NodeView::Paragraph(p) => with_newline(inlines_text(p.children)),
        NodeView::Heading { children, .. } => with_newline(inlines_text(children.children)),
        NodeView::List { children, .. } => nodes_text(children),
        NodeView::ListItem { children, .. } => nodes_text(children),
        NodeView::Blockquote { children, .. } => with_newline(nodes_text(children)),
        NodeView::Table(t) => with_newline(table_text(t.rows)),
        NodeView::CodeBlock(c) => with_newline(c.code),
        _ => Seq::empty(),
    }
}

/// The view of a list of nodes has one entry per node, each the view of
/// that node.
pub proof fn lemma_nodes_view_index(nodes: Vec<BlockNode>, i: int)
    requires
        0 <= i < nodes@.len(),
    ensures
        nodes_view(nodes).len() == nodes@.len(),
        nodes_view(nodes)[i] == node_view(nodes@[i]),
{
}

/// The text of `nodes`, in order.
pub(crate) fn children_text(nodes: &Vec<BlockNode>) -> (text: String)
    ensures
        text@ == nodes_text(nodes_view(*nodes)),
    decreases *nodes, 0int,
{
    let ghost views = nodes_view(*nodes);
    let mut text = String::new();
    let mut i: usize = 0;
    while i < nodes.len()
        invariant
            i <= nodes@.len(),
            views == nodes_view(*nodes),
            views.len() == nodes@.len(),
            text@ == nodes_text(views.subrange(0, i as int)),
        decreases nodes@.len() - i,
    {
        proof {
            assert(decreases_to!(*nodes => nodes@));
            assert(decreases_to!(nodes@ => nodes@[i as int]));
            lemma_nodes_view_index(*nodes, i as int);
        }
        let child = nodes[i].text();
        text.append(child.as_str());
        proof {
            let next = views.subrange(0, i + 1);
            assert(next.subrange(0, next.len() - 1) =~= views.subrange(0, i as int));
            assert(next[next.len() - 1] == views[i as int]);
        }
        i += 1;
    }
    proof {
        assert(views.subrange(0, i as int) =~= views);
    }
    text
}

/// The texts of a row's cells, separated by spaces.
fn row_text_of(row: &TableRow) -> (text: String)
    ensures
        text@ == row_text(table_row_view(*row)),
{
    let ghost cells = table_row_view(*row);
    let mut text = String::new();
    let mut k: usize = 0;
    while k < row.children.len()
        invariant
            k <= row.children@.len(),
            cells == table_row_view(*row),
            text@ == row_text(cells.take(k as int)),
        decreases row.children@.len() - k,
    {
        if k > 0 {
            text.push(' ');
        }
        let cell_text = row.children[k].children.text();
        text.append(cell_text.as_str());
        proof {
            let next = cells.take(k + 1);
            assert(next.drop_last() =~= cells.take(k as int));
            assert(next.last() == cells[k as int]);
        }
        k += 1;
    }
    proof {
        assert(cells.take(k as int) =~= cells);
    }
    text
}

fn push_line(text: &mut String, block: String)
    ensures
        final(text)@ == old(text)@ + with_newline(block@),
{
    if !block.as_str().is_empty() {
        text.append(block.as_str());
        text.push('\n');
    }
    proof {
        assert(final(text)@ =~= old(text)@ + with_newline(block@));
    }
}

impl BlockNode {
    /// Whether this is a code block.
    pub fn is_code_block(&self) -> (b: bool)
        ensures
            b == (*self is CodeBlock),
    {
        match self {
            BlockNode::CodeBlock(_) => true,
            _ => false,
        }
    }

    /// Whether this is a list item.
    pub fn is_list_item(&self) -> (b: bool)
        ensures
            b == (*self is ListItem),
    {
        match self {
            BlockNode::ListItem { .. } => true,
            _ => false,
        }
    }

    /// The source span of the node.
    pub fn span(&self) -> (span: Option<Span>)
        ensures
            span == node_span(node_view(*self)),
    {
        match self {
            BlockNode::Root { span, .. } => *span,
            BlockNode::Paragraph(p) => p.span,
            BlockNode::Heading { span, .. } => *span,
            BlockNode::Blockquote { span, .. } => *span,
            BlockNode::List { span, .. } => *span,
            BlockNode::ListItem { span, .. } => *span,
            BlockNode::CodeBlock(c) => c.span,
            BlockNode::Table(t) => t.span,
            BlockNode::Break { span, .. } => *span,
            BlockNode::HorizontalRule { span } => *span,
            BlockNode::Definition { span, .. } => *span,
            BlockNode::Unknown => None,
        }
    }

    /// The plain text of the node (see [`node_text`]).
    pub fn text(&self) -> (text: String)
        ensures
            text@ == node_text(node_view(*self)),
        decreases *self, 1int,
    {
        let mut text = String::new();
        match self {
            BlockNode::Root { children, .. } => {
                proof {
                    assert(decreases_to!(*self => *children));
                }
                push_line(&mut text, children_text(children));
            },
            BlockNode::Paragraph(p) => push_line(&mut text, p.text()),
            BlockNode::Heading { children, .. } => push_line(&mut text, children.text()),
            BlockNode::List { children, .. } => {
                proof {
                    assert(decreases_to!(*self => *children));
                }
                text = children_text(children);
            },
            BlockNode::ListItem { children, .. } => {
                proof {
                    assert(decreases_to!(*self => *children));
                }
                text = children_text(children);
            },
            BlockNode::Blockquote { children, .. } => {
                proof {
                    assert(decreases_to!(*self => *children));
                }
                push_line(&mut text, children_text(children));
            },
            BlockNode::Table(table) => {
                let ghost rows = table_node_view(*table).rows;
                let mut block_text = String::new();
                let mut r: usize = 0;
                while r < table.children.len()
                    invariant
                        r <= table.children@.len(),
                        rows == table_node_view(*table).rows,
                        block_text@ == table_text(rows.take(r as int)),
                    decreases table.children@.len() - r,
                {
                    let row = &table.children[r];
                    if row.children.len() > 0 {
                        let line = row_text_of(row);
                        block_text.append(line.as_str());
                        block_text.push('\n');
                    }
                    proof {
                        let next = rows.take(r + 1);
                        assert(next.drop_last() =~= rows.take(r as int));
                        assert(next.last() == rows[r as int]);
                        assert(block_text@ =~= table_text(next));
                    }
                    r += 1;
                }
                proof {
                    assert(rows.take(r as int) =~= rows);
                }
                push_line(&mut text, block_text);
            },
            BlockNode::CodeBlock(code) => push_line(&mut text, code.code()),
            _ => {},
        }
        text
    }
}

/// The source span of a node.
pub open spec fn node_span(node: NodeView) -> Option<Span> {
    match node {
        NodeView::Root { span, .. } => span,
        NodeView::Paragraph(p) => p.span,
        NodeView::Heading { span, .. } => span,
        NodeView::Blockquote { span, .. } => span,
        NodeView::List { span, .. } => span,
        NodeView::ListItem { span, .. } => span,
        NodeView::CodeBlock(c) => c.span,
        NodeView::Table(t) => t.span,
        NodeView::Break { span, .. } => span,
        NodeView::HorizontalRule { span } => span,
        NodeView::Definition { span, .. } => span,
        NodeView::Unknown => None,
    }
}


/// A span moved inside the source: both ends at most `len`, the end not
/// before the start.
pub open spec fn clamp_span(span: Option<Span>, len: usize) -> Option<Span> {
    match span {
        Some(sp) => {
            let start = if sp.start <= len {
                sp.start
            } else {
                len
            };
            let end0 = if sp.end <= len {
                sp.end
            } else {
                len
            };
            let end = if end0 >= start {
                end0
            } else {
                start
            };
            Some(Span { start, end })
        },
        None => None,
    }
}

pub open spec fn clamp_paragraph(p: ParagraphView, len: usize) -> ParagraphView {
    ParagraphView { span: clamp_span(p.span, len), ..p }
}

pub open spec fn clamp_cell(c: CellNodeView, len: usize) -> CellNodeView {
    CellNodeView { children: clamp_paragraph(c.children, len), ..c }
}

pub open spec fn clamp_table(t: TableNodeView, len: usize) -> TableNodeView {
    TableNodeView {
        span: clamp_span(t.span, len),
        rows: t.rows.map_values(|row: Seq<CellNodeView>| row.map_values(|c: CellNodeView| clamp_cell(c, len))),
        ..t
    }
}

/// `nodes` with their spans clamped to `len`.
pub open spec fn clamp_nodes(nodes: Seq<NodeView>, len: usize) -> Seq<NodeView>
    decreases nodes, 0int,
{
    Seq::new(
        nodes.len(),
        |i: int|
            if 0 <= i < nodes.len() {
                proof {
                    assert(decreases_to!(nodes => nodes[i]));
                }
                clamp_node(nodes[i], len)
            } else {
                NodeView::Unknown
            },
    )
}

/// A node with every span in it clamped to `len` (see [`clamp_span`]).
pub open spec fn clamp_node(node: NodeView, len: usize) -> NodeView
    decreases node, 1int,
{
    match node {
        NodeView::Root { children, span } => NodeView::Root {
            children: clamp_nodes(children, len),
            span: clamp_span(span, len),
        },
        NodeView::Paragraph(p) => NodeView::Paragraph(clamp_paragraph(p, len)),
        NodeView::Heading { level, children, span } => NodeView::Heading {
            level,
            children: clamp_paragraph(children, len),
            span: clamp_span(span, len),
        },
        NodeView::Blockquote { children, kind, span } => NodeView::Blockquote {
            children: clamp_nodes(children, len),
            kind,
            span: clamp_span(span, len),
        },
        NodeView::List { children, ordered, start, span } => NodeView::List {
            children: clamp_nodes(children, len),
            ordered,
            start,
            span: clamp_span(span, len),
        },
        NodeView::ListItem { children, spread, checked, span } => NodeView::ListItem {
            children: clamp_nodes(children, len),
            spread,
            checked,
            span: clamp_span(span, len),
        },
        NodeView::CodeBlock(c) => NodeView::CodeBlock(CodeNodeView { span: clamp_span(c.span, len), ..c }),
        NodeView::Table(t) => NodeView::Table(clamp_table(t, len)),
        NodeView::Break { html, span } => NodeView::Break { html, span: clamp_span(span, len) },
        NodeView::HorizontalRule { span } => NodeView::HorizontalRule { span: clamp_span(span, len) },
        NodeView::Definition { identifier, url, title, span } => NodeView::Definition {
            identifier,
            url,
            title,
            span: clamp_span(span, len),
        },
        NodeView::Unknown => NodeView::Unknown,
    }
}

fn clamped_span(span: Option<Span>, len: usize) -> (out: Option<Span>)
    ensures
        out == clamp_span(span, len),
{
    match span {
        Some(sp) => {
            let start = if sp.start <= len {
                sp.start
            } else {
                len
            };
            let end0 = if sp.end <= len {
                sp.end
            } else {
                len
            };
            let end = if end0 >= start {
                end0
            } else {
                start
            };
            Some(Span { start, end })
        },
        None => None,
    }
}

fn clamped_row(row: &TableRow, len: usize) -> (out: TableRow)
    ensures
        table_row_view(out) == table_row_view(*row).map_values(|cell: CellNodeView| clamp_cell(cell, len)),
{
    let mut cells: Vec<TableCell> = Vec::new();
    let mut c: usize = 0;
    while c < row.children.len()
        invariant
            c <= row.children@.len(),
            cells@.len() == c,
            forall|j: int|
                0 <= j < c ==> #[trigger] cell_node_view(cells@[j]) == clamp_cell(
                    cell_node_view(row.children@[j]),
                    len,
                ),
        decreases row.children@.len() - c,
    {
        let cell = &row.children[c];
        let nodes = clone_inlines(&cell.children.children);
        let clamped_cell = TableCell {
            children: Paragraph { span: clamped_span(cell.children.span, len), children: nodes },
            col_span: cell.col_span,
            row_span: cell.row_span,
            is_header: cell.is_header,
            alignment: cell.alignment,
        };
        proof {
            assert(paragraph_view(clamped_cell.children) =~= clamp_paragraph(paragraph_view(cell.children), len));
        }
        cells.push(clamped_cell);
        c += 1;
    }
    let out = TableRow { children: cells };
    proof {
        assert(table_row_view(out) =~= table_row_view(*row).map_values(|cell: CellNodeView| clamp_cell(cell, len)));
    }
    out
}

fn clamped_table(table: &Table, len: usize) -> (out: Table)
    ensures
        table_node_view(out) == clamp_table(table_node_view(*table), len),
{
    let ghost before = table_node_view(*table);
    let children = &table.children;
    let mut column_aligns: Vec<ColumnumnAlign> = Vec::new();
    let mut a: usize = 0;
    while a < table.column_aligns.len()
        invariant
            a <= table.column_aligns@.len(),
            column_aligns@ == table.column_aligns@.take(a as int),
        decreases table.column_aligns@.len() - a,
    {
        column_aligns.push(table.column_aligns[a]);
        proof {
            assert(column_aligns@ =~= table.column_aligns@.take(a + 1));
        }
        a += 1;
    }
    proof {
        assert(table.column_aligns@.take(a as int) =~= table.column_aligns@);
    }
    let span = table.span;
    let mut rows: Vec<TableRow> = Vec::new();
    let mut r: usize = 0;
    while r < children.len()
        invariant
            r <= children@.len(),
            rows@.len() == r,
            forall|j: int|
                0 <= j < r ==> #[trigger] table_row_view(rows@[j]) == table_row_view(children@[j]).map_values(
                    |cell: CellNodeView| clamp_cell(cell, len),
                ),
        decreases children@.len() - r,
    {
        let new_row = clamped_row(&children[r], len);
        rows.push(new_row);
        r += 1;
    }
    let out = Table { children: rows, column_aligns, span: clamped_span(span, len) };
    proof {
        assert(table_node_view(out).rows =~= clamp_table(before, len).rows);
        assert(table_node_view(out) =~= clamp_table(before, len));
    }
    out
}

fn clamped_paragraph(p: &Paragraph, len: usize) -> (out: Paragraph)
    ensures
        paragraph_view(out) == clamp_paragraph(paragraph_view(*p), len),
{
    let out = Paragraph { span: clamped_span(p.span, len), children: clone_inlines(&p.children) };
    proof {
        assert(paragraph_view(out) =~= clamp_paragraph(paragraph_view(*p), len));
    }
    out
}

fn clamped_nodes(nodes: &Vec<BlockNode>, len: usize) -> (out: Vec<BlockNode>)
    ensures
        nodes_view(out) == clamp_nodes(nodes_view(*nodes), len),
    decreases *nodes, 0int,
{
    let mut out: Vec<BlockNode> = Vec::new();
    let mut i: usize = 0;
    while i < nodes.len()
        invariant
            i <= nodes@.len(),
            out@.len() == i,
            forall|j: int| 0 <= j < i ==> #[trigger] node_view(out@[j]) == clamp_node(node_view(nodes@[j]), len),
        decreases nodes@.len() - i,
    {
        proof {
            assert(decreases_to!(*nodes => nodes@));
            assert(decreases_to!(nodes@ => nodes@[i as int]));
        }
        let node = clamped(&nodes[i], len);
        out.push(node);
        i += 1;
    }
    proof {
        assert forall|j: int| 0 <= j < out@.len() implies nodes_view(out)[j] == clamp_nodes(
            nodes_view(*nodes),
            len,
        )[j] by {
            lemma_nodes_view_index(out, j);
            lemma_nodes_view_index(*nodes, j);
        }
        assert(nodes_view(out) =~= clamp_nodes(nodes_view(*nodes), len));
    }
    out
}

/// A copy of `node` with every span clamped to `len`.
fn clamped(node: &BlockNode, len: usize) -> (out: BlockNode)
    ensures
        node_view(out) == clamp_node(node_view(*node), len),
    decreases *node, 1int,
{
    match node {
        BlockNode::Root { children, span } => {
            proof {
                assert(decreases_to!(*node => *children));
            }
            BlockNode::Root { children: clamped_nodes(children, len), span: clamped_span(*span, len) }
        },
        BlockNode::Paragraph(p) => BlockNode::Paragraph(clamped_paragraph(p, len)),
        BlockNode::Heading { level, children, span } => BlockNode::Heading {
            level: *level,
            children: clamped_paragraph(children, len),
            span: clamped_span(*span, len),
        },
        BlockNode::Blockquote { children, kind, span } => {
            proof {
                assert(decreases_to!(*node => *children));
            }
            BlockNode::Blockquote {
                children: clamped_nodes(children, len),
                kind: *kind,
                span: clamped_span(*span, len),
            }
        },
        BlockNode::List { children, ordered, start, span } => {
            proof {
                assert(decreases_to!(*node => *children));
            }
            BlockNode::List {
                children: clamped_nodes(children, len),
                ordered: *ordered,
                start: *start,
                span: clamped_span(*span, len),
            }
        },
        BlockNode::ListItem { children, spread, checked, span } => {
            proof {
                assert(decreases_to!(*node => *children));
            }
            BlockNode::ListItem {
                children: clamped_nodes(children, len),
                spread: *spread,
                checked: *checked,
                span: clamped_span(*span, len),
            }
        },
        BlockNode::CodeBlock(c) => BlockNode::CodeBlock(
            CodeBlock {
                lang: crate::node::clone_text(&c.lang),
                info: crate::node::clone_text(&c.info),
                source_path: crate::node::clone_text(&c.source_path),
                code: c.code.clone(),
                span: clamped_span(c.span, len),
            },
        ),
        BlockNode::Table(t) => BlockNode::Table(clamped_table(t, len)),
        BlockNode::Break { html, span } => BlockNode::Break { html: *html, span: clamped_span(*span, len) },
        BlockNode::HorizontalRule { span } => BlockNode::HorizontalRule { span: clamped_span(*span, len) },
        BlockNode::Definition { identifier, url, title, span } => BlockNode::Definition {
            identifier: identifier.clone(),
            url: url.clone(),
            title: crate::node::clone_text(title),
            span: clamped_span(*span, len),
        },
        BlockNode::Unknown => BlockNode::Unknown,
    }
}

impl BlockNode {
    /// Clamps every span in the node to the source boundary `source_len`.
    pub fn clamp_spans(&mut self, source_len: usize)
        ensures
            node_view(*final(self)) == clamp_node(node_view(*old(self)), source_len),
    {
        let out = clamped(self, source_len);
        *self = out;
    }
}

/// A copy of inline nodes.
pub fn clone_inlines(nodes: &Vec<InlineNode>) -> (copy: Vec<InlineNode>)
    ensures
        copy@.map_values(|n: InlineNode| inline_view(n)) == nodes@.map_values(|n: InlineNode| inline_view(n)),
{
    let mut copy: Vec<InlineNode> = Vec::new();
    let mut i: usize = 0;
    while i < nodes.len()
        invariant
            i <= nodes@.len(),
            copy@.len() == i,
            forall|j: int| 0 <= j < i ==> #[trigger] inline_view(copy@[j]) == inline_view(nodes@[j]),
        decreases nodes@.len() - i,
    {
        let node = clone_inline(&nodes[i]);
        copy.push(node);
        i += 1;
    }
    proof {
        assert(copy@.map_values(|n: InlineNode| inline_view(n)) =~= nodes@.map_values(|n: InlineNode| inline_view(n)));
    }
    copy
}

/// A copy of an inline node.
pub fn clone_inline(node: &InlineNode) -> (copy: InlineNode)
    ensures
        inline_view(copy) == inline_view(*node),
{
    let mut marks: Vec<(Range<usize>, TextMark)> = Vec::new();
    let mut k: usize = 0;
    while k < node.marks.len()
        invariant
            k <= node.marks@.len(),
            marks@ == node.marks@.take(k as int),
        decreases node.marks@.len() - k,
    {
        let range = node.marks[k].0.start..node.marks[k].0.end;
        let mark = node.marks[k].1.clone();
        marks.push((range, mark));
        proof {
            assert(marks@ =~= node.marks@.take(k + 1));
        }
        k += 1;
    }
    proof {
        assert(node.marks@.take(k as int) =~= node.marks@);
    }
    let image = match &node.image {
        Some(image) => Some(
            ImageNode {
                url: image.url.clone(),
                link: match &image.link {
                    Some(l) => Some(l.clone()),
                    None => None,
                },
                title: crate::node::clone_text(&image.title),
                alt: crate::node::clone_text(&image.alt),
            },
        ),
        None => None,
    };
    let source_range = match &node.source_range {
        Some(r) => Some(r.start..r.end),
        None => None,
    };
    let copy = InlineNode { text: node.text.clone(), image, marks, source_range };
    proof {
        assert(inline_view(copy) =~= inline_view(*node));
    }
    copy
}

/// The index of the last node with text, if any.
pub open spec fn last_text_index(children: Seq<InlineView>) -> Option<int>
    decreases children.len(),
{
    if children.len() == 0 {
        None
    } else if children.last().text.len() > 0 {
        Some(children.len() - 1)
    } else {
        last_text_index(children.drop_last())
    }
}

/// A mark range moved inside `0..n`, its end not before its start.
pub open spec fn clamp_range(r: Range<usize>, n: usize) -> Range<usize> {
    let start = if r.start <= n {
        r.start
    } else {
        n
    };
    let end0 = if r.end <= n {
        r.end
    } else {
        n
    };
    let end = if end0 >= start {
        end0
    } else {
        start
    };
    start..end
}

/// The marks clamped to `0..n`, without those left empty.
pub open spec fn kept_marks(marks: Seq<(Range<usize>, MarkView)>, n: usize) -> Seq<(Range<usize>, MarkView)>
    decreases marks.len(),
{
    if marks.len() == 0 {
        Seq::empty()
    } else {
        let r = clamp_range(marks.last().0, n);
        kept_marks(marks.drop_last(), n) + if r.start < r.end {
            seq![(r, marks.last().1)]
        } else {
            Seq::empty()
        }
    }
}

/// An inline node without its last character, its marks kept inside what
/// is left.
pub open spec fn without_last_char(node: InlineView) -> InlineView {
    let text = node.text.drop_last();
    InlineView {
        text,
        marks: kept_marks(node.marks, vstd::utf8::encode_utf8(text).len() as usize),
        ..node
    }
}

/// The paragraph with `expected` removed from the end of its last node with
/// text, a node left with neither text nor image dropped; `None` where that
/// node does not end with `expected`.
pub open spec fn trim_paragraph_char(p: ParagraphView, expected: char) -> Option<ParagraphView> {
    match last_text_index(p.children) {
        None => None,
        Some(i) => {
            let node = p.children[i];
            if node.text.last() == expected {
                let trimmed_node = without_last_char(node);
                if trimmed_node.text.len() == 0 && trimmed_node.image is None {
                    Some(ParagraphView { children: p.children.remove(i), ..p })
                } else {
                    Some(ParagraphView { children: p.children.update(i, trimmed_node), ..p })
                }
            } else {
                None
            }
        },
    }
}

proof fn lemma_last_text_index_bounds(children: Seq<InlineView>)
    ensures
        last_text_index(children) matches Some(i) ==> 0 <= i < children.len() && children[i].text.len() > 0,
    decreases children.len(),
{
    if children.len() > 0 && children.last().text.len() == 0 {
        lemma_last_text_index_bounds(children.drop_last());
    }
}

fn clamped_range(r: &Range<usize>, n: usize) -> (out: Range<usize>)
    ensures
        out == clamp_range(*r, n),
{
    let start = if r.start <= n {
        r.start
    } else {
        n
    };
    let end0 = if r.end <= n {
        r.end
    } else {
        n
    };
    let end = if end0 >= start {
        end0
    } else {
        start
    };
    start..end
}

/// Removes the last character of `node`, which has one, and keeps its marks
/// inside the text left.
fn drop_last_char(node: InlineNode) -> (out: InlineNode)
    requires
        node.text@.len() > 0,
    ensures
        inline_view(out) == without_last_char(inline_view(node)),
{
    let chars = chars_of(node.text.as_str());
    let mut text = String::new();
    let mut i: usize = 0;
    while i < chars.len() - 1
        invariant
            chars@.len() > 0,
            i + 1 <= chars@.len(),
            text@ == chars@.take(i as int),
        decreases chars@.len() - i,
    {
        text.push(chars[i]);
        proof {
            assert(text@ =~= chars@.take(i + 1));
        }
        i += 1;
    }
    let n = text.len();
    let ghost view_marks = inline_view(node).marks;
    let mut marks: Vec<(Range<usize>, TextMark)> = Vec::new();
    let mut k: usize = 0;
    while k < node.marks.len()
        invariant
            k <= node.marks@.len(),
            view_marks == node.marks@.map_values(|m: (Range<usize>, TextMark)| (m.0, mark_view(m.1))),
            marks@.map_values(|m: (Range<usize>, TextMark)| (m.0, mark_view(m.1))) == kept_marks(
                view_marks.take(k as int),
                n,
            ),
        decreases node.marks@.len() - k,
    {
        let r = clamped_range(&node.marks[k].0, n);
        proof {
            assert(view_marks.take(k + 1).drop_last() =~= view_marks.take(k as int));
        }
        if r.start < r.end {
            let mark = node.marks[k].1.clone();
            let ghost before = marks@;
            marks.push((r, mark));
            proof {
                assert(marks@.map_values(|m: (Range<usize>, TextMark)| (m.0, mark_view(m.1))) =~= before.map_values(
                    |m: (Range<usize>, TextMark)| (m.0, mark_view(m.1)),
                ) + seq![(r, mark_view(mark))]);
            }
        }
        k += 1;
    }
    proof {
        assert(view_marks.take(k as int) =~= view_marks);
        assert(text@ =~= node.text@.drop_last());
    }
    let InlineNode { text: _, image, marks: _, source_range } = node;
    InlineNode { text, image, marks, source_range }
}

impl Paragraph {
    /// Removes one `expected` character from the end of the last node with
    /// text, dropping that node if nothing is left in it; says whether it
    /// did.
    pub fn remove_trailing_synthetic_char(&mut self, expected: char) -> (removed: bool)
        ensures
            match trim_paragraph_char(paragraph_view(*old(self)), expected) {
                Some(q) => removed && paragraph_view(*final(self)) == q,
                None => !removed && paragraph_view(*final(self)) == paragraph_view(*old(self)),
            },
    {
        let ghost view = paragraph_view(*self).children;
        let mut i: usize = self.children.len();
        proof {
            assert(view.take(i as int) =~= view);
        }
        while i > 0 && self.children[i - 1].text.as_str().is_empty()
            invariant
                i <= self.children@.len(),
                view == paragraph_view(*self).children,
                last_text_index(view.take(i as int)) == last_text_index(view),
            decreases i,
        {
            proof {
                assert(view.take(i as int).drop_last() =~= view.take(i - 1));
            }
            i -= 1;
        }
        proof {
            lemma_last_text_index_bounds(view);
        }
        if i == 0 {
            proof {
                assert(view.take(0) =~= Seq::<InlineView>::empty());
            }
            return false;
        }
        let index = i - 1;
        proof {
            assert(view.take(i as int).last() == view[index as int]);
        }
        let chars = chars_of(self.children[index].text.as_str());
        if chars[chars.len() - 1] != expected {
            return false;
        }
        let ghost before = self.children@;
        let node = self.children.remove(index);
        let trimmed_node = drop_last_char(node);
        if trimmed_node.text.as_str().is_empty() && trimmed_node.image.is_none() {
            proof {
                assert(self.children@.map_values(|n: InlineNode| inline_view(n)) =~= view.remove(index as int));
            }
        } else {
            self.children.insert(index, trimmed_node);
            proof {
                assert(self.children@.map_values(|n: InlineNode| inline_view(n)) =~= view.update(
                    index as int,
                    without_last_char(view[index as int]),
                ));
            }
        }
        true
    }
}

/// The nodes with one `expected` character removed from the end of the
/// last one (see [`trim_node`]); `None` where there is no node or the last
/// one does not end with `expected`.
pub open spec fn trim_last_child(children: Seq<NodeView>, expected: char) -> Option<Seq<NodeView>>
    decreases children, 0int,
{
    if children.len() == 0 {
        None
    } else {
        proof {
            assert(decreases_to!(children => children[children.len() - 1]));
        }
        match trim_node(children[children.len() - 1], expected) {
            Some(c) => Some(children.update(children.len() - 1, c)),
            None => None,
        }
    }
}

/// The table with one `expected` character removed from the end of its last
/// cell.
pub open spec fn trim_table(t: TableNodeView, expected: char) -> Option<TableNodeView> {
    if t.rows.len() == 0 {
        None
    } else {
        let row = t.rows.last();
        if row.len() == 0 {
            None
        } else {
            let cell = row.last();
            match trim_paragraph_char(cell.children, expected) {
                Some(q) => Some(
                    TableNodeView {
                        rows: t.rows.update(
                            t.rows.len() - 1,
                            row.update(row.len() - 1, CellNodeView { children: q, ..cell }),
                        ),
                        ..t
                    },
                ),
                None => None,
            }
        }
    }
}

/// The node with one `expected` character removed from the end of its last
/// text (see [`trim_paragraph_char`]); `None` where its last text does not
/// end with `expected`, or it holds no text.
pub open spec fn trim_node(node: NodeView, expected: char) -> Option<NodeView>
    decreases node, 1int,
{
    match node {
        NodeView::Root { children, span } => match trim_last_child(children, expected) {
            Some(c) => Some(NodeView::Root { children: c, span }),
            None => None,
        },
        NodeView::Blockquote { children, kind, span } => match trim_last_child(children, expected) {
            Some(c) => Some(NodeView::Blockquote { children: c, kind, span }),
            None => None,
        },
        NodeView::List { children, ordered, start, span } => match trim_last_child(children, expected) {
            Some(c) => Some(NodeView::List { children: c, ordered, start, span }),
            None => None,
        },
        NodeView::ListItem { children, spread, checked, span } => match trim_last_child(children, expected) {
            Some(c) => Some(NodeView::ListItem { children: c, spread, checked, span }),
            None => None,
        },
        NodeView::Paragraph(p) => match trim_paragraph_char(p, expected) {
            Some(q) => Some(NodeView::Paragraph(q)),
            None => None,
        },
        NodeView::Heading { level, children, span } => match trim_paragraph_char(children, expected) {
            Some(q) => Some(NodeView::Heading { level, children: q, span }),
            None => None,
        },
        NodeView::Table(t) => match trim_table(t, expected) {
            Some(u) => Some(NodeView::Table(u)),
            None => None,
        },
        _ => None,
    }
}

fn trim_last_node(children: &mut Vec<BlockNode>, expected: char) -> (removed: bool)
    ensures
        match trim_last_child(nodes_view(*old(children)), expected) {
            Some(c) => removed && nodes_view(*final(children)) == c,
            None => !removed && nodes_view(*final(children)) == nodes_view(*old(children)),
        },
    decreases *old(children), 0int,
{
    let ghost before = nodes_view(*children);
    let ghost old_vec = *children;
    if children.len() == 0 {
        return false;
    }
    let last_index = children.len() - 1;
    proof {
        lemma_nodes_view_index(*children, last_index as int);
        assert(decreases_to!(old_vec => old_vec@));
        assert(decreases_to!(old_vec@ => old_vec@[last_index as int]));
    }
    let mut last = children.pop().unwrap();
    let removed = last.remove_trailing_synthetic_char(expected);
    children.push(last);
    proof {
        assert forall|j: int| 0 <= j < children@.len() implies nodes_view(*children)[j] == (if j == last_index {
            node_view(last)
        } else {
            before[j]
        }) by {
            lemma_nodes_view_index(*children, j);
            lemma_nodes_view_index(old_vec, j);
        }
        if removed {
            assert(nodes_view(*children) =~= before.update(last_index as int, node_view(last)));
        } else {
            assert(nodes_view(*children) =~= before);
        }
    }
    removed
}

fn trim_table_cell(table: &mut Table, expected: char) -> (removed: bool)
    ensures
        match trim_table(table_node_view(*old(table)), expected) {
            Some(u) => removed && table_node_view(*final(table)) == u,
            None => !removed && table_node_view(*final(table)) == table_node_view(*old(table)),
        },
{
    let ghost before = table_node_view(*table);
    if table.children.len() == 0 {
        return false;
    }
    let mut row = table.children.pop().unwrap();
    if row.children.len() == 0 {
        table.children.push(row);
        proof {
            assert(table_node_view(*table) =~= before);
        }
        return false;
    }
    let ghost row_view = table_row_view(row);
    let mut cell = row.children.pop().unwrap();
    let removed = cell.children.remove_trailing_synthetic_char(expected);
    row.children.push(cell);
    proof {
        if removed {
            assert(table_row_view(row) =~= row_view.update(
                row_view.len() - 1,
                CellNodeView { children: paragraph_view(cell.children), ..row_view.last() },
            ));
        } else {
            assert(table_row_view(row) =~= row_view);
        }
    }
    table.children.push(row);
    proof {
        if removed {
            assert(table_node_view(*table).rows =~= before.rows.update(before.rows.len() - 1, table_row_view(row)));
            assert(table_node_view(*table) =~= trim_table(before, expected).unwrap());
        } else {
            assert(table_node_view(*table) =~= before);
        }
    }
    removed
}

impl BlockNode {
    /// Removes one `expected` character from the end of the node's last text,
    /// as [`trim_node`] says; says whether it did.
    pub fn remove_trailing_synthetic_char(&mut self, expected: char) -> (removed: bool)
        ensures
            match trim_node(node_view(*old(self)), expected) {
                Some(n) => removed && node_view(*final(self)) == n,
                None => !removed && node_view(*final(self)) == node_view(*old(self)),
            },
        decreases *old(self), 1int,
    {
        let ghost old_node = *self;
        match self {
            BlockNode::Root { children, .. } => {
                proof {
                    assert(decreases_to!(old_node => old_node->Root_children));
                }
                trim_last_node(children, expected)
            },
            BlockNode::Blockquote { children, .. } => {
                proof {
                    assert(decreases_to!(old_node => old_node->Blockquote_children));
                }
                trim_last_node(children, expected)
            },
            BlockNode::List { children, .. } => {
                proof {
                    assert(decreases_to!(old_node => old_node->List_children));
                }
                trim_last_node(children, expected)
            },
            BlockNode::ListItem { children, .. } => {
                proof {
                    assert(decreases_to!(old_node => old_node->ListItem_children));
                }
                trim_last_node(children, expected)
            },
            BlockNode::Paragraph(p) => p.remove_trailing_synthetic_char(expected),
            BlockNode::Heading { children, .. } => children.remove_trailing_synthetic_char(expected),
            BlockNode::Table(t) => trim_table_cell(t, expected),
            _ => false,
        }
    }
}

/// The last mark of a node that covers its whole text, `0..len`.
pub open spec fn full_mark(marks: Seq<(Range<usize>, MarkView)>, len: nat) -> Option<MarkView>
    decreases marks.len(),
{
    if marks.len() == 0 {
        None
    } else if marks.last().0.start == 0 && marks.last().0.end == len {
        Some(marks.last().1)
    } else {
        full_mark(marks.drop_last(), len)
    }
}

/// The highest-priority kind of a mark: code, then link, strong, emphasis,
/// strikethrough, underline, highlight and footnote reference.
pub open spec fn mark_kind(m: MarkView) -> MarkdownInlineKind {
    if m.code {
        MarkdownInlineKind::InlineCode
    } else if m.link is Some {
        MarkdownInlineKind::Link
    } else if m.bold {
        MarkdownInlineKind::Strong
    } else if m.italic {
        MarkdownInlineKind::Emphasis
    } else if m.strikethrough {
        MarkdownInlineKind::Strikethrough
    } else if m.underline {
        MarkdownInlineKind::Underline
    } else if m.highlight is Some {
        MarkdownInlineKind::Mark
    } else if m.footnote_reference {
        MarkdownInlineKind::FootnoteReference
    } else {
        MarkdownInlineKind::Plain
    }
}

/// The kind of a node: that of the last mark over its whole text, plain
/// text where none covers it, nothing for an empty node without one.
pub open spec fn inline_kind(node: InlineView) -> Option<MarkdownInlineKind> {
    match full_mark(node.marks, vstd::utf8::encode_utf8(node.text).len()) {
        Some(m) => Some(mark_kind(m)),
        None => if node.text.len() > 0 {
            Some(MarkdownInlineKind::Plain)
        } else {
            None
        },
    }
}

/// The semantic kind of a node (see [`inline_kind`]).
pub fn inline_node_kind(node: &InlineNode) -> (kind: Option<MarkdownInlineKind>)
    ensures
        kind == inline_kind(inline_view(*node)),
{
    let len = node.text.len();
    let ghost marks = inline_view(*node).marks;
    let mut k = node.marks.len();
    proof {
        assert(marks.take(k as int) =~= marks);
    }
    while k > 0
        invariant
            k <= node.marks@.len(),
            len == vstd::utf8::encode_utf8(node.text@).len(),
            marks == inline_view(*node).marks,
            full_mark(marks.take(k as int), len as nat) == full_mark(marks, len as nat),
        decreases k,
    {
        proof {
            assert(marks.take(k as int).drop_last() =~= marks.take(k - 1));
        }
        let range = &node.marks[k - 1].0;
        if range.start == 0 && range.end == len {
            let m = &node.marks[k - 1].1;
            let kind = if m.code {
                MarkdownInlineKind::InlineCode
            } else if m.link.is_some() {
                MarkdownInlineKind::Link
            } else if m.bold {
                MarkdownInlineKind::Strong
            } else if m.italic {
                MarkdownInlineKind::Emphasis
            } else if m.strikethrough {
                MarkdownInlineKind::Strikethrough
            } else if m.underline {
                MarkdownInlineKind::Underline
            } else if m.highlight.is_some() {
                MarkdownInlineKind::Mark
            } else if m.footnote_reference {
                MarkdownInlineKind::FootnoteReference
            } else {
                MarkdownInlineKind::Plain
            };
            return Some(kind);
        }
        k -= 1;
    }
    proof {
        assert(marks.take(0) =~= Seq::<(Range<usize>, MarkView)>::empty());
    }
    if node.text.as_str().is_empty() {
        None
    } else {
        Some(MarkdownInlineKind::Plain)
    }
}

proof fn lemma_clamp_span_idempotent(span: Option<Span>, len: usize)
    ensures
        clamp_span(clamp_span(span, len), len) == clamp_span(span, len),
        clamp_span(span, len) matches Some(sp) ==> sp.start <= sp.end <= len,
{
}

proof fn lemma_clamp_table_idempotent(t: TableNodeView, len: usize)
    ensures
        clamp_table(clamp_table(t, len), len) == clamp_table(t, len),
{
    let once = clamp_table(t, len);
    let twice = clamp_table(once, len);
    assert forall|i: int| 0 <= i < twice.rows.len() implies twice.rows[i] == once.rows[i] by {
        assert forall|j: int| 0 <= j < twice.rows[i].len() implies twice.rows[i][j] == once.rows[i][j] by {
            lemma_clamp_span_idempotent(t.rows[i][j].children.span, len);
        }
        assert(twice.rows[i] =~= once.rows[i]);
    }
    lemma_clamp_span_idempotent(t.span, len);
    assert(twice.rows =~= once.rows);
}

proof fn lemma_clamp_nodes_idempotent(nodes: Seq<NodeView>, len: usize)
    ensures
        clamp_nodes(clamp_nodes(nodes, len), len) == clamp_nodes(nodes, len),
    decreases nodes, 0int,
{
    let once = clamp_nodes(nodes, len);
    assert forall|i: int| 0 <= i < nodes.len() implies clamp_nodes(once, len)[i] == once[i] by {
        assert(decreases_to!(nodes => nodes[i]));
        lemma_clamp_node_idempotent(nodes[i], len);
    }
    assert(clamp_nodes(once, len) =~= once);
}

/// Clamping the spans of a node to a source length a second time changes
/// nothing.
pub proof fn lemma_clamp_node_idempotent(node: NodeView, len: usize)
    ensures
        clamp_node(clamp_node(node, len), len) == clamp_node(node, len),
    decreases node, 1int,
{
    match node {
        NodeView::Root { children, span } => {
            lemma_clamp_nodes_idempotent(children, len);
            lemma_clamp_span_idempotent(span, len);
        },
        NodeView::Blockquote { children, span, .. } => {
            lemma_clamp_nodes_idempotent(children, len);
            lemma_clamp_span_idempotent(span, len);
        },
        NodeView::List { children, span, .. } => {
            lemma_clamp_nodes_idempotent(children, len);
            lemma_clamp_span_idempotent(span, len);
        },
        NodeView::ListItem { children, span, .. } => {
            lemma_clamp_nodes_idempotent(children, len);
            lemma_clamp_span_idempotent(span, len);
        },
        NodeView::Paragraph(p) => lemma_clamp_span_idempotent(p.span, len),
        NodeView::Heading { children, span, .. } => {
            lemma_clamp_span_idempotent(children.span, len);
            lemma_clamp_span_idempotent(span, len);
        },
        NodeView::CodeBlock(c) => lemma_clamp_span_idempotent(c.span, len),
        NodeView::Table(t) => lemma_clamp_table_idempotent(t, len),
        NodeView::Break { span, .. } => lemma_clamp_span_idempotent(span, len),
        NodeView::HorizontalRule { span } => lemma_clamp_span_idempotent(span, len),
        NodeView::Definition { span, .. } => lemma_clamp_span_idempotent(span, len),
        NodeView::Unknown => {},
    }
}

/// After clamping, a node's span lies within the source: neither end past
/// `len`, the end not before the start.
pub proof fn lemma_clamped_span_within(node: NodeView, len: usize)
    ensures
        node_span(clamp_node(node, len)) == clamp_span(node_span(node), len),
        node_span(clamp_node(node, len)) matches Some(sp) ==> sp.start <= sp.end <= len,
{
    lemma_clamp_span_idempotent(node_span(node), len);
}

proof fn lemma_inlines_text_concat(a: Seq<InlineView>, b: Seq<InlineView>)
    ensures
        inlines_text(a + b) == inlines_text(a) + inlines_text(b),
    decreases b.len(),
{
    if b.len() == 0 {
        assert(a + b =~= a);
        assert(inlines_text(a) + inlines_text(b) =~= inlines_text(a));
    } else {
        lemma_inlines_text_concat(a, b.drop_last());
        assert((a + b).drop_last() =~= a + b.drop_last());
        assert(inlines_text(a) + inlines_text(b) =~= inlines_text(a) + inlines_text(b.drop_last()) + b.last().text);
    }
}

proof fn lemma_inlines_text_blank(nodes: Seq<InlineView>)
    requires
        forall|j: int| 0 <= j < nodes.len() ==> (#[trigger] nodes[j]).text.len() == 0,
    ensures
        inlines_text(nodes) == Seq::<char>::empty(),
    decreases nodes.len(),
{
    if nodes.len() > 0 {
        lemma_inlines_text_blank(nodes.drop_last());
        assert(inlines_text(nodes) =~= Seq::<char>::empty());
    }
}

proof fn lemma_last_text_index_after(children: Seq<InlineView>)
    ensures
        last_text_index(children) matches Some(i) ==> forall|j: int|
            i < j < children.len() ==> (#[trigger] children[j]).text.len() == 0,
    decreases children.len(),
{
    if children.len() > 0 && children.last().text.len() == 0 {
        lemma_last_text_index_after(children.drop_last());
        lemma_last_text_index_bounds(children);
        if let Some(i) = last_text_index(children) {
            assert forall|j: int| i < j < children.len() implies (#[trigger] children[j]).text.len() == 0 by {
                if j < children.len() - 1 {
                    assert(children[j] == children.drop_last()[j]);
                }
            }
        }
    }
}

/// Removing the synthetic character from a paragraph removes exactly the
/// last character of its text, which is that character.
pub proof fn lemma_trim_paragraph_drops_last_char(p: ParagraphView, expected: char)
    requires
        trim_paragraph_char(p, expected) is Some,
    ensures
        inlines_text(p.children).len() > 0,
        inlines_text(p.children).last() == expected,
        inlines_text(trim_paragraph_char(p, expected).unwrap().children) == inlines_text(p.children).drop_last(),
{
    let children = p.children;
    let i = last_text_index(children).unwrap();
    lemma_last_text_index_bounds(children);
    lemma_last_text_index_after(children);
    let node = children[i];
    let before = children.take(i);
    let after = children.skip(i + 1);
    assert forall|j: int| 0 <= j < after.len() implies (#[trigger] after[j]).text.len() == 0 by {
        assert(after[j] == children[i + 1 + j]);
    }
    lemma_inlines_text_blank(after);
    assert(children =~= before + seq![node] + after);
    lemma_inlines_text_concat(before + seq![node], after);
    lemma_inlines_text_concat(before, seq![node]);
    assert(inlines_text(seq![node]) =~= node.text) by {
        assert(seq![node].drop_last() =~= Seq::<InlineView>::empty());
        assert(inlines_text(Seq::<InlineView>::empty()) =~= Seq::<char>::empty());
        assert(seq![node].last() == node);
    }
    assert(inlines_text(children) =~= inlines_text(before) + node.text);
    let trimmed_node = without_last_char(node);
    let q = trim_paragraph_char(p, expected).unwrap();
    if trimmed_node.text.len() == 0 && trimmed_node.image is None {
        assert(q.children =~= before + after);
        lemma_inlines_text_concat(before, after);
        assert(inlines_text(q.children) =~= inlines_text(children).drop_last());
    } else {
        assert(q.children =~= before + seq![trimmed_node] + after);
        lemma_inlines_text_concat(before + seq![trimmed_node], after);
        lemma_inlines_text_concat(before, seq![trimmed_node]);
        assert(inlines_text(seq![trimmed_node]) =~= trimmed_node.text) by {
            assert(seq![trimmed_node].drop_last() =~= Seq::<InlineView>::empty());
            assert(inlines_text(Seq::<InlineView>::empty()) =~= Seq::<char>::empty());
            assert(seq![trimmed_node].last() == trimmed_node);
        }
        assert(inlines_text(q.children) =~= inlines_text(children).drop_last());
    }
}

/// A node without the roots of a single child around it.
pub open spec fn compacted(node: NodeView) -> NodeView
    decreases node,
{
    match node {
        NodeView::Root { children, .. } => if children.len() == 1 {
            proof {
                assert(decreases_to!(node => children));
                assert(decreases_to!(children => children[0]));
            }
            compacted(children[0])
        } else {
            node
        },
        _ => node,
    }
}

impl BlockNode {
    /// The node with each root of a single child replaced by that child.
    pub fn compact(self) -> (node: BlockNode)
        ensures
            node_view(node) == compacted(node_view(self)),
        decreases self,
    {
        let ghost original = self;
        match self {
            BlockNode::Root { mut children, span } => {
                if children.len() == 1 {
                    proof {
                        lemma_nodes_view_index(children, 0);
                        assert(decreases_to!(original => children));
                        assert(decreases_to!(children => children@));
                        assert(decreases_to!(children@ => children@[0]));
                    }
                    let child = children.remove(0);
                    child.compact()
                } else {
                    BlockNode::Root { children, span }
                }
            },
            other => other,
        }
    }
}

/// The byte length of the text of the nodes together.
pub open spec fn text_bytes(nodes: Seq<InlineView>) -> nat
    decreases nodes.len(),
{
    if nodes.len() == 0 {
        0
    } else {
        text_bytes(nodes.drop_last()) + vstd::utf8::encode_utf8(nodes.last().text).len()
    }
}

impl Paragraph {
    /// The byte length of the paragraph's text.
    pub fn text_len(&self) -> (len: usize)
        requires
            text_bytes(paragraph_view(*self).children) <= usize::MAX,
        ensures
            len == text_bytes(paragraph_view(*self).children),
    {
        let ghost nodes = paragraph_view(*self).children;
        let mut len: usize = 0;
        let mut i: usize = 0;
        while i < self.children.len()
            invariant
                i <= self.children@.len(),
                nodes == paragraph_view(*self).children,
                text_bytes(nodes) <= usize::MAX,
                len == text_bytes(nodes.take(i as int)),
            decreases self.children@.len() - i,
        {
            proof {
                assert(nodes.take(i + 1).drop_last() =~= nodes.take(i as int));
                lemma_text_bytes_prefix(nodes, i + 1);
            }
            len = len + self.children[i].text.len();
            i += 1;
        }
        proof {
            assert(nodes.take(i as int) =~= nodes);
        }
        len
    }
}

proof fn lemma_text_bytes_prefix(nodes: Seq<InlineView>, k: int)
    requires
        0 <= k <= nodes.len(),
    ensures
        text_bytes(nodes.take(k)) <= text_bytes(nodes),
    decreases nodes.len() - k,
{
    if k < nodes.len() {
        lemma_text_bytes_prefix(nodes, k + 1);
        assert(nodes.take(k + 1).drop_last() =~= nodes.take(k));
    } else {
        assert(nodes.take(k) =~= nodes);
    }
}

fn copy_row(row: &TableRow) -> (out: TableRow)
    ensures
        table_row_view(out) == table_row_view(*row),
{
    let mut cells: Vec<TableCell> = Vec::new();
    let mut c: usize = 0;
    while c < row.children.len()
        invariant
            c <= row.children@.len(),
            cells@.len() == c,
            forall|j: int| 0 <= j < c ==> #[trigger] cell_node_view(cells@[j]) == cell_node_view(row.children@[j]),
        decreases row.children@.len() - c,
    {
        let cell = &row.children[c];
        let copied = TableCell {
            children: Paragraph { span: cell.children.span, children: clone_inlines(&cell.children.children) },
            col_span: cell.col_span,
            row_span: cell.row_span,
            is_header: cell.is_header,
            alignment: cell.alignment,
        };
        proof {
            assert(paragraph_view(copied.children) =~= paragraph_view(cell.children));
        }
        cells.push(copied);
        c += 1;
    }
    let out = TableRow { children: cells };
    proof {
        assert(table_row_view(out) =~= table_row_view(*row));
    }
    out
}

fn copy_table(table: &Table) -> (out: Table)
    ensures
        table_node_view(out) == table_node_view(*table),
{
    let mut column_aligns: Vec<ColumnumnAlign> = Vec::new();
    let mut a: usize = 0;
    while a < table.column_aligns.len()
        invariant
            a <= table.column_aligns@.len(),
            column_aligns@ == table.column_aligns@.take(a as int),
        decreases table.column_aligns@.len() - a,
    {
        column_aligns.push(table.column_aligns[a]);
        proof {
            assert(column_aligns@ =~= table.column_aligns@.take(a + 1));
        }
        a += 1;
    }
    proof {
        assert(table.column_aligns@.take(a as int) =~= table.column_aligns@);
    }
    let mut rows: Vec<TableRow> = Vec::new();
    let mut r: usize = 0;
    while r < table.children.len()
        invariant
            r <= table.children@.len(),
            rows@.len() == r,
            forall|j: int| 0 <= j < r ==> #[trigger] table_row_view(rows@[j]) == table_row_view(table.children@[j]),
        decreases table.children@.len() - r,
    {
        rows.push(copy_row(&table.children[r]));
        r += 1;
    }
    let out = Table { children: rows, column_aligns, span: table.span };
    proof {
        assert(table_node_view(out).rows =~= table_node_view(*table).rows);
        assert(table_node_view(out) =~= table_node_view(*table));
    }
    out
}

/// A copy of a paragraph.
pub fn copy_paragraph(p: &Paragraph) -> (out: Paragraph)
    ensures
        paragraph_view(out) == paragraph_view(*p),
{
    let out = Paragraph { span: p.span, children: clone_inlines(&p.children) };
    proof {
        assert(paragraph_view(out) =~= paragraph_view(*p));
    }
    out
}

/// A copy of each node.
pub fn copy_nodes(nodes: &Vec<BlockNode>) -> (out: Vec<BlockNode>)
    ensures
        nodes_view(out) == nodes_view(*nodes),
    decreases *nodes, 0int,
{
    let mut out: Vec<BlockNode> = Vec::new();
    let mut i: usize = 0;
    while i < nodes.len()
        invariant
            i <= nodes@.len(),
            out@.len() == i,
            forall|j: int| 0 <= j < i ==> #[trigger] node_view(out@[j]) == node_view(nodes@[j]),
        decreases nodes@.len() - i,
    {
        proof {
            assert(decreases_to!(*nodes => nodes@));
            assert(decreases_to!(nodes@ => nodes@[i as int]));
        }
        out.push(copy_node(&nodes[i]));
        i += 1;
    }
    proof {
        assert forall|j: int| 0 <= j < out@.len() implies nodes_view(out)[j] == nodes_view(*nodes)[j] by {
            lemma_nodes_view_index(out, j);
            lemma_nodes_view_index(*nodes, j);
        }
        assert(nodes_view(out).len() == nodes_view(*nodes).len());
        assert(nodes_view(out) =~= nodes_view(*nodes));
    }
    out
}

/// A copy of a node.
pub fn copy_node(node: &BlockNode) -> (out: BlockNode)
    ensures
        node_view(out) == node_view(*node),
    decreases *node, 1int,
{
    match node {
        BlockNode::Root { children, span } => {
            proof {
                assert(decreases_to!(*node => *children));
            }
            BlockNode::Root { children: copy_nodes(children), span: *span }
        },
        BlockNode::Paragraph(p) => BlockNode::Paragraph(copy_paragraph(p)),
        BlockNode::Heading { level, children, span } => BlockNode::Heading {
            level: *level,
            children: copy_paragraph(children),
            span: *span,
        },
        BlockNode::Blockquote { children, kind, span } => {
            proof {
                assert(decreases_to!(*node => *children));
            }
            BlockNode::Blockquote { children: copy_nodes(children), kind: *kind, span: *span }
        },
        BlockNode::List { children, ordered, start, span } => {
            proof {
                assert(decreases_to!(*node => *children));
            }
            BlockNode::List { children: copy_nodes(children), ordered: *ordered, start: *start, span: *span }
        },
        BlockNode::ListItem { children, spread, checked, span } => {
            proof {
                assert(decreases_to!(*node => *children));
            }
            BlockNode::ListItem { children: copy_nodes(children), spread: *spread, checked: *checked, span: *span }
        },
        BlockNode::CodeBlock(c) => BlockNode::CodeBlock(
            CodeBlock {
                lang: crate::node::clone_text(&c.lang),
                info: crate::node::clone_text(&c.info),
                source_path: crate::node::clone_text(&c.source_path),
                code: c.code.clone(),
                span: c.span,
            },
        ),
        BlockNode::Table(t) => BlockNode::Table(copy_table(t)),
        BlockNode::Break { html, span } => BlockNode::Break { html: *html, span: *span },
        BlockNode::HorizontalRule { span } => BlockNode::HorizontalRule { span: *span },
        BlockNode::Definition { identifier, url, title, span } => BlockNode::Definition {
            identifier: identifier.clone(),
            url: url.clone(),
            title: crate::node::clone_text(title),
            span: *span,
        },
        BlockNode::Unknown => BlockNode::Unknown,
    }
}

} // verus!
