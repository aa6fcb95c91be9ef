use std::ops::Range;
use vstd::prelude::*;

use crate::block::BlockNode;

use crate::links::{link_view, segment_view};
use crate::renderer::{
    CellAlign, InlineFlags, ParsedInlineImage, ParsedLink, ParsedTextBlock, TextBlockKind,
    TextSegment,
};

verus! {

/// A code block of a parsed document.
#[derive(Clone, Debug, PartialEq)]
pub struct ParsedCodeBlock {
    pub source: Range<usize>,
    /// The code as the document holds it.
    pub code: String,
    /// The code without the newline that precedes a closing fence.
    pub display_code: String,
    /// The first word of the info string.
    pub language: Option<String>,
    /// The whole info string of a fenced block, when not empty.
    pub info: Option<String>,
    /// The first word of the info string that holds a path separator.
    pub source_path: Option<String>,
    /// Whether the block is to be drawn as a Mermaid diagram.
    pub mermaid: bool,
}

/// One cell of a table.
#[derive(Clone, Debug, PartialEq)]
pub struct ParsedHtmlTableCell {
    pub content: ParsedTextBlock,
    pub col_span: usize,
    pub row_span: usize,
    pub is_header: bool,
    pub alignment: CellAlign,
}

/// One row of a table.
#[derive(Clone, Debug, PartialEq)]
pub struct ParsedHtmlTableRow {
    pub cells: Vec<ParsedHtmlTableCell>,
}

/// The syntax a table was written in.
#[derive(Clone, Copy, Debug, PartialEq, Eq)]
pub enum ParsedTableKind {
    Markdown,
    Html,
}

/// A table of a parsed document.
#[derive(Clone, Debug, PartialEq)]
pub struct ParsedHtmlTable {
    pub source: Range<usize>,
    pub rows: Vec<ParsedHtmlTableRow>,
    pub kind: ParsedTableKind,
}

/// An HTML block of a parsed document, drawn as the blocks its HTML
/// converts to.
#[derive(Debug, PartialEq)]
pub struct ParsedHtmlBlock {
    pub source: Range<usize>,
    /// The block's HTML as the source holds it.
    pub raw_source: String,
    pub blocks: Vec<ParsedBlock>,
}

/// An inline image that an HTML fragment was parsed into.
#[derive(Debug)]
pub struct HtmlImage {
    pub url: String,
    /// The image's title, empty when it has none.
    pub title: String,
    /// The image's alternative text, empty when it has none.
    pub alt: String,
}

/// HTML that was parsed outside the library, for the parse to use; each
/// piece is keyed by the HTML text it was parsed from.
#[derive(Debug)]
pub struct ParsedHtml {
    /// The node tree of each HTML block whose HTML parsed.
    pub blocks: Vec<(String, Vec<BlockNode>)>,
    /// The image of each inline HTML fragment that is an image.
    pub images: Vec<(String, HtmlImage)>,
    /// The destination of each opening `<a>` tag that has one.
    pub links: Vec<(String, String)>,
}

/// One top-level block of a parsed document.
#[derive(Debug, PartialEq)]
pub enum ParsedBlock {
    Text(ParsedTextBlock),
    Code(ParsedCodeBlock),
    Html(ParsedHtmlBlock),
    HtmlTable(ParsedHtmlTable),
    Rule(Range<usize>),
}

/// The render model of one revision of a Markdown document.
#[derive(Debug)]
pub struct ParsedMarkdown {
    pub source: String,
    pub blocks: Vec<ParsedBlock>,
    pub root_block_starts: Vec<usize>,
    /// Heading anchors, each slug with the source offset of its heading; a
    /// later entry for a slug replaces an earlier one.
    pub headings: Vec<(String, usize)>,
    /// Footnote definitions, each label with the source offset of its
    /// definition; a later entry for a label replaces an earlier one.
    pub footnotes: Vec<(String, usize)>,
}

impl ParsedMarkdown {
    /// The source offset of the heading whose anchor is `slug`, if any.
    pub fn heading_start(&self, slug: &str) -> (found: Option<usize>)
        ensures
            found == if assoc_map(self.headings@).dom().contains(slug@) {
                Some(assoc_map(self.headings@)[slug@])
            } else {
                None
            },
    {
        assoc_lookup(&self.headings, &String::from_str(slug))
    }

    /// The source offset of the definition of footnote `label`, if any.
    pub fn footnote_start(&self, label: &str) -> (found: Option<usize>)
        ensures
            found == if assoc_map(self.footnotes@).dom().contains(label@) {
                Some(assoc_map(self.footnotes@)[label@])
            } else {
                None
            },
    {
        assoc_lookup(&self.footnotes, &String::from_str(label))
    }
}

/// An inline image seen as plain values.
#[verifier::ext_equal]
pub struct ImageView {
    pub segment_index: usize,
    pub source: Range<usize>,
    pub destination: Seq<char>,
    pub title: Seq<char>,
    pub alt: Seq<char>,
}

/// A text block seen as plain values.
#[verifier::ext_equal]
pub struct TextBlockView {
    pub kind: TextBlockKind,
    pub source: Range<usize>,
    pub segments: Seq<(Seq<char>, Range<usize>, InlineFlags)>,
    pub links: Seq<(Range<usize>, Seq<char>)>,
    pub images: Seq<ImageView>,
}

/// A code block seen as plain values.
#[verifier::ext_equal]
pub struct CodeBlockView {
    pub source: Range<usize>,
    pub code: Seq<char>,
    pub display_code: Seq<char>,
    pub language: Option<Seq<char>>,
    pub info: Option<Seq<char>>,
    pub source_path: Option<Seq<char>>,
    pub mermaid: bool,
}

/// A table cell seen as plain values.
#[verifier::ext_equal]
pub struct CellView {
    pub content: TextBlockView,
    pub col_span: usize,
    pub row_span: usize,
    pub is_header: bool,
    pub alignment: CellAlign,
}

/// A table seen as plain values.
#[verifier::ext_equal]
pub struct TableView {
    pub source: Range<usize>,
    pub rows: Seq<Seq<CellView>>,
    pub kind: ParsedTableKind,
}

/// A block seen as plain values.
pub enum BlockView {
    Text(TextBlockView),
    Code(CodeBlockView),
    Html(HtmlBlockView),
    HtmlTable(TableView),
    Rule(Range<usize>),
}

/// An HTML block seen as plain values.
pub struct HtmlBlockView {
    pub source: Range<usize>,
    pub raw_source: Seq<char>,
    pub blocks: Seq<BlockView>,
}

pub open spec fn opt_view(s: Option<String>) -> Option<Seq<char>> {
    match s {
        Some(s) => Some(s@),
        None => None,
    }
}

pub open spec fn image_view(image: ParsedInlineImage) -> ImageView {
    ImageView {
        segment_index: image.segment_index,
        source: image.source,
        destination: image.destination@,
        title: image.title@,
        alt: image.alt@,
    }
}

pub open spec fn text_block_view(block: ParsedTextBlock) -> TextBlockView {
    TextBlockView {
        kind: block.kind,
        source: block.source,
        segments: block.segments@.map_values(|s: TextSegment| segment_view(s)),
        links: block.links@.map_values(|l: ParsedLink| link_view(l)),
        images: block.images@.map_values(|i: ParsedInlineImage| image_view(i)),
    }
}

pub open spec fn code_block_view(block: ParsedCodeBlock) -> CodeBlockView {
    CodeBlockView {
        source: block.source,
        code: block.code@,
        display_code: block.display_code@,
        language: opt_view(block.language),
        info: opt_view(block.info),
        source_path: opt_view(block.source_path),
        mermaid: block.mermaid,
    }
}

pub open spec fn cell_view(cell: ParsedHtmlTableCell) -> CellView {
    CellView {
        content: text_block_view(cell.content),
        col_span: cell.col_span,
        row_span: cell.row_span,
        is_header: cell.is_header,
        alignment: cell.alignment,
    }
}

pub open spec fn row_view(row: ParsedHtmlTableRow) -> Seq<CellView> {
    row.cells@.map_values(|c: ParsedHtmlTableCell| cell_view(c))
}

pub open spec fn table_view(table: ParsedHtmlTable) -> TableView {
    TableView {
        source: table.source,
        rows: table.rows@.map_values(|r: ParsedHtmlTableRow| row_view(r)),
        kind: table.kind,
    }
}

pub open spec fn block_view(block: ParsedBlock) -> BlockView
    decreases block, 0nat,
{
    match block {
        ParsedBlock::Text(b) => BlockView::Text(text_block_view(b)),
        ParsedBlock::Code(b) => BlockView::Code(code_block_view(b)),
        ParsedBlock::Html(h) => {
            proof {
                assert(decreases_to!(block => h));
                assert(decreases_to!(h => h.blocks));
                assert(decreases_to!(h.blocks => h.blocks@));
            }
            BlockView::Html(
                HtmlBlockView {
                    source: h.source,
                    raw_source: h.raw_source@,
                    blocks: nested_blocks_view(h.blocks@, h.blocks@.len()),
                },
            )
        },
        ParsedBlock::HtmlTable(t) => BlockView::HtmlTable(table_view(t)),
        ParsedBlock::Rule(r) => BlockView::Rule(r),
    }
}

/// The views of the first `n` of `blocks`.
pub open spec fn nested_blocks_view(blocks: Seq<ParsedBlock>, n: nat) -> Seq<BlockView>
    decreases blocks, n,
{
    if n == 0 || n > blocks.len() {
        Seq::empty()
    } else {
        nested_blocks_view(blocks, (n - 1) as nat).push(block_view(blocks[n - 1]))
    }
}

/// The views of the first `n` blocks are the views of the blocks, one by
/// one.
pub proof fn lemma_nested_blocks_view(blocks: Seq<ParsedBlock>, n: nat)
    requires
        n <= blocks.len(),
    ensures
        nested_blocks_view(blocks, n) == blocks.take(n as int).map_values(|b: ParsedBlock| block_view(b)),
    decreases n,
{
    if n > 0 {
        lemma_nested_blocks_view(blocks, (n - 1) as nat);
        assert(blocks.take(n as int).map_values(|b: ParsedBlock| block_view(b)) =~= blocks.take(n - 1).map_values(
            |b: ParsedBlock| block_view(b),
        ).push(block_view(blocks[n - 1])));
    } else {
        assert(blocks.take(0).map_values(|b: ParsedBlock| block_view(b)) =~= Seq::<BlockView>::empty());
    }
}

/// The map that an association list stands for: each key with the value
/// of its last entry.
pub open spec fn assoc_map(entries: Seq<(String, usize)>) -> Map<Seq<char>, usize>
    decreases entries.len(),
{
    if entries.len() == 0 {
        Map::empty()
    } else {
        assoc_map(entries.drop_last()).insert(entries.last().0@, entries.last().1)
    }
}

proof fn lemma_assoc_map_skip(entries: Seq<(String, usize)>, key: Seq<char>)
    requires
        entries.len() > 0,
        entries.last().0@ != key,
    ensures
        assoc_map(entries).dom().contains(key) == assoc_map(entries.drop_last()).dom().contains(key),
        assoc_map(entries)[key] == assoc_map(entries.drop_last())[key],
{
}

/// The value of the last entry for `key`, if any.
pub fn assoc_lookup(entries: &Vec<(String, usize)>, key: &String) -> (found: Option<usize>)
    ensures
        found == if assoc_map(entries@).dom().contains(key@) {
            Some(assoc_map(entries@)[key@])
        } else {
            None
        },
{
    let mut k = entries.len();
    proof {
        assert(entries@.take(k as int) =~= entries@);
    }
    while k > 0
        invariant
            k <= entries@.len(),
            assoc_map(entries@).dom().contains(key@) == assoc_map(entries@.take(k as int)).dom().contains(key@),
            assoc_map(entries@)[key@] == assoc_map(entries@.take(k as int))[key@],
        decreases k,
    {
        proof {
            assert(entries@.take(k as int).drop_last() =~= entries@.take(k - 1));
        }
        if entries[k - 1].0 == *key {
            return Some(entries[k - 1].1);
        }
        proof {
            lemma_assoc_map_skip(entries@.take(k as int), key@);
        }
        k -= 1;
    }
    proof {
        assert(entries@.take(0) =~= Seq::<(String, usize)>::empty());
    }
    None
}

/// The decimal digit `d`.
pub open spec fn digit_char(d: nat) -> char {
    ((d + 48) as u8) as char
}

/// The decimal numeral of `n`, without leading zeros.
pub open spec fn decimal(n: nat) -> Seq<char>
    decreases n,
{
    if n < 10 {
        seq![digit_char(n)]
    } else {
        decimal(n / 10).push(digit_char(n % 10))
    }
}

/// Appends the decimal numeral of `n` to `out`.
pub fn push_decimal(out: &mut String, n: u64)
    ensures
        final(out)@ == old(out)@ + decimal(n as nat),
    decreases n,
{
    if n >= 10 {
        push_decimal(out, n / 10);
    }
    let d: u8 = (n % 10) as u8;
    out.push((d + 48) as char);
    proof {
        assert(old(out)@ + decimal(n as nat) =~= if n >= 10 {
            old(out)@ + decimal((n / 10) as nat) + seq![digit_char((n % 10) as nat)]
        } else {
            old(out)@ + seq![digit_char(n as nat)]
        });
    }
}


/// Optional parser and renderer behavior. Expensive extensions stay opt-in.
#[derive(Clone, Copy, Debug, PartialEq, Eq)]
pub struct MarkdownOptions {
    pub parse_links_only: bool,
    pub parse_html: bool,
    pub render_mermaid_diagrams: bool,
    pub parse_heading_slugs: bool,
    pub render_metadata_blocks: bool,
}

impl Default for MarkdownOptions {
    fn default() -> (options: Self)
        ensures
            !options.parse_links_only && !options.parse_html && !options.render_mermaid_diagrams
                && !options.parse_heading_slugs && !options.render_metadata_blocks,
    {
        MarkdownOptions {
            parse_links_only: false,
            parse_html: false,
            render_mermaid_diagrams: false,
            parse_heading_slugs: false,
            render_metadata_blocks: false,
        }
    }
}

/// Typography family of the built-in Markdown style.
#[derive(Clone, Copy, Debug, PartialEq, Eq)]
pub enum MarkdownFont {
    Agent,
    Editor,
    Preview,
}

impl Default for MarkdownFont {
    fn default() -> (font: Self)
        ensures
            font == MarkdownFont::Agent,
    {
        MarkdownFont::Agent
    }
}

/// When a code block shows its copy button.
#[derive(Clone, Copy, Debug, PartialEq, Eq)]
pub enum CopyButtonVisibility {
    Hidden,
    AlwaysVisible,
    VisibleOnHover,
}

/// When a code block shows its wrap button.
#[derive(Clone, Copy, Debug, PartialEq, Eq)]
pub enum WrapButtonVisibility {
    Hidden,
    AlwaysVisible,
    VisibleOnHover,
}

} // verus!
