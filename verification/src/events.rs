use pulldown_cmark::{
    Alignment, BlockQuoteKind, CodeBlockKind, Event, MetadataBlockKind, Options, Parser, Tag, TagEnd,
};
use std::ops::Range;
use vstd::prelude::*;
use vstd::utf8::encode_utf8;

use crate::renderer::CalloutKind;

verus! {

/// Alignment of one column of a Markdown table, as the table's delimiter row
/// gives it.
#[derive(Clone, Copy, Debug, PartialEq, Eq)]
pub enum ColumnAlignment {
    Unspecified,
    Left,
    Center,
    Right,
}

/// The syntax of a metadata block.
#[derive(Clone, Copy, Debug, PartialEq, Eq)]
pub enum MetadataKind {
    /// Delimited by `---`.
    YamlStyle,
    /// Delimited by `+++`.
    PlusesStyle,
}

/// Which syntax extensions beyond GFM tables, footnotes, strikethrough,
/// task lists and callouts a parse reads.
#[derive(Clone, Copy, Debug, PartialEq, Eq)]
pub struct ParserExtensions {
    /// Smart punctuation, heading attributes, old-style footnotes,
    /// superscript and subscript.
    pub document_syntax: bool,
    pub yaml_metadata: bool,
    pub pluses_metadata: bool,
}

/// The opening of a Markdown element.
#[derive(Clone, Debug)]
pub enum MarkdownTag {
    Paragraph,
    /// A heading of level 1 to 6.
    Heading(u8),
    BlockQuote(Option<CalloutKind>),
    /// A code block: `None` when indented, its info string when fenced.
    CodeBlock(Option<String>),
    HtmlBlock,
    /// A list, with the number of its first item when it is ordered.
    List(Option<u64>),
    Item,
    FootnoteDefinition(String),
    Table(Vec<ColumnAlignment>),
    TableHead,
    TableRow,
    TableCell,
    Emphasis,
    Strong,
    Strikethrough,
    Link { destination: String, title: String },
    Image { destination: String, title: String },
    MetadataBlock(MetadataKind),
    DefinitionList,
    DefinitionListTitle,
    DefinitionListDefinition,
    Superscript,
    Subscript,
}

/// The closing of a Markdown element.
#[derive(Clone, Copy, Debug, PartialEq, Eq)]
pub enum MarkdownTagEnd {
    Paragraph,
    Heading,
    BlockQuote,
    CodeBlock,
    HtmlBlock,
    List,
    Item,
    FootnoteDefinition,
    Table,
    TableHead,
    TableRow,
    TableCell,
    Emphasis,
    Strong,
    Strikethrough,
    Link,
    Image,
    MetadataBlock(MetadataKind),
    DefinitionList,
    DefinitionListTitle,
    DefinitionListDefinition,
    Superscript,
    Subscript,
}

/// One event of a Markdown parse.
#[derive(Clone, Debug)]
pub enum MarkdownEvent {
    Start(MarkdownTag),
    End(MarkdownTagEnd),
    Text(String),
    Code(String),
    InlineMath(String),
    DisplayMath(String),
    Html(String),
    InlineHtml(String),
    FootnoteReference(String),
    SoftBreak,
    HardBreak,
    Rule,
    TaskListMarker(bool),
}

#[verifier::external_type_specification]
#[verifier::external_body]
pub struct ExEvent<'a>(Event<'a>);

#[verifier::external_type_specification]
#[verifier::external_body]
pub struct ExTag<'a>(Tag<'a>);

#[verifier::external_type_specification]
#[verifier::external_body]
pub struct ExTagEnd(TagEnd);

#[verifier::external_type_specification]
#[verifier::external_body]
pub struct ExCodeBlockKind<'a>(CodeBlockKind<'a>);

/// The events, with their source byte ranges, of a GFM parse of a Markdown
/// text with the given extensions.
pub uninterp spec fn markdown_events_of(source: Seq<char>, extensions: ParserExtensions) -> Seq<(MarkdownEvent, Range<usize>)>;

/// Trusted: runs `pulldown_cmark::Parser::new_ext` over `source` with GFM
/// tables, footnotes, strikethrough, task lists and callouts, plus the
/// extensions asked for, and returns its `into_offset_iter` events, each
/// converted to a [`MarkdownEvent`] with its range. The contract names the
/// result, and claims what the parser's source shows of it: every range is
/// a range of the source's bytes; and what std guarantees of every string:
/// a text is at most `isize::MAX` bytes long.
#[verifier::external_body]
pub(crate) fn markdown_events(source: &str, extensions: ParserExtensions) -> (events: Vec<(MarkdownEvent, Range<usize>)>)
    ensures
        events@ == markdown_events_of(source@, extensions),
        forall|i: int|
            0 <= i < events@.len() ==> (#[trigger] events@[i]).1.start <= events@[i].1.end <= encode_utf8(
                source@,
            ).len(),
        forall|i: int|
            0 <= i < events@.len() ==> ((#[trigger] events@[i]).0 matches MarkdownEvent::Text(t) ==> encode_utf8(
                t@,
            ).len() <= isize::MAX),
{
    let mut options = Options::empty();
    let document = Options::ENABLE_SMART_PUNCTUATION | Options::ENABLE_HEADING_ATTRIBUTES;
    let document = document | Options::ENABLE_OLD_FOOTNOTES | Options::ENABLE_SUPERSCRIPT;
    options.set(document | Options::ENABLE_SUBSCRIPT, extensions.document_syntax);
    options.set(Options::ENABLE_YAML_STYLE_METADATA_BLOCKS, extensions.yaml_metadata);
    options.set(Options::ENABLE_PLUSES_DELIMITED_METADATA_BLOCKS, extensions.pluses_metadata);
    options |= Options::ENABLE_TABLES | Options::ENABLE_FOOTNOTES | Options::ENABLE_STRIKETHROUGH;
    let parser = Parser::new_ext(source, options | Options::ENABLE_TASKLISTS | Options::ENABLE_GFM);
    parser.into_offset_iter().map(|(event, range)| (event_from(event), range)).collect()
}

/// Converts one `pulldown_cmark::Event`, variant for variant. Trusted, and
/// claims nothing.
#[verifier::external_body]
fn event_from(event: Event) -> MarkdownEvent {
    match event {
        Event::Start(tag) => MarkdownEvent::Start(tag_from(tag)),
        Event::End(tag) => MarkdownEvent::End(tag_end_from(tag)),
        Event::Text(text) => MarkdownEvent::Text(text.into_string()),
        Event::Code(text) => MarkdownEvent::Code(text.into_string()),
        Event::SoftBreak => MarkdownEvent::SoftBreak,
        Event::HardBreak => MarkdownEvent::HardBreak,
        Event::Rule => MarkdownEvent::Rule,
        Event::TaskListMarker(checked) => MarkdownEvent::TaskListMarker(checked),
        other => raw_event_from(other),
    }
}

/// Converts the `pulldown_cmark::Event`s that carry math, HTML or a
/// footnote label, variant for variant. Trusted, and claims nothing.
#[verifier::external_body]
fn raw_event_from(event: Event) -> MarkdownEvent {
    match event {
        Event::InlineMath(text) => MarkdownEvent::InlineMath(text.into_string()),
        Event::DisplayMath(text) => MarkdownEvent::DisplayMath(text.into_string()),
        Event::Html(text) => MarkdownEvent::Html(text.into_string()),
        Event::InlineHtml(text) => MarkdownEvent::InlineHtml(text.into_string()),
        Event::FootnoteReference(label) => MarkdownEvent::FootnoteReference(label.into_string()),
        other => event_from(other),
    }
}

/// Converts one `pulldown_cmark::Tag` of a block element, variant for
/// variant, handing the others to [`inline_tag_from`]. Trusted, and claims
/// nothing.
#[verifier::external_body]
fn tag_from(tag: Tag) -> MarkdownTag {
    match tag {
        Tag::Paragraph => MarkdownTag::Paragraph,
        Tag::Heading { level, .. } => MarkdownTag::Heading(level as u8),
        Tag::BlockQuote(kind) => MarkdownTag::BlockQuote(kind.map(callout_from)),
        Tag::CodeBlock(kind) => MarkdownTag::CodeBlock(code_info_from(kind)),
        Tag::HtmlBlock => MarkdownTag::HtmlBlock,
        Tag::List(start) => MarkdownTag::List(start),
        Tag::Item => MarkdownTag::Item,
        Tag::FootnoteDefinition(label) => MarkdownTag::FootnoteDefinition(label.into_string()),
        Tag::DefinitionList => MarkdownTag::DefinitionList,
        Tag::DefinitionListTitle => MarkdownTag::DefinitionListTitle,
        Tag::DefinitionListDefinition => MarkdownTag::DefinitionListDefinition,
        Tag::MetadataBlock(kind) => MarkdownTag::MetadataBlock(metadata_kind_from(kind)),
        other => inline_tag_from(other),
    }
}

/// Converts one `pulldown_cmark::Tag` of a table or inline element, variant
/// for variant, handing the others back to [`tag_from`]. Trusted, and claims
/// nothing.
#[verifier::external_body]
fn inline_tag_from(tag: Tag) -> MarkdownTag {
    match tag {
        Tag::Table(columns) => MarkdownTag::Table(columns.into_iter().map(alignment_from).collect()),
        Tag::TableHead => MarkdownTag::TableHead,
        Tag::TableRow => MarkdownTag::TableRow,
        Tag::TableCell => MarkdownTag::TableCell,
        Tag::Emphasis => MarkdownTag::Emphasis,
        Tag::Strong => MarkdownTag::Strong,
        Tag::Strikethrough => MarkdownTag::Strikethrough,
        Tag::Superscript => MarkdownTag::Superscript,
        Tag::Subscript => MarkdownTag::Subscript,
        Tag::Link { dest_url, title, .. } => MarkdownTag::Link { destination: dest_url.into_string(), title: title.into_string() },
        Tag::Image { dest_url, title, .. } => MarkdownTag::Image { destination: dest_url.into_string(), title: title.into_string() },
        other => tag_from(other),
    }
}

/// Converts a `pulldown_cmark::CodeBlockKind`: `None` when indented, the
/// info string when fenced. Trusted, and claims nothing.
#[verifier::external_body]
fn code_info_from(kind: CodeBlockKind) -> Option<String> {
    match kind {
        CodeBlockKind::Indented => None,
        CodeBlockKind::Fenced(info) => Some(info.into_string()),
    }
}

/// Converts one `pulldown_cmark::TagEnd` of a block element, variant for
/// variant, handing the others to [`inline_tag_end_from`]. Trusted, and
/// claims nothing.
#[verifier::external_body]
fn tag_end_from(tag: TagEnd) -> MarkdownTagEnd {
    match tag {
        TagEnd::Paragraph => MarkdownTagEnd::Paragraph,
        TagEnd::Heading(_) => MarkdownTagEnd::Heading,
        TagEnd::BlockQuote(_) => MarkdownTagEnd::BlockQuote,
        TagEnd::CodeBlock => MarkdownTagEnd::CodeBlock,
        TagEnd::HtmlBlock => MarkdownTagEnd::HtmlBlock,
        TagEnd::List(_) => MarkdownTagEnd::List,
        TagEnd::Item => MarkdownTagEnd::Item,
        TagEnd::FootnoteDefinition => MarkdownTagEnd::FootnoteDefinition,
        TagEnd::DefinitionList => MarkdownTagEnd::DefinitionList,
        TagEnd::DefinitionListTitle => MarkdownTagEnd::DefinitionListTitle,
        TagEnd::DefinitionListDefinition => MarkdownTagEnd::DefinitionListDefinition,
        TagEnd::MetadataBlock(kind) => MarkdownTagEnd::MetadataBlock(metadata_kind_from(kind)),
        other => inline_tag_end_from(other),
    }
}

/// Converts one `pulldown_cmark::TagEnd` of a table or inline element,
/// variant for variant, handing the others back to [`tag_end_from`].
/// Trusted, and claims nothing.
#[verifier::external_body]
fn inline_tag_end_from(tag: TagEnd) -> MarkdownTagEnd {
    match tag {
        TagEnd::Table => MarkdownTagEnd::Table,
        TagEnd::TableHead => MarkdownTagEnd::TableHead,
        TagEnd::TableRow => MarkdownTagEnd::TableRow,
        TagEnd::TableCell => MarkdownTagEnd::TableCell,
        TagEnd::Emphasis => MarkdownTagEnd::Emphasis,
        TagEnd::Strong => MarkdownTagEnd::Strong,
        TagEnd::Strikethrough => MarkdownTagEnd::Strikethrough,
        TagEnd::Superscript => MarkdownTagEnd::Superscript,
        TagEnd::Subscript => MarkdownTagEnd::Subscript,
        TagEnd::Link => MarkdownTagEnd::Link,
        TagEnd::Image => MarkdownTagEnd::Image,
        other => tag_end_from(other),
    }
}

#[verifier::external_type_specification]
#[verifier::external_body]
pub struct ExBlockQuoteKind(BlockQuoteKind);

#[verifier::external_type_specification]
#[verifier::external_body]
pub struct ExMetadataBlockKind(MetadataBlockKind);

/// Converts a `pulldown_cmark::MetadataBlockKind`, variant for variant.
/// Trusted, and claims nothing.
#[verifier::external_body]
fn metadata_kind_from(kind: MetadataBlockKind) -> MetadataKind {
    match kind {
        MetadataBlockKind::YamlStyle => MetadataKind::YamlStyle,
        MetadataBlockKind::PlusesStyle => MetadataKind::PlusesStyle,
    }
}

#[verifier::external_type_specification]
#[verifier::external_body]
pub struct ExAlignment(Alignment);

/// Converts a `pulldown_cmark::BlockQuoteKind`, variant for variant.
/// Trusted, and claims nothing.
#[verifier::external_body]
fn callout_from(kind: BlockQuoteKind) -> CalloutKind {
    match kind {
        BlockQuoteKind::Note => CalloutKind::Note,
        BlockQuoteKind::Tip => CalloutKind::Tip,
        BlockQuoteKind::Important => CalloutKind::Important,
        BlockQuoteKind::Warning => CalloutKind::Warning,
        BlockQuoteKind::Caution => CalloutKind::Caution,
    }
}

/// Converts a `pulldown_cmark::Alignment`, variant for variant. Trusted, and
/// claims nothing.
#[verifier::external_body]
fn alignment_from(alignment: Alignment) -> ColumnAlignment {
    match alignment {
        Alignment::None => ColumnAlignment::Unspecified,
        Alignment::Left => ColumnAlignment::Left,
        Alignment::Center => ColumnAlignment::Center,
        Alignment::Right => ColumnAlignment::Right,
    }
}

} // verus!
