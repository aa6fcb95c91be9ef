use std::ops::Range;
use vstd::prelude::*;

use crate::document::{lemma_nested_blocks_view, BlockView, HtmlImage, ParsedHtml, ParsedHtmlBlock};
use crate::html_convert::{blocks_view, convert_html_nodes};
use crate::parse::{html_block, html_view, lemma_parsed_for, parsed_for};
use crate::renderer::HtmlSourceAllocator;

use crate::document::{
    assoc_map, block_view, cell_view, image_view, row_view, text_block_view, ParsedBlock,
    ParsedHtmlTableCell, ParsedHtmlTableRow,
};
use crate::events::{ColumnAlignment, MarkdownEvent, MarkdownTag, MarkdownTagEnd};
use crate::parse::{on_end, on_start, parse_step};
use crate::links::{link_view, segment_view};
use crate::parse::{
    builder_finish, builder_push, builder_push_image, close_link, close_style, current_or,
    flush_current, initial_parse, item_prefix, new_builder, on_code, on_soft_break, on_task_marker,
    open_link, open_style, paragraph_kind, push_text, set_style, start_footnote, start_item,
    start_paragraph, with_current, BuilderView, CodeDraft, ImageDraft, ParseView, Style, TableDraft,
};
use crate::document::{
    assoc_lookup, decimal, push_decimal, MarkdownOptions, ParsedCodeBlock, ParsedHtmlTable,
    ParsedTableKind,
};
use crate::renderer::{code_block_display_text, heading_slug, CellAlign};
use crate::unicode::{str_byte_len, substring};
use vstd::utf8::is_char_boundary;
use vstd::string::StringSliceAdditionalSpecFns;
use crate::parse::{
    end_code_block, end_table, end_table_cell, on_text, record_heading, start_code_block,
    start_html_block, start_table_cell, table_alignment, table_head_end, table_head_start,
    table_row_edge, flush_row, heading_base, display_code, mermaid_word, on_inline_html,
    apply_tag_effect, first_path_word, first_word, has_separator, is_line_break_tag,
    lemma_first_token_shape, lemma_trim_start_shape, skip_slashes, tag_effect, tag_name_prefix,
    ascii_lowercase_of, TagEffect,
};
use crate::node::{ascii_lower, ascii_lowercase, first_token};
use crate::unicode::{
    char_is_whitespace, chars_of, trim_end, trim_start, trimmed_end, trimmed_start,
};
use crate::renderer::{
    CalloutKind, InlineFlags, ParsedInlineImage, ParsedLink, ParsedTextBlock, TextBlockKind,
    TextSegment,
};

verus! {

broadcast use vstd::string::group_string_axioms;

/// A link opened inside a text block and not yet closed.
pub(crate) struct ActiveLink {
    pub(crate) source_start: usize,
    pub(crate) destination: String,
}

pub(crate) open spec fn active_view(a: ActiveLink) -> (usize, Seq<char>) {
    (a.source_start, a.destination@)
}

/// A text block being built from parse events.
pub(crate) struct TextBlockBuilder {
    pub(crate) kind: TextBlockKind,
    pub(crate) source_start: usize,
    pub(crate) source_end: usize,
    pub(crate) segments: Vec<TextSegment>,
    pub(crate) links: Vec<ParsedLink>,
    pub(crate) images: Vec<ParsedInlineImage>,
    pub(crate) flags: InlineFlags,
    pub(crate) active_links: Vec<ActiveLink>,
}

pub(crate) open spec fn builder_view(b: TextBlockBuilder) -> BuilderView {
    BuilderView {
        kind: b.kind,
        source_start: b.source_start,
        source_end: b.source_end,
        segments: b.segments@.map_values(|s: TextSegment| segment_view(s)),
        links: b.links@.map_values(|l: ParsedLink| link_view(l)),
        images: b.images@.map_values(|i: ParsedInlineImage| image_view(i)),
        flags: b.flags,
        active_links: b.active_links@.map_values(|a: ActiveLink| active_view(a)),
    }
}

impl TextBlockBuilder {
    pub(crate) fn new(kind: TextBlockKind, source_start: usize) -> (b: Self)
        ensures
            builder_view(b) == new_builder(kind, source_start),
    {
        let b = TextBlockBuilder {
            kind,
            source_start,
            source_end: source_start,
            segments: Vec::new(),
            links: Vec::new(),
            images: Vec::new(),
            flags: InlineFlags::default(),
            active_links: Vec::new(),
        };
        proof {
            assert(builder_view(b) =~= new_builder(kind, source_start));
        }
        b
    }

    /// Appends `text` over `source` with the current flags; empty text adds nothing.
    pub(crate) fn push(&mut self, text: String, source: Range<usize>)
        ensures
            builder_view(*final(self)) == builder_push(builder_view(*old(self)), text@, source),
    {
        if text.as_str().is_empty() {
            return;
        }
        let ghost before = self.segments@;
        if source.end > self.source_end {
            self.source_end = source.end;
        }
        let flags = self.flags;
        self.segments.push(TextSegment { text, source, flags });
        proof {
            assert(self.segments@.map_values(|s: TextSegment| segment_view(s)) =~= before.map_values(
                |s: TextSegment| segment_view(s),
            ).push((text@, source, flags)));
            assert(builder_view(*self) =~= builder_push(builder_view(*old(self)), text@, source));
        }
    }

    /// Appends an inline image: a placeholder segment and the image itself.
    pub(crate) fn push_image(
        &mut self,
        source: Range<usize>,
        destination: String,
        title: String,
        alt: String,
    )
        ensures
            builder_view(*final(self)) == builder_push_image(
                builder_view(*old(self)),
                source,
                destination@,
                title@,
                alt@,
            ),
    {
        let segment_index = self.segments.len();
        let mut placeholder = String::new();
        placeholder.push('\u{fffc}');
        self.push(placeholder, source.clone());
        let ghost before = self.images@;
        let image = ParsedInlineImage { segment_index, source, destination, title, alt };
        self.images.push(image);
        proof {
            assert(placeholder@ =~= seq!['\u{fffc}']);
            assert(self.images@.map_values(|i: ParsedInlineImage| image_view(i)) =~= before.map_values(
                |i: ParsedInlineImage| image_view(i),
            ).push(image_view(image)));
            assert(builder_view(*self) =~= builder_push_image(
                builder_view(*old(self)),
                source,
                destination@,
                title@,
                alt@,
            ));
        }
    }

    /// The block this builder makes when its element ends at `source_end`.
    pub(crate) fn finish(self, source_end: usize) -> (block: ParsedTextBlock)
        ensures
            text_block_view(block) == builder_finish(builder_view(self), source_end),
    {
        let end = if source_end > self.source_end {
            source_end
        } else {
            self.source_end
        };
        let block = ParsedTextBlock {
            kind: self.kind,
            source: self.source_start..end,
            segments: self.segments,
            links: self.links,
            images: self.images,
        };
        proof {
            assert(text_block_view(block) =~= builder_finish(builder_view(self), source_end));
        }
        block
    }
}


/// A code block being read.
pub(crate) struct CodeInProgress {
    pub(crate) start: usize,
    pub(crate) text: String,
    pub(crate) language: Option<String>,
    pub(crate) info: Option<String>,
    pub(crate) source_path: Option<String>,
}

/// An image being read.
pub(crate) struct ImageInProgress {
    pub(crate) start: usize,
    pub(crate) destination: String,
    pub(crate) title: String,
    pub(crate) alt: String,
}

/// A table being read.
pub(crate) struct TableBuilder {
    pub(crate) source_start: usize,
    pub(crate) alignments: Vec<ColumnAlignment>,
    pub(crate) rows: Vec<ParsedHtmlTableRow>,
    pub(crate) current_row: Vec<ParsedHtmlTableCell>,
    pub(crate) in_header: bool,
}

/// The state of a parse between two events.
pub(crate) struct ParseState {
    pub(crate) blocks: Vec<ParsedBlock>,
    pub(crate) root_starts: Vec<usize>,
    pub(crate) headings: Vec<(String, usize)>,
    pub(crate) heading_counts: Vec<(String, usize)>,
    pub(crate) footnotes: Vec<(String, usize)>,
    pub(crate) current: Option<TextBlockBuilder>,
    pub(crate) code: Option<CodeInProgress>,
    pub(crate) image: Option<ImageInProgress>,
    pub(crate) lists: Vec<Option<u64>>,
    pub(crate) quote_kind: Option<Option<CalloutKind>>,
    pub(crate) heading_text: String,
    pub(crate) heading_start: Option<usize>,
    pub(crate) table: Option<TableBuilder>,
    pub(crate) in_html_block: bool,
}

pub(crate) open spec fn opt_text(s: Option<String>) -> Option<Seq<char>> {
    match s {
        Some(s) => Some(s@),
        None => None,
    }
}

pub(crate) open spec fn code_draft(c: CodeInProgress) -> CodeDraft {
    CodeDraft {
        start: c.start,
        text: c.text@,
        language: opt_text(c.language),
        info: opt_text(c.info),
        source_path: opt_text(c.source_path),
    }
}

pub(crate) open spec fn image_draft(i: ImageInProgress) -> ImageDraft {
    ImageDraft { start: i.start, destination: i.destination@, title: i.title@, alt: i.alt@ }
}

pub(crate) open spec fn table_draft(t: TableBuilder) -> TableDraft {
    TableDraft {
        source_start: t.source_start,
        alignments: t.alignments@,
        rows: t.rows@.map_values(|r: ParsedHtmlTableRow| row_view(r)),
        current_row: t.current_row@.map_values(|c: ParsedHtmlTableCell| cell_view(c)),
        in_header: t.in_header,
    }
}

pub(crate) open spec fn state_view(st: ParseState) -> ParseView {
    ParseView {
        blocks: st.blocks@.map_values(|b: ParsedBlock| block_view(b)),
        root_starts: st.root_starts@,
        headings: assoc_map(st.headings@),
        heading_counts: assoc_map(st.heading_counts@),
        footnotes: assoc_map(st.footnotes@),
        current: match st.current {
            Some(b) => Some(builder_view(b)),
            None => None,
        },
        code: match st.code {
            Some(c) => Some(code_draft(c)),
            None => None,
        },
        image: match st.image {
            Some(i) => Some(image_draft(i)),
            None => None,
        },
        lists: st.lists@,
        quote_kind: st.quote_kind,
        heading_text: st.heading_text@,
        heading_start: st.heading_start,
        table: match st.table {
            Some(t) => Some(table_draft(t)),
            None => None,
        },
        in_html_block: st.in_html_block,
    }
}

impl ParseState {
    pub(crate) fn new() -> (st: Self)
        ensures
            state_view(st) == initial_parse(),
    {
        let st = ParseState {
            blocks: Vec::new(),
            root_starts: Vec::new(),
            headings: Vec::new(),
            heading_counts: Vec::new(),
            footnotes: Vec::new(),
            current: None,
            code: None,
            image: None,
            lists: Vec::new(),
            quote_kind: None,
            heading_text: String::new(),
            heading_start: None,
            table: None,
            in_html_block: false,
        };
        proof {
            assert(st.blocks@.map_values(|b: ParsedBlock| block_view(b)) =~= Seq::empty());
            assert(state_view(st) =~= initial_parse());
        }
        st
    }

    /// Takes the open text block, or a new one of `kind` from `start`.
    pub(crate) fn take_current(&mut self, kind: TextBlockKind, start: usize) -> (b: TextBlockBuilder)
        ensures
            builder_view(b) == current_or(state_view(*old(self)), kind, start),
            state_view(*final(self)) == (ParseView { current: None, ..state_view(*old(self)) }),
    {
        let b = match self.current.take() {
            Some(b) => b,
            None => TextBlockBuilder::new(kind, start),
        };
        proof {
            assert(state_view(*self) =~= ParseView { current: None, ..state_view(*old(self)) });
        }
        b
    }

    /// Makes `b` the open text block.
    pub(crate) fn put_current(&mut self, b: TextBlockBuilder)
        ensures
            state_view(*final(self)) == with_current(state_view(*old(self)), builder_view(b)),
    {
        self.current = Some(b);
        proof {
            assert(state_view(*self) =~= with_current(state_view(*old(self)), builder_view(b)));
        }
    }

    /// Appends a top-level block that starts at `start`.
    pub(crate) fn push_block(&mut self, start: usize, block: ParsedBlock)
        ensures
            state_view(*final(self)) == (ParseView {
                root_starts: state_view(*old(self)).root_starts.push(start),
                blocks: state_view(*old(self)).blocks.push(block_view(block)),
                ..state_view(*old(self))
            }),
    {
        let ghost before = self.blocks@;
        self.root_starts.push(start);
        self.blocks.push(block);
        proof {
            assert(self.blocks@.map_values(|b: ParsedBlock| block_view(b)) =~= before.map_values(
                |b: ParsedBlock| block_view(b),
            ).push(block_view(block)));
            assert(state_view(*self) =~= ParseView {
                root_starts: state_view(*old(self)).root_starts.push(start),
                blocks: state_view(*old(self)).blocks.push(block_view(block)),
                ..state_view(*old(self))
            });
        }
    }

    /// Ends the open text block, if any, at `end`.
    pub(crate) fn flush_current(&mut self, end: usize)
        ensures
            state_view(*final(self)) == flush_current(state_view(*old(self)), end),
    {
        match self.current.take() {
            Some(b) => {
                let start = b.source_start;
                let block = b.finish(end);
                self.push_block(start, ParsedBlock::Text(block));
            },
            None => {},
        }
        proof {
            assert(state_view(*self) =~= flush_current(state_view(*old(self)), end));
        }
    }
}

/// Sets one style flag.
pub(crate) fn set_style_flag(flags: &mut InlineFlags, style: Style, on: bool)
    ensures
        *final(flags) == set_style(*old(flags), style, on),
{
    match style {
        Style::Strong => flags.strong = on,
        Style::Emphasis => flags.emphasis = on,
        Style::Strike => flags.strike = on,
        Style::Underline => flags.underline = on,
        Style::Code => flags.code = on,
    }
}

impl TextBlockBuilder {
    /// Opens a link that starts at `start`.
    pub(crate) fn open_link(&mut self, start: usize, destination: String)
        ensures
            builder_view(*final(self)) == open_link(builder_view(*old(self)), start, destination@),
    {
        let ghost before = self.active_links@;
        self.flags.link = true;
        let link = ActiveLink { source_start: start, destination };
        self.active_links.push(link);
        proof {
            assert(self.active_links@.map_values(|a: ActiveLink| active_view(a)) =~= before.map_values(
                |a: ActiveLink| active_view(a),
            ).push((start, destination@)));
            assert(builder_view(*self) =~= open_link(builder_view(*old(self)), start, destination@));
        }
    }

    /// Closes the innermost open link at `end`.
    pub(crate) fn close_link(&mut self, end: usize)
        ensures
            builder_view(*final(self)) == close_link(builder_view(*old(self)), end),
    {
        self.flags.link = false;
        let ghost active = self.active_links@;
        let ghost links = self.links@;
        match self.active_links.pop() {
            Some(link) => {
                let parsed = ParsedLink { source: link.source_start..end, destination: link.destination };
                self.links.push(parsed);
                proof {
                    assert(active.drop_last() == self.active_links@);
                    assert(active.last() == link);
                    assert(self.active_links@.map_values(|a: ActiveLink| active_view(a)) =~= active.map_values(
                        |a: ActiveLink| active_view(a),
                    ).drop_last());
                    assert(self.links@.map_values(|l: ParsedLink| link_view(l)) =~= links.map_values(
                        |l: ParsedLink| link_view(l),
                    ).push(link_view(parsed)));
                }
            },
            None => {},
        }
        proof {
            assert(builder_view(*self) =~= close_link(builder_view(*old(self)), end));
        }
    }
}

impl ParseState {
    /// Appends text to the open block, or to a new paragraph.
    pub(crate) fn push_text(&mut self, text: String, r: Range<usize>)
        ensures
            state_view(*final(self)) == push_text(state_view(*old(self)), text@, r),
    {
        let mut b = self.take_current(TextBlockKind::Paragraph, r.start);
        b.push(text, r);
        self.put_current(b);
        proof {
            assert(state_view(*self) =~= push_text(state_view(*old(self)), text@, r));
        }
    }

    pub(crate) fn open_style(&mut self, r: Range<usize>, style: Style)
        ensures
            state_view(*final(self)) == open_style(state_view(*old(self)), r, style),
    {
        let mut b = self.take_current(TextBlockKind::Paragraph, r.start);
        set_style_flag(&mut b.flags, style, true);
        self.put_current(b);
        proof {
            assert(state_view(*self) =~= open_style(state_view(*old(self)), r, style));
        }
    }

    pub(crate) fn close_style(&mut self, style: Style)
        ensures
            state_view(*final(self)) == close_style(state_view(*old(self)), style),
    {
        match self.current.take() {
            Some(mut b) => {
                set_style_flag(&mut b.flags, style, false);
                self.put_current(b);
            },
            None => {},
        }
        proof {
            assert(state_view(*self) =~= close_style(state_view(*old(self)), style));
        }
    }

    pub(crate) fn open_link(&mut self, r: Range<usize>, destination: String)
        ensures
            state_view(*final(self)) == with_current(
                state_view(*old(self)),
                open_link(
                    current_or(state_view(*old(self)), TextBlockKind::Paragraph, r.start),
                    r.start,
                    destination@,
                ),
            ),
    {
        let mut b = self.take_current(TextBlockKind::Paragraph, r.start);
        b.open_link(r.start, destination);
        self.put_current(b);
        proof {
            assert(state_view(*self) =~= with_current(
                state_view(*old(self)),
                open_link(
                    current_or(state_view(*old(self)), TextBlockKind::Paragraph, r.start),
                    r.start,
                    destination@,
                ),
            ));
        }
    }

    pub(crate) fn close_link(&mut self, r: Range<usize>)
        ensures
            state_view(*final(self)) == match state_view(*old(self)).current {
                Some(b) => with_current(state_view(*old(self)), close_link(b, r.end)),
                None => state_view(*old(self)),
            },
    {
        match self.current.take() {
            Some(mut b) => {
                b.close_link(r.end);
                self.put_current(b);
            },
            None => {},
        }
        proof {
            assert(state_view(*self) =~= match state_view(*old(self)).current {
                Some(b) => with_current(state_view(*old(self)), close_link(b, r.end)),
                None => state_view(*old(self)),
            });
        }
    }

    pub(crate) fn on_code(&mut self, text: String, r: Range<usize>)
        ensures
            state_view(*final(self)) == on_code(state_view(*old(self)), text@, r),
    {
        let mut b = self.take_current(TextBlockKind::Paragraph, r.start);
        let previous = b.flags.code;
        b.flags.code = true;
        b.push(text, r);
        b.flags.code = previous;
        self.put_current(b);
        proof {
            assert(state_view(*self) =~= on_code(state_view(*old(self)), text@, r));
        }
    }

    pub(crate) fn on_soft_break(&mut self, r: Range<usize>)
        ensures
            state_view(*final(self)) == on_soft_break(state_view(*old(self)), r),
    {
        let mut b = self.take_current(TextBlockKind::Paragraph, r.start);
        b.flags.soft_break = true;
        let mut newline = String::new();
        newline.push('\n');
        b.push(newline, r);
        b.flags.soft_break = false;
        self.put_current(b);
        proof {
            assert(newline@ =~= seq!['\n']);
            assert(state_view(*self) =~= on_soft_break(state_view(*old(self)), r));
        }
    }

    pub(crate) fn on_task_marker(&mut self, checked: bool, r: Range<usize>)
        ensures
            state_view(*final(self)) == on_task_marker(state_view(*old(self)), checked, r),
    {
        let depth = self.lists.len();
        let mut b = self.take_current(TextBlockKind::ListItem { depth }, r.start);
        let mut marker = String::new();
        marker.push(if checked { '\u{2611}' } else { '\u{2610}' });
        marker.push(' ');
        proof {
            assert(marker@ =~= if checked {
                seq!['\u{2611}', ' ']
            } else {
                seq!['\u{2610}', ' ']
            });
        }
        b.push(marker, r);
        self.put_current(b);
        proof {
            assert(state_view(*self) =~= on_task_marker(state_view(*old(self)), checked, r));
        }
    }

    pub(crate) fn start_paragraph(&mut self, r: Range<usize>)
        ensures
            state_view(*final(self)) == start_paragraph(state_view(*old(self)), r),
    {
        if self.table.is_some() && self.current.is_some() {
            return;
        }
        match &self.current {
            Some(b) => match b.kind {
                TextBlockKind::ListItem { .. } => return,
                _ => {},
            },
            None => {},
        }
        let kind = match self.quote_kind {
            Some(kind) => TextBlockKind::BlockQuote(kind),
            None => if self.lists.len() > 0 {
                TextBlockKind::ListItem { depth: self.lists.len() }
            } else {
                TextBlockKind::Paragraph
            },
        };
        proof {
            assert(kind == paragraph_kind(state_view(*self)));
        }
        let b = TextBlockBuilder::new(kind, r.start);
        self.put_current(b);
    }

    pub(crate) fn start_item(&mut self, r: Range<usize>)
        ensures
            state_view(*final(self)) == start_item(state_view(*old(self)), r),
    {
        let mut prefix = String::new();
        let n = self.lists.len();
        let ghost lists = self.lists@;
        if n > 0 && self.lists[n - 1].is_some() {
            let index = self.lists[n - 1].unwrap();
            push_decimal(&mut prefix, index);
            prefix.push('.');
            prefix.push(' ');
            let next = if index < u64::MAX { index + 1 } else { 0 };
            self.lists.set(n - 1, Some(next));
        } else {
            prefix.push('\u{2022}');
            prefix.push(' ');
        }
        proof {
            assert(self.lists@ == item_prefix(lists).0);
            assert(prefix@ =~= item_prefix(lists).1);
        }
        let mut b = TextBlockBuilder::new(TextBlockKind::ListItem { depth: self.lists.len() }, r.start);
        b.push(prefix, r.start..r.start);
        self.put_current(b);
        proof {
            assert(state_view(*self) =~= start_item(state_view(*old(self)), r));
        }
    }

    pub(crate) fn start_footnote(&mut self, label: String, r: Range<usize>)
        ensures
            state_view(*final(self)) == start_footnote(state_view(*old(self)), label@, r),
    {
        let mut prefix = String::new();
        prefix.push('[');
        prefix.append(label.as_str());
        prefix.push(']');
        prefix.push(' ');
        let ghost notes = self.footnotes@;
        self.footnotes.push((label, r.start));
        proof {
            assert(self.footnotes@.drop_last() =~= notes);
            assert(assoc_map(self.footnotes@) == assoc_map(notes).insert(label@, r.start));
        }
        let mut b = TextBlockBuilder::new(TextBlockKind::Footnote, r.start);
        b.push(prefix, r.start..r.start);
        self.put_current(b);
        proof {
            assert(prefix@ =~= seq!['['] + label@ + seq![']', ' ']);
            assert(state_view(*self) =~= start_footnote(state_view(*old(self)), label@, r));
        }
    }
}


/// The characters `chars[start..end]` as a string.
pub(crate) fn collect_chars(chars: &Vec<char>, start: usize, end: usize) -> (text: String)
    requires
        start <= end <= chars@.len(),
    ensures
        text@ == chars@.subrange(start as int, end as int),
{
    let mut text = String::new();
    let mut k = start;
    while k < end
        invariant
            start <= k <= end <= chars@.len(),
            text@ == chars@.subrange(start as int, k as int),
        decreases end - k,
    {
        text.push(chars[k]);
        proof {
            assert(chars@.subrange(start as int, k + 1) =~= chars@.subrange(start as int, k as int).push(chars@[k as int]));
        }
        k += 1;
    }
    text
}

/// End of the first whitespace-free run of `chars[start..end]`.
pub(crate) fn token_end(chars: &Vec<char>, start: usize, end: usize) -> (e: usize)
    requires
        start <= end <= chars@.len(),
    ensures
        start <= e <= end,
        first_token(chars@.subrange(start as int, end as int)) == chars@.subrange(start as int, e as int),
{
    let mut e = start;
    while e < end && !char_is_whitespace(chars[e])
        invariant
            start <= e <= end <= chars@.len(),
            first_token(chars@.subrange(start as int, end as int)) == chars@.subrange(start as int, e as int)
                + first_token(chars@.subrange(e as int, end as int)),
        decreases end - e,
    {
        assert(chars@.subrange(e as int, end as int).drop_first() =~= chars@.subrange(e + 1, end as int));
        assert(chars@.subrange(start as int, e + 1) =~= chars@.subrange(start as int, e as int)
            + seq![chars@[e as int]]);
        e += 1;
    }
    assert(first_token(chars@.subrange(e as int, end as int)) =~= Seq::<char>::empty());
    assert(chars@.subrange(start as int, e as int) + Seq::<char>::empty() =~= chars@.subrange(start as int, e as int));
    e
}

/// Whether `chars[start..end]` holds a path separator.
pub(crate) fn holds_separator(chars: &Vec<char>, start: usize, end: usize) -> (found: bool)
    requires
        start <= end <= chars@.len(),
    ensures
        found == has_separator(chars@.subrange(start as int, end as int)),
{
    let ghost w = chars@.subrange(start as int, end as int);
    let mut k = start;
    while k < end
        invariant
            start <= k <= end <= chars@.len(),
            w == chars@.subrange(start as int, end as int),
            forall|j: int| start <= j < k ==> chars@[j] != '/' && chars@[j] != '\\',
        decreases end - k,
    {
        if chars[k] == '/' || chars[k] == '\\' {
            assert(w[k - start] == chars@[k as int]);
            return true;
        }
        k += 1;
    }
    assert(!w.contains('/') && !w.contains('\\')) by {
        if w.contains('/') {
            let j = choose|j: int| 0 <= j < w.len() && w[j] == '/';
            assert(chars@[start + j] == w[j]);
        }
        if w.contains('\\') {
            let j = choose|j: int| 0 <= j < w.len() && w[j] == '\\';
            assert(chars@[start + j] == w[j]);
        }
    }
    false
}

/// The language and the source path that a code block's info string names.
pub(crate) fn info_words(info: &str) -> (words: (Option<String>, Option<String>))
    ensures
        opt_text(words.0) == first_word(info@),
        opt_text(words.1) == first_path_word(info@),
{
    let chars = chars_of(info);
    let n = chars.len();
    proof {
        assert(chars@.subrange(0, n as int) =~= chars@);
    }
    let start = trimmed_start(&chars, 0, n);
    let language = if start == n {
        None
    } else {
        let e = token_end(&chars, start, n);
        Some(collect_chars(&chars, start, e))
    };
    proof {
        if start < n {
            lemma_trim_start_shape(chars@);
        }
    }
    let mut pos: usize = 0;
    while pos < n
        invariant
            pos <= n == chars@.len(),
            chars@ == info@,
            opt_text(language) == first_word(info@),
            first_path_word(info@) == first_path_word(chars@.subrange(pos as int, n as int)),
        decreases n - pos,
    {
        let q = trimmed_start(&chars, pos, n);
        if q == n {
            proof {
                assert(trim_start(chars@.subrange(pos as int, n as int)).len() == 0);
            }
            return (language, None);
        }
        let e = token_end(&chars, q, n);
        proof {
            lemma_trim_start_shape(chars@.subrange(pos as int, n as int));
            lemma_first_token_shape(chars@.subrange(q as int, n as int));
        }
        if holds_separator(&chars, q, e) {
            let path = collect_chars(&chars, q, e);
            return (language, Some(path));
        }
        proof {
            assert(chars@.subrange(q as int, n as int).subrange(e - q, n - q) =~= chars@.subrange(e as int, n as int));
        }
        pos = e;
    }
    proof {
        assert(chars@.subrange(pos as int, n as int) =~= Seq::<char>::empty());
    }
    (language, None)
}


/// Whether `text` is the word `mermaid`.
pub(crate) fn is_mermaid(text: &Option<String>) -> (b: bool)
    ensures
        b == (opt_text(*text) == Some(mermaid_word())),
{
    match text {
        Some(t) => {
            let s = t.as_str();
            let word = "mermaid";
            proof {
                reveal_strlit("mermaid");
                assert(word@ =~= mermaid_word());
            }
            let n = word.unicode_len();
            if s.unicode_len() != n {
                return false;
            }
            let mut k: usize = 0;
            while k < n
                invariant
                    k <= n == word@.len() == s@.len(),
                    s@ == t@,
                    word@ == mermaid_word(),
                    opt_text(*text) == Some(t@),
                    forall|j: int| 0 <= j < k ==> s@[j] == word@[j],
                decreases n - k,
            {
                if s.get_char(k) != word.get_char(k) {
                    assert(s@[k as int] != word@[k as int]);
                    return false;
                }
                k += 1;
            }
            assert(s@ =~= word@);
            true
        },
        None => false,
    }
}

impl TableBuilder {
    /// Alignment of the next cell of the current row.
    pub(crate) fn alignment(&self) -> (a: CellAlign)
        ensures
            a == table_alignment(table_draft(*self)),
    {
        let k = self.current_row.len();
        if k < self.alignments.len() {
            match self.alignments[k] {
                ColumnAlignment::Center => CellAlign::Center,
                ColumnAlignment::Right => CellAlign::Right,
                _ => CellAlign::Left,
            }
        } else {
            CellAlign::Left
        }
    }

    /// Closes the current row into the rows, unless it is empty.
    pub(crate) fn flush_row(&mut self)
        ensures
            table_draft(*final(self)) == flush_row(table_draft(*old(self))),
    {
        if self.current_row.len() > 0 {
            let ghost rows = self.rows@;
            let ghost row = self.current_row@;
            let mut cells = Vec::new();
            std::mem::swap(&mut cells, &mut self.current_row);
            let parsed_row = ParsedHtmlTableRow { cells };
            self.rows.push(parsed_row);
            proof {
                assert(self.rows@.map_values(|r: ParsedHtmlTableRow| row_view(r)) =~= rows.map_values(
                    |r: ParsedHtmlTableRow| row_view(r),
                ).push(row_view(parsed_row)));
                assert(self.current_row@.map_values(|c: ParsedHtmlTableCell| cell_view(c)) =~= Seq::<crate::document::CellView>::empty());
            }
        }
        proof {
            assert(table_draft(*self) =~= flush_row(table_draft(*old(self))));
        }
    }
}

impl ParseState {
    pub(crate) fn start_code_block(&mut self, info: Option<String>, r: Range<usize>)
        ensures
            state_view(*final(self)) == start_code_block(state_view(*old(self)), opt_text(info), r),
    {
        let info = match info {
            Some(i) => if i.as_str().is_empty() {
                None
            } else {
                Some(i)
            },
            None => None,
        };
        let (language, source_path) = match &info {
            Some(i) => info_words(i.as_str()),
            None => (None, None),
        };
        self.code = Some(CodeInProgress { start: r.start, text: String::new(), language, info, source_path });
        proof {
            assert(state_view(*self) =~= start_code_block(state_view(*old(self)), opt_text(info), r));
        }
    }

    pub(crate) fn end_code_block(&mut self, r: Range<usize>, options: MarkdownOptions)
        ensures
            state_view(*final(self)) == end_code_block(state_view(*old(self)), r, options),
    {
        match self.code.take() {
            Some(c) => {
                let mermaid = options.render_mermaid_diagrams && is_mermaid(&c.language);
                let display = code_block_display_text(c.text.as_str());
                let start = c.start;
                let block = ParsedCodeBlock {
                    source: start..r.end,
                    code: c.text,
                    display_code: display,
                    language: c.language,
                    info: c.info,
                    source_path: c.source_path,
                    mermaid,
                };
                proof {
                    assert(block.display_code@ == display_code(c.text@));
                }
                self.push_block(start, ParsedBlock::Code(block));
            },
            None => {},
        }
        proof {
            assert(state_view(*self) =~= end_code_block(state_view(*old(self)), r, options));
        }
    }

    pub(crate) fn start_image(&mut self, destination: String, title: String, r: Range<usize>)
        ensures
            state_view(*final(self)) == (ParseView {
                current: Some(current_or(state_view(*old(self)), TextBlockKind::Paragraph, r.start)),
                image: Some(ImageDraft { start: r.start, destination: destination@, title: title@, alt: Seq::empty() }),
                ..state_view(*old(self))
            }),
    {
        let b = self.take_current(TextBlockKind::Paragraph, r.start);
        self.put_current(b);
        self.image = Some(ImageInProgress { start: r.start, destination, title, alt: String::new() });
        proof {
            assert(state_view(*self) =~= ParseView {
                current: Some(current_or(state_view(*old(self)), TextBlockKind::Paragraph, r.start)),
                image: Some(ImageDraft { start: r.start, destination: destination@, title: title@, alt: Seq::empty() }),
                ..state_view(*old(self))
            });
        }
    }

    pub(crate) fn end_image(&mut self, r: Range<usize>)
        ensures
            state_view(*final(self)) == match state_view(*old(self)).image {
                Some(i) => ParseView {
                    image: None,
                    current: Some(
                        builder_push_image(
                            current_or(state_view(*old(self)), TextBlockKind::Paragraph, i.start),
                            i.start..r.end,
                            i.destination,
                            i.title,
                            i.alt,
                        ),
                    ),
                    ..state_view(*old(self))
                },
                None => state_view(*old(self)),
            },
    {
        match self.image.take() {
            Some(i) => {
                let mut b = self.take_current(TextBlockKind::Paragraph, i.start);
                b.push_image(i.start..r.end, i.destination, i.title, i.alt);
                self.put_current(b);
            },
            None => {},
        }
        proof {
            assert(state_view(*self) =~= match state_view(*old(self)).image {
                Some(i) => ParseView {
                    image: None,
                    current: Some(
                        builder_push_image(
                            current_or(state_view(*old(self)), TextBlockKind::Paragraph, i.start),
                            i.start..r.end,
                            i.destination,
                            i.title,
                            i.alt,
                        ),
                    ),
                    ..state_view(*old(self))
                },
                None => state_view(*old(self)),
            });
        }
    }

    pub(crate) fn on_text(&mut self, text: String, r: Range<usize>)
        ensures
            state_view(*final(self)) == on_text(state_view(*old(self)), text@, r),
    {
        match self.code.take() {
            Some(mut c) => {
                c.text.append(text.as_str());
                self.code = Some(c);
                proof {
                    assert(state_view(*self) =~= on_text(state_view(*old(self)), text@, r));
                }
                return;
            },
            None => {},
        }
        match self.image.take() {
            Some(mut i) => {
                i.alt.append(text.as_str());
                self.image = Some(i);
                proof {
                    assert(state_view(*self) =~= on_text(state_view(*old(self)), text@, r));
                }
                return;
            },
            None => {},
        }
        if self.heading_start.is_some() {
            self.heading_text.append(text.as_str());
        }
        let ghost mid = state_view(*self);
        self.push_text(text, r);
        proof {
            assert(state_view(*self) =~= on_text(state_view(*old(self)), text@, r));
        }
    }

    pub(crate) fn start_heading(&mut self, level: u8, r: Range<usize>)
        ensures
            state_view(*final(self)) == (ParseView {
                current: Some(new_builder(TextBlockKind::Heading(level), r.start)),
                heading_text: Seq::empty(),
                heading_start: Some(r.start),
                ..state_view(*old(self))
            }),
    {
        let b = TextBlockBuilder::new(TextBlockKind::Heading(level), r.start);
        self.put_current(b);
        self.heading_text = String::new();
        self.heading_start = Some(r.start);
        proof {
            assert(state_view(*self) =~= ParseView {
                current: Some(new_builder(TextBlockKind::Heading(level), r.start)),
                heading_text: Seq::empty(),
                heading_start: Some(r.start),
                ..state_view(*old(self))
            });
        }
    }

    /// Records the anchor of the heading that just ended.
    pub(crate) fn record_heading(&mut self, at: usize, bound: usize)
        requires
            bound < usize::MAX,
            forall|k: Seq<char>| #[trigger] state_view(*old(self)).heading_counts.dom().contains(k)
                ==> state_view(*old(self)).heading_counts[k] <= bound,
        ensures
            state_view(*final(self)) == record_heading(state_view(*old(self)), at),
            forall|k: Seq<char>| #[trigger] state_view(*final(self)).heading_counts.dom().contains(k)
                ==> state_view(*final(self)).heading_counts[k] <= bound + 1,
    {
        let base = heading_slug(self.heading_text.as_str());
        proof {
            assert(base@ == heading_base(self.heading_text@));
        }
        let count = match assoc_lookup(&self.heading_counts, &base) {
            Some(c) => c,
            None => 0,
        };
        let mut slug = base.clone();
        if count != 0 {
            slug.push('-');
            push_decimal(&mut slug, count as u64);
        }
        let ghost counts = self.heading_counts@;
        let ghost heads = self.headings@;
        self.heading_counts.push((base, count + 1));
        let start = match self.heading_start {
            Some(h) => h,
            None => at,
        };
        self.headings.push((slug, start));
        self.heading_start = None;
        proof {
            assert(self.heading_counts@.drop_last() =~= counts);
            assert(self.headings@.drop_last() =~= heads);
            assert(slug@ =~= if count == 0 {
                base@
            } else {
                base@ + seq!['-'] + decimal(count as nat)
            });
            assert(state_view(*self) =~= record_heading(state_view(*old(self)), at));
        }
    }

    pub(crate) fn start_table(&mut self, alignments: &Vec<ColumnAlignment>, r: Range<usize>)
        ensures
            state_view(*final(self)) == (ParseView {
                table: Some(
                    TableDraft {
                        source_start: r.start,
                        alignments: alignments@,
                        rows: Seq::empty(),
                        current_row: Seq::empty(),
                        in_header: false,
                    },
                ),
                ..state_view(*old(self))
            }),
    {
        let mut columns: Vec<ColumnAlignment> = Vec::new();
        let mut k: usize = 0;
        while k < alignments.len()
            invariant
                k <= alignments@.len(),
                columns@ == alignments@.take(k as int),
            decreases alignments.len() - k,
        {
            columns.push(alignments[k]);
            proof {
                assert(alignments@.take(k + 1) =~= alignments@.take(k as int).push(alignments@[k as int]));
            }
            k += 1;
        }
        proof {
            assert(alignments@.take(k as int) =~= alignments@);
        }
        let table = TableBuilder {
            source_start: r.start,
            alignments: columns,
            rows: Vec::new(),
            current_row: Vec::new(),
            in_header: false,
        };
        self.table = Some(table);
        proof {
            assert(table_draft(table).rows =~= Seq::empty());
            assert(table_draft(table).current_row =~= Seq::empty());
            assert(state_view(*self) =~= ParseView {
                table: Some(
                    TableDraft {
                        source_start: r.start,
                        alignments: alignments@,
                        rows: Seq::empty(),
                        current_row: Seq::empty(),
                        in_header: false,
                    },
                ),
                ..state_view(*old(self))
            });
        }
    }

    pub(crate) fn end_table(&mut self, r: Range<usize>)
        ensures
            state_view(*final(self)) == end_table(state_view(*old(self)), r),
    {
        match self.table.take() {
            Some(mut t) => {
                t.flush_row();
                let start = t.source_start;
                let table = ParsedHtmlTable { source: start..r.end, rows: t.rows, kind: ParsedTableKind::Markdown };
                self.push_block(start, ParsedBlock::HtmlTable(table));
            },
            None => {},
        }
        proof {
            assert(state_view(*self) =~= end_table(state_view(*old(self)), r));
        }
    }

    pub(crate) fn table_row_edge(&mut self)
        ensures
            state_view(*final(self)) == table_row_edge(state_view(*old(self))),
    {
        match self.table.take() {
            Some(mut t) => {
                t.flush_row();
                self.table = Some(t);
            },
            None => {},
        }
        proof {
            assert(state_view(*self) =~= table_row_edge(state_view(*old(self))));
        }
    }

    pub(crate) fn table_head_start(&mut self)
        ensures
            state_view(*final(self)) == table_head_start(state_view(*old(self))),
    {
        match self.table.take() {
            Some(mut t) => {
                t.in_header = true;
                self.table = Some(t);
            },
            None => {},
        }
        proof {
            assert(state_view(*self) =~= table_head_start(state_view(*old(self))));
        }
    }

    pub(crate) fn table_head_end(&mut self)
        ensures
            state_view(*final(self)) == table_head_end(state_view(*old(self))),
    {
        match self.table.take() {
            Some(mut t) => {
                t.flush_row();
                t.in_header = false;
                self.table = Some(t);
            },
            None => {},
        }
        proof {
            assert(state_view(*self) =~= table_head_end(state_view(*old(self))));
        }
    }

    pub(crate) fn start_table_cell(&mut self, r: Range<usize>)
        ensures
            state_view(*final(self)) == start_table_cell(state_view(*old(self)), r),
    {
        match &self.table {
            Some(t) => {
                let kind = TextBlockKind::HtmlTableCell { header: t.in_header, alignment: t.alignment() };
                let b = TextBlockBuilder::new(kind, r.start);
                self.put_current(b);
            },
            None => {},
        }
    }

    pub(crate) fn end_table_cell(&mut self, r: Range<usize>)
        ensures
            state_view(*final(self)) == end_table_cell(state_view(*old(self)), r),
    {
        let current = self.current.take();
        match (self.table.take(), current) {
            (Some(mut t), Some(b)) => {
                let header = t.in_header;
                let alignment = t.alignment();
                let ghost row = t.current_row@;
                let cell = ParsedHtmlTableCell {
                    content: b.finish(r.end),
                    col_span: 1,
                    row_span: 1,
                    is_header: header,
                    alignment,
                };
                t.current_row.push(cell);
                proof {
                    assert(t.current_row@.map_values(|c: ParsedHtmlTableCell| cell_view(c)) =~= row.map_values(
                        |c: ParsedHtmlTableCell| cell_view(c),
                    ).push(cell_view(cell)));
                }
                self.table = Some(t);
            },
            (table, _) => {
                self.table = table;
            },
        }
        proof {
            assert(state_view(*self) =~= end_table_cell(state_view(*old(self)), r));
        }
    }

    /// An HTML block (see [`start_html_block`]): converted from its node
    /// tree when `html` holds one for it, else kept as its literal source
    /// text; its events are skipped up to its end.
    pub(crate) fn start_html_block(&mut self, source: &str, r: Range<usize>, html: &ParsedHtml)
        ensures
            state_view(*final(self)) == start_html_block(state_view(*old(self)), source@, r, html_view(*html)),
    {
        self.in_html_block = true;
        let len = str_byte_len(source);
        if r.start <= r.end && r.end <= len && source.is_char_boundary(r.start) && source.is_char_boundary(r.end) {
            let raw = substring(source, r.start, r.end);
            let found = find_parsed(&html.blocks, &raw);
            proof {
                let v = html_view(*html).blocks;
                let k = match found {
                    Some(k) => k as int,
                    None => v.len() as int,
                };
                assert forall|j: int| 0 <= j < k implies (#[trigger] v[j]).0 != raw@ by {
                    assert(v[j] == (html.blocks@[j].0@, html.blocks@[j].1@));
                }
                if k < v.len() {
                    assert(v[k] == (html.blocks@[k].0@, html.blocks@[k].1@));
                }
                lemma_parsed_for(v, raw@, k);
            }
            let block = match found {
                Some(k) => {
                    let mut allocator = HtmlSourceAllocator::new(source, r.start..r.end);
                    let mut blocks: Vec<ParsedBlock> = Vec::new();
                    convert_html_nodes(&html.blocks[k].1, None, 1, &mut allocator, &mut blocks);
                    proof {
                        assert(blocks_view(Seq::<ParsedBlock>::empty()) =~= Seq::<BlockView>::empty());
                        lemma_nested_blocks_view(blocks@, blocks@.len());
                        assert(blocks@.take(blocks@.len() as int) =~= blocks@);
                    }
                    ParsedBlock::Html(ParsedHtmlBlock { source: r.start..r.end, raw_source: raw, blocks })
                },
                None => {
                    let mut b = TextBlockBuilder::new(TextBlockKind::Html, r.start);
                    b.push(raw, r.start..r.end);
                    ParsedBlock::Text(b.finish(r.end))
                },
            };
            proof {
                assert(block_view(block) == html_block(source@, r, html_view(*html)));
            }
            self.push_block(r.start, block);
        }
        proof {
            assert(state_view(*self) =~= start_html_block(state_view(*old(self)), source@, r, html_view(*html)));
        }
    }
}


/// The first entry of `entries` whose key is `text`.
fn find_parsed<T>(entries: &Vec<(String, T)>, text: &String) -> (found: Option<usize>)
    ensures
        match found {
            Some(k) => k < entries@.len() && entries@[k as int].0@ == text@ && forall|j: int|
                0 <= j < k ==> (#[trigger] entries@[j]).0@ != text@,
            None => forall|j: int| 0 <= j < entries@.len() ==> (#[trigger] entries@[j]).0@ != text@,
        },
{
    let mut k: usize = 0;
    while k < entries.len()
        invariant
            k <= entries@.len(),
            forall|j: int| 0 <= j < k ==> (#[trigger] entries@[j]).0@ != text@,
        decreases entries@.len() - k,
    {
        if entries[k].0 == *text {
            return Some(k);
        }
        k += 1;
    }
    None
}

/// The ASCII lowercase of `chars[start..end]`.
pub(crate) fn ascii_lowercase_chars(chars: &Vec<char>, start: usize, end: usize) -> (lower: Vec<char>)
    requires
        start <= end <= chars@.len(),
    ensures
        lower@ == ascii_lowercase_of(chars@.subrange(start as int, end as int)),
{
    let mut lower: Vec<char> = Vec::new();
    let mut k = start;
    while k < end
        invariant
            start <= k <= end <= chars@.len(),
            lower@ == ascii_lowercase_of(chars@.subrange(start as int, k as int)),
        decreases end - k,
    {
        lower.push(ascii_lowercase(chars[k]));
        proof {
            assert(ascii_lowercase_of(chars@.subrange(start as int, k + 1)) =~= ascii_lowercase_of(
                chars@.subrange(start as int, k as int),
            ).push(ascii_lower(chars@[k as int])));
        }
        k += 1;
    }
    lower
}

/// Whether `name` spells `word`.
pub(crate) fn spells(name: &Vec<char>, word: &str) -> (b: bool)
    ensures
        b == (name@ == word@),
{
    let n = word.unicode_len();
    if name.len() != n {
        return false;
    }
    let mut k: usize = 0;
    while k < n
        invariant
            k <= n == word@.len() == name@.len(),
            forall|j: int| 0 <= j < k ==> name@[j] == word@[j],
        decreases n - k,
    {
        if name[k] != word.get_char(k) {
            assert(name@[k as int] != word@[k as int]);
            return false;
        }
        k += 1;
    }
    assert(name@ =~= word@);
    true
}

/// What the inline HTML `chars` does to the text around it.
pub(crate) fn tag_effect_of(chars: &Vec<char>) -> (effect: TagEffect)
    ensures
        effect == tag_effect(chars@),
{
    let n = chars.len();
    proof {
        assert(chars@.subrange(0, n as int) =~= chars@);
    }
    let end = trimmed_end(chars, 0, n);
    let start = trimmed_start(chars, 0, end);
    let ghost tag = chars@.subrange(start as int, end as int);
    assert(tag == trim_start(trim_end(chars@)));
    if !(end - start >= 2 && chars[start] == '<' && chars[end - 1] == '>') {
        return TagEffect::Unknown;
    }
    let inner_start = start + 1;
    let inner_end = end - 1;
    let ghost inner = chars@.subrange(inner_start as int, inner_end as int);
    assert(inner =~= tag.subrange(1, tag.len() - 1));
    if inner_start < inner_end && (chars[inner_start] == '!' || chars[inner_start] == '?') {
        return TagEffect::Ignored;
    }
    let opening = !(inner_start < inner_end && chars[inner_start] == '/');
    let mut p = inner_start;
    while p < inner_end && chars[p] == '/'
        invariant
            inner_start <= p <= inner_end <= chars@.len(),
            skip_slashes(inner) == skip_slashes(chars@.subrange(p as int, inner_end as int)),
            inner == chars@.subrange(inner_start as int, inner_end as int),
        decreases inner_end - p,
    {
        assert(chars@.subrange(p as int, inner_end as int).drop_first() =~= chars@.subrange(p + 1, inner_end as int));
        p += 1;
    }
    assert(skip_slashes(chars@.subrange(p as int, inner_end as int)) == chars@.subrange(p as int, inner_end as int));
    let mut q = p;
    while q < inner_end && !(chars[q] == ' ' || chars[q] == '\t' || chars[q] == '\n' || chars[q] == '\u{c}' || chars[q] == '\r') && chars[q] != '/'
        invariant
            p <= q <= inner_end <= chars@.len(),
            tag_name_prefix(chars@.subrange(p as int, inner_end as int)) == chars@.subrange(p as int, q as int)
                + tag_name_prefix(chars@.subrange(q as int, inner_end as int)),
        decreases inner_end - q,
    {
        assert(chars@.subrange(q as int, inner_end as int).drop_first() =~= chars@.subrange(q + 1, inner_end as int));
        assert(chars@.subrange(p as int, q + 1) =~= chars@.subrange(p as int, q as int) + seq![chars@[q as int]]);
        q += 1;
    }
    assert(tag_name_prefix(chars@.subrange(q as int, inner_end as int)) =~= Seq::<char>::empty());
    assert(chars@.subrange(p as int, q as int) + Seq::<char>::empty() =~= chars@.subrange(p as int, q as int));
    let name = ascii_lowercase_chars(chars, p, q);
    if spells(&name, "strong") || spells(&name, "b") {
        TagEffect::Styles(Style::Strong, opening)
    } else if spells(&name, "em") || spells(&name, "i") {
        TagEffect::Styles(Style::Emphasis, opening)
    } else if spells(&name, "del") || spells(&name, "s") {
        TagEffect::Styles(Style::Strike, opening)
    } else if spells(&name, "u") || spells(&name, "ins") {
        TagEffect::Styles(Style::Underline, opening)
    } else if spells(&name, "code") {
        TagEffect::Styles(Style::Code, opening)
    } else if spells(&name, "a") {
        if opening {
            TagEffect::OpenLink
        } else {
            TagEffect::CloseLink
        }
    } else if spells(&name, "span") || spells(&name, "small") || spells(&name, "sub") || spells(&name, "sup")
        || spells(&name, "mark") {
        TagEffect::Ignored
    } else {
        TagEffect::Unknown
    }
}

/// Whether the inline HTML `chars` is a line break tag.
pub(crate) fn is_line_break(chars: &Vec<char>) -> (b: bool)
    ensures
        b == is_line_break_tag(chars@),
{
    let n = chars.len();
    proof {
        assert(chars@.subrange(0, n as int) =~= chars@);
    }
    let start = trimmed_start(chars, 0, n);
    let ghost t = ascii_lowercase_of(chars@.subrange(start as int, n as int));
    if n - start >= 3 {
        assert(t[0] == ascii_lower(chars@[start as int]));
        assert(t[1] == ascii_lower(chars@[start + 1]));
        assert(t[2] == ascii_lower(chars@[start + 2]));
        ascii_lowercase(chars[start]) == '<' && ascii_lowercase(chars[start + 1]) == 'b'
            && ascii_lowercase(chars[start + 2]) == 'r'
    } else {
        false
    }
}

impl TextBlockBuilder {
    pub(crate) fn apply_tag_effect(&mut self, effect: TagEffect, r: Range<usize>)
        ensures
            builder_view(*final(self)) == apply_tag_effect(builder_view(*old(self)), effect, r),
    {
        match effect {
            TagEffect::Styles(style, on) => {
                set_style_flag(&mut self.flags, style, on);
                proof {
                    assert(builder_view(*self) =~= apply_tag_effect(builder_view(*old(self)), effect, r));
                }
            },
            TagEffect::CloseLink => self.close_link(r.end),
            _ => {},
        }
    }
}

impl ParseState {
    /// Inline HTML when HTML is parsed.
    #[verifier::rlimit(40)]
    pub(crate) fn on_inline_html(&mut self, text: String, r: Range<usize>, html: &ParsedHtml)
        ensures
            state_view(*final(self)) == on_inline_html(state_view(*old(self)), text@, r, html_view(*html)),
    {
        let mut b = self.take_current(TextBlockKind::Paragraph, r.start);
        let found = find_parsed(&html.images, &text);
        proof {
            let v = html_view(*html).images;
            let k = match found {
                Some(k) => k as int,
                None => v.len() as int,
            };
            assert forall|j: int| 0 <= j < k implies (#[trigger] v[j]).0 != text@ by {
                assert(v[j].0 == html.images@[j].0@);
            }
            if k < v.len() {
                assert(v[k] == (html.images@[k].0@, (html.images@[k].1.url@, html.images@[k].1.title@, html.images@[k].1.alt@)));
            }
            lemma_parsed_for(v, text@, k);
        }
        match found {
            Some(k) => {
                let image: &HtmlImage = &html.images[k].1;
                b.push_image(r, image.url.clone(), image.title.clone(), image.alt.clone());
            },
            None => self.inline_html_tag(&mut b, text, r, html),
        }
        self.put_current(b);
        proof {
            assert(state_view(*self) =~= on_inline_html(state_view(*old(self)), text@, r, html_view(*html)));
        }
    }

    /// Inline HTML that is no image (see [`on_inline_html`]), applied to `b`.
    fn inline_html_tag(&self, b: &mut TextBlockBuilder, text: String, r: Range<usize>, html: &ParsedHtml)
        requires
            parsed_for(html_view(*html).images, text@) is None,
        ensures
            with_current(state_view(*self), builder_view(*final(b))) == on_inline_html(
                with_current(state_view(*self), builder_view(*old(b))),
                text@,
                r,
                html_view(*html),
            ),
    {
        let chars = chars_of(text.as_str());
        if is_line_break(&chars) {
            let mut newline = String::new();
            newline.push('\n');
            proof {
                assert(newline@ =~= seq!['\n']);
            }
            b.push(newline, r);
        } else {
            let effect = tag_effect_of(&chars);
            match effect {
                TagEffect::Unknown => {
                    let n = chars.len();
                    proof {
                        assert(chars@.subrange(0, n as int) =~= chars@);
                    }
                    let end = trimmed_end(&chars, 0, n);
                    let start = trimmed_start(&chars, 0, end);
                    if !(end - start >= 2 && chars[start] == '<' && chars[end - 1] == '>') {
                        b.push(text, r);
                    }
                },
                TagEffect::OpenLink => {
                    let found = find_parsed(&html.links, &text);
                    proof {
                        let v = html_view(*html).links;
                        let k = match found {
                            Some(k) => k as int,
                            None => v.len() as int,
                        };
                        assert forall|j: int| 0 <= j < k implies (#[trigger] v[j]).0 != text@ by {
                            assert(v[j] == (html.links@[j].0@, html.links@[j].1@));
                        }
                        if k < v.len() {
                            assert(v[k] == (html.links@[k].0@, html.links@[k].1@));
                        }
                        lemma_parsed_for(v, text@, k);
                    }
                    match found {
                        Some(k) => b.open_link(r.start, html.links[k].1.clone()),
                        None => {},
                    }
                },
                _ => b.apply_tag_effect(effect, r),
            }
        }
    }
}


pub(crate) open spec fn counts_bounded(v: ParseView, bound: int) -> bool {
    forall|k: Seq<char>| #[trigger] v.heading_counts.dom().contains(k) ==> v.heading_counts[k] <= bound
}

impl ParseState {
    fn on_start(
        &mut self,
        tag: &MarkdownTag,
        r: Range<usize>,
        source: &str,
        options: MarkdownOptions,
        html: &ParsedHtml,
    )
        ensures
            state_view(*final(self)) == on_start(state_view(*old(self)), *tag, r, source@, options, html_view(*html)),
    {
        match tag {
            MarkdownTag::Paragraph => self.start_paragraph(r),
            MarkdownTag::Heading(level) => self.start_heading(*level, r),
            MarkdownTag::BlockQuote(kind) => {
                self.quote_kind = Some(*kind);
                proof {
                    assert(state_view(*self) =~= on_start(state_view(*old(self)), *tag, r, source@, options, html_view(*html)));
                }
            },
            MarkdownTag::CodeBlock(info) => {
                let info = match info {
                    Some(i) => Some(i.clone()),
                    None => None,
                };
                self.start_code_block(info, r);
            },
            MarkdownTag::HtmlBlock => if options.parse_html {
                self.start_html_block(source, r, html);
            },
            MarkdownTag::List(first) => {
                self.lists.push(*first);
                proof {
                    assert(state_view(*self) =~= on_start(state_view(*old(self)), *tag, r, source@, options, html_view(*html)));
                }
            },
            MarkdownTag::Item => self.start_item(r),
            MarkdownTag::FootnoteDefinition(label) => self.start_footnote(label.clone(), r),
            MarkdownTag::Table(alignments) => self.start_table(alignments, r),
            MarkdownTag::TableHead => self.table_head_start(),
            MarkdownTag::TableRow => self.table_row_edge(),
            MarkdownTag::TableCell => self.start_table_cell(r),
            MarkdownTag::Emphasis => self.open_style(r, Style::Emphasis),
            MarkdownTag::Strong => self.open_style(r, Style::Strong),
            MarkdownTag::Strikethrough => self.open_style(r, Style::Strike),
            MarkdownTag::Link { destination, .. } => self.open_link(r, destination.clone()),
            MarkdownTag::Image { destination, title } => self.start_image(destination.clone(), title.clone(), r),
            MarkdownTag::MetadataBlock(_) => if options.render_metadata_blocks {
                let b = TextBlockBuilder::new(TextBlockKind::Metadata, r.start);
                self.put_current(b);
            },
            MarkdownTag::DefinitionList | MarkdownTag::DefinitionListTitle | MarkdownTag::DefinitionListDefinition
            | MarkdownTag::Superscript | MarkdownTag::Subscript => {},
        }
    }

    fn on_end(&mut self, tag: MarkdownTagEnd, r: Range<usize>, options: MarkdownOptions, bound: usize)
        requires
            bound < usize::MAX,
            counts_bounded(state_view(*old(self)), bound as int),
        ensures
            state_view(*final(self)) == on_end(state_view(*old(self)), tag, r, options),
            counts_bounded(state_view(*final(self)), bound + 1),
    {
        match tag {
            MarkdownTagEnd::Paragraph => self.flush_current(r.end),
            MarkdownTagEnd::Heading => {
                self.flush_current(r.end);
                if options.parse_heading_slugs {
                    self.record_heading(r.start, bound);
                }
            },
            MarkdownTagEnd::BlockQuote => {
                self.quote_kind = None;
                proof {
                    assert(state_view(*self) =~= on_end(state_view(*old(self)), tag, r, options));
                }
            },
            MarkdownTagEnd::CodeBlock => self.end_code_block(r, options),
            MarkdownTagEnd::List => {
                self.lists.pop();
                proof {
                    assert(state_view(*self) =~= on_end(state_view(*old(self)), tag, r, options));
                }
            },
            MarkdownTagEnd::Item => self.flush_current(r.end),
            MarkdownTagEnd::FootnoteDefinition => self.flush_current(r.end),
            MarkdownTagEnd::Table => self.end_table(r),
            MarkdownTagEnd::TableHead => self.table_head_end(),
            MarkdownTagEnd::TableRow => self.table_row_edge(),
            MarkdownTagEnd::TableCell => self.end_table_cell(r),
            MarkdownTagEnd::Emphasis => self.close_style(Style::Emphasis),
            MarkdownTagEnd::Strong => self.close_style(Style::Strong),
            MarkdownTagEnd::Strikethrough => self.close_style(Style::Strike),
            MarkdownTagEnd::Link => self.close_link(r),
            MarkdownTagEnd::Image => self.end_image(r),
            MarkdownTagEnd::MetadataBlock(_) => if options.render_metadata_blocks {
                self.flush_current(r.end);
            },
            _ => {},
        }
    }

    /// Applies one event at `r`.
    pub(crate) fn apply(
        &mut self,
        event: &MarkdownEvent,
        r: Range<usize>,
        source: &str,
        options: MarkdownOptions,
        html: &ParsedHtml,
        bound: usize,
    )
        requires
            bound < usize::MAX,
            counts_bounded(state_view(*old(self)), bound as int),
        ensures
            state_view(*final(self)) == parse_step(state_view(*old(self)), *event, r, source@, options, html_view(*html)),
            counts_bounded(state_view(*final(self)), bound + 1),
    {
        if self.in_html_block {
            match event {
                MarkdownEvent::End(MarkdownTagEnd::HtmlBlock) => {
                    self.in_html_block = false;
                },
                _ => {},
            }
            proof {
                assert(state_view(*self) =~= parse_step(state_view(*old(self)), *event, r, source@, options, html_view(*html)));
            }
            return;
        }
        match event {
            MarkdownEvent::Start(tag) => self.on_start(tag, r, source, options, html),
            MarkdownEvent::End(tag) => self.on_end(*tag, r, options, bound),
            MarkdownEvent::Text(text) => self.on_text(text.clone(), r),
            MarkdownEvent::Code(text) => self.on_code(text.clone(), r),
            MarkdownEvent::Html(text) => if options.parse_html {
                self.on_inline_html(text.clone(), r, html)
            } else {
                self.push_text(text.clone(), r)
            },
            MarkdownEvent::InlineHtml(text) => if options.parse_html {
                self.on_inline_html(text.clone(), r, html)
            } else {
                self.push_text(text.clone(), r)
            },
            MarkdownEvent::FootnoteReference(label) => {
                let mut reference = String::new();
                reference.push('[');
                reference.append(label.as_str());
                reference.push(']');
                proof {
                    assert(reference@ =~= seq!['['] + label@ + seq![']']);
                }
                self.push_text(reference, r);
            },
            MarkdownEvent::SoftBreak => self.on_soft_break(r),
            MarkdownEvent::HardBreak => {
                let mut newline = String::new();
                newline.push('\n');
                proof {
                    assert(newline@ =~= seq!['\n']);
                }
                self.push_text(newline, r);
            },
            MarkdownEvent::Rule => self.push_block(r.start, ParsedBlock::Rule(r)),
            MarkdownEvent::TaskListMarker(checked) => self.on_task_marker(*checked, r),
            MarkdownEvent::InlineMath(text) => self.push_text(text.clone(), r),
            MarkdownEvent::DisplayMath(text) => self.push_text(text.clone(), r),
        }
    }
}

} // verus!
