use vstd::prelude::*;
use vstd::string::StringSliceAdditionalSpecFns;
use vstd::utf8::{encode_utf8, is_char_boundary};

use crate::block::{
    clamp_node, lemma_clamped_span_within, node_span, node_view, nodes_view, trim_node, NodeView,
};
use crate::builder::{document_view, parse_document, parse_result, DocumentView, ParsedDocument};
use crate::document::MarkdownOptions;
use crate::mender::{close_hanging_markdown, display_repair};
use crate::theme::MarkdownStyleProfile;
use crate::unicode::{chars_between, str_byte_len, substring};

verus! {

broadcast use {
    vstd::string::group_string_axioms,
    vstd::utf8::encode_utf8_valid_utf8,
    vstd::utf8::is_char_boundary_start_end_of_seq,
};

/// The content format of a text view.
#[derive(Clone, Copy, Debug, PartialEq, Eq)]
pub enum TextViewFormat {
    Markdown,
    Html,
}

/// The tail blocks with the synthetic character `suffix` removed from the
/// last one; `None` where that fails.
pub open spec fn trimmed_tail(blocks: Seq<NodeView>, suffix: Option<char>) -> Option<Seq<NodeView>> {
    match suffix {
        None => Some(blocks),
        Some(c) => if blocks.len() == 0 {
            None
        } else {
            match trim_node(blocks.last(), c) {
                Some(b) => Some(blocks.update(blocks.len() - 1, b)),
                None => None,
            }
        },
    }
}

/// What a streaming view shows of a canonical document while its source is
/// still arriving: the last block, when it is not code and its source tail
/// has unclosed inline Markdown, replaced by the blocks of a parse of the
/// repaired tail, without the synthetic character a repair adds and with
/// spans kept inside the source. The canonical document wherever a step
/// cannot be taken.
pub open spec fn display_document(
    format: TextViewFormat,
    canonical: DocumentView,
    source: Seq<char>,
    options: MarkdownOptions,
    profile: MarkdownStyleProfile,
) -> DocumentView {
    let n = canonical.blocks.len();
    let len = encode_utf8(source).len();
    if format is Html || n == 0 || canonical.blocks[n - 1] is CodeBlock {
        canonical
    } else {
        match node_span(canonical.blocks[n - 1]) {
            None => canonical,
            Some(span) => if !(span.start <= len && is_char_boundary(encode_utf8(source), span.start as int)) {
                canonical
            } else {
                match display_repair(chars_between(source, span.start as int, len as int)) {
                    None => canonical,
                    Some(repair) => match parse_result(repair.0, span.start, options, profile) {
                        None => canonical,
                        Some(tail) => match trimmed_tail(tail.blocks, repair.1) {
                            None => canonical,
                            Some(blocks) => DocumentView {
                                blocks: canonical.blocks.drop_last() + blocks.map_values(
                                    |b: NodeView| clamp_node(b, len as usize),
                                ),
                                source,
                                ..canonical
                            },
                        },
                    },
                }
            },
        }
    }
}

/// The display document of a streaming view (see [`display_document`]).
pub fn streaming_display_content(
    format: TextViewFormat,
    canonical: ParsedDocument,
    complete_source: &str,
    options: MarkdownOptions,
    profile: MarkdownStyleProfile,
) -> (display: ParsedDocument)
    ensures
        document_view(display) == display_document(
            format,
            document_view(canonical),
            complete_source@,
            options,
            profile,
        ),
{
    let ghost before = document_view(canonical);
    match format {
        TextViewFormat::Html => return canonical,
        TextViewFormat::Markdown => {},
    }
    let n = canonical.blocks.len();
    if n == 0 {
        return canonical;
    }
    proof {
        crate::block::lemma_nodes_view_index(canonical.blocks, n - 1);
    }
    if canonical.blocks[n - 1].is_code_block() {
        return canonical;
    }
    let span = match canonical.blocks[n - 1].span() {
        Some(span) => span,
        None => return canonical,
    };
    let len = str_byte_len(complete_source);
    if span.start > len || !complete_source.is_char_boundary(span.start) {
        return canonical;
    }
    let tail = substring(complete_source, span.start, len);
    let repair = match close_hanging_markdown(tail.as_str()) {
        Some(repair) => repair,
        None => return canonical,
    };
    let mut display_tail = match parse_document(repair.markdown.as_str(), span.start, options, profile) {
        Ok(document) => document,
        Err(_) => return canonical,
    };
    let ghost tail_view = nodes_view(display_tail.blocks);
    match repair.synthetic_text_suffix {
        Some(c) => {
            let m = display_tail.blocks.len();
            if m == 0 {
                return canonical;
            }
            proof {
                crate::block::lemma_nodes_view_index(display_tail.blocks, m - 1);
            }
            let ghost old_blocks = display_tail.blocks;
            let removed = display_tail.blocks[m - 1].remove_trailing_synthetic_char(c);
            if !removed {
                return canonical;
            }
            proof {
                assert forall|j: int| 0 <= j < m implies nodes_view(display_tail.blocks)[j] == tail_view.update(
                    m - 1,
                    trim_node(tail_view[m - 1], c).unwrap(),
                )[j] by {
                    crate::block::lemma_nodes_view_index(display_tail.blocks, j);
                    crate::block::lemma_nodes_view_index(old_blocks, j);
                }
                assert(nodes_view(display_tail.blocks) =~= trimmed_tail(tail_view, Some(c)).unwrap());
            }
        },
        None => {},
    }
    let ghost trimmed = nodes_view(display_tail.blocks);
    let ghost fixed = display_tail.blocks;
    let mut k: usize = 0;
    while k < display_tail.blocks.len()
        invariant
            k <= display_tail.blocks@.len(),
            display_tail.blocks@.len() == fixed@.len(),
            trimmed == nodes_view(fixed),
            forall|j: int|
                0 <= j < k ==> #[trigger] node_view(display_tail.blocks@[j]) == clamp_node(
                    node_view(fixed@[j]),
                    len,
                ),
            forall|j: int| k <= j < fixed@.len() ==> #[trigger] display_tail.blocks@[j] == fixed@[j],
        decreases display_tail.blocks@.len() - k,
    {
        display_tail.blocks[k].clamp_spans(len);
        k += 1;
    }
    let ghost canonical_blocks = canonical.blocks;
    let ghost clamped = display_tail.blocks;
    let mut display = canonical;
    display.blocks.pop();
    let ghost kept = display.blocks;
    display.blocks.append(&mut display_tail.blocks);
    display.source = String::from_str(complete_source);
    proof {
        assert(display.blocks@ =~= canonical_blocks@.drop_last() + clamped@);
        assert forall|j: int| 0 <= j < display.blocks@.len() implies nodes_view(display.blocks)[j] == (
        before.blocks.drop_last() + trimmed.map_values(|b: NodeView| clamp_node(b, len)))[j] by {
            crate::block::lemma_nodes_view_index(display.blocks, j);
            if j < n - 1 {
                crate::block::lemma_nodes_view_index(canonical_blocks, j);
            } else {
                crate::block::lemma_nodes_view_index(fixed, j - (n - 1));
            }
        }
        assert(nodes_view(display.blocks) =~= before.blocks.drop_last() + trimmed.map_values(
            |b: NodeView| clamp_node(b, len),
        ));
        assert(document_view(display) =~= display_document(format, before, complete_source@, options, profile));
    }
    display
}

/// A streaming view changes only the last block of the canonical document:
/// the display keeps the canonical blocks before it, its events, block
/// starts, heading slugs and footnotes; and either it is the canonical
/// document, or it holds the whole source and every block in place of the
/// last one has its span within that source.
pub proof fn lemma_display_replaces_only_the_tail(
    format: TextViewFormat,
    canonical: DocumentView,
    source: Seq<char>,
    options: MarkdownOptions,
    profile: MarkdownStyleProfile,
)
    ensures
        ({
            let d = display_document(format, canonical, source, options, profile);
            let n = canonical.blocks.len();
            &&& d.events == canonical.events
            &&& d.root_block_starts == canonical.root_block_starts
            &&& d.heading_slugs == canonical.heading_slugs
            &&& d.footnote_definitions == canonical.footnote_definitions
            &&& n > 0 ==> d.blocks.take(n - 1) == canonical.blocks.take(n - 1)
            &&& (d == canonical || (d.source == source && forall|i: int|
                n - 1 <= i < d.blocks.len() ==> (node_span(#[trigger] d.blocks[i]) matches Some(sp) ==> sp.start
                    <= sp.end <= encode_utf8(source).len())))
        }),
{
    let d = display_document(format, canonical, source, options, profile);
    let n = canonical.blocks.len();
    if d != canonical {
        let len = encode_utf8(source).len();
        let span = node_span(canonical.blocks[n - 1]).unwrap();
        let repair = display_repair(chars_between(source, span.start as int, len as int)).unwrap();
        let tail = parse_result(repair.0, span.start, options, profile).unwrap();
        let blocks = trimmed_tail(tail.blocks, repair.1).unwrap();
        let clamped = blocks.map_values(|b: NodeView| clamp_node(b, len as usize));
        assert(d.blocks == canonical.blocks.drop_last() + clamped);
        assert(d.blocks.take(n - 1) =~= canonical.blocks.take(n - 1));
        assert forall|i: int| n - 1 <= i < d.blocks.len() implies (node_span(#[trigger] d.blocks[i]) matches Some(sp)
            ==> sp.start <= sp.end <= len) by {
            assert(d.blocks[i] == clamp_node(blocks[i - (n - 1)], len as usize));
            lemma_clamped_span_within(blocks[i - (n - 1)], len as usize);
        }
    }
}

} // verus!
