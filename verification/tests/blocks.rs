use hearth_text::block::{inline_node_kind, BlockNode, CodeBlock, Paragraph};
use hearth_text::builder::{parse_document, ParsedDocument};
use hearth_text::document::MarkdownOptions;
use hearth_text::node::{svg_data_uri, ImageNode, InlineNode, LinkMark, Span, TextMark};
use hearth_text::theme::{MarkdownBlockKind, MarkdownHeadingLevel, MarkdownInlineKind, MarkdownStyleProfile};

fn options() -> MarkdownOptions {
    MarkdownOptions {
        parse_links_only: false,
        parse_html: false,
        render_mermaid_diagrams: false,
        parse_heading_slugs: false,
        render_metadata_blocks: false,
    }
}

fn parse(source: &str) -> ParsedDocument {
    parse_document(source, 0, options(), MarkdownStyleProfile::Agent).unwrap()
}

fn text_node(text: &str, marks: Vec<(std::ops::Range<usize>, TextMark)>) -> InlineNode {
    InlineNode { text: text.to_string(), image: None, marks, source_range: None }
}

#[test]
fn paragraph_writes_back_the_last_style_of_each_node() {
    let document = parse("**bold** text and [x](http://u)");
    assert_eq!(document.blocks[0].to_markdown(), "**bold** text and [x](http://u)\n\n");
}

#[test]
fn heading_list_and_code_write_back_as_markdown() {
    assert_eq!(parse("## Title").blocks[0].to_markdown(), "## Title\n\n");
    assert_eq!(parse("- a\n- b").blocks[0].to_markdown(), "- a\n\n\n- b\n\n");
    assert_eq!(parse("3. three\n4. four").blocks[0].to_markdown(), "1. three\n\n\n2. four\n\n");
    assert_eq!(parse("- [x] done").blocks[0].to_markdown(), "- [x] done\n\n");
    assert_eq!(
        parse("```rust\nfn x() {}\n```").blocks[0].to_markdown(),
        "```rust\nfn x() {}\n\n```"
    );
}

#[test]
fn blockquote_prefixes_every_line() {
    assert_eq!(parse("> quote").blocks[0].to_markdown(), "> quote\n> ");
}

#[test]
fn table_writes_header_alignments_and_rows() {
    let document = parse("| A | B |\n|:-|:-:|\n| 1 | 2 |");
    assert_eq!(
        document.blocks[0].to_markdown(),
        "A\n\n | B\n\n\n:-- | :-:\n1\n\n | 2\n\n"
    );
}

#[test]
fn document_joins_its_blocks_with_blank_lines() {
    let document = parse("# T\n\npara");
    assert_eq!(document.to_markdown(), "# T\n\n\n\npara\n\n");
}

#[test]
fn definitions_breaks_and_rules_write_back() {
    let definition = BlockNode::Definition {
        identifier: "id".to_string(),
        url: "http://x".to_string(),
        title: Some("T".to_string()),
        span: None,
    };
    assert_eq!(definition.to_markdown(), "[id]: http://x \"T\"");
    assert_eq!(BlockNode::Break { html: true, span: None }.to_markdown(), "<br>");
    assert_eq!(BlockNode::Break { html: false, span: None }.to_markdown(), "\n");
    assert_eq!(BlockNode::HorizontalRule { span: None }.to_markdown(), "---");
    assert_eq!(BlockNode::Unknown.to_markdown(), "");
}

#[test]
fn images_write_their_alt_url_and_title() {
    let mut paragraph = Paragraph { span: None, children: Vec::new() };
    paragraph.push_image(ImageNode {
        url: "a.png".to_string(),
        link: None,
        title: Some("t".to_string()),
        alt: Some("alt".to_string()),
    });
    assert_eq!(paragraph.to_markdown(), "![alt](a.png \"t\")\n\n");
}

#[test]
fn inline_kind_follows_the_last_full_mark() {
    let bold_then_code = text_node(
        "ab",
        vec![(0..2, TextMark::default().bold()), (0..2, TextMark::default().code())],
    );
    assert_eq!(inline_node_kind(&bold_then_code), Some(MarkdownInlineKind::InlineCode));
    let partial = text_node("ab", vec![(0..1, TextMark::default().bold())]);
    assert_eq!(inline_node_kind(&partial), Some(MarkdownInlineKind::Plain));
    let link = text_node(
        "ab",
        vec![(0..2, TextMark::default().bold().link(LinkMark { url: "u".to_string(), identifier: None, title: None }))],
    );
    assert_eq!(inline_node_kind(&link), Some(MarkdownInlineKind::Link));
    assert_eq!(inline_node_kind(&text_node("", vec![])), None);
    let highlighted = text_node("x", vec![(0..1, TextMark::default().highlight(3))]);
    assert_eq!(inline_node_kind(&highlighted), Some(MarkdownInlineKind::Mark));
}

#[test]
fn clamping_keeps_every_span_inside_the_source() {
    let mut node = BlockNode::Blockquote {
        children: vec![BlockNode::Paragraph(Paragraph {
            span: Some(Span { start: 8, end: 20 }),
            children: vec![],
        })],
        kind: None,
        span: Some(Span { start: 2, end: 30 }),
    };
    node.clamp_spans(10);
    assert_eq!(node.span().map(|s| (s.start, s.end)), Some((2, 10)));
    let BlockNode::Blockquote { children, .. } = &node else {
        panic!("expected blockquote");
    };
    assert_eq!(children[0].span().map(|s| (s.start, s.end)), Some((8, 10)));
    let mut past = BlockNode::HorizontalRule { span: Some(Span { start: 15, end: 12 }) };
    past.clamp_spans(10);
    assert_eq!(past.span().map(|s| (s.start, s.end)), Some((10, 10)));
    past.clamp_spans(10);
    assert_eq!(past.span().map(|s| (s.start, s.end)), Some((10, 10)));
}

#[test]
fn trailing_synthetic_character_is_removed_from_the_last_text() {
    let mut paragraph = Paragraph {
        span: None,
        children: vec![
            text_node("ab", vec![(0..2, TextMark::default().bold())]),
            text_node("", vec![]),
        ],
    };
    let mut node = BlockNode::Paragraph(paragraph);
    assert!(node.remove_trailing_synthetic_char('b'));
    assert_eq!(node.text(), "a\n");
    let BlockNode::Paragraph(p) = &node else { panic!("expected paragraph") };
    assert_eq!(p.children[0].marks[0].0, 0..1);
    assert!(!node.remove_trailing_synthetic_char('z'));
    assert_eq!(node.text(), "a\n");

    paragraph = Paragraph { span: None, children: vec![text_node("x", vec![(0..1, TextMark::default())])] };
    assert!(paragraph.remove_trailing_synthetic_char('x'));
    assert!(paragraph.children.is_empty());
}

#[test]
fn fenced_code_block_reads_language_and_source_path() {
    let code = CodeBlock::new_fenced("x".to_string(), "  rust title  ", None);
    assert_eq!(code.lang().as_deref(), Some("rust"));
    assert_eq!(code.info().as_deref(), Some("rust title"));
    assert_eq!(code.source_path(), None);
    let file = CodeBlock::new_fenced("x".to_string(), "src/main.rs", None);
    assert_eq!(file.lang(), None);
    assert_eq!(file.source_path().as_deref(), Some("src/main.rs"));
    let plain = CodeBlock::new("y".to_string(), Some("py".to_string()), None);
    assert_eq!(plain.info().as_deref(), Some("py"));
}

#[test]
fn compact_unwraps_roots_of_a_single_child() {
    let nested = BlockNode::Root {
        children: vec![BlockNode::Root {
            children: vec![BlockNode::HorizontalRule { span: Some(Span { start: 1, end: 4 }) }],
            span: None,
        }],
        span: None,
    };
    let compacted = nested.compact();
    assert!(matches!(compacted, BlockNode::HorizontalRule { .. }));
    let pair = BlockNode::Root {
        children: vec![BlockNode::Unknown, BlockNode::Unknown],
        span: None,
    };
    assert!(matches!(pair.compact(), BlockNode::Root { .. }));
}

#[test]
fn text_len_counts_bytes_of_every_node() {
    let paragraph = Paragraph {
        span: None,
        children: vec![text_node("ab", vec![]), text_node("é", vec![]), text_node("", vec![])],
    };
    assert_eq!(paragraph.text_len(), 4);
}

#[test]
fn heading_levels_cap_at_six() {
    assert_eq!(MarkdownHeadingLevel::from_depth(1), MarkdownHeadingLevel::H1);
    assert_eq!(MarkdownHeadingLevel::from_depth(5), MarkdownHeadingLevel::H5);
    assert_eq!(MarkdownHeadingLevel::from_depth(6), MarkdownHeadingLevel::H6);
    assert_eq!(MarkdownHeadingLevel::from_depth(0), MarkdownHeadingLevel::H6);
}

#[test]
fn fenced_code_is_closed_only_with_its_closing_fence() {
    let closed_source = "```rust\nfn x() {}\n```";
    let document = parse(closed_source);
    let BlockNode::CodeBlock(code) = &document.blocks[0] else {
        panic!("expected code block");
    };
    assert!(code.is_closed_fenced_block(closed_source));
    let open_source = "```rust\nfn x() {}";
    let document = parse(open_source);
    let BlockNode::CodeBlock(code) = &document.blocks[0] else {
        panic!("expected code block");
    };
    assert!(!code.is_closed_fenced_block(open_source));
    let unspanned = CodeBlock::new("x".to_string(), None, None);
    assert!(!unspanned.is_closed_fenced_block(closed_source));
}

#[test]
fn code_block_equality_includes_code_content() {
    let first = CodeBlock::new("let value = 1;".into(), Some("rust".into()), None);
    let second = CodeBlock::new("let value = 2;".into(), Some("rust".into()), None);

    assert_ne!(first, second);
}

#[test]
fn code_block_equality_compares_every_field() {
    let first = CodeBlock::new("x".into(), Some("rust".into()), None);
    let same = CodeBlock::new("x".into(), Some("rust".into()), None);
    let other_lang = CodeBlock::new("x".into(), None, None);
    let fenced = CodeBlock::new_fenced("x".into(), "rust", None);
    assert_eq!(first, same);
    assert_ne!(first, other_lang);
    assert_eq!(first, fenced);
}

#[test]
fn block_renderer_context_describes_the_block() {
    let source = "## Title  \n\n```rust\nfn main() {}\n```\n";
    let heading = BlockNode::Heading {
        level: 2,
        children: Paragraph::new("Title  ".to_string()),
        span: Some(Span { start: 0, end: 10 }),
    };
    let context = heading.render_context(source).expect("headings take renderers");
    assert_eq!(context.kind, MarkdownBlockKind::Heading);
    assert_eq!(context.source_range, Some(0..10));
    assert_eq!(context.source, "## Title  ");
    assert_eq!(context.text, "Title");
    assert_eq!(context.heading_level, Some(MarkdownHeadingLevel::H2));
    assert_eq!(context.code_language, None);

    let code = BlockNode::CodeBlock(CodeBlock::new_fenced(
        "fn main() {}".to_string(),
        "rust",
        Some(Span { start: 12, end: 36 }),
    ));
    let context = code.render_context(source).expect("code blocks take renderers");
    assert_eq!(context.kind, MarkdownBlockKind::CodeBlock);
    assert_eq!(context.source, "```rust\nfn main() {}\n```");
    assert_eq!(context.code_language.as_deref(), Some("rust"));
    assert_eq!(context.code_info.as_deref(), Some("rust"));
    assert_eq!(context.heading_level, None);

    let out_of_source = BlockNode::HorizontalRule { span: Some(Span { start: 30, end: 90 }) };
    let context = out_of_source.render_context(source).expect("rules take renderers");
    assert_eq!(context.source, "");
    assert_eq!(context.kind, MarkdownBlockKind::HorizontalRule);

    assert!(BlockNode::Unknown.render_context(source).is_none());
    assert!(BlockNode::Break { html: false, span: None }.render_context(source).is_none());
}

#[test]
fn renderer_kind_tells_lists_and_tasks_apart() {
    let ordered = BlockNode::List { children: vec![], ordered: true, start: Some(1), span: None };
    let unordered = BlockNode::List { children: vec![], ordered: false, start: None, span: None };
    let task = BlockNode::ListItem { children: vec![], spread: false, checked: Some(true), span: None };
    let item = BlockNode::ListItem { children: vec![], spread: false, checked: None, span: None };
    assert_eq!(ordered.renderer_kind(), Some(MarkdownBlockKind::OrderedList));
    assert_eq!(unordered.renderer_kind(), Some(MarkdownBlockKind::UnorderedList));
    assert_eq!(task.renderer_kind(), Some(MarkdownBlockKind::TaskListItem));
    assert_eq!(item.renderer_kind(), Some(MarkdownBlockKind::ListItem));
    assert_eq!(task.render_context("").expect("task").task_checked, Some(true));
}

#[test]
fn taking_a_paragraph_leaves_an_empty_one() {
    let mut paragraph = Paragraph::new("text".to_string());
    paragraph.set_span(Span { start: 2, end: 6 });
    let taken = paragraph.take();
    assert_eq!(taken.text(), "text");
    assert_eq!(taken.span, Some(Span { start: 2, end: 6 }));
    assert!(paragraph.children.is_empty());
    assert_eq!(paragraph.span, None);
}

#[test]
fn svg_data_uri_encodes_the_markup_in_base64() {
    assert_eq!(svg_data_uri("<svg/>"), "data:image/svg+xml;base64,PHN2Zy8+");
    assert_eq!(svg_data_uri(""), "data:image/svg+xml;base64,");
}
