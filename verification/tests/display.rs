use hearth_text::block::BlockNode;
use hearth_text::builder::{parse_document, ParsedDocument};
use hearth_text::display::{streaming_display_content, TextViewFormat};
use hearth_text::document::MarkdownOptions;
use hearth_text::mender::PENDING_LINK_URL;
use hearth_text::theme::MarkdownStyleProfile;

fn options() -> MarkdownOptions {
    MarkdownOptions {
        parse_links_only: false,
        parse_html: false,
        render_mermaid_diagrams: false,
        parse_heading_slugs: false,
        render_metadata_blocks: false,
    }
}

fn canonical(source: &str) -> ParsedDocument {
    parse_document(source, 0, options(), MarkdownStyleProfile::Agent).unwrap()
}

fn display(source: &str) -> ParsedDocument {
    streaming_display_content(
        TextViewFormat::Markdown,
        canonical(source),
        source,
        options(),
        MarkdownStyleProfile::Agent,
    )
}

fn same(a: &ParsedDocument, b: &ParsedDocument) -> bool {
    format!("{a:?}") == format!("{b:?}")
}

#[test]
fn streaming_display_mends_inline_tail_without_changing_canonical_source() {
    let display = display("**bold");
    let BlockNode::Paragraph(paragraph) = &display.blocks[0] else {
        panic!("expected paragraph");
    };
    assert!(paragraph.children[0].marks[0].1.bold);
    assert_eq!(display.source, "**bold");
    assert!(!same(&display, &canonical("**bold")));
}

#[test]
fn streaming_display_styles_pending_link_but_keeps_it_noncanonical() {
    let source = "[docs](https://exa";
    let display = display(source);
    let BlockNode::Paragraph(paragraph) = &display.blocks[0] else {
        panic!("expected paragraph");
    };
    let pending = paragraph.children[0].marks[0]
        .1
        .link
        .as_ref()
        .expect("pending link should retain link semantics");
    assert_eq!(pending.url, PENDING_LINK_URL);
    assert_eq!(display.source, source);
    assert!(display.blocks[0].span().is_some_and(|span| span.end <= source.len()));
}

#[test]
fn streaming_display_keeps_incomplete_images_as_literal_text() {
    let source = "![alt](https://exa";
    let display = display(source);
    let BlockNode::Paragraph(paragraph) = &display.blocks[0] else {
        panic!("expected literal image syntax to remain a paragraph");
    };
    assert!(paragraph.children.iter().all(|child| child.image.is_none()));
    assert!(same(&display, &canonical(source)));
    assert!(display.text().contains(source));
}

#[test]
fn streaming_display_removes_only_the_synthetic_setext_guard() {
    let source = "heading\n---";
    let display = display(source);
    assert!(matches!(display.blocks[0], BlockNode::Paragraph(_)));
    assert_eq!(display.text(), "heading\n—\n");
    assert!(!display.text().contains('\u{200B}'));
    assert_eq!(display.source, source);

    let user_source = "heading\n---\u{200B}";
    assert!(canonical(user_source).text().contains('\u{200B}'));
}

#[test]
fn streaming_display_does_not_mend_code_blocks() {
    let source = "```rust\nlet value = **raw";
    let display = display(source);
    assert!(same(&display, &canonical(source)));
}

#[test]
fn html_views_are_shown_as_parsed() {
    let source = "**bold";
    let display = streaming_display_content(
        TextViewFormat::Html,
        canonical(source),
        source,
        options(),
        MarkdownStyleProfile::Agent,
    );
    assert!(same(&display, &canonical(source)));
}

#[test]
fn earlier_blocks_stay_and_the_mended_tail_keeps_absolute_spans() {
    let source = "# Title\n\nsome *emph";
    let display = display(source);
    assert_eq!(display.blocks.len(), 2);
    assert!(matches!(display.blocks[0], BlockNode::Heading { .. }));
    let BlockNode::Paragraph(paragraph) = &display.blocks[1] else {
        panic!("expected paragraph");
    };
    assert!(paragraph.children.iter().any(|node| node.text == "emph"
        && node.marks.iter().any(|(_, mark)| mark.italic)));
    let span = paragraph.span.expect("tail span");
    assert_eq!(span.start, 9);
    assert!(span.end <= source.len());
}
