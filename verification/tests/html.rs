use hearth_text::block::{BlockNode, ColumnumnAlign, Paragraph, Table, TableCell, TableRow};
use hearth_text::document::{HtmlImage, MarkdownOptions, ParsedBlock, ParsedHtml};
use hearth_text::node::{mapped_search_ranges, ImageNode, InlineNode, LinkMark, TextMark};
use hearth_text::parse::parse_markdown_with_html;
use hearth_text::renderer::{CellAlign, ParsedTextBlock, TextBlockKind};

fn html_options() -> MarkdownOptions {
    MarkdownOptions { parse_html: true, ..Default::default() }
}

fn text(text: &str, marks: Vec<(std::ops::Range<usize>, TextMark)>) -> InlineNode {
    InlineNode { text: text.to_string(), image: None, marks, source_range: None }
}

fn paragraph(nodes: Vec<InlineNode>) -> BlockNode {
    BlockNode::Paragraph(Paragraph { span: None, children: nodes })
}

fn item(children: Vec<BlockNode>) -> BlockNode {
    BlockNode::ListItem { children, spread: false, checked: None, span: None }
}

/// The HTML trees that the HTML parser gives for whole blocks.
fn block_trees(entries: Vec<(&str, Vec<BlockNode>)>) -> ParsedHtml {
    ParsedHtml {
        blocks: entries.into_iter().map(|(html, nodes)| (html.to_string(), nodes)).collect(),
        images: Vec::new(),
        links: Vec::new(),
    }
}

fn html_text_blocks(block: &ParsedBlock) -> Vec<&ParsedTextBlock> {
    let ParsedBlock::Html(html) = block else {
        panic!("expected HTML block");
    };
    html.blocks
        .iter()
        .filter_map(|block| match block {
            ParsedBlock::Text(block) => Some(block),
            _ => None,
        })
        .collect()
}

fn visible(blocks: &[&ParsedTextBlock]) -> String {
    blocks.iter().flat_map(|block| &block.segments).map(|segment| segment.text.as_str()).collect()
}

#[test]
fn html_block_uses_semantic_text_instead_of_literal_tags() {
    let source = r#"<div>
            Here is a test in div.
            <p>A <a href="https://example.com">link</a>, <strong>bold</strong>, <em>italic</em>, and <code>code</code>.</p>
        </div>"#;
    let link = TextMark { link: Some(LinkMark { url: "https://example.com".into(), ..Default::default() }), ..Default::default() };
    let tree = vec![BlockNode::Root {
        children: vec![
            paragraph(vec![text("Here is a test in div.", vec![])]),
            paragraph(vec![text(
                "A link, bold, italic, and code.",
                vec![
                    (2..6, link),
                    (8..12, TextMark::default().bold()),
                    (14..20, TextMark::default().italic()),
                    (26..30, TextMark::default().code()),
                ],
            )]),
        ],
        span: None,
    }];
    let parsed = parse_markdown_with_html(source, html_options(), &block_trees(vec![(source, tree)]));
    let text_blocks = html_text_blocks(&parsed.blocks[0]);
    let visible = visible(&text_blocks);
    assert!(visible.contains("Here is a test in div."));
    assert!(visible.contains("A link, bold, italic, and code."));
    assert!(!visible.contains("<div>"));
    let segments: Vec<_> = text_blocks.iter().flat_map(|block| &block.segments).collect();
    assert!(segments.iter().any(|segment| segment.text == "bold" && segment.flags.strong));
    assert!(segments.iter().any(|segment| segment.text == "italic" && segment.flags.emphasis));
    assert!(segments.iter().any(|segment| segment.text == "code" && segment.flags.code));
    assert!(text_blocks.iter().flat_map(|block| &block.links).any(|link| link.destination == "https://example.com"));
}

#[test]
fn html_omits_non_renderable_content() {
    let source = "<div>safe<script>alert('x')</script><iframe>hidden</iframe></div>";
    let tree = vec![BlockNode::Root { children: vec![paragraph(vec![text("safe", vec![])])], span: None }];
    let parsed = parse_markdown_with_html(source, html_options(), &block_trees(vec![(source, tree)]));
    assert_eq!(visible(&html_text_blocks(&parsed.blocks[0])), "safe");
}

#[test]
fn html_lists_and_images_use_existing_markdown_semantics() {
    let source = r#"<ol start="3"><li>third</li><li>fourth<ul><li>nested</li></ul></li></ol><img src="avatar.png" alt="Avatar" width="32" height="32">"#;
    let nested = BlockNode::List {
        children: vec![item(vec![paragraph(vec![text("nested", vec![])])])],
        ordered: false,
        start: None,
        span: None,
    };
    let list = BlockNode::List {
        children: vec![
            item(vec![paragraph(vec![text("third", vec![])])]),
            item(vec![paragraph(vec![text("fourth", vec![])]), nested]),
        ],
        ordered: true,
        start: Some(3),
        span: None,
    };
    let image = InlineNode::image(ImageNode {
        url: "avatar.png".into(),
        link: None,
        title: None,
        alt: Some("Avatar".into()),
    });
    let tree = vec![list, BlockNode::Paragraph(Paragraph { span: None, children: vec![image] })];
    let parsed = parse_markdown_with_html(source, html_options(), &block_trees(vec![(source, tree)]));
    let text_blocks = html_text_blocks(&parsed.blocks[0]);
    let visible = visible(&text_blocks);
    assert!(visible.contains("3. third"));
    assert!(visible.contains("4. fourth"));
    assert!(visible.contains("• nested"));
    assert!(text_blocks.iter().any(|block| matches!(block.kind, TextBlockKind::ListItem { depth: 2 })));
    assert!(text_blocks.iter().flat_map(|block| &block.images).any(|image| image.destination == "avatar.png"));
}

#[test]
fn html_table_preserves_spans_headers_and_alignment() {
    let source = r#"<table><thead><tr><th colspan="2">Header</th></tr></thead><tbody><tr><td rowspan="2">A</td><td align="right">B</td></tr><tr><td>C</td></tr></tbody></table>"#;
    let cell = |content: &str, col_span: usize, row_span: usize, is_header: bool, alignment: ColumnumnAlign| TableCell {
        children: Paragraph { span: None, children: vec![text(content, vec![])] },
        col_span,
        row_span,
        is_header,
        alignment,
    };
    let table = Table {
        children: vec![
            TableRow { children: vec![cell("Header", 2, 1, true, ColumnumnAlign::Left)] },
            TableRow {
                children: vec![cell("A", 1, 2, false, ColumnumnAlign::Left), cell("B", 1, 1, false, ColumnumnAlign::Right)],
            },
            TableRow { children: vec![cell("C", 1, 1, false, ColumnumnAlign::Left)] },
        ],
        column_aligns: vec![],
        span: None,
    };
    let parsed = parse_markdown_with_html(source, html_options(), &block_trees(vec![(source, vec![BlockNode::Table(table)])]));
    let ParsedBlock::Html(html) = &parsed.blocks[0] else {
        panic!("expected HTML block");
    };
    let table = html
        .blocks
        .iter()
        .find_map(|block| match block {
            ParsedBlock::HtmlTable(table) => Some(table),
            _ => None,
        })
        .expect("expected structured HTML table");
    assert_eq!(table.rows.len(), 3);
    assert!(table.rows[0].cells[0].is_header);
    assert_eq!(table.rows[0].cells[0].col_span, 2);
    assert_eq!(table.rows[1].cells[0].row_span, 2);
    assert_eq!(table.rows[1].cells[1].alignment, CellAlign::Right);
}

#[test]
fn html_block_without_a_parsed_tree_stays_literal() {
    let source = "<div>raw</div>";
    let parsed = parse_markdown_with_html(source, html_options(), &block_trees(vec![]));
    let ParsedBlock::Text(block) = &parsed.blocks[0] else {
        panic!("expected literal HTML text");
    };
    assert_eq!(block.kind, TextBlockKind::Html);
    assert_eq!(block.segments[0].text, source);
}

#[test]
fn inline_html_styles_merge_into_the_markdown_text_block() {
    let source = "before <strong>bold</strong> and <a href=\"https://example.com\">link</a> after";
    let html = ParsedHtml {
        blocks: Vec::new(),
        images: Vec::new(),
        links: vec![("<a href=\"https://example.com\">".to_string(), "https://example.com".to_string())],
    };
    let parsed = parse_markdown_with_html(source, html_options(), &html);
    let ParsedBlock::Text(block) = &parsed.blocks[0] else {
        panic!("expected text block");
    };
    assert!(block.segments.iter().any(|segment| segment.text == "bold" && segment.flags.strong));
    assert!(block.links.iter().any(|link| link.destination == "https://example.com"));
    assert!(block.segments.iter().all(|segment| !segment.text.contains('<')));
}

#[test]
fn parser_keeps_markdown_and_html_images_inside_their_paragraph() {
    let tag = "<img src=\"avatar.png\" alt=\"avatar\" width=\"32\" height=\"24\" />";
    let source = format!("Build [![status](badge.svg)](https://example.com) with {tag} inline.");
    let html = ParsedHtml {
        blocks: Vec::new(),
        images: vec![(
            tag.to_string(),
            HtmlImage { url: "avatar.png".into(), title: String::new(), alt: "avatar".into() },
        )],
        links: Vec::new(),
    };
    let parsed = parse_markdown_with_html(&source, html_options(), &html);
    assert_eq!(parsed.blocks.len(), 1);
    let ParsedBlock::Text(block) = &parsed.blocks[0] else {
        panic!("expected one inline paragraph");
    };
    assert_eq!(block.images.len(), 2);
    assert_eq!(block.images[0].destination, "badge.svg");
    assert_eq!(block.images[1].destination, "avatar.png");
    assert_eq!(block.images[1].alt, "avatar");
    assert!(block.links.iter().any(|link| {
        link.destination == "https://example.com"
            && link.source.start <= block.images[0].source.start
            && link.source.end >= block.images[0].source.end
    }));
}

#[test]
fn source_search_ranges_map_to_rendered_inline_offsets() {
    let inline_node = InlineNode { text: "value".into(), image: None, marks: vec![], source_range: Some(10..15) };
    assert_eq!(mapped_search_ranges(&inline_node, &vec![12..14, 20..24], Some(0)), vec![(2..4, true)]);
}
