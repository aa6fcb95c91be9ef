use hearth_text::block::BlockNode;
use hearth_text::builder::{parse_document, BuildError, ParsedDocument};
use hearth_text::document::MarkdownOptions;
use hearth_text::outline::MarkdownSourceEventKind;
use hearth_text::renderer::CalloutKind;
use hearth_text::theme::MarkdownStyleProfile;

fn default_options() -> MarkdownOptions {
    MarkdownOptions {
        parse_links_only: false,
        parse_html: false,
        render_mermaid_diagrams: false,
        parse_heading_slugs: false,
        render_metadata_blocks: false,
    }
}

fn parse(source: &str) -> ParsedDocument {
    parse_document(source, 0, default_options(), MarkdownStyleProfile::Agent).unwrap()
}

fn parse_with(source: &str, options: MarkdownOptions) -> ParsedDocument {
    parse_document(source, 0, options, MarkdownStyleProfile::Agent).unwrap()
}

#[test]
fn parses_nested_emphasis_and_plain_urls() {
    let document = parse("This has **_nested_** text and https://example.com.");
    let BlockNode::Paragraph(paragraph) = &document.blocks[0] else {
        panic!("expected paragraph");
    };
    assert!(paragraph.children.iter().any(|node| {
        node.text == "nested" && node.marks.iter().any(|(_, mark)| mark.bold && mark.italic)
    }));
    assert!(paragraph.children.iter().any(|node| {
        node.text == "https://example.com" && node.marks.iter().any(|(_, mark)| mark.link.is_some())
    }));
}

#[test]
fn parses_tables_tasks_and_source_ranges() {
    let source = "- [x] done\n\n| A | B |\n|:-|:-:|\n| 1 | 2 |";
    let document = parse(source);
    assert!(matches!(&document.blocks[0], BlockNode::List { .. }));
    assert!(matches!(&document.blocks[1], BlockNode::Table(_)));
    assert_eq!(document.source, source);
    assert!(!document.events.is_empty());
    assert_eq!(document.root_block_starts, vec![0, 12]);
}

#[test]
fn preserves_ordered_start_callout_kind_and_footnote_targets() {
    let source = "7. seven\n8. eight\n\n> [!WARNING]\n> Careful\n\nref[^a]\n\n[^a]: note";
    let document = parse(source);

    let BlockNode::List { start, .. } = &document.blocks[0] else {
        panic!("expected ordered list");
    };
    assert_eq!(*start, Some(7));
    assert!(matches!(
        &document.blocks[1],
        BlockNode::Blockquote {
            kind: Some(CalloutKind::Warning),
            ..
        }
    ));
    assert!(document.footnote_start("a").is_some());
    assert!(document.events.iter().any(|event| {
        event.kind == MarkdownSourceEventKind::FootnoteReference && &source[event.range.clone()] == "[^a]"
    }));
}

#[test]
fn parser_options_gate_html_metadata_and_mermaid() {
    let html = parse("<b>bold</b>");
    assert!(html.text().contains("<b>bold</b>"));

    let enabled = MarkdownOptions {
        parse_html: true,
        render_metadata_blocks: true,
        render_mermaid_diagrams: true,
        ..default_options()
    };
    let parsed = parse_with("---\ntitle: Test\n---\n\n<b>bold</b>", enabled);
    assert!(matches!(&parsed.blocks[0], BlockNode::CodeBlock(_)));
    assert!(parsed.text().contains("bold"));
}

#[test]
fn parses_unclosed_fence_for_streaming_display() {
    let document = parse("```rust\nfn main() {}");
    let BlockNode::CodeBlock(code) = &document.blocks[0] else {
        panic!("expected code block");
    };
    assert_eq!(code.lang().as_deref(), Some("rust"));
    assert_eq!(code.code(), "fn main() {}");
}

#[test]
fn keeps_definition_list_syntax_literal_like_zed() {
    let document = parse("Term\n: Definition");

    assert_eq!(document.text(), "Term\n: Definition\n");
}

#[test]
fn editor_profile_turns_soft_breaks_into_spaces() {
    let document = parse_document("one\ntwo", 0, default_options(), MarkdownStyleProfile::Editor).unwrap();
    assert_eq!(document.text(), "one two\n");
}

#[test]
fn spans_and_events_are_offset_by_the_document_position() {
    let document = parse_document("# Title", 100, default_options(), MarkdownStyleProfile::Agent).unwrap();
    assert_eq!(document.root_block_starts, vec![100]);
    assert!(document.events.iter().all(|event| event.range.start >= 100));
    let BlockNode::Heading { level, span, .. } = &document.blocks[0] else {
        panic!("expected heading");
    };
    assert_eq!(*level, 1);
    assert_eq!(span.map(|span| (span.start, span.end)), Some((100, 107)));
}

#[test]
fn duplicate_heading_slugs_are_numbered_and_point_at_their_text() {
    let options = MarkdownOptions {
        parse_heading_slugs: true,
        ..default_options()
    };
    let source = "# Intro\n\n## Intro\n\n# Other Part";
    let document = parse_with(source, options);
    assert_eq!(document.heading_start("intro"), Some(2));
    assert_eq!(document.heading_start("intro-1"), Some(12));
    assert_eq!(document.heading_start("other-part"), Some(21));
    assert_eq!(document.heading_start("missing"), None);
}

#[test]
fn footnote_definition_becomes_an_italic_labelled_paragraph() {
    let document = parse("ref[^n]\n\n[^n]: the note");
    assert_eq!(document.footnote_start("n"), Some(9));
    let text = document.text();
    assert!(text.contains("ref[n]"));
    assert!(text.contains("[n]: the note"));
    let reference = document.blocks.iter().find_map(|block| match block {
        BlockNode::Paragraph(paragraph) => paragraph.children.iter().find(|node| node.text == "[n]"),
        _ => None,
    });
    let reference = reference.expect("footnote reference node");
    let mark = &reference.marks[0].1;
    assert!(mark.italic && mark.footnote_reference);
    assert_eq!(mark.link.as_ref().map(|link| link.url.as_str()), Some("#fn-n"));
}

#[test]
fn links_only_marks_urls_and_keeps_other_text_plain() {
    let options = MarkdownOptions {
        parse_links_only: true,
        ..default_options()
    };
    let document = parse_document("see https://a.example now", 5, options, MarkdownStyleProfile::Agent).unwrap();
    assert!(document.events.is_empty());
    let BlockNode::Paragraph(paragraph) = &document.blocks[0] else {
        panic!("expected paragraph");
    };
    let texts: Vec<&str> = paragraph.children.iter().map(|node| node.text.as_str()).collect();
    assert_eq!(texts, vec!["see ", "https://a.example", " now"]);
    assert!(paragraph.children[0].marks.is_empty());
    assert_eq!(
        paragraph.children[1].marks[0].1.link.as_ref().map(|link| link.url.as_str()),
        Some("https://a.example")
    );
    assert_eq!(paragraph.span.map(|span| (span.start, span.end)), Some((5, 30)));
}

#[test]
fn positions_past_the_end_of_memory_are_refused() {
    let result = parse_document("text", usize::MAX - 1, default_options(), MarkdownStyleProfile::Agent);
    assert!(matches!(result, Err(BuildError::PositionOverflow)));
}

#[test]
fn task_items_record_their_checked_state() {
    let document = parse("- [x] done\n- [ ] open\n- plain");
    let BlockNode::List { children, .. } = &document.blocks[0] else {
        panic!("expected list");
    };
    let checked: Vec<Option<bool>> = children
        .iter()
        .map(|item| match item {
            BlockNode::ListItem { checked, .. } => *checked,
            _ => panic!("expected list item"),
        })
        .collect();
    assert_eq!(checked, vec![Some(true), Some(false), None]);
}

#[test]
fn metadata_blocks_become_yaml_code() {
    let options = MarkdownOptions {
        render_metadata_blocks: true,
        ..default_options()
    };
    let document = parse_with("---\ntitle: Test\n---\n", options);
    let BlockNode::CodeBlock(code) = &document.blocks[0] else {
        panic!("expected code block");
    };
    assert_eq!(code.lang().as_deref(), Some("yaml"));
    assert_eq!(code.code(), "title: Test\n");
}

#[test]
fn every_stream_prefix_parses() {
    let source = "# Title\n\n- [x] done\n\n| a | b |\n| - | - |\n| 1 | 2 |\n\n```rust\nfn main() {}\n```\n\n> [!NOTE]\n> body";
    for end in (0..=source.len()).filter(|end| source.is_char_boundary(*end)) {
        let prefix = &source[..end];
        let document = parse_document(prefix, 0, default_options(), MarkdownStyleProfile::Agent)
            .expect("a prefix parses");
        assert_eq!(document.source, prefix);
    }
}
