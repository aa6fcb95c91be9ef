use hearth_text::document::{MarkdownOptions, ParsedBlock, ParsedCodeBlock};
use hearth_text::inline_flow::InlineImageSizing;
use hearth_text::parse::{image_sizing_for_block, parse_markdown};
use hearth_text::renderer::{code_block_display_text, CalloutKind, CellAlign, ParsedTextBlock, TextBlockKind};
use hearth_text::source_map::task_marker_at;

fn block_texts(blocks: &[ParsedBlock]) -> Vec<String> {
    blocks
        .iter()
        .filter_map(|block| match block {
            ParsedBlock::Text(block) => Some(
                block
                    .segments
                    .iter()
                    .map(|segment| segment.text.as_str())
                    .collect::<String>(),
            ),
            _ => None,
        })
        .collect()
}

#[test]
fn parser_preserves_ordered_start_callout_and_code_info() {
    let parsed = parse_markdown(
        "3. third\n4. fourth\n\n> [!WARNING]\n> careful\n\n```rust src/main.rs\nfn main() {}\n```",
        MarkdownOptions::default(),
    );

    let list_text = block_texts(&parsed.blocks).join("\n");
    assert!(list_text.contains("3. third"));
    assert!(list_text.contains("4. fourth"));
    assert!(parsed.blocks.iter().any(|block| matches!(
        block,
        ParsedBlock::Text(ParsedTextBlock {
            kind: TextBlockKind::BlockQuote(Some(CalloutKind::Warning)),
            ..
        })
    )));
    assert!(parsed.blocks.iter().any(|block| matches!(
        block,
        ParsedBlock::Code(ParsedCodeBlock { language: Some(language), info: Some(info), .. })
            if language.as_str() == "rust" && info.as_str() == "rust src/main.rs"
    )));
}

#[test]
fn code_block_display_trims_one_terminal_newline_without_changing_copy_source() {
    let parsed = parse_markdown("```rust\nlet value = 1;\n\n```", MarkdownOptions::default());
    let ParsedBlock::Code(block) = &parsed.blocks[0] else {
        panic!("expected code block");
    };

    assert_eq!(block.code.as_str(), "let value = 1;\n\n");
    assert_eq!(block.display_code.as_str(), "let value = 1;\n");
    assert_eq!(code_block_display_text("plain").as_str(), "plain");
    assert_eq!(code_block_display_text("two\n\n").as_str(), "two\n");
}

#[test]
fn parser_keeps_source_mapping_on_unicode_and_hidden_delimiters() {
    let source = "A **粗体** and `code`";
    let parsed = parse_markdown(source, MarkdownOptions::default());
    let ParsedBlock::Text(block) = &parsed.blocks[0] else {
        panic!("expected text block");
    };
    assert!(block.segments.iter().any(|segment| {
        segment.text.as_str() == "粗体" && segment.flags.strong && &source[segment.source.clone()] == "粗体"
    }));
    assert!(block.segments.iter().any(|segment| {
        segment.text.as_str() == "code"
            && segment.flags.code
            && source[segment.source.clone()].contains("`code`")
    }));
}

#[test]
fn parser_indexes_duplicate_headings_and_footnotes() {
    let parsed = parse_markdown(
        "# Same\n\n# Same\n\nref[^a]\n\n[^a]: definition",
        MarkdownOptions { parse_heading_slugs: true, ..Default::default() },
    );
    assert!(parsed.heading_start("same").is_some());
    assert!(parsed.heading_start("same-1").is_some());
    assert!(parsed.footnote_start("a").is_some());
}

#[test]
fn every_streaming_prefix_is_parseable_and_preserves_canonical_source() {
    let source = "# 标题\n\nIncomplete **strong**, `code`, [link](https://example.com), and ![图](asset.svg)";
    for end in (0..=source.len()).filter(|end| source.is_char_boundary(*end)) {
        let prefix = &source[..end];
        let parsed = parse_markdown(prefix, MarkdownOptions::default());
        assert_eq!(parsed.source.as_str(), prefix);
    }
}

#[test]
fn links_only_uses_plain_source_ranges() {
    let source = "before https://example.com/path after";
    let parsed = parse_markdown(source, MarkdownOptions { parse_links_only: true, ..Default::default() });
    let ParsedBlock::Text(block) = &parsed.blocks[0] else {
        panic!("expected one links-only text block");
    };
    assert_eq!(block.links.len(), 1);
    assert_eq!(&source[block.links[0].source.clone()], "https://example.com/path");
}

#[test]
fn parser_retains_image_and_task_source_ranges() {
    let source = "- [x] done\n\n![alt text](asset.svg \"Title\")";
    let parsed = parse_markdown(source, MarkdownOptions::default());
    assert!(parsed.blocks.iter().any(|block| matches!(
        block,
        ParsedBlock::Text(ParsedTextBlock { images, .. })
            if images.iter().any(|image| image.destination.as_str() == "asset.svg"
                && image.alt.as_str() == "alt text")
    )));
    let marker = source.find("[x]").expect("task marker");
    assert_eq!(task_marker_at(source, marker + 1), Some((marker..marker + 3, true)));
}

#[test]
fn image_sizing_distinguishes_standalone_and_mixed_paragraphs() {
    let standalone = parse_markdown("![large](image.png)", MarkdownOptions::default());
    let mixed = parse_markdown("before ![badge](badge.svg) after", MarkdownOptions::default());
    let ParsedBlock::Text(standalone) = &standalone.blocks[0] else {
        panic!("expected standalone image paragraph");
    };
    let ParsedBlock::Text(mixed) = &mixed.blocks[0] else {
        panic!("expected mixed image paragraph");
    };

    assert_eq!(image_sizing_for_block(standalone), InlineImageSizing::Intrinsic);
    assert_eq!(image_sizing_for_block(mixed), InlineImageSizing::Compact);
}

#[test]
fn soft_break_keeps_render_policy_out_of_the_parser() {
    let parsed = parse_markdown("first\nsecond", MarkdownOptions::default());
    let ParsedBlock::Text(block) = &parsed.blocks[0] else {
        panic!("expected paragraph");
    };
    assert!(block.segments.iter().any(|segment| segment.flags.soft_break));
}

#[test]
fn disabled_html_parsing_keeps_literal_source() {
    let parsed = parse_markdown("<p>literal</p>", MarkdownOptions::default());
    let visible = block_texts(&parsed.blocks).concat();
    assert_eq!(visible, "<p>literal</p>");
}

#[test]
fn markdown_table_preserves_grid_headers_and_alignment() {
    let parsed = parse_markdown(
        "| Header 1 | Centered | Align Right |\n| --- | :---: | ---: |\n| Cell 1 | Cell 2 | Cell 3 |",
        MarkdownOptions::default(),
    );
    let ParsedBlock::HtmlTable(table) = &parsed.blocks[0] else {
        panic!("expected structured table");
    };
    assert_eq!(table.rows.len(), 2);
    assert_eq!(table.rows[0].cells.len(), 3);
    assert!(table.rows[0].cells.iter().all(|cell| cell.is_header));
    assert_eq!(table.rows[0].cells[1].alignment, CellAlign::Center);
    assert_eq!(table.rows[0].cells[2].alignment, CellAlign::Right);
    assert_eq!(table.rows[1].cells[1].alignment, CellAlign::Center);
}

#[test]
fn root_block_starts_follow_the_blocks() {
    let source = "# Title\n\nText\n\n---\n\n```\ncode\n```\n\n| a |\n| - |\n| b |";
    let parsed = parse_markdown(source, MarkdownOptions::default());
    assert_eq!(parsed.blocks.len(), 5);
    assert_eq!(parsed.root_block_starts, vec![0, 9, 15, 20, 34]);
    assert!(matches!(parsed.blocks[2], ParsedBlock::Rule(ref range) if range.start == 15));
}

#[test]
fn ordered_lists_number_their_items() {
    let parsed = parse_markdown("7. seven\n8. eight\n\n- inner", MarkdownOptions::default());
    let texts = block_texts(&parsed.blocks);
    assert_eq!(texts, vec!["7. seven", "8. eight", "• inner"]);
    assert!(matches!(
        parsed.blocks[2],
        ParsedBlock::Text(ParsedTextBlock { kind: TextBlockKind::ListItem { depth: 1 }, .. })
    ));
}

#[test]
fn code_block_info_names_language_and_path() {
    let parsed = parse_markdown("```  rust  --x dir\\file.rs tail\nx\n```", MarkdownOptions::default());
    let ParsedBlock::Code(block) = &parsed.blocks[0] else {
        panic!("expected code block");
    };
    assert_eq!(block.language.as_deref(), Some("rust"));
    assert_eq!(block.source_path.as_deref(), Some("dir\\file.rs"));
    assert!(!block.mermaid);
    let parsed = parse_markdown(
        "```mermaid\ngraph TD\n```",
        MarkdownOptions { render_mermaid_diagrams: true, ..Default::default() },
    );
    let ParsedBlock::Code(block) = &parsed.blocks[0] else {
        panic!("expected code block");
    };
    assert!(block.mermaid);
}

#[test]
fn inline_html_tags_style_text_when_html_is_parsed() {
    let parsed = parse_markdown(
        "before <strong>bold</strong> <u>under</u><br> after <custom>",
        MarkdownOptions { parse_html: true, ..Default::default() },
    );
    let ParsedBlock::Text(block) = &parsed.blocks[0] else {
        panic!("expected text block");
    };
    assert!(block.segments.iter().any(|s| s.text == "bold" && s.flags.strong));
    assert!(block.segments.iter().any(|s| s.text == "under" && s.flags.underline));
    assert!(block.segments.iter().any(|s| s.text == "\n"));
    assert!(block.segments.iter().all(|s| !s.text.contains('<')));
}

#[test]
fn repeated_heading_slugs_are_numbered() {
    let parsed = parse_markdown(
        "# Intro Text\n\n## Intro Text\n\n# Other",
        MarkdownOptions { parse_heading_slugs: true, ..Default::default() },
    );
    assert_eq!(parsed.heading_start("intro-text"), Some(0));
    assert_eq!(parsed.heading_start("intro-text-1"), Some(14));
    assert_eq!(parsed.heading_start("other"), Some(29));
    assert_eq!(parsed.heading_start("missing"), None);
    let plain = parse_markdown("# Intro Text", MarkdownOptions::default());
    assert_eq!(plain.heading_start("intro-text"), None);
}

#[test]
fn every_streaming_html_prefix_is_parseable() {
    let source = "<div><p>streaming <strong>HTML</strong></p><img src=\"avatar.png\"></div>";
    for end in (0..=source.len()).filter(|end| source.is_char_boundary(*end)) {
        let prefix = &source[..end];
        let parsed = parse_markdown(
            prefix,
            MarkdownOptions {
                parse_html: true,
                ..Default::default()
            },
        );
        assert_eq!(parsed.source, prefix);
    }
}

#[test]
fn code_block_runs_fill_gaps_with_plain_text() {
    let runs = hearth_text::renderer::code_block_runs(10, &vec![(2..4, 'k'), (3..6, 's'), (8..30, 'c')]);
    assert_eq!(runs, vec![(2, None), (2, Some('k')), (3, Some('s')), (2, None), (2, Some('c'))]);
    assert_eq!(hearth_text::renderer::code_block_runs::<char>(5, &vec![]), vec![(5, None)]);
    assert_eq!(hearth_text::renderer::code_block_runs::<char>(0, &vec![]), vec![(0, None)]);
}

#[test]
fn successive_html_allocations_are_contiguous() {
    let source = "a中bc";
    let mut allocator = hearth_text::renderer::HtmlSourceAllocator::new(source, 0..source.len());
    let first = allocator.allocate(2);
    let second = allocator.allocate(3);
    let third = allocator.allocate(10);
    assert_eq!(first, 0..1);
    assert_eq!(second, 1..4);
    assert_eq!(third, 4..6);
    assert_eq!(allocator.allocate(1), 6..6);
}
