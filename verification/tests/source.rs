use hearth_text::inline_flow::{hard_line_ranges, slice_links, slice_ranges, InlineLink, MeasureItem};
use hearth_text::links::links_only_block;
use hearth_text::node::LinkMark;
use hearth_text::search::lowercase_with_source_ranges;
use hearth_text::source_map::{source_line_column, source_line_range, task_marker_at};

#[test]
fn source_line_range_handles_unicode_boundaries() {
    let source = "alpha\n中文 line\nomega";
    assert_eq!(source_line_range(source, 8), 6..17);
}

#[test]
fn lowercase_search_mapping_preserves_expanding_unicode_ranges() {
    let source = "İstanbul 中文";
    let (folded, ranges) = lowercase_with_source_ranges(source);
    let found = folded.find("i\u{307}").expect("expanded lowercase");
    assert_eq!(ranges[found].start..ranges[found + 2].end, 0..2);
}

#[test]
fn wrapped_link_fragments_preserve_the_same_hover_identity() {
    let links = vec![InlineLink {
        id: 7,
        range: 2..12,
        mark: LinkMark {
            url: "https://example.com".into(),
            ..Default::default()
        },
    }];

    let first = slice_links(&links, 0, 6);
    let second = slice_links(&links, 6, 14);

    assert_eq!(first[0].id, 7);
    assert_eq!(first[0].range, 2..6);
    assert_eq!(second[0].id, 7);
    assert_eq!(second[0].range, 0..6);
}

#[test]
fn hard_line_ranges_exclude_newlines_and_preserve_empty_lines() {
    let items = vec![MeasureItem::Text {
        text: "first\n\nsecond".into(),
        links: vec![],
    }];

    assert_eq!(hard_line_ranges(&items), vec![0..5, 6..6, 7..13]);
}

#[test]
fn links_only_block_marks_urls_as_links() {
    let source = "before https://example.com/path after";
    let block = links_only_block(source);
    assert_eq!(block.links.len(), 1);
    assert_eq!(
        &source[block.links[0].source.clone()],
        "https://example.com/path"
    );
}

#[test]
fn source_line_column_counts_lines_and_characters() {
    let source = "alpha\n中文 line\nomega";
    assert_eq!(source_line_column(source, 0), (0, 0));
    assert_eq!(source_line_column(source, 9), (1, 1));
    assert_eq!(source_line_column(source, 18), (2, 0));
    assert_eq!(source_line_column(source, 100), (2, 5));
}

#[test]
fn task_marker_at_finds_the_touched_marker() {
    let source = "- [x] done\n- [ ] todo";
    assert_eq!(task_marker_at(source, 3), Some((2..5, true)));
    assert_eq!(task_marker_at(source, 5), Some((2..5, true)));
    assert_eq!(task_marker_at(source, 14), Some((13..16, false)));
    assert_eq!(task_marker_at(source, 8), None);
}

#[test]
fn slice_ranges_clips_and_maps_in_order() {
    assert_eq!(slice_ranges(&vec![(2..12, 'a')], 6, 14, |r, v| (r, *v)), vec![(0..6, 'a')]);
    let ranges = vec![(0..3, 1u32), (4..9, 2), (12..20, 3)];
    assert_eq!(slice_ranges(&ranges, 2, 10, |r, v| (r.len(), *v * 10)), vec![(1, 10), (5, 20)]);
}
