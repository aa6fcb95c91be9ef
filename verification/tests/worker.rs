use hearth_text::block::BlockNode;
use hearth_text::worker::{
    empty_content, parse_content, ParsedContent, UpdateKind, UpdateOptions, UpdateWorker,
};

fn update(revision: usize, epoch: usize, text: &str, kind: UpdateKind) -> UpdateOptions {
    UpdateOptions {
        revision,
        epoch,
        pending_text: text.to_string(),
        kind,
        seed_content: None,
    }
}

fn same(a: &ParsedContent, b: &ParsedContent) -> bool {
    format!("{:?}", a.document) == format!("{:?}", b.document)
}

#[test]
fn update_options_merge_keeps_latest_full_text() {
    let mut options = update(1, 1, "old", UpdateKind::Append);
    options.merge(update(2, 2, "new", UpdateKind::Replace));
    options.merge(update(3, 2, " text", UpdateKind::Append));

    assert_eq!(options.revision, 3);
    assert_eq!(options.pending_text, "new text");
    assert_eq!(options.kind, UpdateKind::Replace);
}

#[test]
fn appended_reference_definitions_match_a_canonical_parse() {
    let initial = parse_content(empty_content(), "Read [the docs].").unwrap();
    let streamed = parse_content(initial, "Read [the docs].\n\n[the docs]: https://example.com").unwrap();
    let canonical = parse_content(empty_content(), "Read [the docs].\n\n[the docs]: https://example.com").unwrap();

    assert!(same(&streamed, &canonical));
}

#[test]
fn appending_a_reference_use_after_a_definition_matches_canonical_parse() {
    let initial_source = "[docs]: https://example.com\n\nStart";
    let initial = parse_content(empty_content(), initial_source).unwrap();
    let complete = format!("{initial_source} [docs]");
    let streamed = parse_content(initial, &complete).unwrap();
    let canonical = parse_content(empty_content(), &complete).unwrap();

    assert!(same(&streamed, &canonical));
}

#[test]
fn plain_text_after_reference_definitions_remains_incremental() {
    let initial_source = "[docs]: https://example.com\n\n# Stable\n\nTail";
    let initial = parse_content(empty_content(), initial_source).unwrap();
    let stable = format!("{:?}", initial.document.blocks[0]);
    let complete = format!("{initial_source} text");
    let streamed = parse_content(initial, &complete).unwrap();
    let canonical = parse_content(empty_content(), &complete).unwrap();

    assert_eq!(stable, format!("{:?}", streamed.document.blocks[0]));
    assert!(same(&streamed, &canonical));
}

#[test]
fn arbitrary_utf8_stream_chunks_match_a_canonical_parse() {
    let source = "# 标题\n\nA **strong** [link][docs].\n\n- [x] done\n- pending\n\n```rust\nlet value = 1;\n```\n\n| A | B |\n| - | - |\n| 1 | 2 |\n\n[docs]: https://example.com";
    let mut streamed = empty_content();
    let mut streamed_source = String::new();

    for (start, ch) in source.char_indices() {
        streamed_source.push_str(&source[start..start + ch.len_utf8()]);
        streamed = parse_content(streamed, &streamed_source).unwrap();
    }

    let canonical = parse_content(empty_content(), source).unwrap();
    assert!(same(&streamed, &canonical));
}

#[test]
fn worker_appends_show_the_mended_tail_and_keep_a_canonical_baseline() {
    let mut worker = UpdateWorker::new();
    let first = worker.parse_update(&update(1, 1, "# Title\n\n", UpdateKind::Replace)).unwrap();
    assert!(matches!(first.document.blocks[0], BlockNode::Heading { .. }));
    assert_eq!(worker.source, "# Title\n\n");

    let shown = worker.parse_update(&update(2, 1, "**bold", UpdateKind::Append)).unwrap();
    assert_eq!(worker.source, "# Title\n\n**bold");
    let BlockNode::Paragraph(paragraph) = &shown.document.blocks[1] else {
        panic!("expected paragraph");
    };
    assert!(paragraph.children[0].marks[0].1.bold);
    let BlockNode::Paragraph(baseline) = &worker.content.document.blocks[1] else {
        panic!("expected paragraph");
    };
    assert!(!baseline.children[0].marks.iter().any(|(_, mark)| mark.bold));
}

#[test]
fn a_new_epoch_starts_from_an_empty_source() {
    let mut worker = UpdateWorker::new();
    worker.parse_update(&update(1, 1, "old", UpdateKind::Replace)).unwrap();
    worker.parse_update(&update(2, 2, "new", UpdateKind::Append)).unwrap();
    assert_eq!(worker.epoch, 2);
    assert_eq!(worker.source, "new");
}

#[test]
fn seeding_resets_the_baseline() {
    let mut worker = UpdateWorker::new();
    worker.parse_update(&update(1, 1, "old", UpdateKind::Replace)).unwrap();
    let seed = parse_content(empty_content(), "seeded").unwrap();
    worker.seed(UpdateOptions {
        revision: 2,
        epoch: 3,
        pending_text: "seeded".to_string(),
        kind: UpdateKind::Seed,
        seed_content: Some(seed),
    });
    assert_eq!(worker.epoch, 3);
    assert_eq!(worker.source, "seeded");
    assert_eq!(worker.content.document.source, "seeded");
}
