use hearth_text::document::MarkdownOptions;
use hearth_text::markdown_doc::{Markdown, MarkdownAction};
use hearth_text::parse::parse_markdown;

/// Runs every parse the document asks for until none is left, as a host
/// with a background executor would.
fn run_until_parked(markdown: &mut Markdown, actions: &mut Vec<MarkdownAction>) -> usize {
    let mut notifications = 0;
    while !actions.is_empty() {
        let action = actions.remove(0);
        match action {
            MarkdownAction::SpawnParse { source, options, revision } => {
                let parsed = parse_markdown(&source, options);
                markdown.parse_finished(revision, parsed, actions);
            }
            MarkdownAction::Notify => notifications += 1,
        }
    }
    notifications
}

#[test]
fn coalesced_streaming_appends_publish_the_latest_canonical_source() {
    let mut actions = Vec::new();
    let mut markdown = Markdown::new("base", &mut actions);
    markdown.append(" one", &mut actions);
    markdown.append(" two", &mut actions);
    markdown.append(" 三", &mut actions);
    assert_eq!(actions.len(), 1, "appends coalesce behind the running parse");
    run_until_parked(&mut markdown, &mut actions);

    assert_eq!(markdown.source(), "base one two 三");
    assert_eq!(markdown.parsed.source, "base one two 三");
    assert!(!markdown.is_parsing());
}

#[test]
fn stale_parse_is_not_published_and_current_one_is() {
    let mut actions = Vec::new();
    let mut markdown = Markdown::new("# Old", &mut actions);
    let stale = match actions.remove(0) {
        MarkdownAction::SpawnParse { source, options, revision } => (source, options, revision),
        MarkdownAction::Notify => panic!("expected a parse"),
    };
    markdown.replace("# New", &mut actions);
    assert!(actions.is_empty(), "the second parse waits for the first");
    markdown.parse_finished(stale.2, parse_markdown(&stale.0, stale.1), &mut actions);
    assert_eq!(markdown.parsed.source, "# Old", "a stale parse is dropped");
    assert!(markdown.parsed.blocks.is_empty());
    assert_eq!(actions.len(), 1);
    run_until_parked(&mut markdown, &mut actions);
    assert_eq!(markdown.parsed.source, "# New");
    assert!(!markdown.is_parsing());
}

#[test]
fn replacing_with_empty_source_publishes_at_once() {
    let mut actions = Vec::new();
    let mut markdown = Markdown::new("text", &mut actions);
    run_until_parked(&mut markdown, &mut actions);
    markdown.selection.anchor = 1;
    markdown.selection.head = 3;
    markdown.replace("", &mut actions);
    assert!(matches!(actions[0], MarkdownAction::Notify));
    assert_eq!(markdown.parsed.source, "");
    assert_eq!(markdown.selection.anchor, 0);
    assert_eq!(markdown.selection.head, 0);
    assert!(markdown.parsed.blocks.is_empty());
}

#[test]
fn empty_append_changes_nothing() {
    let mut actions = Vec::new();
    let mut markdown = Markdown::new("x", &mut actions);
    let revision = markdown.revision;
    actions.clear();
    markdown.append("", &mut actions);
    assert!(actions.is_empty());
    assert_eq!(markdown.revision, revision);
    assert_eq!(markdown.source(), "x");
}

#[test]
fn revision_wraps_on_replace() {
    let mut actions = Vec::new();
    let mut markdown = Markdown::new("x", &mut actions);
    markdown.revision = u64::MAX;
    markdown.replace("y", &mut actions);
    assert_eq!(markdown.revision, 0);
}

#[test]
fn published_selection_is_clamped_to_the_source() {
    let mut actions = Vec::new();
    let mut markdown = Markdown::new("abcdef", &mut actions);
    markdown.selection.anchor = 10;
    markdown.selection.head = 2;
    run_until_parked(&mut markdown, &mut actions);
    assert_eq!(markdown.selection.anchor, 6);
    assert_eq!(markdown.selection.head, 2);
}

#[test]
fn heading_navigation_uses_published_slugs() {
    let mut actions = Vec::new();
    let options = MarkdownOptions {
        parse_heading_slugs: true,
        ..MarkdownOptions::default()
    };
    let mut markdown = Markdown::new_with_options("intro\n\n# Same\n\n# Same\n", options, &mut actions);
    run_until_parked(&mut markdown, &mut actions);
    assert!(markdown.scroll_to_heading("same-1", &mut actions));
    assert_eq!(markdown.autoscroll_request, Some(15));
    assert!(!markdown.scroll_to_heading("missing", &mut actions));
    assert_eq!(markdown.autoscroll_request, Some(15));
    markdown.scroll_to_source_index(1000, &mut actions);
    assert_eq!(markdown.autoscroll_request, Some(22));
}

#[test]
fn footnote_navigation_uses_published_definitions() {
    let mut actions = Vec::new();
    let mut markdown = Markdown::new("ref[^a]\n\n[^a]: definition", &mut actions);
    run_until_parked(&mut markdown, &mut actions);
    assert!(markdown.scroll_to_footnote("a", &mut actions));
    assert_eq!(markdown.autoscroll_request, Some(9));
    assert!(!markdown.scroll_to_footnote("b", &mut actions));
}

#[test]
fn search_highlights_matches_and_activates_the_first() {
    let mut actions = Vec::new();
    let mut markdown = Markdown::new("Foo foo FOO", &mut actions);
    assert_eq!(markdown.search("foo", false, &mut actions), 3);
    assert_eq!(markdown.search_highlights, vec![0..3, 4..7, 8..11]);
    assert_eq!(markdown.active_search_highlight, Some(0));
    assert_eq!(markdown.search("foo", true, &mut actions), 1);
    assert_eq!(markdown.search_highlights, vec![4..7]);
    assert_eq!(markdown.search("bar", true, &mut actions), 0);
    assert_eq!(markdown.active_search_highlight, None);
    markdown.set_search_highlights(vec![0..1], Some(4), &mut actions);
    assert_eq!(markdown.active_search_highlight, None);
}

#[test]
fn selected_source_requires_character_boundaries() {
    let mut actions = Vec::new();
    let mut markdown = Markdown::new("a中b", &mut actions);
    markdown.selection.anchor = 4;
    markdown.selection.head = 1;
    assert_eq!(markdown.selected_source(), Some("中".to_string()));
    markdown.selection.anchor = 2;
    assert_eq!(markdown.selected_source(), None);
    markdown.selection.anchor = 1;
    assert_eq!(markdown.selected_source(), None);
    markdown.selection.head = 9;
    assert_eq!(markdown.selected_source(), None);
}

#[test]
fn root_block_starts_follow_the_published_parse() {
    let mut actions = Vec::new();
    let mut markdown = Markdown::new("one\n\ntwo", &mut actions);
    assert!(markdown.root_block_starts().is_empty());
    run_until_parked(&mut markdown, &mut actions);
    assert_eq!(markdown.root_block_starts(), vec![0, 5]);
}
