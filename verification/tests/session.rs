use std::time::Duration;
use hearth_text::pacer::StreamingMarkdownConfig;
use hearth_text::session::{ParsedUpdate, SessionAction, TextViewSession};
use hearth_text::worker::{UpdateKind, UpdateWorker};

/// Runs the background parser over every update the session sent, and hands
/// the results back, as the view's tasks do.
fn drain(session: &mut TextViewSession, worker: &mut UpdateWorker, actions: Vec<SessionAction>) -> Vec<SessionAction> {
    let mut follow_up = Vec::new();
    for action in actions {
        if let SessionAction::Send(update) = action {
            if update.kind == UpdateKind::Seed {
                worker.seed(update);
                continue;
            }
            let result = worker.parse_update(&update);
            session.receive(
                ParsedUpdate { revision: update.revision, epoch: update.epoch, kind: update.kind, result },
                &mut follow_up,
            );
        }
    }
    follow_up
}

fn sends(actions: &[SessionAction]) -> usize {
    actions.iter().filter(|action| matches!(action, SessionAction::Send(_))).count()
}

#[test]
fn a_new_view_parses_its_text_at_once() {
    let mut actions = Vec::new();
    let session = TextViewSession::new("# Title", &mut actions);
    assert_eq!(session.source(), "# Title");
    assert_eq!(session.rendered_revision, session.revision);
    assert!(!session.is_parsing());
    assert!(actions.iter().any(|action| matches!(action, SessionAction::Send(update) if update.kind == UpdateKind::Seed)));
}

#[test]
fn set_text_then_push_str_appends_to_replaced_content() {
    let mut worker = UpdateWorker::new();
    let mut actions = Vec::new();
    let mut session = TextViewSession::new("old", &mut actions);
    drain(&mut session, &mut worker, actions);

    let mut actions = Vec::new();
    session.set_text("", &mut actions);
    session.push_str("new", &mut actions);
    drain(&mut session, &mut worker, actions);
    assert_eq!(session.complete_source(), "new");
    assert_eq!(session.source(), "new");
}

#[test]
fn explicit_streaming_batches_provider_deltas_and_settles_once() {
    let mut worker = UpdateWorker::new();
    let mut actions = Vec::new();
    let mut session = TextViewSession::new("", &mut actions);
    drain(&mut session, &mut worker, actions);

    let mut actions = Vec::new();
    session.begin_streaming(&mut actions);
    session.push_str("# ", &mut actions);
    session.push_str("Title", &mut actions);
    let timers: Vec<usize> = actions
        .iter()
        .filter_map(|action| match action {
            SessionAction::ScheduleStreamingParse { generation, .. } => Some(*generation),
            _ => None,
        })
        .collect();
    assert_eq!(timers.len(), 1);
    assert_eq!(sends(&actions), 0);
    assert!(session.is_parsing());
    assert_eq!(session.source(), "");

    let mut actions = Vec::new();
    session.streaming_timer_fired(timers[0], &mut actions);
    assert_eq!(sends(&actions), 1);
    drain(&mut session, &mut worker, actions);
    assert_eq!(session.source(), "# Title");

    let mut actions = Vec::new();
    session.finish_streaming(&mut actions);
    let settled_revision = session.revision;
    session.finish_streaming(&mut actions);
    assert_eq!(session.revision, settled_revision);
    drain(&mut session, &mut worker, actions);
    assert_eq!(session.source(), "# Title");
    assert_eq!(session.rendered_revision, session.revision);
    assert_eq!(session.settled_source_revision, session.source_revision);
}

#[test]
fn set_text_terminates_an_explicit_streaming_session() {
    let mut worker = UpdateWorker::new();
    let mut actions = Vec::new();
    let mut session = TextViewSession::new("", &mut actions);
    session.begin_streaming(&mut actions);
    session.push_str("discarded pending batch", &mut actions);
    session.set_text("replacement", &mut actions);
    session.push_str(" tail", &mut actions);
    assert!(!session.streaming);
    assert!(session.streaming_pending.is_empty());
    drain(&mut session, &mut worker, actions);
    assert_eq!(session.source(), "replacement tail");
}

#[test]
fn implicit_streaming_settles_to_a_canonical_revision_after_idle() {
    let mut worker = UpdateWorker::new();
    let mut actions = Vec::new();
    let mut session = TextViewSession::new("", &mut actions);
    drain(&mut session, &mut worker, actions);

    let mut actions = Vec::new();
    session.push_str("# Title", &mut actions);
    let settle = actions.iter().find_map(|action| match action {
        SessionAction::ScheduleSettle { revision, source_revision } => Some((*revision, *source_revision)),
        _ => None,
    });
    let (revision, source_revision) = settle.expect("settle timer");
    drain(&mut session, &mut worker, actions);
    let append_revision = session.revision;

    let mut actions = Vec::new();
    session.settle_timer_fired(revision, source_revision, &mut actions);
    assert!(session.revision > append_revision);
    drain(&mut session, &mut worker, actions);
    assert_eq!(session.rendered_revision, session.revision);
    assert_eq!(session.source(), "# Title");
}

#[test]
fn stale_settle_timers_and_parses_change_nothing() {
    let mut worker = UpdateWorker::new();
    let mut actions = Vec::new();
    let mut session = TextViewSession::new("a", &mut actions);
    drain(&mut session, &mut worker, actions);
    let before = session.revision;

    let mut actions = Vec::new();
    session.settle_timer_fired(before + 5, session.source_revision, &mut actions);
    assert!(actions.is_empty());
    assert_eq!(session.revision, before);

    let stale = ParsedUpdate {
        revision: session.rendered_revision,
        epoch: session.epoch,
        kind: UpdateKind::Append,
        result: Err(hearth_text::builder::BuildError::PositionOverflow),
    };
    session.receive(stale, &mut actions);
    assert!(actions.is_empty());
    assert_eq!(session.source(), "a");
}

#[test]
fn changed_options_reparse_and_unchanged_ones_do_not() {
    let mut actions = Vec::new();
    let mut session = TextViewSession::new("# A\n\n# A", &mut actions);
    let revision = session.revision;
    let mut options = session.options;
    let mut actions = Vec::new();
    session.set_markdown_options(options, &mut actions);
    assert!(actions.is_empty());
    assert_eq!(session.revision, revision);

    options.parse_heading_slugs = true;
    session.set_markdown_options(options, &mut actions);
    assert_eq!(session.revision, revision + 1);
    assert!(session.options.parse_heading_slugs);
}

#[test]
fn scroll_targets_the_block_holding_a_position() {
    let mut actions = Vec::new();
    let session = TextViewSession::new("# A\n\npara\n\n- item", &mut actions);
    assert_eq!(session.scroll_block_for(0), 0);
    assert_eq!(session.scroll_block_for(6), 1);
    assert_eq!(session.scroll_block_for(100), 2);
}

#[test]
fn search_highlights_use_canonical_source_ranges() {
    let mut actions = Vec::new();
    let mut session = TextViewSession::new("Alpha **beta** alpha ALPHA", &mut actions);
    assert_eq!(session.search("alpha", true, &mut actions), 1);
    assert_eq!(session.search_matches, vec![15..20]);
    assert_eq!(session.active_search_match, Some(0));
    assert_eq!(session.search("alpha", false, &mut actions), 3);
    assert_eq!(session.search_matches, vec![0..5, 15..20, 21..26]);
    assert_eq!(session.search("**", true, &mut actions), 2);
    assert_eq!(session.search_matches, vec![6..8, 12..14]);
    assert_eq!(session.search("", true, &mut actions), 0);
    assert_eq!(session.active_search_match, None);
}

#[test]
fn search_highlight_activation_stays_within_results() {
    let mut actions = Vec::new();
    let mut session = TextViewSession::new("x", &mut actions);
    session.set_search_highlights(vec![0..1, 2..3], Some(5), &mut actions);
    assert_eq!(session.active_search_match, None);
    session.set_active_search_match(Some(1), &mut actions);
    assert_eq!(session.active_search_match, Some(1));
    session.set_active_search_match(Some(2), &mut actions);
    assert_eq!(session.active_search_match, None);
    actions.clear();
    session.clear_search_highlights(&mut actions);
    assert!(session.search_matches.is_empty());
    assert_eq!(actions.len(), 1);
    actions.clear();
    session.clear_search_highlights(&mut actions);
    assert!(actions.is_empty());
}

#[test]
fn refused_search_pattern_shows_no_results() {
    let mut actions = Vec::new();
    let mut session = TextViewSession::new("x", &mut actions);
    session.set_search_highlights(vec![0..1], Some(0), &mut actions);
    assert_eq!(session.show_search_results(None, &mut actions), 0);
    assert!(session.search_matches.is_empty());
    assert_eq!(session.show_search_results(Some(vec![0..1]), &mut actions), 1);
    assert_eq!(session.active_search_match, Some(0));
}

#[test]
fn select_all_and_clear_selection_toggle_the_whole_text_selection() {
    let mut actions = Vec::new();
    let mut session = TextViewSession::new("text", &mut actions);
    session.select_all(&mut actions);
    assert!(session.select_all);
    actions.clear();
    session.clear_selection(&mut actions);
    assert!(!session.select_all);
    assert!(matches!(actions[0], SessionAction::ResetSelection));
    session.select_all(&mut actions);
    session.set_text("other", &mut actions);
    assert!(!session.select_all, "a replacement resets the selection");
}

#[test]
fn streaming_config_sets_the_progressive_parse_delay() {
    let mut actions = Vec::new();
    let mut session = TextViewSession::new("", &mut actions);
    let config = StreamingMarkdownConfig {
        parse_interval: Duration::from_millis(50),
        idle_settle_delay: Duration::from_millis(300),
    };
    session.begin_streaming_with_config(config, &mut actions);
    actions.clear();
    session.push_str("delta", &mut actions);
    let delays: Vec<Duration> = actions
        .iter()
        .filter_map(|action| match action {
            SessionAction::ScheduleStreamingParse { delay, .. } => Some(*delay),
            _ => None,
        })
        .collect();
    assert_eq!(delays, vec![Duration::from_millis(50)]);
}
