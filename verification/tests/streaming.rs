use std::time::Duration;

use hearth_text::mender::{close_hanging_markdown, PENDING_LINK_URL, ZERO_WIDTH_SPACE};
use hearth_text::pacer::{StreamingMarkdownConfig, StreamingTextPacer, StreamingTextPacerConfig};

#[test]
fn pacer_preserves_graphemes_and_line_boundaries() {
    let mut pacer = StreamingTextPacer::with_config(StreamingTextPacerConfig {
        catch_up_frames: 1,
        min_graphemes_per_frame: 1,
        max_graphemes_per_frame: 256,
        ..Default::default()
    });
    pacer.push_str("a👨‍👩‍👧‍👦\nCafe\u{301}");
    assert_eq!(pacer.take_chunk().as_deref(), Some("a👨‍👩‍👧‍👦\n"));
    assert_eq!(pacer.drain(), "Cafe\u{301}");
}

#[test]
fn pacer_adapts_to_backlog_and_preserves_order() {
    let mut pacer = StreamingTextPacer::new();
    let source = "x".repeat(500);
    pacer.push_str(&source);
    let first = pacer.take_chunk().unwrap();
    assert!((12..=256).contains(&first.chars().count()));
    let rebuilt = first + &pacer.drain();
    assert_eq!(rebuilt, source);
}

#[test]
fn pacer_preserves_final_unicode_sequence_across_provider_deltas() {
    let mut pacer = StreamingTextPacer::with_config(StreamingTextPacerConfig {
        catch_up_frames: 1,
        min_graphemes_per_frame: 1,
        max_graphemes_per_frame: 1,
        ..Default::default()
    });
    pacer.push_str("e");
    let first = pacer.take_chunk().unwrap();
    pacer.push_str("\u{301}");

    assert_eq!(first + &pacer.drain(), "e\u{301}");
}

#[test]
fn mender_closes_common_inline_tails() {
    assert_eq!(close_hanging_markdown("**bold").unwrap().markdown, "**bold**");
    assert_eq!(close_hanging_markdown("`code").unwrap().markdown, "`code`");
    assert_eq!(
        close_hanging_markdown("[docs](https://exa").unwrap().markdown,
        format!("[docs]({PENDING_LINK_URL})")
    );
}

#[test]
fn mender_keeps_incomplete_images_literal() {
    assert_eq!(close_hanging_markdown("![alt"), None);
    assert_eq!(close_hanging_markdown("![alt](https://exa"), None);
    assert_eq!(
        close_hanging_markdown("\\![literal").unwrap().markdown,
        format!("\\![literal]({PENDING_LINK_URL})")
    );
}

#[test]
fn mender_ignores_escaped_markers() {
    assert_eq!(close_hanging_markdown("\\*literal"), None);
    assert_eq!(close_hanging_markdown("word_within"), None);
    assert_eq!(close_hanging_markdown("---"), None);
    let setext = close_hanging_markdown("heading\n---").unwrap();
    assert_eq!(setext.synthetic_text_suffix, Some(ZERO_WIDTH_SPACE));
    assert!(setext.markdown.ends_with(ZERO_WIDTH_SPACE));
}

#[test]
fn streaming_markdown_default_matches_the_stream_frame_cadence() {
    assert_eq!(
        StreamingMarkdownConfig::default().parse_interval,
        Duration::from_millis(24)
    );
}

#[test]
fn interleaved_pushes_and_takes_emit_everything_in_order() {
    let mut pacer = StreamingTextPacer::new();
    let mut emitted = String::new();
    let deltas = ["Hello ", "wor", "ld\nsecond ", "line 👍🏽", ""];
    let mut takes = 0;
    for delta in deltas {
        pacer.push_str(delta);
        if let Some(chunk) = pacer.take_chunk() {
            assert!(!chunk.is_empty());
            emitted.push_str(&chunk);
            takes += 1;
        }
        assert_eq!(pacer.frame_interval(), Duration::from_millis(24));
    }
    let mut remaining_takes = 0;
    while let Some(chunk) = pacer.take_chunk() {
        emitted.push_str(&chunk);
        remaining_takes += 1;
    }
    assert!(remaining_takes + takes <= deltas.concat().chars().count());
    assert!(pacer.is_empty());
    assert_eq!(pacer.take_chunk(), None);
    emitted.push_str(&pacer.drain());
    assert_eq!(emitted, deltas.concat());
}

#[test]
fn pushing_nothing_changes_nothing() {
    let mut pacer = StreamingTextPacer::new();
    pacer.push_str("abc");
    pacer.push_str("");
    assert_eq!(pacer.take_chunk().as_deref(), Some("abc"));
    assert!(pacer.is_empty());
}
