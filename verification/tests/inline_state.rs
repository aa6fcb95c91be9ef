use hearth_text::inline_state::InlineState;

#[test]
fn unrelated_wrapped_fragment_cannot_clear_active_hover() {
    let mut state = InlineState::default();

    assert!(state.update_hover(Some(7), 1));
    assert!(!state.update_hover(None, 2));
    assert_eq!(state.hovered_link, Some((7, 1)));
    assert!(state.update_hover(None, 1));
    assert_eq!(state.hovered_link, None);
}

#[test]
fn repeated_hover_report_is_no_change() {
    let mut state = InlineState::default();
    assert!(state.update_hover(Some(3), 4));
    assert!(!state.update_hover(Some(3), 4));
    assert!(state.update_hover(Some(3), 5), "another fragment takes the hover");
    assert_eq!(state.hovered_link, Some((3, 5)));
    assert!(!state.update_hover(None, 4));
    state.set_text("rendered".to_string());
    assert_eq!(state.text, "rendered");
    assert_eq!(state.hovered_link, Some((3, 5)));
}
