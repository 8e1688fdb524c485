use prism::shell::palette::{PaletteSession, PresentationAnchor};

fn anchor() -> PresentationAnchor {
    PresentationAnchor { start_button: None, click_point: None, taskbar_edge: None, monitor: None, work_area: None }
}

#[test]
fn toggling_numbers_each_transition_and_keeps_the_opening_anchor() {
    let mut session = PaletteSession::new();
    let (opening, first) = session.toggle(Some(anchor()));
    assert!(opening);
    assert_eq!(first, 1);
    assert_eq!(session.anchor, Some(anchor()));
    session.focus_pending = true;
    let (opening, second) = session.toggle(None);
    assert!(!opening);
    assert_eq!(second, 2);
    assert!(session.anchor.is_none());
    assert!(!session.focus_pending);
}

#[test]
fn a_pending_hide_is_skipped_after_a_newer_toggle() {
    let mut session = PaletteSession::new();
    session.toggle(None);
    let (_, closed_at) = session.toggle(None);
    assert!(session.hide_due(closed_at));
    session.toggle(None);
    assert!(!session.hide_due(closed_at));
    let (_, closed_again) = session.toggle(None);
    assert!(!session.hide_due(closed_at));
    assert!(session.hide_due(closed_again));
}

#[test]
fn a_raise_retry_lapses_once_the_palette_is_hidden() {
    let mut session = PaletteSession::new();
    let (_, opened_at) = session.toggle(None);
    assert!(session.raise_retry_due(opened_at));
    session.close_by_request();
    assert!(!session.open);
    assert!(!session.raise_retry_due(opened_at));
    assert_eq!(session.transition, opened_at + 1);
}
