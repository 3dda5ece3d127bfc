use float_me_pls::cursor::{manage_cursor, CursorEvent, CursorState};

#[test]
fn left_press_captures() {
    for start in [CursorState::Captured, CursorState::Released] {
        let next = start.on_event(CursorEvent::LeftPress);
        assert_eq!(next, CursorState::Captured);
        assert!(next.pointer_locked());
        assert!(!next.pointer_visible());
        assert!(next.input_enabled());
    }
}

#[test]
fn escape_press_releases() {
    for start in [CursorState::Captured, CursorState::Released] {
        let next = start.on_event(CursorEvent::EscapePress);
        assert_eq!(next, CursorState::Released);
        assert!(!next.pointer_locked());
        assert!(next.pointer_visible());
        assert!(!next.input_enabled());
    }
}

#[test]
fn click_then_escape_ends_released() {
    for start in [CursorState::Captured, CursorState::Released] {
        let clicked = manage_cursor(start, true, false);
        assert_eq!(clicked, CursorState::Captured);
        let escaped = manage_cursor(clicked, false, true);
        assert_eq!(escaped, CursorState::Released);
        assert!(!escaped.input_enabled());
    }
}

#[test]
fn frame_without_edges_keeps_the_state() {
    assert_eq!(manage_cursor(CursorState::Captured, false, false), CursorState::Captured);
    assert_eq!(manage_cursor(CursorState::Released, false, false), CursorState::Released);
}

#[test]
fn escape_wins_within_one_frame() {
    assert_eq!(manage_cursor(CursorState::Captured, true, true), CursorState::Released);
    assert_eq!(manage_cursor(CursorState::Released, true, true), CursorState::Released);
}
