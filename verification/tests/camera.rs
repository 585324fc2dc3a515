use beditor::camera::{
    drag_ended, drag_started, mouse_hovered_in_editor_view, mouse_movement_active, CursorChange, DragButtons,
    DragState, DragUpdate,
};
use beditor::editor_state::{drop_preview, hover_change, DropPreviewActions, HoverChange, UiState};

fn buttons() -> DragButtons {
    DragButtons {
        orbit_just_pressed: false,
        pan_just_pressed: false,
        orbit_just_released: false,
        pan_just_released: false,
        orbit_released: true,
        pan_released: true,
    }
}

#[test]
fn orbit_press_hides_cursor_and_release_shows_it() {
    let press = DragButtons { orbit_just_pressed: true, orbit_released: false, ..buttons() };
    assert_eq!(
        drag_started(press),
        DragUpdate { cursor: CursorChange::Hide, orbit: Some(DragState::Active), pan: None }
    );
    let release = DragButtons { orbit_just_released: true, ..buttons() };
    assert_eq!(
        drag_ended(release),
        DragUpdate { cursor: CursorChange::Show, orbit: Some(DragState::Inactive), pan: None }
    );
}

#[test]
fn cursor_stays_hidden_while_other_drag_is_held() {
    let release = DragButtons { orbit_just_released: true, pan_released: false, ..buttons() };
    assert_eq!(
        drag_ended(release),
        DragUpdate { cursor: CursorChange::Keep, orbit: Some(DragState::Inactive), pan: None }
    );
    assert_eq!(drag_started(buttons()), DragUpdate { cursor: CursorChange::Keep, orbit: None, pan: None });
}

#[test]
fn movement_needs_an_active_drag() {
    assert!(!mouse_movement_active(DragState::Inactive, DragState::Inactive));
    assert!(mouse_movement_active(DragState::Inactive, DragState::Active));
    assert!(mouse_movement_active(DragState::Active, DragState::Inactive));
}

#[test]
fn hovered_editor_view_found() {
    let mut views = vec![UiState::new(), UiState::new()];
    assert!(!mouse_hovered_in_editor_view(&views));
    views[1].mark_hovered();
    assert!(mouse_hovered_in_editor_view(&views));
    assert!(!mouse_hovered_in_editor_view(&[]));
}

#[test]
fn drop_preview_follows_the_pointer() {
    let entered = hover_change(false, true);
    assert_eq!(entered, HoverChange { entered: true, left: false });
    assert_eq!(
        drop_preview(entered, true, true),
        DropPreviewActions { despawn_preview: true, spawn_preview: true }
    );
    assert_eq!(
        drop_preview(entered, false, true),
        DropPreviewActions { despawn_preview: false, spawn_preview: false }
    );
    let left = hover_change(true, false);
    assert_eq!(left, HoverChange { entered: false, left: true });
    assert_eq!(
        drop_preview(left, false, true),
        DropPreviewActions { despawn_preview: true, spawn_preview: false }
    );
    assert_eq!(hover_change(true, true), HoverChange { entered: false, left: false });
}
